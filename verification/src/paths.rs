//! Where settings and notes are kept.  Paths are handled as the bytes of
//! the operating system's path (on Unix, the path itself), joined the way
//! `std::path::Path::join` joins them on Unix; names given as text stand
//! there as their UTF-8 bytes.
use vstd::prelude::*;
use vstd::utf8::{encode_scalar, encode_utf8};
use crate::settings::Settings;

verus! {

broadcast use vstd::string::group_string_axioms;

/// The folder, inside the user's configuration folder, that holds the
/// settings.
pub const CONFIG_DIR_NAME: &'static str = "floating-notes";

/// The settings file, inside `CONFIG_DIR_NAME`.
pub const SETTINGS_FILE_NAME: &'static str = "settings.json";

/// The folder, inside the user's documents, that holds the notes by
/// default: 悬浮便签 ("floating notes").
pub const DEFAULT_NOTES_DIR_NAME: &'static str = "\u{60ac}\u{6d6e}\u{4fbf}\u{7b7e}";

/// The error when no notes folder is configured and the documents folder is
/// unknown: 无法确定默认存储目录 ("cannot determine the default storage
/// folder").
pub const NO_DEFAULT_STORAGE_DIR: &'static str =
    "\u{65e0}\u{6cd5}\u{786e}\u{5b9a}\u{9ed8}\u{8ba4}\u{5b58}\u{50a8}\u{76ee}\u{5f55}";

/// The error when the configuration folder is unknown: 无法确定配置目录
/// ("cannot determine the configuration folder").
pub const NO_CONFIG_DIR: &'static str = "\u{65e0}\u{6cd5}\u{786e}\u{5b9a}\u{914d}\u{7f6e}\u{76ee}\u{5f55}";

/// The byte of `/`, the path separator.
pub const SLASH: u8 = 0x2f;

/// `dir` joined with `name` as `Path::join` does on Unix: an absolute
/// `name` replaces `dir`; otherwise a `/` is put between them unless `dir`
/// is empty or already ends in `/`.
pub open spec fn spec_path_join(dir: Seq<u8>, name: Seq<u8>) -> Seq<u8> {
    if name.len() > 0 && name[0] == SLASH {
        name
    } else if dir.len() == 0 || dir.last() == SLASH {
        dir + name
    } else {
        dir + seq![SLASH] + name
    }
}

/// `v` followed by `tail`.
fn append_bytes(v: &mut Vec<u8>, tail: &[u8])
    ensures
        final(v)@ == old(v)@ + tail@,
{
    let mut i: usize = 0;
    while i < tail.len()
        invariant
            i <= tail.len(),
            v@ == old(v)@ + tail@.take(i as int),
        decreases tail.len() - i,
    {
        v.push(tail[i]);
        i = i + 1;
        assert(v@ =~= old(v)@ + tail@.take(i as int));
    }
    assert(tail@.take(tail.len() as int) =~= tail@);
}

/// `dir` joined with `name` (see `spec_path_join`).
pub fn path_join(dir: &[u8], name: &[u8]) -> (p: Vec<u8>)
    ensures
        p@ == spec_path_join(dir@, name@),
{
    let mut p: Vec<u8> = Vec::new();
    if name.len() > 0 && name[0] == SLASH {
        append_bytes(&mut p, name);
        assert(p@ =~= name@);
        return p;
    }
    append_bytes(&mut p, dir);
    if dir.len() > 0 && dir[dir.len() - 1] != SLASH {
        p.push(SLASH);
    }
    append_bytes(&mut p, name);
    assert(p@ =~= spec_path_join(dir@, name@));
    p
}

/// The user's configuration folder (`dirs::config_dir`), as the bytes of
/// its path (`OsString::into_encoded_bytes`, the path itself on Unix).
///
/// Which folder comes back, if any, depends on the platform and the
/// environment (`$XDG_CONFIG_HOME`, `$HOME`); nothing is stated of it.
#[verifier::external_body]
fn os_config_dir() -> (d: Option<Vec<u8>>) {
    match dirs::config_dir() {
        Some(p) => Some(p.into_os_string().into_encoded_bytes()),
        None => None,
    }
}

/// The user's documents folder (`dirs::document_dir`), as the bytes of its
/// path (`OsString::into_encoded_bytes`, the path itself on Unix).
///
/// Which folder comes back, if any, depends on the platform and the
/// environment (`$HOME`, the XDG user dirs); nothing is stated of it.
#[verifier::external_body]
fn os_document_dir() -> (d: Option<Vec<u8>>) {
    match dirs::document_dir() {
        Some(p) => Some(p.into_os_string().into_encoded_bytes()),
        None => None,
    }
}

/// The optional path `base` joined with `name`.
pub open spec fn join_under(base: Option<Vec<u8>>, name: Seq<u8>) -> Option<Seq<u8>> {
    match base {
        Some(b) => Some(spec_path_join(b@, name)),
        None => None,
    }
}

/// The view of an optional string.
pub open spec fn opt_view(s: Option<String>) -> Option<Seq<char>> {
    match s {
        Some(v) => Some(v@),
        None => None,
    }
}

/// The view of an optional path.
pub open spec fn opt_bytes(p: Option<Vec<u8>>) -> Option<Seq<u8>> {
    match p {
        Some(v) => Some(v@),
        None => None,
    }
}

/// `base` joined with the UTF-8 bytes of `name`, when there is a `base`.
fn join_opt(base: Option<Vec<u8>>, name: &str) -> (r: Option<Vec<u8>>)
    ensures
        opt_bytes(r) == join_under(base, encode_utf8(name@)),
{
    match base {
        Some(b) => Some(path_join(b.as_slice(), name.as_bytes())),
        None => None,
    }
}

/// The app's configuration folder under the user's configuration folder
/// `base`.
pub fn config_dir_in(base: Option<Vec<u8>>) -> (r: Option<Vec<u8>>)
    ensures
        opt_bytes(r) == join_under(base, encode_utf8(CONFIG_DIR_NAME@)),
{
    join_opt(base, CONFIG_DIR_NAME)
}

/// The app's configuration folder: `floating-notes` in the user's
/// configuration folder; none when that folder is unknown.
pub fn config_dir() -> (r: Option<Vec<u8>>)
    ensures
        r matches Some(p) ==> exists|base: Vec<u8>| #[trigger]
            join_under(Some(base), encode_utf8(CONFIG_DIR_NAME@)) == Some(p@),
{
    let base = os_config_dir();
    let r = config_dir_in(base);
    proof {
        if r is Some {
            assert(join_under(Some(base->0), encode_utf8(CONFIG_DIR_NAME@)) == opt_bytes(r));
        }
    }
    r
}

/// The settings file in the app's configuration folder `config`.
pub fn settings_path_in(config: Option<Vec<u8>>) -> (r: Option<Vec<u8>>)
    ensures
        opt_bytes(r) == join_under(config, encode_utf8(SETTINGS_FILE_NAME@)),
{
    join_opt(config, SETTINGS_FILE_NAME)
}

/// The settings file: `settings.json` in the app's configuration folder;
/// none when that folder is unknown.
pub fn settings_path() -> (r: Option<Vec<u8>>)
    ensures
        r matches Some(p) ==> exists|base: Vec<u8>| #[trigger]
            join_under(Some(base), encode_utf8(CONFIG_DIR_NAME@)) matches Some(c) && p@
                == spec_path_join(c, encode_utf8(SETTINGS_FILE_NAME@)),
{
    let base = os_config_dir();
    let config = config_dir_in(base);
    let r = settings_path_in(config);
    proof {
        if r is Some {
            assert(join_under(Some(base->0), encode_utf8(CONFIG_DIR_NAME@)) matches Some(c)
                && r->0@ == spec_path_join(c, encode_utf8(SETTINGS_FILE_NAME@)));
        }
    }
    r
}

/// The default notes folder under the user's documents folder `documents`.
pub fn default_storage_dir_in(documents: Option<Vec<u8>>) -> (r: Option<Vec<u8>>)
    ensures
        opt_bytes(r) == join_under(documents, encode_utf8(DEFAULT_NOTES_DIR_NAME@)),
{
    join_opt(documents, DEFAULT_NOTES_DIR_NAME)
}

/// The default notes folder: 悬浮便签 in the user's documents folder; none
/// when that folder is unknown.
pub fn default_storage_dir() -> (r: Option<Vec<u8>>)
    ensures
        r matches Some(p) ==> exists|base: Vec<u8>| #[trigger]
            join_under(Some(base), encode_utf8(DEFAULT_NOTES_DIR_NAME@)) == Some(p@),
{
    let base = os_document_dir();
    let r = default_storage_dir_in(base);
    proof {
        if r is Some {
            assert(join_under(Some(base->0), encode_utf8(DEFAULT_NOTES_DIR_NAME@)) == opt_bytes(
                r,
            ));
        }
    }
    r
}

/// Whether the settings name a notes folder: a non-empty `storage_dir`.
pub open spec fn has_configured_dir(settings: Settings) -> bool {
    settings.storage_dir matches Some(d) && d@.len() > 0
}

/// The notes folder for `settings` when the default folder is
/// `default_dir`: the configured folder (as its UTF-8 bytes) if the
/// settings name one, else the default; the error `NO_DEFAULT_STORAGE_DIR`
/// when there is neither.
pub open spec fn spec_storage_dir(
    settings: Settings,
    default_dir: Option<Seq<u8>>,
) -> Result<Seq<u8>, Seq<char>> {
    if has_configured_dir(settings) {
        Ok(encode_utf8(settings.storage_dir->0@))
    } else {
        match default_dir {
            Some(d) => Ok(d),
            None => Err(NO_DEFAULT_STORAGE_DIR@),
        }
    }
}

/// The view of a path or an error message.
pub open spec fn result_view(r: Result<Vec<u8>, String>) -> Result<Seq<u8>, Seq<char>> {
    match r {
        Ok(v) => Ok(v@),
        Err(e) => Err(e@),
    }
}

/// Whether `s` is empty.
fn is_empty_string(s: &String) -> (r: bool)
    ensures
        r == (s@.len() == 0),
{
    s.as_str().is_empty()
}

/// The UTF-8 bytes of `s`.
fn bytes_of(s: &String) -> (b: Vec<u8>)
    ensures
        b@ == encode_utf8(s@),
{
    vstd::slice::slice_to_vec(s.as_str().as_bytes())
}

/// The notes folder for `settings` when the default notes folder is
/// `default_dir` (see `spec_storage_dir`).
pub fn storage_dir_in(settings: &Settings, default_dir: Option<Vec<u8>>) -> (r: Result<
    Vec<u8>,
    String,
>)
    ensures
        result_view(r) == spec_storage_dir(*settings, opt_bytes(default_dir)),
{
    match &settings.storage_dir {
        Some(d) if !is_empty_string(d) => Ok(bytes_of(d)),
        _ => match default_dir {
            Some(d) => Ok(d),
            None => Err(String::from_str(NO_DEFAULT_STORAGE_DIR)),
        },
    }
}

/// The notes folder: the one the settings name, if any; else the default
/// notes folder, looked up only then; the error `NO_DEFAULT_STORAGE_DIR`
/// when that is unknown.
pub fn storage_dir(settings: &Settings) -> (r: Result<Vec<u8>, String>)
    ensures
        has_configured_dir(*settings) ==> result_view(r) == Ok::<Seq<u8>, Seq<char>>(
            encode_utf8(settings.storage_dir->0@),
        ),
        !has_configured_dir(*settings) ==> (r matches Ok(p) ==> exists|base: Vec<u8>| #[trigger]
            join_under(Some(base), encode_utf8(DEFAULT_NOTES_DIR_NAME@)) == Some(p@)),
        !has_configured_dir(*settings) ==> (r matches Err(e) ==> e@ == NO_DEFAULT_STORAGE_DIR@),
{
    match &settings.storage_dir {
        Some(d) if !is_empty_string(d) => Ok(bytes_of(d)),
        _ => {
            let default_dir = default_storage_dir();
            storage_dir_in(settings, default_dir)
        },
    }
}

/// The UTF-8 encoding of a character other than `/` holds no `/` byte:
/// ASCII characters encode as themselves, all others as bytes of 0x80 or
/// more.
proof fn lemma_encode_scalar_no_slash(c: char)
    requires
        c != '/',
    ensures
        forall|j: int|
            0 <= j < encode_scalar(c as u32).len() ==> #[trigger] encode_scalar(c as u32)[j] != SLASH,
{
    let v = c as u32;
    assert(v != 0x2f) by {
        vstd::utf8::char_u32_cast(c, v);
        if v == 0x2f {
            assert((0x2fu32 as char) == '/');
        }
    }
    assert(v <= 0x7f && v != 0x2f ==> (v & 0x7f) as u8 != 0x2f) by (bit_vector);
    assert((0xc0u8 | ((v >> 6u32) & 0x1fu32) as u8) != 0x2f) by (bit_vector);
    assert((0xe0u8 | ((v >> 12u32) & 0x0fu32) as u8) != 0x2f) by (bit_vector);
    assert((0xf0u8 | ((v >> 18u32) & 0x7u32) as u8) != 0x2f) by (bit_vector);
    assert((0x80u8 | (v & 0x3fu32) as u8) != 0x2f) by (bit_vector);
    assert((0x80u8 | ((v >> 6u32) & 0x3fu32) as u8) != 0x2f) by (bit_vector);
    assert((0x80u8 | ((v >> 12u32) & 0x3fu32) as u8) != 0x2f) by (bit_vector);
}

/// Text without `/` encodes to bytes without `/`.
pub proof fn lemma_encode_no_slash(s: Seq<char>)
    requires
        forall|i: int| 0 <= i < s.len() ==> #[trigger] s[i] != '/',
    ensures
        forall|j: int| 0 <= j < encode_utf8(s).len() ==> #[trigger] encode_utf8(s)[j] != SLASH,
    decreases s.len(),
{
    if s.len() > 0 {
        assert forall|i: int| 0 <= i < s.drop_first().len() implies #[trigger] s.drop_first()[i]
            != '/' by {
            assert(s.drop_first()[i] == s[i + 1]);
        }
        lemma_encode_no_slash(s.drop_first());
        lemma_encode_scalar_no_slash(s[0]);
        let a = encode_scalar(s[0] as u32);
        let b = encode_utf8(s.drop_first());
        assert(encode_utf8(s) == a + b);
        assert forall|j: int| 0 <= j < encode_utf8(s).len() implies #[trigger] encode_utf8(s)[j]
            != SLASH by {
            if j < a.len() {
                assert(encode_utf8(s)[j] == a[j]);
            } else {
                assert(encode_utf8(s)[j] == b[j - a.len()]);
            }
        }
    }
}

/// A name without `/` joined to a folder that is not empty and does not
/// end in `/` lies directly inside it: the folder, a `/`, the name.
pub proof fn lemma_join_inside(dir: Seq<u8>, name: Seq<u8>)
    requires
        dir.len() > 0,
        dir.last() != SLASH,
        forall|j: int| 0 <= j < name.len() ==> #[trigger] name[j] != SLASH,
    ensures
        spec_path_join(dir, name) == dir + seq![SLASH] + name,
{
    if name.len() > 0 {
        assert(name[0] != SLASH);
    }
}

/// The settings file lies directly inside the app's configuration folder,
/// which lies directly inside the user's configuration folder: the paths
/// are the folders, a `/`, and the fixed names, which hold no `/`.
pub proof fn lemma_settings_file_in_folder(base: Seq<u8>)
    requires
        base.len() > 0,
        base.last() != SLASH,
    ensures
        ({
            let config = encode_utf8(CONFIG_DIR_NAME@);
            let file = encode_utf8(SETTINGS_FILE_NAME@);
            &&& spec_path_join(base, config) == base + seq![SLASH] + config
            &&& spec_path_join(spec_path_join(base, config), file) == base + seq![SLASH] + config
                + seq![SLASH] + file
            &&& forall|j: int| 0 <= j < config.len() ==> #[trigger] config[j] != SLASH
            &&& forall|j: int| 0 <= j < file.len() ==> #[trigger] file[j] != SLASH
        }),
{
    reveal_strlit("floating-notes");
    reveal_strlit("settings.json");
    let config = encode_utf8(CONFIG_DIR_NAME@);
    let file = encode_utf8(SETTINGS_FILE_NAME@);
    lemma_encode_no_slash(CONFIG_DIR_NAME@);
    lemma_encode_no_slash(SETTINGS_FILE_NAME@);
    lemma_join_inside(base, config);
    let c = base + seq![SLASH] + config;
    if config.len() > 0 {
        assert(c.last() == config.last());
    } else {
        assert(c.last() == SLASH);
        vstd::utf8::encode_utf8_first_scalar(CONFIG_DIR_NAME@);
    }
    lemma_join_inside(c, file);
}

/// The default notes folder lies directly inside the user's documents
/// folder.
pub proof fn lemma_default_notes_dir_in_documents(documents: Seq<u8>)
    requires
        documents.len() > 0,
        documents.last() != SLASH,
    ensures
        spec_path_join(documents, encode_utf8(DEFAULT_NOTES_DIR_NAME@)) == documents + seq![SLASH]
            + encode_utf8(DEFAULT_NOTES_DIR_NAME@),
        forall|j: int|
            0 <= j < encode_utf8(DEFAULT_NOTES_DIR_NAME@).len() ==> #[trigger] encode_utf8(
                DEFAULT_NOTES_DIR_NAME@,
            )[j] != SLASH,
{
    reveal_strlit("\u{60ac}\u{6d6e}\u{4fbf}\u{7b7e}");
    lemma_encode_no_slash(DEFAULT_NOTES_DIR_NAME@);
    lemma_join_inside(documents, encode_utf8(DEFAULT_NOTES_DIR_NAME@));
}

} // verus!
