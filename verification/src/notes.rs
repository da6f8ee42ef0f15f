//! Which note file is being edited: the latest note on start, the same
//! file on every later save, a fresh file after "new note".
use vstd::prelude::*;
use crate::filename::{
    chrono_minute_stamp, is_minute_stamp, lemma_file_name_shape, lemma_minute_stamp_chars, make_filename,
    note_file_name,
};
use crate::paths::{lemma_encode_no_slash, lemma_join_inside, path_join, spec_path_join, SLASH};
use vstd::utf8::{decode_utf8, encode_utf8};
use crate::text::{
    chars_lex_le, chars_of, lemma_lex_reflexive, lemma_lex_total,
    lemma_lex_transitive, lex_le, lex_lt,
};

verus! {

broadcast use vstd::string::group_string_axioms;

/// A file name whose extension is `md`, as `Path::extension` reads it: it
/// ends in `.md` and something stands before that dot.
pub open spec fn is_markdown_name(name: Seq<char>) -> bool {
    name.len() >= 4 && name.subrange(name.len() - 3, name.len() as int) == seq!['.', 'm', 'd']
}

/// Whether the file name `name` has the extension `md`.
pub fn is_markdown_file(name: &str) -> (r: bool)
    ensures
        r == is_markdown_name(name@),
{
    let n = name.unicode_len();
    if n < 4 {
        return false;
    }
    let r = name.get_char(n - 3) == '.' && name.get_char(n - 2) == 'm' && name.get_char(n - 1)
        == 'd';
    assert(r == (name@.subrange(n - 3, n as int) =~= seq!['.', 'm', 'd']));
    r
}

/// `i` is the position of the latest note among `names`: a Markdown name
/// that no other Markdown name follows in lexicographic order, and the first
/// such position.
pub open spec fn is_latest_note(names: Seq<String>, i: int) -> bool {
    &&& 0 <= i < names.len()
    &&& is_markdown_name(names[i]@)
    &&& forall|j: int|
        0 <= j < names.len() && is_markdown_name(#[trigger] names[j]@) ==> lex_le(
            names[j]@,
            names[i]@,
        )
    &&& forall|j: int|
        0 <= j < i && is_markdown_name(#[trigger] names[j]@) ==> lex_lt(names[j]@, names[i]@)
}

/// The latest note among the file names of a folder: the Markdown file
/// whose name is greatest in lexicographic order (names start with their
/// time stamp, so this is the newest note); `None` when there is no
/// Markdown file.  Among equal names the first is taken.
pub fn latest_note(names: &Vec<String>) -> (r: Option<usize>)
    ensures
        r matches Some(i) ==> is_latest_note(names@, i as int),
        r is None <==> forall|j: int| 0 <= j < names@.len() ==> !is_markdown_name(#[trigger] names@[j]@),
{
    let mut best: Option<usize> = None;
    let mut best_chars: Vec<char> = Vec::new();
    let mut i: usize = 0;
    while i < names.len()
        invariant
            i <= names.len(),
            best matches Some(b) ==> {
                &&& b < i
                &&& best_chars@ == names@[b as int]@
                &&& is_markdown_name(names@[b as int]@)
                &&& forall|j: int|
                    0 <= j < i && is_markdown_name(#[trigger] names@[j]@) ==> lex_le(
                        names@[j]@,
                        names@[b as int]@,
                    )
                &&& forall|j: int|
                    0 <= j < b && is_markdown_name(#[trigger] names@[j]@) ==> lex_lt(
                        names@[j]@,
                        names@[b as int]@,
                    )
            },
            best is None ==> forall|j: int| 0 <= j < i ==> !is_markdown_name(#[trigger] names@[j]@),
        decreases names.len() - i,
    {
        if is_markdown_file(names[i].as_str()) {
            let cur = chars_of(names[i].as_str());
            match best {
                None => {
                    proof {
                        lemma_lex_reflexive(cur@);
                    }
                    best = Some(i);
                    best_chars = cur;
                },
                Some(b) => {
                    if !chars_lex_le(&cur, &best_chars) {
                        proof {
                            lemma_lex_total(cur@, best_chars@);
                            lemma_lex_reflexive(cur@);
                            assert forall|j: int|
                                0 <= j < i + 1 && is_markdown_name(
                                    #[trigger] names@[j]@,
                                ) implies lex_le(names@[j]@, cur@) by {
                                if j < i {
                                    lemma_lex_transitive(names@[j]@, best_chars@, cur@);
                                }
                            }
                            assert forall|j: int|
                                0 <= j < i && is_markdown_name(
                                    #[trigger] names@[j]@,
                                ) implies lex_lt(names@[j]@, cur@) by {
                                if lex_le(cur@, names@[j]@) {
                                    lemma_lex_transitive(cur@, names@[j]@, best_chars@);
                                }
                            }
                        }
                        best = Some(i);
                        best_chars = cur;
                    }
                },
            }
        }
        i = i + 1;
    }
    best
}

/// A note file: the folder it lies in and its name there.
#[derive(Debug)]
pub struct NoteFile {
    /// The folder, as the bytes of its path.
    pub dir: Vec<u8>,
    pub name: String,
}

impl View for NoteFile {
    type V = (Seq<u8>, Seq<char>);

    /// The folder's path bytes and the file's name.
    open spec fn view(&self) -> (Seq<u8>, Seq<char>) {
        (self.dir@, self.name@)
    }
}

impl NoteFile {
    /// The file's path.
    pub open spec fn spec_path(self) -> Seq<u8> {
        spec_path_join(self.dir@, encode_utf8(self.name@))
    }

    /// The file's path: its name joined to its folder.
    pub fn path(&self) -> (p: Vec<u8>)
        ensures
            p@ == self.spec_path(),
            p@ == spec_path_join(self.dir@, encode_utf8(self.name@)),
    {
        path_join(self.dir.as_slice(), self.name.as_str().as_bytes())
    }

    /// A copy of this file's description.
    pub fn duplicate(&self) -> (r: NoteFile)
        ensures
            r@ == self@,
    {
        NoteFile { dir: vstd::slice::slice_to_vec(self.dir.as_slice()), name: self.name.clone() }
    }
}

/// What the app knows of the note being edited: the file it was last saved
/// to or opened from, if any.
#[derive(Debug)]
pub struct NoteSession {
    pub current: Option<NoteFile>,
}

impl NoteSession {
    /// No note being edited.
    pub fn new() -> (s: NoteSession)
        ensures
            s.current is None,
    {
        NoteSession { current: None }
    }

    /// Starts a new note: the next save writes a fresh file.
    pub fn start_new_note(&mut self)
        ensures
            final(self).current is None,
    {
        self.current = None;
    }

    /// Opens a note on start: the latest note when there is one, none
    /// otherwise (no such file, or the app does not open the latest note).
    pub fn open(&mut self, file: Option<NoteFile>)
        ensures
            final(self).current == file,
    {
        self.current = file;
    }

    /// The file a save of the note writes, when a fresh file would be named
    /// `fresh_name`: the current file if there is one and it still exists,
    /// else `fresh_name` in `dir`.
    pub open spec fn spec_save_target(
        self,
        current_exists: bool,
        dir: Vec<u8>,
        fresh_name: String,
    ) -> NoteFile {
        match self.current {
            Some(f) if current_exists => f,
            _ => NoteFile { dir, name: fresh_name },
        }
    }

    /// Whether a save writes the current file: there is one and it still
    /// exists.
    pub open spec fn keeps_current(self, current_exists: bool) -> bool {
        self.current is Some && current_exists
    }

    /// The file a save writes when a fresh file would be named
    /// `fresh_name` (see `spec_save_target`).
    pub fn save_target_named(&self, current_exists: bool, dir: Vec<u8>, fresh_name: String) -> (f:
        NoteFile)
        ensures
            f@ == self.spec_save_target(current_exists, dir, fresh_name)@,
    {
        match &self.current {
            Some(c) if current_exists => c.duplicate(),
            _ => NoteFile { dir, name: fresh_name },
        }
    }

    /// The file a save of the note with `content` writes: the current file
    /// when there is one and it still exists (`current_exists`), else a
    /// fresh file in `dir` named by `make_filename` in the time zone
    /// `utc_offset_secs` seconds east of UTC, which is called only then.
    /// `None` only when a fresh name is needed and the clock gives none.
    pub fn save_target(
        &self,
        current_exists: bool,
        dir: Vec<u8>,
        content: &str,
        utc_offset_secs: i32,
    ) -> (f: Option<NoteFile>)
        ensures
            self.keeps_current(current_exists) ==> (f matches Some(g) && g@ == self.current->0@),
            !self.keeps_current(current_exists) ==> (f matches Some(g) ==> {
                &&& g.dir@ == dir@
                &&& exists|secs: i64, ts: Seq<char>|
                    #![trigger chrono_minute_stamp(secs, utc_offset_secs), note_file_name(ts, content@)]
                    chrono_minute_stamp(secs, utc_offset_secs) == Some(ts) && is_minute_stamp(ts)
                        && g.name@ == note_file_name(ts, content@)
            }),
    {
        if self.current.is_some() && current_exists {
            Some(self.save_target_named(current_exists, dir, String::new()))
        } else {
            match make_filename(content, utc_offset_secs) {
                Some(name) => Some(self.save_target_named(current_exists, dir, name)),
                None => None,
            }
        }
    }

    /// Records that the note was written to `file`, which becomes the
    /// current file.
    pub fn record_saved(&mut self, file: NoteFile)
        ensures
            final(self).current == Some(file),
    {
        self.current = Some(file);
    }
}

/// What the front end is told of a note: its text, its file name, and when
/// it was created (the file name, which starts with the time stamp).
#[derive(Debug)]
pub struct NoteData {
    pub content: String,
    pub filename: String,
    pub created_at: String,
}

impl NoteData {
    /// The note with `content` kept in `file`.
    pub fn of_file(content: String, file: &NoteFile) -> (d: NoteData)
        ensures
            d.content == content,
            d.filename == file.name,
            d.created_at == file.name,
    {
        NoteData { content, filename: file.name.clone(), created_at: file.name.clone() }
    }
}

/// Once a note is saved, every later save writes the same file while it
/// exists, whatever folder and fresh name would otherwise be used.
pub proof fn lemma_saves_stay_on_one_file(
    session: NoteSession,
    exists_first: bool,
    dir: Vec<u8>,
    fresh_name: String,
    later_dir: Vec<u8>,
    later_name: String,
)
    ensures
        ({
            let f = session.spec_save_target(exists_first, dir, fresh_name);
            let after = NoteSession { current: Some(f) };
            after.spec_save_target(true, later_dir, later_name) == f
        }),
{
}

/// After "new note" (or when no note is open) a save writes a fresh file,
/// and so does a save whose current file has gone.
pub proof fn lemma_new_note_saves_fresh(
    session: NoteSession,
    current_exists: bool,
    dir: Vec<u8>,
    fresh_name: String,
)
    requires
        session.current is None || !current_exists,
    ensures
        session.spec_save_target(current_exists, dir, fresh_name) == (NoteFile {
            dir,
            name: fresh_name,
        }),
{
}

/// A fresh note file lies directly inside the notes folder: its path is the
/// folder, a `/`, and the file name's bytes, which hold no `/`.
pub proof fn lemma_fresh_note_in_folder(dir: Seq<u8>, ts: Seq<char>, content: Seq<char>)
    requires
        is_minute_stamp(ts),
        dir.len() > 0,
        dir.last() != SLASH,
    ensures
        ({
            let name = encode_utf8(note_file_name(ts, content));
            &&& spec_path_join(dir, name) == dir + seq![SLASH] + name
            &&& forall|j: int| 0 <= j < name.len() ==> #[trigger] name[j] != SLASH
        }),
{
    lemma_minute_stamp_chars(ts);
    lemma_file_name_shape(ts, content);
    lemma_encode_no_slash(note_file_name(ts, content));
    lemma_join_inside(dir, encode_utf8(note_file_name(ts, content)));
}

/// A note file's path, for a folder that is not empty and does not end in
/// `/` and a name without `/`, is the folder's bytes, a `/`, and the UTF-8
/// bytes of the name; decoding what follows the folder and the `/` gives
/// the name back, so distinct names in one folder have distinct paths.
pub proof fn lemma_note_path_reads_back(f: NoteFile)
    requires
        f.dir@.len() > 0,
        f.dir@.last() != SLASH,
        forall|i: int| 0 <= i < f.name@.len() ==> #[trigger] f.name@[i] != '/',
    ensures
        f.spec_path() == f.dir@ + seq![SLASH] + encode_utf8(f.name@),
        decode_utf8(f.spec_path().skip(f.dir@.len() as int + 1)) == f.name@,
{
    lemma_encode_no_slash(f.name@);
    lemma_join_inside(f.dir@, encode_utf8(f.name@));
    let p = f.dir@ + seq![SLASH] + encode_utf8(f.name@);
    assert(p.skip(f.dir@.len() as int + 1) =~= encode_utf8(f.name@));
    vstd::utf8::encode_utf8_decode_utf8(f.name@);
}

/// Two note files in the same folder with different names have different
/// paths.
pub proof fn lemma_note_paths_distinct(f: NoteFile, g: NoteFile)
    requires
        f.dir@ == g.dir@,
        f.dir@.len() > 0,
        f.dir@.last() != SLASH,
        forall|i: int| 0 <= i < f.name@.len() ==> #[trigger] f.name@[i] != '/',
        forall|i: int| 0 <= i < g.name@.len() ==> #[trigger] g.name@[i] != '/',
        f.name@ != g.name@,
    ensures
        f.spec_path() != g.spec_path(),
{
    lemma_note_path_reads_back(f);
    lemma_note_path_reads_back(g);
}

} // verus!
