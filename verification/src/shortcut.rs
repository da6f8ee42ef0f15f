//! Global shortcuts written as text, such as `Cmd+Shift+N`: the modifier
//! words and the key they name.
use vstd::prelude::*;
use crate::text::{chars_equal, chars_of, trim, trimmed};

verus! {

broadcast use vstd::string::group_string_axioms;

/// The shortcut used when the settings name none.
pub const DEFAULT_SHORTCUT: &'static str = "Cmd+Shift+N";

/// A key that a shortcut may end with.
#[derive(Clone, Copy, Debug, PartialEq, Eq, Structural)]
pub enum KeyCode {
    /// A letter key, `'A'` to `'Z'`.
    Letter(char),
    /// A digit key of the main block, `'0'` to `'9'`.
    Digit(char),
    Space,
    Enter,
    Escape,
    Tab,
}

/// The modifier keys held with a shortcut.
#[derive(Clone, Copy, Debug, PartialEq, Eq, Structural)]
pub struct Modifiers {
    /// Command on macOS (the Super key elsewhere).
    pub super_key: bool,
    pub control: bool,
    /// Option on macOS.
    pub alt: bool,
    pub shift: bool,
}

/// A shortcut: modifiers and one key.
#[derive(Clone, Copy, Debug, PartialEq, Eq, Structural)]
pub struct Hotkey {
    pub modifiers: Modifiers,
    pub code: KeyCode,
}

/// What has been read of a shortcut so far: the modifiers, the key if one
/// was named, and whether the text was found to be no shortcut.
#[derive(Clone, Copy, Debug, PartialEq, Eq, Structural)]
pub struct ShortcutScan {
    pub modifiers: Modifiers,
    pub code: Option<KeyCode>,
    pub rejected: bool,
}

impl Modifiers {
    /// No modifier held.
    pub open spec fn spec_none() -> Modifiers {
        Modifiers { super_key: false, control: false, alt: false, shift: false }
    }

    /// No modifier held.
    pub fn none() -> (m: Modifiers)
        ensures
            m == Modifiers::spec_none(),
    {
        Modifiers { super_key: false, control: false, alt: false, shift: false }
    }
}

impl ShortcutScan {
    /// The state before any part of a shortcut is read.
    pub open spec fn spec_start() -> ShortcutScan {
        ShortcutScan { modifiers: Modifiers::spec_none(), code: None, rejected: false }
    }
}

/// A key named by `p`: one capital letter, one digit, or one of `Space`,
/// `Enter`, `Escape` and `Tab`.
pub open spec fn spec_parse_code(p: Seq<char>) -> Option<KeyCode> {
    if p.len() == 1 && 'A' <= p[0] && p[0] <= 'Z' {
        Some(KeyCode::Letter(p[0]))
    } else if p.len() == 1 && '0' <= p[0] && p[0] <= '9' {
        Some(KeyCode::Digit(p[0]))
    } else if p == "Space"@ {
        Some(KeyCode::Space)
    } else if p == "Enter"@ {
        Some(KeyCode::Enter)
    } else if p == "Escape"@ {
        Some(KeyCode::Escape)
    } else if p == "Tab"@ {
        Some(KeyCode::Tab)
    } else {
        None
    }
}

/// `p` names the Command (Super) modifier.
pub open spec fn is_super_word(p: Seq<char>) -> bool {
    p == "Cmd"@ || p == "Super"@ || p == "Command"@ || p == "Meta"@
}

/// `p` names the Control modifier.
pub open spec fn is_control_word(p: Seq<char>) -> bool {
    p == "Ctrl"@ || p == "Control"@
}

/// `p` names the Alt (Option) modifier.
pub open spec fn is_alt_word(p: Seq<char>) -> bool {
    p == "Alt"@ || p == "Option"@
}

/// `p` names the Shift modifier.
pub open spec fn is_shift_word(p: Seq<char>) -> bool {
    p == "Shift"@
}

/// `p` names some modifier.
pub open spec fn is_modifier_word(p: Seq<char>) -> bool {
    is_super_word(p) || is_control_word(p) || is_alt_word(p) || is_shift_word(p)
}

/// Reads one `+`-separated part of a shortcut.  Surrounding white space is
/// ignored; a modifier word adds its modifier; any other part names the key,
/// and a second key makes the text no shortcut.  Once rejected, the text
/// stays rejected.
pub open spec fn scan_part(st: ShortcutScan, part: Seq<char>) -> ShortcutScan {
    let p = trim(part);
    if st.rejected {
        st
    } else if is_super_word(p) {
        ShortcutScan {
            modifiers: Modifiers { super_key: true, ..st.modifiers },
            ..st
        }
    } else if is_control_word(p) {
        ShortcutScan {
            modifiers: Modifiers { control: true, ..st.modifiers },
            ..st
        }
    } else if is_alt_word(p) {
        ShortcutScan {
            modifiers: Modifiers { alt: true, ..st.modifiers },
            ..st
        }
    } else if is_shift_word(p) {
        ShortcutScan {
            modifiers: Modifiers { shift: true, ..st.modifiers },
            ..st
        }
    } else if st.code is Some {
        ShortcutScan { rejected: true, ..st }
    } else {
        ShortcutScan { code: spec_parse_code(p), ..st }
    }
}

/// The parts of `s` between `+` signs (`str::split('+')`): one part more
/// than `s` has `+` signs.
pub open spec fn split_parts(s: Seq<char>) -> Seq<Seq<char>>
    decreases s.len(),
{
    if s.len() == 0 {
        seq![Seq::<char>::empty()]
    } else if s.last() == '+' {
        split_parts(s.drop_last()).push(Seq::<char>::empty())
    } else {
        let p = split_parts(s.drop_last());
        p.update(p.len() - 1, p.last().push(s.last()))
    }
}

/// The state after reading `parts` in order.
pub open spec fn scan_all(parts: Seq<Seq<char>>) -> ShortcutScan
    decreases parts.len(),
{
    if parts.len() == 0 {
        ShortcutScan::spec_start()
    } else {
        scan_part(scan_all(parts.drop_last()), parts.last())
    }
}

/// The shortcut that a finished scan names: none when the text was rejected
/// or named no key.
pub open spec fn scan_result(st: ShortcutScan) -> Option<Hotkey> {
    if st.rejected {
        None
    } else {
        match st.code {
            Some(c) => Some(Hotkey { modifiers: st.modifiers, code: c }),
            None => None,
        }
    }
}

/// The shortcut that the text `s` names, if any.
pub open spec fn spec_parse_shortcut(s: Seq<char>) -> Option<Hotkey> {
    scan_result(scan_all(split_parts(s)))
}

/// The key named by `p` (see `spec_parse_code`).
fn parse_code_chars(p: &Vec<char>) -> (r: Option<KeyCode>)
    ensures
        r == spec_parse_code(p@),
{
    if p.len() == 1 && 'A' <= p[0] && p[0] <= 'Z' {
        Some(KeyCode::Letter(p[0]))
    } else if p.len() == 1 && '0' <= p[0] && p[0] <= '9' {
        Some(KeyCode::Digit(p[0]))
    } else if chars_equal(p, "Space") {
        Some(KeyCode::Space)
    } else if chars_equal(p, "Enter") {
        Some(KeyCode::Enter)
    } else if chars_equal(p, "Escape") {
        Some(KeyCode::Escape)
    } else if chars_equal(p, "Tab") {
        Some(KeyCode::Tab)
    } else {
        None
    }
}

/// The key named by `p`: `A`..`Z`, `0`..`9`, `Space`, `Enter`, `Escape` or
/// `Tab`, compared exactly (case matters, no white space).
pub fn parse_code(p: &str) -> (r: Option<KeyCode>)
    ensures
        r == spec_parse_code(p@),
{
    let v = chars_of(p);
    parse_code_chars(&v)
}

/// Reads one part of a shortcut (see `scan_part`).
fn scan_step(st: ShortcutScan, part: &Vec<char>) -> (r: ShortcutScan)
    ensures
        r == scan_part(st, part@),
{
    if st.rejected {
        return st;
    }
    let p = trimmed(part);
    if chars_equal(&p, "Cmd") || chars_equal(&p, "Super") || chars_equal(&p, "Command")
        || chars_equal(&p, "Meta") {
        ShortcutScan { modifiers: Modifiers { super_key: true, ..st.modifiers }, ..st }
    } else if chars_equal(&p, "Ctrl") || chars_equal(&p, "Control") {
        ShortcutScan { modifiers: Modifiers { control: true, ..st.modifiers }, ..st }
    } else if chars_equal(&p, "Alt") || chars_equal(&p, "Option") {
        ShortcutScan { modifiers: Modifiers { alt: true, ..st.modifiers }, ..st }
    } else if chars_equal(&p, "Shift") {
        ShortcutScan { modifiers: Modifiers { shift: true, ..st.modifiers }, ..st }
    } else if st.code.is_some() {
        ShortcutScan { rejected: true, ..st }
    } else {
        ShortcutScan { code: parse_code_chars(&p), ..st }
    }
}

/// The shortcut that the text `s` names, such as `Cmd+Shift+N`: parts
/// between `+` signs, each trimmed, are modifier words (`Cmd`, `Super`,
/// `Command`, `Meta`; `Ctrl`, `Control`; `Alt`, `Option`; `Shift`) or a key
/// (see `parse_code`).  `None` when no part names a known key, when the last
/// key-naming part names none, or when a part follows a known key without
/// being a modifier.
pub fn parse_shortcut(s: &str) -> (r: Option<Hotkey>)
    ensures
        r == spec_parse_shortcut(s@),
{
    let v = chars_of(s);
    let mut st = ShortcutScan { modifiers: Modifiers::none(), code: None, rejected: false };
    let mut cur: Vec<char> = Vec::new();
    let ghost mut done: Seq<Seq<char>> = Seq::empty();
    let mut i: usize = 0;
    assert(v@.take(0) =~= Seq::<char>::empty());
    assert(split_parts(Seq::<char>::empty()) =~= done.push(cur@));
    while i < v.len()
        invariant
            i <= v.len(),
            split_parts(v@.take(i as int)) == done.push(cur@),
            st == scan_all(done),
        decreases v.len() - i,
    {
        assert(v@.take(i + 1).drop_last() =~= v@.take(i as int));
        if v[i] == '+' {
            st = scan_step(st, &cur);
            proof {
                assert(done.push(cur@).drop_last() =~= done);
                done = done.push(cur@);
            }
            cur = Vec::new();
            assert(split_parts(v@.take(i + 1)) =~= done.push(cur@));
        } else {
            cur.push(v[i]);
            assert(split_parts(v@.take(i + 1)) =~= done.push(cur@));
        }
        i = i + 1;
    }
    assert(v@.take(v.len() as int) =~= v@);
    st = scan_step(st, &cur);
    proof {
        assert(done.push(cur@).drop_last() =~= done);
        done = done.push(cur@);
    }
    if st.rejected {
        None
    } else {
        match st.code {
            Some(c) => Some(Hotkey { modifiers: st.modifiers, code: c }),
            None => None,
        }
    }
}

/// The shortcut text in effect: the configured one, or `DEFAULT_SHORTCUT`.
pub open spec fn effective_shortcut(configured: Option<Seq<char>>) -> Seq<char> {
    match configured {
        Some(s) => s,
        None => DEFAULT_SHORTCUT@,
    }
}

/// The shortcut to register for the configured text: none when the text in
/// effect is empty, else what it names.
pub open spec fn spec_shortcut_to_register(configured: Option<Seq<char>>) -> Option<Hotkey> {
    let s = effective_shortcut(configured);
    if s.len() == 0 {
        None
    } else {
        spec_parse_shortcut(s)
    }
}

/// The shortcut to register after the settings change: the configured text
/// (`DEFAULT_SHORTCUT` when none is set); none when that text is empty or
/// names no shortcut.
pub fn shortcut_to_register(configured: &Option<String>) -> (r: Option<Hotkey>)
    ensures
        r == spec_shortcut_to_register(
            match configured {
                Some(s) => Some(s@),
                None => None,
            },
        ),
{
    match configured {
        Some(s) => {
            let t = s.as_str();
            if t.is_empty() {
                assert(t@.len() == 0);
                None
            } else {
                parse_shortcut(t)
            }
        },
        None => {
            proof {
                reveal_strlit("Cmd+Shift+N");
            }
            assert(DEFAULT_SHORTCUT@.len() != 0);
            parse_shortcut(DEFAULT_SHORTCUT)
        },
    }
}

/// `p` (a part between `+` signs) is no modifier word once trimmed: it is
/// read as a key.
pub open spec fn is_key_part(p: Seq<char>) -> bool {
    !is_modifier_word(trim(p))
}

/// How many of `parts` are read as keys.
pub open spec fn key_part_count(parts: Seq<Seq<char>>) -> nat
    decreases parts.len(),
{
    if parts.len() == 0 {
        0
    } else if is_key_part(parts.last()) {
        key_part_count(parts.drop_last()) + 1
    } else {
        key_part_count(parts.drop_last())
    }
}

/// The key named by the last of `parts` that is read as a key; `None`
/// when there is none or it names no key.
pub open spec fn key_of_parts(parts: Seq<Seq<char>>) -> Option<KeyCode>
    decreases parts.len(),
{
    if parts.len() == 0 {
        None
    } else if is_key_part(parts.last()) {
        spec_parse_code(trim(parts.last()))
    } else {
        key_of_parts(parts.drop_last())
    }
}

/// `p` (trimmed) sets the Command modifier.
pub open spec fn sets_super(p: Seq<char>) -> bool {
    is_super_word(trim(p))
}

/// `p` (trimmed) sets the Control modifier.
pub open spec fn sets_control(p: Seq<char>) -> bool {
    !is_super_word(trim(p)) && is_control_word(trim(p))
}

/// `p` (trimmed) sets the Alt modifier.
pub open spec fn sets_alt(p: Seq<char>) -> bool {
    !is_super_word(trim(p)) && !is_control_word(trim(p)) && is_alt_word(trim(p))
}

/// `p` (trimmed) sets the Shift modifier.
pub open spec fn sets_shift(p: Seq<char>) -> bool {
    !is_super_word(trim(p)) && !is_control_word(trim(p)) && !is_alt_word(trim(p))
        && is_shift_word(trim(p))
}

/// The modifiers that `parts` name: each one that some part names.
pub open spec fn modifiers_of(parts: Seq<Seq<char>>) -> Modifiers {
    Modifiers {
        super_key: exists|i: int| 0 <= i < parts.len() && sets_super(#[trigger] parts[i]),
        control: exists|i: int| 0 <= i < parts.len() && sets_control(#[trigger] parts[i]),
        alt: exists|i: int| 0 <= i < parts.len() && sets_alt(#[trigger] parts[i]),
        shift: exists|i: int| 0 <= i < parts.len() && sets_shift(#[trigger] parts[i]),
    }
}

/// Reading parts of which at most one is a key gathers the modifiers the
/// parts name and the key the one key part names, and never rejects.
proof fn lemma_scan_at_most_one_key(parts: Seq<Seq<char>>)
    requires
        key_part_count(parts) <= 1,
    ensures
        scan_all(parts) == (ShortcutScan {
            modifiers: modifiers_of(parts),
            code: key_of_parts(parts),
            rejected: false,
        }),
    decreases parts.len(),
{
    if parts.len() > 0 {
        let pre = parts.drop_last();
        let x = parts.last();
        lemma_scan_at_most_one_key(pre);
        if is_key_part(x) {
            lemma_no_key_part(pre);
        }
        let m = modifiers_of(parts);
        let mp = modifiers_of(pre);
        assert forall|i: int| 0 <= i < pre.len() implies #[trigger] pre[i] == parts[i] by {}
        assert(parts[parts.len() - 1] == x);
        if sets_super(x) {
            assert(m.super_key);
        }
        if mp.super_key {
            let i = choose|i: int| 0 <= i < pre.len() && sets_super(#[trigger] pre[i]);
            assert(sets_super(parts[i]));
        }
        if mp.control {
            let i = choose|i: int| 0 <= i < pre.len() && sets_control(#[trigger] pre[i]);
            assert(sets_control(parts[i]));
        }
        if mp.alt {
            let i = choose|i: int| 0 <= i < pre.len() && sets_alt(#[trigger] pre[i]);
            assert(sets_alt(parts[i]));
        }
        if mp.shift {
            let i = choose|i: int| 0 <= i < pre.len() && sets_shift(#[trigger] pre[i]);
            assert(sets_shift(parts[i]));
        }
        if m.super_key && !sets_super(x) {
            let i = choose|i: int| 0 <= i < parts.len() && sets_super(#[trigger] parts[i]);
            assert(i < pre.len() && sets_super(pre[i]));
        }
        if m.control && !sets_control(x) {
            let i = choose|i: int| 0 <= i < parts.len() && sets_control(#[trigger] parts[i]);
            assert(i < pre.len() && sets_control(pre[i]));
        }
        if m.alt && !sets_alt(x) {
            let i = choose|i: int| 0 <= i < parts.len() && sets_alt(#[trigger] parts[i]);
            assert(i < pre.len() && sets_alt(pre[i]));
        }
        if m.shift && !sets_shift(x) {
            let i = choose|i: int| 0 <= i < parts.len() && sets_shift(#[trigger] parts[i]);
            assert(i < pre.len() && sets_shift(pre[i]));
        }
        if sets_control(x) {
            assert(m.control);
        }
        if sets_alt(x) {
            assert(m.alt);
        }
        if sets_shift(x) {
            assert(m.shift);
        }
    } else {
        assert(modifiers_of(parts) == Modifiers::spec_none());
    }
}

/// With no key part, no part is a key part and no key is named.
proof fn lemma_no_key_part(parts: Seq<Seq<char>>)
    requires
        key_part_count(parts) == 0,
    ensures
        key_of_parts(parts) is None,
        forall|i: int| 0 <= i < parts.len() ==> !is_key_part(#[trigger] parts[i]),
    decreases parts.len(),
{
    if parts.len() > 0 {
        lemma_no_key_part(parts.drop_last());
        assert forall|i: int| 0 <= i < parts.len() implies !is_key_part(#[trigger] parts[i]) by {
            if i < parts.len() - 1 {
                assert(parts.drop_last()[i] == parts[i]);
            }
        }
    }
}

/// With exactly one key part, it is the one at any position holding a key
/// part, and the key named is its key.
proof fn lemma_one_key_part(parts: Seq<Seq<char>>, j: int)
    requires
        key_part_count(parts) == 1,
        0 <= j < parts.len(),
        is_key_part(parts[j]),
    ensures
        key_of_parts(parts) == spec_parse_code(trim(parts[j])),
    decreases parts.len(),
{
    let pre = parts.drop_last();
    if is_key_part(parts.last()) {
        if j < parts.len() - 1 {
            lemma_no_key_part(pre);
            assert(pre[j] == parts[j]);
        }
    } else {
        assert(j < parts.len() - 1);
        assert(pre[j] == parts[j]);
        lemma_one_key_part(pre, j);
    }
}

/// A key part among `parts` makes `key_part_count` at least one.
proof fn lemma_key_part_counted(parts: Seq<Seq<char>>, j: int)
    requires
        0 <= j < parts.len(),
        is_key_part(parts[j]),
    ensures
        key_part_count(parts) >= 1,
    decreases parts.len(),
{
    if !is_key_part(parts.last()) {
        assert(parts.drop_last()[j] == parts[j]);
        lemma_key_part_counted(parts.drop_last(), j);
    }
}

/// Text whose `+`-separated parts are modifier words (repeats allowed) and
/// at most one other part names the modifiers that those words name
/// together with the key that the other part names; it names no shortcut
/// when there is no other part or that part names no key.
pub proof fn lemma_modifiers_and_one_key(s: Seq<char>)
    requires
        key_part_count(split_parts(s)) <= 1,
    ensures
        spec_parse_shortcut(s) == match key_of_parts(split_parts(s)) {
            Some(c) => Some(Hotkey { modifiers: modifiers_of(split_parts(s)), code: c }),
            None => None,
        },
{
    lemma_scan_at_most_one_key(split_parts(s));
}

/// The order of the parts does not matter, nor repeating a modifier: two
/// texts with at most one key part each, whose parts are the same when
/// repeats and order are disregarded (`Shift+Cmd+Cmd+N` and `Cmd+Shift+N`),
/// name the same shortcut.
pub proof fn lemma_modifier_order_irrelevant(s: Seq<char>, t: Seq<char>)
    requires
        key_part_count(split_parts(s)) <= 1,
        key_part_count(split_parts(t)) <= 1,
        forall|i: int|
            0 <= i < split_parts(s).len() ==> split_parts(t).contains(#[trigger] split_parts(s)[i]),
        forall|j: int|
            0 <= j < split_parts(t).len() ==> split_parts(s).contains(#[trigger] split_parts(t)[j]),
    ensures
        spec_parse_shortcut(s) == spec_parse_shortcut(t),
{
    let ps = split_parts(s);
    let pt = split_parts(t);
    lemma_modifiers_and_one_key(s);
    lemma_modifiers_and_one_key(t);
    let ms = modifiers_of(ps);
    let mt = modifiers_of(pt);
    if ms.super_key {
        let i = choose|i: int| 0 <= i < ps.len() && sets_super(#[trigger] ps[i]);
        assert(pt.contains(ps[i]));
    }
    if mt.super_key {
        let j = choose|j: int| 0 <= j < pt.len() && sets_super(#[trigger] pt[j]);
        assert(ps.contains(pt[j]));
    }
    if ms.control {
        let i = choose|i: int| 0 <= i < ps.len() && sets_control(#[trigger] ps[i]);
        assert(pt.contains(ps[i]));
    }
    if mt.control {
        let j = choose|j: int| 0 <= j < pt.len() && sets_control(#[trigger] pt[j]);
        assert(ps.contains(pt[j]));
    }
    if ms.alt {
        let i = choose|i: int| 0 <= i < ps.len() && sets_alt(#[trigger] ps[i]);
        assert(pt.contains(ps[i]));
    }
    if mt.alt {
        let j = choose|j: int| 0 <= j < pt.len() && sets_alt(#[trigger] pt[j]);
        assert(ps.contains(pt[j]));
    }
    if ms.shift {
        let i = choose|i: int| 0 <= i < ps.len() && sets_shift(#[trigger] ps[i]);
        assert(pt.contains(ps[i]));
    }
    if mt.shift {
        let j = choose|j: int| 0 <= j < pt.len() && sets_shift(#[trigger] pt[j]);
        assert(ps.contains(pt[j]));
    }
    assert(ms == mt);
    if key_part_count(ps) == 1 {
        lemma_key_index(ps);
        let i = choose|i: int| 0 <= i < ps.len() && is_key_part(#[trigger] ps[i]);
        assert(pt.contains(ps[i]));
        let j = choose|j: int| 0 <= j < pt.len() && pt[j] == ps[i];
        lemma_key_part_counted(pt, j);
        lemma_one_key_part(ps, i);
        lemma_one_key_part(pt, j);
    } else {
        lemma_no_key_part(ps);
        if key_part_count(pt) == 1 {
            lemma_key_index(pt);
            let j = choose|j: int| 0 <= j < pt.len() && is_key_part(#[trigger] pt[j]);
            assert(ps.contains(pt[j]));
            let i = choose|i: int| 0 <= i < ps.len() && ps[i] == pt[j];
            assert(!is_key_part(ps[i]));
        } else {
            lemma_no_key_part(pt);
        }
    }
}

/// A positive key part count has a key part somewhere.
proof fn lemma_key_index(parts: Seq<Seq<char>>)
    requires
        key_part_count(parts) >= 1,
    ensures
        exists|i: int| 0 <= i < parts.len() && is_key_part(#[trigger] parts[i]),
    decreases parts.len(),
{
    if is_key_part(parts.last()) {
        assert(is_key_part(parts[parts.len() - 1]));
    } else {
        lemma_key_index(parts.drop_last());
        let i = choose|i: int| 0 <= i < parts.drop_last().len() && is_key_part(
            #[trigger] parts.drop_last()[i],
        );
        assert(parts[i] == parts.drop_last()[i]);
    }
}

/// Reading the first `k + 1` parts is reading the first `k`, then part `k`.
proof fn lemma_scan_take_step(parts: Seq<Seq<char>>, k: int)
    requires
        0 <= k < parts.len(),
    ensures
        scan_all(parts.take(k + 1)) == scan_part(scan_all(parts.take(k)), parts[k]),
{
    assert(parts.take(k + 1).drop_last() =~= parts.take(k));
    assert(parts.take(k + 1).last() == parts[k]);
}

/// When no key part names a key, reading never sets a key.
proof fn lemma_scan_no_known_key(parts: Seq<Seq<char>>, k: int)
    requires
        0 <= k <= parts.len(),
        forall|i: int|
            0 <= i < parts.len() && is_key_part(#[trigger] parts[i]) ==> spec_parse_code(
                trim(parts[i]),
            ) is None,
    ensures
        scan_all(parts.take(k)).code is None,
    decreases k,
{
    if k > 0 {
        lemma_scan_no_known_key(parts, k - 1);
        lemma_scan_take_step(parts, k - 1);
    } else {
        assert(parts.take(0) =~= Seq::<Seq<char>>::empty());
    }
}

/// Text in which no key part names a key names no shortcut.
pub proof fn lemma_no_known_key_no_shortcut(s: Seq<char>)
    requires
        forall|i: int|
            0 <= i < split_parts(s).len() && is_key_part(#[trigger] split_parts(s)[i])
                ==> spec_parse_code(trim(split_parts(s)[i])) is None,
    ensures
        spec_parse_shortcut(s) is None,
{
    let parts = split_parts(s);
    lemma_scan_no_known_key(parts, parts.len() as int);
    assert(parts.take(parts.len() as int) =~= parts);
}

/// After a part naming a key, every later prefix holds a key or is
/// rejected; after a further key part, it is rejected.
proof fn lemma_scan_after_key(parts: Seq<Seq<char>>, i: int, j: int, k: int)
    requires
        0 <= i < j < parts.len(),
        is_key_part(parts[i]),
        spec_parse_code(trim(parts[i])) is Some,
        is_key_part(parts[j]),
        i < k <= parts.len(),
    ensures
        scan_all(parts.take(k)).rejected || scan_all(parts.take(k)).code is Some,
        k > j ==> scan_all(parts.take(k)).rejected,
    decreases k,
{
    lemma_scan_take_step(parts, k - 1);
    if k - 1 > i {
        lemma_scan_after_key(parts, i, j, k - 1);
    }
}

/// A part naming a key followed, later in the text, by another key part
/// makes the text name no shortcut (`A+Foo`, `A+B`).
pub proof fn lemma_second_key_no_shortcut(s: Seq<char>, i: int, j: int)
    requires
        0 <= i < j < split_parts(s).len(),
        is_key_part(split_parts(s)[i]),
        spec_parse_code(trim(split_parts(s)[i])) is Some,
        is_key_part(split_parts(s)[j]),
    ensures
        spec_parse_shortcut(s) is None,
{
    let parts = split_parts(s);
    lemma_scan_after_key(parts, i, j, parts.len() as int);
    assert(parts.take(parts.len() as int) =~= parts);
}

/// Empty text names no shortcut.
pub proof fn lemma_empty_names_no_shortcut()
    ensures
        spec_parse_shortcut(Seq::<char>::empty()) is None,
{
    let e = Seq::<char>::empty();
    assert(split_parts(e) =~= seq![e]);
    assert(seq![e].drop_last() =~= Seq::<Seq<char>>::empty());
    assert(trim(e) =~= e);
    reveal_strlit("Cmd");
    reveal_strlit("Super");
    reveal_strlit("Command");
    reveal_strlit("Meta");
    reveal_strlit("Ctrl");
    reveal_strlit("Control");
    reveal_strlit("Alt");
    reveal_strlit("Option");
    reveal_strlit("Shift");
    reveal_strlit("Space");
    reveal_strlit("Enter");
    reveal_strlit("Escape");
    reveal_strlit("Tab");
}

/// Changing the settings registers the same shortcut as starting the app
/// does: the configured text (or the default) parsed, the check for empty
/// text aside, which parsing alone also rejects.
pub proof fn lemma_register_matches_startup(configured: Option<Seq<char>>)
    ensures
        spec_shortcut_to_register(configured) == spec_parse_shortcut(
            effective_shortcut(configured),
        ),
{
    if effective_shortcut(configured).len() == 0 {
        lemma_empty_names_no_shortcut();
        assert(effective_shortcut(configured) =~= Seq::<char>::empty());
    }
}

} // verus!
