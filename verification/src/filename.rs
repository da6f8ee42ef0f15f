//! File names of new notes: a local time stamp, then a readable part taken
//! from the first line of the note, then `.md`.
use vstd::prelude::*;
use crate::paths::opt_view;
use crate::text::{
    is_white_space, lemma_lex_lt_extend, lex_lt, push_char, string_of, trim, trimmed,
};

verus! {

broadcast use vstd::string::group_string_axioms;

/// The most characters that the readable part of a file name keeps.
pub const TITLE_MAX_CHARS: usize = 20;

/// A character that a time stamp may hold: a decimal digit, the sign or
/// separator `-`, or the sign `+`.
pub open spec fn is_stamp_char(c: char) -> bool {
    ('0' <= c && c <= '9') || c == '-' || c == '+'
}

/// Every character of `ts` may appear in a time stamp.
pub open spec fn is_stamp(ts: Seq<char>) -> bool {
    forall|i: int| 0 <= i < ts.len() ==> is_stamp_char(#[trigger] ts[i])
}

/// A decimal digit.
pub open spec fn is_digit(c: char) -> bool {
    '0' <= c && c <= '9'
}

/// The value of the decimal digit `c`.
pub open spec fn digit_value(c: char) -> int {
    c as int - '0' as int
}

/// `s[i]` and `s[i + 1]` are digits whose two-digit number lies in
/// `lo..=hi`.
pub open spec fn two_digits_within(s: Seq<char>, i: int, lo: int, hi: int) -> bool {
    &&& is_digit(s[i])
    &&& is_digit(s[i + 1])
    &&& lo <= 10 * digit_value(s[i]) + digit_value(s[i + 1]) <= hi
}

/// A year as chrono's `%Y` writes it: four digits for the years 0 to
/// 9999, else a sign followed by at least four digits.
pub open spec fn is_year_text(y: Seq<char>) -> bool {
    ||| y.len() == 4 && forall|i: int| 0 <= i < 4 ==> is_digit(#[trigger] y[i])
    ||| y.len() >= 5 && (y[0] == '+' || y[0] == '-') && forall|i: int|
        1 <= i < y.len() ==> is_digit(#[trigger] y[i])
}

/// A time stamp of the form `%Y-%m-%d-%H%M`: the year, then `-MM-DD-HHMM`
/// with the month in 01..=12, the day in 01..=31, the hour in 00..=23 and
/// the minute in 00..=59.
pub open spec fn is_minute_stamp(ts: Seq<char>) -> bool {
    let n = ts.len() as int;
    &&& n >= 15
    &&& is_year_text(ts.take(n - 11))
    &&& ts[n - 11] == '-'
    &&& two_digits_within(ts, n - 10, 1, 12)
    &&& ts[n - 8] == '-'
    &&& two_digits_within(ts, n - 7, 1, 31)
    &&& ts[n - 5] == '-'
    &&& two_digits_within(ts, n - 4, 0, 23)
    &&& two_digits_within(ts, n - 2, 0, 59)
}

/// The text that chrono formats for the instant `unix_secs` (seconds since
/// the Unix epoch) seen at the offset `utc_offset_secs` from UTC, with the
/// format `%Y-%m-%d-%H%M`; `None` where chrono has no such instant or
/// offset.
pub uninterp spec fn chrono_minute_stamp(unix_secs: i64, utc_offset_secs: i32) -> Option<Seq<char>>;

/// An instant from 1970 up to the end of 9999 (UTC), seen at an offset of
/// less than a day: chrono can format it.
pub open spec fn stamp_in_range(unix_secs: i64, utc_offset_secs: i32) -> bool {
    0 <= unix_secs < 253_402_300_800 && -86_400 < utc_offset_secs < 86_400
}

/// An instant whose local date lies in the years 1970 to 9999 whatever
/// offset of less than a day it is seen at: its year has four digits.
pub open spec fn stamp_four_digit_year(unix_secs: i64, utc_offset_secs: i32) -> bool {
    86_400 <= unix_secs < 253_402_214_400 && -86_400 < utc_offset_secs < 86_400
}

/// The whole seconds since the Unix epoch by the system clock
/// (`SystemTime::now().duration_since(UNIX_EPOCH)`, then `as_secs`);
/// `None` when the clock reads before the epoch.  Which time comes back
/// depends on the clock and is not stated.
#[verifier::external_body]
fn unix_seconds_now() -> (s: Option<u64>) {
    match std::time::SystemTime::now().duration_since(std::time::UNIX_EPOCH) {
        Ok(d) => Some(d.as_secs()),
        Err(_) => None,
    }
}

/// The instant `unix_secs` seen at the offset `utc_offset_secs`, formatted
/// by chrono with `%Y-%m-%d-%H%M`: `DateTime::from_timestamp(unix_secs, 0)`,
/// `FixedOffset::east_opt(utc_offset_secs)`, `with_timezone`, `format`.
///
/// chrono gives no instant outside its calendar range and no offset of a
/// day or more; both are `None`, and every instant of the years 1970 to
/// 9999 with an offset under a day is in range.  It writes the year as four
/// digits in 0..=9999 and with a sign and at least four digits otherwise,
/// then month, day, hour and minute as two digits each, in their ranges
/// (`format/formatting.rs`, `write_year` and `write_two`).  Nothing here
/// panics.  The calendar arithmetic itself is named, not stated.
#[verifier::external_body]
fn minute_stamp_at(unix_secs: i64, utc_offset_secs: i32) -> (ts: Option<String>)
    ensures
        opt_view(ts) == chrono_minute_stamp(unix_secs, utc_offset_secs),
        ts matches Some(t) ==> is_minute_stamp(t@),
        stamp_in_range(unix_secs, utc_offset_secs) ==> ts is Some,
        stamp_four_digit_year(unix_secs, utc_offset_secs) ==> ts is Some && ts->0@.len() == 15,
{
    let utc = chrono::DateTime::from_timestamp(unix_secs, 0)?;
    let offset = chrono::FixedOffset::east_opt(utc_offset_secs)?;
    Some(utc.with_timezone(&offset).format("%Y-%m-%d-%H%M").to_string())
}

/// A time stamp as chrono writes it holds only digits, `-` and `+`.
pub proof fn lemma_minute_stamp_chars(ts: Seq<char>)
    requires
        is_minute_stamp(ts),
    ensures
        is_stamp(ts),
{
    let n = ts.len() as int;
    let y = ts.take(n - 11);
    assert forall|i: int| 0 <= i < ts.len() implies is_stamp_char(#[trigger] ts[i]) by {
        if i < n - 11 {
            assert(ts[i] == y[i]);
        }
    }
}

/// The position of the first `'\n'` in `s`, or its length when it has none.
pub open spec fn newline_index(s: Seq<char>) -> nat
    decreases s.len(),
{
    if s.len() == 0 {
        0
    } else if s[0] == '\n' {
        0
    } else {
        1 + newline_index(s.drop_first())
    }
}

/// The first line of `s`, as `str::lines` yields it: up to the first
/// `'\n'`, without a `'\r'` just before that `'\n'`; the whole of `s` when it
/// holds no `'\n'`; empty for empty `s`.
pub open spec fn first_line(s: Seq<char>) -> Seq<char> {
    let k = newline_index(s) as int;
    let line = s.take(k);
    if k < s.len() && line.len() > 0 && line.last() == '\r' {
        line.drop_last()
    } else {
        line
    }
}

/// A character that may not stand in a file name.
pub open spec fn is_forbidden(c: char) -> bool {
    c == '/' || c == '\\' || c == ':' || c == '*' || c == '?' || c == '"' || c == '<' || c
        == '>' || c == '|' || c == '\n' || c == '\r' || c == '\t'
}

/// `s` with every forbidden character left out.
pub open spec fn keep_allowed(s: Seq<char>) -> Seq<char>
    decreases s.len(),
{
    if s.len() == 0 {
        s
    } else if is_forbidden(s.last()) {
        keep_allowed(s.drop_last())
    } else {
        keep_allowed(s.drop_last()).push(s.last())
    }
}

/// `s` with every `'.'` left out.
pub open spec fn remove_dots(s: Seq<char>) -> Seq<char>
    decreases s.len(),
{
    if s.len() == 0 {
        s
    } else if s.last() == '.' {
        remove_dots(s.drop_last())
    } else {
        remove_dots(s.drop_last()).push(s.last())
    }
}

/// The first `n` elements of `s`, or all of `s` when it is shorter.
pub open spec fn take_at_most(s: Seq<char>, n: nat) -> Seq<char> {
    if s.len() <= n {
        s
    } else {
        s.take(n as int)
    }
}

/// The title used when a note gives none: 便签 ("note").
pub open spec fn default_title() -> Seq<char> {
    seq!['\u{4fbf}', '\u{7b7e}']
}

/// The readable part of the file name of a note with `content`: its first
/// line, trimmed, with the forbidden characters left out, cut to
/// `TITLE_MAX_CHARS` characters, trimmed again and without dots; the default
/// title when nothing is left.
pub open spec fn note_title(content: Seq<char>) -> Seq<char> {
    let head = remove_dots(
        trim(take_at_most(keep_allowed(trim(first_line(content))), TITLE_MAX_CHARS as nat)),
    );
    if head.len() == 0 {
        default_title()
    } else {
        head
    }
}

/// The file name of a note with `content` saved at time stamp `ts`:
/// `{ts}-{title}.md`.
pub open spec fn note_file_name(ts: Seq<char>, content: Seq<char>) -> Seq<char> {
    ts + seq!['-'] + note_title(content) + seq!['.', 'm', 'd']
}

/// The first line of `s` (see `first_line`).
fn first_line_chars(s: &str) -> (line: Vec<char>)
    ensures
        line@ == first_line(s@),
{
    let mut line: Vec<char> = Vec::new();
    let mut found = false;
    for c in it: s.chars()
        invariant
            it.seq() == s@,
            !found ==> line@ == s@.take(it.index() as int),
            !found ==> forall|j: int| 0 <= j < it.index() ==> s@[j] != '\n',
            found ==> line@ == s@.take(newline_index(s@) as int) && newline_index(s@) < s@.len(),
    {
        if !found {
            if c == '\n' {
                proof {
                    lemma_newline_index(s@, it.index() as int);
                }
                found = true;
            } else {
                line.push(c);
            }
        }
    }
    if !found {
        proof {
            lemma_newline_index(s@, s@.len() as int);
        }
        assert(s@.take(s@.len() as int) =~= s@);
    }
    if found && line.len() > 0 && line[line.len() - 1] == '\r' {
        line.pop();
    }
    line
}

/// The position of the first `'\n'` is `k` when no earlier character is one
/// and `s[k]` is one, or `k` is the end of `s`.
proof fn lemma_newline_index(s: Seq<char>, k: int)
    requires
        0 <= k <= s.len(),
        forall|j: int| 0 <= j < k ==> s[j] != '\n',
        k < s.len() ==> s[k] == '\n',
    ensures
        newline_index(s) == k,
    decreases k,
{
    if k > 0 {
        assert forall|j: int| 0 <= j < k - 1 implies s.drop_first()[j] != '\n' by {
            assert(s.drop_first()[j] == s[j + 1]);
        }
        lemma_newline_index(s.drop_first(), k - 1);
    }
}

/// `v` with the forbidden characters left out, cut to `TITLE_MAX_CHARS`.
fn allowed_prefix(v: &Vec<char>) -> (r: Vec<char>)
    ensures
        r@ == take_at_most(keep_allowed(v@), TITLE_MAX_CHARS as nat),
{
    let mut r: Vec<char> = Vec::new();
    let mut i: usize = 0;
    while i < v.len()
        invariant
            i <= v.len(),
            r@ == take_at_most(keep_allowed(v@.take(i as int)), TITLE_MAX_CHARS as nat),
        decreases v.len() - i,
    {
        let c = v[i];
        let ghost kept = keep_allowed(v@.take(i as int));
        assert(v@.take(i + 1).drop_last() =~= v@.take(i as int));
        let allowed = !(c == '/' || c == '\\' || c == ':' || c == '*' || c == '?' || c == '"'
            || c == '<' || c == '>' || c == '|' || c == '\n' || c == '\r' || c == '\t');
        if allowed {
            assert(keep_allowed(v@.take(i + 1)) == kept.push(c));
            if r.len() < TITLE_MAX_CHARS {
                r.push(c);
            } else {
                assert(kept.push(c).take(TITLE_MAX_CHARS as int) =~= kept.take(
                    TITLE_MAX_CHARS as int,
                ));
            }
        }
        i = i + 1;
    }
    assert(v@.take(v.len() as int) =~= v@);
    r
}

/// `v` without its dots.
fn without_dots(v: &Vec<char>) -> (r: Vec<char>)
    ensures
        r@ == remove_dots(v@),
{
    let mut r: Vec<char> = Vec::new();
    let mut i: usize = 0;
    while i < v.len()
        invariant
            i <= v.len(),
            r@ == remove_dots(v@.take(i as int)),
        decreases v.len() - i,
    {
        assert(v@.take(i + 1).drop_last() =~= v@.take(i as int));
        if v[i] != '.' {
            r.push(v[i]);
        }
        i = i + 1;
    }
    assert(v@.take(v.len() as int) =~= v@);
    r
}

/// The readable part of the file name of a note (see `note_title`).
pub fn note_title_of(content: &str) -> (title: String)
    ensures
        title@ == note_title(content@),
{
    let line = first_line_chars(content);
    let line = trimmed(&line);
    let head = allowed_prefix(&line);
    let head = trimmed(&head);
    let head = without_dots(&head);
    if head.len() == 0 {
        let mut t = String::new();
        push_char(&mut t, '\u{4fbf}');
        push_char(&mut t, '\u{7b7e}');
        assert(t@ =~= default_title());
        t
    } else {
        string_of(&head)
    }
}

/// The file name of a note with `content` saved at time stamp `ts`.
pub fn file_name_at(ts: &str, content: &str) -> (name: String)
    ensures
        name@ == note_file_name(ts@, content@),
{
    let title = note_title_of(content);
    let mut name = String::from_str(ts);
    push_char(&mut name, '-');
    name.append(title.as_str());
    push_char(&mut name, '.');
    push_char(&mut name, 'm');
    push_char(&mut name, 'd');
    assert(name@ =~= note_file_name(ts@, content@));
    name
}

/// The file name of a note with `content` saved at the instant `unix_secs`
/// seen at the offset `utc_offset_secs` from UTC:
/// `{%Y-%m-%d-%H%M}-{title}.md`; `None` where chrono has no such instant
/// or offset.
pub fn file_name_at_time(unix_secs: i64, utc_offset_secs: i32, content: &str) -> (name: Option<
    String,
>)
    ensures
        opt_view(name) == match chrono_minute_stamp(unix_secs, utc_offset_secs) {
            Some(ts) => Some(note_file_name(ts, content@)),
            None => None,
        },
        name matches Some(n) ==> exists|ts: Seq<char>|
            is_minute_stamp(ts) && n@ == #[trigger] note_file_name(ts, content@),
        stamp_in_range(unix_secs, utc_offset_secs) ==> name is Some,
{
    match minute_stamp_at(unix_secs, utc_offset_secs) {
        Some(ts) => {
            let name = file_name_at(ts.as_str(), content);
            assert(is_minute_stamp(ts@) && name@ == note_file_name(ts@, content@));
            Some(name)
        },
        None => None,
    }
}

/// The file name under which a new note with `content` is saved now, in
/// the time zone `utc_offset_secs` seconds east of UTC:
/// `{%Y-%m-%d-%H%M}-{title}.md`, the time stamp being the system clock's
/// reading as chrono formats it.  `None` when the clock reads before the
/// Unix epoch or beyond chrono's range, or the offset is a day or more.
pub fn make_filename(content: &str, utc_offset_secs: i32) -> (name: Option<String>)
    ensures
        name matches Some(n) ==> exists|secs: i64, ts: Seq<char>|
            #![trigger chrono_minute_stamp(secs, utc_offset_secs), note_file_name(ts, content@)]
            chrono_minute_stamp(secs, utc_offset_secs) == Some(ts) && is_minute_stamp(ts) && n@
                == note_file_name(ts, content@),
{
    match unix_seconds_now() {
        Some(secs) => {
            if secs > 9_223_372_036_854_775_807u64 {
                return None;
            }
            let secs = secs as i64;
            let name = file_name_at_time(secs, utc_offset_secs, content);
            proof {
                if name is Some {
                    let ts = chrono_minute_stamp(secs, utc_offset_secs)->0;
                    assert(chrono_minute_stamp(secs, utc_offset_secs) == Some(ts));
                    let n = name->0;
                    let t2 = choose|t: Seq<char>|
                        is_minute_stamp(t) && n@ == #[trigger] note_file_name(t, content@);
                    assert(note_file_name(ts, content@) == n@);
                    lemma_file_name_stamp_unique(ts, t2, content@);
                }
            }
            name
        },
        None => None,
    }
}

/// The time stamp of a note's file name is the part before the last
/// `-{title}.md`, where the title is fixed by the content: two stamps that
/// give the same name with the same content are equal.
pub proof fn lemma_file_name_stamp_unique(ts1: Seq<char>, ts2: Seq<char>, content: Seq<char>)
    requires
        note_file_name(ts1, content) == note_file_name(ts2, content),
    ensures
        ts1 == ts2,
{
    let tail = seq!['-'] + note_title(content) + seq!['.', 'm', 'd'];
    assert(note_file_name(ts1, content) =~= ts1 + tail);
    assert(note_file_name(ts2, content) =~= ts2 + tail);
    assert(ts1.len() == ts2.len());
    assert(ts1 =~= (ts1 + tail).take(ts1.len() as int));
    assert(ts2 =~= (ts2 + tail).take(ts2.len() as int));
}

/// The readable part of a file name holds no forbidden character.
pub proof fn lemma_keep_allowed(s: Seq<char>)
    ensures
        forall|i: int| 0 <= i < keep_allowed(s).len() ==> !is_forbidden(#[trigger] keep_allowed(s)[i]),
        keep_allowed(s).len() <= s.len(),
        forall|i: int|
            0 <= i < keep_allowed(s).len() ==> s.contains(#[trigger] keep_allowed(s)[i]),
    decreases s.len(),
{
    if s.len() > 0 {
        lemma_keep_allowed(s.drop_last());
        assert forall|i: int| 0 <= i < keep_allowed(s).len() implies s.contains(
            #[trigger] keep_allowed(s)[i],
        ) by {
            let k = keep_allowed(s);
            if i < keep_allowed(s.drop_last()).len() {
                let j = choose|j: int|
                    0 <= j < s.drop_last().len() && s.drop_last()[j] == keep_allowed(
                        s.drop_last(),
                    )[i];
                assert(s[j] == k[i]);
            } else {
                assert(s[s.len() - 1] == k[i]);
            }
        }
    }
}

/// Leaving out dots keeps only characters of `s` and drops every dot.
pub proof fn lemma_remove_dots(s: Seq<char>)
    ensures
        forall|i: int| 0 <= i < remove_dots(s).len() ==> #[trigger] remove_dots(s)[i] != '.',
        remove_dots(s).len() <= s.len(),
        forall|i: int| 0 <= i < remove_dots(s).len() ==> s.contains(#[trigger] remove_dots(s)[i]),
    decreases s.len(),
{
    if s.len() > 0 {
        lemma_remove_dots(s.drop_last());
        assert forall|i: int| 0 <= i < remove_dots(s).len() implies s.contains(
            #[trigger] remove_dots(s)[i],
        ) by {
            let k = remove_dots(s);
            if i < remove_dots(s.drop_last()).len() {
                let j = choose|j: int|
                    0 <= j < s.drop_last().len() && s.drop_last()[j] == remove_dots(
                        s.drop_last(),
                    )[i];
                assert(s[j] == k[i]);
            } else {
                assert(s[s.len() - 1] == k[i]);
            }
        }
    }
}

/// Trimming keeps a contiguous part of `s`.
pub proof fn lemma_trim_within(s: Seq<char>)
    ensures
        trim(s).len() <= s.len(),
        forall|i: int| 0 <= i < trim(s).len() ==> s.contains(#[trigger] trim(s)[i]),
{
    lemma_trim_start_within(s);
    lemma_trim_end_within(crate::text::trim_start(s));
    let t = crate::text::trim_start(s);
    assert forall|i: int| 0 <= i < trim(s).len() implies s.contains(#[trigger] trim(s)[i]) by {
        assert(t.contains(trim(s)[i]));
        let j = choose|j: int| 0 <= j < t.len() && t[j] == trim(s)[i];
        assert(s.contains(t[j]));
    }
}

proof fn lemma_trim_start_within(s: Seq<char>)
    ensures
        crate::text::trim_start(s).len() <= s.len(),
        forall|i: int|
            0 <= i < crate::text::trim_start(s).len() ==> s.contains(
                #[trigger] crate::text::trim_start(s)[i],
            ),
    decreases s.len(),
{
    if s.len() > 0 && is_white_space(s[0]) {
        lemma_trim_start_within(s.drop_first());
        let t = crate::text::trim_start(s);
        assert forall|i: int| 0 <= i < t.len() implies s.contains(#[trigger] t[i]) by {
            let j = choose|j: int| 0 <= j < s.drop_first().len() && s.drop_first()[j] == t[i];
            assert(s[j + 1] == t[i]);
        }
    } else {
        assert forall|i: int| 0 <= i < s.len() implies s.contains(#[trigger] s[i]) by {}
    }
}

proof fn lemma_trim_end_within(s: Seq<char>)
    ensures
        crate::text::trim_end(s).len() <= s.len(),
        forall|i: int|
            0 <= i < crate::text::trim_end(s).len() ==> s.contains(
                #[trigger] crate::text::trim_end(s)[i],
            ),
    decreases s.len(),
{
    if s.len() > 0 && is_white_space(s.last()) {
        lemma_trim_end_within(s.drop_last());
        let t = crate::text::trim_end(s);
        assert forall|i: int| 0 <= i < t.len() implies s.contains(#[trigger] t[i]) by {
            let j = choose|j: int| 0 <= j < s.drop_last().len() && s.drop_last()[j] == t[i];
            assert(s[j] == t[i]);
        }
    } else {
        assert forall|i: int| 0 <= i < s.len() implies s.contains(#[trigger] s[i]) by {}
    }
}

/// The title of a note is never empty, has at most `TITLE_MAX_CHARS`
/// characters, and holds neither a dot nor a character that may not stand
/// in a file name.
pub proof fn lemma_note_title_shape(content: Seq<char>)
    ensures
        0 < note_title(content).len() <= TITLE_MAX_CHARS,
        forall|i: int|
            0 <= i < note_title(content).len() ==> {
                let c = #[trigger] note_title(content)[i];
                !is_forbidden(c) && c != '.'
            },
{
    let kept = keep_allowed(trim(first_line(content)));
    let cut = take_at_most(kept, TITLE_MAX_CHARS as nat);
    let t = trim(cut);
    let head = remove_dots(t);
    lemma_keep_allowed(trim(first_line(content)));
    lemma_trim_within(cut);
    lemma_remove_dots(t);
    if head.len() > 0 {
        assert forall|i: int| 0 <= i < head.len() implies !is_forbidden(#[trigger] head[i])
            && head[i] != '.' by {
            assert(t.contains(head[i]));
            let j = choose|j: int| 0 <= j < t.len() && t[j] == head[i];
            assert(cut.contains(t[j]));
            let k = choose|k: int| 0 <= k < cut.len() && cut[k] == t[j];
            assert(cut[k] == kept[k]);
        }
    } else {
        assert(default_title().len() == 2);
        assert forall|i: int| 0 <= i < default_title().len() implies {
            let c = #[trigger] default_title()[i];
            !is_forbidden(c) && c != '.'
        } by {}
    }
}

/// A note's file name ends in `.md`, holds no `/`, and (its time stamp
/// aside) nothing that may not stand in a file name: saving it in a folder
/// never leaves that folder.
pub proof fn lemma_file_name_shape(ts: Seq<char>, content: Seq<char>)
    requires
        is_stamp(ts),
    ensures
        ({
            let name = note_file_name(ts, content);
            &&& name.len() >= 4
            &&& name.subrange(name.len() - 3, name.len() as int) == seq!['.', 'm', 'd']
            &&& forall|i: int| 0 <= i < name.len() ==> #[trigger] name[i] != '/'
        }),
{
    lemma_note_title_shape(content);
    let name = note_file_name(ts, content);
    let title = note_title(content);
    assert(name.subrange(name.len() - 3, name.len() as int) =~= seq!['.', 'm', 'd']);
    assert forall|i: int| 0 <= i < name.len() implies #[trigger] name[i] != '/' by {
        if i < ts.len() {
            assert(name[i] == ts[i]);
        } else if i == ts.len() {
        } else if i < ts.len() + 1 + title.len() {
            assert(name[i] == title[i - ts.len() - 1]);
        } else {
        }
    }
}

/// File names follow their time stamps: of two notes whose stamps have the
/// same length, the one saved at the earlier stamp sorts first, whatever the
/// notes hold.  Sorting names in reverse therefore puts the latest first.
/// Every stamp with a four-digit year is fifteen characters long, and the
/// clock's stamp has a four-digit year for every instant from 1970 to 9999.
pub proof fn lemma_file_names_follow_stamps(
    ts1: Seq<char>,
    ts2: Seq<char>,
    content1: Seq<char>,
    content2: Seq<char>,
)
    requires
        ts1.len() == ts2.len(),
        lex_lt(ts1, ts2),
    ensures
        lex_lt(note_file_name(ts1, content1), note_file_name(ts2, content2)),
{
    let x = seq!['-'] + note_title(content1) + seq!['.', 'm', 'd'];
    let y = seq!['-'] + note_title(content2) + seq!['.', 'm', 'd'];
    lemma_lex_lt_extend(ts1, ts2, x, y);
    assert(note_file_name(ts1, content1) =~= ts1 + x);
    assert(note_file_name(ts2, content2) =~= ts2 + y);
}

/// `a` is a subsequence of `b`: `b` holds the characters of `a` in the
/// same order, perhaps with others between them.
pub open spec fn is_subsequence(a: Seq<char>, b: Seq<char>) -> bool
    decreases b.len(),
{
    if a.len() == 0 {
        true
    } else if b.len() == 0 {
        false
    } else if a.last() == b.last() {
        is_subsequence(a.drop_last(), b.drop_last())
    } else {
        is_subsequence(a, b.drop_last())
    }
}

proof fn lemma_subsequence_reflexive(a: Seq<char>)
    ensures
        is_subsequence(a, a),
    decreases a.len(),
{
    if a.len() > 0 {
        lemma_subsequence_reflexive(a.drop_last());
    }
}

proof fn lemma_subsequence_transitive(a: Seq<char>, b: Seq<char>, c: Seq<char>)
    requires
        is_subsequence(a, b),
        is_subsequence(b, c),
    ensures
        is_subsequence(a, c),
    decreases c.len(),
{
    if a.len() == 0 {
    } else if c.len() == 0 {
    } else if b.len() == 0 {
    } else if b.last() == c.last() {
        if a.last() == b.last() {
            lemma_subsequence_transitive(a.drop_last(), b.drop_last(), c.drop_last());
        } else {
            lemma_subsequence_transitive(a, b.drop_last(), c.drop_last());
            lemma_subsequence_drop_last(a, c);
        }
    } else {
        lemma_subsequence_transitive(a, b, c.drop_last());
        lemma_subsequence_drop_last(a, c);
    }
}

/// A subsequence of `c` without its last element is a subsequence of `c`.
proof fn lemma_subsequence_drop_last(a: Seq<char>, c: Seq<char>)
    requires
        c.len() > 0,
        is_subsequence(a, c.drop_last()),
    ensures
        is_subsequence(a, c),
    decreases c.len(), 0int,
{
    if a.len() > 0 && a.last() == c.last() {
        lemma_subsequence_drop_last_any(a, c.drop_last());
    }
}

/// Dropping the last element of `a` keeps it a subsequence.
proof fn lemma_subsequence_drop_last_any(a: Seq<char>, d: Seq<char>)
    requires
        a.len() > 0,
        is_subsequence(a, d),
    ensures
        is_subsequence(a.drop_last(), d),
    decreases d.len(), 1int,
{
    if d.len() > 0 {
        if a.last() == d.last() {
            lemma_subsequence_drop_last(a.drop_last(), d);
        } else {
            lemma_subsequence_drop_last_any(a, d.drop_last());
            lemma_subsequence_drop_last(a.drop_last(), d);
        }
    }
}

proof fn lemma_drop_last_subsequence(s: Seq<char>)
    requires
        s.len() > 0,
    ensures
        is_subsequence(s.drop_last(), s),
{
    lemma_subsequence_reflexive(s.drop_last());
    lemma_subsequence_drop_last(s.drop_last(), s);
}

proof fn lemma_drop_first_subsequence(s: Seq<char>)
    requires
        s.len() > 0,
    ensures
        is_subsequence(s.drop_first(), s),
    decreases s.len(),
{
    if s.len() > 1 {
        lemma_drop_first_subsequence(s.drop_last());
        assert(s.drop_first().drop_last() =~= s.drop_last().drop_first());
        assert(s.drop_first().last() == s.last());
    }
}

proof fn lemma_take_subsequence(s: Seq<char>, k: int)
    requires
        0 <= k <= s.len(),
    ensures
        is_subsequence(s.take(k), s),
    decreases s.len(),
{
    if k == s.len() {
        assert(s.take(k) =~= s);
        lemma_subsequence_reflexive(s);
    } else {
        lemma_take_subsequence(s.drop_last(), k);
        assert(s.drop_last().take(k) =~= s.take(k));
        lemma_subsequence_drop_last(s.take(k), s);
    }
}

proof fn lemma_trim_subsequence(s: Seq<char>)
    ensures
        is_subsequence(crate::text::trim_start(s), s),
        is_subsequence(crate::text::trim_end(s), s),
        is_subsequence(trim(s), s),
    decreases s.len(),
{
    if s.len() > 0 {
        lemma_trim_subsequence(s.drop_first());
        lemma_trim_subsequence(s.drop_last());
        lemma_drop_first_subsequence(s);
        lemma_drop_last_subsequence(s);
        if is_white_space(s[0]) {
            lemma_subsequence_transitive(crate::text::trim_start(s), s.drop_first(), s);
        } else {
            lemma_subsequence_reflexive(s);
        }
        if is_white_space(s.last()) {
            lemma_subsequence_transitive(crate::text::trim_end(s), s.drop_last(), s);
        } else {
            lemma_subsequence_reflexive(s);
        }
    } else {
        lemma_subsequence_reflexive(s);
    }
    lemma_trim_end_of_sub(crate::text::trim_start(s));
    lemma_subsequence_transitive(trim(s), crate::text::trim_start(s), s);
}

proof fn lemma_trim_end_of_sub(s: Seq<char>)
    ensures
        is_subsequence(crate::text::trim_end(s), s),
    decreases s.len(),
{
    if s.len() > 0 && is_white_space(s.last()) {
        lemma_trim_end_of_sub(s.drop_last());
        lemma_drop_last_subsequence(s);
        lemma_subsequence_transitive(crate::text::trim_end(s), s.drop_last(), s);
    } else {
        lemma_subsequence_reflexive(s);
    }
}

proof fn lemma_keep_allowed_subsequence(s: Seq<char>)
    ensures
        is_subsequence(keep_allowed(s), s),
        is_subsequence(remove_dots(s), s),
    decreases s.len(),
{
    if s.len() > 0 {
        lemma_keep_allowed_subsequence(s.drop_last());
        if is_forbidden(s.last()) {
            lemma_subsequence_drop_last(keep_allowed(s), s);
        } else {
            assert(keep_allowed(s).drop_last() =~= keep_allowed(s.drop_last()));
        }
        if s.last() == '.' {
            lemma_subsequence_drop_last(remove_dots(s), s);
        } else {
            assert(remove_dots(s).drop_last() =~= remove_dots(s.drop_last()));
        }
    }
}

/// A note's title is the default title, or is drawn in order from the
/// note's first line: the first line holds the title's characters in the
/// same order, perhaps with others between them.
pub proof fn lemma_note_title_from_first_line(content: Seq<char>)
    ensures
        note_title(content) == default_title() || is_subsequence(
            note_title(content),
            first_line(content),
        ),
{
    let line = first_line(content);
    let a = trim(line);
    let b = keep_allowed(a);
    let c = take_at_most(b, TITLE_MAX_CHARS as nat);
    let d = trim(c);
    let e = remove_dots(d);
    lemma_trim_subsequence(line);
    lemma_keep_allowed_subsequence(a);
    if b.len() <= TITLE_MAX_CHARS {
        lemma_subsequence_reflexive(b);
    } else {
        lemma_take_subsequence(b, TITLE_MAX_CHARS as int);
    }
    lemma_trim_subsequence(c);
    lemma_keep_allowed_subsequence(d);
    lemma_subsequence_transitive(b, a, line);
    lemma_subsequence_transitive(c, b, line);
    lemma_subsequence_transitive(d, c, line);
    lemma_subsequence_transitive(e, d, line);
}

} // verus!
