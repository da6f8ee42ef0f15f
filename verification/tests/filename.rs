use floatnote::filename::{
    file_name_at, file_name_at_time, make_filename, note_title_of, TITLE_MAX_CHARS,
};
use floatnote::text::{chars_of, is_whitespace, trimmed};

/// The readable part of a note's file name, computed with std the way the
/// app always has: first line, trimmed, forbidden characters dropped, at
/// most 20 characters, trimmed again, dots removed.
fn reference_title(content: &str) -> String {
    let head: String = content
        .lines()
        .next()
        .unwrap_or("")
        .trim()
        .chars()
        .filter(|c| {
            !matches!(c, '/' | '\\' | ':' | '*' | '?' | '"' | '<' | '>' | '|' | '\n' | '\r' | '\t')
        })
        .take(20)
        .collect::<String>()
        .trim()
        .replace('.', "");
    if head.is_empty() {
        "便签".to_string()
    } else {
        head
    }
}

const SAMPLES: &[&str] = &[
    "",
    "Hello world\nsecond line",
    "  leading and trailing  \n",
    "a/b:c*d?e\"f<g>h|i\tj",
    "这是一条很长很长很长很长很长很长的中文便签标题，超过二十个字",
    "v1.2 release notes.txt",
    "...",
    ". x",
    "line\r\nnext",
    "only carriage\r",
    "\n\nthird",
    "\u{3000}full width space\u{3000}",
    "\u{a0}\u{2003}mixed\u{205f}",
    "12345678901234567890123456789",
    "   /////   ",
    "tab\there",
    "emoji 😀 note",
    "a.b.c.d.e.f.g.h.i.j.k.l.m",
    "x                         y",
];

#[test]
fn title_matches_reference_on_samples() {
    for s in SAMPLES {
        assert_eq!(note_title_of(s), reference_title(s), "content {:?}", s);
    }
}

#[test]
fn file_name_is_stamp_dash_title_md() {
    assert_eq!(
        file_name_at("2024-01-05-0930", "Hello world\nsecond"),
        "2024-01-05-0930-Hello world.md"
    );
}

#[test]
fn empty_note_gets_default_title() {
    assert_eq!(file_name_at("2024-01-05-0930", ""), "2024-01-05-0930-便签.md");
    assert_eq!(file_name_at("2024-01-05-0930", "   \n text"), "2024-01-05-0930-便签.md");
    assert_eq!(file_name_at("2024-01-05-0930", "..."), "2024-01-05-0930-便签.md");
}

#[test]
fn forbidden_characters_are_dropped() {
    assert_eq!(note_title_of("a/b:c*d?e\"f<g>h|i\tj"), "abcdefghij");
}

#[test]
fn title_is_cut_to_twenty_characters() {
    let t = note_title_of("abcdefghijklmnopqrstuvwxyz");
    assert_eq!(t, "abcdefghijklmnopqrst");
    assert_eq!(t.chars().count(), TITLE_MAX_CHARS);
}

#[test]
fn dots_are_removed_after_trimming() {
    assert_eq!(note_title_of("v1.2 release"), "v12 release");
    assert_eq!(note_title_of(". x"), " x");
}

#[test]
fn crlf_first_line() {
    assert_eq!(note_title_of("line\r\nnext"), "line");
    assert_eq!(note_title_of("\r\nnext"), "便签");
}

#[test]
fn make_filename_uses_local_time() {
    let offset = chrono::Local::now().offset().local_minus_utc();
    let name = make_filename("Meeting notes\nbody", offset).expect("clock in range");
    assert!(name.ends_with("-Meeting notes.md"), "{}", name);
    let stamp = &name[..name.len() - "-Meeting notes.md".len()];
    assert!(stamp.chars().all(|c| c.is_ascii_digit() || c == '-'), "{}", stamp);
    let expected = chrono::Local::now().format("%Y-%m-%d").to_string();
    assert!(stamp.starts_with(&expected[..7]), "{} vs {}", stamp, expected);
    assert_eq!(stamp.len(), 15);
}

#[test]
fn file_name_at_time_formats_with_chrono() {
    assert_eq!(file_name_at_time(0, 0, "x").as_deref(), Some("1970-01-01-0000-x.md"));
    assert_eq!(file_name_at_time(0, 3600, "x").as_deref(), Some("1970-01-01-0100-x.md"));
    assert_eq!(file_name_at_time(0, -3600, "x").as_deref(), Some("1969-12-31-2300-x.md"));
    assert_eq!(
        file_name_at_time(1_704_447_000, 8 * 3600, "Hello\nworld").as_deref(),
        Some("2024-01-05-1730-Hello.md")
    );
    assert_eq!(file_name_at_time(253_402_300_799, 0, "").as_deref(), Some("9999-12-31-2359-便签.md"));
    assert_eq!(
        file_name_at_time(253_402_300_799, 3600, "y").as_deref(),
        Some("+10000-01-01-0059-y.md")
    );
}

#[test]
fn file_name_at_time_rejects_a_day_of_offset() {
    assert_eq!(file_name_at_time(0, 86_400, "x"), None);
    assert_eq!(file_name_at_time(0, -86_400, "x"), None);
    assert_eq!(file_name_at_time(i64::MAX, 0, "x"), None);
}

#[test]
fn make_filename_rejects_a_day_of_offset() {
    assert_eq!(make_filename("x", 86_400), None);
}

#[test]
fn later_stamps_sort_later() {
    let a = file_name_at("2024-01-05-0930", "zzz");
    let b = file_name_at("2024-01-05-0931", "aaa");
    assert!(a < b);
}

#[test]
fn whitespace_matches_std_for_every_char() {
    for u in 0u32..=0x10FFFF {
        if let Some(c) = char::from_u32(u) {
            assert_eq!(is_whitespace(c), c.is_whitespace(), "U+{:04X}", u);
        }
    }
}

#[test]
fn trimmed_matches_std_trim() {
    for s in SAMPLES {
        let v = chars_of(s);
        let t: String = trimmed(&v).into_iter().collect();
        assert_eq!(t, s.trim(), "{:?}", s);
    }
}
