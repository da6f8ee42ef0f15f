use std::path::{Path, PathBuf};

use floatnote::notes::{is_markdown_file, latest_note, NoteData, NoteFile, NoteSession};
use floatnote::paths::{
    config_dir, config_dir_in, default_storage_dir, default_storage_dir_in, path_join,
    settings_path, settings_path_in, storage_dir, storage_dir_in, NO_DEFAULT_STORAGE_DIR,
};
use floatnote::settings::{opens_last_note, Settings, WindowRect};

fn bytes_of_path(p: PathBuf) -> Vec<u8> {
    p.into_os_string().into_encoded_bytes()
}

fn b(s: &str) -> Vec<u8> {
    s.as_bytes().to_vec()
}

#[test]
fn path_join_matches_std() {
    let dirs = ["", "/", "/a", "/a/", "rel", "rel/", "/Users/x/Documents"];
    let names = ["", "b", "b/c", "/abs", "note.md", "悬浮便签"];
    for d in dirs {
        for n in names {
            let expected = bytes_of_path(PathBuf::from(d).join(n));
            assert_eq!(path_join(d.as_bytes(), n.as_bytes()), expected, "{:?} {:?}", d, n);
        }
    }
}

#[test]
fn path_join_keeps_bytes_that_are_not_utf8() {
    let dir: &[u8] = b"/home/\xff\xfeuser";
    assert_eq!(path_join(dir, b"notes"), b"/home/\xff\xfeuser/notes".to_vec());
    assert_eq!(
        config_dir_in(Some(dir.to_vec())),
        Some(b"/home/\xff\xfeuser/floating-notes".to_vec())
    );
}

#[test]
fn config_and_settings_paths() {
    assert_eq!(
        config_dir_in(Some(b("/home/a/.config"))),
        Some(b("/home/a/.config/floating-notes"))
    );
    assert_eq!(config_dir_in(None), None);
    assert_eq!(
        settings_path_in(Some(b("/home/a/.config/floating-notes"))),
        Some(b("/home/a/.config/floating-notes/settings.json"))
    );
    assert_eq!(settings_path_in(None), None);
}

#[test]
fn paths_follow_dirs() {
    let expected = dirs::config_dir().map(|d| bytes_of_path(d.join("floating-notes")));
    assert_eq!(config_dir(), expected);
    let expected =
        dirs::config_dir().map(|d| bytes_of_path(d.join("floating-notes").join("settings.json")));
    assert_eq!(settings_path(), expected);
    let expected = dirs::document_dir().map(|d| bytes_of_path(d.join("悬浮便签")));
    assert_eq!(default_storage_dir(), expected);
}

#[test]
fn default_storage_dir_under_documents() {
    assert_eq!(
        default_storage_dir_in(Some(b("/Users/x/Documents"))),
        Some(b("/Users/x/Documents/悬浮便签"))
    );
    assert_eq!(default_storage_dir_in(None), None);
}

#[test]
fn configured_storage_dir_wins() {
    let mut s = Settings::empty();
    s.storage_dir = Some("/Users/x/Obsidian/Inbox".to_string());
    assert_eq!(storage_dir_in(&s, Some(b("/d"))), Ok(b("/Users/x/Obsidian/Inbox")));
    assert_eq!(storage_dir_in(&s, None), Ok(b("/Users/x/Obsidian/Inbox")));
    assert_eq!(storage_dir(&s), Ok(b("/Users/x/Obsidian/Inbox")));
}

#[test]
fn empty_or_missing_storage_dir_uses_default() {
    let mut s = Settings::empty();
    assert_eq!(storage_dir_in(&s, Some(b("/d"))), Ok(b("/d")));
    s.storage_dir = Some(String::new());
    assert_eq!(storage_dir_in(&s, Some(b("/d"))), Ok(b("/d")));
    assert_eq!(storage_dir(&s).ok(), default_storage_dir());
}

#[test]
fn no_storage_dir_at_all_is_an_error() {
    let s = Settings::empty();
    assert_eq!(storage_dir_in(&s, None), Err("无法确定默认存储目录".to_string()));
    assert_eq!(NO_DEFAULT_STORAGE_DIR, "无法确定默认存储目录");
}

#[test]
fn markdown_names_match_path_extension() {
    let names = ["a.md", ".md", "x.MD", "a.md.txt", "md", "..md", "a.m", "2024-01-05-0930-便签.md", "", "b.mdx"];
    for n in names {
        let expected = Path::new(n).extension().map_or(false, |x| x == "md");
        assert_eq!(is_markdown_file(n), expected, "{:?}", n);
    }
}

fn reference_latest(names: &[String]) -> Option<String> {
    let mut md: Vec<&String> = names.iter().filter(|n| Path::new(n.as_str()).extension().map_or(false, |x| x == "md")).collect();
    md.sort_by(|a, b| b.as_bytes().cmp(a.as_bytes()));
    md.first().map(|s| s.to_string())
}

#[test]
fn latest_note_is_the_newest_markdown_file() {
    let names: Vec<String> = ["2024-01-01-0900-a.md", "2024-03-01-0900-b.md", "notes.txt", "2025.txt", ".md"]
        .iter()
        .map(|s| s.to_string())
        .collect();
    assert_eq!(latest_note(&names), Some(1));
    assert_eq!(reference_latest(&names), Some(names[1].clone()));
}

#[test]
fn latest_note_none_without_markdown() {
    assert_eq!(latest_note(&Vec::new()), None);
    let names = vec!["a.txt".to_string(), ".md".to_string()];
    assert_eq!(latest_note(&names), None);
}

#[test]
fn latest_note_first_among_equals() {
    let names = vec!["b.md".to_string(), "a.md".to_string(), "b.md".to_string()];
    assert_eq!(latest_note(&names), Some(0));
}

#[test]
fn latest_note_matches_reverse_sort() {
    let sets: Vec<Vec<&str>> = vec![
        vec!["2024-12-31-2359-z.md", "2025-01-01-0000-a.md"],
        vec!["é.md", "e.md", "f.md"],
        vec!["便签.md", "z.md", "2024-01-01-0000-便签.md"],
        vec!["ab.md", "a.md", "abc.md"],
    ];
    for set in sets {
        let names: Vec<String> = set.iter().map(|s| s.to_string()).collect();
        let got = latest_note(&names).map(|i| names[i].clone());
        assert_eq!(got, reference_latest(&names), "{:?}", set);
    }
}

#[test]
fn session_saves_stay_on_one_file_until_new_note() {
    let mut session = NoteSession::new();
    assert!(session.current.is_none());
    let first = session.save_target(false, b("/notes"), "Hello\nworld", 0).unwrap();
    assert_eq!(first.dir, b("/notes"));
    assert!(first.name.ends_with("-Hello.md"));
    assert!(first.path().starts_with(b"/notes/"));
    session.record_saved(first.duplicate());
    let again = session.save_target(true, b("/elsewhere"), "Changed title", 86_400).unwrap();
    assert_eq!(again.dir, first.dir);
    assert_eq!(again.name, first.name);
    let gone = session.save_target(false, b("/notes"), "Changed title", 0).unwrap();
    assert!(gone.name.ends_with("-Changed title.md"));
    session.start_new_note();
    assert!(session.current.is_none());
    let fresh = session.save_target(true, b("/notes"), "Second", 0).unwrap();
    assert!(fresh.name.ends_with("-Second.md"));
    assert!(session.save_target(true, b("/notes"), "Second", 86_400).is_none());
}

#[test]
fn session_opens_latest() {
    let mut session = NoteSession::new();
    session.open(Some(NoteFile { dir: b("/n"), name: "x.md".to_string() }));
    let target = session.save_target(true, b("/other"), "ignored", 0).unwrap();
    assert_eq!(target.path(), b("/n/x.md"));
    session.open(None);
    assert!(session.current.is_none());
}

#[test]
fn save_target_named_is_exact() {
    let session = NoteSession::new();
    let f = session.save_target_named(true, b("/n"), "a.md".to_string());
    assert_eq!((f.dir.as_slice(), f.name.as_str()), (&b"/n"[..], "a.md"));
}

#[test]
fn note_data_uses_file_name_twice() {
    let file = NoteFile { dir: b("/n"), name: "2024-01-05-0930-x.md".to_string() };
    let d = NoteData::of_file("body".to_string(), &file);
    assert_eq!(d.content, "body");
    assert_eq!(d.filename, "2024-01-05-0930-x.md");
    assert_eq!(d.created_at, "2024-01-05-0930-x.md");
}

#[test]
fn open_behaviour_defaults_to_last() {
    let mut s = Settings::empty();
    assert!(opens_last_note(&s));
    s.open_behavior = Some("last".to_string());
    assert!(opens_last_note(&s));
    s.open_behavior = Some("new".to_string());
    assert!(!opens_last_note(&s));
    s.open_behavior = Some(String::new());
    assert!(!opens_last_note(&s));
}

#[test]
fn window_rect_update_keeps_other_settings() {
    let mut s = Settings::empty();
    s.theme = Some("dark".to_string());
    s.opacity_bits = Some(0.8f64.to_bits());
    let rect = WindowRect { x: -10, y: 20, w: 400, h: 300 };
    s.set_window_rect(rect);
    assert_eq!(s.window_rect, Some(rect));
    assert_eq!(s.theme.as_deref(), Some("dark"));
    assert_eq!(s.opacity_bits.map(f64::from_bits), Some(0.8));
}
