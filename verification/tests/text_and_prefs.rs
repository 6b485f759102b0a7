use mx_replay_uploader::pref::Pref;
use mx_replay_uploader::string_map::StringMap;
use mx_replay_uploader::text::{decimal_u32, ends_with, is_whitespace, same_text, trim_chars};

#[test]
fn trim_removes_unicode_whitespace() {
    let v: Vec<char> = " \t\u{3000}a b\n ".chars().collect();
    assert_eq!(trim_chars(&v), "a b");
    let v: Vec<char> = "   ".chars().collect();
    assert_eq!(trim_chars(&v), "");
}

#[test]
fn text_comparisons() {
    assert!(same_text("abc", "abc"));
    assert!(!same_text("abc", "abd"));
    assert!(!same_text("abc", "ab"));
    assert!(ends_with("file.Gbx", ".Gbx"));
    assert!(!ends_with("Gbx", ".Gbx"));
}

#[test]
fn string_map_insert_replaces_in_place() {
    let mut m = StringMap::new();
    m.insert(String::from("a"), String::from("1"));
    m.insert(String::from("b"), String::from("2"));
    m.insert(String::from("a"), String::from("3"));
    assert_eq!(m.len(), 2);
    assert_eq!(m.get("a"), Some(&String::from("3")));
    assert_eq!(m.get("b"), Some(&String::from("2")));
    assert_eq!(m.get("c"), None);
    assert_eq!(m.first(), Some(&(String::from("a"), String::from("3"))));
}

#[test]
fn preferences_roundtrip() {
    let p = Pref {
        autosave_path: Some(String::from("/Replays/Autosaves")),
        username: None,
        password: Some(String::from("pw")),
    };
    let m = p.to_map();
    assert_eq!(
        m.pairs().clone(),
        vec![
            (String::from("autosave_path"), String::from("/Replays/Autosaves")),
            (String::from("password"), String::from("pw")),
        ]
    );
    let back = Pref::from_map(&m);
    assert_eq!(back.autosave_path, p.autosave_path);
    assert_eq!(back.username, None);
    assert_eq!(back.password, p.password);
    let empty = Pref::default();
    assert_eq!(empty.to_map().len(), 0);
    let back = Pref::from_map(&empty.to_map());
    assert!(back.autosave_path.is_none() && back.username.is_none() && back.password.is_none());
}

#[test]
fn whitespace_matches_std() {
    for u in 0u32..0x3100 {
        if let Some(c) = char::from_u32(u) {
            assert_eq!(is_whitespace(c), c.is_whitespace(), "U+{u:04X}");
        }
    }
}

#[test]
fn decimal_values_match_std() {
    for text in ["0", "7", "+12", "4294967295", "4294967296", "", "+", "-1", "12a", " 1", "00042", "99999999999"] {
        assert_eq!(decimal_u32(text), text.parse::<u32>().ok(), "{text:?}");
    }
}
