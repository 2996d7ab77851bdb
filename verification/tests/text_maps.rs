use mintaka::cache::TextMap;
use mintaka::live::process_selected;
use mintaka::text::{decimal_string, join_strings, str_contains, str_eq, str_starts_with};

#[test]
fn map_reads_back_the_last_write() {
    let mut m: TextMap<u32> = TextMap::new();
    assert_eq!(m.len(), 0);
    assert_eq!(m.get("a"), None);
    m.insert("a".to_string(), 1);
    m.insert("b".to_string(), 2);
    m.insert("a".to_string(), 3);
    assert_eq!(m.get("a"), Some(&3));
    assert_eq!(m.get("b"), Some(&2));
    assert_eq!(m.len(), 2);
    assert_eq!(m.entries().len(), 2);
}

#[test]
fn text_helpers() {
    assert!(str_contains("powershell.exe", "shell"));
    assert!(str_contains("abc", ""));
    assert!(!str_contains("ab", "abc"));
    assert!(str_starts_with("127.0.0.1", "127."));
    assert!(!str_starts_with("12", "127."));
    assert!(str_eq("x", "x"));
    assert!(!str_eq("x", "y"));
    assert_eq!(decimal_string(0), "0");
    assert_eq!(decimal_string(4812), "4812");
    assert_eq!(decimal_string(u64::MAX), "18446744073709551615");
    assert_eq!(join_strings(&["a".to_string(), "b".to_string(), "c".to_string()], " | "), "a | b | c");
    assert_eq!(join_strings(&[], " "), "");
}

#[test]
fn name_filter_lowercases_with_unicode_rules() {
    assert!(process_selected(1, "WINWORD.EXE", None, Some("winword")));
    assert!(process_selected(1, "ÄÖ-Dienst", None, Some("äö")));
    assert!(!process_selected(1, "ÄÖ-Dienst", None, Some("ao")));
}
