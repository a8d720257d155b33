use wtm::search::{append_char, clipboard_line, fuzzy_match, shorten, type_char};
use wtm::text::{lower_each, to_lowercase, to_uppercase};

#[test]
fn match_is_a_subsequence() {
    assert!(fuzzy_match("swap_left alt+shift+left", "swl"));
    assert!(fuzzy_match("anything", ""));
    assert!(fuzzy_match("Focus Left", "F L"));
    assert!(!fuzzy_match("swap_left", "lws"));
    assert!(!fuzzy_match("aa", "aaa"));
}

#[test]
fn match_ignores_case() {
    assert!(fuzzy_match("ÄPFEL", "äf"));
    assert!(fuzzy_match("x", " \t"));
    assert!(fuzzy_match("i\u{307}", "İ"));
}

#[test]
fn case_is_changed_as_a_whole() {
    assert_eq!(to_lowercase("ΌΣΟΣ Brave.EXE"), "όσος brave.exe");
    assert_eq!(to_uppercase("straße"), "STRASSE");
    assert_eq!(lower_each("AΣ"), vec!['a', 'σ']);
}

#[test]
fn texts_grow_and_shrink_by_one() {
    let mut s = "aé".to_string();
    shorten(&mut s);
    assert_eq!(s, "a");
    shorten(&mut s);
    shorten(&mut s);
    assert_eq!(s, "");
    append_char(&mut s, 0x1F310);
    append_char(&mut s, 0xD800);
    append_char(&mut s, 0x11_0000);
    assert_eq!(s, "🌐");
}

#[test]
fn clipboard_gives_its_first_line() {
    assert_eq!(clipboard_line(&Some("  a\tb\u{1} \r\nsecond".to_string())), "ab");
    assert_eq!(clipboard_line(&Some(String::new())), "");
    assert_eq!(clipboard_line(&None), "");
}

#[test]
fn typing_follows_the_keys() {
    let mut s = "x".to_string();
    assert!(type_char(&mut s, 0x61, &None));
    assert!(type_char(&mut s, 0x16, &Some("bc\nd".to_string())));
    assert_eq!(s, "xabc");
    assert!(type_char(&mut s, 0x08, &None));
    assert_eq!(s, "xab");
    assert!(!type_char(&mut s, 0x0D, &None));
    assert!(!type_char(&mut s, 0x1B, &None));
    assert!(type_char(&mut s, 0xD800, &None));
    assert_eq!(s, "xab");
}
