use statusbar::keyboard::{contains_str, layout_name, select_keyboard, str_lt};

fn names(v: &[&str]) -> Vec<String> {
    v.iter().map(|s| s.to_string()).collect()
}

#[test]
fn picks_least_keyboard_name() {
    let v = names(&["power-button", "zsa-moonlander-(kb)", "at-translated-set-2-keyboard-(kb)", "mouse"]);
    assert_eq!(select_keyboard(&v), Some(2));
    let v = names(&["b-(kb)", "a-(kb)", "a-(kb)"]);
    assert_eq!(select_keyboard(&v), Some(1));
}

#[test]
fn no_keyboard() {
    assert_eq!(select_keyboard(&names(&[])), None);
    assert_eq!(select_keyboard(&names(&["mouse", "kb", "(k b)"])), None);
}

#[test]
fn layout_after_first_comma() {
    assert_eq!(layout_name("at-keyboard,English (US)"), Some("English (US)".to_string()));
    assert_eq!(layout_name("kbd,French,extra"), Some("French,extra".to_string()));
    assert_eq!(layout_name("kbd,"), Some(String::new()));
    assert_eq!(layout_name("no comma"), None);
}

#[test]
fn text_helpers() {
    assert!(contains_str("abc(kb)", "(kb)"));
    assert!(contains_str("x", ""));
    assert!(!contains_str("(k", "(kb)"));
    assert!(str_lt("abc", "abd"));
    assert!(str_lt("ab", "abc"));
    assert!(!str_lt("abc", "abc"));
    assert!(!str_lt("b", "abc"));
    assert!(str_lt("Z", "a"));
    assert!(str_lt("é", "ü"));
}
