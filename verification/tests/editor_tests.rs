use prompt_view::KeyCode;
use prompt_view::KeyEvent;
use prompt_view::KeyModifiers;
use prompt_view::TextArea;

fn plain(code: KeyCode) -> KeyEvent {
    KeyEvent { code, modifiers: KeyModifiers { shift: false, control: false, alt: false, other: false } }
}

#[test]
fn new_textarea_is_empty() {
    let ta = TextArea::new();
    assert!(ta.is_empty());
    assert_eq!(ta.text(), "");
}

#[test]
fn insert_str_inserts_at_cursor() {
    let mut ta = TextArea::new();
    ta.insert_str("ad");
    ta.input(plain(KeyCode::Left));
    ta.insert_str("bc");
    assert_eq!(ta.text(), "abcd");
    assert!(!ta.is_empty());
}

#[test]
fn enter_key_inserts_newline_in_editor() {
    let mut ta = TextArea::new();
    ta.insert_str("ab");
    ta.input(plain(KeyCode::Enter));
    ta.insert_str("cd");
    assert_eq!(ta.text(), "ab\ncd");
}

#[test]
fn backspace_at_start_does_nothing() {
    let mut ta = TextArea::new();
    ta.input(plain(KeyCode::Left));
    ta.input(plain(KeyCode::Backspace));
    assert_eq!(ta.text(), "");
    ta.insert_str("a");
    ta.input(plain(KeyCode::Left));
    ta.input(plain(KeyCode::Backspace));
    assert_eq!(ta.text(), "a");
}

#[test]
fn desired_height_wraps_long_lines() {
    let mut ta = TextArea::new();
    // an empty buffer still needs one row
    assert_eq!(ta.desired_height(10), 1);
    ta.insert_str("abcdefghij");
    // ten characters at width 10: one full row plus the caret row
    assert_eq!(ta.desired_height(10), 2);
    assert_eq!(ta.desired_height(5), 3);
    assert_eq!(ta.desired_height(3), 4);
}

#[test]
fn desired_height_counts_logical_lines() {
    let mut ta = TextArea::new();
    ta.insert_str("a\nb\nc");
    assert_eq!(ta.desired_height(10), 3);
    // width 0 degrades to one row per logical line
    assert_eq!(ta.desired_height(0), 3);
}

#[test]
fn desired_height_is_capped() {
    let mut ta = TextArea::new();
    for _ in 0..30 {
        ta.insert_str("x\n");
    }
    assert_eq!(ta.desired_height(10), 9);
}
