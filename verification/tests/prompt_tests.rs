use prompt_view::CustomPromptView;
use prompt_view::KeyCode;
use prompt_view::KeyEvent;
use prompt_view::KeyModifiers;
use prompt_view::RecordingSink;

fn no_mods() -> KeyModifiers {
    KeyModifiers { shift: false, control: false, alt: false, other: false }
}

fn shift() -> KeyModifiers {
    KeyModifiers { shift: true, control: false, alt: false, other: false }
}

fn key(code: KeyCode) -> KeyEvent {
    KeyEvent { code, modifiers: no_mods() }
}

fn view(title: &str) -> CustomPromptView<RecordingSink> {
    CustomPromptView::new(title.to_string(), RecordingSink::new())
}

fn type_str(v: &mut CustomPromptView<RecordingSink>, s: &str) {
    for c in s.chars() {
        v.handle_key_event(key(KeyCode::Char(c)));
    }
}

#[test]
fn starts_active() {
    let v = view("Review");
    assert!(!v.is_complete());
}

#[test]
fn typing_keeps_view_active() {
    let mut v = view("Review");
    type_str(&mut v, "hello");
    assert!(!v.is_complete());
    assert_eq!(v.textarea.text(), "hello");
}

#[test]
fn escape_completes_without_callback() {
    let mut v = view("Review");
    type_str(&mut v, "a");
    v.handle_key_event(key(KeyCode::Esc));
    assert!(v.is_complete());
    assert_eq!(v.on_submit.received.len(), 0);
}

#[test]
fn plain_enter_submits_trimmed_text() {
    let mut v = view("Review");
    type_str(&mut v, "fix bug");
    v.handle_key_event(key(KeyCode::Enter));
    assert!(v.is_complete());
    assert_eq!(v.on_submit.received, vec!["fix bug".to_string()]);
}

#[test]
fn submission_trims_outer_whitespace_only() {
    let mut v = view("Review");
    type_str(&mut v, "  fix  bug \t ");
    v.handle_key_event(key(KeyCode::Enter));
    assert!(v.is_complete());
    assert_eq!(v.on_submit.received, vec!["fix  bug".to_string()]);
}

#[test]
fn enter_on_empty_completes_without_callback() {
    let mut v = view("Review");
    v.handle_key_event(key(KeyCode::Enter));
    assert!(v.is_complete());
    assert_eq!(v.on_submit.received.len(), 0);
}

#[test]
fn enter_on_whitespace_only_completes_without_callback() {
    let mut v = view("Review");
    type_str(&mut v, "   ");
    v.handle_key_event(key(KeyCode::Enter));
    assert!(v.is_complete());
    assert_eq!(v.on_submit.received.len(), 0);
}

#[test]
fn shift_enter_inserts_newline_and_stays_active() {
    let mut v = view("Review");
    type_str(&mut v, "line1");
    v.handle_key_event(KeyEvent { code: KeyCode::Enter, modifiers: shift() });
    assert!(!v.is_complete());
    type_str(&mut v, "line2");
    v.handle_key_event(key(KeyCode::Enter));
    assert!(v.is_complete());
    assert_eq!(v.on_submit.received, vec!["line1\nline2".to_string()]);
}

#[test]
fn backspace_and_arrows_edit_at_cursor() {
    let mut v = view("Review");
    type_str(&mut v, "ab");
    v.handle_key_event(key(KeyCode::Left));
    v.handle_key_event(key(KeyCode::Backspace));
    assert_eq!(v.textarea.text(), "b");
    type_str(&mut v, "c");
    assert_eq!(v.textarea.text(), "cb");
    v.handle_key_event(key(KeyCode::Right));
    type_str(&mut v, "d");
    assert_eq!(v.textarea.text(), "cbd");
}

#[test]
fn control_characters_are_ignored() {
    let mut v = view("Review");
    let ctrl = KeyModifiers { shift: false, control: true, alt: false, other: false };
    v.handle_key_event(KeyEvent { code: KeyCode::Char('c'), modifiers: ctrl });
    assert_eq!(v.textarea.text(), "");
    assert!(!v.is_complete());
}

#[test]
fn super_modified_enter_inserts_newline() {
    let mut v = view("Review");
    type_str(&mut v, "a");
    let sup = KeyModifiers { shift: false, control: false, alt: false, other: true };
    v.handle_key_event(KeyEvent { code: KeyCode::Enter, modifiers: sup });
    assert!(!v.is_complete());
    type_str(&mut v, "b");
    v.handle_key_event(key(KeyCode::Enter));
    assert_eq!(v.on_submit.received, vec!["a\nb".to_string()]);
}

#[test]
fn trimming_covers_unicode_whitespace() {
    let mut v = view("Review");
    type_str(&mut v, "\u{00A0}a\u{00A0}b\u{2003}");
    v.handle_key_event(key(KeyCode::Enter));
    assert_eq!(v.on_submit.received, vec!["a\u{00A0}b".to_string()]);
}

#[test]
fn unicode_whitespace_only_cancels_silently() {
    let mut v = view("Review");
    type_str(&mut v, "\u{00A0}\u{2028}\u{3000}");
    v.handle_key_event(key(KeyCode::Enter));
    assert!(v.is_complete());
    assert_eq!(v.on_submit.received.len(), 0);
}

#[test]
fn paste_empty_not_consumed() {
    let mut v = view("Review");
    type_str(&mut v, "x");
    let consumed = v.handle_paste(String::new());
    assert!(!consumed);
    assert_eq!(v.textarea.text(), "x");
    assert!(!v.is_complete());
}

#[test]
fn paste_nonempty_consumed_and_inserted() {
    let mut v = view("Review");
    let consumed = v.handle_paste("abc".to_string());
    assert!(consumed);
    assert_eq!(v.textarea.text(), "abc");
    assert!(!v.is_complete());
}

#[test]
fn paste_inserts_at_cursor() {
    let mut v = view("Review");
    type_str(&mut v, "ad");
    v.handle_key_event(key(KeyCode::Left));
    let consumed = v.handle_paste("bc".to_string());
    assert!(consumed);
    assert_eq!(v.textarea.text(), "abcd");
}

#[test]
fn pasted_text_submits_verbatim_after_trim() {
    let mut v = view("Review");
    v.handle_paste(" keep \n inner ".to_string());
    v.handle_key_event(key(KeyCode::Enter));
    assert_eq!(v.on_submit.received, vec!["keep \n inner".to_string()]);
}

#[test]
fn desired_height_of_empty_content() {
    let v = view("Review");
    // one editor row, one spacer row, plus title, blank and hint rows
    assert_eq!(v.desired_height(80), 5);
    assert_eq!(v.input_height(80), 2);
}

#[test]
fn desired_height_counts_wrapped_rows() {
    let mut v = view("Review");
    type_str(&mut v, "aaaaa");
    // usable width 3: "aaa" + "aa" -> 2 editor rows
    assert_eq!(v.desired_height(5), 6);
}

#[test]
fn desired_height_counts_newlines() {
    let mut v = view("Review");
    type_str(&mut v, "a");
    v.handle_key_event(KeyEvent { code: KeyCode::Enter, modifiers: shift() });
    type_str(&mut v, "b");
    assert_eq!(v.desired_height(80), 6);
}

#[test]
fn desired_height_is_capped_for_long_content() {
    let mut v = view("Review");
    for _ in 0..40 {
        type_str(&mut v, "x");
        v.handle_key_event(KeyEvent { code: KeyCode::Enter, modifiers: shift() });
    }
    assert_eq!(v.desired_height(80), 12);
}

#[test]
fn desired_height_bounded_for_every_width() {
    let widths: Vec<u16> = vec![0, 1, 2, 3, 4, 10, 1000, u16::MAX];
    let mut v = view("Review");
    type_str(&mut v, "some instructions that wrap around");
    for w in widths {
        let h = v.desired_height(w);
        assert!((5..=12).contains(&h));
    }
}
