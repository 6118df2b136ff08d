use chat_core::text::validate_message_text;

#[test]
fn surrounding_whitespace_is_stripped() {
    assert_eq!(validate_message_text("  hello  "), Some("hello".to_owned()));
    assert_eq!(validate_message_text("\t\nhi\r\n"), Some("hi".to_owned()));
    assert_eq!(validate_message_text("no trim needed"), Some("no trim needed".to_owned()));
}

#[test]
fn inner_whitespace_is_kept() {
    assert_eq!(validate_message_text(" a  b "), Some("a  b".to_owned()));
}

#[test]
fn empty_and_blank_messages_are_rejected() {
    assert_eq!(validate_message_text(""), None);
    assert_eq!(validate_message_text("   "), None);
    assert_eq!(validate_message_text("\t\r\n"), None);
}

#[test]
fn non_ascii_text_passes_through() {
    assert_eq!(validate_message_text("  héllo wörld 🦀 "), Some("héllo wörld 🦀".to_owned()));
}
