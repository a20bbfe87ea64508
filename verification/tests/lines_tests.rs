use tcp_messenger::lines::{classify_line, nick_command, trim, LineClass};

#[test]
fn trim_strips_both_ends() {
    assert_eq!(trim(b"  hello \r\n"), b"hello".to_vec());
    assert_eq!(trim(b"hello"), b"hello".to_vec());
    assert_eq!(trim(b" \t \n"), Vec::<u8>::new());
    assert_eq!(trim(b""), Vec::<u8>::new());
    assert_eq!(trim(b"a b"), b"a b".to_vec());
}

#[test]
fn nick_command_encodes_the_change() {
    assert_eq!(nick_command(b"bob"), b"/nick bob\n".to_vec());
}

#[test]
fn nick_command_is_read_back_as_a_nick_change() {
    let line = nick_command(b"bob");
    match classify_line(&line) {
        LineClass::NickChange { nick } => assert_eq!(nick, b"bob".to_vec()),
        LineClass::Text { .. } => panic!("nick command classified as text"),
    }
}

#[test]
fn short_command_token_is_recognized() {
    match classify_line(b"/n carol\n") {
        LineClass::NickChange { nick } => assert_eq!(nick, b"carol".to_vec()),
        LineClass::Text { .. } => panic!("short nick command classified as text"),
    }
}

#[test]
fn nick_is_the_last_token() {
    match classify_line(b"/nick one two\n") {
        LineClass::NickChange { nick } => assert_eq!(nick, b"two".to_vec()),
        LineClass::Text { .. } => panic!("nick command classified as text"),
    }
}

#[test]
fn ordinary_lines_are_text() {
    match classify_line(b"  hello world \n") {
        LineClass::Text { line } => assert_eq!(line, b"hello world".to_vec()),
        LineClass::NickChange { .. } => panic!("text classified as nick change"),
    }
}

#[test]
fn bare_command_token_without_argument_is_text() {
    match classify_line(b"/nick\n") {
        LineClass::Text { line } => assert_eq!(line, b"/nick".to_vec()),
        LineClass::NickChange { .. } => panic!("bare token classified as nick change"),
    }
}
