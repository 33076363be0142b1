use bms_rs::lex::cursor::Cursor;
use bms_rs::lex::LexError;

#[test]
fn test1() {
    let mut cursor = Cursor::new(
        r"
            hoge
            foo
            bar bar
        ",
    );

    assert_eq!(cursor.line(), 1);
    assert_eq!(cursor.col(), 1);
    assert_eq!(cursor.next_token(), Some("hoge"));
    assert_eq!(cursor.line(), 2);
    assert_eq!(cursor.col(), 17);
    assert_eq!(cursor.next_token(), Some("foo"));
    assert_eq!(cursor.line(), 3);
    assert_eq!(cursor.col(), 16);
    assert_eq!(cursor.next_token(), Some("bar"));
    assert_eq!(cursor.line(), 4);
    assert_eq!(cursor.col(), 16);
    assert_eq!(cursor.next_token(), Some("bar"));
    assert_eq!(cursor.line(), 4);
    assert_eq!(cursor.col(), 20);
}

#[test]
fn test2() {
    const SOURCE: &str = r"
        #TITLE 花たちに希望を [SP ANOTHER]
        #ARTIST Sound piercer feat.DAZBEE
        #BPM 187
    ";

    let mut cursor = Cursor::new(SOURCE);

    assert_eq!(cursor.next_token(), Some("#TITLE"));
    assert_eq!(cursor.next_line_remaining(), "花たちに希望を [SP ANOTHER]");
    assert_eq!(cursor.next_token(), Some("#ARTIST"));
    assert_eq!(cursor.next_line_remaining(), "Sound piercer feat.DAZBEE");
    assert_eq!(cursor.next_token(), Some("#BPM"));
    assert_eq!(cursor.next_line_remaining(), "187");
}

#[test]
fn cursor_ends_after_last_token() {
    let mut cursor = Cursor::new("  a \r\n b\t");
    assert!(!cursor.is_end());
    assert_eq!(cursor.peek_token(), Some("a"));
    assert_eq!(cursor.get_token(), 2..3);
    assert_eq!(cursor.next_token(), Some("a"));
    assert_eq!(cursor.next_token(), Some("b"));
    assert_eq!((cursor.line(), cursor.col()), (2, 3));
    assert!(cursor.is_end());
    assert_eq!(cursor.peek_token(), None);
    assert_eq!(cursor.next_token(), None);
    assert_eq!((cursor.line(), cursor.col()), (2, 3));
    assert_eq!(cursor.get_token(), 9..9);
}

#[test]
fn column_counts_characters_not_bytes() {
    let mut cursor = Cursor::new("#TITLE 花たちに希望を next");
    assert_eq!(cursor.next_token(), Some("#TITLE"));
    assert_eq!(cursor.next_token(), Some("花たちに希望を"));
    assert_eq!(cursor.col(), 15);
    cursor.skip_to_token();
    assert_eq!((cursor.line(), cursor.col()), (1, 16));
    assert_eq!(cursor.get_token(), 29..33);
    assert_eq!(cursor.next_token(), Some("next"));
}

#[test]
fn rest_of_line_drops_carriage_return_before_line_feed() {
    let mut cursor = Cursor::new("#A  x y \r\n#B z\r");
    assert_eq!(cursor.next_token(), Some("#A"));
    assert_eq!(cursor.next_line_remaining(), "x y ");
    assert_eq!((cursor.line(), cursor.col()), (1, 9));
    assert_eq!(cursor.next_token(), Some("#B"));
    assert_eq!(cursor.next_line_remaining(), "z\r");
    assert_eq!(cursor.next_line_remaining(), "");
    assert!(cursor.is_end());
}

#[test]
fn rest_of_line_stays_on_its_line() {
    let mut cursor = Cursor::new("#A \n#B");
    assert_eq!(cursor.next_token(), Some("#A"));
    assert_eq!(cursor.next_line_remaining(), "");
    assert_eq!((cursor.line(), cursor.col()), (1, 4));
    assert_eq!(cursor.next_token(), Some("#B"));
    assert_eq!((cursor.line(), cursor.col()), (2, 3));
}

#[test]
fn advance_stops_at_the_end() {
    let mut cursor = Cursor::new("ab\ncd");
    cursor.advance(4);
    assert_eq!((cursor.line(), cursor.col()), (2, 2));
    assert_eq!(cursor.next_token(), Some("d"));
    cursor.advance(10);
    assert_eq!((cursor.line(), cursor.col()), (2, 3));
}

#[test]
fn expected_token_error_carries_the_position() {
    let mut cursor = Cursor::new("\n  #BPM");
    cursor.next_token();
    assert_eq!(
        cursor.err_expected_token("bpm"),
        LexError::ExpectedToken { line: 2, col: 7, message: "bpm" }
    );
}

#[test]
fn unicode_spaces_separate_tokens() {
    let mut cursor = Cursor::new("a\u{3000}b\u{a0}c\u{2003}d\u{85}e\u{200b}f");
    assert_eq!(cursor.next_token(), Some("a"));
    assert_eq!(cursor.next_token(), Some("b"));
    assert_eq!(cursor.next_token(), Some("c"));
    assert_eq!(cursor.next_token(), Some("d"));
    assert_eq!(cursor.next_token(), Some("e\u{200b}f"));
}
