use bl602wifi::compat::common::{c_str_eq, strcmp, strlen, strncpy, StrBuf, STRBUF_SIZE};

#[test]
fn strlen_counts_up_to_the_first_nul() {
    assert_eq!(strlen(b"hello\0"), 5);
    assert_eq!(strlen(b"hello\0world\0"), 5);
    assert_eq!(strlen(b"\0"), 0);
    assert_eq!(strlen(b""), 0);
    assert_eq!(strlen(b"no end"), 6);
}

#[test]
fn strcmp_is_zero_for_equal_strings_and_one_otherwise() {
    assert_eq!(strcmp(b"abc\0", b"abc\0"), 0);
    assert_eq!(strcmp(b"abc\0xyz", b"abc\0123"), 0);
    assert_eq!(strcmp(b"\0", b"\0"), 0);
    assert_eq!(strcmp(b"abc\0", b"abd\0"), 1);
    assert_eq!(strcmp(b"abd\0", b"abc\0"), 1);
    assert_eq!(strcmp(b"ab\0", b"abc\0"), 1);
    assert_eq!(strcmp(b"abc\0", b"ab\0"), 1);
    assert_eq!(strcmp(b"\0", b"a\0"), 1);
    assert!(c_str_eq(b"same\0", b"same"));
    assert!(!c_str_eq(b"same\0", b"sane\0"));
}

#[test]
fn strncpy_copies_a_string_that_fits_with_its_nul() {
    let mut dest = vec![0xffu8; 8];
    strncpy(&mut dest, b"abc\0", 8);
    assert_eq!(dest, vec![b'a', b'b', b'c', 0, 0xff, 0xff, 0xff, 0xff]);
}

#[test]
fn strncpy_cuts_a_long_string_and_still_ends_it() {
    let mut dest = vec![0xffu8; 8];
    strncpy(&mut dest, b"abcdefgh\0", 4);
    assert_eq!(dest, vec![b'a', b'b', b'c', 0, 0xff, 0xff, 0xff, 0xff]);
    let mut exact = vec![0xffu8; 4];
    strncpy(&mut exact, b"abcd\0", 4);
    assert_eq!(exact, vec![b'a', b'b', b'c', 0]);
    let mut one = vec![0xffu8; 2];
    strncpy(&mut one, b"abcd\0", 1);
    assert_eq!(one, vec![0, 0xff]);
}

#[test]
fn strncpy_of_zero_bytes_writes_nothing() {
    let mut dest = vec![0xffu8; 3];
    strncpy(&mut dest, b"abc\0", 0);
    assert_eq!(dest, vec![0xff, 0xff, 0xff]);
}

#[test]
fn strncpy_of_the_empty_string_writes_the_nul() {
    let mut dest = vec![0xffu8; 3];
    strncpy(&mut dest, b"\0", 3);
    assert_eq!(dest, vec![0, 0xff, 0xff]);
}

#[test]
fn a_new_strbuf_is_empty() {
    let buf = StrBuf::new();
    assert_eq!(buf.len(), 0);
    assert_eq!(buf.as_bytes(), Vec::<u8>::new());
}

#[test]
fn strbuf_from_takes_the_c_string() {
    let buf = StrBuf::from(b"wifi\0junk");
    assert_eq!(buf.as_bytes(), b"wifi".to_vec());
    assert_eq!(StrBuf::from(b"\0").len(), 0);
}

#[test]
fn strbuf_appends_text_characters_and_c_strings() {
    let mut buf = StrBuf::new();
    buf.append("ab");
    buf.append_char('c');
    buf.append_from(b"de\0f");
    buf.append_byte(b'!');
    buf.append("");
    assert_eq!(buf.as_bytes(), b"abcde!".to_vec());
    assert_eq!(buf.len(), 6);
}

#[test]
fn strbuf_keeps_the_low_byte_of_each_character() {
    let mut buf = StrBuf::new();
    buf.append("\u{e9}\u{20ac}");
    buf.append_char('\u{1f600}');
    assert_eq!(buf.as_bytes(), vec![0xe9, 0xac, 0x00]);
}

#[test]
fn strbuf_can_be_filled_to_the_last_byte() {
    let mut buf = StrBuf::new();
    let text = "x".repeat(STRBUF_SIZE - 1);
    buf.append(&text);
    buf.append_char('y');
    assert_eq!(buf.len(), STRBUF_SIZE);
    let bytes = buf.as_bytes();
    assert_eq!(bytes[STRBUF_SIZE - 2], b'x');
    assert_eq!(bytes[STRBUF_SIZE - 1], b'y');
}
