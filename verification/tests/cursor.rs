use resp_codec::string_manip::{consume_crlf, consume_n_chars, consume_until_crlf};

#[test]
fn until_crlf_returns_text_before_terminator() {
    let mut pos: usize = 0;
    let r = consume_until_crlf("hello\r\nrest", &mut pos);
    assert_eq!(r, Ok("hello".to_string()));
    assert_eq!(pos, 7);
}

#[test]
fn until_crlf_treats_lone_cr_as_data() {
    let mut pos: usize = 0;
    let r = consume_until_crlf("a\rb\r\n", &mut pos);
    assert_eq!(r, Ok("a\rb".to_string()));
    assert_eq!(pos, 5);
}

#[test]
fn until_crlf_fails_without_terminator() {
    let mut pos: usize = 0;
    let r = consume_until_crlf("no terminator", &mut pos);
    assert_eq!(r, Err("Expected CRLF".to_string()));
    assert_eq!(pos, 0);
}

#[test]
fn until_crlf_starts_at_the_cursor() {
    let mut pos: usize = 3;
    let r = consume_until_crlf("ab\rcd\r\n", &mut pos);
    assert_eq!(r, Ok("cd".to_string()));
    assert_eq!(pos, 7);
}

#[test]
fn crlf_consumes_exactly_the_terminator() {
    let mut pos: usize = 0;
    assert_eq!(consume_crlf("\r\nx", &mut pos), Ok(()));
    assert_eq!(pos, 2);
}

#[test]
fn crlf_fails_on_other_text() {
    let mut pos: usize = 0;
    assert_eq!(consume_crlf("x\r\n", &mut pos), Err("Expected CRLF".to_string()));
    assert_eq!(pos, 0);
    let mut pos2: usize = 0;
    assert_eq!(consume_crlf("\r", &mut pos2), Err("Expected CRLF".to_string()));
    assert_eq!(pos2, 0);
}

#[test]
fn n_chars_reads_exactly_n() {
    let mut pos: usize = 0;
    let r = consume_n_chars("abc\r\ndef", &mut pos, 5);
    assert_eq!(r, Ok("abc\r\n".to_string()));
    assert_eq!(pos, 5);
}

#[test]
fn n_chars_fails_when_input_ends_first() {
    let mut pos: usize = 1;
    let r = consume_n_chars("abc", &mut pos, 3);
    assert_eq!(r, Err("Unexpected end of input".to_string()));
    assert_eq!(pos, 1);
}

#[test]
fn n_chars_reads_zero() {
    let mut pos: usize = 2;
    assert_eq!(consume_n_chars("abc", &mut pos, 0), Ok("".to_string()));
    assert_eq!(pos, 2);
}
