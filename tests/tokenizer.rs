use memory_cache::parse::{Parse, ParseError};

#[test]
fn single_key_reader_rejects_trailing_token() {
    let mut p = Parse::new(b"get k extra".to_vec());
    assert_eq!(p.next_string(), Ok("get".to_string()));
    assert_eq!(p.next_string(), Ok("k".to_string()));
    assert!(!p.complete());
    assert_eq!(p.finish(), Err(ParseError::LineTooLong));
}

#[test]
fn last_token_runs_to_end_of_line() {
    let mut p = Parse::new(b"get k".to_vec());
    assert_eq!(p.next_bytes(), Ok(b"get".to_vec()));
    assert_eq!(p.next_bytes(), Ok(b"k".to_vec()));
    assert!(p.complete());
    assert_eq!(p.finish(), Ok(()));
    assert_eq!(p.next_bytes(), Err(ParseError::EndOfLine));
}

#[test]
fn empty_line_has_no_token() {
    let mut p = Parse::new(Vec::new());
    assert_eq!(p.next_string(), Err(ParseError::EndOfLine));
    assert_eq!(p.finish(), Err(ParseError::LineTooLong));
}

#[test]
fn integers_are_decimal() {
    let mut p = Parse::new(b"12 4294967295 4294967296 x 18446744073709551615 0007 18446744073709551616".to_vec());
    assert_eq!(p.next_u32(), Ok(12));
    assert_eq!(p.next_u32(), Ok(4294967295));
    assert_eq!(p.next_u32(), Err(ParseError::U32));
    assert_eq!(p.next_u32(), Err(ParseError::U32));
    assert_eq!(p.next_u64(), Ok(18446744073709551615));
    assert_eq!(p.next_u32(), Ok(7));
    assert_eq!(p.next_u64(), Err(ParseError::U64));
    assert!(p.complete());
}

#[test]
fn integers_reject_signs_and_trailing_bytes() {
    let mut p = Parse::new(b"+ - +5 -0 12ab 3".to_vec());
    assert_eq!(p.next_u32(), Err(ParseError::U32));
    assert_eq!(p.next_u64(), Err(ParseError::U64));
    assert_eq!(p.next_u32(), Err(ParseError::U32));
    assert_eq!(p.next_u64(), Err(ParseError::U64));
    assert_eq!(p.next_u32(), Err(ParseError::U32));
    assert_eq!(p.next_u32(), Ok(3));
}

#[test]
fn invalid_utf8_is_a_string_error() {
    let mut p = Parse::new(vec![0xff, 0xfe, b' ', b'k']);
    assert_eq!(p.next_string(), Err(ParseError::String));
    assert_eq!(p.next_string(), Ok("k".to_string()));
}
