use memory_cache::cache::Cache;
use memory_cache::commands::{execute, Command, CommandError};
use memory_cache::frame::{RequestFrame, StorageFrame};
use memory_cache::parse::ParseError;

fn other(line: &[u8]) -> RequestFrame {
    RequestFrame::Other(line.to_vec())
}

fn storage(line: &[u8], data: &[u8]) -> RequestFrame {
    RequestFrame::Storage(StorageFrame { command_line: line.to_vec(), data: data.to_vec() })
}

#[test]
fn multi_key_get_lists_hits_in_order_then_end() {
    let mut cache = Cache::new();
    cache.set("a".to_string(), 0, None, b"1".to_vec());
    cache.set("b".to_string(), 0, None, b"2".to_vec());
    let mut out = Vec::new();
    assert_eq!(execute(other(b"get a b c"), &mut cache, &mut out), Ok(()));
    assert_eq!(out, b"VALUEa01\r\n1\r\nVALUEb01\r\n2\r\nEND\r\n".to_vec());
}

#[test]
fn single_key_get_miss_writes_nothing() {
    let mut cache = Cache::new();
    let mut out = Vec::new();
    assert_eq!(execute(other(b"get absent"), &mut cache, &mut out), Ok(()));
    assert!(out.is_empty());
}

#[test]
fn single_key_get_hit_writes_value_then_end() {
    let mut cache = Cache::new();
    cache.set("k".to_string(), 7, None, b"v1".to_vec());
    let mut out = Vec::new();
    assert_eq!(execute(other(b"get k"), &mut cache, &mut out), Ok(()));
    assert_eq!(out, b"VALUEk72\r\nv1\r\nEND\r\n".to_vec());
}

#[test]
fn multi_key_get_with_no_hit_writes_end() {
    let mut cache = Cache::new();
    let mut out = Vec::new();
    assert_eq!(execute(other(b"get x y"), &mut cache, &mut out), Ok(()));
    assert_eq!(out, b"END\r\n".to_vec());
}

#[test]
fn get_takes_every_key_on_the_line() {
    match Command::from_frame(other(b"get k extra")) {
        Ok(Command::Get(g)) => {
            assert_eq!(g.keys(), &vec!["k".to_string(), "extra".to_string()]);
        }
        other => panic!("unexpected {:?}", other),
    }
}

#[test]
fn set_stores_and_answers_stored() {
    let mut cache = Cache::new();
    let mut out = Vec::new();
    assert_eq!(execute(storage(b"set k 5 100 2", b"hi"), &mut cache, &mut out), Ok(()));
    assert_eq!(out, b"STORED\r\n".to_vec());
    let item = cache.get(&"k".to_string()).unwrap();
    assert_eq!((item.flags, item.expiration, item.cas), (5, Some(100), 0));
    assert_eq!(item.data, b"hi".to_vec());
}

#[test]
fn set_command_fields() {
    match Command::from_frame(storage(b"set key 9 60 3", b"abc")) {
        Ok(Command::Store(s)) => {
            assert_eq!(s.key, "key");
            assert_eq!(s.flags, 9);
            assert_eq!(s.expiration, Some(60));
            assert_eq!(s.cas, 0);
            assert_eq!(s.data, b"abc".to_vec());
        }
        other => panic!("unexpected {:?}", other),
    }
}

#[test]
fn set_with_trailing_token_is_rejected() {
    let r = Command::from_frame(storage(b"set k 0 0 2 noreply", b"hi"));
    assert_eq!(r.err(), Some(CommandError::Parse(ParseError::LineTooLong)));
}

#[test]
fn set_with_missing_field_is_rejected() {
    let r = Command::from_frame(storage(b"set k 0 0", b"hi"));
    assert_eq!(r.err(), Some(CommandError::Parse(ParseError::EndOfLine)));
    let r = Command::from_frame(storage(b"set k x 0 2", b"hi"));
    assert_eq!(r.err(), Some(CommandError::Parse(ParseError::U32)));
}

#[test]
fn unknown_names_are_rejected() {
    assert_eq!(Command::from_frame(other(b"delete k")).err(), Some(CommandError::Unknown));
    assert_eq!(Command::from_frame(storage(b"add k 0 0 1", b"x")).err(), Some(CommandError::Unknown));
    assert_eq!(
        Command::from_frame(other(&[0xff, b' ', b'k'])).err(),
        Some(CommandError::Parse(ParseError::String))
    );
    assert_eq!(
        Command::from_frame(other(b"")).err(),
        Some(CommandError::Parse(ParseError::EndOfLine))
    );
}

#[test]
fn failed_command_leaves_cache_and_output() {
    let mut cache = Cache::new();
    let mut out = Vec::new();
    assert!(execute(other(b"flush_all"), &mut cache, &mut out).is_err());
    assert!(out.is_empty());
}

#[test]
fn command_names() {
    let g = Command::from_frame(other(b"get k")).unwrap();
    let s = Command::from_frame(storage(b"set k 0 0 1", b"x")).unwrap();
    assert_eq!(g.get_name(), "get");
    assert_eq!(s.get_name(), "set");
}
