use redis_lite::command::{name_is, Command, CommandArgs};
use redis_lite::errors::{CmdErrors, FrameErrors};
use redis_lite::frame::Frame;
use redis_lite::handler::{handle_request, RequestError};
use redis_lite::storage::Storage;
use redis_lite::text::utf8_text;

fn bulk(b: &[u8]) -> Frame {
    Frame::BulkString(b.to_vec())
}

#[test]
fn test_validate() {
    let frame = Frame::Array(vec![bulk(b"hello"), bulk(b"world")]);

    assert_eq!(
        Command::validate(&frame).unwrap(),
        &vec![bulk(b"hello"), bulk(b"world")]
    )
}

#[test]
fn test_ping_pong() {
    let mut storage = Storage::setup();
    let reply = handle_request(b"*1\r\n$4\r\nPING\r\n", &mut storage).unwrap();
    assert_eq!(&reply, b"+PONG\r\n");

    let reply = handle_request(b"*2\r\n$4\r\nECHO\r\n$3\r\nhey\r\n", &mut storage).unwrap();
    assert_eq!(&reply, b"$3\r\nhey\r\n");
}

#[test]
fn test_get_set() {
    let mut storage = Storage::setup();
    let get_input = b"*2\r\n$3\r\nGET\r\n$3\r\nhey\r\n";
    assert_eq!(&handle_request(get_input, &mut storage).unwrap(), b"$-1\r\n");

    let set_input = b"*3\r\n$3\r\nSET\r\n$3\r\nhey\r\n$3\r\nyou\r\n";
    assert_eq!(&handle_request(set_input, &mut storage).unwrap(), b"+OK\r\n");

    assert_eq!(&handle_request(get_input, &mut storage).unwrap(), b"$3\r\nyou\r\n");
}

#[test]
fn storage_last_write_wins() {
    let mut storage = Storage::setup();
    let key = "k".to_string();
    assert_eq!(storage.get(&key), None);
    storage.set(&key, &b"v1".to_vec());
    assert_eq!(storage.get(&key), Some(b"v1".to_vec()));
    storage.set(&key, &b"v2".to_vec());
    assert_eq!(storage.get(&key), Some(b"v2".to_vec()));
    storage.set(&"other".to_string(), &b"x".to_vec());
    assert_eq!(storage.get(&key), Some(b"v2".to_vec()));
    assert_eq!(storage.get(&"other".to_string()), Some(b"x".to_vec()));
}

#[test]
fn unknown_command_gets_no_reply() {
    let mut storage = Storage::setup();
    let r = handle_request(b"*1\r\n$4\r\nQUIT\r\n", &mut storage);
    assert_eq!(
        r,
        Err(RequestError::Command(CmdErrors::UnknownCommand("QUIT".to_string())))
    );
}

#[test]
fn malformed_bytes_get_no_reply() {
    let mut storage = Storage::setup();
    let r = handle_request(b"+OK\r", &mut storage);
    assert_eq!(r, Err(RequestError::Frame(FrameErrors::MissingCRLF)));
}

#[test]
fn command_names_ignore_case() {
    let frame = Frame::Array(vec![bulk(b"eChO"), bulk(b"x")]);
    match Command::from_frame(&frame).unwrap() {
        Command::Echo(e) => assert_eq!(e.message, b"x".to_vec()),
        _ => panic!("expected echo"),
    }
    assert!(name_is("PiNg", "ping"));
    assert!(!name_is("pin", "ping"));
    assert!(!name_is("pinh", "ping"));
}

#[test]
fn extra_arguments_are_ignored() {
    let mut storage = Storage::setup();
    let reply = handle_request(b"*3\r\n$4\r\nECHO\r\n$1\r\na\r\n$1\r\nb\r\n", &mut storage).unwrap();
    assert_eq!(&reply, b"$1\r\na\r\n");
}

#[test]
fn invalid_array_frame() {
    assert_eq!(
        Command::from_frame(&Frame::Array(Vec::new())).err(),
        Some(CmdErrors::InvalidArrayFrame)
    );
    assert_eq!(
        Command::from_frame(&bulk(b"ping")).err(),
        Some(CmdErrors::InvalidArrayFrame)
    );
}

#[test]
fn missing_and_incorrect_arguments() {
    assert_eq!(
        Command::from_frame(&Frame::Array(vec![bulk(b"set"), bulk(b"k")])).err(),
        Some(CmdErrors::MissingCommandArg { command_name: "set", arg_name: "value" })
    );
    assert_eq!(
        Command::from_frame(&Frame::Array(vec![bulk(b"get"), Frame::Integer(1)])).err(),
        Some(CmdErrors::IncorrectCommandArg { command_name: "get", arg: Frame::Integer(1) })
    );
}

#[test]
fn key_must_be_utf8() {
    assert_eq!(
        Command::from_frame(&Frame::Array(vec![bulk(b"get"), bulk(&[0xff])])).err(),
        Some(CmdErrors::KeyNotUtf8)
    );
}

#[test]
fn command_name_must_be_text() {
    assert_eq!(
        Command::from_frame(&Frame::Array(vec![Frame::Integer(1)])).err(),
        Some(CmdErrors::Frame(FrameErrors::StringInterpretationError))
    );
}

#[test]
fn next_bytes_walks_arguments() {
    let frames = vec![bulk(b"a"), Frame::Null];
    let mut args = CommandArgs::new(&frames, "echo");
    assert_eq!(args.next_bytes("first"), Ok(b"a".to_vec()));
    assert_eq!(
        args.next_bytes("second"),
        Err(CmdErrors::IncorrectCommandArg { command_name: "echo", arg: Frame::Null })
    );
    assert_eq!(
        args.next_bytes("third"),
        Err(CmdErrors::MissingCommandArg { command_name: "echo", arg_name: "third" })
    );
}

#[test]
fn utf8_text_decodes() {
    assert_eq!(utf8_text(b"key"), Some("key".to_string()));
    assert_eq!(utf8_text(&[0xc3]), None);
}
