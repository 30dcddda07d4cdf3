use resp_kv::cmd::{deserialize_command_into_array, parse_cmd, Command};
use resp_kv::engine::{execute, handle_command_response};
use resp_kv::error::ProtocolError;
use resp_kv::reply::RespValue;
use resp_kv::store::Store;

fn command(words: &[&str]) -> Command {
    Command {
        cmd: String::from(words[0]),
        args: words[1..].iter().map(|w| String::from(*w)).collect(),
    }
}

fn status(text: &str) -> RespValue {
    RespValue::SimpleString(String::from(text))
}

fn error(text: &str) -> RespValue {
    RespValue::Error(String::from(text))
}

#[test]
fn encode_writes_each_kind_of_reply() {
    assert_eq!(status("PONG").encode(), "+PONG\r\n");
    assert_eq!(status("").encode(), "+\r\n");
    assert_eq!(error("ERR x").encode(), "-ERR x\r\n");
    assert_eq!(RespValue::Null.encode(), "$-1\r\n");
    assert_eq!(status("-1").encode(), "+-1\r\n");
}

#[test]
fn ping_replies_pong() {
    let mut store = Store::new();
    assert_eq!(handle_command_response(command(&["PING"]), &mut store), "+PONG\r\n");
    assert_eq!(handle_command_response(command(&["ping"]), &mut store), "+PONG\r\n");
    assert_eq!(handle_command_response(command(&["PiNg", "x"]), &mut store), "+PONG\r\n");
    assert_eq!(store.len(), 0);
}

#[test]
fn echo_replies_its_argument() {
    let mut store = Store::new();
    assert_eq!(handle_command_response(command(&["ECHO", "hello"]), &mut store), "+hello\r\n");
    assert_eq!(handle_command_response(command(&["echo"]), &mut store), "+\r\n");
    assert_eq!(handle_command_response(command(&["Echo", "a", "b"]), &mut store), "+a\r\n");
}

#[test]
fn set_then_get_replies_the_value() {
    let mut store = Store::new();
    assert_eq!(handle_command_response(command(&["SET", "foo", "bar"]), &mut store), "+OK\r\n");
    assert_eq!(handle_command_response(command(&["GET", "foo"]), &mut store), "+bar\r\n");
    assert_eq!(handle_command_response(command(&["set", "foo", "baz"]), &mut store), "+OK\r\n");
    assert_eq!(handle_command_response(command(&["get", "foo"]), &mut store), "+baz\r\n");
    assert_eq!(store.len(), 1);
}

#[test]
fn set_with_zero_ttl_is_expired_at_once() {
    let mut store = Store::new();
    assert_eq!(
        handle_command_response(command(&["SET", "foo", "bar", "PX", "0"]), &mut store),
        "+OK\r\n"
    );
    assert!(store.contains_key(&String::from("foo")));
    assert_eq!(handle_command_response(command(&["GET", "foo"]), &mut store), "$-1\r\n");
    assert!(!store.contains_key(&String::from("foo")));
    assert_eq!(store.len(), 0);
}

#[test]
fn set_with_long_ttl_is_read_back() {
    let mut store = Store::new();
    assert_eq!(
        handle_command_response(command(&["SET", "foo", "bar", "PX", "600000"]), &mut store),
        "+OK\r\n"
    );
    assert_eq!(handle_command_response(command(&["GET", "foo"]), &mut store), "+bar\r\n");
}

#[test]
fn get_missing_replies_null() {
    let mut store = Store::new();
    assert_eq!(handle_command_response(command(&["GET", "missing"]), &mut store), "$-1\r\n");
    assert_eq!(execute(command(&["GET", "missing"]), &mut store, 0), RespValue::Null);
}

#[test]
fn null_reply_differs_from_the_value_minus_one() {
    let mut store = Store::new();
    assert_eq!(execute(command(&["SET", "k", "-1"]), &mut store, 0), status("OK"));
    assert_eq!(execute(command(&["GET", "k"]), &mut store, 0), status("-1"));
    assert_eq!(execute(command(&["GET", "other"]), &mut store, 0), RespValue::Null);
}

#[test]
fn unknown_command_is_an_error() {
    let mut store = Store::new();
    assert_eq!(
        handle_command_response(command(&["FOO"]), &mut store),
        "-ERR unknown command 'FOO'\r\n"
    );
    assert_eq!(
        handle_command_response(command(&["foo", "bar"]), &mut store),
        "-ERR unknown command 'foo'\r\n"
    );
    assert_eq!(execute(command(&[""]), &mut store, 0), error("ERR unknown command ''"));
    assert_eq!(execute(command(&["PINGS"]), &mut store, 0), error("ERR unknown command 'PINGS'"));
    assert_eq!(execute(command(&["GE"]), &mut store, 0), error("ERR unknown command 'GE'"));
    assert_eq!(
        execute(command(&["P\u{130}NG"]), &mut store, 0),
        error("ERR unknown command 'P\u{130}NG'")
    );
}

#[test]
fn set_with_wrong_arity_is_an_error() {
    let mut store = Store::new();
    for words in [
        &["SET"][..],
        &["SET", "k"][..],
        &["SET", "k", "v", "PX"][..],
        &["SET", "k", "v", "PX", "1", "x"][..],
    ] {
        assert_eq!(
            handle_command_response(command(words), &mut store),
            "-SET requires exactly two arguments\r\n"
        );
    }
    assert_eq!(store.len(), 0);
}

#[test]
fn set_takes_its_arguments_by_position() {
    let mut store = Store::new();
    assert_eq!(execute(command(&["SET", "k", "v", "EX", "10"]), &mut store, 5), status("OK"));
    assert_eq!(execute(command(&["GET", "k"]), &mut store, 5 + 10_000_000), status("v"));
    assert_eq!(execute(command(&["GET", "k"]), &mut store, 5 + 10_000_001), RespValue::Null);
    assert_eq!(execute(command(&["SET", "k", "v", "", "+7"]), &mut store, 0), status("OK"));
    assert_eq!(execute(command(&["GET", "k"]), &mut store, 7_000_000), status("v"));
    assert_eq!(execute(command(&["GET", "k"]), &mut store, 7_000_001), RespValue::Null);
}

#[test]
fn set_with_bad_ttl_is_an_error() {
    let mut store = Store::new();
    for ttl in ["", "x", "-1", "-0", "1.5", " 1", "1 ", "+", "18446744073709551616", "\u{661}"] {
        assert_eq!(
            handle_command_response(command(&["SET", "k", "v", "PX", ttl]), &mut store),
            "-ERR value is not an integer or out of range\r\n",
            "{:?}",
            ttl
        );
    }
    assert_eq!(store.len(), 0);
    assert_eq!(
        execute(command(&["SET", "k", "v", "PX", "18446744073709551615"]), &mut store, 3),
        status("OK")
    );
    assert_eq!(
        execute(command(&["GET", "k"]), &mut store, 3 + 18446744073709551615 * 1_000_000),
        status("v")
    );
    assert_eq!(
        execute(command(&["GET", "k"]), &mut store, 4 + 18446744073709551615 * 1_000_000),
        RespValue::Null
    );
}

#[test]
fn ttl_past_the_end_of_the_clock_never_expires() {
    let mut store = Store::new();
    assert_eq!(
        execute(command(&["SET", "k", "v", "PX", "1"]), &mut store, u128::MAX - 5),
        status("OK")
    );
    assert_eq!(execute(command(&["GET", "k"]), &mut store, u128::MAX), status("v"));
}

#[test]
fn get_with_wrong_arity_is_an_error() {
    let mut store = Store::new();
    assert_eq!(
        handle_command_response(command(&["GET"]), &mut store),
        "-GET requires exactly one argument\r\n"
    );
    assert_eq!(
        handle_command_response(command(&["GET", "a", "b"]), &mut store),
        "-GET requires exactly one argument\r\n"
    );
}

#[test]
fn keys_are_case_sensitive() {
    let mut store = Store::new();
    assert_eq!(execute(command(&["SET", "Key", "v"]), &mut store, 0), status("OK"));
    assert_eq!(execute(command(&["GET", "key"]), &mut store, 0), RespValue::Null);
    assert_eq!(execute(command(&["GET", "Key"]), &mut store, 0), status("v"));
}

#[test]
fn parse_cmd_splits_name_and_arguments() {
    let tokens = vec![Some(String::from("SET")), Some(String::from("a")), Some(String::from("b"))];
    assert_eq!(parse_cmd(tokens), Ok(command(&["SET", "a", "b"])));
    assert_eq!(parse_cmd(vec![Some(String::from("PING"))]), Ok(command(&["PING"])));
}

#[test]
fn parse_cmd_rejects_a_missing_name() {
    assert_eq!(parse_cmd(vec![]), Err(ProtocolError::NullCommandName));
    assert_eq!(parse_cmd(vec![None]), Err(ProtocolError::NullCommandName));
    assert_eq!(
        parse_cmd(vec![None, Some(String::from("a")), None]),
        Err(ProtocolError::NullCommandName)
    );
}

#[test]
fn parse_cmd_rejects_a_null_argument() {
    assert_eq!(
        parse_cmd(vec![Some(String::from("GET")), None]),
        Err(ProtocolError::NullArgument)
    );
    assert_eq!(
        parse_cmd(vec![Some(String::from("SET")), Some(String::from("a")), None]),
        Err(ProtocolError::NullArgument)
    );
}

#[test]
fn decoded_request_runs_end_to_end() {
    let mut store = Store::new();
    let request = String::from("*3\r\n$3\r\nSET\r\n$3\r\nfoo\r\n$3\r\nbar\r\n");
    let tokens = deserialize_command_into_array(&request).unwrap().unwrap();
    let cmd = parse_cmd(tokens).unwrap();
    assert_eq!(handle_command_response(cmd, &mut store), "+OK\r\n");
    let request = String::from("*2\r\n$3\r\nGET\r\n$3\r\nfoo\r\n");
    let tokens = deserialize_command_into_array(&request).unwrap().unwrap();
    let cmd = parse_cmd(tokens).unwrap();
    assert_eq!(handle_command_response(cmd, &mut store), "+bar\r\n");
}

#[test]
fn error_messages_are_distinct() {
    assert_eq!(ProtocolError::EmptyInput.message(), "ERR empty request");
    assert_eq!(ProtocolError::BadLength.message(), "ERR malformed length");
    assert_eq!(ProtocolError::Truncated.message(), "ERR truncated request");
    assert_eq!(ProtocolError::NullCommandName.message(), "ERR null command name");
    assert_eq!(ProtocolError::NullArgument.message(), "ERR null argument");
}
