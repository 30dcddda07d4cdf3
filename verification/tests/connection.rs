use bytes::BytesMut;
use resp_kv::connection::{buf_to_string, on_read, serve, Step};
use resp_kv::store::Store;

#[test]
fn buf_to_string_reads_a_prefix() {
    let mut buf = BytesMut::from(&b"hello world"[..]);
    assert_eq!(buf_to_string(&mut buf, 5), "hello");
    assert_eq!(buf_to_string(&mut buf, 0), "");
    assert_eq!(buf_to_string(&mut buf, 11), "hello world");
    assert_eq!(&buf[..], b"hello world");
}

#[test]
fn buf_to_string_replaces_ill_formed_bytes() {
    let mut buf = BytesMut::from(&b"a\xffb"[..]);
    assert_eq!(buf_to_string(&mut buf, 3), "a\u{fffd}b");
    let mut buf = BytesMut::from("h\u{e9}llo".as_bytes());
    assert_eq!(buf_to_string(&mut buf, 6), "h\u{e9}llo");
    assert_eq!(buf_to_string(&mut buf, 2), "h\u{fffd}");
}

#[test]
fn serve_answers_each_request() {
    let mut store = Store::new();
    let cases = [
        ("*1\r\n$4\r\nPING\r\n", "+PONG\r\n"),
        ("*2\r\n$4\r\nECHO\r\n$5\r\nhello\r\n", "+hello\r\n"),
        ("*3\r\n$3\r\nSET\r\n$3\r\nfoo\r\n$3\r\nbar\r\n", "+OK\r\n"),
        ("*2\r\n$3\r\nGET\r\n$3\r\nfoo\r\n", "+bar\r\n"),
        ("*2\r\n$3\r\nGET\r\n$7\r\nmissing\r\n", "$-1\r\n"),
        ("*1\r\n$3\r\nFOO\r\n", "-ERR unknown command 'FOO'\r\n"),
        ("*2\r\n$3\r\nSET\r\n$1\r\nk\r\n", "-SET requires exactly two arguments\r\n"),
    ];
    for (request, reply) in cases {
        assert_eq!(serve(&String::from(request), &mut store, 0), reply, "{:?}", request);
    }
}

#[test]
fn serve_answers_every_fault_with_an_error() {
    let mut store = Store::new();
    store.set(String::from("k"), String::from("v"));
    let cases = [
        ("", "-ERR empty request\r\n"),
        ("PING\r\n", "-ERR malformed length\r\n"),
        ("*1\r\n$x\r\nPING\r\n", "-ERR malformed length\r\n"),
        ("*1\r\n$4\r\nPI", "-ERR truncated request\r\n"),
        ("*-1\r\n", "-ERR empty command\r\n"),
        ("*0\r\n", "-ERR null command name\r\n"),
        ("*1\r\n$-1\r\n", "-ERR null command name\r\n"),
        ("*2\r\n$3\r\nGET\r\n$-1\r\n", "-ERR null argument\r\n"),
    ];
    for (request, reply) in cases {
        assert_eq!(serve(&String::from(request), &mut store, 0), reply, "{:?}", request);
    }
    assert_eq!(store.len(), 1);
}

#[test]
fn serve_expires_by_the_time_it_is_given() {
    let mut store = Store::new();
    let set = String::from("*5\r\n$3\r\nSET\r\n$1\r\nk\r\n$1\r\nv\r\n$2\r\nPX\r\n$1\r\n1\r\n");
    let get = String::from("*2\r\n$3\r\nGET\r\n$1\r\nk\r\n");
    assert_eq!(serve(&set, &mut store, 10), "+OK\r\n");
    assert_eq!(serve(&get, &mut store, 1_000_010), "+v\r\n");
    assert_eq!(serve(&get, &mut store, 1_000_011), "$-1\r\n");
    assert_eq!(store.len(), 0);
}

#[test]
fn on_read_closes_on_an_empty_buffer() {
    let mut store = Store::new();
    let mut buf = BytesMut::with_capacity(512);
    assert_eq!(on_read(&mut buf, &mut store), Step::Close);
    assert!(buf.is_empty());
}

#[test]
fn on_read_replies_and_empties_the_buffer() {
    let mut store = Store::new();
    let mut buf = BytesMut::with_capacity(512);
    buf.extend_from_slice(b"*3\r\n$3\r\nSET\r\n$3\r\nfoo\r\n$3\r\nbar\r\n");
    assert_eq!(on_read(&mut buf, &mut store), Step::Reply(String::from("+OK\r\n")));
    assert!(buf.is_empty());
    buf.extend_from_slice(b"*2\r\n$3\r\nGET\r\n$3\r\nfoo\r\n");
    assert_eq!(on_read(&mut buf, &mut store), Step::Reply(String::from("+bar\r\n")));
    assert!(buf.is_empty());
    buf.extend_from_slice(b"*5\r\n$3\r\nSET\r\n$3\r\nfoo\r\n$3\r\nbar\r\n$2\r\nPX\r\n$1\r\n0\r\n");
    assert_eq!(on_read(&mut buf, &mut store), Step::Reply(String::from("+OK\r\n")));
    buf.extend_from_slice(b"*2\r\n$3\r\nGET\r\n$3\r\nfoo\r\n");
    assert_eq!(on_read(&mut buf, &mut store), Step::Reply(String::from("$-1\r\n")));
    buf.extend_from_slice(b"\xff\xfe");
    assert_eq!(
        on_read(&mut buf, &mut store),
        Step::Reply(String::from("-ERR malformed length\r\n"))
    );
    assert!(buf.is_empty());
}
