//! The command engine: what each command replies and what it does to the
//! store.
//!
//! | name   | arguments              | reply                          |
//! |--------|------------------------|--------------------------------|
//! | `PING` | any                    | `PONG`                         |
//! | `ECHO` | any                    | the first argument, or nothing |
//! | `SET`  | key, value             | `OK`                           |
//! | `SET`  | key, value, any, ttl   | `OK`, or an error for a bad ttl|
//! | `GET`  | key                    | the value, or the null reply   |
//!
//! Names are matched without regard to ASCII case. The third argument of the
//! long form of `SET` is not looked at.

use crate::cmd::{Command, CommandView};
use crate::decimal::{parse_u64, parse_u64_spec};
use crate::reply::{wire, ReplyView, RespValue};
use crate::store::{get_spec, live, set_px_spec, set_spec, EntryView, Store};
use vstd::prelude::*;
use vstd::string::*;
use vstd::utf8::encode_utf8;

verus! {

broadcast use vstd::string::group_string_axioms;

/// The upper-case form of an ASCII letter; any other character as it is.
pub open spec fn upper(c: char) -> char {
    if 'a' <= c <= 'z' {
        ((c as u32) - 32) as char
    } else {
        c
    }
}

/// A text with each of its characters in upper case.
pub open spec fn upper_text(text: Seq<char>) -> Seq<char> {
    Seq::new(text.len(), |i: int| upper(text[i]))
}

/// The commands that the engine knows.
#[derive(Clone, Copy, Debug, PartialEq, Eq, Structural)]
pub enum Verb {
    Ping,
    Echo,
    SetValue,
    GetValue,
    Unknown,
}

/// The command that a name stands for.
pub open spec fn verb_of(name: Seq<char>) -> Verb {
    let word = upper_text(name);
    if word == "PING"@ {
        Verb::Ping
    } else if word == "ECHO"@ {
        Verb::Echo
    } else if word == "SET"@ {
        Verb::SetValue
    } else if word == "GET"@ {
        Verb::GetValue
    } else {
        Verb::Unknown
    }
}

/// The message that reports an unknown command name.
pub open spec fn unknown_command(name: Seq<char>) -> Seq<char> {
    "ERR unknown command '"@ + name + "'"@
}

/// What a command replies at the time `now`, and what the store holds
/// afterwards.
pub open spec fn execute_spec(
    command: CommandView,
    store: Map<Seq<char>, EntryView>,
    now: u128,
) -> (ReplyView, Map<Seq<char>, EntryView>) {
    let args = command.args;
    match verb_of(command.name) {
        Verb::Ping => (ReplyView::SimpleString("PONG"@), store),
        Verb::Echo => if args.len() > 0 {
            (ReplyView::SimpleString(args[0]), store)
        } else {
            (ReplyView::SimpleString(Seq::empty()), store)
        },
        Verb::SetValue => if args.len() == 2 {
            (ReplyView::SimpleString("OK"@), set_spec(store, args[0], args[1]))
        } else if args.len() == 4 {
            match parse_u64_spec(encode_utf8(args[3])) {
                Some(ttl) => (
                    ReplyView::SimpleString("OK"@),
                    set_px_spec(store, args[0], args[1], ttl, now),
                ),
                None => (ReplyView::Error("ERR value is not an integer or out of range"@), store),
            }
        } else {
            (ReplyView::Error("SET requires exactly two arguments"@), store)
        },
        Verb::GetValue => if args.len() == 1 {
            match get_spec(store, args[0], now).0 {
                Some(value) => (ReplyView::SimpleString(value), get_spec(store, args[0], now).1),
                None => (ReplyView::Null, get_spec(store, args[0], now).1),
            }
        } else {
            (ReplyView::Error("GET requires exactly one argument"@), store)
        },
        Verb::Unknown => (ReplyView::Error(unknown_command(command.name)), store),
    }
}

/// What a command sends back at the time `now`, and what the store holds
/// afterwards.
pub open spec fn respond_spec(
    command: CommandView,
    store: Map<Seq<char>, EntryView>,
    now: u128,
) -> (Seq<char>, Map<Seq<char>, EntryView>) {
    (wire(execute_spec(command, store, now).0), execute_spec(command, store, now).1)
}

/// Puts an ASCII letter in upper case.
fn upper_char(c: char) -> (r: char)
    ensures
        r == upper(c),
{
    if 'a' <= c && c <= 'z' {
        ((c as u8) - 32) as char
    } else {
        c
    }
}

/// Puts each character of `text` in upper case.
fn upper_chars(text: &str) -> (word: Vec<char>)
    ensures
        word@ == upper_text(text@),
{
    let mut word: Vec<char> = Vec::new();
    for c in it: text.chars()
        invariant
            it.seq() == text@,
            word@ == upper_text(text@.take(it.index())),
    {
        let ghost before = text@.take(it.index());
        word.push(upper_char(c));
        proof {
            let after = text@.take(it.index() + 1);
            assert(after.len() == before.len() + 1);
            assert(upper_text(after) =~= upper_text(before).push(upper(c)));
        }
    }
    assert(text@.take(text@.len() as int) =~= text@);
    word
}

/// Finds the command that `name` stands for.
fn verb(name: &str) -> (v: Verb)
    ensures
        v == verb_of(name@),
{
    let word = upper_chars(name);
    proof {
        reveal_strlit("PING");
        reveal_strlit("ECHO");
        reveal_strlit("SET");
        reveal_strlit("GET");
    }
    if word.len() == 4 && word[0] == 'P' && word[1] == 'I' && word[2] == 'N' && word[3] == 'G' {
        assert(word@ =~= "PING"@);
        Verb::Ping
    } else if word.len() == 4 && word[0] == 'E' && word[1] == 'C' && word[2] == 'H' && word[3]
        == 'O' {
        assert(word@ =~= "ECHO"@);
        Verb::Echo
    } else if word.len() == 3 && word[0] == 'S' && word[1] == 'E' && word[2] == 'T' {
        assert(word@ =~= "SET"@);
        Verb::SetValue
    } else if word.len() == 3 && word[0] == 'G' && word[1] == 'E' && word[2] == 'T' {
        assert(word@ =~= "GET"@);
        Verb::GetValue
    } else {
        Verb::Unknown
    }
}

/// Runs `command` against `store` at the time `now` and gives its reply.
pub fn execute(command: Command, store: &mut Store, now: u128) -> (reply: RespValue)
    ensures
        (reply@, final(store)@) == execute_spec(command@, old(store)@, now),
{
    let ghost view = command@;
    let Command { cmd, args } = command;
    assert(view.args.len() == args@.len());
    match verb(cmd.as_str()) {
        Verb::Ping => RespValue::SimpleString(String::from_str("PONG")),
        Verb::Echo => {
            if args.len() > 0 {
                assert(view.args[0] == args@[0]@);
                RespValue::SimpleString(args[0].clone())
            } else {
                RespValue::SimpleString(String::new())
            }
        },
        Verb::SetValue => {
            if args.len() == 2 {
                assert(view.args[0] == args@[0]@ && view.args[1] == args@[1]@);
                store.set(args[0].clone(), args[1].clone());
                RespValue::SimpleString(String::from_str("OK"))
            } else if args.len() == 4 {
                assert(view.args[0] == args@[0]@ && view.args[1] == args@[1]@ && view.args[3]
                    == args@[3]@);
                match parse_u64(args[3].as_str().as_bytes()) {
                    Some(px) => {
                        store.set_px_at(args[0].clone(), args[1].clone(), px, now);
                        RespValue::SimpleString(String::from_str("OK"))
                    },
                    None => RespValue::Error(
                        String::from_str("ERR value is not an integer or out of range"),
                    ),
                }
            } else {
                RespValue::Error(String::from_str("SET requires exactly two arguments"))
            }
        },
        Verb::GetValue => {
            if args.len() == 1 {
                assert(view.args[0] == args@[0]@);
                match store.get_at(args[0].clone(), now) {
                    Some(value) => RespValue::SimpleString(value),
                    None => RespValue::Null,
                }
            } else {
                RespValue::Error(String::from_str("GET requires exactly one argument"))
            }
        },
        Verb::Unknown => {
            let message = String::from_str("ERR unknown command '").concat(cmd.as_str()).concat(
                "'",
            );
            RespValue::Error(message)
        },
    }
}

/// Runs `command` against `client_store` at the time the store's clock
/// shows, and gives the reply as it is sent.
pub fn handle_command_response(command: Command, client_store: &mut Store) -> (out: String)
    ensures
        exists|now: u128|
            (out@, final(client_store)@) == #[trigger] respond_spec(
                command@,
                old(client_store)@,
                now,
            ),
{
    let now = client_store.now();
    let ghost view = command@;
    let out = execute(command, client_store, now).encode();
    assert((out@, client_store@) == respond_spec(view, old(client_store)@, now));
    out
}

/// Reading a key that the store does not hold gives the null reply, never
/// an error, and leaves the store as it is.
pub proof fn law_get_missing_is_null(
    command: CommandView,
    store: Map<Seq<char>, EntryView>,
    now: u128,
)
    requires
        verb_of(command.name) == Verb::GetValue,
        command.args.len() == 1,
        !store.contains_key(command.args[0]),
    ensures
        execute_spec(command, store, now) == (ReplyView::Null, store),
{
}

/// A value that was set is read back as a status reply, whatever the value
/// is; only a missing or expired key gives the null reply.
pub proof fn law_set_then_get_replies_value(
    name_set: Seq<char>,
    name_get: Seq<char>,
    key: Seq<char>,
    value: Seq<char>,
    store: Map<Seq<char>, EntryView>,
    written: u128,
    read: u128,
)
    requires
        verb_of(name_set) == Verb::SetValue,
        verb_of(name_get) == Verb::GetValue,
    ensures
        ({
            let set = CommandView { name: name_set, args: seq![key, value] };
            let get = CommandView { name: name_get, args: seq![key] };
            let after_set = execute_spec(set, store, written);
            &&& after_set.0 == ReplyView::SimpleString("OK"@)
            &&& execute_spec(get, after_set.1, read).0 == ReplyView::SimpleString(value)
        }),
{
}

/// The long form of `SET` takes its arguments by position: what stands
/// third changes neither the reply nor the store.
pub proof fn law_set_ignores_third_argument(
    command: CommandView,
    third: Seq<char>,
    store: Map<Seq<char>, EntryView>,
    now: u128,
)
    requires
        verb_of(command.name) == Verb::SetValue,
        command.args.len() == 4,
    ensures
        execute_spec(
            CommandView { name: command.name, args: command.args.update(2, third) },
            store,
            now,
        ) == execute_spec(command, store, now),
{
}

/// `SET` is answered with an error, and leaves the store as it is, unless it
/// has two or four arguments.
pub proof fn law_set_arity(command: CommandView, store: Map<Seq<char>, EntryView>, now: u128)
    requires
        verb_of(command.name) == Verb::SetValue,
        command.args.len() != 2,
        command.args.len() != 4,
    ensures
        execute_spec(command, store, now) == (
            ReplyView::Error("SET requires exactly two arguments"@),
            store,
        ),
{
}

/// Only `SET` changes what a key holds: every other command leaves each
/// live entry as it is, and removes at most the expired entry that it read.
pub proof fn law_only_set_writes(
    command: CommandView,
    store: Map<Seq<char>, EntryView>,
    now: u128,
    key: Seq<char>,
)
    requires
        verb_of(command.name) != Verb::SetValue,
        store.contains_key(key),
        live(store[key], now),
    ensures
        execute_spec(command, store, now).1.contains_key(key),
        execute_spec(command, store, now).1[key] == store[key],
{
}

} // verus!
