//! One exchange on a connection: from the bytes that were read to the reply
//! that is to be written.
//!
//! The caller owns the stream. After each read it hands the buffer to
//! [`on_read`], writes the reply it is given, and reads again; it stops when
//! it is told to close.

use crate::cmd::{build_spec, decode_text_spec, deserialize_command_into_array, parse_cmd};
use crate::engine::{execute, respond_spec};
use crate::reply::{wire, ReplyView, RespValue};
use crate::store::{EntryView, Store};
use vstd::prelude::*;
use vstd::slice::slice_subrange;
use vstd::string::*;
use vstd::utf8::{decode_utf8, valid_utf8};

verus! {

/// What to do after a read.
#[derive(Debug, PartialEq, Eq)]
pub enum Step {
    /// The peer has closed the stream: stop.
    Close,
    /// Write this reply, then read again.
    Reply(String),
}

/// The read buffer of a connection, carried as it is.
#[verifier::external_type_specification]
#[verifier::external_body]
pub struct ExBytesMut(bytes::BytesMut);

/// The bytes that a buffer holds, in order.
pub uninterp spec fn buffer_bytes(buf: bytes::BytesMut) -> Seq<u8>;

/// The text that `String::from_utf8_lossy` makes of `bytes`.
pub uninterp spec fn lossy_text(bytes: Seq<u8>) -> Seq<char>;

/// Lends the bytes that `buf` holds, by `BytesMut::as_ref`.
#[verifier::external_body]
fn buffer_slice(buf: &bytes::BytesMut) -> (bytes: &[u8])
    ensures
        bytes@ == buffer_bytes(*buf),
{
    buf.as_ref()
}

/// Empties `buf`, by `BytesMut::clear`, which sets its length to zero.
#[verifier::external_body]
fn buffer_clear(buf: &mut bytes::BytesMut)
    ensures
        buffer_bytes(*final(buf)) == Seq::<u8>::empty(),
{
    buf.clear()
}

/// Reads `bytes` as text, by `String::from_utf8_lossy`. Well-formed UTF-8
/// comes out as the text it encodes; anything else has its ill-formed parts
/// replaced, and of that text only its name is known here.
#[verifier::external_body]
fn lossy_string(bytes: &[u8]) -> (text: String)
    ensures
        text@ == lossy_text(bytes@),
        valid_utf8(bytes@) ==> text@ == decode_utf8(bytes@),
{
    String::from_utf8_lossy(bytes).into_owned()
}

/// Reads the first `size` bytes of `buf` as text. The buffer is left as it
/// is.
pub fn buf_to_string(buf: &mut bytes::BytesMut, size: usize) -> (text: String)
    requires
        size <= buffer_bytes(*old(buf)).len(),
    ensures
        text@ == lossy_text(buffer_bytes(*old(buf)).subrange(0, size as int)),
        valid_utf8(buffer_bytes(*old(buf)).subrange(0, size as int)) ==> text@ == decode_utf8(
            buffer_bytes(*old(buf)).subrange(0, size as int),
        ),
        *final(buf) == *old(buf),
{
    let bytes = buffer_slice(buf);
    lossy_string(slice_subrange(bytes, 0, size))
}

/// The message of the error reply to the null request.
pub open spec fn empty_command() -> Seq<char> {
    "ERR empty command"@
}

/// What a request text is answered with at the time `now`, and what the
/// store holds afterwards. A request that does not decode, that is null, or
/// that makes no command is answered with an error and leaves the store as
/// it is.
pub open spec fn serve_spec(text: Seq<char>, store: Map<Seq<char>, EntryView>, now: u128) -> (
    Seq<char>,
    Map<Seq<char>, EntryView>,
) {
    match decode_text_spec(text) {
        Err(e) => (wire(ReplyView::Error(e.message_spec())), store),
        Ok(None) => (wire(ReplyView::Error(empty_command())), store),
        Ok(Some(tokens)) => match build_spec(tokens) {
            Err(e) => (wire(ReplyView::Error(e.message_spec())), store),
            Ok(command) => respond_spec(command, store, now),
        },
    }
}

/// Answers one request text at the time `now`: decodes it, builds the
/// command, runs it against `store`, and gives the reply as it is sent.
pub fn serve(request: &String, store: &mut Store, now: u128) -> (out: String)
    ensures
        (out@, final(store)@) == serve_spec(request@, old(store)@, now),
{
    let tokens = match deserialize_command_into_array(request) {
        Ok(Some(tokens)) => tokens,
        Ok(None) => {
            return RespValue::Error(String::from_str("ERR empty command")).encode();
        },
        Err(e) => {
            return RespValue::Error(e.message()).encode();
        },
    };
    match parse_cmd(tokens) {
        Ok(command) => execute(command, store, now).encode(),
        Err(e) => RespValue::Error(e.message()).encode(),
    }
}

/// Decides what follows a read into `buf`.
///
/// An empty buffer means that the peer has closed the stream. Otherwise the
/// bytes are one request: it is answered at the time the store's clock
/// shows, and the buffer is emptied for the next read.
pub fn on_read(buf: &mut bytes::BytesMut, store: &mut Store) -> (step: Step)
    ensures
        buffer_bytes(*old(buf)).len() == 0 ==> {
            &&& step is Close
            &&& *final(buf) == *old(buf)
            &&& final(store)@ == old(store)@
        },
        buffer_bytes(*old(buf)).len() > 0 ==> {
            &&& step matches Step::Reply(out)
            &&& buffer_bytes(*final(buf)) == Seq::<u8>::empty()
            &&& exists|now: u128|
                (out@, final(store)@) == #[trigger] serve_spec(
                    lossy_text(buffer_bytes(*old(buf))),
                    old(store)@,
                    now,
                )
        },
{
    let size = buffer_slice(buf).len();
    if size == 0 {
        return Step::Close;
    }
    assert(buffer_bytes(*buf).subrange(0, size as int) =~= buffer_bytes(*buf));
    let request = buf_to_string(buf, size);
    buffer_clear(buf);
    let now = store.now();
    let out = serve(&request, store, now);
    assert((out@, store@) == serve_spec(lossy_text(buffer_bytes(*old(buf))), old(store)@, now));
    Step::Reply(out)
}

} // verus!
