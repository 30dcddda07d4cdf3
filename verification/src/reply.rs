//! Replies and their form on the wire.

use vstd::prelude::*;
use vstd::string::*;

verus! {

/// A reply to one request.
#[derive(Debug, PartialEq, Eq)]
pub enum RespValue {
    /// A one-line status, sent as `+<text>\r\n`.
    SimpleString(String),
    /// An error, sent as `-<message>\r\n`.
    Error(String),
    /// The null reply, sent as `$-1\r\n`: the key holds nothing.
    Null,
}

/// A reply with its texts as sequences of characters.
pub enum ReplyView {
    SimpleString(Seq<char>),
    Error(Seq<char>),
    Null,
}

impl View for RespValue {
    type V = ReplyView;

    open spec fn view(&self) -> ReplyView {
        match self {
            RespValue::SimpleString(text) => ReplyView::SimpleString(text@),
            RespValue::Error(message) => ReplyView::Error(message@),
            RespValue::Null => ReplyView::Null,
        }
    }
}

/// The line break that closes every reply.
pub open spec fn line_break() -> Seq<char> {
    seq!['\r', '\n']
}

/// The characters that a reply is sent as.
pub open spec fn wire(reply: ReplyView) -> Seq<char> {
    match reply {
        ReplyView::SimpleString(text) => seq!['+'] + text + line_break(),
        ReplyView::Error(message) => seq!['-'] + message + line_break(),
        ReplyView::Null => seq!['$', '-', '1'] + line_break(),
    }
}

impl RespValue {
    /// Writes the reply out as it is sent.
    pub fn encode(self) -> (out: String)
        ensures
            out@ == wire(self@),
    {
        proof {
            reveal_strlit("+");
            reveal_strlit("-");
            reveal_strlit("$-1");
            reveal_strlit("\r\n");
        }
        let out = match self {
            RespValue::SimpleString(text) => String::from_str("+").concat(text.as_str()),
            RespValue::Error(message) => String::from_str("-").concat(message.as_str()),
            RespValue::Null => String::from_str("$-1"),
        };
        let out = out.concat("\r\n");
        assert(out@ =~= wire(self@));
        out
    }
}

} // verus!
