//! Requests as text: the decoder from a string to its elements, and the
//! command that the elements make up.

use crate::error::ProtocolError;
use crate::frame::{
    contents, decode_spec, scan, span_content, span_fits, spans_fit, Span, CR, LF,
};
use vstd::prelude::*;
use vstd::string::*;
use vstd::utf8::*;

verus! {

/// The text of one element: its bytes read as UTF-8.
pub open spec fn element_text(element: Option<Seq<u8>>) -> Option<Seq<char>> {
    match element {
        Some(bytes) => Some(decode_utf8(bytes)),
        None => None,
    }
}

/// What a request text decodes to: what its UTF-8 bytes decode to, with each
/// element read as text. Lengths count bytes, not characters.
pub open spec fn decode_text_spec(text: Seq<char>) -> Result<
    Option<Seq<Option<Seq<char>>>>,
    ProtocolError,
> {
    match decode_spec(encode_utf8(text)) {
        Ok(Some(elements)) => Ok(
            Some(Seq::new(elements.len(), |i: int| element_text(elements[i]))),
        ),
        Ok(None) => Ok(None),
        Err(e) => Err(e),
    }
}

/// The text of one decoded token.
pub open spec fn token_view(token: Option<String>) -> Option<Seq<char>> {
    match token {
        Some(s) => Some(s@),
        None => None,
    }
}

/// The texts of decoded tokens.
pub open spec fn tokens_view(tokens: Seq<Option<String>>) -> Seq<Option<Seq<char>>> {
    Seq::new(tokens.len(), |i: int| token_view(tokens[i]))
}

/// The outcome of decoding with each token taken by its text.
pub open spec fn decoded_view(r: Result<Option<Vec<Option<String>>>, ProtocolError>) -> Result<
    Option<Seq<Option<Seq<char>>>>,
    ProtocolError,
> {
    match r {
        Ok(Some(tokens)) => Ok(Some(tokens_view(tokens@))),
        Ok(None) => Ok(None),
        Err(e) => Err(e),
    }
}

/// In well-formed UTF-8 a span that fits starts and ends between two
/// characters, and so does its end within what follows its start.
proof fn lemma_span_on_boundaries(buf: Seq<u8>, span: Span)
    requires
        valid_utf8(buf),
        span_fits(buf, span),
    ensures
        is_char_boundary(buf, span.start as int),
        valid_utf8(buf.subrange(span.start as int, buf.len() as int)),
        is_char_boundary(
            buf.subrange(span.start as int, buf.len() as int),
            span.end - span.start,
        ),
{
    let before = span.start - 1;
    let from_feed = buf.subrange(before, buf.len() as int);
    let tail = buf.subrange(span.start as int, buf.len() as int);
    assert(!is_continuation_byte(buf[before]));
    is_char_boundary_iff_not_is_continuation_byte(buf, before);
    valid_utf8_split(buf, before);
    assert(from_feed[0] == LF);
    assert(pop_first_scalar(from_feed) =~= tail);
    assert(valid_utf8(tail));
    assert(tail[0] == buf[span.start as int]);
    assert(!is_continuation_byte(tail[0]));
    is_char_boundary_iff_not_is_continuation_byte(buf, span.start as int);
    assert(tail[span.end - span.start] == CR);
    is_char_boundary_iff_not_is_continuation_byte(tail, span.end - span.start);
}

/// Decodes one request from its text.
///
/// Gives `Ok(None)` for the null request, and otherwise the elements in
/// order, `None` for a null element.
pub fn deserialize_command_into_array(cmd: &String) -> (r: Result<
    Option<Vec<Option<String>>>,
    ProtocolError,
>)
    ensures
        decoded_view(r) == decode_text_spec(cmd@),
{
    let text: &str = cmd.as_str();
    let buf: &[u8] = text.as_bytes();
    let spans = match scan(buf) {
        Ok(Some(spans)) => spans,
        Ok(None) => {
            return Ok(None);
        },
        Err(e) => {
            return Err(e);
        },
    };
    proof {
        encode_utf8_valid_utf8(cmd@);
    }
    let mut tokens: Vec<Option<String>> = Vec::new();
    let mut i: usize = 0;
    while i < spans.len()
        invariant
            i <= spans@.len(),
            buf@ == encode_utf8(text@),
            valid_utf8(buf@),
            spans_fit(buf@, spans@),
            tokens@.len() == i,
            forall|j: int|
                0 <= j < i ==> token_view(#[trigger] tokens@[j]) == element_text(
                    span_content(buf@, spans@[j]),
                ),
        decreases spans@.len() - i,
    {
        match spans[i] {
            Some(span) => {
                proof {
                    lemma_span_on_boundaries(buf@, span);
                }
                let (_, tail) = text.split_at(span.start);
                let (body, _) = tail.split_at(span.end - span.start);
                proof {
                    assert(encode_utf8(body@) =~= buf@.subrange(
                        span.start as int,
                        span.end as int,
                    ));
                    encode_utf8_decode_utf8(body@);
                }
                tokens.push(Some(body.to_owned()));
            },
            None => {
                tokens.push(None);
            },
        }
        i = i + 1;
    }
    proof {
        let elements = contents(buf@, spans@);
        assert(tokens_view(tokens@) =~= Seq::new(
            elements.len(),
            |i: int| element_text(elements[i]),
        ));
    }
    Ok(Some(tokens))
}

/// A request as a command: its name and its arguments in order.
#[derive(Debug, PartialEq, Eq)]
pub struct Command {
    pub cmd: String,
    pub args: Vec<String>,
}

/// A command with its texts as sequences of characters.
pub struct CommandView {
    pub name: Seq<char>,
    pub args: Seq<Seq<char>>,
}

impl View for Command {
    type V = CommandView;

    open spec fn view(&self) -> CommandView {
        CommandView { name: self.cmd@, args: Seq::new(self.args@.len(), |i: int| self.args@[i]@) }
    }
}

/// Whether one of the elements after the first is null.
pub open spec fn has_null_argument(tokens: Seq<Option<Seq<char>>>) -> bool {
    exists|i: int| 1 <= i < tokens.len() && #[trigger] tokens[i] is None
}

/// The command that decoded elements make up. The first element is the
/// name and must be there and not null; the others are the arguments, none
/// of which may be null. A missing name is reported before a null argument.
pub open spec fn build_spec(tokens: Seq<Option<Seq<char>>>) -> Result<CommandView, ProtocolError> {
    if tokens.len() == 0 || tokens[0] is None {
        Err(ProtocolError::NullCommandName)
    } else if has_null_argument(tokens) {
        Err(ProtocolError::NullArgument)
    } else {
        Ok(
            CommandView {
                name: tokens[0]->0,
                args: Seq::new((tokens.len() - 1) as nat, |i: int| tokens[i + 1]->0),
            },
        )
    }
}

/// The outcome of building a command, with the command taken by its texts.
pub open spec fn built_view(r: Result<Command, ProtocolError>) -> Result<
    CommandView,
    ProtocolError,
> {
    match r {
        Ok(command) => Ok(command@),
        Err(e) => Err(e),
    }
}

/// Builds the command that the decoded elements make up.
pub fn parse_cmd(cmd_array: Vec<Option<String>>) -> (r: Result<Command, ProtocolError>)
    ensures
        built_view(r) == build_spec(tokens_view(cmd_array@)),
{
    let ghost tokens = tokens_view(cmd_array@);
    if cmd_array.len() == 0 {
        return Err(ProtocolError::NullCommandName);
    }
    let cmd: String = match &cmd_array[0] {
        Some(name) => name.clone(),
        None => {
            assert(tokens[0] is None);
            return Err(ProtocolError::NullCommandName);
        },
    };
    assert(tokens[0] == Some(cmd@));
    let mut args: Vec<String> = Vec::new();
    let mut i: usize = 1;
    while i < cmd_array.len()
        invariant
            1 <= i <= cmd_array@.len(),
            tokens == tokens_view(cmd_array@),
            tokens[0] is Some,
            args@.len() == i - 1,
            forall|j: int| 1 <= j < i ==> #[trigger] tokens[j] == Some(args@[j - 1]@),
        decreases cmd_array@.len() - i,
    {
        match &cmd_array[i] {
            Some(arg) => {
                args.push(arg.clone());
            },
            None => {
                assert(tokens[i as int] is None);
                return Err(ProtocolError::NullArgument);
            },
        }
        i = i + 1;
    }
    let command = Command { cmd, args };
    proof {
        assert(!has_null_argument(tokens));
        assert(command@.args =~= build_spec(tokens)->Ok_0.args);
    }
    Ok(command)
}

} // verus!
