//! Writing a request out, and the law that ties the writer to the decoder.

use crate::cmd::{decode_text_spec, element_text, token_view, tokens_view};
use crate::decimal::{
    decimal_digits, decimal_text, is_digit, lemma_decimal_digits, lemma_decimal_text_round_trip,
    ZERO,
};
use crate::error::ProtocolError;
use crate::frame::{
    decode_spec, elements_at, line_end, prefix_at, ARRAY_MARK, BULK_MARK, CR, LF,
};
use vstd::prelude::*;
use vstd::string::*;
use vstd::utf8::{
    encode_utf8, encode_utf8_decode_utf8, is_ascii_chars, is_ascii_chars_encode_utf8,
};

verus! {

/// The two bytes of a line break.
pub open spec fn break_bytes() -> Seq<u8> {
    seq![CR, LF]
}

/// A length prefix: the number in decimal and a line break.
pub open spec fn encode_prefix(n: int) -> Seq<u8> {
    decimal_text(n) + break_bytes()
}

/// One element as it is sent: `$`, the length of the content, a line break,
/// the content and a line break; or `$-1` and a line break for a null
/// element.
pub open spec fn encode_element(element: Option<Seq<u8>>) -> Seq<u8> {
    match element {
        Some(content) => seq![BULK_MARK] + encode_prefix(content.len() as int) + content
            + break_bytes(),
        None => seq![BULK_MARK] + encode_prefix(-1),
    }
}

/// The elements as they are sent, one after the other.
pub open spec fn encode_elements(elements: Seq<Option<Seq<u8>>>) -> Seq<u8>
    decreases elements.len(),
{
    if elements.len() == 0 {
        Seq::empty()
    } else {
        encode_element(elements[0]) + encode_elements(elements.drop_first())
    }
}

/// A request as it is sent: `*`, the number of elements, a line break and
/// the elements; or `*-1` and a line break for the null request.
pub open spec fn encode_request(request: Option<Seq<Option<Seq<u8>>>>) -> Seq<u8> {
    match request {
        Some(elements) => seq![ARRAY_MARK] + encode_prefix(elements.len() as int)
            + encode_elements(elements),
        None => seq![ARRAY_MARK] + encode_prefix(-1),
    }
}

/// Whether every length of the request can be written as an `i64`.
pub open spec fn lengths_fit(elements: Seq<Option<Seq<u8>>>) -> bool {
    &&& elements.len() <= i64::MAX
    &&& forall|i: int|
        0 <= i < elements.len() ==> (#[trigger] elements[i] matches Some(content)
            ==> content.len() <= i64::MAX)
}

/// A line ends at the first carriage return.
proof fn lemma_line_end_at(buf: Seq<u8>, from: int, end: int)
    requires
        0 <= from <= end < buf.len(),
        buf[end] == CR,
        forall|j: int| from <= j < end ==> buf[j] != CR,
    ensures
        line_end(buf, from) == end,
    decreases end - from,
{
    if from < end {
        lemma_line_end_at(buf, from + 1, end);
    }
}

/// No byte of a number written in decimal is a carriage return.
proof fn lemma_decimal_text_has_no_break(n: int)
    ensures
        decimal_text(n).len() > 0,
        forall|j: int| 0 <= j < decimal_text(n).len() ==> decimal_text(n)[j] != CR,
{
    let text = decimal_text(n);
    if n < 0 {
        let digits = decimal_digits((-n) as nat);
        lemma_decimal_digits((-n) as nat);
        assert forall|j: int| 0 <= j < text.len() implies text[j] != CR by {
            if j > 0 {
                assert(text[j] == digits[j - 1]);
                assert(is_digit(digits[j - 1]));
            }
        }
    } else {
        lemma_decimal_digits(n as nat);
        assert forall|j: int| 0 <= j < text.len() implies text[j] != CR by {
            assert(is_digit(text[j]));
        }
    }
}

/// A length prefix that stands at `from` is read back as its number.
proof fn lemma_prefix_at_encoded(buf: Seq<u8>, from: int, n: i64)
    requires
        0 <= from,
        from + encode_prefix(n as int).len() <= buf.len(),
        buf.subrange(from, from + encode_prefix(n as int).len()) == encode_prefix(n as int),
    ensures
        prefix_at(buf, from) == Some((n, from + encode_prefix(n as int).len())),
{
    let text = decimal_text(n as int);
    let written = encode_prefix(n as int);
    let end = from + text.len();
    lemma_decimal_text_has_no_break(n as int);
    assert forall|j: int| from <= j < end + 2 implies buf[j] == written[j - from] by {
        assert(buf.subrange(from, from + written.len())[j - from] == buf[j]);
    }
    assert(buf[end] == CR);
    assert(buf[end + 1] == LF);
    assert forall|j: int| from <= j < end implies buf[j] != CR by {
        assert(written[j - from] == text[j - from]);
    }
    lemma_line_end_at(buf, from, end);
    assert(buf.subrange(from, end) =~= text);
    lemma_decimal_text_round_trip(n);
}

/// Elements that stand written from `pos` to the end of a buffer are read
/// back as they were.
proof fn lemma_elements_at_encoded(buf: Seq<u8>, pos: int, elements: Seq<Option<Seq<u8>>>)
    requires
        0 <= pos <= buf.len(),
        buf.subrange(pos, buf.len() as int) == encode_elements(elements),
        lengths_fit(elements),
    ensures
        elements_at(buf, pos) == Ok::<Seq<Option<Seq<u8>>>, ProtocolError>(elements),
    decreases elements.len(),
{
    let rest_bytes = buf.subrange(pos, buf.len() as int);
    if elements.len() == 0 {
        assert(rest_bytes.len() == 0);
        assert(elements =~= Seq::empty());
    } else {
        let head = elements[0];
        let tail = elements.drop_first();
        let written = encode_element(head);
        let next = pos + written.len();
        assert(rest_bytes == written + encode_elements(tail));
        assert(rest_bytes.len() == written.len() + encode_elements(tail).len());
        assert forall|j: int| pos <= j < next implies buf[j] == written[j - pos] by {
            assert(rest_bytes[j - pos] == buf[j]);
        }
        assert(buf.subrange(next, buf.len() as int) =~= encode_elements(tail)) by {
            assert forall|j: int| 0 <= j < encode_elements(tail).len() implies buf[next + j]
                == encode_elements(tail)[j] by {
                assert(rest_bytes[written.len() + j] == buf[next + j]);
            }
        }
        assert(lengths_fit(tail)) by {
            assert forall|i: int| 0 <= i < tail.len() implies (#[trigger] tail[i] matches Some(
                content,
            ) ==> content.len() <= i64::MAX) by {
                assert(tail[i] == elements[i + 1]);
            }
        }
        lemma_elements_at_encoded(buf, next, tail);
        assert(written[0] == BULK_MARK);
        match head {
            Some(content) => {
                let n = content.len() as i64;
                let prefix = encode_prefix(n as int);
                let start = pos + 1 + prefix.len();
                assert(buf.subrange(pos + 1, pos + 1 + prefix.len()) =~= prefix) by {
                    assert forall|j: int| 0 <= j < prefix.len() implies buf[pos + 1 + j]
                        == prefix[j] by {
                        assert(written[1 + j] == prefix[j]);
                    }
                }
                lemma_prefix_at_encoded(buf, pos + 1, n);
                assert(next == start + n + 2);
                assert(buf[start + n] == CR) by {
                    assert(written[1 + prefix.len() + n] == CR);
                }
                assert(buf[start + n + 1] == LF) by {
                    assert(written[1 + prefix.len() + n + 1] == LF);
                }
                assert(buf.subrange(start, start + n) =~= content) by {
                    assert forall|j: int| 0 <= j < n implies buf[start + j] == content[j] by {
                        assert(written[1 + prefix.len() + j] == content[j]);
                    }
                }
                assert(seq![head] + tail =~= elements);
            },
            None => {
                let prefix = encode_prefix(-1);
                assert(buf.subrange(pos + 1, pos + 1 + prefix.len()) =~= prefix) by {
                    assert forall|j: int| 0 <= j < prefix.len() implies buf[pos + 1 + j]
                        == prefix[j] by {
                        assert(written[1 + j] == prefix[j]);
                    }
                }
                lemma_prefix_at_encoded(buf, pos + 1, -1i64);
                assert(seq![head] + tail =~= elements);
            },
        }
    }
}

/// Round trip: a request that is written out and decoded comes back as it
/// was, whatever bytes its elements hold, line breaks and markers included.
/// This holds of the null request, of the empty request and of any request
/// whose lengths can be written as an `i64`.
pub proof fn law_decode_encode_round_trip(request: Option<Seq<Option<Seq<u8>>>>)
    requires
        request matches Some(elements) ==> lengths_fit(elements),
    ensures
        decode_spec(encode_request(request)) == Ok::<Option<Seq<Option<Seq<u8>>>>, ProtocolError>(
            request,
        ),
{
    let buf = encode_request(request);
    match request {
        Some(elements) => {
            let n = elements.len() as i64;
            let prefix = encode_prefix(n as int);
            assert(buf[0] == ARRAY_MARK);
            assert(buf.subrange(1, 1 + prefix.len() as int) =~= prefix);
            lemma_prefix_at_encoded(buf, 1, n);
            if n == 0 {
                assert(elements =~= Seq::empty());
            } else {
                assert(buf.subrange(1 + prefix.len() as int, buf.len() as int) =~= encode_elements(
                    elements,
                ));
                lemma_elements_at_encoded(buf, 1 + prefix.len() as int, elements);
            }
        },
        None => {
            let prefix = encode_prefix(-1);
            assert(buf[0] == ARRAY_MARK);
            assert(buf.subrange(1, 1 + prefix.len() as int) =~= prefix);
            lemma_prefix_at_encoded(buf, 1, -1i64);
        },
    }
}

/// The bytes of one element of a request given as text.
pub open spec fn element_bytes(token: Option<Seq<char>>) -> Option<Seq<u8>> {
    match token {
        Some(text) => Some(encode_utf8(text)),
        None => None,
    }
}

/// The bytes of the elements of a request given as text.
pub open spec fn elements_bytes(tokens: Seq<Option<Seq<char>>>) -> Seq<Option<Seq<u8>>> {
    Seq::new(tokens.len(), |i: int| element_bytes(tokens[i]))
}

/// The bytes of a request given as text: each element in UTF-8.
pub open spec fn request_bytes(request: Option<Seq<Option<Seq<char>>>>) -> Option<
    Seq<Option<Seq<u8>>>,
> {
    match request {
        Some(tokens) => Some(elements_bytes(tokens)),
        None => None,
    }
}

/// A request as [`serialize_array_into_command`] takes it, with each token
/// taken by its text.
pub open spec fn array_view(array: Option<Vec<Option<String>>>) -> Option<
    Seq<Option<Seq<char>>>,
> {
    match array {
        Some(tokens) => Some(tokens_view(tokens@)),
        None => None,
    }
}

/// The characters that stand for ASCII bytes.
pub open spec fn ascii_text(bytes: Seq<u8>) -> Seq<char> {
    Seq::new(bytes.len(), |i: int| bytes[i] as char)
}

/// Whether every byte of `bytes` is ASCII.
pub open spec fn all_ascii(bytes: Seq<u8>) -> bool {
    forall|i: int| 0 <= i < bytes.len() ==> #[trigger] bytes[i] < 128
}

/// ASCII bytes are the UTF-8 form of the characters that stand for them.
proof fn lemma_ascii_text_bytes(bytes: Seq<u8>)
    requires
        all_ascii(bytes),
    ensures
        encode_utf8(ascii_text(bytes)) == bytes,
{
    let text = ascii_text(bytes);
    assert(is_ascii_chars(text)) by {
        assert forall|i: int| 0 <= i < text.len() implies '\0' <= #[trigger] text[i]
            <= '\u{7f}' by {
            assert(bytes[i] < 128);
        }
    }
    is_ascii_chars_encode_utf8(text);
    assert(encode_utf8(text) =~= bytes) by {
        assert forall|i: int| 0 <= i < bytes.len() implies encode_utf8(text)[i] == bytes[i] by {
            assert(bytes[i] < 128);
            assert(text[i] as u8 == bytes[i]);
        }
    }
}

/// The UTF-8 form of two texts in a row is the two forms in a row.
proof fn lemma_encode_utf8_concat(a: Seq<char>, b: Seq<char>)
    ensures
        encode_utf8(a + b) == encode_utf8(a) + encode_utf8(b),
    decreases a.len(),
{
    if a.len() == 0 {
        assert(a + b =~= b);
        assert(encode_utf8(a) + encode_utf8(b) =~= encode_utf8(b));
    } else {
        lemma_encode_utf8_concat(a.drop_first(), b);
        assert((a + b).drop_first() =~= a.drop_first() + b);
        assert((a + b)[0] == a[0]);
        assert(encode_utf8(a + b) =~= encode_utf8(a) + encode_utf8(b));
    }
}

/// Writing one more element after others appends what it is sent as.
proof fn lemma_encode_elements_push(elements: Seq<Option<Seq<u8>>>, last: Option<Seq<u8>>)
    ensures
        encode_elements(elements.push(last)) == encode_elements(elements) + encode_element(last),
    decreases elements.len(),
{
    let all = elements.push(last);
    if elements.len() == 0 {
        assert(all[0] == last);
        assert(all.drop_first() =~= Seq::<Option<Seq<u8>>>::empty());
        assert(encode_elements(all.drop_first()) =~= Seq::<u8>::empty());
        assert(encode_elements(elements) =~= Seq::<u8>::empty());
        assert(encode_elements(all) =~= encode_elements(elements) + encode_element(last));
    } else {
        lemma_encode_elements_push(elements.drop_first(), last);
        assert(all.drop_first() =~= elements.drop_first().push(last));
        assert(all[0] == elements[0]);
        assert(encode_elements(all) =~= encode_elements(elements) + encode_element(last));
    }
}

/// Appends `piece`, which is ASCII, and keeps track of the bytes written.
fn write_ascii(out: &mut String, piece: &str, Ghost(bytes): Ghost<Seq<u8>>)
    requires
        all_ascii(bytes),
        piece@ == ascii_text(bytes),
    ensures
        encode_utf8(final(out)@) == encode_utf8(old(out)@) + bytes,
{
    proof {
        lemma_ascii_text_bytes(bytes);
        lemma_encode_utf8_concat(out@, piece@);
    }
    out.append(piece);
}

/// Appends `n` in decimal.
fn write_digits(out: &mut String, n: usize)
    ensures
        encode_utf8(final(out)@) == encode_utf8(old(out)@) + decimal_digits(n as nat),
    decreases n,
{
    if n >= 10 {
        write_digits(out, n / 10);
    }
    let d: usize = n % 10;
    let ghost digit = seq![(ZERO + d) as u8];
    let piece: &str = if d == 0 {
        "0"
    } else if d == 1 {
        "1"
    } else if d == 2 {
        "2"
    } else if d == 3 {
        "3"
    } else if d == 4 {
        "4"
    } else if d == 5 {
        "5"
    } else if d == 6 {
        "6"
    } else if d == 7 {
        "7"
    } else if d == 8 {
        "8"
    } else {
        "9"
    };
    proof {
        reveal_strlit("0");
        reveal_strlit("1");
        reveal_strlit("2");
        reveal_strlit("3");
        reveal_strlit("4");
        reveal_strlit("5");
        reveal_strlit("6");
        reveal_strlit("7");
        reveal_strlit("8");
        reveal_strlit("9");
        assert(piece@ =~= ascii_text(digit));
    }
    let ghost before = encode_utf8(out@);
    write_ascii(out, piece, Ghost(digit));
    proof {
        if n >= 10 {
            assert(decimal_digits(n as nat) =~= decimal_digits((n / 10) as nat) + digit);
            assert(encode_utf8(out@) =~= encode_utf8(old(out)@) + decimal_digits(n as nat));
        } else {
            assert(decimal_digits(n as nat) =~= digit);
        }
    }
}

/// Appends a line break.
fn write_break(out: &mut String)
    ensures
        encode_utf8(final(out)@) == encode_utf8(old(out)@) + break_bytes(),
{
    proof {
        reveal_strlit("\r\n");
        assert("\r\n"@ =~= ascii_text(break_bytes()));
    }
    write_ascii(out, "\r\n", Ghost(break_bytes()));
}

/// Appends the mark and length prefix of a null element or request.
fn write_null(out: &mut String, mark: &str, Ghost(byte): Ghost<u8>)
    requires
        byte < 128,
        mark@ == seq![byte as char],
    ensures
        encode_utf8(final(out)@) == encode_utf8(old(out)@) + (seq![byte] + encode_prefix(-1)),
{
    let ghost before = encode_utf8(out@);
    proof {
        reveal_strlit("-1");
        assert(mark@ =~= ascii_text(seq![byte]));
        assert("-1"@ =~= ascii_text(decimal_text(-1))) by {
            assert(decimal_digits(1) =~= seq![49u8]);
            assert(decimal_text(-1) =~= seq![45u8, 49u8]);
        }
    }
    let ghost mark_bytes = seq![byte];
    write_ascii(out, mark, Ghost(mark_bytes));
    write_ascii(out, "-1", Ghost(decimal_text(-1)));
    write_break(out);
    assert(encode_utf8(out@) =~= before + (seq![byte] + encode_prefix(-1)));
}

/// Appends a mark and the length prefix for the length `n`.
fn write_length(out: &mut String, mark: &str, Ghost(byte): Ghost<u8>, n: usize)
    requires
        byte < 128,
        mark@ == seq![byte as char],
    ensures
        encode_utf8(final(out)@) == encode_utf8(old(out)@) + (seq![byte] + encode_prefix(n as int)),
{
    let ghost before = encode_utf8(out@);
    proof {
        assert(mark@ =~= ascii_text(seq![byte]));
    }
    let ghost mark_bytes = seq![byte];
    write_ascii(out, mark, Ghost(mark_bytes));
    write_digits(out, n);
    write_break(out);
    assert(encode_utf8(out@) =~= before + (seq![byte] + encode_prefix(n as int)));
}

/// Writes a request out as it is sent: the inverse of
/// [`crate::cmd::deserialize_command_into_array`]. `None` is the null
/// request; a `None` among the tokens is a null element. Lengths count the
/// bytes of each token in UTF-8.
pub fn serialize_array_into_command(array: &Option<Vec<Option<String>>>) -> (out: String)
    ensures
        encode_utf8(out@) == encode_request(request_bytes(array_view(*array))),
{
    let mut out = String::new();
    proof {
        reveal_strlit("*");
        assert("*"@ =~= seq![ARRAY_MARK as char]);
        assert(encode_utf8(out@) =~= Seq::<u8>::empty());
    }
    let tokens = match array {
        Some(tokens) => tokens,
        None => {
            write_null(&mut out, "*", Ghost(ARRAY_MARK));
            assert(encode_utf8(out@) =~= encode_request(None));
            return out;
        },
    };
    let ghost elements = elements_bytes(tokens_view(tokens@));
    write_length(&mut out, "*", Ghost(ARRAY_MARK), tokens.len());
    let ghost header = seq![ARRAY_MARK] + encode_prefix(tokens@.len() as int);
    assert(encode_utf8(out@) =~= header + encode_elements(elements.take(0))) by {
        assert(elements.take(0) =~= Seq::empty());
    }
    let mut i: usize = 0;
    while i < tokens.len()
        invariant
            i <= tokens@.len(),
            elements == elements_bytes(tokens_view(tokens@)),
            encode_utf8(out@) == header + encode_elements(elements.take(i as int)),
        decreases tokens@.len() - i,
    {
        let ghost before = encode_utf8(out@);
        let ghost element = elements[i as int];
        proof {
            reveal_strlit("$");
            assert("$"@ =~= seq![BULK_MARK as char]);
        }
        match &tokens[i] {
            Some(token) => {
                let text: &str = token.as_str();
                write_length(&mut out, "$", Ghost(BULK_MARK), text.as_bytes().len());
                proof {
                    lemma_encode_utf8_concat(out@, text@);
                }
                out.append(text);
                write_break(&mut out);
                assert(element == Some(encode_utf8(text@)));
                assert(encode_utf8(out@) =~= before + encode_element(element));
            },
            None => {
                write_null(&mut out, "$", Ghost(BULK_MARK));
                assert(element.is_none());
                assert(encode_utf8(out@) =~= before + encode_element(element));
            },
        }
        proof {
            lemma_encode_elements_push(elements.take(i as int), element);
            assert(elements.take(i + 1) =~= elements.take(i as int).push(element));
        }
        i = i + 1;
    }
    assert(elements.take(tokens@.len() as int) =~= elements);
    out
}

/// Round trip, as text: a request that is written out and decoded comes
/// back as it was, for every text whose UTF-8 bytes are the request as it is
/// sent, whatever its elements hold. This holds of the null request, of the
/// empty request and of any request whose lengths can be written as an
/// `i64`.
pub proof fn law_deserialize_serialize_round_trip(
    request: Option<Seq<Option<Seq<char>>>>,
    text: Seq<char>,
)
    requires
        encode_utf8(text) == encode_request(request_bytes(request)),
        request matches Some(tokens) ==> lengths_fit(elements_bytes(tokens)),
    ensures
        decode_text_spec(text) == Ok::<Option<Seq<Option<Seq<char>>>>, ProtocolError>(request),
{
    law_decode_encode_round_trip(request_bytes(request));
    if let Some(tokens) = request {
        let elements = elements_bytes(tokens);
        assert(Seq::new(elements.len(), |i: int| element_text(elements[i])) =~= tokens) by {
            assert forall|i: int| 0 <= i < tokens.len() implies element_text(elements[i])
                == tokens[i] by {
                if let Some(t) = tokens[i] {
                    encode_utf8_decode_utf8(t);
                }
            }
        }
    }
}

} // verus!
