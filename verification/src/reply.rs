//! Replies and their form on the wire.
//!
//! A reply is a status line `+<text>\r\n`, a string `$<len>\r\n<bytes>\r\n`,
//! or the null string `$-1\r\n`. [`wire`] gives the bytes of a reply and
//! [`encode`] computes them; nothing else enters into the result.

use vstd::prelude::*;
use crate::decimal::{decimal, lemma_decimal_reads_back, write_decimal};
use crate::text::append;
use crate::parser::{
    decode, decode_bulk, header, lemma_line_end, DecodeError, Value, BULK_MARK, CARRIAGE_RETURN,
    LINE_FEED,
};

verus! {

/// The type byte that opens a status line, `+`.
pub const STATUS_MARK: u8 = 0x2b;

/// The null string as it is written: `$-1\r\n`.
pub const NULL_WIRE: [u8; 5] = [0x24, 0x2d, 0x31, 0x0d, 0x0a];

/// What a command answers.
#[derive(PartialEq, Eq, Debug)]
pub enum Reply {
    /// A short status text, such as an acknowledgment.
    Status(Vec<u8>),
    /// A string of arbitrary bytes.
    Bulk(Vec<u8>),
    /// The absence of a string.
    Null,
}

/// The mathematical content of a [`Reply`].
pub enum ReplyView {
    Status(Seq<u8>),
    Bulk(Seq<u8>),
    Null,
}

impl View for Reply {
    type V = ReplyView;

    open spec fn view(&self) -> ReplyView {
        match self {
            Reply::Status(text) => ReplyView::Status(text@),
            Reply::Bulk(content) => ReplyView::Bulk(content@),
            Reply::Null => ReplyView::Null,
        }
    }
}

/// The two bytes that end a line.
pub open spec fn line_break() -> Seq<u8> {
    seq![CARRIAGE_RETURN, LINE_FEED]
}

/// A status line: `+`, the text, a line break.
pub open spec fn status_wire(text: Seq<u8>) -> Seq<u8> {
    seq![STATUS_MARK] + text + line_break()
}

/// A string: `$`, the length in decimal, a line break, the content, a
/// line break.
pub open spec fn bulk_wire(content: Seq<u8>) -> Seq<u8> {
    seq![BULK_MARK] + decimal(content.len()) + line_break() + content + line_break()
}

/// The bytes of a reply.
pub open spec fn wire(reply: ReplyView) -> Seq<u8> {
    match reply {
        ReplyView::Status(text) => status_wire(text),
        ReplyView::Bulk(content) => bulk_wire(content),
        ReplyView::Null => NULL_WIRE@,
    }
}

/// Writes a reply as bytes for the wire.
pub fn encode(reply: &Reply) -> (out: Vec<u8>)
    ensures
        out@ == wire(reply@),
{
    let mut out: Vec<u8> = Vec::new();
    match reply {
        Reply::Status(text) => {
            out.push(STATUS_MARK);
            append(&mut out, text.as_slice());
            out.push(CARRIAGE_RETURN);
            out.push(LINE_FEED);
        },
        Reply::Bulk(content) => {
            out.push(BULK_MARK);
            write_decimal(content.len(), &mut out);
            out.push(CARRIAGE_RETURN);
            out.push(LINE_FEED);
            append(&mut out, content.as_slice());
            out.push(CARRIAGE_RETURN);
            out.push(LINE_FEED);
        },
        Reply::Null => {
            append(&mut out, &NULL_WIRE);
        },
    }
    out
}

/// A string written for the wire decodes to the same string, whatever bytes
/// follow it on the wire, and the decoder takes exactly the bytes that were
/// written. This holds of every content whose length a `usize` can hold.
pub proof fn lemma_bulk_decodes_in_stream(content: Seq<u8>, following: Seq<u8>)
    requires
        content.len() <= usize::MAX,
    ensures
        decode(bulk_wire(content) + following, 0) == Ok::<(Value, nat), DecodeError>(
            (Value::Bulk(content), bulk_wire(content).len()),
        ),
        decode_bulk(bulk_wire(content) + following, 1) == Ok::<(Value, nat), DecodeError>(
            (Value::Bulk(content), (bulk_wire(content).len() - 1) as nat),
        ),
{
    let count = content.len();
    let digits = decimal(count);
    let bytes = bulk_wire(content) + following;
    lemma_decimal_reads_back(count);
    let end = digits.len() as int + 2;
    assert forall|i: int| 1 <= i < end implies bytes[i] != LINE_FEED by {
        if i < end - 1 {
            assert(bytes[i] == digits[i - 1]);
        }
    }
    lemma_line_end(bytes, 1, end);
    assert(bytes.subrange(1, end - 1) =~= digits);
    assert(header(bytes, 1) == Ok::<(nat, nat), DecodeError>((count, (digits.len() + 2) as nat)));
    let body = end + 1;
    assert(bytes.subrange(body, body + count) =~= content);
}

/// A string written for the wire and decoded again is the same string, for
/// any bytes at all, the empty string included, and the decoder takes every
/// byte that was written. This holds of every content whose length a
/// `usize` can hold.
pub proof fn lemma_bulk_round_trip(content: Seq<u8>)
    requires
        content.len() <= usize::MAX,
    ensures
        decode(bulk_wire(content), 0) == Ok::<(Value, nat), DecodeError>(
            (Value::Bulk(content), bulk_wire(content).len()),
        ),
        decode_bulk(bulk_wire(content), 1) == Ok::<(Value, nat), DecodeError>(
            (Value::Bulk(content), (bulk_wire(content).len() - 1) as nat),
        ),
{
    lemma_bulk_decodes_in_stream(content, Seq::empty());
    assert(bulk_wire(content) + Seq::<u8>::empty() =~= bulk_wire(content));
}

} // verus!
