//! Decoder for the request side of the wire protocol.
//!
//! A value on the wire is a type byte, a header line that declares a count,
//! and a body: `$<len>\r\n<bytes>\r\n` for a bulk string and
//! `*<count>\r\n<values>` for an array. The header line runs up to the first
//! line feed and must end in a carriage return and that line feed; the
//! declared count is the text before them. The two bytes that trail a bulk
//! string's content are taken without being examined.
//!
//! [`decode`] says, for any bytes and any offset into them, what the value at
//! that offset is and how many bytes it occupies, or why there is none.
//! [`parse`] computes exactly that.

use vstd::prelude::*;
use vstd::slice::slice_to_vec;
use crate::decimal::{number_up_to, parse_usize};

verus! {

/// The type byte that opens an array, `*`.
pub const ARRAY_MARK: u8 = 0x2a;

/// The type byte that opens a bulk string, `$`.
pub const BULK_MARK: u8 = 0x24;

/// The first byte of a line break.
pub const CARRIAGE_RETURN: u8 = 0x0d;

/// The second byte of a line break, which ends a header line.
pub const LINE_FEED: u8 = 0x0a;

/// A decoded protocol value.
#[derive(PartialEq, Eq, Debug)]
pub enum RespType {
    /// A length-prefixed string of arbitrary bytes.
    BulkString(Vec<u8>),
    /// A length-prefixed list of values.
    Array(Vec<RespType>),
}

/// The mathematical content of a [`RespType`].
pub enum Value {
    Bulk(Seq<u8>),
    List(Seq<Value>),
}

/// Why no value could be decoded.
#[derive(PartialEq, Eq, Clone, Copy, Debug)]
pub enum DecodeError {
    /// The input ends where a value would begin. Between two requests this
    /// is how a stream closes, and not a fault.
    EndOfStream,
    /// The input ends inside a value: a header line without its line feed,
    /// a body shorter than declared, or an array with elements missing.
    Truncated,
    /// The type byte is neither `*` nor `$`.
    UnknownType,
    /// The header line does not end in a carriage return and a line feed,
    /// or what stands before them is no count that fits in a `usize`.
    BadLength,
}

impl View for RespType {
    type V = Value;

    open spec fn view(&self) -> Value
        decreases self,
    {
        match self {
            RespType::BulkString(content) => Value::Bulk(content@),
            RespType::Array(items) => Value::List(
                Seq::new(
                    items@.len(),
                    |i: int|
                        if 0 <= i < items@.len() {
                            items@[i]@
                        } else {
                            Value::List(Seq::empty())
                        },
                ),
            ),
        }
    }
}

/// The contents of each value in `items`, in order.
pub open spec fn views(items: Seq<RespType>) -> Seq<Value> {
    Seq::new(items.len(), |i: int| items[i]@)
}

/// An array's content is the contents of its elements.
pub proof fn lemma_array_view(items: Vec<RespType>)
    ensures
        RespType::Array(items)@ == Value::List(views(items@)),
{
    assert(RespType::Array(items)@->List_0 =~= views(items@));
}

/// How many bytes of `s` lie at or after `pos`.
pub open spec fn remaining(s: Seq<u8>, pos: int) -> nat {
    if pos <= s.len() {
        (s.len() - pos) as nat
    } else {
        0
    }
}

/// The index of the first line feed in `s` at or after `from`, or `s.len()`
/// if there is none.
pub open spec fn line_end(s: Seq<u8>, from: int) -> int
    decreases remaining(s, from),
{
    if from >= s.len() {
        s.len() as int
    } else if s[from] == LINE_FEED {
        from
    } else {
        line_end(s, from + 1)
    }
}

/// A line that holds no line feed before index `end`, and one there, ends
/// at `end`.
pub proof fn lemma_line_end(s: Seq<u8>, from: int, end: int)
    requires
        0 <= from <= end < s.len(),
        forall|i: int| from <= i < end ==> s[i] != LINE_FEED,
        s[end] == LINE_FEED,
    ensures
        line_end(s, from) == end,
    decreases end - from,
{
    if from < end {
        lemma_line_end(s, from + 1, end);
    }
}

/// The header line that starts at `start`: the count it declares and the
/// number of bytes the line takes up, line break included.
///
/// The line runs up to the first line feed. Without one the input is
/// truncated. The byte before the line feed must be a carriage return, and
/// the text before that a number that fits in a `usize`; a line that is
/// anything else declares no count.
pub open spec fn header(s: Seq<u8>, start: int) -> Result<(nat, nat), DecodeError> {
    let end = line_end(s, start);
    if end >= s.len() {
        Err(DecodeError::Truncated)
    } else if end == start || s[end - 1] != CARRIAGE_RETURN {
        Err(DecodeError::BadLength)
    } else {
        match number_up_to(s.subrange(start, end - 1), usize::MAX as nat) {
            Some(count) => Ok((count, (end + 1 - start) as nat)),
            None => Err(DecodeError::BadLength),
        }
    }
}

/// The value whose type byte is at `pos`, and the number of bytes it
/// occupies.
pub open spec fn decode(s: Seq<u8>, pos: int) -> Result<(Value, nat), DecodeError>
    decreases remaining(s, pos), 0nat, 0nat,
{
    if pos < 0 || pos >= s.len() {
        Err(DecodeError::EndOfStream)
    } else if s[pos] == ARRAY_MARK {
        match decode_array(s, pos + 1) {
            Ok((value, used)) => Ok((value, used + 1)),
            Err(e) => Err(e),
        }
    } else if s[pos] == BULK_MARK {
        match decode_bulk(s, pos + 1) {
            Ok((value, used)) => Ok((value, used + 1)),
            Err(e) => Err(e),
        }
    } else {
        Err(DecodeError::UnknownType)
    }
}

/// The bulk string whose header line starts at `start`.
pub open spec fn decode_bulk(s: Seq<u8>, start: int) -> Result<(Value, nat), DecodeError> {
    match header(s, start) {
        Ok((count, width)) => {
            let body = start + width;
            if body + count + 2 > s.len() {
                Err(DecodeError::Truncated)
            } else {
                Ok((Value::Bulk(s.subrange(body, body + count)), width + count + 2))
            }
        },
        Err(e) => Err(e),
    }
}

/// The array whose header line starts at `start`.
pub open spec fn decode_array(s: Seq<u8>, start: int) -> Result<(Value, nat), DecodeError>
    decreases remaining(s, start), 2nat, 0nat,
{
    match header(s, start) {
        Ok((count, width)) => match decode_items(s, start + width, count) {
            Ok((items, used)) => Ok((Value::List(items), width + used)),
            Err(e) => Err(e),
        },
        Err(e) => Err(e),
    }
}

/// `count` values one after the other, the first with its type byte at
/// `pos`. Input that ends where one of them would begin is truncated.
pub open spec fn decode_items(s: Seq<u8>, pos: int, count: nat) -> Result<
    (Seq<Value>, nat),
    DecodeError,
>
    decreases remaining(s, pos), 1nat, count,
{
    if count == 0 {
        Ok((Seq::empty(), 0))
    } else {
        match decode(s, pos) {
            Ok((first, used)) => match decode_items(s, pos + used, (count - 1) as nat) {
                Ok((others, more)) => Ok((seq![first] + others, used + more)),
                Err(e) => Err(e),
            },
            Err(DecodeError::EndOfStream) => Err(DecodeError::Truncated),
            Err(e) => Err(e),
        }
    }
}

/// What a decoder's result says, in the terms of [`decode`].
pub open spec fn outcome(r: Result<(RespType, usize), DecodeError>) -> Result<
    (Value, nat),
    DecodeError,
> {
    match r {
        Ok((value, used)) => Ok((value@, used as nat)),
        Err(e) => Err(e),
    }
}

/// The result for a run of values of which `done` have been decoded from
/// `used` bytes and `rest` is the result for those that follow.
spec fn extend(
    done: Seq<Value>,
    used: nat,
    rest: Result<(Seq<Value>, nat), DecodeError>,
) -> Result<(Seq<Value>, nat), DecodeError> {
    match rest {
        Ok((others, more)) => Ok((done + others, used + more)),
        Err(e) => Err(e),
    }
}

/// Decoding a run of values one at a time: after the first value, what is
/// left is the run that starts behind it, one value shorter.
proof fn lemma_extend_step(
    s: Seq<u8>,
    cur: int,
    left: nat,
    done: Seq<Value>,
    used: nat,
    value: Value,
    width: nat,
)
    requires
        left > 0,
        decode(s, cur) == Ok::<(Value, nat), DecodeError>((value, width)),
    ensures
        extend(done, used, decode_items(s, cur, left)) == extend(
            done.push(value),
            used + width,
            decode_items(s, cur + width, (left - 1) as nat),
        ),
{
    match decode_items(s, cur + width, (left - 1) as nat) {
        Ok((others, more)) => {
            assert(done + (seq![value] + others) =~= done.push(value) + others);
        },
        Err(_) => {},
    }
}

/// Finds the end of the line that starts at `from`.
fn find_line_end(input: &[u8], from: usize) -> (end: usize)
    requires
        from <= input.len(),
    ensures
        end == line_end(input@, from as int),
        from <= end <= input.len(),
{
    let mut i: usize = from;
    while i < input.len() && input[i] != LINE_FEED
        invariant
            from <= i <= input.len(),
            line_end(input@, from as int) == line_end(input@, i as int),
        decreases input.len() - i,
    {
        i += 1;
    }
    i
}

/// Reads the header line that starts at `start`.
fn read_header(input: &[u8], start: usize) -> (r: Result<(usize, usize), DecodeError>)
    ensures
        match r {
            Ok((count, width)) => {
                &&& header(input@, start as int) == Ok::<(nat, nat), DecodeError>(
                    (count as nat, width as nat),
                )
                &&& 2 <= width
                &&& start + width <= input.len()
            },
            Err(e) => header(input@, start as int) == Err::<(nat, nat), DecodeError>(e),
        },
{
    if start >= input.len() {
        return Err(DecodeError::Truncated);
    }
    let end = find_line_end(input, start);
    if end >= input.len() {
        return Err(DecodeError::Truncated);
    }
    if end == start || input[end - 1] != CARRIAGE_RETURN {
        return Err(DecodeError::BadLength);
    }
    match parse_usize(&input[start..end - 1]) {
        Some(count) => Ok((count, end + 1 - start)),
        None => Err(DecodeError::BadLength),
    }
}

/// Decodes the value whose type byte is at `pos`.
///
/// On success the result holds the value and the number of bytes it
/// occupies, type byte included. The errors are those of [`decode`]; in
/// particular `EndOfStream` comes exactly when `pos` is at or past the end
/// of `input`.
pub fn parse(input: &[u8], pos: usize) -> (r: Result<(RespType, usize), DecodeError>)
    ensures
        outcome(r) == decode(input@, pos as int),
        r matches Ok((_, used)) ==> pos + used <= input.len(),
    decreases remaining(input@, pos as int),
{
    if pos >= input.len() {
        return Err(DecodeError::EndOfStream);
    }
    let mark = input[pos];
    if mark == ARRAY_MARK {
        match parse_array(input, pos + 1) {
            Ok((value, used)) => Ok((value, used + 1)),
            Err(e) => Err(e),
        }
    } else if mark == BULK_MARK {
        match parse_bulk_string(input, pos + 1) {
            Ok((value, used)) => Ok((value, used + 1)),
            Err(e) => Err(e),
        }
    } else {
        Err(DecodeError::UnknownType)
    }
}

/// Decodes the bulk string whose header line starts at `pos`, that is just
/// behind its type byte.
///
/// On success the result holds the string and the number of bytes that the
/// header line, the content and the two trailing bytes occupy.
pub fn parse_bulk_string(input: &[u8], pos: usize) -> (r: Result<(RespType, usize), DecodeError>)
    ensures
        outcome(r) == decode_bulk(input@, pos as int),
        r matches Ok((_, used)) ==> pos + used <= input.len(),
{
    let (count, width) = match read_header(input, pos) {
        Ok(found) => found,
        Err(e) => {
            return Err(e);
        },
    };
    let body: usize = pos + width;
    let room: usize = input.len() - body;
    if room < 2 || count > room - 2 {
        return Err(DecodeError::Truncated);
    }
    let content = slice_to_vec(&input[body..body + count]);
    Ok((RespType::BulkString(content), width + count + 2))
}

/// Decodes the array whose header line starts at `pos`, that is just behind
/// its type byte.
///
/// On success the result holds the array and the number of bytes that the
/// header line and the elements occupy.
pub fn parse_array(input: &[u8], pos: usize) -> (r: Result<(RespType, usize), DecodeError>)
    ensures
        outcome(r) == decode_array(input@, pos as int),
        r matches Ok((_, used)) ==> pos + used <= input.len(),
    decreases remaining(input@, pos as int),
{
    let (count, width) = match read_header(input, pos) {
        Ok(found) => found,
        Err(e) => {
            return Err(e);
        },
    };
    let first: usize = pos + width;
    let mut items: Vec<RespType> = Vec::new();
    let mut cur: usize = first;
    let mut i: usize = 0;
    while i < count
        invariant
            i <= count,
            pos < first <= cur <= input.len(),
            first == pos + width,
            header(input@, pos as int) == Ok::<(nat, nat), DecodeError>((count as nat, width as nat)),
            decode_items(input@, first as int, count as nat) == extend(
                views(items@),
                (cur - first) as nat,
                decode_items(input@, cur as int, (count - i) as nat),
            ),
        decreases count - i,
    {
        match parse(input, cur) {
            Ok((value, used)) => {
                proof {
                    lemma_extend_step(
                        input@,
                        cur as int,
                        (count - i) as nat,
                        views(items@),
                        (cur - first) as nat,
                        value@,
                        used as nat,
                    );
                    assert(views(items@.push(value)) =~= views(items@).push(value@));
                }
                items.push(value);
                cur = cur + used;
                i = i + 1;
            },
            Err(e) => {
                return Err(
                    match e {
                        DecodeError::EndOfStream => DecodeError::Truncated,
                        _ => e,
                    },
                );
            },
        }
    }
    proof {
        lemma_array_view(items);
    }
    Ok((RespType::Array(items), cur - pos))
}

} // verus!
