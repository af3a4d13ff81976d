//! Helpers for byte strings: comparison, copying and ASCII case folding.

use vstd::prelude::*;

verus! {

/// The upper-case form of an ASCII byte: `a`..`z` become `A`..`Z`, every
/// other byte stays as it is.
pub open spec fn upper(b: u8) -> u8 {
    if 0x61 <= b <= 0x7a {
        (b - 0x20) as u8
    } else {
        b
    }
}

/// `text` with each byte in upper case.
pub open spec fn upper_text(text: Seq<u8>) -> Seq<u8> {
    text.map_values(|b: u8| upper(b))
}

/// Computes [`upper`].
pub fn to_upper(b: u8) -> (r: u8)
    ensures
        r == upper(b),
{
    if 0x61 <= b && b <= 0x7a {
        b - 0x20
    } else {
        b
    }
}

/// Whether `text`, put in upper case, is `word`.
pub fn reads_as(text: &[u8], word: &[u8]) -> (r: bool)
    ensures
        r == (upper_text(text@) == word@),
{
    if text.len() != word.len() {
        return false;
    }
    let mut i: usize = 0;
    while i < text.len()
        invariant
            i <= text.len(),
            text.len() == word.len(),
            forall|j: int| 0 <= j < i ==> upper(#[trigger] text[j]) == word[j],
        decreases text.len() - i,
    {
        if to_upper(text[i]) != word[i] {
            return false;
        }
        i += 1;
    }
    assert(upper_text(text@) =~= word@);
    true
}

/// Whether `a` and `b` hold the same bytes.
pub fn same_bytes(a: &[u8], b: &[u8]) -> (r: bool)
    ensures
        r == (a@ == b@),
{
    if a.len() != b.len() {
        return false;
    }
    let mut i: usize = 0;
    while i < a.len()
        invariant
            i <= a.len(),
            a.len() == b.len(),
            forall|j: int| 0 <= j < i ==> a[j] == b[j],
        decreases a.len() - i,
    {
        if a[i] != b[i] {
            return false;
        }
        i += 1;
    }
    assert(a@ =~= b@);
    true
}

/// Appends `bytes` to `out`.
pub fn append(out: &mut Vec<u8>, bytes: &[u8])
    ensures
        final(out)@ == old(out)@ + bytes@,
{
    let mut i: usize = 0;
    while i < bytes.len()
        invariant
            i <= bytes.len(),
            out@ == old(out)@ + bytes@.subrange(0, i as int),
        decreases bytes.len() - i,
    {
        out.push(bytes[i]);
        i += 1;
    }
}

} // verus!
