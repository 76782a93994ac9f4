//! Raw bytes and the texts they encode.
#![verifier::loop_isolation(false)]

use vstd::prelude::*;
use vstd::string::*;
use vstd::utf8::*;

verus! {

/// The text that bytes encode, if they are valid UTF-8.
pub open spec fn decoded(bytes: Seq<u8>) -> Option<Seq<char>> {
    if valid_utf8(bytes) {
        Some(decode_utf8(bytes))
    } else {
        None
    }
}

/// Calls `String::from_utf8`. Claimed: it succeeds exactly on valid UTF-8,
/// and the string then holds the decoded characters. The wording of the error
/// is left unsaid.
#[verifier::external_body]
pub(crate) fn from_utf8(bytes: Vec<u8>) -> (r: Result<String, String>)
    ensures
        match r {
            Ok(text) => decoded(bytes@) == Some(text@),
            Err(_) => decoded(bytes@) is None,
        },
{
    String::from_utf8(bytes).map_err(|error| error.to_string())
}

/// What `String::from_utf8_lossy` makes of bytes that are not valid UTF-8.
pub uninterp spec fn repaired(bytes: Seq<u8>) -> Seq<char>;

/// The text of bytes: decoded where they are valid UTF-8, else repaired.
pub open spec fn lossy_text(bytes: Seq<u8>) -> Seq<char> {
    match decoded(bytes) {
        Some(text) => text,
        None => repaired(bytes),
    }
}

/// Calls `String::from_utf8_lossy`. Claimed: valid UTF-8 is decoded, and what
/// other bytes become depends on them alone.
#[verifier::external_body]
pub(crate) fn from_utf8_lossy(bytes: &[u8]) -> (r: String)
    ensures
        r@ == match decoded(bytes@) {
            Some(text) => text,
            None => repaired(bytes@),
        },
{
    String::from_utf8_lossy(bytes).into_owned()
}

/// A copy of `bytes[start..end]`.
pub fn byte_range(bytes: &[u8], start: usize, end: usize) -> (r: Vec<u8>)
    requires
        start <= end <= bytes.len(),
    ensures
        r@ == bytes@.subrange(start as int, end as int),
{
    let mut out: Vec<u8> = Vec::new();
    let mut i: usize = start;
    while i < end
        invariant
            start <= i <= end <= bytes.len(),
            out@ == bytes@.subrange(start as int, i as int),
        decreases end - i,
    {
        out.push(bytes[i]);
        i += 1;
        assert(out@ =~= bytes@.subrange(start as int, i as int));
    }
    out
}

/// Whether a zero byte is among the bytes.
pub fn has_zero(bytes: &[u8]) -> (r: bool)
    ensures
        r == bytes@.contains(0u8),
{
    let mut i: usize = 0;
    while i < bytes.len()
        invariant
            i <= bytes.len(),
            forall|j: int| 0 <= j < i ==> bytes@[j] != 0,
        decreases bytes.len() - i,
    {
        if bytes[i] == 0 {
            assert(bytes@[i as int] == 0);
            return true;
        }
        i += 1;
    }
    false
}

/// What bytes hold as text: nothing where a zero byte is among them or where
/// they are not valid UTF-8.
pub open spec fn plain_text(bytes: Seq<u8>) -> Option<Seq<char>> {
    if bytes.contains(0u8) {
        None
    } else {
        decoded(bytes)
    }
}

/// The text that bytes hold, unless they are binary.
pub fn text_in(bytes: Vec<u8>) -> (r: Option<String>)
    ensures
        r.deep_view() == plain_text(bytes@),
{
    if has_zero(bytes.as_slice()) {
        None
    } else {
        from_utf8(bytes).ok()
    }
}

/// The part of `text` between two byte positions, if they delimit a text.
pub open spec fn text_between(text: Seq<char>, start: int, end: int) -> Option<Seq<char>> {
    let bytes = encode_utf8(text);
    if 0 <= start <= end <= bytes.len() {
        decoded(bytes.subrange(start, end))
    } else {
        None
    }
}

/// The part of `text` between two byte positions.
pub fn slice_text(text: &str, start: usize, end: usize) -> (r: Option<String>)
    ensures
        r.deep_view() == text_between(text@, start as int, end as int),
{
    let bytes = text.as_bytes();
    if start <= end && end <= bytes.len() {
        from_utf8(byte_range(bytes, start, end)).ok()
    } else {
        None
    }
}

} // verus!
