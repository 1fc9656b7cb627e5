//! Slicing a source text by byte offsets.

use vstd::prelude::*;
use vstd::string::*;
use vstd::utf8::{
    decode_utf8, encode_utf8_decode_utf8, encode_utf8_valid_utf8, is_char_boundary,
    is_char_boundary_iff_not_is_continuation_byte, is_char_boundary_start_end_of_seq,
    length_of_first_scalar, pop_first_scalar, valid_utf8, valid_utf8_split,
};
use crate::spans::Span;

verus! {

/// A character of the text starts at the byte offset `index`, or the text
/// ends there.
#[verifier::opaque]
pub open spec fn boundary(bytes: Seq<u8>, index: int) -> bool {
    is_char_boundary(bytes, index)
}

/// The span lies inside the text and cuts no character in two.
pub open spec fn on_boundaries(bytes: Seq<u8>, span: Span) -> bool {
    &&& span.within(bytes.len())
    &&& boundary(bytes, span.start as int)
    &&& boundary(bytes, span.end as int)
}

/// Well-formed text starts and ends on a boundary.
pub proof fn lemma_boundary_ends(bytes: Seq<u8>)
    requires
        valid_utf8(bytes),
    ensures
        boundary(bytes, 0),
        boundary(bytes, bytes.len() as int),
{
    reveal(boundary);
    is_char_boundary_start_end_of_seq(bytes);
}

/// The characters that the bytes of the span encode.
pub open spec fn span_text(bytes: Seq<u8>, span: Span) -> Seq<char> {
    decode_utf8(bytes.subrange(span.start as int, span.end as int))
}

/// In well-formed text a character starts at every one-byte character and
/// right after it.
pub proof fn lemma_ascii_boundary(bytes: Seq<u8>, i: int)
    requires
        valid_utf8(bytes),
        0 <= i < bytes.len(),
        bytes[i] < 0x80,
    ensures
        boundary(bytes, i),
        boundary(bytes, i + 1),
{
    reveal(boundary);
    lemma_ascii_char_boundary(bytes, i);
}

proof fn lemma_ascii_char_boundary(bytes: Seq<u8>, i: int)
    requires
        valid_utf8(bytes),
        0 <= i < bytes.len(),
        bytes[i] < 0x80,
    ensures
        is_char_boundary(bytes, i),
        is_char_boundary(bytes, i + 1),
    decreases bytes.len(),
{
    let k = length_of_first_scalar(bytes);
    let rest = pop_first_scalar(bytes);
    assert(valid_utf8(rest));
    if i == 0 {
        assert(k == 1);
        assert(is_char_boundary(rest, 0));
    } else if i < k {
        assert(false);
    } else {
        assert(rest[i - k] == bytes[i]);
        lemma_ascii_char_boundary(rest, i - k);
    }
}

/// In well-formed text a character starts wherever the text ends or the byte
/// is no continuation byte.
pub proof fn lemma_boundary_at(bytes: Seq<u8>, i: int)
    requires
        valid_utf8(bytes),
        0 <= i <= bytes.len(),
        i < bytes.len() ==> !(0x80 <= bytes[i] < 0xc0),
    ensures
        boundary(bytes, i),
{
    reveal(boundary);
    if i < bytes.len() {
        is_char_boundary_iff_not_is_continuation_byte(bytes, i);
    } else {
        is_char_boundary_start_end_of_seq(bytes);
    }
}

/// Copies the characters of a span out of the text.
pub fn slice_text(text: &str, span: Span) -> (piece: String)
    requires
        on_boundaries(text.spec_bytes(), span),
    ensures
        piece@ == span_text(text.spec_bytes(), span),
{
    proof {
        broadcast use encode_utf8_valid_utf8;

        reveal(boundary);
        valid_utf8_split(text.spec_bytes(), span.end as int);
    }
    let (head, _) = text.split_at(span.end);
    proof {
        let bytes = text.spec_bytes();
        let front = bytes.subrange(0, span.end as int);
        assert(head.spec_bytes() == front);
        if (span.start as int) < front.len() {
            is_char_boundary_iff_not_is_continuation_byte(bytes, span.start as int);
            is_char_boundary_iff_not_is_continuation_byte(front, span.start as int);
        } else {
            is_char_boundary_start_end_of_seq(front);
        }
    }
    let (_, mid) = head.split_at(span.start);
    proof {
        encode_utf8_decode_utf8(mid@);
        assert(mid.spec_bytes() =~= text.spec_bytes().subrange(
            span.start as int,
            span.end as int,
        ));
    }
    mid.to_owned()
}

/// Whether two texts hold the same characters.
pub fn same_text(a: &str, b: &str) -> (same: bool)
    ensures
        same == (a@ == b@),
{
    let x = a.as_bytes();
    let y = b.as_bytes();
    proof {
        encode_utf8_decode_utf8(a@);
        encode_utf8_decode_utf8(b@);
    }
    if x.len() != y.len() {
        return false;
    }
    let mut i: usize = 0;
    while i < x.len()
        invariant
            i <= x@.len(),
            x@.len() == y@.len(),
            x@ == a.spec_bytes(),
            y@ == b.spec_bytes(),
            forall|j: int| 0 <= j < i ==> x@[j] == y@[j],
        decreases x@.len() - i,
    {
        if x[i] != y[i] {
            return false;
        }
        i += 1;
    }
    proof {
        assert(x@ =~= y@);
        encode_utf8_decode_utf8(a@);
        encode_utf8_decode_utf8(b@);
    }
    true
}

} // verus!
