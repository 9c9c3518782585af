//! Facts about UTF-8 that the strings rely on.
use vstd::prelude::*;
use vstd::utf8::{valid_utf8, encode_utf8, is_char_boundary};
use vstd::string::StringSliceAdditionalSpecFns;
use std::string::String;
use crate::image::PAD;

verus! {

/// The bytes of a `String`.
pub open spec fn string_bytes(s: String) -> Seq<u8> {
    encode_utf8(s@)
}

/// The bytes of a `str`.
pub open spec fn str_bytes(s: &str) -> Seq<u8> {
    s.spec_bytes()
}

/// The last byte of valid UTF-8 is never the padding byte.
pub proof fn lemma_utf8_last_not_pad(c: Seq<u8>)
    requires
        valid_utf8(c),
        c.len() > 0,
    ensures
        c.last() != PAD,
{
    vstd::utf8::valid_utf8_last(c);
}

/// The bytes of a `str` are valid UTF-8.
pub proof fn lemma_str_valid(s: &str)
    ensures
        valid_utf8(s.spec_bytes()),
{
    vstd::utf8::encode_utf8_valid_utf8(s@);
}

/// Encoding a concatenation of characters concatenates their encodings.
pub proof fn lemma_encode_utf8_concat(a: Seq<char>, b: Seq<char>)
    ensures
        encode_utf8(a + b) == encode_utf8(a) + encode_utf8(b),
    decreases a.len(),
{
    if a.len() == 0 {
        assert(a + b =~= b);
        assert(encode_utf8(a) + encode_utf8(b) =~= encode_utf8(b));
    } else {
        lemma_encode_utf8_concat(a.drop_first(), b);
        assert((a + b).drop_first() =~= a.drop_first() + b);
        assert((a + b)[0] == a[0]);
        assert(encode_utf8(a + b) =~= encode_utf8(a) + encode_utf8(b));
    }
}

/// A character boundary lies within the bytes.
pub proof fn lemma_char_boundary_le_len(b: Seq<u8>, i: int)
    requires
        valid_utf8(b),
        is_char_boundary(b, i),
    ensures
        0 <= i <= b.len(),
    decreases b.len(),
{
    if i != 0 {
        lemma_char_boundary_le_len(
            vstd::utf8::pop_first_scalar(b),
            i - vstd::utf8::length_of_first_scalar(b),
        );
    }
}

/// A character boundary before `end` is one of the prefix ending at `end`.
pub proof fn lemma_char_boundary_prefix(b: Seq<u8>, end: int, i: int)
    requires
        valid_utf8(b),
        is_char_boundary(b, end),
        is_char_boundary(b, i),
        i <= end,
    ensures
        valid_utf8(b.subrange(0, end)),
        is_char_boundary(b.subrange(0, end), i),
{
    lemma_char_boundary_le_len(b, end);
    lemma_char_boundary_le_len(b, i);
    vstd::utf8::valid_utf8_split(b, end);
    let p = b.subrange(0, end);
    if 0 <= i < end {
        vstd::utf8::is_char_boundary_iff_not_is_continuation_byte(b, i);
        vstd::utf8::is_char_boundary_iff_not_is_continuation_byte(p, i);
    } else if i == end {
        vstd::utf8::is_char_boundary_start_end_of_seq(p);
    }
}

/// One character takes one to four bytes.
pub proof fn lemma_char_len(c: char)
    ensures
        1 <= encode_utf8(seq![c]).len() <= 4,
{
    let s = seq![c];
    assert(s.drop_first() =~= Seq::<char>::empty());
    assert(encode_utf8(s) == vstd::utf8::encode_scalar(c as u32) + encode_utf8(s.drop_first()));
}

} // verus!
