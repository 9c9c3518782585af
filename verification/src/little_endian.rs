//! The inline word read least significant byte first: the first byte of the
//! string is the lowest byte of the word, and the padding fills its high bytes.
//!
//! The tag lives in the three highest bits, that is in the last byte of the
//! string. UTF-8 never ends with a leading byte of a multi-byte character, so
//! the tag `110` is free to mark a reference counted buffer; `111` is padding.
use vstd::prelude::*;
use vstd::utf8::valid_utf8;
use vstd::string::StringSliceAdditionalSpecFns;
use crate::image::{IMAGE_LEN, PAD, padded, fits_word, is_nul_run, padding_len, inline_content};
use crate::image::lemma_padded_content;
use crate::utf8_facts::lemma_utf8_last_not_pad;
use crate::std_wrappers::str_from_utf8;

verus! {

pub const HIGH_BITS: u64 = 0xE000_0000_0000_0000;
pub const BOXED_TAG: u64 = 0xC000_0000_0000_0000;

/// The word of the empty string: nothing but padding.
pub const EMPTY: u64 = 0xFFFF_FFFF_FFFF_FFFF;

/// The little-endian value of an eight-byte image.
pub open spec fn word_of(d: Seq<u8>) -> u64 {
    ((d[7] as u64) << 56u64) | ((d[6] as u64) << 48u64) | ((d[5] as u64) << 40u64)
        | ((d[4] as u64) << 32u64) | ((d[3] as u64) << 24u64) | ((d[2] as u64) << 16u64)
        | ((d[1] as u64) << 8u64) | (d[0] as u64)
}

/// What `as_ptr` gives for a word.
pub open spec fn spec_as_ptr(w: u64) -> Option<u64> {
    if w & HIGH_BITS == BOXED_TAG {
        Some(w << 3u64)
    } else {
        None
    }
}

/// Reads the word held by an inline image.
pub fn word(data: &[u8; IMAGE_LEN]) -> (w: u64)
    ensures
        w == word_of(data@),
{
    ((data[7] as u64) << 56u64) | ((data[6] as u64) << 48u64) | ((data[5] as u64) << 40u64)
        | ((data[4] as u64) << 32u64) | ((data[3] as u64) << 24u64) | ((data[2] as u64) << 16u64)
        | ((data[1] as u64) << 8u64) | (data[0] as u64)
}

/// The image of short content has a nonzero word exactly when the content fits inline.
pub proof fn lemma_padded_word_nonzero(c: Seq<u8>)
    requires
        c.len() <= IMAGE_LEN,
    ensures
        word_of(padded(c)) != 0 <==> fits_word(c),
{
    let d = padded(c);
    let (b0, b1, b2, b3, b4, b5, b6, b7) = (d[0], d[1], d[2], d[3], d[4], d[5], d[6], d[7]);
    let w = word_of(d);
    assert(w == 0 <==> (b0 == 0 && b1 == 0 && b2 == 0 && b3 == 0 && b4 == 0 && b5 == 0 && b6 == 0 && b7 == 0))
        by (bit_vector)
        requires
            w == ((b7 as u64) << 56u64) | ((b6 as u64) << 48u64) | ((b5 as u64) << 40u64)
                | ((b4 as u64) << 32u64) | ((b3 as u64) << 24u64) | ((b2 as u64) << 16u64)
                | ((b1 as u64) << 8u64) | (b0 as u64),
    ;
    assert(forall|i: int| 0 <= i < c.len() ==> d[i] == c[i]);
    assert(forall|i: int| c.len() <= i < 8 ==> d[i] == PAD);
    if c.len() < 8 {
        assert(d[7] == PAD);
    } else if is_nul_run(c, IMAGE_LEN as nat) {
        assert(c[0] == 0u8 && c[1] == 0u8 && c[2] == 0u8 && c[3] == 0u8);
        assert(c[4] == 0u8 && c[5] == 0u8 && c[6] == 0u8 && c[7] == 0u8);
    } else {
        assert(b0 != 0 || b1 != 0 || b2 != 0 || b3 != 0 || b4 != 0 || b5 != 0 || b6 != 0 || b7 != 0);
    }
}

/// Counting the leading one bits of the word counts the padding bytes: each
/// padding byte gives eight ones, and the byte below the padding, not being a
/// padding byte, gives fewer than eight.
pub proof fn lemma_leading_ones_count_padding(d: Seq<u8>)
    requires
        d.len() == IMAGE_LEN,
    ensures
        vstd::std_specs::bits::u64_leading_ones(word_of(d)) / 8 == padding_len(d),
{
    let (b0, b1, b2, b3, b4, b5, b6, b7) = (d[0], d[1], d[2], d[3], d[4], d[5], d[6], d[7]);
    let w = word_of(d);
    vstd::std_specs::bits::axiom_u64_leading_ones(w);
    let t = vstd::std_specs::bits::u64_leading_ones(w) as u64;
    let s: u64 = (64 - t) as u64;
    let p: u64 = (63 - t) as u64;
    assert((!w) >> s == 0u64);
    assert(t < 64 ==> (w >> p) & 1u64 == 0u64);
    assert(
        (t >= 8u64 <==> b7 == 0xFFu8)
        && (t >= 16u64 <==> (b7 == 0xFFu8 && b6 == 0xFFu8))
        && (t >= 24u64 <==> (b7 == 0xFFu8 && b6 == 0xFFu8 && b5 == 0xFFu8))
        && (t >= 32u64 <==> (b7 == 0xFFu8 && b6 == 0xFFu8 && b5 == 0xFFu8 && b4 == 0xFFu8))
        && (t >= 40u64 <==> (b7 == 0xFFu8 && b6 == 0xFFu8 && b5 == 0xFFu8 && b4 == 0xFFu8 && b3 == 0xFFu8))
        && (t >= 48u64 <==> (b7 == 0xFFu8 && b6 == 0xFFu8 && b5 == 0xFFu8 && b4 == 0xFFu8 && b3 == 0xFFu8 && b2 == 0xFFu8))
        && (t >= 56u64 <==> (b7 == 0xFFu8 && b6 == 0xFFu8 && b5 == 0xFFu8 && b4 == 0xFFu8 && b3 == 0xFFu8 && b2 == 0xFFu8 && b1 == 0xFFu8))
        && (t >= 64u64 <==> (b7 == 0xFFu8 && b6 == 0xFFu8 && b5 == 0xFFu8 && b4 == 0xFFu8 && b3 == 0xFFu8 && b2 == 0xFFu8 && b1 == 0xFFu8 && b0 == 0xFFu8))
    ) by (bit_vector)
        requires
            w == ((b7 as u64) << 56u64) | ((b6 as u64) << 48u64) | ((b5 as u64) << 40u64)
                | ((b4 as u64) << 32u64) | ((b3 as u64) << 24u64) | ((b2 as u64) << 16u64)
                | ((b1 as u64) << 8u64) | (b0 as u64),
            t <= 64u64,
            s + t == 64u64,
            p + t == 63u64 || t == 64u64,
            (!w) >> s == 0u64,
            t < 64u64 ==> (w >> p) & 1u64 == 0u64,
    ;
}

/// Encodes `s` as an inline image when it fits: its bytes followed by padding,
/// provided the word they make is nonzero.
pub fn try_encode_sso(s: &str) -> (r: Option<[u8; IMAGE_LEN]>)
    ensures
        r is Some <==> fits_word(s.spec_bytes()),
        r matches Some(d) ==> d@ == padded(s.spec_bytes()) && word_of(d@) != 0,
{
    let bytes = s.as_bytes();
    if bytes.len() > IMAGE_LEN {
        return None;
    }
    let mut data: [u8; IMAGE_LEN] = [0xFFu8; 8];
    let mut i: usize = 0;
    while i < bytes.len()
        invariant
            bytes@ == s.spec_bytes(),
            bytes@.len() <= IMAGE_LEN,
            0 <= i <= bytes@.len(),
            forall|j: int| 0 <= j < i ==> data@[j] == bytes@[j],
            forall|j: int| i <= j < IMAGE_LEN ==> data@[j] == PAD,
        decreases bytes@.len() - i,
    {
        data[i] = bytes[i];
        i = i + 1;
    }
    proof {
        assert(data@ =~= padded(bytes@));
        lemma_padded_word_nonzero(bytes@);
    }
    let w = word(&data);
    if w == 0 {
        None
    } else {
        Some(data)
    }
}

/// Reads the string held by an inline image. Its length is the word size less
/// the padding, counted as the leading one bits of the word divided by eight.
pub fn decode(data: &[u8; IMAGE_LEN]) -> (r: &str)
    requires
        valid_utf8(inline_content(data@)),
    ensures
        r.spec_bytes() == inline_content(data@),
{
    let w = word(data);
    let ones = w.leading_ones();
    proof {
        lemma_leading_ones_count_padding(data@);
    }
    let len = IMAGE_LEN - (ones / 8) as usize;
    let bytes = vstd::slice::slice_subrange(data.as_slice(), 0, len);
    assert(bytes@ =~= inline_content(data@));
    match str_from_utf8(bytes) {
        Some(s) => s,
        None => {
            assert(false);
            ""
        },
    }
}

/// Tags the address of a reference counted header. The address is a multiple
/// of eight below 2^61, so shifting out its three low bits loses nothing.
pub fn encode_ptr(ptr: u64) -> (r: u64)
    requires
        ptr & 7u64 == 0,
        ptr >> 61u64 == 0,
    ensures
        r == (ptr >> 3u64) | BOXED_TAG,
        r != 0,
        spec_as_ptr(r) == Some(ptr),
{
    let r = (ptr >> 3u64) | BOXED_TAG;
    assert(r != 0 && r & HIGH_BITS == BOXED_TAG && r << 3u64 == ptr) by (bit_vector)
        requires
            ptr & 7u64 == 0,
            ptr >> 61u64 == 0,
            r == (ptr >> 3u64) | 0xC000_0000_0000_0000u64,
    ;
    r
}

/// The address of the reference counted header that a word refers to, if it
/// refers to one.
pub fn as_ptr(val: u64) -> (r: Option<u64>)
    ensures
        r == spec_as_ptr(val),
{
    if val & HIGH_BITS == BOXED_TAG {
        Some(val << 3u64)
    } else {
        None
    }
}

/// The word of the empty string is `EMPTY`.
pub proof fn law_empty_word()
    ensures
        word_of(padded(Seq::<u8>::empty())) == EMPTY,
{
    let d = padded(Seq::<u8>::empty());
    assert(d[0] == PAD && d[1] == PAD && d[2] == PAD && d[3] == PAD);
    assert(d[4] == PAD && d[5] == PAD && d[6] == PAD && d[7] == PAD);
    let w = word_of(d);
    assert(w == 0xFFFF_FFFF_FFFF_FFFFu64) by (bit_vector)
        requires
            w == ((0xFFu8 as u64) << 56u64) | ((0xFFu8 as u64) << 48u64) | ((0xFFu8 as u64) << 40u64)
                | ((0xFFu8 as u64) << 32u64) | ((0xFFu8 as u64) << 24u64) | ((0xFFu8 as u64) << 16u64)
                | ((0xFFu8 as u64) << 8u64) | (0xFFu8 as u64),
    ;
}

/// Decoding inverts encoding: the image of a UTF-8 string that fits inline has
/// a nonzero word, the leading ones of that word count its padding, and the
/// bytes before the padding are the string.
pub proof fn law_decode_inverts_encode(c: Seq<u8>)
    requires
        valid_utf8(c),
        fits_word(c),
    ensures
        word_of(padded(c)) != 0,
        vstd::std_specs::bits::u64_leading_ones(word_of(padded(c))) / 8 == IMAGE_LEN - c.len(),
        inline_content(padded(c)) == c,
{
    if c.len() > 0 {
        lemma_utf8_last_not_pad(c);
    }
    lemma_padded_content(c);
    lemma_padded_word_nonzero(c);
    lemma_leading_ones_count_padding(padded(c));
}

/// The word of an inline UTF-8 string never carries the buffer tag: its
/// highest byte is the last byte of the string, which is ASCII or a
/// continuation byte, or padding.
pub proof fn law_inline_word_is_not_boxed(c: Seq<u8>)
    requires
        valid_utf8(c),
        c.len() <= IMAGE_LEN,
    ensures
        spec_as_ptr(word_of(padded(c))) is None,
{
    let d = padded(c);
    let (b0, b1, b2, b3, b4, b5, b6, b7) = (d[0], d[1], d[2], d[3], d[4], d[5], d[6], d[7]);
    let w = word_of(d);
    if c.len() == 8 {
        vstd::utf8::valid_utf8_last(c);
        assert(d[7] == c.last());
    } else {
        assert(d[7] == PAD);
    }
    assert(b7 < 0xC0u8 || b7 == 0xFFu8);
    assert(w & 0xE000_0000_0000_0000u64 != 0xC000_0000_0000_0000u64) by (bit_vector)
        requires
            w == ((b7 as u64) << 56u64) | ((b6 as u64) << 48u64) | ((b5 as u64) << 40u64)
                | ((b4 as u64) << 32u64) | ((b3 as u64) << 24u64) | ((b2 as u64) << 16u64)
                | ((b1 as u64) << 8u64) | (b0 as u64),
            b7 < 0xC0u8 || b7 == 0xFFu8,
    ;
}

} // verus!
