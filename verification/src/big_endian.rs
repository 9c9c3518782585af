//! The inline word read most significant byte first: the first byte of the
//! string is the highest byte of the word, and the padding fills its low bytes.
//!
//! The tag lives in the three highest bits, that is in the first byte of the
//! string. The first byte of UTF-8 is never a continuation byte `10xxxxxx`, so
//! a word whose tag is `100` or `101` is a header word: `100` for a reference
//! counted buffer, `101` for a literal. Any other word is an inline string.
use vstd::prelude::*;
use vstd::utf8::valid_utf8;
use vstd::string::StringSliceAdditionalSpecFns;
use crate::image::{IMAGE_LEN, PAD, padded, fits_word, is_nul_run, padding_len, inline_content};
use crate::image::lemma_padded_content;
use crate::utf8_facts::lemma_utf8_last_not_pad;
use crate::std_wrappers::str_from_utf8;

verus! {

pub const TAG_POS: u64 = 61;
pub const TAG_BITS: u64 = 0xE000_0000_0000_0000;
pub const BOXED_TAG: u64 = 0x8000_0000_0000_0000;
pub const LITERAL_TAG: u64 = 0xA000_0000_0000_0000;
pub const HEADER_BITS: u64 = 0xC000_0000_0000_0000;
pub const HEADER_TAG: u64 = 0x8000_0000_0000_0000;

/// The word of the empty string: nothing but padding.
pub const EMPTY: u64 = 0xFFFF_FFFF_FFFF_FFFF;

/// The big-endian value of an eight-byte image.
pub open spec fn word_of(d: Seq<u8>) -> u64 {
    ((d[0] as u64) << 56u64) | ((d[1] as u64) << 48u64) | ((d[2] as u64) << 40u64)
        | ((d[3] as u64) << 32u64) | ((d[4] as u64) << 24u64) | ((d[5] as u64) << 16u64)
        | ((d[6] as u64) << 8u64) | (d[7] as u64)
}

/// A word that refers to a header (a buffer or a literal) rather than holding a string.
pub open spec fn is_header_word(w: u64) -> bool {
    w & HEADER_BITS == HEADER_TAG
}

/// Rotation of a word to the left by `TAG_POS` bits.
pub open spec fn rotate_left_tag(w: u64) -> u64 {
    (w << 61u64) | (w >> 3u64)
}

/// Rotation of a word to the right by `TAG_POS` bits.
pub open spec fn rotate_right_tag(w: u64) -> u64 {
    (w >> 61u64) | (w << 3u64)
}

/// What `as_ptr` gives for a word.
pub open spec fn spec_as_ptr(w: u64) -> Option<u64> {
    if w & TAG_BITS == BOXED_TAG {
        Some(rotate_right_tag(w) & !7u64)
    } else {
        None
    }
}

/// Reads the word held by an inline image.
pub fn word(data: &[u8; IMAGE_LEN]) -> (w: u64)
    ensures
        w == word_of(data@),
{
    ((data[0] as u64) << 56u64) | ((data[1] as u64) << 48u64) | ((data[2] as u64) << 40u64)
        | ((data[3] as u64) << 32u64) | ((data[4] as u64) << 24u64) | ((data[5] as u64) << 16u64)
        | ((data[6] as u64) << 8u64) | (data[7] as u64)
}

/// The word is zero exactly when every byte is.
pub proof fn lemma_word_zero(d: Seq<u8>)
    requires
        d.len() == IMAGE_LEN,
    ensures
        word_of(d) == 0 <==> (forall|i: int| 0 <= i < 8 ==> d[i] == 0u8),
{
    let (b0, b1, b2, b3, b4, b5, b6, b7) = (d[0], d[1], d[2], d[3], d[4], d[5], d[6], d[7]);
    let w = word_of(d);
    assert(w == 0 <==> (b0 == 0 && b1 == 0 && b2 == 0 && b3 == 0 && b4 == 0 && b5 == 0 && b6 == 0 && b7 == 0))
        by (bit_vector)
        requires
            w == ((b0 as u64) << 56u64) | ((b1 as u64) << 48u64) | ((b2 as u64) << 40u64)
                | ((b3 as u64) << 32u64) | ((b4 as u64) << 24u64) | ((b5 as u64) << 16u64)
                | ((b6 as u64) << 8u64) | (b7 as u64),
    ;
    if w != 0 {
        assert(!(forall|i: int| 0 <= i < 8 ==> d[i] == 0u8)) by {
            if forall|i: int| 0 <= i < 8 ==> d[i] == 0u8 {
                assert(d[0] == 0u8 && d[1] == 0u8 && d[2] == 0u8 && d[3] == 0u8);
                assert(d[4] == 0u8 && d[5] == 0u8 && d[6] == 0u8 && d[7] == 0u8);
            }
        }
    }
}

/// Two images hold the same word exactly when they hold the same bytes.
pub proof fn lemma_word_injective(a: Seq<u8>, b: Seq<u8>)
    requires
        a.len() == IMAGE_LEN,
        b.len() == IMAGE_LEN,
    ensures
        word_of(a) == word_of(b) <==> a == b,
{
    let (a0, a1, a2, a3, a4, a5, a6, a7) = (a[0], a[1], a[2], a[3], a[4], a[5], a[6], a[7]);
    let (b0, b1, b2, b3, b4, b5, b6, b7) = (b[0], b[1], b[2], b[3], b[4], b[5], b[6], b[7]);
    let wa = word_of(a);
    let wb = word_of(b);
    assert(wa == wb <==> (a0 == b0 && a1 == b1 && a2 == b2 && a3 == b3 && a4 == b4 && a5 == b5
        && a6 == b6 && a7 == b7)) by (bit_vector)
        requires
            wa == ((a0 as u64) << 56u64) | ((a1 as u64) << 48u64) | ((a2 as u64) << 40u64)
                | ((a3 as u64) << 32u64) | ((a4 as u64) << 24u64) | ((a5 as u64) << 16u64)
                | ((a6 as u64) << 8u64) | (a7 as u64),
            wb == ((b0 as u64) << 56u64) | ((b1 as u64) << 48u64) | ((b2 as u64) << 40u64)
                | ((b3 as u64) << 32u64) | ((b4 as u64) << 24u64) | ((b5 as u64) << 16u64)
                | ((b6 as u64) << 8u64) | (b7 as u64),
    ;
    if wa == wb {
        assert(a =~= b);
    }
}

/// The image of short content has a nonzero word exactly when the content fits inline.
pub proof fn lemma_padded_word_nonzero(c: Seq<u8>)
    requires
        c.len() <= IMAGE_LEN,
    ensures
        word_of(padded(c)) != 0 <==> fits_word(c),
{
    let d = padded(c);
    lemma_word_zero(d);
    assert(forall|i: int| 0 <= i < c.len() ==> d[i] == c[i]);
    assert(forall|i: int| c.len() <= i < 8 ==> d[i] == PAD);
    if c.len() < 8 {
        assert(d[7] == PAD);
    } else {
        assert((forall|i: int| 0 <= i < 8 ==> d[i] == 0u8) <==> is_nul_run(c, IMAGE_LEN as nat));
    }
}

/// Counting the trailing one bits of the word counts the padding bytes: each
/// padding byte gives eight ones, and the byte before the padding, not being a
/// padding byte, gives fewer than eight.
pub proof fn lemma_trailing_ones_count_padding(d: Seq<u8>)
    requires
        d.len() == IMAGE_LEN,
    ensures
        vstd::std_specs::bits::u64_trailing_ones(word_of(d)) / 8 == padding_len(d),
{
    let (b0, b1, b2, b3, b4, b5, b6, b7) = (d[0], d[1], d[2], d[3], d[4], d[5], d[6], d[7]);
    let w = word_of(d);
    vstd::std_specs::bits::axiom_u64_trailing_ones(w);
    let t = vstd::std_specs::bits::u64_trailing_ones(w) as u64;
    let s: u64 = (64 - t) as u64;
    assert((!w) << s == 0u64);
    assert(
        (t >= 8u64 <==> b7 == 0xFFu8)
        && (t >= 16u64 <==> (b7 == 0xFFu8 && b6 == 0xFFu8))
        && (t >= 24u64 <==> (b7 == 0xFFu8 && b6 == 0xFFu8 && b5 == 0xFFu8))
        && (t >= 32u64 <==> (b7 == 0xFFu8 && b6 == 0xFFu8 && b5 == 0xFFu8 && b4 == 0xFFu8))
        && (t >= 40u64 <==> (b7 == 0xFFu8 && b6 == 0xFFu8 && b5 == 0xFFu8 && b4 == 0xFFu8 && b3 == 0xFFu8))
        && (t >= 48u64 <==> (b7 == 0xFFu8 && b6 == 0xFFu8 && b5 == 0xFFu8 && b4 == 0xFFu8 && b3 == 0xFFu8 && b2 == 0xFFu8))
        && (t >= 56u64 <==> (b7 == 0xFFu8 && b6 == 0xFFu8 && b5 == 0xFFu8 && b4 == 0xFFu8 && b3 == 0xFFu8 && b2 == 0xFFu8 && b1 == 0xFFu8))
        && (t >= 64u64 <==> (b7 == 0xFFu8 && b6 == 0xFFu8 && b5 == 0xFFu8 && b4 == 0xFFu8 && b3 == 0xFFu8 && b2 == 0xFFu8 && b1 == 0xFFu8 && b0 == 0xFFu8))
    ) by (bit_vector)
        requires
            w == ((b0 as u64) << 56u64) | ((b1 as u64) << 48u64) | ((b2 as u64) << 40u64)
                | ((b3 as u64) << 32u64) | ((b4 as u64) << 24u64) | ((b5 as u64) << 16u64)
                | ((b6 as u64) << 8u64) | (b7 as u64),
            t <= 64u64,
            s + t == 64u64,
            (!w) << s == 0u64,
            t < 64u64 ==> (w >> t) & 1u64 == 0u64,
    ;
}

/// Encodes `s` as an inline image when it fits: its bytes followed by padding,
/// provided the word they make is nonzero (all `IMAGE_LEN` bytes NUL is the
/// one short string whose word is zero).
pub fn try_encode_sso(s: &str) -> (r: Option<[u8; IMAGE_LEN]>)
    ensures
        r is Some <==> fits_word(s.spec_bytes()),
        r matches Some(d) ==> d@ == padded(s.spec_bytes()) && word_of(d@) != 0,
{
    let bytes = s.as_bytes();
    if bytes.len() > IMAGE_LEN {
        return None;
    }
    let mut data: [u8; IMAGE_LEN] = [0xFFu8; 8];
    let mut i: usize = 0;
    while i < bytes.len()
        invariant
            bytes@ == s.spec_bytes(),
            bytes@.len() <= IMAGE_LEN,
            0 <= i <= bytes@.len(),
            forall|j: int| 0 <= j < i ==> data@[j] == bytes@[j],
            forall|j: int| i <= j < IMAGE_LEN ==> data@[j] == PAD,
        decreases bytes@.len() - i,
    {
        data[i] = bytes[i];
        i = i + 1;
    }
    proof {
        assert(data@ =~= padded(bytes@));
        lemma_padded_word_nonzero(bytes@);
    }
    let w = word(&data);
    if w == 0 {
        None
    } else {
        Some(data)
    }
}

/// Reads the string held by an inline image. Its length is the word size less
/// the padding, counted as the trailing one bits of the word divided by eight.
pub fn decode(data: &[u8; IMAGE_LEN]) -> (r: &str)
    requires
        valid_utf8(inline_content(data@)),
    ensures
        r.spec_bytes() == inline_content(data@),
{
    let w = word(data);
    let ones = w.trailing_ones();
    proof {
        lemma_trailing_ones_count_padding(data@);
    }
    let len = IMAGE_LEN - (ones / 8) as usize;
    let bytes = vstd::slice::slice_subrange(data.as_slice(), 0, len);
    assert(bytes@ =~= inline_content(data@));
    match str_from_utf8(bytes) {
        Some(s) => s,
        None => {
            assert(false);
            ""
        },
    }
}

/// Tags the address of a reference counted header: the rotation moves the
/// three always-zero low bits of the address under the tag.
pub fn encode_ptr(ptr: u64) -> (r: u64)
    requires
        ptr & 7u64 == 0,
    ensures
        r == rotate_left_tag(ptr) | BOXED_TAG,
        r != 0,
        spec_as_ptr(r) == Some(ptr),
        is_header_word(r),
{
    let r = ((ptr << 61u64) | (ptr >> 3u64)) | BOXED_TAG;
    assert(r != 0 && r & TAG_BITS == BOXED_TAG && (((r >> 61u64) | (r << 3u64)) & !7u64) == ptr
        && r & HEADER_BITS == HEADER_TAG) by (bit_vector)
        requires
            ptr & 7u64 == 0,
            r == ((ptr << 61u64) | (ptr >> 3u64)) | 0x8000_0000_0000_0000u64,
    ;
    r
}

/// Tags the address of a literal's header: a header word, but not one that
/// `as_ptr` reports, so literals are never reference counted.
pub fn encode_literal(ptr: u64) -> (r: u64)
    requires
        ptr & 7u64 == 0,
    ensures
        r == rotate_left_tag(ptr) | LITERAL_TAG,
        r != 0,
        spec_as_ptr(r) is None,
        is_header_word(r),
        rotate_right_tag(r) & !7u64 == ptr,
{
    let r = ((ptr << 61u64) | (ptr >> 3u64)) | LITERAL_TAG;
    assert(r != 0 && r & TAG_BITS != BOXED_TAG && (((r >> 61u64) | (r << 3u64)) & !7u64) == ptr
        && r & HEADER_BITS == HEADER_TAG) by (bit_vector)
        requires
            ptr & 7u64 == 0,
            r == ((ptr << 61u64) | (ptr >> 3u64)) | 0xA000_0000_0000_0000u64,
    ;
    r
}

/// The header address carried by a header word.
pub fn decode_ptr(val: u64) -> (r: u64)
    ensures
        r == rotate_right_tag(val) & !7u64,
{
    ((val >> 61u64) | (val << 3u64)) & !7u64
}

/// The address of the reference counted header that a word refers to, if it
/// refers to one.
pub fn as_ptr(val: u64) -> (r: Option<u64>)
    ensures
        r == spec_as_ptr(val),
{
    if val & TAG_BITS == BOXED_TAG {
        Some(decode_ptr(val))
    } else {
        None
    }
}

/// The header address of the literal that a word refers to, if it refers to
/// one.
pub fn as_static(val: u64) -> (r: Option<u64>)
    ensures
        r is Some <==> val & TAG_BITS == LITERAL_TAG,
        r matches Some(p) ==> p == rotate_right_tag(val) & !7u64,
{
    if val & TAG_BITS == LITERAL_TAG {
        Some(decode_ptr(val))
    } else {
        None
    }
}

/// The word of the empty string is `EMPTY`.
pub proof fn law_empty_word()
    ensures
        word_of(padded(Seq::<u8>::empty())) == EMPTY,
{
    let d = padded(Seq::<u8>::empty());
    assert(d[0] == PAD && d[1] == PAD && d[2] == PAD && d[3] == PAD);
    assert(d[4] == PAD && d[5] == PAD && d[6] == PAD && d[7] == PAD);
    let w = word_of(d);
    assert(w == 0xFFFF_FFFF_FFFF_FFFFu64) by (bit_vector)
        requires
            w == ((0xFFu8 as u64) << 56u64) | ((0xFFu8 as u64) << 48u64) | ((0xFFu8 as u64) << 40u64)
                | ((0xFFu8 as u64) << 32u64) | ((0xFFu8 as u64) << 24u64) | ((0xFFu8 as u64) << 16u64)
                | ((0xFFu8 as u64) << 8u64) | (0xFFu8 as u64),
    ;
}

/// Decoding inverts encoding: the image of a UTF-8 string that fits inline has
/// a nonzero word, the trailing ones of that word count its padding, and the
/// bytes before the padding are the string.
pub proof fn law_decode_inverts_encode(c: Seq<u8>)
    requires
        valid_utf8(c),
        fits_word(c),
    ensures
        word_of(padded(c)) != 0,
        vstd::std_specs::bits::u64_trailing_ones(word_of(padded(c))) / 8 == IMAGE_LEN - c.len(),
        inline_content(padded(c)) == c,
{
    if c.len() > 0 {
        lemma_utf8_last_not_pad(c);
    }
    lemma_padded_content(c);
    lemma_padded_word_nonzero(c);
    lemma_trailing_ones_count_padding(padded(c));
}

/// The word of an inline UTF-8 string is never a header word, so it refers
/// neither to a buffer nor to a literal: its highest byte
/// is the first byte of the string, which is not a continuation byte, or
/// padding.
pub proof fn law_inline_word_is_not_header(c: Seq<u8>)
    requires
        valid_utf8(c),
        c.len() <= IMAGE_LEN,
    ensures
        !is_header_word(word_of(padded(c))),
        spec_as_ptr(word_of(padded(c))) is None,
        word_of(padded(c)) & TAG_BITS != LITERAL_TAG,
{
    let d = padded(c);
    let (b0, b1, b2, b3, b4, b5, b6, b7) = (d[0], d[1], d[2], d[3], d[4], d[5], d[6], d[7]);
    let w = word_of(d);
    if c.len() > 0 {
        assert(d[0] == c[0]);
        assert(!(0x80 <= c[0] <= 0xbf));
    } else {
        assert(d[0] == PAD);
    }
    assert(w & 0xC000_0000_0000_0000u64 != 0x8000_0000_0000_0000u64
        && w & 0xE000_0000_0000_0000u64 != 0x8000_0000_0000_0000u64
        && w & 0xE000_0000_0000_0000u64 != 0xA000_0000_0000_0000u64) by (bit_vector)
        requires
            w == ((b0 as u64) << 56u64) | ((b1 as u64) << 48u64) | ((b2 as u64) << 40u64)
                | ((b3 as u64) << 32u64) | ((b4 as u64) << 24u64) | ((b5 as u64) << 16u64)
                | ((b6 as u64) << 8u64) | (b7 as u64),
            !(0x80u8 <= b0 <= 0xbfu8),
    ;
}

} // verus!
