//! The inline image of a short string: its bytes followed by padding, eight
//! bytes in all, which read as one word.
use vstd::prelude::*;
use crate::MAX_SSO_LEN;

verus! {

/// The number of bytes of an inline image: one 64-bit word.
pub const IMAGE_LEN: usize = 8;

/// The inline capacity is the size of a machine word: four or eight bytes.
pub proof fn lemma_max_sso_len()
    ensures
        MAX_SSO_LEN == 4 || MAX_SSO_LEN == 8,
        MAX_SSO_LEN <= IMAGE_LEN,
{
    assert(usize::BITS == 32 || usize::BITS == 64);
}

/// Byte used to fill the unused part of an inline word; it never occurs in UTF-8.
pub const PAD: u8 = 0xFF;

/// The inline image of `content`: its bytes followed by padding up to `IMAGE_LEN`.
pub open spec fn padded(content: Seq<u8>) -> Seq<u8> {
    content + Seq::new((IMAGE_LEN - content.len()) as nat, |_i: int| PAD)
}

/// `n` NUL bytes.
pub open spec fn is_nul_run(content: Seq<u8>, n: nat) -> bool {
    &&& content.len() == n
    &&& forall|i: int| 0 <= i < content.len() ==> content[i] == 0u8
}

/// `MAX_SSO_LEN` NUL bytes: the one short content whose machine word is zero.
pub open spec fn is_nul_block(content: Seq<u8>) -> bool {
    is_nul_run(content, MAX_SSO_LEN as nat)
}

/// Contents that an `ArcString` stores inline: at most a machine word of
/// bytes, whose word is not zero.
pub open spec fn fits_inline(content: Seq<u8>) -> bool {
    content.len() <= MAX_SSO_LEN && !is_nul_block(content)
}

/// Contents whose image reads as a nonzero 64-bit word.
pub open spec fn fits_word(content: Seq<u8>) -> bool {
    content.len() <= IMAGE_LEN && !is_nul_run(content, IMAGE_LEN as nat)
}

/// The number of padding bytes at the end of an inline image.
pub open spec fn padding_len(d: Seq<u8>) -> nat {
    if d[7] != PAD { 0 }
    else if d[6] != PAD { 1 }
    else if d[5] != PAD { 2 }
    else if d[4] != PAD { 3 }
    else if d[3] != PAD { 4 }
    else if d[2] != PAD { 5 }
    else if d[1] != PAD { 6 }
    else if d[0] != PAD { 7 }
    else { 8 }
}

/// The string bytes held by an inline image.
pub open spec fn inline_content(d: Seq<u8>) -> Seq<u8> {
    d.take(IMAGE_LEN - padding_len(d))
}

/// Padding short content and reading it back gives the content.
pub proof fn lemma_padded_content(c: Seq<u8>)
    requires
        c.len() <= IMAGE_LEN,
        c.len() > 0 ==> c.last() != PAD,
    ensures
        padded(c).len() == IMAGE_LEN,
        padding_len(padded(c)) == IMAGE_LEN - c.len(),
        inline_content(padded(c)) == c,
{
    let d = padded(c);
    assert(d.len() == 8);
    assert(forall|i: int| 0 <= i < c.len() ==> d[i] == c[i]);
    assert(forall|i: int| c.len() <= i < 8 ==> d[i] == PAD);
    assert(padding_len(d) == 8 - c.len());
    assert(inline_content(d) =~= c);
}

/// An image is its content followed by padding.
pub proof fn lemma_image_is_padded_content(d: Seq<u8>)
    requires
        d.len() == IMAGE_LEN,
    ensures
        d == padded(inline_content(d)),
{
    assert(d =~= padded(inline_content(d)));
}

} // verus!
