//! Strings that are stored inline in one machine word when they are short, and
//! otherwise in a reference-counted heap buffer or a `'static` literal.
use vstd::prelude::*;
use vstd::utf8::{valid_utf8, encode_utf8, decode_utf8, is_char_boundary};
use vstd::string::StringSliceAdditionalSpecFns;
use std::sync::Arc;
use std::string::String;
use crate::big_endian as encoder;
use crate::std_wrappers::{clone_shared, char_to_string, hash_str, try_unwrap_shared, write_quoted};
use crate::builder::{concat_bytes, growth_limit};
use crate::image::{IMAGE_LEN, fits_inline, inline_content, padded, padding_len, is_nul_block};
use crate::image::lemma_max_sso_len;
use crate::image::{lemma_padded_content, lemma_image_is_padded_content};
use crate::utf8_facts::{string_bytes, str_bytes, lemma_str_valid, lemma_utf8_last_not_pad};
use crate::utf8_facts::{lemma_char_boundary_le_len, lemma_char_boundary_prefix};

pub mod image;
pub mod utf8_facts;
pub mod big_endian;
pub mod little_endian;
mod std_wrappers;
pub mod builder;

pub use builder::ArcStringBuilder;

verus! {

/// The number of bytes that fit inline: the size of a machine word.
pub const MAX_SSO_LEN: usize = (usize::BITS / 8) as usize;


/// Two inline images hold the same string exactly when they hold the same
/// word, so comparing words decides equality of inline strings.
pub proof fn law_inline_eq_is_word_eq(a: Seq<u8>, b: Seq<u8>)
    requires
        a.len() == IMAGE_LEN,
        b.len() == IMAGE_LEN,
    ensures
        (encoder::word_of(a) == encoder::word_of(b)) == (inline_content(a) == inline_content(b)),
{
    encoder::lemma_word_injective(a, b);
    lemma_image_is_padded_content(a);
    lemma_image_is_padded_content(b);
}

/// A call of `<str as Hash>::hash` on `t` that takes the hasher through `r`.
pub closed spec fn str_hash_call<H: core::hash::Hasher>(t: &str, r: &mut H) -> bool {
    call_ensures(hash_str::<H>, (t, r), ())
}

/// A call of the quoted write (`write!(f, "\"{}\"", t)`) on `t` that takes the
/// formatter through `r` and returns `res`.
pub closed spec fn quoted_write_call(t: &str, r: &mut core::fmt::Formatter<'_>, res: core::fmt::Result) -> bool {
    call_ensures(write_quoted, (t, r), res)
}

/// Whether `bytes` are `MAX_SSO_LEN` NUL bytes.
fn is_nul_block_exec(bytes: &[u8]) -> (r: bool)
    ensures
        r == is_nul_block(bytes@),
{
    if bytes.len() != MAX_SSO_LEN {
        return false;
    }
    let mut i: usize = 0;
    while i < bytes.len()
        invariant
            bytes@.len() == MAX_SSO_LEN,
            0 <= i <= bytes@.len(),
            forall|j: int| 0 <= j < i ==> bytes@[j] == 0u8,
        decreases bytes@.len() - i,
    {
        if bytes[i] != 0 {
            return false;
        }
        i = i + 1;
    }
    true
}

/// The inline image of `s`, if `s` fits inline. The image is encoded as a
/// 64-bit word; where a machine word is narrower, the string must also fit in
/// a machine word, and a machine word of NUL bytes, which would read as zero,
/// is not inline either.
pub(crate) fn encode_inline(s: &str) -> (r: Option<[u8; IMAGE_LEN]>)
    ensures
        r is Some <==> fits_inline(s.spec_bytes()),
        r matches Some(d) ==> d@ == padded(s.spec_bytes()),
{
    proof {
        lemma_max_sso_len();
    }
    let bytes = s.as_bytes();
    if bytes.len() > MAX_SSO_LEN {
        return None;
    }
    match encoder::try_encode_sso(s) {
        Some(d) => {
            if MAX_SSO_LEN < IMAGE_LEN && is_nul_block_exec(bytes) {
                None
            } else {
                Some(d)
            }
        },
        None => None,
    }
}

/// Whether two byte strings are equal.
fn bytes_eq(a: &[u8], b: &[u8]) -> (r: bool)
    ensures
        r == (a@ == b@),
{
    if a.len() != b.len() {
        return false;
    }
    let mut i: usize = 0;
    while i < a.len()
        invariant
            a@.len() == b@.len(),
            0 <= i <= a@.len(),
            forall|j: int| 0 <= j < i ==> a@[j] == b@[j],
        decreases a@.len() - i,
    {
        if a[i] != b[i] {
            return false;
        }
        i = i + 1;
    }
    assert(a@ =~= b@);
    true
}

/// The bytes of two parts are those of the first followed by those of the second.
pub proof fn lemma_concat_two(parts: Seq<&str>)
    requires
        parts.len() == 2,
    ensures
        concat_bytes(parts) == parts[0].spec_bytes() + parts[1].spec_bytes(),
{
    let first = parts.drop_last();
    assert(first.drop_last() =~= Seq::<&str>::empty());
    assert(first.last() == parts[0]);
    assert(concat_bytes(first.drop_last()) == Seq::<u8>::empty());
    assert(concat_bytes(first) == concat_bytes(first.drop_last()) + first.last().spec_bytes());
    assert(concat_bytes(first) =~= parts[0].spec_bytes());
}

/// An immutable UTF-8 string. Strings of up to `MAX_SSO_LEN` bytes are held
/// inline in one word; longer ones share a reference counted buffer, or refer
/// to a `'static` literal.
pub struct ArcString {
    repr: Repr,
}

enum Repr {
    /// The inline image: the bytes followed by padding.
    Inline([u8; IMAGE_LEN]),
    /// A reference counted buffer.
    Boxed(Arc<String>),
    /// A string that lives for the rest of the program and is never freed.
    Literal(&'static str),
}

impl View for ArcString {
    type V = Seq<u8>;

    closed spec fn view(&self) -> Seq<u8> {
        match self.repr {
            Repr::Inline(d) => inline_content(d@),
            Repr::Boxed(b) => encode_utf8(b@),
            Repr::Literal(s) => s.spec_bytes(),
        }
    }
}

impl ArcString {
    /// Every string is valid UTF-8, and a string is inline exactly when its
    /// bytes fit in the word.
    #[verifier::type_invariant]
    closed spec fn inv(&self) -> bool {
        match self.repr {
            Repr::Inline(d) => valid_utf8(inline_content(d@)) && fits_inline(inline_content(d@)),
            Repr::Boxed(b) => !fits_inline(encode_utf8(b@)),
            Repr::Literal(s) => !fits_inline(s.spec_bytes()),
        }
    }

    /// The string refers to a literal.
    pub closed spec fn is_literal(&self) -> bool {
        self.repr is Literal
    }

    /// The string held by an inline image.
    pub(crate) fn from_image(d: [u8; IMAGE_LEN]) -> (r: Self)
        requires
            valid_utf8(inline_content(d@)),
            fits_inline(inline_content(d@)),
        ensures
            r@ == inline_content(d@),
            !r.is_literal(),
    {
        ArcString { repr: Repr::Inline(d) }
    }

    /// A string that shares `s` as its reference counted buffer.
    pub(crate) fn from_shared(s: String) -> (r: Self)
        requires
            !fits_inline(string_bytes(s)),
        ensures
            r@ == string_bytes(s),
            !r.is_literal(),
    {
        ArcString { repr: Repr::Boxed(Arc::new(s)) }
    }

    /// A string that refers to `s` for good.
    pub(crate) fn from_literal(s: &'static str) -> (r: Self)
        requires
            !fits_inline(s.spec_bytes()),
        ensures
            r@ == s.spec_bytes(),
            r.is_literal(),
    {
        ArcString { repr: Repr::Literal(s) }
    }

    /// The shared buffer itself when this is its only reference; the string
    /// unchanged otherwise.
    pub(crate) fn try_take_boxed_data(self) -> (r: Result<String, ArcString>)
        ensures
            match r {
                Ok(s) => string_bytes(s) == self@,
                Err(a) => a@ == self@,
            },
    {
        proof {
            use_type_invariant(&self);
        }
        match self.repr {
            Repr::Boxed(b) => {
                match try_unwrap_shared(b) {
                    Ok(s) => Ok(s),
                    Err(b) => Err(ArcString { repr: Repr::Boxed(b) }),
                }
            },
            repr => Err(ArcString { repr }),
        }
    }

    /// The empty string.
    pub fn empty() -> (r: Self)
        ensures
            r@ == Seq::<u8>::empty(),
            !r.is_literal(),
    {
        let d: [u8; IMAGE_LEN] = [0xFFu8; 8];
        proof {
            assert(padding_len(d@) == 8);
            assert(inline_content(d@) =~= Seq::<u8>::empty());
        }
        ArcString { repr: Repr::Inline(d) }
    }

    /// The string `s` stored inline, if it fits.
    pub fn try_new_sso(s: &str) -> (r: Option<Self>)
        ensures
            r is Some <==> fits_inline(s.spec_bytes()),
            r matches Some(a) ==> a@ == s.spec_bytes() && !a.is_literal(),
    {
        match encode_inline(s) {
            Some(d) => {
                proof {
                    let c = s.spec_bytes();
                    lemma_str_valid(s);
                    if c.len() > 0 {
                        lemma_utf8_last_not_pad(c);
                    }
                    lemma_padded_content(c);
                }
                Some(ArcString { repr: Repr::Inline(d) })
            },
            None => None,
        }
    }

    /// Whether `s` would be stored inline.
    pub fn can_be_sso(s: &str) -> (r: bool)
        ensures
            r == fits_inline(s.spec_bytes()),
    {
        encode_inline(s).is_some()
    }

    /// The string.
    pub fn as_str(&self) -> (r: &str)
        ensures
            r.spec_bytes() == self@,
    {
        proof {
            use_type_invariant(self);
        }
        match &self.repr {
            Repr::Inline(d) => encoder::decode(d),
            Repr::Boxed(b) => b.as_str(),
            Repr::Literal(s) => *s,
        }
    }

    /// Whether the string lives in a reference counted buffer: exactly when it
    /// does not fit inline and is not a literal.
    pub fn is_boxed(&self) -> (r: bool)
        ensures
            r == (!fits_inline(self@) && !self.is_literal()),
    {
        proof {
            use_type_invariant(self);
        }
        match &self.repr {
            Repr::Boxed(_) => true,
            _ => false,
        }
    }

    /// Whether the string is empty.
    pub fn is_empty(&self) -> (r: bool)
        ensures
            r == (self@.len() == 0),
    {
        let s = self.as_str();
        proof {
            vstd::utf8::encode_utf8_decode_utf8(s@);
        }
        s.is_empty()
    }

    /// The length in bytes.
    pub fn len(&self) -> (r: usize)
        ensures
            r == self@.len(),
    {
        self.as_str().as_bytes().len()
    }

    /// The parts one after the other.
    pub fn from_iter(parts: &[&str]) -> (r: Self)
        requires
            concat_bytes(parts@).len() <= growth_limit(),
        ensures
            r@ == concat_bytes(parts@),
            !r.is_literal(),
    {
        ArcStringBuilder::from_iter(parts).into_arcstring()
    }

    /// The string that `display` formats to.
    pub fn from_display<T: core::fmt::Display>(display: T) -> (r: Self)
        ensures
            exists|t: String| vstd::string::to_string_from_display_ensures::<T>(&display, t)
                && #[trigger] string_bytes(t) == r@,
            !r.is_literal(),
    {
        let t = display.to_string();
        Self::from_string(t)
    }

    /// The string held by `t`: inline if it fits, otherwise sharing `t` itself.
    pub(crate) fn from_string(t: String) -> (r: Self)
        ensures
            r@ == string_bytes(t),
            !r.is_literal(),
    {
        match Self::try_new_sso(t.as_str()) {
            Some(r) => r,
            None => Self::from_shared(t),
        }
    }

    /// The string `s`: inline if it fits, otherwise in a new shared buffer.
    pub(crate) fn from_str(s: &str) -> (r: Self)
        ensures
            r@ == s.spec_bytes(),
            !r.is_literal(),
    {
        match Self::try_new_sso(s) {
            Some(r) => r,
            None => Self::from_shared(s.to_owned()),
        }
    }

    /// A string that refers to the literal `s` without copying it, unless it
    /// fits inline.
    pub fn from_static(s: &'static str) -> (r: Self)
        ensures
            r@ == s.spec_bytes(),
            r.is_literal() == !fits_inline(s.spec_bytes()),
    {
        match Self::try_new_sso(s) {
            Some(r) => r,
            None => Self::from_literal(s),
        }
    }

    /// A string that leaks a builder made from `value`, so that it behaves like
    /// a literal; contents that fit inline leak nothing.
    pub fn leak_from<T>(value: T) -> (r: Self)
        where
            ArcStringBuilder: From<T>,
        ensures
            exists|b: ArcStringBuilder|
                #[trigger] call_ensures(<ArcStringBuilder as From<T>>::from, (value,), b)
                && r@ == b@,
            r.is_literal() == !fits_inline(r@),
    {
        let b = ArcStringBuilder::from(value);
        b.leak()
    }

    /// The literal this string refers to, if it refers to one.
    pub fn as_static(&self) -> (r: Option<&'static str>)
        ensures
            r is Some <==> self.is_literal(),
            r matches Some(s) ==> s.spec_bytes() == self@,
    {
        match &self.repr {
            Repr::Literal(s) => Some(*s),
            _ => None,
        }
    }

    /// The character that starts at byte `idx`, if `idx` is the start of one.
    pub fn char_at(&self, idx: usize) -> (r: Option<char>)
        ensures
            r == if idx < self@.len() && is_char_boundary(self@, idx as int) {
                Some(decode_utf8(self@.subrange(idx as int, self@.len() as int))[0])
            } else {
                None::<char>
            },
    {
        proof {
            use_type_invariant(self);
        }
        let s = self.as_str();
        let n = s.as_bytes().len();
        if idx < n && s.is_char_boundary(idx) {
            let (_, tail) = s.split_at(idx);
            proof {
                let b = self@;
                lemma_str_valid(s);
                vstd::utf8::encode_utf8_decode_utf8(tail@);
                assert(tail.spec_bytes() == b.subrange(idx as int, b.len() as int));
                assert(tail@ == decode_utf8(tail.spec_bytes()));
                assert(tail@.len() > 0);
            }
            let mut chars = tail.chars();
            proof {
                vstd::string::axiom_spec_iter(tail);
            }
            let c = chars.next();
            proof {
                vstd::string::next_postcondition(&vstd::string::spec_iter(tail), &chars, c);
            }
            c
        } else {
            None
        }
    }

    /// The part from byte `idx` to byte `end`, if both are character
    /// boundaries in order. The whole string is shared rather than copied.
    pub fn substr(&self, idx: usize, end: usize) -> (r: Option<ArcString>)
        ensures
            r is Some <==> (idx <= end && is_char_boundary(self@, idx as int)
                && is_char_boundary(self@, end as int)),
            r matches Some(t) ==> t@ == self@.subrange(idx as int, end as int)
                && t.is_literal() == (self.is_literal() && idx == 0 && end == self@.len()),
    {
        proof {
            use_type_invariant(self);
        }
        let s = self.as_str();
        proof {
            lemma_str_valid(s);
        }
        let n = s.as_bytes().len();
        if idx == 0 && end == n {
            proof {
                let b = self@;
                vstd::utf8::is_char_boundary_start_end_of_seq(b);
                assert(b.subrange(0, b.len() as int) =~= b);
            }
            Some(self.clone())
        } else {
            if idx <= end && s.is_char_boundary(idx) && s.is_char_boundary(end) {
                let (head, _) = s.split_at(end);
                proof {
                    let b = self@;
                    lemma_str_valid(s);
                    assert(end <= b.len());
                    vstd::utf8::valid_utf8_split(b, end as int);
                    lemma_char_boundary_prefix(b, end as int, idx as int);
                }
                let (_, part) = head.split_at(idx);
                proof {
                    let b = self@;
                    assert(part.spec_bytes() =~= b.subrange(idx as int, end as int));
                }
                Some(Self::from_str(part))
            } else {
                None
            }
        }
    }

    /// The part from byte `idx` on, if `idx` is a character boundary. The
    /// whole string is shared rather than copied.
    pub fn substr_from(&self, idx: usize) -> (r: Option<ArcString>)
        ensures
            r is Some <==> is_char_boundary(self@, idx as int),
            r matches Some(t) ==> t@ == self@.subrange(idx as int, self@.len() as int)
                && t.is_literal() == (self.is_literal() && idx == 0),
    {
        proof {
            use_type_invariant(self);
        }
        let s = self.as_str();
        proof {
            lemma_str_valid(s);
        }
        if idx == 0 {
            proof {
                let b = self@;
                assert(b.subrange(0, b.len() as int) =~= b);
            }
            Some(self.clone())
        } else {
            if s.is_char_boundary(idx) {
                proof {
                    lemma_str_valid(s);
                    lemma_char_boundary_le_len(self@, idx as int);
                }
                let (_, tail) = s.split_at(idx);
                Some(Self::from_str(tail))
            } else {
                None
            }
        }
    }
}


impl Clone for ArcString {
    /// Another reference to the same string: inline strings and literals are
    /// copied, a shared buffer gains a reference.
    fn clone(&self) -> (r: Self)
        ensures
            r@ == self@,
            r.is_literal() == self.is_literal(),
    {
        proof {
            use_type_invariant(self);
        }
        match &self.repr {
            Repr::Inline(d) => ArcString { repr: Repr::Inline(*d) },
            Repr::Boxed(b) => ArcString { repr: Repr::Boxed(clone_shared(b)) },
            Repr::Literal(s) => ArcString { repr: Repr::Literal(*s) },
        }
    }
}

impl PartialEq for ArcString {
    /// Equal contents. Two inline strings are compared by their words.
    fn eq(&self, other: &Self) -> (r: bool) {
        proof {
            use_type_invariant(self);
            use_type_invariant(other);
        }
        match (&self.repr, &other.repr) {
            (Repr::Inline(a), Repr::Inline(b)) => {
                proof {
                    law_inline_eq_is_word_eq(a@, b@);
                }
                encoder::word(a) == encoder::word(b)
            },
            _ => bytes_eq(self.as_str().as_bytes(), other.as_str().as_bytes()),
        }
    }
}

impl vstd::std_specs::cmp::PartialEqSpecImpl for ArcString {
    open spec fn obeys_eq_spec() -> bool {
        true
    }

    open spec fn eq_spec(&self, other: &ArcString) -> bool {
        self@ == other@
    }
}

impl Eq for ArcString {
}

impl PartialEq<str> for ArcString {
    /// The contents are `other`.
    fn eq(&self, other: &str) -> (r: bool) {
        bytes_eq(self.as_str().as_bytes(), other.as_bytes())
    }
}

impl vstd::std_specs::cmp::PartialEqSpecImpl<str> for ArcString {
    open spec fn obeys_eq_spec() -> bool {
        true
    }

    open spec fn eq_spec(&self, other: &str) -> bool {
        self@ == other.spec_bytes()
    }
}

impl PartialEq<ArcStringBuilder> for ArcString {
    /// The contents are those of `other`.
    fn eq(&self, other: &ArcStringBuilder) -> (r: bool) {
        bytes_eq(self.as_str().as_bytes(), other.as_str().as_bytes())
    }
}

impl vstd::std_specs::cmp::PartialEqSpecImpl<ArcStringBuilder> for ArcString {
    open spec fn obeys_eq_spec() -> bool {
        true
    }

    open spec fn eq_spec(&self, other: &ArcStringBuilder) -> bool {
        self@ == other@
    }
}

impl<'a> From<&'a str> for ArcString {
    fn from(s: &'a str) -> (r: Self)
        ensures
            r@ == s.spec_bytes(),
            !r.is_literal(),
    {
        Self::from_str(s)
    }
}

impl<'a> vstd::std_specs::convert::FromSpecImpl<&'a str> for ArcString {
    open spec fn obeys_from_spec() -> bool {
        false
    }

    open spec fn from_spec(v: &'a str) -> ArcString {
        choose|r: ArcString| r@ == v.spec_bytes()
    }
}

impl<'a> From<&'a mut str> for ArcString {
    fn from(s: &'a mut str) -> (r: Self)
        ensures
            r@ == old(s).spec_bytes(),
            final(s)@ == old(s)@,
    {
        Self::from_str(s)
    }
}

impl<'a> vstd::std_specs::convert::FromSpecImpl<&'a mut str> for ArcString {
    open spec fn obeys_from_spec() -> bool {
        false
    }

    open spec fn from_spec(v: &'a mut str) -> ArcString {
        choose|r: ArcString| r@ == v.spec_bytes()
    }
}

impl From<String> for ArcString {
    /// Inline if it fits; otherwise `value` itself becomes the shared buffer.
    fn from(value: String) -> (r: Self)
        ensures
            r@ == string_bytes(value),
            !r.is_literal(),
    {
        Self::from_string(value)
    }
}

impl vstd::std_specs::convert::FromSpecImpl<String> for ArcString {
    open spec fn obeys_from_spec() -> bool {
        false
    }

    open spec fn from_spec(v: String) -> ArcString {
        choose|r: ArcString| r@ == string_bytes(v)
    }
}

impl From<char> for ArcString {
    /// The one character, which always fits inline.
    fn from(value: char) -> (r: Self)
        ensures
            r@ == encode_utf8(seq![value]),
            !r.is_literal(),
    {
        let s = char_to_string(value);
        Self::from_str(s.as_str())
    }
}

impl vstd::std_specs::convert::FromSpecImpl<char> for ArcString {
    open spec fn obeys_from_spec() -> bool {
        false
    }

    open spec fn from_spec(v: char) -> ArcString {
        choose|r: ArcString| r@ == encode_utf8(seq![v])
    }
}

impl From<ArcStringBuilder> for ArcString {
    fn from(value: ArcStringBuilder) -> (r: Self)
        ensures
            r@ == value@,
            !r.is_literal(),
    {
        value.into_arcstring()
    }
}

impl vstd::std_specs::convert::FromSpecImpl<ArcStringBuilder> for ArcString {
    open spec fn obeys_from_spec() -> bool {
        false
    }

    open spec fn from_spec(v: ArcStringBuilder) -> ArcString {
        choose|r: ArcString| r@ == v@
    }
}

impl core::ops::Add for ArcString {
    type Output = Self;

    /// The concatenation. An empty side gives back the other side itself.
    fn add(self, rhs: Self) -> (r: Self)
        ensures
            r@ == self@ + rhs@,
            self@.len() == 0 ==> r == rhs,
            self@.len() > 0 && rhs@.len() == 0 ==> r == self,
            self@.len() > 0 && rhs@.len() > 0 ==> !r.is_literal(),
    {
        if self.is_empty() {
            assert(self@ + rhs@ =~= rhs@);
            rhs
        } else if rhs.is_empty() {
            assert(self@ + rhs@ =~= self@);
            self
        } else {
            let parts = [self.as_str(), rhs.as_str()];
            proof {
                lemma_concat_two(parts@);
            }
            Self::from_iter(&parts)
        }
    }
}

impl vstd::std_specs::ops::AddSpecImpl for ArcString {
    open spec fn obeys_add_spec() -> bool {
        false
    }

    open spec fn add_req(self, rhs: ArcString) -> bool {
        self@.len() == 0 || rhs@.len() == 0 || self@.len() + rhs@.len() <= growth_limit()
    }

    open spec fn add_spec(self, rhs: ArcString) -> ArcString {
        choose|r: ArcString| r@ == self@ + rhs@
    }
}

impl<'a> core::ops::Add<&'a str> for ArcString {
    type Output = Self;

    /// The concatenation. Appending nothing gives back the string itself.
    fn add(self, rhs: &'a str) -> (r: Self)
        ensures
            r@ == self@ + rhs.spec_bytes(),
            rhs.spec_bytes().len() == 0 ==> r == self,
            rhs.spec_bytes().len() > 0 ==> !r.is_literal(),
    {
        if rhs.is_empty() {
            proof {
                vstd::utf8::encode_utf8_decode_utf8(rhs@);
                assert(self@ + rhs.spec_bytes() =~= self@);
            }
            self
        } else {
            let parts = [self.as_str(), rhs];
            proof {
                lemma_concat_two(parts@);
            }
            Self::from_iter(&parts)
        }
    }
}

impl<'a> vstd::std_specs::ops::AddSpecImpl<&'a str> for ArcString {
    open spec fn obeys_add_spec() -> bool {
        false
    }

    open spec fn add_req(self, rhs: &'a str) -> bool {
        rhs.spec_bytes().len() == 0 || self@.len() + rhs.spec_bytes().len() <= growth_limit()
    }

    open spec fn add_spec(self, rhs: &'a str) -> ArcString {
        choose|r: ArcString| r@ == self@ + rhs.spec_bytes()
    }
}

impl core::ops::Add<char> for ArcString {
    type Output = Self;

    /// The string followed by the UTF-8 encoding of `rhs`.
    fn add(self, rhs: char) -> (r: Self)
        ensures
            r@ == self@ + encode_utf8(seq![rhs]),
            !r.is_literal(),
    {
        let c = char_to_string(rhs);
        let parts = [self.as_str(), c.as_str()];
        proof {
            lemma_concat_two(parts@);
        }
        Self::from_iter(&parts)
    }
}

impl vstd::std_specs::ops::AddSpecImpl<char> for ArcString {
    open spec fn obeys_add_spec() -> bool {
        false
    }

    open spec fn add_req(self, rhs: char) -> bool {
        self@.len() + encode_utf8(seq![rhs]).len() <= growth_limit()
    }

    open spec fn add_spec(self, rhs: char) -> ArcString {
        choose|r: ArcString| r@ == self@ + encode_utf8(seq![rhs])
    }
}

impl core::borrow::Borrow<str> for ArcString {
    fn borrow(&self) -> (r: &str)
        ensures
            str_bytes(r) == self@,
    {
        self.as_str()
    }
}

impl AsRef<str> for ArcString {
    fn as_ref(&self) -> (r: &str)
        ensures
            r.spec_bytes() == self@,
    {
        self.as_str()
    }
}

impl core::fmt::Debug for ArcString {
    /// The string in double quotes.
    fn fmt(&self, f: &mut core::fmt::Formatter<'_>) -> (r: core::fmt::Result)
        ensures
            exists|t: &str, q: &mut core::fmt::Formatter<'_>|
                #![trigger quoted_write_call(t, q, r)]
                str_bytes(t) == self@ && mut_ref_current(q) == *old(f)
                    && mut_ref_future(q) == *final(f) && quoted_write_call(t, q, r),
    {
        // Called through its function value, so that the call's outcome is
        // known as `call_ensures` of the quoted write.
        let t = self.as_str();
        let write_text = write_quoted;
        let r = write_text(t, f);
        proof {
            let q = choose|q: &mut core::fmt::Formatter<'_>|
                #![trigger call_ensures(write_quoted, (t, q), r)]
                call_ensures(write_quoted, (t, q), r) && mut_ref_current(q) == *old(f)
                    && mut_ref_future(q) == *f;
            assert(quoted_write_call(t, q, r));
        }
        r
    }
}

impl core::hash::Hash for ArcString {
    /// Hashes the contents, as `str` does, so that equal strings hash alike.
    fn hash<H: core::hash::Hasher>(&self, state: &mut H)
        ensures
            exists|t: &str, q: &mut H|
                #![trigger str_hash_call(t, q)]
                str_bytes(t) == self@ && mut_ref_current(q) == *old(state)
                    && mut_ref_future(q) == *final(state) && str_hash_call(t, q),
    {
        // Called through its function value, so that the call's outcome is
        // known as `call_ensures` of the hashing of `str`.
        let t = self.as_str();
        let hash_text = hash_str::<H>;
        hash_text(t, state);
        proof {
            let q = choose|q: &mut H|
                #![trigger call_ensures(hash_str::<H>, (t, q), ())]
                call_ensures(hash_str::<H>, (t, q), ()) && mut_ref_current(q) == *old(state)
                    && mut_ref_future(q) == *state;
            assert(str_hash_call(t, q));
        }
    }
}

impl Default for ArcString {
    fn default() -> (r: Self)
        ensures
            r@ == Seq::<u8>::empty(),
    {
        Self::empty()
    }
}

} // verus!
