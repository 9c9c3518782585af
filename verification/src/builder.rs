//! A growable string that turns into an `ArcString` without copying when it
//! can: an inline builder already holds the inline image of its contents.
use vstd::prelude::*;
use vstd::utf8::{valid_utf8, encode_utf8};
use vstd::string::{StringSliceAdditionalSpecFns, StringExecFns};
use std::string::String;
use crate::{ArcString, MAX_SSO_LEN};
use crate::image::{IMAGE_LEN, PAD, padded, fits_inline, inline_content, lemma_padded_content};
use crate::image::lemma_max_sso_len;
use crate::utf8_facts::{string_bytes, str_bytes, lemma_utf8_last_not_pad, lemma_str_valid};
use crate::utf8_facts::{lemma_encode_utf8_concat, lemma_char_len};
use crate::big_endian as encoder;
use crate::std_wrappers::{
    string_with_capacity, string_reserve_exact, string_shrink_to, leak_string, char_to_string,
    hash_str, fmt_error, write_quoted,
};
use crate::{bytes_eq, is_nul_block_exec, encode_inline, str_hash_call, quoted_write_call};

verus! {

/// `x` is a power of two.
pub open spec fn is_power_of_two(x: nat) -> bool
    decreases x,
{
    if x <= 1 {
        x == 1
    } else {
        x % 2 == 0 && is_power_of_two(x / 2)
    }
}

/// `p` is the least power of two that is at least `n`.
pub open spec fn is_next_power_of_two(n: nat, p: nat) -> bool {
    &&& is_power_of_two(p)
    &&& n <= p
    &&& (p == 1 || p / 2 < n)
}

/// The largest total length that growing to a power of two can serve: the
/// power of two for anything longer would exceed `isize::MAX` bytes.
pub open spec fn growth_limit() -> int {
    isize::MAX as int / 2 + 1
}

/// The capacity that `reserve` leaves when `needed` bytes must fit.
pub open spec fn reserved_capacity(capacity: nat, needed: nat, new_capacity: nat) -> bool {
    if needed > capacity {
        is_next_power_of_two(needed, new_capacity)
    } else {
        new_capacity == capacity
    }
}

/// The bytes of `parts`, one after the other.
pub open spec fn concat_bytes(parts: Seq<&str>) -> Seq<u8>
    decreases parts.len(),
{
    if parts.len() == 0 {
        Seq::empty()
    } else {
        concat_bytes(parts.drop_last()) + parts.last().spec_bytes()
    }
}

/// A prefix of `parts` has no more bytes than all of them.
pub proof fn lemma_concat_prefix_len(parts: Seq<&str>, i: int)
    requires
        0 <= i <= parts.len(),
    ensures
        concat_bytes(parts.take(i)).len() <= concat_bytes(parts).len(),
    decreases parts.len() - i,
{
    if i < parts.len() {
        lemma_concat_prefix_len(parts, i + 1);
        assert(parts.take(i + 1).drop_last() =~= parts.take(i));
    } else {
        assert(parts.take(i) =~= parts);
    }
}

/// The least power of two that is at least `n`.
fn next_power_of_two(n: usize) -> (p: usize)
    requires
        n <= growth_limit(),
    ensures
        is_next_power_of_two(n as nat, p as nat),
        p <= isize::MAX,
{
    let mut p: usize = 1;
    while p < n
        invariant
            n <= growth_limit(),
            1 <= p,
            is_power_of_two(p as nat),
            p == 1 || p / 2 < n,
        decreases usize::MAX - p,
    {
        assert(is_power_of_two((p * 2) as nat)) by {
            assert((p * 2) as nat / 2 == p as nat);
        }
        p = p * 2;
    }
    p
}

/// A growable UTF-8 string. A capacity of `MAX_SSO_LEN` marks a builder whose
/// contents are held inline, padded exactly like an inline `ArcString`.
///
/// Lengths and capacities are counted in `usize`. The contents change only
/// through the methods below, which keep the inline padding and the length in
/// step; no `&mut str` view of them is offered (`as_mut_str`,
/// `BorrowMut<str>`).
pub struct ArcStringBuilder {
    capacity: usize,
    length: usize,
    data: Buffer,
}

enum Buffer {
    /// The inline image: everything past the length stays padding, so that
    /// it can be handed to an `ArcString` without being encoded again.
    Inline([u8; IMAGE_LEN]),
    /// A heap buffer.
    Heap(String),
}

impl View for ArcStringBuilder {
    type V = Seq<u8>;

    closed spec fn view(&self) -> Seq<u8> {
        match self.data {
            Buffer::Inline(d) => d@.take(self.length as int),
            Buffer::Heap(s) => string_bytes(s),
        }
    }
}

/// An inline image holding `len` bytes of UTF-8 followed by padding.
pub open spec fn is_inline_image(d: Seq<u8>, len: nat) -> bool {
    &&& d.len() == IMAGE_LEN
    &&& len <= MAX_SSO_LEN
    &&& valid_utf8(d.take(len as int))
    &&& forall|i: int| len <= i < IMAGE_LEN ==> d[i] == PAD
}

/// An inline image holds the padded image of its contents.
pub proof fn lemma_inline_image(d: Seq<u8>, len: nat)
    requires
        is_inline_image(d, len),
    ensures
        d == padded(d.take(len as int)),
        inline_content(d) == d.take(len as int),
{
    let c = d.take(len as int);
    assert(d =~= padded(c));
    if c.len() > 0 {
        lemma_utf8_last_not_pad(c);
    }
    lemma_padded_content(c);
}

impl ArcStringBuilder {
    /// Lengths fit, and a builder is inline exactly when its capacity is
    /// `MAX_SSO_LEN`.
    #[verifier::type_invariant]
    closed spec fn inv(&self) -> bool {
        match self.data {
            Buffer::Inline(d) => {
                &&& self.capacity == MAX_SSO_LEN
                &&& is_inline_image(d@, self.length as nat)
            },
            Buffer::Heap(s) => {
                &&& self.capacity > MAX_SSO_LEN
                &&& self.length == string_bytes(s).len()
                &&& self.length <= self.capacity
            },
        }
    }

    /// The capacity in bytes.
    pub closed spec fn spec_capacity(&self) -> nat {
        self.capacity as nat
    }

    /// The contents are held inline.
    pub closed spec fn is_inline(&self) -> bool {
        self.data is Inline
    }

    /// An empty inline builder.
    pub fn new() -> (r: Self)
        ensures
            r@ == Seq::<u8>::empty(),
            r.spec_capacity() == MAX_SSO_LEN,
            r.is_inline(),
    {
        let d: [u8; IMAGE_LEN] = [0xFFu8; 8];
        let r = ArcStringBuilder { capacity: MAX_SSO_LEN, length: 0, data: Buffer::Inline(d) };
        assert(r@ =~= Seq::<u8>::empty());
        r
    }

    /// An empty builder with room for `capacity` bytes, grown as `reserve` grows.
    pub fn with_capacity(capacity: usize) -> (r: Self)
        requires
            capacity <= MAX_SSO_LEN || capacity <= growth_limit(),
        ensures
            r@ == Seq::<u8>::empty(),
            reserved_capacity(MAX_SSO_LEN as nat, capacity as nat, r.spec_capacity()),
    {
        let mut builder = Self::new();
        builder.reserve(capacity);
        builder
    }

    /// A builder holding the parts one after the other, sized for all of
    /// them before the first is pushed.
    pub fn from_iter(parts: &[&str]) -> (r: Self)
        requires
            concat_bytes(parts@).len() <= growth_limit(),
        ensures
            r@ == concat_bytes(parts@),
            reserved_capacity(MAX_SSO_LEN as nat, concat_bytes(parts@).len(), r.spec_capacity()),
    {
        let mut len: usize = 0;
        let mut i: usize = 0;
        while i < parts.len()
            invariant
                0 <= i <= parts@.len(),
                concat_bytes(parts@).len() <= growth_limit(),
                len == concat_bytes(parts@.take(i as int)).len(),
            decreases parts@.len() - i,
        {
            proof {
                assert(parts@.take(i + 1).drop_last() =~= parts@.take(i as int));
                lemma_concat_prefix_len(parts@, i + 1);
            }
            len = len + parts[i].as_bytes().len();
            i = i + 1;
        }
        assert(parts@.take(i as int) =~= parts@);
        let mut builder = Self::with_capacity(len);
        let ghost capacity = builder.spec_capacity();
        i = 0;
        while i < parts.len()
            invariant
                0 <= i <= parts@.len(),
                len == concat_bytes(parts@).len(),
                builder@ == concat_bytes(parts@.take(i as int)),
                builder.spec_capacity() == capacity,
                capacity >= len,
            decreases parts@.len() - i,
        {
            proof {
                assert(parts@.take(i + 1).drop_last() =~= parts@.take(i as int));
                lemma_concat_prefix_len(parts@, i + 1);
                assert(parts@.take(i + 1).last() == parts@[i as int]);
            }
            builder.push_str(parts[i]);
            i = i + 1;
        }
        assert(parts@.take(i as int) =~= parts@);
        builder
    }

    /// The string that `display` formats to, appended to an empty builder, so
    /// that the capacity grows as `push_str` grows it. A text too long for any
    /// power of two keeps a capacity of exactly its length.
    pub fn from_display<T: core::fmt::Display>(display: T) -> (r: Self)
        ensures
            exists|t: String| vstd::string::to_string_from_display_ensures::<T>(&display, t)
                && #[trigger] string_bytes(t) == r@,
            r@.len() <= growth_limit() ==> reserved_capacity(
                MAX_SSO_LEN as nat,
                r@.len(),
                r.spec_capacity(),
            ),
            r@.len() > growth_limit() ==> r.spec_capacity() == r@.len(),
    {
        let t = display.to_string();
        let n = t.as_str().as_bytes().len();
        if n <= (isize::MAX as usize) / 2 + 1 {
            let mut builder = Self::new();
            builder.push_str(t.as_str());
            assert(Seq::<u8>::empty() + string_bytes(t) =~= string_bytes(t));
            builder
        } else {
            Self::from_string(t)
        }
    }

    /// A builder holding `s`: inline if it fits, otherwise with a capacity of
    /// exactly its length.
    pub(crate) fn from_str(s: &str) -> (r: Self)
        ensures
            r@ == s.spec_bytes(),
            r.spec_capacity() == if s.spec_bytes().len() <= MAX_SSO_LEN {
                MAX_SSO_LEN as nat
            } else {
                s.spec_bytes().len()
            },
    {
        if Self::can_be_sso(s) {
            Self::new_inline(s)
        } else {
            Self::from_string(s.to_owned())
        }
    }

    /// A builder holding `t`: inline if it fits, otherwise taking over `t`
    /// itself, with a capacity of exactly its length.
    pub(crate) fn from_string(t: String) -> (r: Self)
        ensures
            r@ == string_bytes(t),
            r.spec_capacity() == if string_bytes(t).len() <= MAX_SSO_LEN {
                MAX_SSO_LEN as nat
            } else {
                string_bytes(t).len()
            },
    {
        let length = t.as_str().as_bytes().len();
        if length <= MAX_SSO_LEN {
            Self::new_inline(t.as_str())
        } else {
            let mut t = t;
            string_shrink_to(&mut t, length);
            ArcStringBuilder { capacity: length, length, data: Buffer::Heap(t) }
        }
    }

    /// Whether `s` fits in an inline builder.
    pub fn can_be_sso(s: &str) -> (r: bool)
        ensures
            r == (s.spec_bytes().len() <= MAX_SSO_LEN),
    {
        s.as_bytes().len() <= MAX_SSO_LEN
    }

    /// An inline builder holding `s`, if it fits.
    pub fn try_new_sso(s: &str) -> (r: Option<Self>)
        ensures
            r is Some <==> s.spec_bytes().len() <= MAX_SSO_LEN,
            r matches Some(b) ==> b@ == s.spec_bytes() && b.spec_capacity() == MAX_SSO_LEN
                && b.is_inline(),
    {
        if Self::can_be_sso(s) {
            Some(Self::new_inline(s))
        } else {
            None
        }
    }

    /// An inline builder holding `s`.
    fn new_inline(s: &str) -> (r: Self)
        requires
            s.spec_bytes().len() <= MAX_SSO_LEN,
        ensures
            r@ == s.spec_bytes(),
            r.spec_capacity() == MAX_SSO_LEN,
            r.is_inline(),
    {
        let bytes = s.as_bytes();
        let mut d: [u8; IMAGE_LEN] = [0xFFu8; 8];
        let mut i: usize = 0;
        while i < bytes.len()
            invariant
                bytes@ == s.spec_bytes(),
                bytes@.len() <= MAX_SSO_LEN,
                0 <= i <= bytes@.len(),
                forall|j: int| 0 <= j < i ==> d@[j] == bytes@[j],
                forall|j: int| i <= j < IMAGE_LEN ==> d@[j] == PAD,
            decreases bytes@.len() - i,
        {
            d[i] = bytes[i];
            i = i + 1;
        }
        proof {
            lemma_str_valid(s);
            assert(d@.take(bytes@.len() as int) =~= bytes@);
        }
        ArcStringBuilder { capacity: MAX_SSO_LEN, length: bytes.len(), data: Buffer::Inline(d) }
    }

    /// The capacity in bytes. It is at least the length and at least
    /// `MAX_SSO_LEN`, and it is `MAX_SSO_LEN` exactly when the contents are
    /// held inline.
    pub fn capacity(&self) -> (r: usize)
        ensures
            r == self.spec_capacity(),
            r >= self@.len(),
            r >= MAX_SSO_LEN,
            r == MAX_SSO_LEN <==> self.is_inline(),
    {
        proof {
            use_type_invariant(self);
        }
        self.capacity
    }

    /// The length in bytes.
    pub fn len(&self) -> (r: usize)
        ensures
            r == self@.len(),
    {
        proof {
            use_type_invariant(self);
        }
        self.length
    }

    /// Whether the builder is empty.
    pub fn is_empty(&self) -> (r: bool)
        ensures
            r == (self@.len() == 0),
    {
        proof {
            use_type_invariant(self);
        }
        self.length == 0
    }

    /// The contents.
    pub fn as_str(&self) -> (r: &str)
        ensures
            r.spec_bytes() == self@,
    {
        proof {
            use_type_invariant(self);
        }
        match &self.data {
            Buffer::Inline(d) => {
                proof {
                    lemma_inline_image(d@, self.length as nat);
                }
                encoder::decode(d)
            },
            Buffer::Heap(s) => s.as_str(),
        }
    }

    /// The same contents with capacity `new_capacity`, on the heap.
    fn set_capacity_internal(self, new_capacity: usize) -> (r: Self)
        requires
            new_capacity > MAX_SSO_LEN,
            new_capacity >= self@.len(),
            new_capacity <= self.spec_capacity() || new_capacity <= isize::MAX,
        ensures
            r@ == self@,
            r.spec_capacity() == new_capacity,
            !r.is_inline(),
    {
        proof {
            use_type_invariant(&self);
        }
        let length = self.length;
        match self.data {
            Buffer::Inline(d) => {
                proof {
                    lemma_inline_image(d@, length as nat);
                }
                let mut s = string_with_capacity(new_capacity);
                let contents = encoder::decode(&d);
                s.append(contents);
                proof {
                    assert(s@ =~= contents@);
                }
                ArcStringBuilder { capacity: new_capacity, length, data: Buffer::Heap(s) }
            },
            Buffer::Heap(s) => {
                let mut s = s;
                if new_capacity > self.capacity {
                    string_reserve_exact(&mut s, new_capacity - length);
                } else {
                    string_shrink_to(&mut s, new_capacity);
                }
                ArcStringBuilder { capacity: new_capacity, length, data: Buffer::Heap(s) }
            },
        }
    }

    /// Makes room for `extra` more bytes with a capacity of exactly the
    /// length plus `extra`, if the current one is too small.
    pub fn reserve_exact(&mut self, extra: usize)
        requires
            old(self)@.len() + extra <= isize::MAX,
        ensures
            final(self)@ == old(self)@,
            final(self).spec_capacity() == if old(self)@.len() + extra > old(self).spec_capacity() {
                (old(self)@.len() + extra) as nat
            } else {
                old(self).spec_capacity()
            },
    {
        proof {
            use_type_invariant(&*self);
        }
        let new_capacity = self.length + extra;
        if new_capacity > self.capacity {
            let mut this = Self::new();
            core::mem::swap(self, &mut this);
            *self = this.set_capacity_internal(new_capacity);
        }
    }

    /// Makes room for `extra` more bytes, growing to the least power of two
    /// that holds them if the current capacity is too small.
    pub fn reserve(&mut self, extra: usize)
        requires
            old(self)@.len() + extra <= old(self).spec_capacity()
                || old(self)@.len() + extra <= growth_limit(),
        ensures
            final(self)@ == old(self)@,
            reserved_capacity(
                old(self).spec_capacity(),
                (old(self)@.len() + extra) as nat,
                final(self).spec_capacity(),
            ),
            final(self).spec_capacity() >= old(self)@.len() + extra,
    {
        proof {
            use_type_invariant(&*self);
        }
        let new_capacity = self.length + extra;
        if new_capacity > self.capacity {
            let p = next_power_of_two(new_capacity);
            let mut this = Self::new();
            core::mem::swap(self, &mut this);
            *self = this.set_capacity_internal(p);
        }
    }

    /// Gives back unused capacity: contents that fit inline move back inline
    /// (a capacity of `MAX_SSO_LEN` marks an inline builder), and a heap
    /// buffer shrinks to the length.
    pub fn shrink_to_fit(&mut self)
        ensures
            final(self)@ == old(self)@,
            final(self).spec_capacity() == if old(self).spec_capacity() > MAX_SSO_LEN
                && old(self).spec_capacity() > old(self)@.len() {
                if old(self)@.len() <= MAX_SSO_LEN {
                    MAX_SSO_LEN as nat
                } else {
                    old(self)@.len()
                }
            } else {
                old(self).spec_capacity()
            },
    {
        proof {
            use_type_invariant(&*self);
        }
        if self.capacity > MAX_SSO_LEN && self.capacity > self.length {
            let mut this = Self::new();
            core::mem::swap(self, &mut this);
            proof {
                use_type_invariant(&this);
            }
            if this.length <= MAX_SSO_LEN {
                *self = Self::new_inline(this.as_str());
            } else {
                let length = this.length;
                *self = this.set_capacity_internal(length);
            }
        }
    }

    /// The builder with `s` appended, when there is room for it.
    fn appended(self, s: &str) -> (r: Self)
        requires
            self@.len() + s.spec_bytes().len() <= self.spec_capacity(),
        ensures
            r@ == self@ + s.spec_bytes(),
            r.spec_capacity() == self.spec_capacity(),
    {
        proof {
            use_type_invariant(&self);
            lemma_str_valid(s);
        }
        let bytes = s.as_bytes();
        let length = self.length;
        let capacity = self.capacity;
        match self.data {
            Buffer::Inline(d) => {
                let ghost old_d = d@;
                let mut d = d;
                let mut i: usize = 0;
                while i < bytes.len()
                    invariant
                        bytes@ == s.spec_bytes(),
                        length + bytes@.len() <= MAX_SSO_LEN,
                        0 <= i <= bytes@.len(),
                        d@.len() == IMAGE_LEN,
                        old_d.len() == IMAGE_LEN,
                        forall|j: int| 0 <= j < length ==> d@[j] == old_d[j],
                        forall|j: int| 0 <= j < i ==> d@[length + j] == bytes@[j],
                        forall|j: int| length + i <= j < IMAGE_LEN ==> #[trigger] d@[j] == old_d[j],
                    decreases bytes@.len() - i,
                {
                    d[length + i] = bytes[i];
                    i = i + 1;
                }
                proof {
                    assert(d@.take((length + bytes@.len()) as int) =~= old_d.take(length as int)
                        + bytes@);
                    vstd::utf8::valid_utf8_concat(old_d.take(length as int), bytes@);
                    assert forall|j: int| length + bytes@.len() <= j < IMAGE_LEN implies d@[j] == PAD by {
                        assert(d@[j] == old_d[j]);
                    }
                }
                ArcStringBuilder {
                    capacity,
                    length: length + bytes.len(),
                    data: Buffer::Inline(d),
                }
            },
            Buffer::Heap(t) => {
                let mut t = t;
                let ghost old_t = t@;
                t.append(s);
                proof {
                    lemma_encode_utf8_concat(old_t, s@);
                }
                ArcStringBuilder {
                    capacity,
                    length: length + bytes.len(),
                    data: Buffer::Heap(t),
                }
            },
        }
    }

    /// Appends `s`, growing as `reserve` grows.
    pub fn push_str(&mut self, s: &str)
        requires
            old(self)@.len() + s.spec_bytes().len() <= old(self).spec_capacity()
                || old(self)@.len() + s.spec_bytes().len() <= growth_limit(),
        ensures
            final(self)@ == old(self)@ + s.spec_bytes(),
            reserved_capacity(
                old(self).spec_capacity(),
                (old(self)@.len() + s.spec_bytes().len()) as nat,
                final(self).spec_capacity(),
            ),
    {
        let n = s.as_bytes().len();
        self.reserve(n);
        let mut this = Self::new();
        core::mem::swap(self, &mut this);
        *self = this.appended(s);
    }

    /// Appends the UTF-8 encoding of `c`.
    pub fn push(&mut self, c: char)
        requires
            old(self)@.len() + encode_utf8(seq![c]).len() <= old(self).spec_capacity()
                || old(self)@.len() + encode_utf8(seq![c]).len() <= growth_limit(),
        ensures
            final(self)@ == old(self)@ + encode_utf8(seq![c]),
            reserved_capacity(
                old(self).spec_capacity(),
                (old(self)@.len() + encode_utf8(seq![c]).len()) as nat,
                final(self).spec_capacity(),
            ),
    {
        let s = char_to_string(c);
        self.push_str(s.as_str());
    }

    /// The inline image of the contents, if they fit inline. An inline
    /// builder already holds it.
    fn try_into_arcstring_sso(&self) -> (r: Option<[u8; IMAGE_LEN]>)
        ensures
            r is Some <==> fits_inline(self@),
            r matches Some(d) ==> d@ == padded(self@),
    {
        proof {
            use_type_invariant(self);
        }
        match &self.data {
            Buffer::Inline(d) => {
                proof {
                    lemma_inline_image(d@, self.length as nat);
                    encoder::lemma_padded_word_nonzero(self@);
                    lemma_max_sso_len();
                }
                if encoder::word(d) == 0 {
                    None
                } else if MAX_SSO_LEN < IMAGE_LEN && is_nul_block_exec(
                    vstd::slice::slice_subrange(d.as_slice(), 0, self.length),
                ) {
                    None
                } else {
                    Some(*d)
                }
            },
            Buffer::Heap(s) => encode_inline(s.as_str()),
        }
    }

    /// The contents as an owned `String`, trimmed to their length.
    fn into_boxed_data(self) -> (r: String)
        ensures
            string_bytes(r) == self@,
    {
        proof {
            use_type_invariant(&self);
        }
        let length = self.length;
        match self.data {
            Buffer::Inline(d) => {
                proof {
                    lemma_inline_image(d@, length as nat);
                }
                encoder::decode(&d).to_owned()
            },
            Buffer::Heap(s) => {
                let mut s = s;
                string_shrink_to(&mut s, length);
                s
            },
        }
    }

    /// Converts into an `ArcString`: inline when the contents fit, taking over
    /// the inline image as it is; otherwise sharing the buffer.
    pub fn into_arcstring(self) -> (r: ArcString)
        ensures
            r@ == self@,
            !r.is_literal(),
    {
        proof {
            use_type_invariant(&self);
        }
        match self.try_into_arcstring_sso() {
            Some(d) => {
                proof {
                    let c = self@;
                    assert(valid_utf8(c)) by {
                        self.lemma_valid();
                    }
                    if c.len() > 0 {
                        lemma_utf8_last_not_pad(c);
                    }
                    lemma_padded_content(c);
                }
                ArcString::from_image(d)
            },
            None => ArcString::from_shared(self.into_boxed_data()),
        }
    }

    /// Converts into an `ArcString` that leaks the buffer of the builder, so that
    /// the result behaves like a string literal: it is not reference counted and
    /// it is never freed. Strings that fit inline leak nothing.
    pub fn leak(self) -> (r: ArcString)
        ensures
            r@ == self@,
            r.is_literal() == !fits_inline(self@),
    {
        proof {
            use_type_invariant(&self);
        }
        match self.try_into_arcstring_sso() {
            Some(d) => {
                proof {
                    let c = self@;
                    assert(valid_utf8(c)) by {
                        self.lemma_valid();
                    }
                    if c.len() > 0 {
                        lemma_utf8_last_not_pad(c);
                    }
                    lemma_padded_content(c);
                }
                ArcString::from_image(d)
            },
            None => {
                let s = leak_string(self.into_boxed_data());
                ArcString::from_literal(s)
            },
        }
    }

    /// The contents are valid UTF-8.
    proof fn lemma_valid(&self)
        requires
            self.inv(),
        ensures
            valid_utf8(self@),
    {
        match self.data {
            Buffer::Inline(d) => {},
            Buffer::Heap(s) => {
                vstd::utf8::encode_utf8_valid_utf8(s@);
            },
        }
    }
}


impl Default for ArcStringBuilder {
    fn default() -> (r: Self)
        ensures
            r@ == Seq::<u8>::empty(),
            r.spec_capacity() == MAX_SSO_LEN,
    {
        Self::new()
    }
}

impl Clone for ArcStringBuilder {
    /// A builder with the same contents and capacity and a buffer of its own.
    fn clone(&self) -> (r: Self)
        ensures
            r@ == self@,
            r.spec_capacity() == self.spec_capacity(),
    {
        proof {
            use_type_invariant(self);
        }
        match &self.data {
            Buffer::Inline(d) => ArcStringBuilder {
                capacity: self.capacity,
                length: self.length,
                data: Buffer::Inline(*d),
            },
            Buffer::Heap(s) => ArcStringBuilder {
                capacity: self.capacity,
                length: self.length,
                data: Buffer::Heap(s.clone()),
            },
        }
    }
}

impl PartialEq for ArcStringBuilder {
    fn eq(&self, other: &Self) -> (r: bool) {
        bytes_eq(self.as_str().as_bytes(), other.as_str().as_bytes())
    }
}

impl vstd::std_specs::cmp::PartialEqSpecImpl for ArcStringBuilder {
    open spec fn obeys_eq_spec() -> bool {
        true
    }

    open spec fn eq_spec(&self, other: &ArcStringBuilder) -> bool {
        self@ == other@
    }
}

impl Eq for ArcStringBuilder {
}

impl PartialEq<str> for ArcStringBuilder {
    fn eq(&self, other: &str) -> (r: bool) {
        bytes_eq(self.as_str().as_bytes(), other.as_bytes())
    }
}

impl vstd::std_specs::cmp::PartialEqSpecImpl<str> for ArcStringBuilder {
    open spec fn obeys_eq_spec() -> bool {
        true
    }

    open spec fn eq_spec(&self, other: &str) -> bool {
        self@ == other.spec_bytes()
    }
}

impl PartialEq<ArcString> for ArcStringBuilder {
    fn eq(&self, other: &ArcString) -> (r: bool) {
        bytes_eq(self.as_str().as_bytes(), other.as_str().as_bytes())
    }
}

impl vstd::std_specs::cmp::PartialEqSpecImpl<ArcString> for ArcStringBuilder {
    open spec fn obeys_eq_spec() -> bool {
        true
    }

    open spec fn eq_spec(&self, other: &ArcString) -> bool {
        self@ == other@
    }
}

impl core::fmt::Debug for ArcStringBuilder {
    /// The contents in double quotes.
    fn fmt(&self, f: &mut core::fmt::Formatter<'_>) -> (r: core::fmt::Result)
        ensures
            exists|t: &str, q: &mut core::fmt::Formatter<'_>|
                #![trigger quoted_write_call(t, q, r)]
                str_bytes(t) == self@ && mut_ref_current(q) == *old(f)
                    && mut_ref_future(q) == *final(f) && quoted_write_call(t, q, r),
    {
        // Called through its function value, so that the call's outcome is
        // known as `call_ensures` of the quoted write.
        let t = self.as_str();
        let write_text = write_quoted;
        let r = write_text(t, f);
        proof {
            let q = choose|q: &mut core::fmt::Formatter<'_>|
                #![trigger call_ensures(write_quoted, (t, q), r)]
                call_ensures(write_quoted, (t, q), r) && mut_ref_current(q) == *old(f)
                    && mut_ref_future(q) == *f;
            assert(quoted_write_call(t, q, r));
        }
        r
    }
}

impl core::hash::Hash for ArcStringBuilder {
    /// Hashes the contents, as `str` does, so that a builder hashes like the
    /// equal `ArcString` and like its text.
    fn hash<H: core::hash::Hasher>(&self, state: &mut H)
        ensures
            exists|t: &str, q: &mut H|
                #![trigger str_hash_call(t, q)]
                str_bytes(t) == self@ && mut_ref_current(q) == *old(state)
                    && mut_ref_future(q) == *final(state) && str_hash_call(t, q),
    {
        // Called through its function value, so that the call's outcome is
        // known as `call_ensures` of the hashing of `str`.
        let t = self.as_str();
        let hash_text = hash_str::<H>;
        hash_text(t, state);
        proof {
            let q = choose|q: &mut H|
                #![trigger call_ensures(hash_str::<H>, (t, q), ())]
                call_ensures(hash_str::<H>, (t, q), ()) && mut_ref_current(q) == *old(state)
                    && mut_ref_future(q) == *state;
            assert(str_hash_call(t, q));
        }
    }
}

impl From<ArcString> for ArcStringBuilder {
    /// Takes over the buffer of a string that is its only reference, and
    /// copies the contents otherwise.
    fn from(value: ArcString) -> (r: Self)
        ensures
            r@ == value@,
            r.spec_capacity() == if r@.len() <= MAX_SSO_LEN {
                MAX_SSO_LEN as nat
            } else {
                r@.len()
            },
    {
        match value.try_take_boxed_data() {
            Ok(s) => Self::from_string(s),
            Err(value) => Self::from_str(value.as_str()),
        }
    }
}

impl vstd::std_specs::convert::FromSpecImpl<ArcString> for ArcStringBuilder {
    open spec fn obeys_from_spec() -> bool {
        false
    }

    open spec fn from_spec(v: ArcString) -> ArcStringBuilder {
        choose|r: ArcStringBuilder| r@ == v@
    }
}

impl From<char> for ArcStringBuilder {
    fn from(value: char) -> (r: Self)
        ensures
            r@ == encode_utf8(seq![value]),
            r.spec_capacity() == MAX_SSO_LEN,
    {
        let s = char_to_string(value);
        proof {
            lemma_char_len(value);
        }
        Self::from_str(s.as_str())
    }
}

impl vstd::std_specs::convert::FromSpecImpl<char> for ArcStringBuilder {
    open spec fn obeys_from_spec() -> bool {
        false
    }

    open spec fn from_spec(v: char) -> ArcStringBuilder {
        choose|r: ArcStringBuilder| r@ == encode_utf8(seq![v])
    }
}

impl<'a> From<&'a str> for ArcStringBuilder {
    fn from(s: &'a str) -> (r: Self)
        ensures
            r@ == s.spec_bytes(),
            r.spec_capacity() == if s.spec_bytes().len() <= MAX_SSO_LEN {
                MAX_SSO_LEN as nat
            } else {
                s.spec_bytes().len()
            },
    {
        Self::from_str(s)
    }
}

impl<'a> vstd::std_specs::convert::FromSpecImpl<&'a str> for ArcStringBuilder {
    open spec fn obeys_from_spec() -> bool {
        false
    }

    open spec fn from_spec(v: &'a str) -> ArcStringBuilder {
        choose|r: ArcStringBuilder| r@ == v.spec_bytes()
    }
}

impl<'a> From<&'a mut str> for ArcStringBuilder {
    fn from(s: &'a mut str) -> (r: Self)
        ensures
            r@ == old(s).spec_bytes(),
            final(s)@ == old(s)@,
            r.spec_capacity() == if r@.len() <= MAX_SSO_LEN {
                MAX_SSO_LEN as nat
            } else {
                r@.len()
            },
    {
        Self::from_str(s)
    }
}

impl<'a> vstd::std_specs::convert::FromSpecImpl<&'a mut str> for ArcStringBuilder {
    open spec fn obeys_from_spec() -> bool {
        false
    }

    open spec fn from_spec(v: &'a mut str) -> ArcStringBuilder {
        choose|r: ArcStringBuilder| r@ == v.spec_bytes()
    }
}

impl From<String> for ArcStringBuilder {
    /// Inline if it fits; otherwise the builder takes over `value` itself.
    fn from(value: String) -> (r: Self)
        ensures
            r@ == string_bytes(value),
            r.spec_capacity() == if r@.len() <= MAX_SSO_LEN {
                MAX_SSO_LEN as nat
            } else {
                r@.len()
            },
    {
        Self::from_string(value)
    }
}

impl vstd::std_specs::convert::FromSpecImpl<String> for ArcStringBuilder {
    open spec fn obeys_from_spec() -> bool {
        false
    }

    open spec fn from_spec(v: String) -> ArcStringBuilder {
        choose|r: ArcStringBuilder| r@ == string_bytes(v)
    }
}

impl core::ops::Add for ArcStringBuilder {
    type Output = Self;

    /// The concatenation. An empty left side gives back the right side itself.
    fn add(self, rhs: Self) -> (r: Self)
        ensures
            r@ == self@ + rhs@,
            self@.len() == 0 ==> r.spec_capacity() == rhs.spec_capacity(),
            self@.len() > 0 ==> reserved_capacity(
                self.spec_capacity(),
                (self@.len() + rhs@.len()) as nat,
                r.spec_capacity(),
            ),
    {
        if self.is_empty() {
            assert(self@ + rhs@ =~= rhs@);
            rhs
        } else {
            proof {
                use_type_invariant(&self);
            }
            let mut this = self;
            this.push_str(rhs.as_str());
            this
        }
    }
}

impl vstd::std_specs::ops::AddSpecImpl for ArcStringBuilder {
    open spec fn obeys_add_spec() -> bool {
        false
    }

    open spec fn add_req(self, rhs: ArcStringBuilder) -> bool {
        self@.len() == 0 || rhs@.len() == 0 || self@.len() + rhs@.len() <= self.spec_capacity()
            || self@.len() + rhs@.len() <= growth_limit()
    }

    open spec fn add_spec(self, rhs: ArcStringBuilder) -> ArcStringBuilder {
        choose|r: ArcStringBuilder| r@ == self@ + rhs@
    }
}

impl<'a> core::ops::Add<&'a str> for ArcStringBuilder {
    type Output = Self;

    fn add(self, rhs: &'a str) -> (r: Self)
        ensures
            r@ == self@ + rhs.spec_bytes(),
            reserved_capacity(
                self.spec_capacity(),
                (self@.len() + rhs.spec_bytes().len()) as nat,
                r.spec_capacity(),
            ),
    {
        proof {
            use_type_invariant(&self);
        }
        let mut this = self;
        this.push_str(rhs);
        this
    }
}

impl<'a> vstd::std_specs::ops::AddSpecImpl<&'a str> for ArcStringBuilder {
    open spec fn obeys_add_spec() -> bool {
        false
    }

    open spec fn add_req(self, rhs: &'a str) -> bool {
        rhs.spec_bytes().len() == 0 || self@.len() + rhs.spec_bytes().len() <= self.spec_capacity()
            || self@.len() + rhs.spec_bytes().len() <= growth_limit()
    }

    open spec fn add_spec(self, rhs: &'a str) -> ArcStringBuilder {
        choose|r: ArcStringBuilder| r@ == self@ + rhs.spec_bytes()
    }
}

impl core::ops::Add<char> for ArcStringBuilder {
    type Output = Self;

    fn add(self, rhs: char) -> (r: Self)
        ensures
            r@ == self@ + encode_utf8(seq![rhs]),
            reserved_capacity(
                self.spec_capacity(),
                (self@.len() + encode_utf8(seq![rhs]).len()) as nat,
                r.spec_capacity(),
            ),
    {
        let mut this = self;
        this.push(rhs);
        this
    }
}

impl vstd::std_specs::ops::AddSpecImpl<char> for ArcStringBuilder {
    open spec fn obeys_add_spec() -> bool {
        false
    }

    open spec fn add_req(self, rhs: char) -> bool {
        self@.len() + encode_utf8(seq![rhs]).len() <= self.spec_capacity()
            || self@.len() + encode_utf8(seq![rhs]).len() <= growth_limit()
    }

    open spec fn add_spec(self, rhs: char) -> ArcStringBuilder {
        choose|r: ArcStringBuilder| r@ == self@ + encode_utf8(seq![rhs])
    }
}

impl core::fmt::Write for ArcStringBuilder {
    /// Appends `s`. Contents too long to grow to the next power of two are
    /// reported as an error, with the builder unchanged.
    fn write_str(&mut self, s: &str) -> (r: core::fmt::Result)
        ensures
            r is Ok <==> (old(self)@.len() + s.spec_bytes().len() <= old(self).spec_capacity()
                || old(self)@.len() + s.spec_bytes().len() <= growth_limit()),
            r is Ok ==> final(self)@ == old(self)@ + s.spec_bytes(),
            r is Ok ==> reserved_capacity(
                old(self).spec_capacity(),
                (old(self)@.len() + s.spec_bytes().len()) as nat,
                final(self).spec_capacity(),
            ),
            r is Err ==> final(self)@ == old(self)@,
            r is Err ==> final(self).spec_capacity() == old(self).spec_capacity(),
    {
        proof {
            use_type_invariant(&*self);
        }
        let n = s.as_bytes().len();
        let limit = (isize::MAX as usize) / 2 + 1;
        if n <= self.capacity - self.length || (self.length <= limit && n <= limit - self.length) {
            self.push_str(s);
            Ok(())
        } else {
            Err(fmt_error())
        }
    }
}

impl core::borrow::Borrow<str> for ArcStringBuilder {
    fn borrow(&self) -> (r: &str)
        ensures
            str_bytes(r) == self@,
    {
        self.as_str()
    }
}

impl AsRef<str> for ArcStringBuilder {
    fn as_ref(&self) -> (r: &str)
        ensures
            r.spec_bytes() == self@,
    {
        self.as_str()
    }
}

} // verus!
