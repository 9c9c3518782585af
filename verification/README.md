# arcstring

An immutable UTF-8 string type, `ArcString`, and a growable companion,
`ArcStringBuilder`, verified with Verus.

A string of at most one machine word of bytes (`MAX_SSO_LEN`: eight on 64-bit
targets, four on 32-bit ones) is held inline as an eight-byte image: its
bytes followed by `0xFF` padding, a byte that never occurs in UTF-8. A
machine word of NUL bytes is the one short string whose word would be zero;
such a string, and every longer one, lives in a reference counted buffer or
refers to a `'static` literal. The builder keeps short contents in the same
inline image, so turning it into an `ArcString` hands the image over as it is.
Lengths and capacities are counted in `usize`.

Layout of `src/`:

- `lib.rs`: `ArcString` and its operations.
- `builder.rs`: `ArcStringBuilder`, with its capacity policy (growth to the
  next power of two, exact reservation, shrinking back inline).
- `image.rs`: the inline image of a short string.
- `big_endian.rs`, `little_endian.rs`: the two ways of reading the image as a
  word, with the length recovered from the count of trailing (or leading) one
  bits, and the tag bits that mark words referring to a header.
- `utf8_facts.rs`: facts about UTF-8 used by the proofs.
- `std_wrappers.rs`: the calls into std that vstd does not describe, each with
  the contract that std's documentation gives.

The contracts are stated over the bytes of the string (`Seq<u8>`), with
UTF-8 validity as part of each type's invariant.

The builder's contents change only through its own methods, which keep the
inline padding and the length in step; it offers no `&mut str` view
(`as_mut_str`, `BorrowMut<str>`). `Display` is not implemented; `as_str()`
gives the text, and `Debug` prints it in double quotes.
