//! Calls into std whose behaviour vstd does not describe, each behind a
//! contract that restates std's documentation.
use vstd::prelude::*;
use vstd::utf8::{valid_utf8, encode_utf8};
use vstd::string::StringSliceAdditionalSpecFns;
use std::sync::Arc;
use std::string::String;

verus! {

/// Calls `core::str::from_utf8`, which succeeds exactly on well-formed UTF-8
/// and then views the very same bytes as a `str`.
#[verifier::external_body]
pub(crate) fn str_from_utf8(bytes: &[u8]) -> (r: Option<&str>)
    ensures
        r is Some <==> valid_utf8(bytes@),
        r matches Some(s) ==> s.spec_bytes() == bytes@,
{
    match core::str::from_utf8(bytes) {
        Ok(s) => Some(s),
        Err(_) => None,
    }
}

/// Calls `Arc::clone`, which hands out another reference to the same
/// allocation, so the clone holds the same string.
#[verifier::external_body]
pub(crate) fn clone_shared(a: &Arc<String>) -> (r: Arc<String>)
    ensures
        r == *a,
{
    Arc::clone(a)
}

/// Calls `String::from` on a `char`: a string of that one character.
#[verifier::external_body]
pub(crate) fn char_to_string(c: char) -> (r: String)
    ensures
        r@ == seq![c],
{
    String::from(c)
}

/// Calls `String::with_capacity`: an empty string. It panics when the
/// capacity exceeds `isize::MAX` bytes, which `requires` rules out. How much
/// it allocates is not stated: nothing here depends on it.
#[verifier::external_body]
pub(crate) fn string_with_capacity(capacity: usize) -> (r: String)
    requires
        capacity <= isize::MAX,
    ensures
        r@ == Seq::<char>::empty(),
{
    String::with_capacity(capacity)
}

/// Calls `String::reserve_exact`, which only allocates: the contents stay.
/// It panics when the new capacity exceeds `isize::MAX` bytes, which
/// `requires` rules out.
#[verifier::external_body]
pub(crate) fn string_reserve_exact(s: &mut String, additional: usize)
    requires
        encode_utf8(old(s)@).len() + additional <= isize::MAX,
    ensures
        final(s)@ == old(s)@,
{
    s.reserve_exact(additional)
}

/// Calls `String::shrink_to`, which only gives memory back: the contents stay.
#[verifier::external_body]
pub(crate) fn string_shrink_to(s: &mut String, min_capacity: usize)
    ensures
        final(s)@ == old(s)@,
{
    s.shrink_to(min_capacity)
}

/// Calls `String::leak`: the contents stay alive, unowned, for the rest of the
/// program.
#[verifier::external_body]
pub(crate) fn leak_string(s: String) -> (r: &'static str)
    ensures
        r@ == s@,
{
    s.leak()
}

/// Calls `Arc::try_unwrap`, which hands back the string when this was the only
/// reference to it, and the reference itself otherwise. Which of the two
/// happens depends on the other references alive, so only what holds either
/// way is stated.
#[verifier::external_body]
pub(crate) fn try_unwrap_shared(a: Arc<String>) -> (r: Result<String, Arc<String>>)
    ensures
        match r {
            Ok(s) => s@ == a@,
            Err(b) => b == a,
        },
{
    Arc::try_unwrap(a)
}

/// Declares `core::fmt::Error`, the error that `fmt::Write` reports.
#[verifier::external_type_specification]
#[verifier::external_body]
pub struct ExFmtError(core::fmt::Error);

/// Makes the `core::fmt::Error` value, a unit struct that carries nothing.
#[verifier::external_body]
pub(crate) fn fmt_error() -> core::fmt::Error {
    core::fmt::Error
}

/// Declares `core::fmt::Formatter`, the destination of formatting.
#[verifier::external_type_specification]
#[verifier::external_body]
pub struct ExFormatter<'a>(core::fmt::Formatter<'a>);

/// Writes `s` in double quotes to `f` with `write!`. What the formatter
/// receives is opaque here, so nothing is stated of it.
#[verifier::external_body]
pub(crate) fn write_quoted(s: &str, f: &mut core::fmt::Formatter<'_>) -> core::fmt::Result {
    write!(f, "\"{}\"", s)
}

/// Calls `<str as Hash>::hash`, which feeds the bytes of `s` to the hasher.
/// The hasher's state is opaque here, so nothing is stated of it.
#[verifier::external_body]
pub(crate) fn hash_str<H: core::hash::Hasher>(s: &str, state: &mut H) {
    core::hash::Hash::hash(s, state)
}

} // verus!
