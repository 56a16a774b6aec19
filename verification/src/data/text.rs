//! Strings as values hold them.
//!
//! The strings inside values are `SmartString`s of the `smartstring` crate,
//! which keep short contents inline. What such a string holds is taken on
//! trust from that crate: this file holds all that is believed of it, and of
//! the check for well-formed UTF-8 of the standard library.

use smartstring::{LazyCompact, SmartString};
use vstd::prelude::*;
use vstd::utf8::{decode_utf8, valid_utf8};

verus! {

/// A string as values hold it: a `smartstring::SmartString`, which keeps
/// short contents inline.
#[verifier::external_body]
#[derive(Debug, PartialEq, Eq)]
pub struct Text {
    inner: SmartString<LazyCompact>,
}

/// The characters that a `Text` holds.
pub uninterp spec fn text_chars(t: Text) -> Seq<char>;

/// `SmartString::from`, for a string slice: a string that holds the
/// characters of `s`.
#[verifier::external_body]
fn text_from(s: &str) -> (r: Text)
    ensures
        text_chars(r) == s@,
{
    Text { inner: SmartString::from(s) }
}

/// `SmartString::as_str`: the characters that `t` holds, as a string slice.
#[verifier::external_body]
fn text_as_str(t: &Text) -> (r: &str)
    ensures
        r@ == text_chars(*t),
{
    t.inner.as_str()
}

impl View for Text {
    type V = Seq<char>;

    open spec fn view(&self) -> Seq<char> {
        text_chars(*self)
    }
}

impl Clone for Text {
    /// A string that holds the same characters.
    fn clone(&self) -> (r: Text)
        ensures
            r@ == self@,
    {
        text_from(text_as_str(self))
    }
}

impl Text {
    /// A string that holds the characters of `s`.
    pub fn new(s: &str) -> (r: Text)
        ensures
            r@ == s@,
    {
        text_from(s)
    }

    /// The characters of the string, as a string slice.
    pub fn as_str(&self) -> (r: &str)
        ensures
            r@ == self@,
    {
        text_as_str(self)
    }
}

/// `std::str::from_utf8`: the string that `bytes` spell, if they are
/// well-formed UTF-8, and nothing otherwise.
#[verifier::external_body]
pub(crate) fn str_from_utf8<'a>(bytes: &'a [u8]) -> (r: Option<&'a str>)
    ensures
        r is Some <==> valid_utf8(bytes@),
        r matches Some(s) ==> s@ == decode_utf8(bytes@),
{
    std::str::from_utf8(bytes).ok()
}

} // verus!
