//! Text forms that the standard library computes.

use vstd::prelude::*;
use vstd::string::*;
use vstd::utf8::valid_utf8;

verus! {

/// `core::str::from_utf8`: the bytes as text, if they are valid UTF-8, and
/// nothing if they are not.  The text is the same bytes, read as characters.
#[verifier::external_body]
pub(crate) fn text_of(bytes: &[u8]) -> (r: Option<&str>)
    ensures
        r is Some <==> valid_utf8(bytes@),
        r matches Some(text) ==> text.spec_bytes() == bytes@,
{
    core::str::from_utf8(bytes).ok()
}

/// The debug form of a string: the text that `{:?}` prints for it, in quotes
/// and with escapes.
pub uninterp spec fn debug_of(s: Seq<char>) -> Seq<char>;

/// `<str as core::fmt::Debug>::fmt`, through `format!`: the result is the
/// debug form of the argument.  Nothing more is claimed of it.
#[verifier::external_body]
pub(crate) fn debug_form(s: &str) -> (r: String)
    ensures
        r@ == debug_of(s@),
{
    format!("{:?}", s)
}

} // verus!
