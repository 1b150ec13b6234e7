//! Text in a buffer of fixed size: the `heapless` crate's `String` of
//! capacity 32 bytes.
//!
//! Nothing in this file is proved. Each item states what the outside code
//! does, as its source shows it, over [`small_text`]: the characters that
//! the buffer holds. What the buffer has room for is counted in the bytes
//! of their UTF-8 encoding.

use vstd::prelude::*;
use vstd::string::StringSliceAdditionalSpecFns;
use vstd::utf8::encode_utf8;

verus! {

/// `heapless::String`, a string in a buffer of `N` bytes.
#[verifier::external_type_specification]
#[verifier::external_body]
pub struct ExSmallString<const N: usize>(heapless::String<N>);

/// The characters that a buffer of 32 bytes holds.
pub uninterp spec fn small_text(s: heapless::String<32>) -> Seq<char>;

/// `heapless::String::new`: a buffer that holds nothing.
#[verifier::external_body]
pub(crate) fn small_new() -> (s: heapless::String<32>)
    ensures
        small_text(s).len() == 0,
{
    heapless::String::new()
}

/// `heapless::String::push_str`: appends `text` where its bytes fit in the
/// buffer beside the bytes that are there, and says so; changes nothing
/// where they do not.
#[verifier::external_body]
pub(crate) fn small_push_str(s: &mut heapless::String<32>, text: &str) -> (fits: bool)
    ensures
        fits == (encode_utf8(small_text(*old(s))).len() + text.spec_bytes().len() <= 32),
        fits ==> small_text(*final(s)) == small_text(*old(s)) + text@,
        !fits ==> small_text(*final(s)) == small_text(*old(s)),
{
    s.push_str(text).is_ok()
}

} // verus!
