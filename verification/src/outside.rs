//! The functions of `std` and of `rustix` that the crate relies on without proof.

use rustix::path::Arg;
use vstd::prelude::*;
use vstd::utf8::*;

verus! {

/// The characters that stand for `bytes` where every sequence that is not UTF-8 is replaced.
pub uninterp spec fn lossy_text(bytes: Seq<u8>) -> Seq<char>;

/// Whether `bytes`, where they are UTF-8 throughout, stand for the text that they encode.
pub open spec fn text_is_decoded(bytes: Seq<u8>) -> bool {
    valid_utf8(bytes) ==> lossy_text(bytes) == decode_utf8(bytes)
}

/// `rustix::path::Arg::to_string_lossy` on a byte slice: the bytes as text, with a
/// replacement character for what is not UTF-8. The result depends on the bytes alone, and
/// bytes that are UTF-8 throughout give the text that they encode. Which replacements other
/// bytes give is left unsaid.
#[verifier::external_body]
pub(crate) fn to_string_lossy(bytes: &[u8]) -> (r: String)
    ensures
        r@ == lossy_text(bytes@),
        valid_utf8(bytes@) ==> r@ == decode_utf8(bytes@),
{
    Arg::to_string_lossy(&bytes).into_owned()
}

/// Whether `size` is what a call of `page_size` gave.
pub open(crate) spec fn is_page_size(size: usize) -> bool {
    call_ensures(page_size, (), size)
}

/// A page size is one that a call gave, and nothing else is.
pub(crate) proof fn theorem_is_page_size(size: usize)
    ensures
        is_page_size(size) <==> call_ensures(page_size, (), size),
{
}

/// Text is decoded where it is that of its UTF-8.
pub proof fn theorem_text_is_decoded(bytes: Seq<u8>)
    requires
        text_is_decoded(bytes),
        valid_utf8(bytes),
    ensures
        lossy_text(bytes) == decode_utf8(bytes),
{
}

/// `rustix::param::page_size`: the number of bytes in a page of memory on the running
/// system. Nothing is claimed of the number itself, which rests on the machine.
#[verifier::external_body]
pub(crate) fn page_size() -> (r: usize) {
    rustix::param::page_size()
}

/// `std::str::from_utf8`: the text that `bytes` encode, if and only if they are UTF-8.
#[verifier::external_body]
pub(crate) fn from_utf8(bytes: &[u8]) -> (r: Option<&str>)
    ensures
        r is Some <==> valid_utf8(bytes@),
        r matches Some(s) ==> s@ == decode_utf8(bytes@),
{
    std::str::from_utf8(bytes).ok()
}

} // verus!
