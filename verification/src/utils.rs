//! Paths as the system hands them out: bytes.

use vstd::prelude::*;
use vstd::utf8::{decode_utf8, valid_utf8};

verus! {

/// Reads bytes as UTF-8 with `std::str::from_utf8`: the text they encode,
/// or nothing where they are no valid UTF-8.
#[verifier::external_body]
fn read_utf8(bytes: &[u8]) -> (r: Option<String>)
    ensures
        r is Some <==> valid_utf8(bytes@),
        r matches Some(text) ==> text@ == decode_utf8(bytes@),
{
    std::str::from_utf8(bytes).ok().map(String::from)
}

/// The text of a path, for a path that is valid UTF-8.
// For now we assume that all paths are valid UTF-8 and can be converted to Strings without error.
pub fn path_to_string(path: &[u8]) -> (r: String)
    requires
        valid_utf8(path@),
    ensures
        r@ == decode_utf8(path@),
{
    match read_utf8(path) {
        Some(text) => text,
        None => String::new(),
    }
}

} // verus!
