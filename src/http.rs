use vstd::prelude::*;
use vstd::string::StringExecFns;
use vstd::utf8::{decode_utf8, valid_utf8};

use crate::text::utf8_string;

verus! {

/// The text of a response body: the characters it encodes when it is valid
/// UTF-8, an error otherwise.
pub fn get_body_string(body: Vec<u8>) -> (r: Result<String, String>)
    ensures
        r is Ok <==> valid_utf8(body@),
        r is Ok ==> r->Ok_0@ == decode_utf8(body@),
{
    match utf8_string(body) {
        Some(s) => Ok(s),
        None => Err(String::from_str("Failed to parse response as UTF-8")),
    }
}

} // verus!
