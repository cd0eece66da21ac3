use vstd::prelude::*;

use crate::b64::{b64_decode, decode_range, strip_padding, strip_padding_end};
use crate::text::{chars_of, trim, trim_bounds};

verus! {

/// The bytes that an ECH config string decodes to: white space trimmed from both
/// ends, trailing `=` dropped, then lenient base64.
pub open spec fn ech_b64_spec(input: Seq<char>) -> Option<Seq<u8>> {
    b64_decode(strip_padding(trim(input)))
}

pub fn decode_config(input: &str) -> (r: Result<Vec<u8>, &'static str>)
    ensures
        match r {
            Ok(v) => ech_b64_spec(input@) == Some(v@),
            Err(_) => ech_b64_spec(input@) is None,
        },
{
    let v = chars_of(input);
    let (lo, hi) = trim_bounds(&v, 0, v.len());
    proof {
        assert(v@.subrange(0, v@.len() as int) =~= input@);
    }
    let end = strip_padding_end(&v, lo, hi);
    match decode_range(&v, lo, end) {
        Some(o) => Ok(o),
        None => Err("invalid base64 character"),
    }
}

} // verus!
