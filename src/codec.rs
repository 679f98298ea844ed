//! What the two result-file decoders share: their error type, the unit of a
//! variable, and how a decoded value is described.
use vstd::prelude::*;
use crate::protocol::{Sample, Scalar};
use crate::text::{chars_of, same_chars, string_of};

verus! {

/// Why an artifact could not be decoded.
pub enum DecodeError {
    /// The header lacks a usable variable count, point count or variable list.
    Header,
    /// No binary-section marker was found.
    MarkerNotFound,
    /// The binary section is shorter than the header's points need.
    Truncated { expected: usize, actual: usize },
    /// The value section is not valid UTF-8 text.
    NotText,
    /// No complete point could be read.
    NoData,
}

/// The unit of a variable by its declared type.
pub open spec fn unit_of(var_type: Seq<char>) -> Seq<char> {
    if var_type == "voltage"@ {
        "V"@
    } else if var_type == "current"@ {
        "A"@
    } else if var_type == "time"@ {
        "s"@
    } else if var_type == "frequency"@ {
        "Hz"@
    } else {
        ""@
    }
}

pub fn unit_for(var_type: &[char]) -> (r: String)
    ensures
        r@ == unit_of(var_type@),
{
    if same_chars(var_type, chars_of("voltage").as_slice()) {
        string_of(chars_of("V").as_slice())
    } else if same_chars(var_type, chars_of("current").as_slice()) {
        string_of(chars_of("A").as_slice())
    } else if same_chars(var_type, chars_of("time").as_slice()) {
        string_of(chars_of("s").as_slice())
    } else if same_chars(var_type, chars_of("frequency").as_slice()) {
        string_of(chars_of("Hz").as_slice())
    } else {
        string_of(chars_of("").as_slice())
    }
}

/// `s` is the real binary64 value with these bits.
pub open spec fn is_double(s: Sample, bits: u64) -> bool {
    s matches Sample::Real(Scalar::Double(b)) && b == bits
}

/// `s` is the real binary32 value with these bits.
pub open spec fn is_single(s: Sample, bits: u32) -> bool {
    s matches Sample::Real(Scalar::Single(b)) && b == bits
}

/// The analysis kinds by name.
pub open spec fn analysis_name(transient: bool, ac: bool, dc: bool) -> Seq<char> {
    if transient {
        "transient"@
    } else if ac {
        "ac"@
    } else if dc {
        "dc"@
    } else {
        "transient"@
    }
}

} // verus!
