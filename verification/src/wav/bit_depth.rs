//! Sample buffers of the supported bit depths.
use vstd::prelude::*;

verus! {

/// Enum listing the supported bit-depths and containers for the samples at each depth.
#[derive(Debug, PartialEq, Clone)]
pub enum BitDepth {
    Uint8(Vec<u8>),
    Int16(Vec<i16>),
    Int24(Vec<i32>),
    Empty,
}

impl Default for BitDepth {
    fn default() -> (r: Self)
        ensures
            r is Empty,
    {
        BitDepth::Empty
    }
}

impl From<Vec<u8>> for BitDepth {
    fn from(v: Vec<u8>) -> (r: Self) {
        BitDepth::Uint8(v)
    }
}

impl vstd::std_specs::convert::FromSpecImpl<Vec<u8>> for BitDepth {
    open spec fn obeys_from_spec() -> bool {
        true
    }

    open spec fn from_spec(v: Vec<u8>) -> Self {
        BitDepth::Uint8(v)
    }
}

impl From<Vec<i16>> for BitDepth {
    fn from(v: Vec<i16>) -> (r: Self) {
        BitDepth::Int16(v)
    }
}

impl vstd::std_specs::convert::FromSpecImpl<Vec<i16>> for BitDepth {
    open spec fn obeys_from_spec() -> bool {
        true
    }

    open spec fn from_spec(v: Vec<i16>) -> Self {
        BitDepth::Int16(v)
    }
}

impl From<Vec<i32>> for BitDepth {
    fn from(v: Vec<i32>) -> (r: Self) {
        BitDepth::Int24(v)
    }
}

impl vstd::std_specs::convert::FromSpecImpl<Vec<i32>> for BitDepth {
    open spec fn obeys_from_spec() -> bool {
        true
    }

    open spec fn from_spec(v: Vec<i32>) -> Self {
        BitDepth::Int24(v)
    }
}

impl vstd::std_specs::convert::TryFromSpecImpl<BitDepth> for Vec<u8> {
    open spec fn obeys_try_from_spec() -> bool {
        true
    }

    open spec fn try_from_spec(value: BitDepth) -> Result<Self, &'static str> {
        match value {
            BitDepth::Uint8(v) => Ok(v),
            _ => Err("Bit-depth is not 8"),
        }
    }
}

impl TryFrom<BitDepth> for Vec<u8> {
    type Error = &'static str;

    /// ## Errors
    ///
    /// This function fails if `value` is not `BitDepth::Uint8`.
    fn try_from(value: BitDepth) -> (r: Result<Self, Self::Error>)
        ensures
            match value {
                BitDepth::Uint8(v) => r == Ok::<Vec<u8>, &'static str>(v),
                _ => r is Err && r->Err_0@ == "Bit-depth is not 8"@,
            },
    {
        if let BitDepth::Uint8(v) = value {
            Ok(v)
        } else {
            Err("Bit-depth is not 8")
        }
    }
}

impl vstd::std_specs::convert::TryFromSpecImpl<BitDepth> for Vec<i16> {
    open spec fn obeys_try_from_spec() -> bool {
        true
    }

    open spec fn try_from_spec(value: BitDepth) -> Result<Self, &'static str> {
        match value {
            BitDepth::Int16(v) => Ok(v),
            _ => Err("Bit-depth is not 16"),
        }
    }
}

impl TryFrom<BitDepth> for Vec<i16> {
    type Error = &'static str;

    /// ## Errors
    ///
    /// This function fails if `value` is not `BitDepth::Int16`.
    fn try_from(value: BitDepth) -> (r: Result<Self, Self::Error>)
        ensures
            match value {
                BitDepth::Int16(v) => r == Ok::<Vec<i16>, &'static str>(v),
                _ => r is Err && r->Err_0@ == "Bit-depth is not 16"@,
            },
    {
        if let BitDepth::Int16(v) = value {
            Ok(v)
        } else {
            Err("Bit-depth is not 16")
        }
    }
}

impl vstd::std_specs::convert::TryFromSpecImpl<BitDepth> for Vec<i32> {
    open spec fn obeys_try_from_spec() -> bool {
        true
    }

    open spec fn try_from_spec(value: BitDepth) -> Result<Self, &'static str> {
        match value {
            BitDepth::Int24(v) => Ok(v),
            _ => Err("Bit-depth is not 24"),
        }
    }
}

impl TryFrom<BitDepth> for Vec<i32> {
    type Error = &'static str;

    /// ## Errors
    ///
    /// This function fails if `value` is not `BitDepth::Int24`.
    fn try_from(value: BitDepth) -> (r: Result<Self, Self::Error>)
        ensures
            match value {
                BitDepth::Int24(v) => r == Ok::<Vec<i32>, &'static str>(v),
                _ => r is Err && r->Err_0@ == "Bit-depth is not 24"@,
            },
    {
        if let BitDepth::Int24(v) = value {
            Ok(v)
        } else {
            Err("Bit-depth is not 24")
        }
    }
}

/// Taking the samples out of a `BitDepth` made from them gives them back.
pub proof fn law_bit_depth_round_trip(a: Vec<u8>, b: Vec<i16>, c: Vec<i32>)
    ensures
        <Vec<u8> as vstd::std_specs::convert::TryFromSpec<BitDepth>>::try_from_spec(
            <BitDepth as vstd::std_specs::convert::FromSpec<Vec<u8>>>::from_spec(a),
        ) == Ok::<Vec<u8>, &'static str>(a),
        <Vec<i16> as vstd::std_specs::convert::TryFromSpec<BitDepth>>::try_from_spec(
            <BitDepth as vstd::std_specs::convert::FromSpec<Vec<i16>>>::from_spec(b),
        ) == Ok::<Vec<i16>, &'static str>(b),
        <Vec<i32> as vstd::std_specs::convert::TryFromSpec<BitDepth>>::try_from_spec(
            <BitDepth as vstd::std_specs::convert::FromSpec<Vec<i32>>>::from_spec(c),
        ) == Ok::<Vec<i32>, &'static str>(c),
{
}

} // verus!
