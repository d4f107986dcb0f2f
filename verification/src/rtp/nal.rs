//! NAL unit types as the RTP payload format names them.

use crate::annexb::nal_type;
use vstd::prelude::*;

verus! {

/// The type of a NAL unit, or of an RTP payload that stands for NAL units.
#[derive(Clone, Copy, Debug, PartialEq, Eq, Structural)]
pub enum NalType {
    /// Non-IDR slice (1).
    Slice,
    /// Slice data partition A (2).
    SliceA,
    /// Slice data partition B (3).
    SliceB,
    /// Slice data partition C (4).
    SliceC,
    /// IDR slice, the picture of a keyframe (5).
    Idr,
    /// Supplemental enhancement information (6).
    Sei,
    /// Sequence parameter set (7).
    Sps,
    /// Picture parameter set (8).
    Pps,
    /// Access unit delimiter (9).
    Aud,
    /// Single-time aggregation packet A (24).
    StapA,
    /// Fragmentation unit A (28).
    FuA,
    /// Fragmentation unit B (29).
    FuB,
    /// Any other type, with its number.
    Unknown(u8),
}

impl NalType {
    /// The type that a header byte names by its low five bits.
    pub open spec fn of(header: u8) -> NalType {
        let n = header % 32;
        if n == 1 {
            NalType::Slice
        } else if n == 2 {
            NalType::SliceA
        } else if n == 3 {
            NalType::SliceB
        } else if n == 4 {
            NalType::SliceC
        } else if n == 5 {
            NalType::Idr
        } else if n == 6 {
            NalType::Sei
        } else if n == 7 {
            NalType::Sps
        } else if n == 8 {
            NalType::Pps
        } else if n == 9 {
            NalType::Aud
        } else if n == 24 {
            NalType::StapA
        } else if n == 28 {
            NalType::FuA
        } else if n == 29 {
            NalType::FuB
        } else {
            NalType::Unknown(n as u8)
        }
    }
}

impl From<u8> for NalType {
    fn from(val: u8) -> (t: Self) {
        match nal_type(val) {
            1 => NalType::Slice,
            2 => NalType::SliceA,
            3 => NalType::SliceB,
            4 => NalType::SliceC,
            5 => NalType::Idr,
            6 => NalType::Sei,
            7 => NalType::Sps,
            8 => NalType::Pps,
            9 => NalType::Aud,
            24 => NalType::StapA,
            28 => NalType::FuA,
            29 => NalType::FuB,
            n => NalType::Unknown(n),
        }
    }
}

impl vstd::std_specs::convert::FromSpecImpl<u8> for NalType {
    open spec fn obeys_from_spec() -> bool {
        true
    }

    open spec fn from_spec(v: u8) -> Self {
        NalType::of(v)
    }
}

} // verus!
