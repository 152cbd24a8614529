//! The numeric precision abstraction: wire-format name, byte width,
//! little-endian element codec, and the near-zero sentinel, for the two
//! supported element widths.
//!
//! Elements travel through the library as IEEE-754 bit patterns held in a
//! `u64`; a `Float32` element keeps its pattern in the low 32 bits.

use vstd::prelude::*;
use vstd::bytes::*;
use vstd::string::StringSliceAdditionalSpecFns;

verus! {

/// Bit pattern of `1e-6` at 64-bit width, the near-zero substitute.
pub const SMALL_F64_BITS: u64 = 0x3eb0c6f7a0b5ed8d;

/// Bit pattern of `1e-6` at 32-bit width, the near-zero substitute.
pub const SMALL_F32_BITS: u64 = 0x358637bd;

/// Bit pattern of negative zero at 64-bit width.
pub const NEG_ZERO_F64_BITS: u64 = 0x8000000000000000;

/// Bit pattern of negative zero at 32-bit width.
pub const NEG_ZERO_F32_BITS: u64 = 0x80000000;

/// Bit pattern of `100.0` at 64-bit width; its eight little-endian bytes
/// are the filler run that opens every appended section.
pub const FILLER_F64_BITS: u64 = 0x4059000000000000;

/// Element width of the numeric data: 32- or 64-bit IEEE-754.
#[derive(Debug, Clone, Copy, PartialEq, Eq, Structural)]
pub enum Precision {
    Float64,
    Float32,
}

impl Precision {
    /// Number of bytes one element occupies on the wire.
    pub open spec fn spec_width(self) -> int {
        match self {
            Precision::Float64 => 8,
            Precision::Float32 => 4,
        }
    }

    /// Runtime view of [`Precision::spec_width`].
    pub fn width(self) -> (w: usize)
        ensures
            w == self.spec_width(),
    {
        match self {
            Precision::Float64 => 8,
            Precision::Float32 => 4,
        }
    }

    /// A bit pattern representable at this width.
    pub open spec fn spec_valid_bits(self, b: u64) -> bool {
        match self {
            Precision::Float64 => true,
            Precision::Float32 => b < 0x100000000,
        }
    }

    /// Whether the pattern compares equal to floating-point zero: both
    /// signed zeros qualify.
    pub open spec fn spec_is_zero(self, b: u64) -> bool {
        match self {
            Precision::Float64 => b == 0 || b == NEG_ZERO_F64_BITS,
            Precision::Float32 => b == 0 || b == NEG_ZERO_F32_BITS,
        }
    }

    /// Runtime view of [`Precision::spec_is_zero`].
    pub fn is_zero(self, b: u64) -> (r: bool)
        ensures
            r == self.spec_is_zero(b),
    {
        match self {
            Precision::Float64 => b == 0 || b == NEG_ZERO_F64_BITS,
            Precision::Float32 => b == 0 || b == NEG_ZERO_F32_BITS,
        }
    }

    /// The near-zero sentinel at this width.
    pub open spec fn spec_small(self) -> u64 {
        match self {
            Precision::Float64 => SMALL_F64_BITS,
            Precision::Float32 => SMALL_F32_BITS,
        }
    }

    /// Runtime view of [`Precision::spec_small`].
    pub fn small(self) -> (b: u64)
        ensures
            b == self.spec_small(),
            self.spec_valid_bits(b),
            !self.spec_is_zero(b),
    {
        match self {
            Precision::Float64 => SMALL_F64_BITS,
            Precision::Float32 => SMALL_F32_BITS,
        }
    }

    /// The `type` attribute value naming this width on the wire.
    pub open spec fn spec_wire_name(self) -> Seq<u8> {
        match self {
            Precision::Float64 => "Float64".spec_bytes(),
            Precision::Float32 => "Float32".spec_bytes(),
        }
    }

    /// The wire-format name: `Float64` or `Float32`.
    pub fn to_str(self) -> (r: &'static str)
        ensures
            r.spec_bytes() == self.spec_wire_name(),
    {
        match self {
            Precision::Float64 => "Float64",
            Precision::Float32 => "Float32",
        }
    }

    /// Recognize a wire-format name; inverse of [`Precision::to_str`].
    pub fn from_wire_name(v: &[u8]) -> (r: Option<Precision>)
        ensures
            match r {
                Some(p) => v@ == p.spec_wire_name(),
                None => v@ != Precision::Float64.spec_wire_name() && v@
                    != Precision::Float32.spec_wire_name(),
            },
    {
        if crate::bytebuf::bytes_eq_str(v, "Float64") {
            Some(Precision::Float64)
        } else if crate::bytebuf::bytes_eq_str(v, "Float32") {
            Some(Precision::Float32)
        } else {
            None
        }
    }

    /// A NaN pattern: exponent bits all set and a non-zero mantissa.
    pub open spec fn spec_is_nan(self, b: u64) -> bool {
        match self {
            Precision::Float64 => (b & 0x7ff0000000000000) == 0x7ff0000000000000 && (b
                & 0x000fffffffffffff) != 0,
            Precision::Float32 => (b & 0x7f800000) == 0x7f800000 && (b & 0x007fffff) != 0,
        }
    }

    /// The little-endian bytes of one element.
    pub open spec fn spec_le_bytes(self, b: u64) -> Seq<u8> {
        match self {
            Precision::Float64 => spec_u64_to_le_bytes(b),
            Precision::Float32 => spec_u32_to_le_bytes(b as u32),
        }
    }

    /// The bit pattern read from one element's little-endian bytes.
    pub open spec fn spec_from_le_bytes(self, s: Seq<u8>) -> u64 {
        match self {
            Precision::Float64 => spec_u64_from_le_bytes(s),
            Precision::Float32 => spec_u32_from_le_bytes(s) as u64,
        }
    }

    /// Append one element's little-endian bytes to `out`.
    pub fn push_le_bytes(self, out: &mut Vec<u8>, b: u64)
        requires
            self.spec_valid_bits(b),
        ensures
            final(out)@ == old(out)@ + self.spec_le_bytes(b),
            final(out)@.len() == old(out)@.len() + self.spec_width(),
    {
        proof {
            self.lemma_le_bytes(b);
        }
        match self {
            Precision::Float64 => {
                let bs = u64_to_le_bytes(b);
                crate::bytebuf::push_bytes(out, bs.as_slice());
            },
            Precision::Float32 => {
                let bs = u32_to_le_bytes(b as u32);
                crate::bytebuf::push_bytes(out, bs.as_slice());
            },
        }
    }

    /// Read one element's bit pattern from `s` at `pos`.
    pub fn read_le_bytes(self, s: &[u8], pos: usize) -> (b: u64)
        requires
            pos + self.spec_width() <= s@.len(),
        ensures
            b == self.spec_from_le_bytes(s@.subrange(pos as int, pos + self.spec_width())),
            self.spec_valid_bits(b),
    {
        let n = s.len();
        match self {
            Precision::Float64 => {
                let w = vstd::slice::slice_subrange(s, pos, pos + 8);
                u64_from_le_bytes(w)
            },
            Precision::Float32 => {
                let w = vstd::slice::slice_subrange(s, pos, pos + 4);
                let v = u32_from_le_bytes(w);
                proof {
                    self.lemma_from_le_bytes_valid(s@.subrange(pos as int, pos + 4));
                }
                v as u64
            },
        }
    }

    /// The byte rendering always has exactly the element width.
    pub proof fn lemma_le_bytes_len(self, b: u64)
        ensures
            self.spec_le_bytes(b).len() == self.spec_width(),
    {
        match self {
            Precision::Float64 => {
                lemma_auto_spec_u64_to_from_le_bytes();
            },
            Precision::Float32 => {
                lemma_auto_spec_u32_to_from_le_bytes();
            },
        }
    }

    /// Width and validity of an element's byte rendering.
    pub proof fn lemma_le_bytes(self, b: u64)
        requires
            self.spec_valid_bits(b),
        ensures
            self.spec_le_bytes(b).len() == self.spec_width(),
            self.spec_from_le_bytes(self.spec_le_bytes(b)) == b,
    {
        match self {
            Precision::Float64 => {
                lemma_auto_spec_u64_to_from_le_bytes();
            },
            Precision::Float32 => {
                lemma_auto_spec_u32_to_from_le_bytes();
                assert(b as u32 as u64 == b);
            },
        }
    }

    /// A pattern read back from any element-width byte run is valid and
    /// renders back to the same bytes.
    pub proof fn lemma_from_le_bytes_valid(self, s: Seq<u8>)
        requires
            s.len() == self.spec_width(),
        ensures
            self.spec_valid_bits(self.spec_from_le_bytes(s)),
            self.spec_le_bytes(self.spec_from_le_bytes(s)) == s,
    {
        match self {
            Precision::Float64 => {
                lemma_auto_spec_u64_to_from_le_bytes();
            },
            Precision::Float32 => {
                lemma_auto_spec_u32_to_from_le_bytes();
                assert(spec_u32_from_le_bytes(s) as u64 as u32 == spec_u32_from_le_bytes(s));
            },
        }
    }
}

} // verus!
