//! Spans and meshes describing rectilinear computational domains, and the
//! domain types that tie them together for writing.

use vstd::prelude::*;
use vstd::string::StringSliceAdditionalSpecFns;
use core::marker::PhantomData;
use crate::codec;
use crate::precision::Precision;
use crate::decimal::{dec_digits, dec_val, is_dec_token, lemma_dec_digits_wf, lemma_dec_roundtrip};
use crate::traits::{Domain, Numeric, ParseMesh, ParseSpan, Span, Visitor};
use crate::parse::{spec_parse_da, DataArrayHeader, Mesh as MeshError, PartialDataArrayBuffered, PendingArena};

verus! {

/// The single-space separator of a span string.
pub open spec fn sp_byte() -> Seq<u8> {
    seq![0x20u8]
}

/// Inclusive index range per spatial axis for a 3D domain.
///
/// Invariant: each axis satisfies `start <= end`, and the derived length
/// `end - start + 1` fits in `usize`.
#[derive(Debug, Clone, PartialEq, Eq, Structural)]
pub struct Spans3D {
    pub x_start: usize,
    pub x_end: usize,
    pub y_start: usize,
    pub y_end: usize,
    pub z_start: usize,
    pub z_end: usize,
}

impl Spans3D {
    /// A span is well formed when every axis has at least one point and
    /// the axis lengths can be computed without overflow.
    pub open spec fn wf(self) -> bool {
        &&& self.x_start <= self.x_end < usize::MAX
        &&& self.y_start <= self.y_end < usize::MAX
        &&& self.z_start <= self.z_end < usize::MAX
    }

    /// Number of points along the X axis, as a mathematical integer.
    pub open spec fn spec_x_len(self) -> int {
        self.x_end - self.x_start + 1
    }

    /// Number of points along the Y axis, as a mathematical integer.
    pub open spec fn spec_y_len(self) -> int {
        self.y_end - self.y_start + 1
    }

    /// Number of points along the Z axis, as a mathematical integer.
    pub open spec fn spec_z_len(self) -> int {
        self.z_end - self.z_start + 1
    }

    /// Create a one-based span covering `nx` by `ny` by `nz` points.
    pub fn new(nx: usize, ny: usize, nz: usize) -> (s: Self)
        requires
            0 < nx < usize::MAX,
            0 < ny < usize::MAX,
            0 < nz < usize::MAX,
        ensures
            s.wf(),
            s.x_start == 1 && s.x_end == nx,
            s.y_start == 1 && s.y_end == ny,
            s.z_start == 1 && s.z_end == nz,
            s.spec_x_len() == nx && s.spec_y_len() == ny && s.spec_z_len() == nz,
    {
        Spans3D { x_start: 1, x_end: nx, y_start: 1, y_end: ny, z_start: 1, z_end: nz }
    }

    /// Runtime view of [`Spans3D::wf`].
    pub fn check_wf(&self) -> (r: bool)
        ensures
            r == self.wf(),
    {
        self.x_start <= self.x_end && self.x_end < usize::MAX && self.y_start <= self.y_end
            && self.y_end < usize::MAX && self.z_start <= self.z_end && self.z_end < usize::MAX
    }

    /// Point count along X: `x_end - x_start + 1`.
    pub fn x_len(&self) -> (n: usize)
        requires
            self.wf(),
        ensures
            n == self.spec_x_len(),
    {
        self.x_end - self.x_start + 1
    }

    /// Point count along Y: `y_end - y_start + 1`.
    pub fn y_len(&self) -> (n: usize)
        requires
            self.wf(),
        ensures
            n == self.spec_y_len(),
    {
        self.y_end - self.y_start + 1
    }

    /// Point count along Z: `z_end - z_start + 1`.
    pub fn z_len(&self) -> (n: usize)
        requires
            self.wf(),
        ensures
            n == self.spec_z_len(),
    {
        self.z_end - self.z_start + 1
    }

    /// The span string written to a file: the six bounds, space
    /// separated.
    pub open spec fn spec_string(self) -> Seq<u8> {
        dec_digits(self.x_start as nat) + sp_byte() + dec_digits(self.x_end as nat) + sp_byte()
            + dec_digits(self.y_start as nat) + sp_byte() + dec_digits(self.y_end as nat)
            + sp_byte() + dec_digits(self.z_start as nat) + sp_byte() + dec_digits(
            self.z_end as nat,
        )
    }

    /// Format the spans as they are written to a file.
    pub fn to_string(&self) -> (s: Vec<u8>)
        ensures
            s@ == self.spec_string(),
    {
        let mut out: Vec<u8> = Vec::new();
        crate::decimal::push_decimal(&mut out, self.x_start);
        out.push(0x20);
        crate::decimal::push_decimal(&mut out, self.x_end);
        out.push(0x20);
        crate::decimal::push_decimal(&mut out, self.y_start);
        out.push(0x20);
        crate::decimal::push_decimal(&mut out, self.y_end);
        out.push(0x20);
        crate::decimal::push_decimal(&mut out, self.z_start);
        out.push(0x20);
        crate::decimal::push_decimal(&mut out, self.z_end);
        proof {
            assert(out@ =~= self.spec_string());
        }
        out
    }

    /// The span a six-number span string parses to; trailing extra
    /// numbers are tolerated and ignored.
    pub open spec fn spec_parse(s: Seq<u8>) -> Option<Spans3D> {
        let ts = codec::split_tokens(s);
        if ts.len() >= 6 && (forall|i: int|
            0 <= i < 6 ==> is_dec_token(#[trigger] ts[i]) && dec_val(ts[i]) <= usize::MAX) {
            Some(
                Spans3D {
                    x_start: dec_val(ts[0]) as usize,
                    x_end: dec_val(ts[1]) as usize,
                    y_start: dec_val(ts[2]) as usize,
                    y_end: dec_val(ts[3]) as usize,
                    z_start: dec_val(ts[4]) as usize,
                    z_end: dec_val(ts[5]) as usize,
                },
            )
        } else {
            None
        }
    }

    /// Parse a `"xs xe ys ye zs ze"` span string; `None` when it does not
    /// begin with six whitespace-separated numbers that fit.
    pub fn try_from_span_bytes(s: &[u8]) -> (r: Option<Spans3D>)
        ensures
            r == Spans3D::spec_parse(s@),
    {
        let ts = codec::tokenize(s);
        if ts.len() < 6 {
            proof {
                assert(codec::split_tokens(s@).len() < 6);
            }
            return None;
        }
        let mut vals: Vec<usize> = Vec::new();
        let mut i: usize = 0;
        while i < 6
            invariant
                0 <= i <= 6,
                ts.deep_view() =~~= codec::split_tokens(s@),
                ts@.len() >= 6,
                vals@.len() == i,
                forall|j: int|
                    0 <= j < i ==> is_dec_token(#[trigger] codec::split_tokens(s@)[j]) && dec_val(
                        codec::split_tokens(s@)[j],
                    ) <= usize::MAX && vals@[j] == dec_val(codec::split_tokens(s@)[j]),
            decreases 6 - i,
        {
            proof {
                assert(ts.deep_view()[i as int] == ts@[i as int]@);
            }
            match crate::decimal::parse_usize_token(ts[i].as_slice()) {
                Some(v) => {
                    vals.push(v);
                },
                None => {
                    return None;
                },
            }
            i = i + 1;
        }
        Some(
            Spans3D {
                x_start: vals[0],
                x_end: vals[1],
                y_start: vals[2],
                y_end: vals[3],
                z_start: vals[4],
                z_end: vals[5],
            },
        )
    }

    /// Parse a span string that is known to be well formed, as file
    /// authoring code uses it.
    pub fn from_span_string(span_string: &str) -> (r: Self)
        requires
            Spans3D::spec_parse(span_string.spec_bytes()) is Some,
        ensures
            Some(r) == Spans3D::spec_parse(span_string.spec_bytes()),
    {
        Spans3D::try_from_span_bytes(span_string.as_bytes()).unwrap()
    }

    /// A written span string parses back to the same span.
    #[verifier::rlimit(60)]
    pub proof fn lemma_string_roundtrip(self)
        ensures
            Spans3D::spec_parse(self.spec_string()) == Some(self),
    {
        let d0 = dec_digits(self.x_start as nat);
        let d1 = dec_digits(self.x_end as nat);
        let d2 = dec_digits(self.y_start as nat);
        let d3 = dec_digits(self.y_end as nat);
        let d4 = dec_digits(self.z_start as nat);
        let d5 = dec_digits(self.z_end as nat);
        lemma_dec_digits_wf(self.x_start as nat);
        lemma_dec_digits_wf(self.x_end as nat);
        lemma_dec_digits_wf(self.y_start as nat);
        lemma_dec_digits_wf(self.y_end as nat);
        lemma_dec_digits_wf(self.z_start as nat);
        lemma_dec_digits_wf(self.z_end as nat);
        lemma_dec_tokens_are_tokens(self.x_start as nat);
        lemma_dec_tokens_are_tokens(self.x_end as nat);
        lemma_dec_tokens_are_tokens(self.y_start as nat);
        lemma_dec_tokens_are_tokens(self.y_end as nat);
        lemma_dec_tokens_are_tokens(self.z_start as nat);
        lemma_dec_tokens_are_tokens(self.z_end as nat);
        let tail4 = d4 + sp_byte() + d5;
        let tail3 = d3 + sp_byte() + tail4;
        let tail2 = d2 + sp_byte() + tail3;
        let tail1 = d1 + sp_byte() + tail2;
        let whole = d0 + sp_byte() + tail1;
        assert(self.spec_string() =~= whole);
        codec::lemma_split_token_sp(d0, tail1);
        assert(tail1 =~= d1 + sp_byte() + tail2);
        codec::lemma_split_token_sp(d1, tail2);
        assert(tail2 =~= d2 + sp_byte() + tail3);
        codec::lemma_split_token_sp(d2, tail3);
        assert(tail3 =~= d3 + sp_byte() + tail4);
        codec::lemma_split_token_sp(d3, tail4);
        assert(tail4 =~= d4 + sp_byte() + d5);
        codec::lemma_split_token_sp(d4, d5);
        codec::lemma_split_single_token(d5);
        let ts = codec::split_tokens(self.spec_string());
        assert(ts =~~= seq![d0, d1, d2, d3, d4, d5]);
        lemma_dec_roundtrip(self.x_start as nat);
        lemma_dec_roundtrip(self.x_end as nat);
        lemma_dec_roundtrip(self.y_start as nat);
        lemma_dec_roundtrip(self.y_end as nat);
        lemma_dec_roundtrip(self.z_start as nat);
        lemma_dec_roundtrip(self.z_end as nat);
        assert(Spans3D::spec_parse(self.spec_string()) == Some(self));
    }
}

/// A rendered span string can stand in an attribute: every byte is a
/// digit or a space, so none is the quote that would end the attribute
/// early, and the string parses back as a span.
pub proof fn lemma_span3_string_scannable(sp: Spans3D)
    ensures
        forall|i: int|
            0 <= i < sp.spec_string().len() ==> (#[trigger] sp.spec_string()[i]) != 0x22,
        Spans3D::spec_parse(sp.spec_string()) is Some,
{
    lemma_dec_digits_wf(sp.x_start as nat);
    lemma_dec_digits_wf(sp.x_end as nat);
    lemma_dec_digits_wf(sp.y_start as nat);
    lemma_dec_digits_wf(sp.y_end as nat);
    lemma_dec_digits_wf(sp.z_start as nat);
    lemma_dec_digits_wf(sp.z_end as nat);
    let d0 = dec_digits(sp.x_start as nat);
    let d1 = dec_digits(sp.x_end as nat);
    let d2 = dec_digits(sp.y_start as nat);
    let d3 = dec_digits(sp.y_end as nat);
    let d4 = dec_digits(sp.z_start as nat);
    let d5 = dec_digits(sp.z_end as nat);
    let w = sp.spec_string();
    assert forall|i: int| 0 <= i < w.len() implies (#[trigger] w[i]) != 0x22 by {
        let l0 = d0.len() as int;
        let l1 = l0 + 1 + d1.len();
        let l2 = l1 + 1 + d2.len();
        let l3 = l2 + 1 + d3.len();
        let l4 = l3 + 1 + d4.len();
        if i < l0 {
            assert(w[i] == d0[i]);
            assert(crate::decimal::is_digit(d0[i]));
        } else if i == l0 {
            assert(w[i] == 0x20);
        } else if i < l1 {
            assert(w[i] == d1[i - l0 - 1]);
            assert(crate::decimal::is_digit(d1[i - l0 - 1]));
        } else if i == l1 {
            assert(w[i] == 0x20);
        } else if i < l2 {
            assert(w[i] == d2[i - l1 - 1]);
            assert(crate::decimal::is_digit(d2[i - l1 - 1]));
        } else if i == l2 {
            assert(w[i] == 0x20);
        } else if i < l3 {
            assert(w[i] == d3[i - l2 - 1]);
            assert(crate::decimal::is_digit(d3[i - l2 - 1]));
        } else if i == l3 {
            assert(w[i] == 0x20);
        } else if i < l4 {
            assert(w[i] == d4[i - l3 - 1]);
            assert(crate::decimal::is_digit(d4[i - l3 - 1]));
        } else if i == l4 {
            assert(w[i] == 0x20);
        } else {
            assert(w[i] == d5[i - l4 - 1]);
            assert(crate::decimal::is_digit(d5[i - l4 - 1]));
        }
    }
    sp.lemma_string_roundtrip();
}

/// Rendered numbers are writable tokens: digits are neither whitespace
/// nor markup.
proof fn lemma_dec_tokens_are_tokens(n: nat)
    ensures
        codec::is_token(dec_digits(n)),
{
    lemma_dec_digits_wf(n);
    assert forall|i: int| 0 <= i < dec_digits(n).len() implies !codec::is_space(
        #[trigger] dec_digits(n)[i],
    ) && dec_digits(n)[i] != 0x3c by {
        assert(crate::decimal::is_digit(dec_digits(n)[i]));
    }
}

impl Span for Spans3D {
    open spec fn spec_span_wf(&self) -> bool {
        self.wf() && self.spec_x_len() * self.spec_y_len() * self.spec_z_len() <= usize::MAX
    }

    open spec fn spec_num_elements(&self) -> int {
        self.spec_x_len() * self.spec_y_len() * self.spec_z_len()
    }

    fn num_elements(&self) -> usize {
        proof {
            assert(self.spec_x_len() * self.spec_y_len() <= self.spec_x_len() * self.spec_y_len()
                * self.spec_z_len()) by (nonlinear_arith)
                requires
                    self.spec_x_len() >= 1 && self.spec_y_len() >= 1 && self.spec_z_len() >= 1,
            ;
        }
        self.x_len() * self.y_len() * self.z_len()
    }
}

impl ParseSpan for Spans3D {
    open spec fn spec_from_span_str(s: Seq<u8>) -> Option<Spans3D> {
        Spans3D::spec_parse(s)
    }

    fn from_str(extent: &[u8]) -> Option<Spans3D> {
        Spans3D::try_from_span_bytes(extent)
    }
}

/// Inclusive index range per spatial axis for a 2D domain.
#[derive(Debug, Clone, PartialEq, Eq, Structural)]
pub struct Spans2D {
    pub x_start: usize,
    pub x_end: usize,
    pub y_start: usize,
    pub y_end: usize,
}

impl Spans2D {
    /// A span is well formed when both axes have at least one point and
    /// the axis lengths can be computed without overflow.
    pub open spec fn wf(self) -> bool {
        &&& self.x_start <= self.x_end < usize::MAX
        &&& self.y_start <= self.y_end < usize::MAX
    }

    /// Number of points along the X axis, as a mathematical integer.
    pub open spec fn spec_x_len(self) -> int {
        self.x_end - self.x_start + 1
    }

    /// Number of points along the Y axis, as a mathematical integer.
    pub open spec fn spec_y_len(self) -> int {
        self.y_end - self.y_start + 1
    }

    /// Create a one-based span covering `nx` by `ny` points.
    pub fn new(nx: usize, ny: usize) -> (s: Self)
        requires
            0 < nx < usize::MAX,
            0 < ny < usize::MAX,
        ensures
            s.wf(),
            s.x_start == 1 && s.x_end == nx,
            s.y_start == 1 && s.y_end == ny,
            s.spec_x_len() == nx && s.spec_y_len() == ny,
    {
        Spans2D { x_start: 1, x_end: nx, y_start: 1, y_end: ny }
    }

    /// Runtime view of [`Spans2D::wf`].
    pub fn check_wf(&self) -> (r: bool)
        ensures
            r == self.wf(),
    {
        self.x_start <= self.x_end && self.x_end < usize::MAX && self.y_start <= self.y_end
            && self.y_end < usize::MAX
    }

    /// Point count along X: `x_end - x_start + 1`.
    pub fn x_len(&self) -> (n: usize)
        requires
            self.wf(),
        ensures
            n == self.spec_x_len(),
    {
        self.x_end - self.x_start + 1
    }

    /// Point count along Y: `y_end - y_start + 1`.
    pub fn y_len(&self) -> (n: usize)
        requires
            self.wf(),
        ensures
            n == self.spec_y_len(),
    {
        self.y_end - self.y_start + 1
    }

    /// The span string written to a file: the four bounds followed by the
    /// synthetic unit Z axis, space separated.
    pub open spec fn spec_string(self) -> Seq<u8> {
        dec_digits(self.x_start as nat) + sp_byte() + dec_digits(self.x_end as nat) + sp_byte()
            + dec_digits(self.y_start as nat) + sp_byte() + dec_digits(self.y_end as nat)
            + sp_byte() + dec_digits(1) + sp_byte() + dec_digits(1)
    }

    /// Format the spans as they are written to a file.
    pub fn to_string(&self) -> (s: Vec<u8>)
        ensures
            s@ == self.spec_string(),
    {
        let mut out: Vec<u8> = Vec::new();
        crate::decimal::push_decimal(&mut out, self.x_start);
        out.push(0x20);
        crate::decimal::push_decimal(&mut out, self.x_end);
        out.push(0x20);
        crate::decimal::push_decimal(&mut out, self.y_start);
        out.push(0x20);
        crate::decimal::push_decimal(&mut out, self.y_end);
        out.push(0x20);
        crate::decimal::push_decimal(&mut out, 1);
        out.push(0x20);
        crate::decimal::push_decimal(&mut out, 1);
        proof {
            assert(out@ =~= self.spec_string());
        }
        out
    }

    /// The span a four-number span string parses to; trailing numbers,
    /// such as a written unit Z axis, are tolerated and ignored.
    pub open spec fn spec_parse(s: Seq<u8>) -> Option<Spans2D> {
        let ts = codec::split_tokens(s);
        if ts.len() >= 4 && (forall|i: int|
            0 <= i < 4 ==> is_dec_token(#[trigger] ts[i]) && dec_val(ts[i]) <= usize::MAX) {
            Some(
                Spans2D {
                    x_start: dec_val(ts[0]) as usize,
                    x_end: dec_val(ts[1]) as usize,
                    y_start: dec_val(ts[2]) as usize,
                    y_end: dec_val(ts[3]) as usize,
                },
            )
        } else {
            None
        }
    }

    /// Parse a span string; `None` when it does not begin with four
    /// whitespace-separated numbers that fit.
    pub fn try_from_span_bytes(s: &[u8]) -> (r: Option<Spans2D>)
        ensures
            r == Spans2D::spec_parse(s@),
    {
        let ts = codec::tokenize(s);
        if ts.len() < 4 {
            proof {
                assert(codec::split_tokens(s@).len() < 4);
            }
            return None;
        }
        let mut vals: Vec<usize> = Vec::new();
        let mut i: usize = 0;
        while i < 4
            invariant
                0 <= i <= 4,
                ts.deep_view() =~~= codec::split_tokens(s@),
                ts@.len() >= 4,
                vals@.len() == i,
                forall|j: int|
                    0 <= j < i ==> is_dec_token(#[trigger] codec::split_tokens(s@)[j]) && dec_val(
                        codec::split_tokens(s@)[j],
                    ) <= usize::MAX && vals@[j] == dec_val(codec::split_tokens(s@)[j]),
            decreases 4 - i,
        {
            proof {
                assert(ts.deep_view()[i as int] == ts@[i as int]@);
            }
            match crate::decimal::parse_usize_token(ts[i].as_slice()) {
                Some(v) => {
                    vals.push(v);
                },
                None => {
                    return None;
                },
            }
            i = i + 1;
        }
        Some(Spans2D { x_start: vals[0], x_end: vals[1], y_start: vals[2], y_end: vals[3] })
    }

    /// Parse a span string that is known to be well formed, as file
    /// authoring code uses it.
    pub fn from_span_string(span_string: &str) -> (r: Self)
        requires
            Spans2D::spec_parse(span_string.spec_bytes()) is Some,
        ensures
            Some(r) == Spans2D::spec_parse(span_string.spec_bytes()),
    {
        Spans2D::try_from_span_bytes(span_string.as_bytes()).unwrap()
    }
}

impl Spans2D {
    /// A written span string parses back to the same span; the synthetic
    /// unit Z numbers are written and ignored on the way back.
    #[verifier::rlimit(60)]
    pub proof fn lemma_string_roundtrip(self)
        ensures
            Spans2D::spec_parse(self.spec_string()) == Some(self),
    {
        let d0 = dec_digits(self.x_start as nat);
        let d1 = dec_digits(self.x_end as nat);
        let d2 = dec_digits(self.y_start as nat);
        let d3 = dec_digits(self.y_end as nat);
        let d4 = dec_digits(1);
        let d5 = dec_digits(1);
        lemma_dec_digits_wf(self.x_start as nat);
        lemma_dec_digits_wf(self.x_end as nat);
        lemma_dec_digits_wf(self.y_start as nat);
        lemma_dec_digits_wf(self.y_end as nat);
        lemma_dec_digits_wf(1);
        lemma_dec_tokens_are_tokens(self.x_start as nat);
        lemma_dec_tokens_are_tokens(self.x_end as nat);
        lemma_dec_tokens_are_tokens(self.y_start as nat);
        lemma_dec_tokens_are_tokens(self.y_end as nat);
        lemma_dec_tokens_are_tokens(1);
        let tail4 = d4 + sp_byte() + d5;
        let tail3 = d3 + sp_byte() + tail4;
        let tail2 = d2 + sp_byte() + tail3;
        let tail1 = d1 + sp_byte() + tail2;
        let whole = d0 + sp_byte() + tail1;
        assert(self.spec_string() =~= whole);
        codec::lemma_split_token_sp(d0, tail1);
        assert(tail1 =~= d1 + sp_byte() + tail2);
        codec::lemma_split_token_sp(d1, tail2);
        assert(tail2 =~= d2 + sp_byte() + tail3);
        codec::lemma_split_token_sp(d2, tail3);
        assert(tail3 =~= d3 + sp_byte() + tail4);
        codec::lemma_split_token_sp(d3, tail4);
        assert(tail4 =~= d4 + sp_byte() + d5);
        codec::lemma_split_token_sp(d4, d5);
        codec::lemma_split_single_token(d5);
        let ts = codec::split_tokens(self.spec_string());
        assert(ts =~~= seq![d0, d1, d2, d3, d4, d5]);
        lemma_dec_roundtrip(self.x_start as nat);
        lemma_dec_roundtrip(self.x_end as nat);
        lemma_dec_roundtrip(self.y_start as nat);
        lemma_dec_roundtrip(self.y_end as nat);
        assert(Spans2D::spec_parse(self.spec_string()) == Some(self));
    }
}

impl Span for Spans2D {
    open spec fn spec_span_wf(&self) -> bool {
        self.wf() && self.spec_x_len() * self.spec_y_len() <= usize::MAX
    }

    open spec fn spec_num_elements(&self) -> int {
        self.spec_x_len() * self.spec_y_len()
    }

    fn num_elements(&self) -> usize {
        self.x_len() * self.y_len()
    }
}

impl ParseSpan for Spans2D {
    open spec fn spec_from_span_str(s: Seq<u8>) -> Option<Spans2D> {
        Spans2D::spec_parse(s)
    }

    fn from_str(extent: &[u8]) -> Option<Spans2D> {
        Spans2D::try_from_span_bytes(extent)
    }
}

/// Describes the point locations of a 3D rectilinear grid, one
/// coordinate array per axis, tagged with an encoding marker.
#[derive(Debug)]
pub struct Mesh3D<NUM, Encoding> {
    pub x_locations: Vec<u64>,
    pub y_locations: Vec<u64>,
    pub z_locations: Vec<u64>,
    pub _marker: PhantomData<(NUM, Encoding)>,
}

impl<NUM, Encoding> Mesh3D<NUM, Encoding> {
    /// Constructor for the 3D mesh from per-axis coordinate patterns.
    pub fn new(x_locations: Vec<u64>, y_locations: Vec<u64>, z_locations: Vec<u64>) -> (r: Self)
        ensures
            r.x_locations@ == x_locations@,
            r.y_locations@ == y_locations@,
            r.z_locations@ == z_locations@,
    {
        Mesh3D { x_locations, y_locations, z_locations, _marker: PhantomData }
    }

    /// Swap encodings for this mesh; the coordinate data is unchanged.
    pub fn change_encoding<T>(self) -> (r: Mesh3D<NUM, T>)
        ensures
            r.x_locations@ == self.x_locations@,
            r.y_locations@ == self.y_locations@,
            r.z_locations@ == self.z_locations@,
    {
        let Mesh3D { x_locations, y_locations, z_locations, _marker } = self;
        Mesh3D { x_locations, y_locations, z_locations, _marker: PhantomData }
    }
}

/// Describes the point locations of a 2D rectilinear grid.
#[derive(Debug)]
pub struct Mesh2D<NUM, Encoding> {
    pub x_locations: Vec<u64>,
    pub y_locations: Vec<u64>,
    pub _marker: PhantomData<(NUM, Encoding)>,
}

impl<NUM, Encoding> Mesh2D<NUM, Encoding> {
    /// Constructor for the 2D mesh from per-axis coordinate patterns.
    pub fn new(x_locations: Vec<u64>, y_locations: Vec<u64>) -> (r: Self)
        ensures
            r.x_locations@ == x_locations@,
            r.y_locations@ == y_locations@,
    {
        Mesh2D { x_locations, y_locations, _marker: PhantomData }
    }

    /// Swap encodings for this mesh; the coordinate data is unchanged.
    pub fn change_encoding<T>(self) -> (r: Mesh2D<NUM, T>)
        ensures
            r.x_locations@ == self.x_locations@,
            r.y_locations@ == self.y_locations@,
    {
        let Mesh2D { x_locations, y_locations, _marker } = self;
        Mesh2D { x_locations, y_locations, _marker: PhantomData }
    }
}

/// Full information on a 3D computational domain: its spans and its mesh.
#[derive(Debug)]
pub struct Rectilinear3D<NUM, Encoding> {
    pub spans: Spans3D,
    pub mesh: Mesh3D<NUM, Encoding>,
}

impl<NUM, Encoding> Rectilinear3D<NUM, Encoding> {
    /// Create a new domain from mesh information and span information.
    pub fn new(mesh: Mesh3D<NUM, Encoding>, spans: Spans3D) -> (r: Self)
        ensures
            r.mesh == mesh,
            r.spans == spans,
    {
        Rectilinear3D { mesh, spans }
    }
}

/// Full information on a 2D computational domain: its spans and its mesh.
#[derive(Debug)]
pub struct Rectilinear2D<NUM, Encoding> {
    pub spans: Spans2D,
    pub mesh: Mesh2D<NUM, Encoding>,
}

impl<NUM, Encoding> Rectilinear2D<NUM, Encoding> {
    /// Create a new domain from mesh information and span information.
    pub fn new(mesh: Mesh2D<NUM, Encoding>, spans: Spans2D) -> (r: Self)
        ensures
            r.mesh == mesh,
            r.spans == spans,
    {
        Rectilinear2D { mesh, spans }
    }
}


/// A well-formed 3D domain: spans that match the coordinate lengths, and
/// coordinates representable at this precision, with byte counts the
/// offsets can carry.
pub open spec fn rect3_wf<NUM: Numeric>(
    spans: Spans3D,
    x: Seq<u64>,
    y: Seq<u64>,
    z: Seq<u64>,
) -> bool {
    &&& spans.wf()
    &&& x.len() == spans.spec_x_len()
    &&& y.len() == spans.spec_y_len()
    &&& z.len() == spans.spec_z_len()
    &&& forall|i: int| 0 <= i < x.len() ==> NUM::spec_precision().spec_valid_bits(#[trigger] x[i])
    &&& forall|i: int| 0 <= i < y.len() ==> NUM::spec_precision().spec_valid_bits(#[trigger] y[i])
    &&& forall|i: int| 0 <= i < z.len() ==> NUM::spec_precision().spec_valid_bits(#[trigger] z[i])
    &&& NUM::spec_precision().spec_width() * (x.len() + y.len() + z.len()) <= usize::MAX
    &&& NUM::spec_precision().spec_width() * (x.len() + y.len() + z.len()) <= i64::MAX
}

/// Arithmetic consequences of 3D well-formedness used by the writers.
proof fn rect3_wf_facts<NUM: Numeric>(spans: Spans3D, x: Seq<u64>, y: Seq<u64>, z: Seq<u64>)
    requires
        rect3_wf::<NUM>(spans, x, y, z),
    ensures
        NUM::spec_precision().spec_width() * x.len() + NUM::spec_precision().spec_width() * y.len()
            + NUM::spec_precision().spec_width() * z.len() == NUM::spec_precision().spec_width() * (
        x.len() + y.len() + z.len()),
        NUM::spec_precision().spec_width() * x.len() <= usize::MAX,
        NUM::spec_precision().spec_width() * x.len() + NUM::spec_precision().spec_width() * y.len()
            <= usize::MAX,
        NUM::spec_precision().spec_width() * (x.len() + y.len())
            == NUM::spec_precision().spec_width() * x.len() + NUM::spec_precision().spec_width()
            * y.len(),
{
    let w = NUM::spec_precision().spec_width();
    assert(w * x.len() + w * y.len() + w * z.len() == w * (x.len() + y.len() + z.len()) && w
        * x.len() <= w * (x.len() + y.len() + z.len()) && w * x.len() + w * y.len() <= w * (x.len()
        + y.len() + z.len()) && w * (x.len() + y.len()) == w * x.len() + w * y.len())
        by (nonlinear_arith)
        requires
            w == 4 || w == 8,
            x.len() >= 0 && y.len() >= 0 && z.len() >= 0,
    ;
}

/// Whether every element of a run is representable at this precision.
fn elems_valid<NUM: Numeric>(v: &Vec<u64>) -> (r: bool)
    ensures
        r == forall|i: int|
            0 <= i < v@.len() ==> NUM::spec_precision().spec_valid_bits(#[trigger] v@[i]),
{
    let p = NUM::as_precision();
    let n = v.len();
    let mut i: usize = 0;
    while i < n
        invariant
            0 <= i <= n,
            n == v@.len(),
            p == NUM::spec_precision(),
            forall|k: int| 0 <= k < i ==> p.spec_valid_bits(#[trigger] v@[k]),
        decreases n - i,
    {
        let ok = match p {
            Precision::Float64 => true,
            Precision::Float32 => v[i] < 0x100000000,
        };
        if !ok {
            return false;
        }
        i = i + 1;
    }
    true
}

/// Whether a coordinate byte count stays within what offsets can carry.
fn mesh_bytes_fit(w: usize, lx: usize, ly: usize, lz: usize) -> (r: bool)
    requires
        w == 4 || w == 8,
    ensures
        r == (w * (lx + ly + lz) <= usize::MAX && w * (lx + ly + lz) <= i64::MAX),
{
    let s1 = match lx.checked_add(ly) {
        Some(v) => v,
        None => {
            proof {
                assert(w * (lx + ly + lz) > usize::MAX) by (nonlinear_arith)
                    requires
                        w == 4 || w == 8,
                        lx + ly > usize::MAX,
                        lz >= 0,
                ;
            }
            return false;
        },
    };
    let s2 = match s1.checked_add(lz) {
        Some(v) => v,
        None => {
            proof {
                assert(w * (lx + ly + lz) > usize::MAX) by (nonlinear_arith)
                    requires
                        w == 4 || w == 8,
                        lx + ly + lz > usize::MAX,
                ;
            }
            return false;
        },
    };
    let total = match s2.checked_mul(w) {
        Some(v) => v,
        None => {
            return false;
        },
    };
    total as u64 <= 0x7fffffffffffffffu64
}

impl<NUM: Numeric, E> Rectilinear3D<NUM, E> {
    /// Whether this domain can be written: the runtime counterpart of its
    /// well-formedness.
    pub fn check_rect_wf(&self) -> (r: bool)
        ensures
            r == rect3_wf::<NUM>(
                self.spans,
                self.mesh.x_locations@,
                self.mesh.y_locations@,
                self.mesh.z_locations@,
            ),
    {
        if !self.spans.check_wf() {
            return false;
        }
        if self.mesh.x_locations.len() != self.spans.x_len() {
            return false;
        }
        if self.mesh.y_locations.len() != self.spans.y_len() {
            return false;
        }
        if self.mesh.z_locations.len() != self.spans.z_len() {
            return false;
        }
        if !elems_valid::<NUM>(&self.mesh.x_locations) {
            return false;
        }
        if !elems_valid::<NUM>(&self.mesh.y_locations) {
            return false;
        }
        if !elems_valid::<NUM>(&self.mesh.z_locations) {
            return false;
        }
        mesh_bytes_fit(
            NUM::as_precision().width(),
            self.mesh.x_locations.len(),
            self.mesh.y_locations.len(),
            self.mesh.z_locations.len(),
        )
    }
}

impl<NUM: Numeric, E> Rectilinear2D<NUM, E> {
    /// Whether this domain can be written: the runtime counterpart of its
    /// well-formedness, the synthetic unit Z axis included.
    pub fn check_rect_wf(&self) -> (r: bool)
        ensures
            r == rect2_wf::<NUM>(self.spans, self.mesh.x_locations@, self.mesh.y_locations@),
    {
        if !self.spans.check_wf() {
            return false;
        }
        if self.mesh.x_locations.len() != self.spans.x_len() {
            return false;
        }
        if self.mesh.y_locations.len() != self.spans.y_len() {
            return false;
        }
        if !elems_valid::<NUM>(&self.mesh.x_locations) {
            return false;
        }
        if !elems_valid::<NUM>(&self.mesh.y_locations) {
            return false;
        }
        mesh_bytes_fit(
            NUM::as_precision().width(),
            self.mesh.x_locations.len(),
            self.mesh.y_locations.len(),
            1,
        )
    }
}

impl<NUM: Numeric> Domain<crate::Binary> for Rectilinear3D<NUM, crate::Binary> {
    open spec fn wf(&self) -> bool {
        rect3_wf::<NUM>(
            self.spans,
            self.mesh.x_locations@,
            self.mesh.y_locations@,
            self.mesh.z_locations@,
        )
    }

    open spec fn spec_mesh_header(&self) -> Seq<u8> {
        let w = NUM::spec_precision().spec_width();
        let lx = self.mesh.x_locations@.len() as int;
        let ly = self.mesh.y_locations@.len() as int;
        crate::write_vtk::spec_appended_dataarray_header(
            "X".spec_bytes(),
            0,
            1,
            NUM::spec_precision(),
        ) + crate::write_vtk::spec_appended_dataarray_header(
            "Y".spec_bytes(),
            w * lx,
            1,
            NUM::spec_precision(),
        ) + crate::write_vtk::spec_appended_dataarray_header(
            "Z".spec_bytes(),
            w * (lx + ly),
            1,
            NUM::spec_precision(),
        )
    }

    open spec fn spec_mesh_appended(&self) -> Seq<u8> {
        codec::spec_binary_payload(NUM::spec_precision(), self.mesh.x_locations@, false)
            + codec::spec_binary_payload(NUM::spec_precision(), self.mesh.y_locations@, false)
            + codec::spec_binary_payload(NUM::spec_precision(), self.mesh.z_locations@, false)
    }

    open spec fn spec_span_string(&self) -> Seq<u8> {
        self.spans.spec_string()
    }

    open spec fn spec_mesh_bytes(&self) -> int {
        NUM::spec_precision().spec_width() * (self.mesh.x_locations@.len()
            + self.mesh.y_locations@.len() + self.mesh.z_locations@.len())
    }

    fn write_mesh_header(&self, out: &mut Vec<u8>) {
        let w = NUM::as_precision().width();
        proof {
            rect3_wf_facts::<NUM>(
                self.spans,
                self.mesh.x_locations@,
                self.mesh.y_locations@,
                self.mesh.z_locations@,
            );
        }
        let mut offset: usize = 0;
        crate::write_vtk::write_appended_dataarray_header(
            out,
            "X",
            offset as i64,
            1,
            NUM::as_precision(),
        );
        offset = offset + w * self.mesh.x_locations.len();
        crate::write_vtk::write_appended_dataarray_header(
            out,
            "Y",
            offset as i64,
            1,
            NUM::as_precision(),
        );
        offset = offset + w * self.mesh.y_locations.len();
        crate::write_vtk::write_appended_dataarray_header(
            out,
            "Z",
            offset as i64,
            1,
            NUM::as_precision(),
        );
        proof {
            assert(final(out)@ =~= old(out)@ + Domain::<crate::Binary>::spec_mesh_header(self));
        }
    }

    fn write_mesh_appended(&self, out: &mut Vec<u8>) {
        codec::write_binary_payload(
            NUM::as_precision(),
            self.mesh.x_locations.as_slice(),
            false,
            out,
        );
        codec::write_binary_payload(
            NUM::as_precision(),
            self.mesh.y_locations.as_slice(),
            false,
            out,
        );
        codec::write_binary_payload(
            NUM::as_precision(),
            self.mesh.z_locations.as_slice(),
            false,
            out,
        );
        proof {
            assert(final(out)@ =~= old(out)@ + Domain::<crate::Binary>::spec_mesh_appended(self));
        }
    }

    fn check_wf(&self) -> bool {
        self.check_rect_wf()
    }

    fn span_string(&self) -> Vec<u8> {
        self.spans.to_string()
    }

    fn mesh_bytes(&self) -> usize {
        proof {
            rect3_wf_facts::<NUM>(
                self.spans,
                self.mesh.x_locations@,
                self.mesh.y_locations@,
                self.mesh.z_locations@,
            );
        }
        let w = NUM::as_precision().width();
        w * self.mesh.x_locations.len() + w * self.mesh.y_locations.len() + w
            * self.mesh.z_locations.len()
    }
}

impl<NUM: Numeric> Domain<crate::Ascii> for Rectilinear3D<NUM, crate::Ascii> {
    open spec fn wf(&self) -> bool {
        rect3_wf::<NUM>(
            self.spans,
            self.mesh.x_locations@,
            self.mesh.y_locations@,
            self.mesh.z_locations@,
        )
    }

    open spec fn spec_mesh_header(&self) -> Seq<u8> {
        crate::write_vtk::spec_inline_dataarray(
            "X".spec_bytes(),
            1,
            NUM::spec_precision(),
            crate::write_vtk::Encoding::Ascii,
            codec::join_tokens(self.mesh.x_locations@.map_values(|b: u64| NUM::spec_token(b))),
        ) + crate::write_vtk::spec_inline_dataarray(
            "Y".spec_bytes(),
            1,
            NUM::spec_precision(),
            crate::write_vtk::Encoding::Ascii,
            codec::join_tokens(self.mesh.y_locations@.map_values(|b: u64| NUM::spec_token(b))),
        ) + crate::write_vtk::spec_inline_dataarray(
            "Z".spec_bytes(),
            1,
            NUM::spec_precision(),
            crate::write_vtk::Encoding::Ascii,
            codec::join_tokens(self.mesh.z_locations@.map_values(|b: u64| NUM::spec_token(b))),
        )
    }

    open spec fn spec_mesh_appended(&self) -> Seq<u8> {
        Seq::empty()
    }

    open spec fn spec_span_string(&self) -> Seq<u8> {
        self.spans.spec_string()
    }

    open spec fn spec_mesh_bytes(&self) -> int {
        NUM::spec_precision().spec_width() * (self.mesh.x_locations@.len()
            + self.mesh.y_locations@.len() + self.mesh.z_locations@.len())
    }

    fn write_mesh_header(&self, out: &mut Vec<u8>) {
        crate::array::write_ascii_run::<NUM>(&self.mesh.x_locations, 1, out, "X");
        crate::array::write_ascii_run::<NUM>(&self.mesh.y_locations, 1, out, "Y");
        crate::array::write_ascii_run::<NUM>(&self.mesh.z_locations, 1, out, "Z");
        proof {
            assert(final(out)@ =~= old(out)@ + Domain::<crate::Ascii>::spec_mesh_header(self));
        }
    }

    fn write_mesh_appended(&self, out: &mut Vec<u8>) {
        proof {
            assert(final(out)@ =~= old(out)@ + Seq::<u8>::empty());
        }
    }

    fn check_wf(&self) -> bool {
        self.check_rect_wf()
    }

    fn span_string(&self) -> Vec<u8> {
        self.spans.to_string()
    }

    fn mesh_bytes(&self) -> usize {
        proof {
            rect3_wf_facts::<NUM>(
                self.spans,
                self.mesh.x_locations@,
                self.mesh.y_locations@,
                self.mesh.z_locations@,
            );
        }
        let w = NUM::as_precision().width();
        w * self.mesh.x_locations.len() + w * self.mesh.y_locations.len() + w
            * self.mesh.z_locations.len()
    }
}
impl<NUM: Numeric> Domain<crate::Base64> for Rectilinear3D<NUM, crate::Base64> {
    open spec fn wf(&self) -> bool {
        rect3_wf::<NUM>(
            self.spans,
            self.mesh.x_locations@,
            self.mesh.y_locations@,
            self.mesh.z_locations@,
        )
    }

    open spec fn spec_mesh_header(&self) -> Seq<u8> {
        crate::write_vtk::spec_inline_dataarray(
            "X".spec_bytes(),
            1,
            NUM::spec_precision(),
            crate::write_vtk::Encoding::Base64,
            codec::spec_base64_payload(NUM::spec_precision(), self.mesh.x_locations@),
        ) + crate::write_vtk::spec_inline_dataarray(
            "Y".spec_bytes(),
            1,
            NUM::spec_precision(),
            crate::write_vtk::Encoding::Base64,
            codec::spec_base64_payload(NUM::spec_precision(), self.mesh.y_locations@),
        ) + crate::write_vtk::spec_inline_dataarray(
            "Z".spec_bytes(),
            1,
            NUM::spec_precision(),
            crate::write_vtk::Encoding::Base64,
            codec::spec_base64_payload(NUM::spec_precision(), self.mesh.z_locations@),
        )
    }

    open spec fn spec_mesh_appended(&self) -> Seq<u8> {
        Seq::empty()
    }

    open spec fn spec_span_string(&self) -> Seq<u8> {
        self.spans.spec_string()
    }

    open spec fn spec_mesh_bytes(&self) -> int {
        NUM::spec_precision().spec_width() * (self.mesh.x_locations@.len()
            + self.mesh.y_locations@.len() + self.mesh.z_locations@.len())
    }

    fn write_mesh_header(&self, out: &mut Vec<u8>) {
        crate::array::write_base64_run(NUM::as_precision(), &self.mesh.x_locations, 1, out, "X");
        crate::array::write_base64_run(NUM::as_precision(), &self.mesh.y_locations, 1, out, "Y");
        crate::array::write_base64_run(NUM::as_precision(), &self.mesh.z_locations, 1, out, "Z");
        proof {
            assert(final(out)@ =~= old(out)@ + Domain::<crate::Base64>::spec_mesh_header(self));
        }
    }

    fn write_mesh_appended(&self, out: &mut Vec<u8>) {
        proof {
            assert(final(out)@ =~= old(out)@ + Seq::<u8>::empty());
        }
    }

    fn check_wf(&self) -> bool {
        self.check_rect_wf()
    }

    fn span_string(&self) -> Vec<u8> {
        self.spans.to_string()
    }

    fn mesh_bytes(&self) -> usize {
        proof {
            rect3_wf_facts::<NUM>(
                self.spans,
                self.mesh.x_locations@,
                self.mesh.y_locations@,
                self.mesh.z_locations@,
            );
        }
        let w = NUM::as_precision().width();
        w * self.mesh.x_locations.len() + w * self.mesh.y_locations.len() + w
            * self.mesh.z_locations.len()
    }
}


impl<NUM, E> From<(Mesh3D<NUM, E>, Spans3D)> for Rectilinear3D<NUM, E> {
    fn from(x: (Mesh3D<NUM, E>, Spans3D)) -> (r: Self) {
        Rectilinear3D { mesh: x.0, spans: x.1 }
    }
}

impl<NUM, E> vstd::std_specs::convert::FromSpecImpl<(Mesh3D<NUM, E>, Spans3D)> for Rectilinear3D<NUM, E> {
    open spec fn obeys_from_spec() -> bool {
        true
    }

    open spec fn from_spec(x: (Mesh3D<NUM, E>, Spans3D)) -> Self {
        Rectilinear3D { mesh: x.0, spans: x.1 }
    }
}

impl<NUM, E> From<(Mesh2D<NUM, E>, Spans2D)> for Rectilinear2D<NUM, E> {
    fn from(x: (Mesh2D<NUM, E>, Spans2D)) -> (r: Self) {
        Rectilinear2D { mesh: x.0, spans: x.1 }
    }
}

impl<NUM, E> vstd::std_specs::convert::FromSpecImpl<(Mesh2D<NUM, E>, Spans2D)> for Rectilinear2D<NUM, E> {
    open spec fn obeys_from_spec() -> bool {
        true
    }

    open spec fn from_spec(x: (Mesh2D<NUM, E>, Spans2D)) -> Self {
        Rectilinear2D { mesh: x.0, spans: x.1 }
    }
}

impl<NUM, T> ParseMesh for Mesh3D<NUM, T> {
    type Visitor = Mesh3DVisitor<NUM>;
}

impl<NUM, T> ParseMesh for Mesh2D<NUM, T> {
    type Visitor = Mesh2DVisitor<NUM>;
}

/// One visitor slot stands for one parsed array: an inline result holds
/// the elements the header produced, and an appended result points at an
/// arena placeholder registered with the header's offset and component
/// count and the expected point count.
pub open spec fn slot_from(
    b: PartialDataArrayBuffered,
    h: DataArrayHeader,
    e: Seq<u64>,
    nelems: int,
    arena: PendingArena,
) -> bool {
    match b {
        PartialDataArrayBuffered::Parsed { buffer, components } => buffer@ == e && ((h
            matches DataArrayHeader::InlineAscii { components: c } && c == components) || (h
            matches DataArrayHeader::InlineBase64 { components: c } && c == components)),
        PartialDataArrayBuffered::AppendedBinary { index } => h
            matches DataArrayHeader::AppendedBinary { offset, components } && index
            < arena.entries@.len() && arena.entries@[index as int].offset == offset
            && arena.entries@[index as int].components == components && arena.entries@[index
            as int].num_elements == nelems,
    }
}

/// The buffer a finished axis took from a visitor slot: the inline
/// elements, or the arena placeholder's resolved buffer.
pub open spec fn slot_buffer(b: PartialDataArrayBuffered, arena: PendingArena, out: Seq<u64>) -> bool {
    match b {
        PartialDataArrayBuffered::Parsed { buffer, .. } => out == buffer@,
        PartialDataArrayBuffered::AppendedBinary { index } => index < arena.entries@.len() && out
            == arena.entries@[index as int].buffer@,
    }
}

/// A visitor slot whose arena placeholder was never registered there.
pub open spec fn slot_dangling(b: PartialDataArrayBuffered, arena: PendingArena) -> bool {
    b matches PartialDataArrayBuffered::AppendedBinary { index } && index >= arena.entries@.len()
}

/// The parsing-side state for a 3D mesh: one lazy parse result per axis.
pub struct Mesh3DVisitor<NUM> {
    pub x_locations: PartialDataArrayBuffered,
    pub y_locations: PartialDataArrayBuffered,
    pub z_locations: PartialDataArrayBuffered,
    pub _marker: PhantomData<NUM>,
}

impl<NUM: Numeric> Visitor<Spans3D> for Mesh3DVisitor<NUM> {
    type Output = Mesh3D<NUM, crate::Binary>;

    type Num = NUM;

    fn read_headers(spans: &Spans3D, input: &[u8], pos: usize, arena: &mut PendingArena) -> (r:
        Result<(Self, usize), MeshError>)
        ensures
            r matches Ok((v, p2)) ==> spans.wf() && (spec_parse_da::<NUM>(
                input@,
                pos as int,
                "X".spec_bytes(),
            ) matches Some((px, hx, ex)) && (spec_parse_da::<NUM>(input@, px, "Y".spec_bytes())
                matches Some((py, hy, ey)) && (spec_parse_da::<NUM>(input@, py, "Z".spec_bytes())
                matches Some((pz, hz, ez)) && pz == p2 && slot_from(
                v.x_locations,
                hx,
                ex,
                spans.spec_x_len(),
                *final(arena),
            ) && slot_from(v.y_locations, hy, ey, spans.spec_y_len(), *final(arena)) && slot_from(
                v.z_locations,
                hz,
                ez,
                spans.spec_z_len(),
                *final(arena),
            )))),
            r is Err ==> !spans.wf() || spec_parse_da::<NUM>(input@, pos as int, "X".spec_bytes())
                is None || (spec_parse_da::<NUM>(input@, pos as int, "X".spec_bytes())
                matches Some((px, hx, ex)) && (spec_parse_da::<NUM>(input@, px, "Y".spec_bytes())
                is None || (spec_parse_da::<NUM>(input@, px, "Y".spec_bytes()) matches Some(
                (py, hy, ey),
            ) && spec_parse_da::<NUM>(input@, py, "Z".spec_bytes()) is None))),
    {
        if !spans.check_wf() {
            return Err(
                MeshError::MalformedAttribute(
                    crate::parse::MalformedAttribute::new("Piece", "Extent"),
                ),
            );
        }
        let (p1, x) = crate::parse::parse_dataarray_or_lazy::<NUM>(input, pos, "X", spans.x_len())?;
        let ghost stx = spec_parse_da::<NUM>(input@, pos as int, "X".spec_bytes());
        let ghost x0 = x;
        let (p2, y) = crate::parse::parse_dataarray_or_lazy::<NUM>(input, p1, "Y", spans.y_len())?;
        let ghost sty = spec_parse_da::<NUM>(input@, p1 as int, "Y".spec_bytes());
        let ghost y0 = y;
        let (p3, z) = crate::parse::parse_dataarray_or_lazy::<NUM>(input, p2, "Z", spans.z_len())?;
        let ghost stz = spec_parse_da::<NUM>(input@, p2 as int, "Z".spec_bytes());
        let ghost z0 = z;
        let x_locations = PartialDataArrayBuffered::new(x, spans.x_len(), arena);
        let ghost a1 = *arena;
        proof {
            assert(stx matches Some((px, hx, ex)) && px == p1 as int && slot_from(
                x_locations,
                hx,
                ex,
                spans.spec_x_len(),
                a1,
            )) by {
                if x0 is AppendedBinary {
                    assert(a1.entries@.len() > 0);
                    assert(x_locations matches PartialDataArrayBuffered::AppendedBinary { index }
                        && index == a1.entries@.len() - 1 && a1.entries@[index as int]
                        == a1.entries@.last());
                }
            }
        }
        let y_locations = PartialDataArrayBuffered::new(y, spans.y_len(), arena);
        let ghost a2 = *arena;
        proof {
            assert(sty matches Some((py, hy, ey)) && py == p2 as int && slot_from(
                y_locations,
                hy,
                ey,
                spans.spec_y_len(),
                a2,
            )) by {
                if y0 is AppendedBinary {
                    assert(a2.entries@.len() > 0);
                    assert(y_locations matches PartialDataArrayBuffered::AppendedBinary { index }
                        && index == a2.entries@.len() - 1 && a2.entries@[index as int]
                        == a2.entries@.last());
                }
            }
        }
        let z_locations = PartialDataArrayBuffered::new(z, spans.z_len(), arena);
        proof {
            assert(stz matches Some((pz, hz, ez)) && pz == p3 as int && slot_from(
                z_locations,
                hz,
                ez,
                spans.spec_z_len(),
                *arena,
            )) by {
                if z0 is AppendedBinary {
                    assert(arena.entries@.len() > 0);
                    assert(z_locations matches PartialDataArrayBuffered::AppendedBinary { index }
                        && index == arena.entries@.len() - 1 && arena.entries@[index as int]
                        == arena.entries@.last());
                }
            }
        }
        proof {
            assert(a1.entries@.len() <= a2.entries@.len() <= arena.entries@.len());
            assert forall|i: int| 0 <= i < a1.entries@.len() implies #[trigger] arena.entries@[i]
                == a1.entries@[i] by {
                assert(a2.entries@[i] == a1.entries@[i]);
            }
            assert(stx matches Some((px, hx, ex)) && slot_from(
                x_locations,
                hx,
                ex,
                spans.spec_x_len(),
                *arena,
            ));
            assert(sty matches Some((py, hy, ey)) && slot_from(
                y_locations,
                hy,
                ey,
                spans.spec_y_len(),
                *arena,
            ));
        }
        Ok((Mesh3DVisitor { x_locations, y_locations, z_locations, _marker: PhantomData }, p3))
    }

    fn finish(self, _spans: &Spans3D, arena: &PendingArena) -> (r: Option<
        Mesh3D<NUM, crate::Binary>,
    >)
        ensures
            match r {
                Some(m) => slot_buffer(self.x_locations, *arena, m.x_locations@) && slot_buffer(
                    self.y_locations,
                    *arena,
                    m.y_locations@,
                ) && slot_buffer(self.z_locations, *arena, m.z_locations@),
                None => slot_dangling(self.x_locations, *arena) || slot_dangling(
                    self.y_locations,
                    *arena,
                ) || slot_dangling(self.z_locations, *arena),
            },
    {
        let x_locations = self.x_locations.try_into_buffer(arena)?;
        let y_locations = self.y_locations.try_into_buffer(arena)?;
        let z_locations = self.z_locations.try_into_buffer(arena)?;
        Some(Mesh3D::new(x_locations, y_locations, z_locations))
    }
}

/// The parsing-side state for a 2D mesh: the two axes and the synthetic
/// unit Z axis every 2D file carries.
pub struct Mesh2DVisitor<NUM> {
    pub x_locations: PartialDataArrayBuffered,
    pub y_locations: PartialDataArrayBuffered,
    pub z_locations: PartialDataArrayBuffered,
    pub _marker: PhantomData<NUM>,
}

impl<NUM: Numeric> Visitor<Spans2D> for Mesh2DVisitor<NUM> {
    type Output = Mesh2D<NUM, crate::Binary>;

    type Num = NUM;

    fn read_headers(spans: &Spans2D, input: &[u8], pos: usize, arena: &mut PendingArena) -> (r:
        Result<(Self, usize), MeshError>)
        ensures
            r matches Ok((v, p2)) ==> spans.wf() && (spec_parse_da::<NUM>(
                input@,
                pos as int,
                "X".spec_bytes(),
            ) matches Some((px, hx, ex)) && (spec_parse_da::<NUM>(input@, px, "Y".spec_bytes())
                matches Some((py, hy, ey)) && (spec_parse_da::<NUM>(input@, py, "Z".spec_bytes())
                matches Some((pz, hz, ez)) && pz == p2 && slot_from(
                v.x_locations,
                hx,
                ex,
                spans.spec_x_len(),
                *final(arena),
            ) && slot_from(v.y_locations, hy, ey, spans.spec_y_len(), *final(arena)) && slot_from(
                v.z_locations,
                hz,
                ez,
                1int,
                *final(arena),
            )))),
            r is Err ==> !spans.wf() || spec_parse_da::<NUM>(input@, pos as int, "X".spec_bytes())
                is None || (spec_parse_da::<NUM>(input@, pos as int, "X".spec_bytes())
                matches Some((px, hx, ex)) && (spec_parse_da::<NUM>(input@, px, "Y".spec_bytes())
                is None || (spec_parse_da::<NUM>(input@, px, "Y".spec_bytes()) matches Some(
                (py, hy, ey),
            ) && spec_parse_da::<NUM>(input@, py, "Z".spec_bytes()) is None))),
    {
        if !spans.check_wf() {
            return Err(
                MeshError::MalformedAttribute(
                    crate::parse::MalformedAttribute::new("Piece", "Extent"),
                ),
            );
        }
        let (p1, x) = crate::parse::parse_dataarray_or_lazy::<NUM>(input, pos, "X", spans.x_len())?;
        let ghost stx = spec_parse_da::<NUM>(input@, pos as int, "X".spec_bytes());
        let ghost x0 = x;
        let (p2, y) = crate::parse::parse_dataarray_or_lazy::<NUM>(input, p1, "Y", spans.y_len())?;
        let ghost sty = spec_parse_da::<NUM>(input@, p1 as int, "Y".spec_bytes());
        let ghost y0 = y;
        let (p3, z) = crate::parse::parse_dataarray_or_lazy::<NUM>(input, p2, "Z", 1)?;
        let ghost stz = spec_parse_da::<NUM>(input@, p2 as int, "Z".spec_bytes());
        let ghost z0 = z;
        let x_locations = PartialDataArrayBuffered::new(x, spans.x_len(), arena);
        let ghost a1 = *arena;
        proof {
            assert(stx matches Some((px, hx, ex)) && px == p1 as int && slot_from(
                x_locations,
                hx,
                ex,
                spans.spec_x_len(),
                a1,
            )) by {
                if x0 is AppendedBinary {
                    assert(a1.entries@.len() > 0);
                    assert(x_locations matches PartialDataArrayBuffered::AppendedBinary { index }
                        && index == a1.entries@.len() - 1 && a1.entries@[index as int]
                        == a1.entries@.last());
                }
            }
        }
        let y_locations = PartialDataArrayBuffered::new(y, spans.y_len(), arena);
        let ghost a2 = *arena;
        proof {
            assert(sty matches Some((py, hy, ey)) && py == p2 as int && slot_from(
                y_locations,
                hy,
                ey,
                spans.spec_y_len(),
                a2,
            )) by {
                if y0 is AppendedBinary {
                    assert(a2.entries@.len() > 0);
                    assert(y_locations matches PartialDataArrayBuffered::AppendedBinary { index }
                        && index == a2.entries@.len() - 1 && a2.entries@[index as int]
                        == a2.entries@.last());
                }
            }
        }
        let z_locations = PartialDataArrayBuffered::new(z, 1, arena);
        proof {
            assert(stz matches Some((pz, hz, ez)) && pz == p3 as int && slot_from(
                z_locations,
                hz,
                ez,
                1int,
                *arena,
            )) by {
                if z0 is AppendedBinary {
                    assert(arena.entries@.len() > 0);
                    assert(z_locations matches PartialDataArrayBuffered::AppendedBinary { index }
                        && index == arena.entries@.len() - 1 && arena.entries@[index as int]
                        == arena.entries@.last());
                }
            }
        }
        proof {
            assert(a1.entries@.len() <= a2.entries@.len() <= arena.entries@.len());
            assert forall|i: int| 0 <= i < a1.entries@.len() implies #[trigger] arena.entries@[i]
                == a1.entries@[i] by {
                assert(a2.entries@[i] == a1.entries@[i]);
            }
            assert(stx matches Some((px, hx, ex)) && slot_from(
                x_locations,
                hx,
                ex,
                spans.spec_x_len(),
                *arena,
            ));
            assert(sty matches Some((py, hy, ey)) && slot_from(
                y_locations,
                hy,
                ey,
                spans.spec_y_len(),
                *arena,
            ));
        }
        Ok((Mesh2DVisitor { x_locations, y_locations, z_locations, _marker: PhantomData }, p3))
    }

    fn finish(self, _spans: &Spans2D, arena: &PendingArena) -> (r: Option<
        Mesh2D<NUM, crate::Binary>,
    >)
        ensures
            match r {
                Some(m) => slot_buffer(self.x_locations, *arena, m.x_locations@) && slot_buffer(
                    self.y_locations,
                    *arena,
                    m.y_locations@,
                ) && !slot_dangling(self.z_locations, *arena),
                None => slot_dangling(self.x_locations, *arena) || slot_dangling(
                    self.y_locations,
                    *arena,
                ) || slot_dangling(self.z_locations, *arena),
            },
    {
        let x_locations = self.x_locations.try_into_buffer(arena)?;
        let y_locations = self.y_locations.try_into_buffer(arena)?;
        let _z_locations = self.z_locations.try_into_buffer(arena)?;
        Some(Mesh2D::new(x_locations, y_locations))
    }
}


/// A well-formed 2D domain: spans that match the coordinate lengths, and
/// coordinates representable at this precision, with byte counts — the
/// synthetic unit Z axis included — that the offsets can carry.
pub open spec fn rect2_wf<NUM: Numeric>(spans: Spans2D, x: Seq<u64>, y: Seq<u64>) -> bool {
    &&& spans.wf()
    &&& x.len() == spans.spec_x_len()
    &&& y.len() == spans.spec_y_len()
    &&& forall|i: int| 0 <= i < x.len() ==> NUM::spec_precision().spec_valid_bits(#[trigger] x[i])
    &&& forall|i: int| 0 <= i < y.len() ==> NUM::spec_precision().spec_valid_bits(#[trigger] y[i])
    &&& NUM::spec_precision().spec_width() * (x.len() + y.len() + 1) <= usize::MAX
    &&& NUM::spec_precision().spec_width() * (x.len() + y.len() + 1) <= i64::MAX
}

/// Arithmetic consequences of 2D well-formedness used by the writers.
proof fn rect2_wf_facts<NUM: Numeric>(spans: Spans2D, x: Seq<u64>, y: Seq<u64>)
    requires
        rect2_wf::<NUM>(spans, x, y),
    ensures
        NUM::spec_precision().spec_width() * x.len() + NUM::spec_precision().spec_width() * y.len()
            + NUM::spec_precision().spec_width() == NUM::spec_precision().spec_width() * (x.len()
            + y.len() + 1),
        NUM::spec_precision().spec_width() * x.len() <= usize::MAX,
        NUM::spec_precision().spec_width() * x.len() + NUM::spec_precision().spec_width() * y.len()
            <= usize::MAX,
        NUM::spec_precision().spec_width() * (x.len() + y.len())
            == NUM::spec_precision().spec_width() * x.len() + NUM::spec_precision().spec_width()
            * y.len(),
{
    let w = NUM::spec_precision().spec_width();
    assert(w * x.len() + w * y.len() + w == w * (x.len() + y.len() + 1) && w * x.len() <= w * (
    x.len() + y.len() + 1) && w * x.len() + w * y.len() <= w * (x.len() + y.len() + 1) && w * (
    x.len() + y.len()) == w * x.len() + w * y.len()) by (nonlinear_arith)
        requires
            w == 4 || w == 8,
            x.len() >= 0 && y.len() >= 0,
    ;
}

/// The one-element zero run standing for the synthetic unit Z axis every
/// 2D file writes for the consuming tool.
pub open spec fn spec_unit_z() -> Seq<u64> {
    seq![0u64]
}

/// Build the synthetic unit Z axis.
fn unit_z() -> (r: Vec<u64>)
    ensures
        r@ == spec_unit_z(),
        r@.len() == 1,
        forall|i: int|
            0 <= i < r@.len() ==> Precision::Float64.spec_valid_bits(#[trigger] r@[i])
                && Precision::Float32.spec_valid_bits(#[trigger] r@[i]),
{
    let mut v: Vec<u64> = Vec::new();
    v.push(0);
    proof {
        assert(v@ =~= spec_unit_z());
    }
    v
}

impl<NUM: Numeric> Domain<crate::Binary> for Rectilinear2D<NUM, crate::Binary> {
    open spec fn wf(&self) -> bool {
        rect2_wf::<NUM>(self.spans, self.mesh.x_locations@, self.mesh.y_locations@)
    }

    open spec fn spec_mesh_header(&self) -> Seq<u8> {
        let w = NUM::spec_precision().spec_width();
        let lx = self.mesh.x_locations@.len() as int;
        let ly = self.mesh.y_locations@.len() as int;
        crate::write_vtk::spec_appended_dataarray_header(
            "X".spec_bytes(),
            0,
            1,
            NUM::spec_precision(),
        ) + crate::write_vtk::spec_appended_dataarray_header(
            "Y".spec_bytes(),
            w * lx,
            1,
            NUM::spec_precision(),
        ) + crate::write_vtk::spec_appended_dataarray_header(
            "Z".spec_bytes(),
            w * (lx + ly),
            1,
            NUM::spec_precision(),
        )
    }

    open spec fn spec_mesh_appended(&self) -> Seq<u8> {
        codec::spec_binary_payload(NUM::spec_precision(), self.mesh.x_locations@, false)
            + codec::spec_binary_payload(NUM::spec_precision(), self.mesh.y_locations@, false)
            + codec::spec_binary_payload(NUM::spec_precision(), spec_unit_z(), false)
    }

    open spec fn spec_span_string(&self) -> Seq<u8> {
        self.spans.spec_string()
    }

    open spec fn spec_mesh_bytes(&self) -> int {
        NUM::spec_precision().spec_width() * (self.mesh.x_locations@.len()
            + self.mesh.y_locations@.len() + 1)
    }

    fn write_mesh_header(&self, out: &mut Vec<u8>) {
        let w = NUM::as_precision().width();
        proof {
            rect2_wf_facts::<NUM>(self.spans, self.mesh.x_locations@, self.mesh.y_locations@);
        }
        let mut offset: usize = 0;
        crate::write_vtk::write_appended_dataarray_header(
            out,
            "X",
            offset as i64,
            1,
            NUM::as_precision(),
        );
        offset = offset + w * self.mesh.x_locations.len();
        crate::write_vtk::write_appended_dataarray_header(
            out,
            "Y",
            offset as i64,
            1,
            NUM::as_precision(),
        );
        offset = offset + w * self.mesh.y_locations.len();
        crate::write_vtk::write_appended_dataarray_header(
            out,
            "Z",
            offset as i64,
            1,
            NUM::as_precision(),
        );
        proof {
            assert(final(out)@ =~= old(out)@ + Domain::<crate::Binary>::spec_mesh_header(self));
        }
    }

    fn write_mesh_appended(&self, out: &mut Vec<u8>) {
        codec::write_binary_payload(
            NUM::as_precision(),
            self.mesh.x_locations.as_slice(),
            false,
            out,
        );
        codec::write_binary_payload(
            NUM::as_precision(),
            self.mesh.y_locations.as_slice(),
            false,
            out,
        );
        let z = unit_z();
        codec::write_binary_payload(NUM::as_precision(), z.as_slice(), false, out);
        proof {
            assert(final(out)@ =~= old(out)@ + Domain::<crate::Binary>::spec_mesh_appended(self));
        }
    }

    fn check_wf(&self) -> bool {
        self.check_rect_wf()
    }

    fn span_string(&self) -> Vec<u8> {
        self.spans.to_string()
    }

    fn mesh_bytes(&self) -> usize {
        proof {
            rect2_wf_facts::<NUM>(self.spans, self.mesh.x_locations@, self.mesh.y_locations@);
        }
        let w = NUM::as_precision().width();
        w * self.mesh.x_locations.len() + w * self.mesh.y_locations.len() + w
    }
}

impl<NUM: Numeric> Domain<crate::Ascii> for Rectilinear2D<NUM, crate::Ascii> {
    open spec fn wf(&self) -> bool {
        rect2_wf::<NUM>(self.spans, self.mesh.x_locations@, self.mesh.y_locations@)
    }

    open spec fn spec_mesh_header(&self) -> Seq<u8> {
        crate::write_vtk::spec_inline_dataarray(
            "X".spec_bytes(),
            1,
            NUM::spec_precision(),
            crate::write_vtk::Encoding::Ascii,
            codec::join_tokens(self.mesh.x_locations@.map_values(|b: u64| NUM::spec_token(b))),
        ) + crate::write_vtk::spec_inline_dataarray(
            "Y".spec_bytes(),
            1,
            NUM::spec_precision(),
            crate::write_vtk::Encoding::Ascii,
            codec::join_tokens(self.mesh.y_locations@.map_values(|b: u64| NUM::spec_token(b))),
        ) + crate::write_vtk::spec_inline_dataarray(
            "Z".spec_bytes(),
            1,
            NUM::spec_precision(),
            crate::write_vtk::Encoding::Ascii,
            codec::join_tokens(spec_unit_z().map_values(|b: u64| NUM::spec_token(b))),
        )
    }

    open spec fn spec_mesh_appended(&self) -> Seq<u8> {
        Seq::empty()
    }

    open spec fn spec_span_string(&self) -> Seq<u8> {
        self.spans.spec_string()
    }

    open spec fn spec_mesh_bytes(&self) -> int {
        NUM::spec_precision().spec_width() * (self.mesh.x_locations@.len()
            + self.mesh.y_locations@.len() + 1)
    }

    fn write_mesh_header(&self, out: &mut Vec<u8>) {
        crate::array::write_ascii_run::<NUM>(&self.mesh.x_locations, 1, out, "X");
        crate::array::write_ascii_run::<NUM>(&self.mesh.y_locations, 1, out, "Y");
        let z = unit_z();
        crate::array::write_ascii_run::<NUM>(&z, 1, out, "Z");
        proof {
            assert(final(out)@ =~= old(out)@ + Domain::<crate::Ascii>::spec_mesh_header(self));
        }
    }

    fn write_mesh_appended(&self, out: &mut Vec<u8>) {
        proof {
            assert(final(out)@ =~= old(out)@ + Seq::<u8>::empty());
        }
    }

    fn check_wf(&self) -> bool {
        self.check_rect_wf()
    }

    fn span_string(&self) -> Vec<u8> {
        self.spans.to_string()
    }

    fn mesh_bytes(&self) -> usize {
        proof {
            rect2_wf_facts::<NUM>(self.spans, self.mesh.x_locations@, self.mesh.y_locations@);
        }
        let w = NUM::as_precision().width();
        w * self.mesh.x_locations.len() + w * self.mesh.y_locations.len() + w
    }
}
impl<NUM: Numeric> Domain<crate::Base64> for Rectilinear2D<NUM, crate::Base64> {
    open spec fn wf(&self) -> bool {
        rect2_wf::<NUM>(self.spans, self.mesh.x_locations@, self.mesh.y_locations@)
    }

    open spec fn spec_mesh_header(&self) -> Seq<u8> {
        crate::write_vtk::spec_inline_dataarray(
            "X".spec_bytes(),
            1,
            NUM::spec_precision(),
            crate::write_vtk::Encoding::Base64,
            codec::spec_base64_payload(NUM::spec_precision(), self.mesh.x_locations@),
        ) + crate::write_vtk::spec_inline_dataarray(
            "Y".spec_bytes(),
            1,
            NUM::spec_precision(),
            crate::write_vtk::Encoding::Base64,
            codec::spec_base64_payload(NUM::spec_precision(), self.mesh.y_locations@),
        ) + crate::write_vtk::spec_inline_dataarray(
            "Z".spec_bytes(),
            1,
            NUM::spec_precision(),
            crate::write_vtk::Encoding::Base64,
            codec::spec_base64_payload(NUM::spec_precision(), spec_unit_z()),
        )
    }

    open spec fn spec_mesh_appended(&self) -> Seq<u8> {
        Seq::empty()
    }

    open spec fn spec_span_string(&self) -> Seq<u8> {
        self.spans.spec_string()
    }

    open spec fn spec_mesh_bytes(&self) -> int {
        NUM::spec_precision().spec_width() * (self.mesh.x_locations@.len()
            + self.mesh.y_locations@.len() + 1)
    }

    fn write_mesh_header(&self, out: &mut Vec<u8>) {
        crate::array::write_base64_run(NUM::as_precision(), &self.mesh.x_locations, 1, out, "X");
        crate::array::write_base64_run(NUM::as_precision(), &self.mesh.y_locations, 1, out, "Y");
        let z = unit_z();
        crate::array::write_base64_run(NUM::as_precision(), &z, 1, out, "Z");
        proof {
            assert(final(out)@ =~= old(out)@ + Domain::<crate::Base64>::spec_mesh_header(self));
        }
    }

    fn write_mesh_appended(&self, out: &mut Vec<u8>) {
        proof {
            assert(final(out)@ =~= old(out)@ + Seq::<u8>::empty());
        }
    }

    fn check_wf(&self) -> bool {
        self.check_rect_wf()
    }

    fn span_string(&self) -> Vec<u8> {
        self.spans.to_string()
    }

    fn mesh_bytes(&self) -> usize {
        proof {
            rect2_wf_facts::<NUM>(self.spans, self.mesh.x_locations@, self.mesh.y_locations@);
        }
        let w = NUM::as_precision().width();
        w * self.mesh.x_locations.len() + w * self.mesh.y_locations.len() + w
    }
}

} // verus!
