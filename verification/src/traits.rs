//! The traits that tie arrays, domains, and parsing together: what a data
//! record must offer to be written, and what its visitor must offer to be
//! read back.

use vstd::prelude::*;
use vstd::string::StringSliceAdditionalSpecFns;
use crate::codec;
use crate::precision::Precision;
use crate::parse::PendingArena;

verus! {

/// Describes the encoding selected by a marker type.
pub trait Encode {
    /// Whether the payload of this encoding lives in the appended section.
    spec fn spec_is_binary() -> bool;

    /// Runtime view of [`Encode::spec_is_binary`].
    fn is_binary() -> (b: bool)
        ensures
            b == Self::spec_is_binary(),
    ;
}

/// A scalar element type's text conversions, at a fixed precision.
///
/// Elements travel as IEEE-754 bit patterns; an implementor renders a
/// pattern as its shortest round-trip decimal text and parses such text
/// back. The library never inspects the text itself, only that it is a
/// writable token.
pub trait Numeric {
    /// The wire precision of this element type. Left abstract by default
    /// so implementors outside the library provide only the runtime
    /// methods.
    open spec fn spec_precision() -> Precision {
        vstd::pervasive::arbitrary()
    }

    /// The decimal text of a bit pattern.
    open spec fn spec_token(b: u64) -> Seq<u8> {
        vstd::pervasive::arbitrary()
    }

    /// The bit pattern a decimal text parses back to, if any.
    open spec fn spec_from_token(t: Seq<u8>) -> Option<u64> {
        vstd::pervasive::arbitrary()
    }

    /// Runtime view of [`Numeric::spec_precision`].
    fn as_precision() -> (p: Precision)
        ensures
            p == Self::spec_precision(),
    ;

    /// Render one element as decimal text: a writable token.
    fn to_token(b: u64) -> (t: Vec<u8>)
        requires
            Self::spec_precision().spec_valid_bits(b),
        ensures
            t@ == Self::spec_token(b),
            codec::is_token(t@),
    ;

    /// Parse one decimal text back to an element.
    fn from_token(t: &[u8]) -> (r: Option<u64>)
        ensures
            r == Self::spec_from_token(t@),
            r matches Some(b) ==> Self::spec_precision().spec_valid_bits(b),
    ;
}

/// Generically gives access to information on a span.
pub trait Span {
    /// A span whose point count can be computed without overflow.
    spec fn spec_span_wf(&self) -> bool;

    /// The number of points the span covers.
    spec fn spec_num_elements(&self) -> int;

    /// Runtime view of [`Span::spec_num_elements`].
    fn num_elements(&self) -> (n: usize)
        requires
            self.spec_span_wf(),
        ensures
            n == self.spec_num_elements(),
    ;
}

/// Transforms an `Extent` or `WholeExtent` attribute string into span
/// information.
pub trait ParseSpan: Sized {
    /// The span a span string parses to, if it is well formed.
    spec fn spec_from_span_str(s: Seq<u8>) -> Option<Self>;

    /// Parse a span string; `None` exactly when it is malformed.
    fn from_str(extent: &[u8]) -> (r: Option<Self>)
        ensures
            r == Self::spec_from_span_str(extent@),
    ;
}

/// Information on how to write one data array: its elements in on-disk
/// order, and the three payload encodings over them.
pub trait Array {
    /// The element bit patterns, in axis-major order with the component
    /// index varying fastest.
    spec fn spec_elems(&self) -> Seq<u64>;

    /// The wire precision of the elements.
    spec fn spec_precision(&self) -> Precision;

    /// The per-point component count.
    spec fn spec_components(&self) -> int;

    /// The decimal text of the elements, in the same order.
    spec fn spec_tokens(&self) -> Seq<Seq<u8>>;

    /// A well-formed array: representable elements and writable tokens,
    /// one per element.
    spec fn wf(&self) -> bool;

    /// Well-formedness spells out elementwise.
    proof fn lemma_wf(&self)
        requires
            self.wf(),
        ensures
            forall|i: int|
                0 <= i < self.spec_elems().len() ==> self.spec_precision().spec_valid_bits(
                    #[trigger] self.spec_elems()[i],
                ),
    ;

    /// Write the whole inline ASCII element: header, decimal payload,
    /// closing tag.
    fn write_ascii(&self, out: &mut Vec<u8>, name: &str)
        requires
            self.wf(),
            0 <= self.spec_components() <= usize::MAX,
        ensures
            final(out)@ == old(out)@ + crate::write_vtk::spec_inline_dataarray(
                name.spec_bytes(),
                self.spec_components(),
                self.spec_precision(),
                crate::write_vtk::Encoding::Ascii,
                codec::join_tokens(self.spec_tokens()),
            ),
            codec::all_tokens(self.spec_tokens()),
            self.spec_tokens().len() == self.spec_elems().len(),
    ;

    /// Write the whole inline Base64 element: header, encoded payload,
    /// closing tag.
    fn write_base64(&self, out: &mut Vec<u8>, name: &str)
        requires
            self.wf(),
            0 <= self.spec_components() <= usize::MAX,
        ensures
            final(out)@ == old(out)@ + crate::write_vtk::spec_inline_dataarray(
                name.spec_bytes(),
                self.spec_components(),
                self.spec_precision(),
                crate::write_vtk::Encoding::Base64,
                codec::spec_base64_payload(self.spec_precision(), self.spec_elems()),
            ),
            codec::spec_base64_elems(
                self.spec_precision(),
                codec::spec_base64_payload(self.spec_precision(), self.spec_elems()),
            ) == Some(self.spec_elems()),
    ;

    /// Write only the raw little-endian payload, at the current position;
    /// the header must already have been written with `format="appended"`.
    /// When `is_last`, a zero in the last place becomes the near-zero
    /// sentinel.
    fn write_binary(&self, out: &mut Vec<u8>, is_last: bool)
        requires
            self.wf(),
        ensures
            final(out)@ == old(out)@ + codec::spec_binary_payload(
                self.spec_precision(),
                self.spec_elems(),
                is_last,
            ),
    ;

    /// The number of elements, components included.
    fn length(&self) -> (n: usize)
        requires
            self.wf(),
        ensures
            n == self.spec_elems().len(),
    ;

    /// The number of components at each point: 1 for a scalar field, 3
    /// for a Cartesian vector.
    fn components(&self) -> (c: usize)
        requires
            self.wf(),
            0 <= self.spec_components() <= usize::MAX,
        ensures
            c == self.spec_components(),
    ;

    /// The precision of the data being written.
    fn precision(&self) -> (p: Precision)
        ensures
            p == self.spec_precision(),
    ;

    /// The byte width of one element.
    fn size_of_elem(&self) -> (w: usize)
        ensures
            w == self.spec_precision().spec_width(),
    ;
}

/// Converts a buffer of elements, as read from a file, into the caller's
/// array type.
pub trait FromBuffer<SPAN>: Sized {
    /// Whether an element run of this length fits the spans and
    /// component count.
    spec fn spec_fits(spans: SPAN, components: int, len: int) -> bool;

    /// The on-disk element run this value stands for.
    spec fn spec_wire_rep(&self) -> Seq<u64>;

    /// Rebuild from an on-disk element run; `None` exactly when the run
    /// does not fit the spans and component count.
    fn from_buffer(buffer: Vec<u64>, spans: &SPAN, components: usize) -> (r: Option<Self>)
        ensures
            r is Some <==> Self::spec_fits(*spans, components as int, buffer@.len() as int),
            r matches Some(v) ==> v.spec_wire_rep() == buffer@,
    ;
}

/// How a data record writes its arrays into the `<PointData>` section.
pub trait DataArray<Encoding> {
    /// A well-formed record: arrays whose shapes and elements can be
    /// written. Implementors outside the library inherit a vacuous
    /// default and provide only the runtime methods.
    open spec fn wf(&self) -> bool {
        true
    }

    /// The header bytes the record emits, given the appended-section
    /// offset at which its first binary array would start.
    open spec fn spec_header_bytes(&self, starting_offset: int) -> Seq<u8> {
        vstd::pervasive::arbitrary()
    }

    /// The raw bytes the record appends to the binary section; empty for
    /// inline encodings.
    open spec fn spec_appended_bytes(&self) -> Seq<u8> {
        vstd::pervasive::arbitrary()
    }

    /// Write all array headers (inline payloads included, for inline
    /// encodings).
    fn write_array_header(&self, out: &mut Vec<u8>, starting_offset: i64)
        requires
            self.wf(),
        ensures
            final(out)@ == old(out)@ + self.spec_header_bytes(starting_offset as int),
    ;

    /// Write the raw appended payloads, if this encoding has any.
    fn write_array_appended(&self, out: &mut Vec<u8>)
        requires
            self.wf(),
        ensures
            final(out)@ == old(out)@ + self.spec_appended_bytes(),
    ;
}

/// How a domain writes its span string and coordinate arrays.
pub trait Domain<Encoding> {
    /// A well-formed domain: spans and coordinate arrays that agree and
    /// whose byte counts the offsets can carry.
    spec fn wf(&self) -> bool;

    /// Runtime view of [`Domain::wf`], so unverified callers can test a
    /// domain before writing it.
    fn check_wf(&self) -> (r: bool)
        ensures
            r == self.wf(),
    ;

    /// The bytes of the `<Coordinates>` section body.
    spec fn spec_mesh_header(&self) -> Seq<u8>;

    /// The raw bytes the mesh appends to the binary section; empty for
    /// inline encodings.
    spec fn spec_mesh_appended(&self) -> Seq<u8>;

    /// The span string written to `WholeExtent` and `Extent`.
    spec fn spec_span_string(&self) -> Seq<u8>;

    /// The raw byte count the mesh occupies in the appended section.
    spec fn spec_mesh_bytes(&self) -> int;

    /// Write the coordinate headers, with inline payloads for inline
    /// encodings and offsets for the appended one.
    fn write_mesh_header(&self, out: &mut Vec<u8>)
        requires
            self.wf(),
        ensures
            final(out)@ == old(out)@ + self.spec_mesh_header(),
    ;

    /// Write the raw coordinate payloads, if this encoding has any.
    fn write_mesh_appended(&self, out: &mut Vec<u8>)
        requires
            self.wf(),
        ensures
            final(out)@ == old(out)@ + self.spec_mesh_appended(),
    ;

    /// The span string for the spans contained in the mesh.
    fn span_string(&self) -> (s: Vec<u8>)
        requires
            self.wf(),
        ensures
            s@ == self.spec_span_string(),
    ;

    /// The raw byte count of the mesh in the appended section.
    fn mesh_bytes(&self) -> (n: usize)
        requires
            self.wf(),
        ensures
            n == self.spec_mesh_bytes(),
    ;
}

/// Helper trait naming the visitor that parses a mesh type.
pub trait ParseMesh {
    type Visitor;
}

/// Helper trait naming the visitor that parses a data record.
pub trait ParseArray {
    type Visitor;
}

/// The parsing-side state for one record: reads its array headers in
/// declaration order, registering appended-binary placeholders in the
/// arena, and finalizes once the resolver has filled every placeholder.
pub trait Visitor<Spans>: Sized {
    /// The type the visitor finishes into.
    type Output;

    /// The element type whose precision and text conversions the
    /// visitor's arrays use.
    type Num: Numeric;

    /// Read this record's `DataArray` headers, consuming inline payloads
    /// and registering placeholders for appended ones.
    fn read_headers(spans: &Spans, input: &[u8], pos: usize, arena: &mut PendingArena) -> (r:
        Result<(Self, usize), crate::parse::Mesh>)
        requires
            pos <= input@.len(),
        ensures
            r matches Ok((v, p2)) ==> pos <= p2 <= input@.len(),
            final(arena).entries@.len() >= old(arena).entries@.len(),
    ;

    /// Finalize into the output value, pulling resolved placeholders out
    /// of the arena; `None` when a placeholder was never registered or a
    /// buffer does not fit the expected shape.
    fn finish(self, spans: &Spans, arena: &PendingArena) -> Option<Self::Output>;
}

} // verus!
