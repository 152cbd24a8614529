//! The writer side of the XML header state machine: the fixed element
//! sequence, the `DataArray` headers, and the appended-section framing.

use vstd::prelude::*;
use vstd::string::is_ascii;
use vstd::string::StringSliceAdditionalSpecFns;
use crate::codec;
use crate::decimal::{dec_digits, push_decimal, push_decimal_u64};
use crate::precision::Precision;
use crate::xml::{self, find_attr, wf_attr, wf_attrs, wf_name, SpecAttr, TagWriter};
use crate::traits::{DataArray, Domain, Encode};
use crate::data::VtkData;

verus! {

/// The encoding to use when writing an inline data array.
#[derive(Debug, Clone, Copy, PartialEq, Eq, Structural)]
pub enum Encoding {
    Ascii,
    Base64,
}

impl Encoding {
    /// The `format` attribute value of this inline encoding. Base64 data
    /// is declared as `binary` on the wire.
    pub open spec fn spec_to_str(self) -> Seq<u8> {
        match self {
            Encoding::Ascii => "ascii".spec_bytes(),
            Encoding::Base64 => "binary".spec_bytes(),
        }
    }

    /// Runtime view of [`Encoding::spec_to_str`].
    pub fn to_str(&self) -> (r: &'static str)
        ensures
            r.spec_bytes() == self.spec_to_str(),
    {
        match self {
            Encoding::Ascii => "ascii",
            Encoding::Base64 => "binary",
        }
    }
}

/// The rendering of a signed offset: a minus sign where needed, then the
/// decimal digits.
pub open spec fn spec_offset_digits(o: int) -> Seq<u8> {
    if o < 0 {
        seq![0x2du8] + dec_digits((-o) as nat)
    } else {
        dec_digits(o as nat)
    }
}

/// Append the decimal rendering of a signed offset to `out`.
pub fn push_offset_decimal(out: &mut Vec<u8>, o: i64)
    ensures
        final(out)@ == old(out)@ + spec_offset_digits(o as int),
{
    if o < 0 {
        out.push(0x2d);
        let mag: u64 = if o == i64::MIN {
            9223372036854775808u64
        } else {
            (-o) as u64
        };
        push_decimal_u64(out, mag);
        proof {
            assert(out@ =~= old(out)@ + spec_offset_digits(o as int));
        }
    } else {
        push_decimal_u64(out, o as u64);
    }
}

/// The attributes of an inline `DataArray` header.
pub open spec fn spec_inline_header_attrs(
    name: Seq<u8>,
    components: int,
    p: Precision,
    format: Encoding,
) -> Seq<SpecAttr> {
    seq![
        SpecAttr { key: "type".spec_bytes(), value: p.spec_wire_name() },
        SpecAttr { key: "NumberOfComponents".spec_bytes(), value: dec_digits(components as nat) },
        SpecAttr { key: "Name".spec_bytes(), value: name },
        SpecAttr { key: "format".spec_bytes(), value: format.spec_to_str() },
    ]
}

/// The opening tag of an inline `DataArray`.
pub open spec fn spec_inline_header(
    name: Seq<u8>,
    components: int,
    p: Precision,
    format: Encoding,
) -> Seq<u8> {
    xml::render_start(
        "DataArray".spec_bytes(),
        spec_inline_header_attrs(name, components, p, format),
    )
}

/// A whole inline `DataArray` element: header, payload text, closing tag.
pub open spec fn spec_inline_dataarray(
    name: Seq<u8>,
    components: int,
    p: Precision,
    format: Encoding,
    payload: Seq<u8>,
) -> Seq<u8> {
    spec_inline_header(name, components, p, format) + payload + xml::render_end(
        "DataArray".spec_bytes(),
    )
}

/// Write the header for an inline data array.
pub fn write_inline_array_header(
    out: &mut Vec<u8>,
    format: Encoding,
    name: &str,
    components: usize,
    precision: Precision,
)
    ensures
        final(out)@ == old(out)@ + spec_inline_header(
            name.spec_bytes(),
            components as int,
            precision,
            format,
        ),
{
    let mut comps: Vec<u8> = Vec::new();
    push_decimal(&mut comps, components);
    let w = TagWriter::open(out, "DataArray");
    let w = w.attr(out, "type", precision.to_str().as_bytes());
    let w = w.attr(out, "NumberOfComponents", comps.as_slice());
    let w = w.attr(out, "Name", name.as_bytes());
    let w = w.attr(out, "format", format.to_str().as_bytes());
    w.finish(out);
    proof {
        assert(w.attrs@ =~= spec_inline_header_attrs(
            name.spec_bytes(),
            components as int,
            precision,
            format,
        ));
    }
}

/// Close an inline data array element.
pub fn close_inline_array_header(out: &mut Vec<u8>)
    ensures
        final(out)@ == old(out)@ + xml::render_end("DataArray".spec_bytes()),
{
    xml::push_end_tag(out, "DataArray");
}

/// The attributes of an appended `DataArray` header.
pub open spec fn spec_appended_header_attrs(
    name: Seq<u8>,
    offset: int,
    components: int,
    p: Precision,
) -> Seq<SpecAttr> {
    seq![
        SpecAttr { key: "type".spec_bytes(), value: p.spec_wire_name() },
        SpecAttr { key: "NumberOfComponents".spec_bytes(), value: dec_digits(components as nat) },
        SpecAttr { key: "Name".spec_bytes(), value: name },
        SpecAttr { key: "format".spec_bytes(), value: "appended".spec_bytes() },
        SpecAttr { key: "offset".spec_bytes(), value: spec_offset_digits(offset) },
    ]
}

/// A whole appended `DataArray` header: opening tag and immediate closing
/// tag; the payload lives in the appended section.
pub open spec fn spec_appended_dataarray_header(
    name: Seq<u8>,
    offset: int,
    components: int,
    p: Precision,
) -> Seq<u8> {
    xml::render_start(
        "DataArray".spec_bytes(),
        spec_appended_header_attrs(name, offset, components, p),
    ) + xml::render_end("DataArray".spec_bytes())
}

/// Write the header for a data array whose payload will follow in the
/// appended section, at the given byte offset within it.
pub fn write_appended_dataarray_header(
    out: &mut Vec<u8>,
    name: &str,
    offset: i64,
    components: usize,
    precision: Precision,
)
    ensures
        final(out)@ == old(out)@ + spec_appended_dataarray_header(
            name.spec_bytes(),
            offset as int,
            components as int,
            precision,
        ),
{
    let mut comps: Vec<u8> = Vec::new();
    push_decimal(&mut comps, components);
    let mut off: Vec<u8> = Vec::new();
    push_offset_decimal(&mut off, offset);
    let w = TagWriter::open(out, "DataArray");
    let w = w.attr(out, "type", precision.to_str().as_bytes());
    let w = w.attr(out, "NumberOfComponents", comps.as_slice());
    let w = w.attr(out, "Name", name.as_bytes());
    let w = w.attr(out, "format", "appended".as_bytes());
    let w = w.attr(out, "offset", off.as_slice());
    w.finish(out);
    proof {
        assert(w.attrs@ =~= spec_appended_header_attrs(
            name.spec_bytes(),
            offset as int,
            components as int,
            precision,
        ));
    }
    xml::push_end_tag(out, "DataArray");
}

/// Write a single inline array of data, in the chosen inline encoding.
pub fn write_inline_dataarray<A: crate::traits::Array>(
    out: &mut Vec<u8>,
    data: &A,
    name: &str,
    encoding: Encoding,
)
    requires
        data.wf(),
        0 <= data.spec_components() <= usize::MAX,
    ensures
        final(out)@ == old(out)@ + spec_inline_dataarray(
            name.spec_bytes(),
            data.spec_components(),
            data.spec_precision(),
            encoding,
            match encoding {
                Encoding::Ascii => codec::join_tokens(data.spec_tokens()),
                Encoding::Base64 => codec::spec_base64_payload(
                    data.spec_precision(),
                    data.spec_elems(),
                ),
            },
        ),
{
    match encoding {
        Encoding::Ascii => data.write_ascii(out, name),
        Encoding::Base64 => data.write_base64(out, name),
    }
}

/// The bytes that open the appended section, up to and including the `_`
/// marker.
pub open spec fn spec_appended_start() -> Seq<u8> {
    "<AppendedData encoding=\"raw\">_".spec_bytes()
}

/// The bytes that close the appended section.
pub open spec fn spec_appended_end() -> Seq<u8> {
    "</AppendedData>".spec_bytes()
}

/// Open the appended section: the `AppendedData` element and the `_`
/// marker that precedes the raw bytes.
pub fn appended_binary_header_start(out: &mut Vec<u8>)
    ensures
        final(out)@ == old(out)@ + spec_appended_start(),
{
    crate::bytebuf::push_str_bytes(out, "<AppendedData encoding=\"raw\">_");
}

/// Close the appended section.
pub fn appended_binary_header_end(out: &mut Vec<u8>)
    ensures
        final(out)@ == old(out)@ + spec_appended_end(),
{
    crate::bytebuf::push_str_bytes(out, "</AppendedData>");
}

/// The eight filler bytes written right after the `_` marker: the
/// little-endian pattern of `100.0`, skipped by every reader.
pub open spec fn spec_section_filler() -> Seq<u8> {
    vstd::bytes::spec_u64_to_le_bytes(crate::precision::FILLER_F64_BITS)
}

/// Write the section filler.
pub fn write_section_filler(out: &mut Vec<u8>)
    ensures
        final(out)@ == old(out)@ + spec_section_filler(),
        final(out)@.len() == old(out)@.len() + 8,
{
    Precision::Float64.push_le_bytes(out, crate::precision::FILLER_F64_BITS);
}


/// The attributes of the document root element.
pub open spec fn spec_vtkfile_attrs() -> Seq<SpecAttr> {
    seq![
        SpecAttr { key: "type".spec_bytes(), value: "RectilinearGrid".spec_bytes() },
        SpecAttr { key: "version".spec_bytes(), value: "1.0".spec_bytes() },
        SpecAttr { key: "byte_order".spec_bytes(), value: "LittleEndian".spec_bytes() },
        SpecAttr { key: "header_type".spec_bytes(), value: "UInt64".spec_bytes() },
    ]
}

/// The opening of every document, up into the `Coordinates` element: the
/// same span string stands in `WholeExtent` and in `Extent`.
pub open spec fn spec_document_head(span_str: Seq<u8>) -> Seq<u8> {
    xml::render_decl() + xml::render_start("VTKFile".spec_bytes(), spec_vtkfile_attrs())
        + xml::render_start(
        "RectilinearGrid".spec_bytes(),
        seq![SpecAttr { key: "WholeExtent".spec_bytes(), value: span_str }],
    ) + xml::render_start(
        "Piece".spec_bytes(),
        seq![SpecAttr { key: "Extent".spec_bytes(), value: span_str }],
    ) + xml::render_start("Coordinates".spec_bytes(), Seq::empty())
}

/// The transition from the coordinate region to the point-data region.
pub open spec fn spec_document_mid() -> Seq<u8> {
    xml::render_end("Coordinates".spec_bytes()) + xml::render_start(
        "PointData".spec_bytes(),
        Seq::empty(),
    )
}

/// The closing tags between the point-data region and the appended
/// section.
pub open spec fn spec_document_close() -> Seq<u8> {
    xml::render_end("PointData".spec_bytes()) + xml::render_end("Piece".spec_bytes())
        + xml::render_end("RectilinearGrid".spec_bytes())
}

/// The whole appended section: the marker, the filler, the mesh bytes,
/// then the data bytes.
pub open spec fn spec_appended_section(mesh_app: Seq<u8>, data_app: Seq<u8>) -> Seq<u8> {
    spec_appended_start() + spec_section_filler() + mesh_app + data_app + spec_appended_end()
}

/// Write the document opening, with one span string for both extents.
fn write_document_head(span_str: &[u8], out: &mut Vec<u8>)
    ensures
        final(out)@ == old(out)@ + spec_document_head(span_str@),
{
    xml::push_decl(out);
    let w = TagWriter::open(out, "VTKFile");
    let w = w.attr(out, "type", "RectilinearGrid".as_bytes());
    let w = w.attr(out, "version", "1.0".as_bytes());
    let w = w.attr(out, "byte_order", "LittleEndian".as_bytes());
    let w = w.attr(out, "header_type", "UInt64".as_bytes());
    w.finish(out);
    proof {
        assert(w.attrs@ =~= spec_vtkfile_attrs());
    }
    let w = TagWriter::open(out, "RectilinearGrid");
    let w = w.attr(out, "WholeExtent", span_str);
    w.finish(out);
    proof {
        assert(w.attrs@ =~= seq![
            SpecAttr { key: "WholeExtent".spec_bytes(), value: span_str@ },
        ]);
    }
    let w = TagWriter::open(out, "Piece");
    let w = w.attr(out, "Extent", span_str);
    w.finish(out);
    proof {
        assert(w.attrs@ =~= seq![SpecAttr { key: "Extent".spec_bytes(), value: span_str@ }]);
    }
    let w = TagWriter::open(out, "Coordinates");
    w.finish(out);
    proof {
        assert(final(out)@ =~= old(out)@ + spec_document_head(span_str@));
    }
}

/// Close `Coordinates` and open `PointData`.
fn write_document_mid(out: &mut Vec<u8>)
    ensures
        final(out)@ == old(out)@ + spec_document_mid(),
{
    xml::push_end_tag(out, "Coordinates");
    let w = TagWriter::open(out, "PointData");
    w.finish(out);
    proof {
        assert(final(out)@ =~= old(out)@ + spec_document_mid());
    }
}

/// Close `PointData`, `Piece`, and `RectilinearGrid`.
fn write_document_close(out: &mut Vec<u8>)
    ensures
        final(out)@ == old(out)@ + spec_document_close(),
{
    xml::push_end_tag(out, "PointData");
    xml::push_end_tag(out, "Piece");
    xml::push_end_tag(out, "RectilinearGrid");
    proof {
        assert(final(out)@ =~= old(out)@ + spec_document_close());
    }
}

/// Every byte of a written file: the declaration, the fixed element
/// sequence with the same span string in `WholeExtent` and `Extent`, the
/// mesh and data-array headers, and — when either encoding is appended —
/// one raw section holding the filler, the mesh bytes, then the data
/// bytes.
pub open spec fn spec_vtk_file<DOMAIN: Domain<EncMesh>, D: DataArray<EncArray>, EncMesh: Encode, EncArray: Encode>(
    domain: DOMAIN,
    data: D,
) -> Seq<u8> {
    let starting_offset: int = if EncMesh::spec_is_binary() {
        domain.spec_mesh_bytes()
    } else {
        0
    };
    spec_document_head(domain.spec_span_string()) + domain.spec_mesh_header() + spec_document_mid()
        + data.spec_header_bytes(starting_offset) + spec_document_close() + (
    if EncMesh::spec_is_binary() || EncArray::spec_is_binary() {
        spec_appended_section(domain.spec_mesh_appended(), data.spec_appended_bytes())
    } else {
        Seq::empty()
    }) + xml::render_end("VTKFile".spec_bytes())
}

/// Write a whole file for a domain and its point data: the writer side of
/// the header state machine, emitting exactly [`spec_vtk_file`].
#[verifier::rlimit(100)]
#[verifier::spinoff_prover]
pub fn write_vtk<DOMAIN, D, EncMesh, EncArray>(data: &VtkData<DOMAIN, D>, out: &mut Vec<u8>) where
    DOMAIN: Domain<EncMesh>,
    D: DataArray<EncArray>,
    EncMesh: Encode,
    EncArray: Encode,

    requires
        data.domain.wf(),
        data.data.wf(),
        data.domain.spec_mesh_bytes() <= i64::MAX,
    ensures
        final(out)@ == old(out)@ + spec_vtk_file::<DOMAIN, D, EncMesh, EncArray>(
            data.domain,
            data.data,
        ),
{
    let span_str = data.domain.span_string();
    write_document_head(span_str.as_slice(), out);
    data.domain.write_mesh_header(out);
    let starting_offset: i64 = if EncMesh::is_binary() {
        data.domain.mesh_bytes() as i64
    } else {
        0
    };
    proof {
        assert(starting_offset as int == if EncMesh::spec_is_binary() {
            data.domain.spec_mesh_bytes()
        } else {
            0int
        });
    }
    write_document_mid(out);
    data.data.write_array_header(out, starting_offset);
    write_document_close(out);
    if EncMesh::is_binary() || EncArray::is_binary() {
        appended_binary_header_start(out);
        write_section_filler(out);
        data.domain.write_mesh_appended(out);
        data.data.write_array_appended(out);
        appended_binary_header_end(out);
        proof {
            assert(out@ =~= old(out)@ + spec_document_head(data.domain.spec_span_string())
                + data.domain.spec_mesh_header() + spec_document_mid()
                + data.data.spec_header_bytes(starting_offset as int) + spec_document_close()
                + spec_appended_section(
                data.domain.spec_mesh_appended(),
                data.data.spec_appended_bytes(),
            ));
        }
    }
    xml::push_end_tag(out, "VTKFile");
    proof {
        assert(final(out)@ =~= old(out)@ + spec_vtk_file::<DOMAIN, D, EncMesh, EncArray>(
            data.domain,
            data.data,
        ));
    }
}


/// The root element's fixed text is scannable: its name and attribute
/// keys are writable names, its values are quote-free, and looking the
/// two checked attributes up finds the fixed values.
pub proof fn lemma_vtkfile_attrs_wf()
    ensures
        wf_name("VTKFile".spec_bytes()),
        wf_name("RectilinearGrid".spec_bytes()),
        wf_name("Piece".spec_bytes()),
        wf_name("Coordinates".spec_bytes()),
        wf_attrs(spec_vtkfile_attrs()),
        find_attr(spec_vtkfile_attrs(), "type".spec_bytes()) == Some(
            "RectilinearGrid".spec_bytes(),
        ),
        find_attr(spec_vtkfile_attrs(), "byte_order".spec_bytes()) == Some(
            "LittleEndian".spec_bytes(),
        ),
        wf_name("WholeExtent".spec_bytes()),
        wf_name("Extent".spec_bytes()),
{
    broadcast use vstd::string::is_ascii_spec_bytes;

    reveal_strlit("VTKFile");
    reveal_strlit("RectilinearGrid");
    reveal_strlit("Piece");
    reveal_strlit("Coordinates");
    reveal_strlit("type");
    reveal_strlit("version");
    reveal_strlit("byte_order");
    reveal_strlit("header_type");
    reveal_strlit("1.0");
    reveal_strlit("LittleEndian");
    reveal_strlit("UInt64");
    reveal_strlit("WholeExtent");
    reveal_strlit("Extent");
    assert(is_ascii("VTKFile"));
    assert(is_ascii("RectilinearGrid"));
    assert(is_ascii("Piece"));
    assert(is_ascii("Coordinates"));
    assert(is_ascii("type"));
    assert(is_ascii("version"));
    assert(is_ascii("byte_order"));
    assert(is_ascii("header_type"));
    assert(is_ascii("1.0"));
    assert(is_ascii("LittleEndian"));
    assert(is_ascii("UInt64"));
    assert(is_ascii("WholeExtent"));
    assert(is_ascii("Extent"));
    let a = spec_vtkfile_attrs();
    assert(wf_attrs(a)) by {
        assert(wf_attr(a[0]));
        assert(wf_attr(a[1]));
        assert(wf_attr(a[2]));
        assert(wf_attr(a[3]));
    }
    assert("type".spec_bytes().len() == 4);
    assert("version".spec_bytes().len() == 7);
    assert("byte_order".spec_bytes().len() == 10);
    assert(a[0].key == "type".spec_bytes());
    assert(find_attr(a, "type".spec_bytes()) == Some("RectilinearGrid".spec_bytes()));
    assert(find_attr(a, "byte_order".spec_bytes()) == Some("LittleEndian".spec_bytes())) by {
        let a1 = a.drop_first();
        let a2 = a1.drop_first();
        assert(a1.first() == a[1]);
        assert(a2.first() == a[2]);
        assert(a[0].key != "byte_order".spec_bytes());
        assert(a[1].key != "byte_order".spec_bytes());
        assert(find_attr(a, "byte_order".spec_bytes()) == find_attr(
            a1,
            "byte_order".spec_bytes(),
        ));
        assert(find_attr(a1, "byte_order".spec_bytes()) == find_attr(
            a2,
            "byte_order".spec_bytes(),
        ));
        assert(find_attr(a2, "byte_order".spec_bytes()) == Some(a[2].value));
    }
}


/// What the writer opens a document with, the reader accepts: the bytes
/// of a written file, scanned from the start, skip the declaration and
/// find a well-attributed `VTKFile` element, and after it the
/// `RectilinearGrid` element whose `WholeExtent` attribute parses back as
/// a span — so reading a written file never fails the document-header or
/// whole-extent stages.
pub proof fn lemma_written_document_scans<DOMAIN, D, EncMesh, EncArray, SPAN>(
    domain: DOMAIN,
    data: D,
) where
    DOMAIN: Domain<EncMesh>,
    D: DataArray<EncArray>,
    EncMesh: Encode,
    EncArray: Encode,
    SPAN: crate::ParseSpan,

    requires
        forall|i: int|
            0 <= i < domain.spec_span_string().len() ==> (#[trigger] domain.spec_span_string()[i])
                != 0x22,
        SPAN::spec_from_span_str(domain.spec_span_string()) is Some,
    ensures
        crate::parse::spec_grid_header_ok(
            spec_vtk_file::<DOMAIN, D, EncMesh, EncArray>(domain, data),
        ),
        crate::parse::spec_whole_extent_ok::<SPAN>(
            spec_vtk_file::<DOMAIN, D, EncMesh, EncArray>(domain, data),
        ),
{
    broadcast use vstd::string::is_ascii_spec_bytes;

    lemma_vtkfile_attrs_wf();
    let s = spec_vtk_file::<DOMAIN, D, EncMesh, EncArray>(domain, data);
    let span_str = domain.spec_span_string();
    let rs_vtk = xml::render_start("VTKFile".spec_bytes(), spec_vtkfile_attrs());
    let we_attrs = seq![SpecAttr { key: "WholeExtent".spec_bytes(), value: span_str }];
    let rs_grid = xml::render_start("RectilinearGrid".spec_bytes(), we_attrs);
    let d = xml::render_decl().len() as int;
    let q1 = d + rs_vtk.len() as int;
    let q2 = q1 + rs_grid.len() as int;
    assert(q2 <= s.len());
    assert(s.subrange(0, d) =~= xml::render_decl());
    xml::lemma_scan_render_decl(s, 0);
    assert(s.subrange(d, q1) =~= rs_vtk);
    xml::lemma_scan_render_start(s, d, "VTKFile".spec_bytes(), spec_vtkfile_attrs());
    assert(crate::parse::skip_decls(s, 0) == d) by {
        assert(crate::parse::skip_decls(s, d) == d);
    }
    assert(s.subrange(q1, q2) =~= rs_grid);
    assert(xml::wf_attrs(we_attrs)) by {
        assert(xml::wf_attr(we_attrs[0]));
    }
    xml::lemma_scan_render_start(s, q1, "RectilinearGrid".spec_bytes(), we_attrs);
    assert(crate::parse::spec_grid_header_end(s) == q1);
    assert(xml::find_attr(we_attrs, "WholeExtent".spec_bytes()) == Some(span_str));
}

} // verus!
