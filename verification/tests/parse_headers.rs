//! Header-level parsing: locating the grid extents, reading coordinate
//! headers, and the per-array header forms.

use vtk::parse::{DataArrayHeader, PendingArena};
use vtk::{Numeric, Spans3D, Visitor};

/// 64-bit element conversions backed by shortest round-trip decimal text.
#[derive(Debug)]
pub struct F64;

impl Numeric for F64 {
    fn as_precision() -> vtk::Precision {
        vtk::Precision::Float64
    }

    fn to_token(b: u64) -> Vec<u8> {
        let mut buf = ryu::Buffer::new();
        buf.format(f64::from_bits(b)).as_bytes().to_vec()
    }

    fn from_token(t: &[u8]) -> Option<u64> {
        std::str::from_utf8(t).ok()?.parse::<f64>().ok().map(|v| v.to_bits())
    }
}

#[test]
fn parse_shred_to_extent() {
    let input = r#"<VTKFile type="RectilinearGrid" version="1.0" byte_order="LittleEndian" header_type="UInt64">
            <RectilinearGrid WholeExtent="1 220 1 200 1 1">
            <Piece Extent="1 220 1 200 1 1">"#;
    let pos = vtk::parse::read_to_grid_header(input.as_bytes(), 0).unwrap();
    let out: (usize, Spans3D) =
        vtk::parse::read_rectilinear_header(input.as_bytes(), pos).unwrap();
    assert_eq!(
        out.1,
        Spans3D { x_start: 1, x_end: 220, y_start: 1, y_end: 200, z_start: 1, z_end: 1 }
    );
}

#[test]
fn mod_shred_to_extent() {
    let input = r#"<VTKFile type="RectilinearGrid" version="1.0" byte_order="LittleEndian" header_type="UInt64">
            <RectilinearGrid WholeExtent="1 220 1 200 1 1">
            <Piece Extent="1 220 1 200 1 1">
            <Coordinates>
        "#;
    let pos = vtk::parse::read_to_grid_header(input.as_bytes(), 0).unwrap();
    let (pos, whole_extent): (usize, Spans3D) =
        vtk::parse::read_rectilinear_header(input.as_bytes(), pos).unwrap();
    let (_pos, local_extent): (usize, Spans3D) =
        vtk::parse::read_to_coordinates(input.as_bytes(), pos).unwrap();
    assert_eq!(
        whole_extent,
        Spans3D { x_start: 1, x_end: 220, y_start: 1, y_end: 200, z_start: 1, z_end: 1 }
    );
    assert_eq!(
        local_extent,
        Spans3D { x_start: 1, x_end: 220, y_start: 1, y_end: 200, z_start: 1, z_end: 1 }
    );
}

const LOCATIONS: &str = r#"
            <Piece Extent="1 220 1 200 1 1">
            <Coordinates>
                <DataArray type="Float64" NumberOfComponents="1" Name="X" format="ascii">
                    .0000000000E+00 .3981797497E-01 .7963594994E-01 .1194539249E+00
                </DataArray>
                <DataArray type="Float64" NumberOfComponents="1" Name="Y" format="ascii">
                    .0000000000E+00 .3981797497E-01 .7963594994E-01 .1194539249E+00
                </DataArray>
                <DataArray type="Float64" NumberOfComponents="1" Name="Z" format="ascii">
                    .0000000000E+00 .3981797497E-01 .7963594994E-01 .1194539249E+00
                </DataArray>
            </Coordinates>
            <PointData>
            "#;

#[test]
fn parse_shred_to_locations() {
    let spans = Spans3D::new(4, 4, 4);
    let input = LOCATIONS;
    let mut arena = PendingArena::new();
    let (_local, pos): ((usize, Spans3D), usize) = {
        let r = vtk::parse::read_to_coordinates::<Spans3D>(input.as_bytes(), 0).unwrap();
        let p = r.0;
        (r, p)
    };
    let (locations, _pos) =
        vtk::mesh::Mesh3DVisitor::<F64>::read_headers(&spans, input.as_bytes(), pos, &mut arena)
            .unwrap();
    let out = locations.finish(&spans, &arena).unwrap();
    assert_eq!(out.x_locations.len(), 4);
    assert_eq!(out.y_locations.len(), 4);
    assert_eq!(out.z_locations.len(), 4);
}

#[test]
fn mod_shred_to_locations() {
    let spans = Spans3D::new(4, 4, 4);
    let input = LOCATIONS;
    let mut arena = PendingArena::new();
    let (pos, _local): (usize, Spans3D) =
        vtk::parse::read_to_coordinates(input.as_bytes(), 0).unwrap();
    let (locations, pos) =
        vtk::mesh::Mesh3DVisitor::<F64>::read_headers(&spans, input.as_bytes(), pos, &mut arena)
            .unwrap();
    let out = locations.finish(&spans, &arena).unwrap();
    let _ = vtk::parse::prepare_reading_point_data(input.as_bytes(), pos).unwrap();
    assert_eq!(out.x_locations.len(), 4);
    assert_eq!(out.y_locations.len(), 4);
    assert_eq!(out.z_locations.len(), 4);
}

#[test]
fn mod_single_location() {
    let input = r#"
                <DataArray type="Float64" NumberOfComponents="1" Name="X" format="ascii">
                    .0000000000E+00 .3981797497E-01 .7963594994E-01 .1194539249E+00
                </DataArray>
            "#;
    let out = vtk::parse::parse_dataarray_or_lazy::<F64>(input.as_bytes(), 0, "X", 4);
    let (_pos, out) = out.unwrap();
    let expected = 4;
    assert_eq!(out.unwrap_parsed().len(), expected);
}

#[test]
fn mod_ascii_array_header() {
    let header = r#"<DataArray type="Float64" NumberOfComponents="1" Name="X" format="ascii">"#;
    let out =
        vtk::parse::read_dataarray_header(header.as_bytes(), 0, "X", vtk::Precision::Float64);
    let array_type = out.unwrap().2;
    assert_eq!(array_type, DataArrayHeader::InlineAscii { components: 1 });
}

#[test]
fn mod_base64_array_header() {
    let header = r#"<DataArray type="Float64" NumberOfComponents="1" Name="X" format="binary">"#;
    let out =
        vtk::parse::read_dataarray_header(header.as_bytes(), 0, "X", vtk::Precision::Float64);
    let array_type = out.unwrap().2;
    assert_eq!(array_type, DataArrayHeader::InlineBase64 { components: 1 });
}

#[test]
fn mod_appended_array_header() {
    let header = r#"<DataArray type="Float64" NumberOfComponents="3" Name="X" format="appended" offset="99">"#;
    let out =
        vtk::parse::read_dataarray_header(header.as_bytes(), 0, "X", vtk::Precision::Float64);
    let array_type = out.unwrap().2;
    assert_eq!(array_type, DataArrayHeader::AppendedBinary { offset: 99, components: 3 });
}

#[test]
fn mod_base_64_encoded_array() {
    let values: Vec<u64> = [1.0f64, 2.0, 3.0, 4.0].iter().map(|v| v.to_bits()).collect();
    let arr = vtk::Scalar3D::<F64>::new(values.clone(), 4, 1, 1);
    let mut output: Vec<u8> = Vec::new();
    vtk::write_inline_dataarray(&mut output, &arr, "X", vtk::Encoding::Base64);
    let parsed = vtk::parse::parse_dataarray_or_lazy::<F64>(output.as_slice(), 0, "X", 4);
    let (_pos, out) = parsed.unwrap();
    assert_eq!(out.unwrap_parsed(), values);
}

#[test]
fn mod_appended_array() {
    let values: Vec<u64> = [1.0f64, 2.0, 3.0, 4.0].iter().map(|v| v.to_bits()).collect();
    let values2: Vec<u64> = [5.0f64, 6.0, 7.0, 8.0].iter().map(|v| v.to_bits()).collect();
    let mut output: Vec<u8> = Vec::new();
    let offset_1: i64 = -8;
    let offset_2: i64 = -8 + (4 * 8);
    vtk::write_appended_dataarray_header(&mut output, "X", offset_1, 1, vtk::Precision::Float64);
    vtk::write_appended_dataarray_header(&mut output, "Y", offset_2, 1, vtk::Precision::Float64);
    vtk::xml::push_end_tag(&mut output, "PointData");
    vtk::xml::push_end_tag(&mut output, "Piece");
    vtk::xml::push_end_tag(&mut output, "RectilinearGrid");
    vtk::write_vtk::appended_binary_header_start(&mut output);
    vtk::write_vtk::write_section_filler(&mut output);
    vtk::codec::write_binary_payload(vtk::Precision::Float64, values.as_slice(), false, &mut output);
    vtk::codec::write_binary_payload(
        vtk::Precision::Float64,
        values2.as_slice(),
        true,
        &mut output,
    );
    vtk::write_vtk::appended_binary_header_end(&mut output);

    let mut arena = PendingArena::new();
    let (pos, h1) =
        vtk::parse::parse_dataarray_or_lazy::<F64>(output.as_slice(), 0, "X", 4).unwrap();
    let (pos, h2) = vtk::parse::parse_dataarray_or_lazy::<F64>(output.as_slice(), pos, "Y", 4)
        .unwrap();
    let b1 = vtk::parse::PartialDataArrayBuffered::new(h1, 4, &mut arena);
    let b2 = vtk::parse::PartialDataArrayBuffered::new(h2, 4, &mut arena);
    let pos = vtk::parse::close_element_to_appended_data(output.as_slice(), pos).unwrap();
    let _pos = vtk::parse::read_appended_data(
        output.as_slice(),
        pos,
        &mut arena,
        vtk::Precision::Float64,
    )
    .unwrap();
    let data_1 = b1.try_into_buffer(&arena).unwrap();
    let data_2 = b2.try_into_buffer(&arena).unwrap();
    assert_eq!(values, data_1);
    assert_eq!(values2, data_2);
}
