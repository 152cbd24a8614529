//! End-to-end reading and writing through every encoding combination,
//! plus the byte-exact quirks of the wire format.

use vtk::parse::{ParseError, PendingArena, RectilinearHeader};
use vtk::{Encode, Mesh3D, Numeric, Rectilinear3D, Scalar3D, Spans3D, VtkData};

/// 64-bit element conversions backed by shortest round-trip decimal text.
#[derive(Debug)]
pub struct F64;

impl Numeric for F64 {
    fn as_precision() -> vtk::Precision {
        vtk::Precision::Float64
    }

    fn to_token(b: u64) -> Vec<u8> {
        let mut buf = ryu::Buffer::new();
        buf.format(f64::from_bits(b)).as_bytes().to_vec()
    }

    fn from_token(t: &[u8]) -> Option<u64> {
        std::str::from_utf8(t).ok()?.parse::<f64>().ok().map(|v| v.to_bits())
    }
}

/// 32-bit element conversions.
#[derive(Debug)]
pub struct F32;

impl Numeric for F32 {
    fn as_precision() -> vtk::Precision {
        vtk::Precision::Float32
    }

    fn to_token(b: u64) -> Vec<u8> {
        let mut buf = ryu::Buffer::new();
        buf.format(f32::from_bits(b as u32)).as_bytes().to_vec()
    }

    fn from_token(t: &[u8]) -> Option<u64> {
        std::str::from_utf8(t)
            .ok()?
            .parse::<f32>()
            .ok()
            .map(|v| v.to_bits() as u64)
    }
}

fn bits(vals: &[f64]) -> Vec<u64> {
    vals.iter().map(|v| v.to_bits()).collect()
}

#[derive(Debug)]
pub struct SpanData {
    pub u: Scalar3D<F64>,
}

impl vtk::DataArray<vtk::Binary> for SpanData {
    fn write_array_header(&self, out: &mut Vec<u8>, starting_offset: i64) {
        vtk::write_appended_dataarray_header(out, "u", starting_offset, 1, vtk::Precision::Float64);
    }

    fn write_array_appended(&self, out: &mut Vec<u8>) {
        vtk::Array::write_binary(&self.u, out, true);
    }
}

impl vtk::DataArray<vtk::Ascii> for SpanData {
    fn write_array_header(&self, out: &mut Vec<u8>, _starting_offset: i64) {
        vtk::write_inline_dataarray(out, &self.u, "u", vtk::Encoding::Ascii);
    }

    fn write_array_appended(&self, _out: &mut Vec<u8>) {}
}

impl vtk::DataArray<vtk::Base64> for SpanData {
    fn write_array_header(&self, out: &mut Vec<u8>, _starting_offset: i64) {
        vtk::write_inline_dataarray(out, &self.u, "u", vtk::Encoding::Base64);
    }

    fn write_array_appended(&self, _out: &mut Vec<u8>) {}
}

pub struct SpanDataVisitor {
    u: vtk::parse::PartialDataArrayBuffered,
}

impl vtk::Visitor<Spans3D> for SpanDataVisitor {
    type Output = SpanData;
    type Num = F64;

    fn read_headers(
        spans: &Spans3D,
        input: &[u8],
        pos: usize,
        arena: &mut PendingArena,
    ) -> Result<(Self, usize), vtk::parse::Mesh> {
        let n = vtk::Span::num_elements(spans);
        let (pos, u) = vtk::parse::parse_dataarray_or_lazy::<F64>(input, pos, "u", n)?;
        let u = vtk::parse::PartialDataArrayBuffered::new(u, n, arena);
        Ok((SpanDataVisitor { u }, pos))
    }

    fn finish(self, spans: &Spans3D, arena: &PendingArena) -> Option<SpanData> {
        let comps = self.u.components(arena);
        let buffer = self.u.try_into_buffer(arena)?;
        let u = <Scalar3D<F64> as vtk::FromBuffer<Spans3D>>::from_buffer(buffer, spans, comps)?;
        Some(SpanData { u })
    }
}

impl vtk::ParseArray for SpanData {
    type Visitor = SpanDataVisitor;
}

fn sample_domain<E>() -> (Rectilinear3D<F64, E>, SpanData) {
    let spans = Spans3D::new(2, 2, 2);
    let mesh = Mesh3D::new(bits(&[0.0, 1.0]), bits(&[0.0, 1.5]), bits(&[0.0, 2.0]));
    let domain = Rectilinear3D::new(mesh, spans);
    let u = Scalar3D::new(
        bits(&[0.5, 1.5, 2.5, 3.5, 4.5, 5.5, 6.5, 7.5]),
        2,
        2,
        2,
    );
    (domain, SpanData { u })
}

fn roundtrip<EncM, EncA>()
where
    Rectilinear3D<F64, EncM>: vtk::Domain<EncM>,
    SpanData: vtk::DataArray<EncA>,
    EncM: Encode,
    EncA: Encode,
{
    let (domain, data) = sample_domain::<EncM>();
    let mesh_x = domain.mesh.x_locations.clone();
    let mesh_y = domain.mesh.y_locations.clone();
    let mesh_z = domain.mesh.z_locations.clone();
    let source = data.u.data.clone();
    let vtk_data = VtkData::new(domain, data);
    let mut out: Vec<u8> = Vec::new();
    vtk::write_vtk::write_vtk::<_, _, EncM, EncA>(&vtk_data, &mut out);
    let read: VtkData<Rectilinear3D<F64, vtk::Binary>, SpanData> = vtk::parse_xml_document::<
        _,
        Spans3D,
        _,
        Mesh3D<F64, vtk::Binary>,
        SpanDataVisitor,
        vtk::mesh::Mesh3DVisitor<F64>,
    >(out.as_slice())
    .unwrap();
    assert_eq!(read.domain.spans, Spans3D::new(2, 2, 2));
    assert_eq!(read.domain.mesh.x_locations, mesh_x);
    assert_eq!(read.domain.mesh.y_locations, mesh_y);
    assert_eq!(read.domain.mesh.z_locations, mesh_z);
    assert_eq!(read.data.u.data, source);
}

#[test]
fn roundtrip_binary_binary() {
    roundtrip::<vtk::Binary, vtk::Binary>();
}

#[test]
fn roundtrip_binary_ascii() {
    roundtrip::<vtk::Binary, vtk::Ascii>();
}

#[test]
fn roundtrip_binary_base64() {
    roundtrip::<vtk::Binary, vtk::Base64>();
}

#[test]
fn roundtrip_ascii_binary() {
    roundtrip::<vtk::Ascii, vtk::Binary>();
}

#[test]
fn roundtrip_ascii_ascii() {
    roundtrip::<vtk::Ascii, vtk::Ascii>();
}

#[test]
fn roundtrip_ascii_base64() {
    roundtrip::<vtk::Ascii, vtk::Base64>();
}

#[test]
fn roundtrip_base64_binary() {
    roundtrip::<vtk::Base64, vtk::Binary>();
}

#[test]
fn roundtrip_base64_ascii() {
    roundtrip::<vtk::Base64, vtk::Ascii>();
}

#[test]
fn roundtrip_base64_base64() {
    roundtrip::<vtk::Base64, vtk::Base64>();
}

#[test]
fn zero_tail_substitution() {
    // A binary array ending in exactly 0.0 comes back as 1e-6, while a
    // middle 0.0 is preserved exactly.
    let spans = Spans3D::new(2, 2, 2);
    let mesh = Mesh3D::new(bits(&[0.0, 1.0]), bits(&[0.0, 1.0]), bits(&[0.0, 1.0]));
    let domain: Rectilinear3D<F64, vtk::Ascii> = Rectilinear3D::new(mesh, spans);
    let u = Scalar3D::new(bits(&[1.0, 2.0, 3.0, 0.0, 5.0, 6.0, 7.0, 0.0]), 2, 2, 2);
    let vtk_data = VtkData::new(domain, SpanData { u });
    let mut out: Vec<u8> = Vec::new();
    vtk::write_vtk::write_vtk::<_, _, vtk::Ascii, vtk::Binary>(&vtk_data, &mut out);
    let read: VtkData<Rectilinear3D<F64, vtk::Binary>, SpanData> = vtk::parse_xml_document::<
        _,
        Spans3D,
        _,
        Mesh3D<F64, vtk::Binary>,
        SpanDataVisitor,
        vtk::mesh::Mesh3DVisitor<F64>,
    >(out.as_slice())
    .unwrap();
    let got = &read.data.u.data;
    // store order is (x, y, z) with z fastest; the wire order permutes it,
    // but positions are recovered exactly, so compare by position.
    assert_eq!(f64::from_bits(got[3]), 0.0);
    assert_eq!(f64::from_bits(got[7]), 1e-6);
    assert_eq!(f64::from_bits(got[0]), 1.0);
}

#[test]
fn end_to_end_sequential() {
    // A 4x4x4 scalar field of sequential values, data binary, mesh ascii.
    let spans = Spans3D::new(4, 4, 4);
    let axis: Vec<u64> = bits(&[0.0, 1.0, 2.0, 3.0]);
    let mesh = Mesh3D::new(axis.clone(), axis.clone(), axis.clone());
    let domain: Rectilinear3D<F64, vtk::Ascii> = Rectilinear3D::new(mesh, spans);
    let vals: Vec<f64> = (0..64).map(|v| v as f64).collect();
    let u = Scalar3D::new(bits(&vals), 4, 4, 4);
    let source = u.data.clone();
    let vtk_data = VtkData::new(domain, SpanData { u });
    let mut out: Vec<u8> = Vec::new();
    vtk::write_vtk::write_vtk::<_, _, vtk::Ascii, vtk::Binary>(&vtk_data, &mut out);
    let read: VtkData<Rectilinear3D<F64, vtk::Binary>, SpanData> = vtk::parse_xml_document::<
        _,
        Spans3D,
        _,
        Mesh3D<F64, vtk::Binary>,
        SpanDataVisitor,
        vtk::mesh::Mesh3DVisitor<F64>,
    >(out.as_slice())
    .unwrap();
    // position (x, y, z) = (1, 2, 3) in caller order, z fastest
    let idx = (1 * 4 + 2) * 4 + 3;
    assert_eq!(read.data.u.data[idx], source[idx]);
    assert_eq!(read.data.u.data, source);
}

#[test]
fn missing_whole_extent_is_rejected() {
    let input = r#"<?xml version="1.0" encoding="UTF-8"?><VTKFile type="RectilinearGrid" byte_order="LittleEndian"><RectilinearGrid><Piece Extent="1 2 1 2 1 2">"#;
    let err = vtk::parse_xml_document::<
        Rectilinear3D<F64, vtk::Binary>,
        Spans3D,
        SpanData,
        Mesh3D<F64, vtk::Binary>,
        SpanDataVisitor,
        vtk::mesh::Mesh3DVisitor<F64>,
    >(input.as_bytes())
    .unwrap_err();
    match err {
        vtk::Error::Parse(ParseError::RectilinearHeader(RectilinearHeader::MissingAttribute(
            _,
        ))) => {}
        other => panic!("expected a missing-attribute error, got {:?}", other),
    }
}

#[test]
fn equal_offsets_are_rejected() {
    // Two placeholders declaring the same offset must fail, not misread.
    let mut arena = PendingArena::new();
    let _ = arena.register(0, 1, 2);
    let _ = arena.register(0, 1, 2);
    let mut section: Vec<u8> = vec![0u8; 9 + 32];
    section[0] = b'_';
    let err =
        vtk::parse::read_appended_array_buffers(section.as_slice(), 0, &mut arena, vtk::Precision::Float64)
            .unwrap_err();
    match err {
        vtk::parse::AppendedData::ParsingBinary(_) => {}
        other => panic!("expected a binary-section error, got {:?}", other),
    }
}

#[test]
fn offset_distance_mismatch_is_rejected() {
    // Offsets 0 and 8 but sixteen declared bytes for the first array.
    let mut arena = PendingArena::new();
    let _ = arena.register(0, 1, 2);
    let _ = arena.register(8, 1, 2);
    let section: Vec<u8> = vec![0u8; 9 + 64];
    let err =
        vtk::parse::read_appended_array_buffers(section.as_slice(), 0, &mut arena, vtk::Precision::Float64)
            .unwrap_err();
    match err {
        vtk::parse::AppendedData::ParsingBinary(_) => {}
        other => panic!("expected a binary-section error, got {:?}", other),
    }
}

#[test]
fn short_appended_section_is_rejected() {
    let mut arena = PendingArena::new();
    let _ = arena.register(0, 1, 4);
    let section: Vec<u8> = vec![0u8; 9 + 8];
    let err =
        vtk::parse::read_appended_array_buffers(section.as_slice(), 0, &mut arena, vtk::Precision::Float64)
            .unwrap_err();
    match err {
        vtk::parse::AppendedData::ParsingBinary(vtk::parse::ParsingBinary::BinaryToFloat) => {}
        other => panic!("expected an insufficient-bytes error, got {:?}", other),
    }
}

#[test]
fn leading_bytes_too_short_is_rejected() {
    let section: Vec<u8> = vec![0u8; 4];
    let err = vtk::parse::clean_garbage_from_reader(section.as_slice(), 0).unwrap_err();
    match err {
        vtk::parse::AppendedData::ParsingBinary(vtk::parse::ParsingBinary::LeadingBytes) => {}
        other => panic!("expected a leading-bytes error, got {:?}", other),
    }
}

#[test]
fn f32_binary_payload_roundtrip() {
    let values: Vec<u64> =
        [1.5f32, -2.25, 0.0, 7.125].iter().map(|v| v.to_bits() as u64).collect();
    let mut payload: Vec<u8> = Vec::new();
    vtk::codec::write_binary_payload(vtk::Precision::Float32, values.as_slice(), false, &mut payload);
    assert_eq!(payload.len(), 16);
    let decoded = vtk::codec::read_binary_elems(
        vtk::Precision::Float32,
        payload.as_slice(),
        0,
        payload.len(),
    );
    assert_eq!(decoded, values);
}

#[test]
fn f32_zero_tail_substitution() {
    let values: Vec<u64> = [1.0f32, 0.0].iter().map(|v| v.to_bits() as u64).collect();
    let mut payload: Vec<u8> = Vec::new();
    vtk::codec::write_binary_payload(vtk::Precision::Float32, values.as_slice(), true, &mut payload);
    let decoded = vtk::codec::read_binary_elems(
        vtk::Precision::Float32,
        payload.as_slice(),
        0,
        payload.len(),
    );
    assert_eq!(decoded[0], 1.0f32.to_bits() as u64);
    assert_eq!(decoded[1], 1e-6f32.to_bits() as u64);
}
