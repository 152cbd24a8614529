//! Span arithmetic and strings, and the axis-major iteration order of the
//! array containers.

use vtk::array::Components;
use vtk::Domain;
use vtk::{Field2D, Field3D, Numeric, Scalar2D, Scalar3D, Spans2D, Spans3D};

/// 64-bit element conversions backed by shortest round-trip decimal text.
#[derive(Debug)]
pub struct F64;

impl Numeric for F64 {
    fn as_precision() -> vtk::Precision {
        vtk::Precision::Float64
    }

    fn to_token(b: u64) -> Vec<u8> {
        let mut buf = ryu::Buffer::new();
        buf.format(f64::from_bits(b)).as_bytes().to_vec()
    }

    fn from_token(t: &[u8]) -> Option<u64> {
        std::str::from_utf8(t).ok()?.parse::<f64>().ok().map(|v| v.to_bits())
    }
}

fn range_bits(n: usize) -> Vec<u64> {
    (0..n).map(|v| (v as f64).to_bits()).collect()
}

#[test]
fn span_lengths() {
    let s = Spans3D::new(10, 30, 10);
    assert_eq!(s.x_len(), 10);
    assert_eq!(s.y_len(), 30);
    assert_eq!(s.z_len(), 10);
    let s2 = Spans2D::new(4, 7);
    assert_eq!(s2.x_len(), 4);
    assert_eq!(s2.y_len(), 7);
}

#[test]
fn span_string_exact() {
    let s = Spans3D::new(4, 4, 4);
    assert_eq!(s.to_string(), b"1 4 1 4 1 4".to_vec());
    let s2 = Spans2D::new(3, 5);
    assert_eq!(s2.to_string(), b"1 3 1 5 1 1".to_vec());
}

#[test]
fn span_string_parses_back() {
    let s = Spans3D { x_start: 0, x_end: 10, y_start: 0, y_end: 20, z_start: 0, z_end: 10 };
    let rendered = s.to_string();
    let parsed = Spans3D::try_from_span_bytes(rendered.as_slice()).unwrap();
    assert_eq!(parsed, s);
}

#[test]
fn span_from_string() {
    let parsed = Spans3D::from_span_string("1 10 1 30 1 10");
    assert_eq!(parsed, Spans3D::new(10, 30, 10));
    let parsed2 = Spans2D::from_span_string("1 4 1 7 1 1");
    assert_eq!(parsed2, Spans2D::new(4, 7));
}

#[test]
fn span_string_rejects_bad_input() {
    assert!(Spans3D::try_from_span_bytes(b"1 2 3 4 5").is_none());
    assert!(Spans3D::try_from_span_bytes(b"1 2 3 4 5 x").is_none());
    assert!(Spans2D::try_from_span_bytes(b"7").is_none());
}

#[test]
fn scalar_3d_iter_order() {
    let nx = 3;
    let ny = 2;
    let nz = 4;
    let data = range_bits(nx * ny * nz);
    let arr = Scalar3D::<F64>::new(data.clone(), nx, ny, nz);
    let mut expected: Vec<u64> = Vec::new();
    for k in 0..nz {
        for j in 0..ny {
            for i in 0..nx {
                expected.push(data[(i * ny + j) * nz + k]);
            }
        }
    }
    let actual = arr.iter();
    assert_eq!(expected, actual);
}

#[test]
fn field_3d_iter_order() {
    let nx = 3;
    let ny = 3;
    let nz = 3;
    let nn = 2;
    let data = range_bits(nn * nx * ny * nz);
    let arr = Field3D::<F64>::new(data.clone(), nn, nx, ny, nz);
    let mut expected: Vec<u64> = Vec::new();
    for k in 0..nz {
        for j in 0..ny {
            for i in 0..nx {
                for n in 0..nn {
                    expected.push(data[((n * nx + i) * ny + j) * nz + k]);
                }
            }
        }
    }
    let actual = arr.iter();
    assert_eq!(expected, actual);
}

#[test]
fn scalar_2d_iter_order() {
    let nx = 4;
    let ny = 3;
    let data = range_bits(nx * ny);
    let arr = Scalar2D::<F64>::new(data.clone(), nx, ny);
    let mut expected: Vec<u64> = Vec::new();
    for j in 0..ny {
        for i in 0..nx {
            expected.push(data[i * ny + j]);
        }
    }
    let actual = arr.iter();
    assert_eq!(expected, actual);
}

#[test]
fn field_2d_iter_order() {
    let nx = 3;
    let ny = 2;
    let nn = 2;
    let data = range_bits(nn * nx * ny);
    let arr = Field2D::<F64>::new(data.clone(), nn, nx, ny);
    let mut expected: Vec<u64> = Vec::new();
    for j in 0..ny {
        for i in 0..nx {
            for n in 0..nn {
                expected.push(data[(n * nx + i) * ny + j]);
            }
        }
    }
    let actual = arr.iter();
    assert_eq!(expected, actual);
}

#[test]
fn from_buffer_inverts_iter() {
    let spans = Spans3D::new(3, 2, 4);
    let data = range_bits(3 * 2 * 4);
    let arr = Scalar3D::<F64>::new(data.clone(), 3, 2, 4);
    let wire = arr.iter();
    let back =
        <Scalar3D<F64> as vtk::FromBuffer<Spans3D>>::from_buffer(wire, &spans, 1).unwrap();
    assert_eq!(back.data, data);
}

#[test]
fn ascii_tokens_roundtrip() {
    // write an inline ascii array, read it back, compare by index
    let values: Vec<u64> = [0.25f64, -1.5, 0.0, 3.75].iter().map(|v| v.to_bits()).collect();
    let arr = Scalar3D::<F64>::new(values.clone(), 4, 1, 1);
    let mut out: Vec<u8> = Vec::new();
    vtk::write_inline_dataarray(&mut out, &arr, "u", vtk::Encoding::Ascii);
    let (_pos, parsed) =
        vtk::parse::parse_dataarray_or_lazy::<F64>(out.as_slice(), 0, "u", 4).unwrap();
    assert_eq!(parsed.unwrap_parsed(), values);
}

#[test]
fn wrong_array_name_is_rejected() {
    let header = r#"<DataArray type="Float64" NumberOfComponents="1" Name="Y" format="ascii">"#;
    let err = vtk::parse::read_dataarray_header(header.as_bytes(), 0, "X", vtk::Precision::Float64)
        .unwrap_err();
    assert!(matches!(err, vtk::parse::Mesh::DataArrayName(_)));
}

#[test]
fn wrong_precision_is_rejected() {
    let header = r#"<DataArray type="Float32" NumberOfComponents="1" Name="X" format="ascii">"#;
    let err = vtk::parse::read_dataarray_header(header.as_bytes(), 0, "X", vtk::Precision::Float64)
        .unwrap_err();
    assert!(matches!(err, vtk::parse::Mesh::UnexpectedPrecision(_)));
}

#[test]
fn unknown_format_is_rejected() {
    let header = r#"<DataArray type="Float64" NumberOfComponents="1" Name="X" format="zipped">"#;
    let err = vtk::parse::read_dataarray_header(header.as_bytes(), 0, "X", vtk::Precision::Float64)
        .unwrap_err();
    assert!(matches!(err, vtk::parse::Mesh::DataArrayFormat(_)));
}

#[test]
fn missing_components_is_rejected() {
    let header = r#"<DataArray type="Float64" Name="X" format="ascii">"#;
    let err = vtk::parse::read_dataarray_header(header.as_bytes(), 0, "X", vtk::Precision::Float64)
        .unwrap_err();
    assert!(matches!(err, vtk::parse::Mesh::MissingAttribute(_)));
}

#[test]
fn malformed_markup_is_rejected() {
    let header = r#"<DataArray type="Float64" NumberOfComponents="1" "#;
    let err = vtk::parse::read_dataarray_header(header.as_bytes(), 0, "X", vtk::Precision::Float64)
        .unwrap_err();
    assert!(matches!(err, vtk::parse::Mesh::MalformedXml(_)));
}

#[test]
fn small_constants_match_ieee() {
    assert_eq!(vtk::precision::SMALL_F64_BITS, 1e-6f64.to_bits());
    assert_eq!(vtk::precision::SMALL_F32_BITS, 1e-6f32.to_bits() as u64);
    assert_eq!(vtk::precision::NEG_ZERO_F64_BITS, (-0.0f64).to_bits());
    assert_eq!(vtk::precision::FILLER_F64_BITS, 100.0f64.to_bits());
}

#[test]
fn domain_check_wf() {
    let spans = Spans3D::new(2, 2, 2);
    let good: vtk::Rectilinear3D<F64, vtk::Binary> = vtk::Rectilinear3D::new(
        vtk::Mesh3D::new(range_bits(2), range_bits(2), range_bits(2)),
        spans,
    );
    assert!(good.check_wf());
    // a coordinate array whose length contradicts the spans
    let bad: vtk::Rectilinear3D<F64, vtk::Binary> = vtk::Rectilinear3D::new(
        vtk::Mesh3D::new(range_bits(3), range_bits(2), range_bits(2)),
        Spans3D::new(2, 2, 2),
    );
    assert!(!bad.check_wf());
    let good2: vtk::Rectilinear2D<F64, vtk::Ascii> = vtk::Rectilinear2D::new(
        vtk::Mesh2D::new(range_bits(4), range_bits(3)),
        vtk::Spans2D::new(4, 3),
    );
    assert!(good2.check_wf());
}
