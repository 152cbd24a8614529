//! Round trips through the 2D domain with its synthetic unit Z axis, and
//! through a three-component vector field.

use vtk::parse::PendingArena;
use vtk::{Field3D, Mesh2D, Mesh3D, Numeric, Rectilinear2D, Rectilinear3D, Spans2D, Spans3D,
    VtkData};

/// 64-bit element conversions backed by shortest round-trip decimal text.
#[derive(Debug)]
pub struct F64;

impl Numeric for F64 {
    fn as_precision() -> vtk::Precision {
        vtk::Precision::Float64
    }

    fn to_token(b: u64) -> Vec<u8> {
        let mut buf = ryu::Buffer::new();
        buf.format(f64::from_bits(b)).as_bytes().to_vec()
    }

    fn from_token(t: &[u8]) -> Option<u64> {
        std::str::from_utf8(t).ok()?.parse::<f64>().ok().map(|v| v.to_bits())
    }
}

fn bits(vals: &[f64]) -> Vec<u64> {
    vals.iter().map(|v| v.to_bits()).collect()
}

#[derive(Debug)]
pub struct PlaneData {
    pub u: vtk::Scalar2D<F64>,
}

impl vtk::DataArray<vtk::Binary> for PlaneData {
    fn write_array_header(&self, out: &mut Vec<u8>, starting_offset: i64) {
        vtk::write_appended_dataarray_header(out, "u", starting_offset, 1, vtk::Precision::Float64);
    }

    fn write_array_appended(&self, out: &mut Vec<u8>) {
        vtk::Array::write_binary(&self.u, out, true);
    }
}

pub struct PlaneDataVisitor {
    u: vtk::parse::PartialDataArrayBuffered,
}

impl vtk::Visitor<Spans2D> for PlaneDataVisitor {
    type Output = PlaneData;
    type Num = F64;

    fn read_headers(
        spans: &Spans2D,
        input: &[u8],
        pos: usize,
        arena: &mut PendingArena,
    ) -> Result<(Self, usize), vtk::parse::Mesh> {
        let n = vtk::Span::num_elements(spans);
        let (pos, u) = vtk::parse::parse_dataarray_or_lazy::<F64>(input, pos, "u", n)?;
        let u = vtk::parse::PartialDataArrayBuffered::new(u, n, arena);
        Ok((PlaneDataVisitor { u }, pos))
    }

    fn finish(self, spans: &Spans2D, arena: &PendingArena) -> Option<PlaneData> {
        let comps = self.u.components(arena);
        let buffer = self.u.try_into_buffer(arena)?;
        let u =
            <vtk::Scalar2D<F64> as vtk::FromBuffer<Spans2D>>::from_buffer(buffer, spans, comps)?;
        Some(PlaneData { u })
    }
}

impl vtk::ParseArray for PlaneData {
    type Visitor = PlaneDataVisitor;
}

#[test]
fn roundtrip_two_dim_binary() {
    let spans = Spans2D::new(3, 2);
    let mesh = Mesh2D::new(bits(&[0.0, 0.5, 1.0]), bits(&[0.0, 2.0]));
    let domain: Rectilinear2D<F64, vtk::Binary> = Rectilinear2D::new(mesh, spans);
    let source = bits(&[1.0, 2.0, 3.0, 4.0, 5.0, 6.0]);
    let u = vtk::Scalar2D::new(source.clone(), 3, 2);
    let vtk_data = VtkData::new(domain, PlaneData { u });
    let mut out: Vec<u8> = Vec::new();
    vtk::write_vtk::write_vtk::<_, _, vtk::Binary, vtk::Binary>(&vtk_data, &mut out);
    let read: VtkData<Rectilinear2D<F64, vtk::Binary>, PlaneData> = vtk::parse_xml_document::<
        _,
        Spans2D,
        _,
        Mesh2D<F64, vtk::Binary>,
        PlaneDataVisitor,
        vtk::mesh::Mesh2DVisitor<F64>,
    >(out.as_slice())
    .unwrap();
    assert_eq!(read.domain.spans, Spans2D::new(3, 2));
    assert_eq!(read.domain.mesh.x_locations, bits(&[0.0, 0.5, 1.0]));
    assert_eq!(read.domain.mesh.y_locations, bits(&[0.0, 2.0]));
    assert_eq!(read.data.u.data, source);
}

#[derive(Debug)]
pub struct FlowData {
    pub velocity: Field3D<F64>,
}

impl vtk::DataArray<vtk::Binary> for FlowData {
    fn write_array_header(&self, out: &mut Vec<u8>, starting_offset: i64) {
        vtk::write_appended_dataarray_header(
            out,
            "velocity",
            starting_offset,
            3,
            vtk::Precision::Float64,
        );
    }

    fn write_array_appended(&self, out: &mut Vec<u8>) {
        vtk::Array::write_binary(&self.velocity, out, true);
    }
}

pub struct FlowDataVisitor {
    velocity: vtk::parse::PartialDataArrayBuffered,
}

impl vtk::Visitor<Spans3D> for FlowDataVisitor {
    type Output = FlowData;
    type Num = F64;

    fn read_headers(
        spans: &Spans3D,
        input: &[u8],
        pos: usize,
        arena: &mut PendingArena,
    ) -> Result<(Self, usize), vtk::parse::Mesh> {
        let n = vtk::Span::num_elements(spans);
        let (pos, velocity) =
            vtk::parse::parse_dataarray_or_lazy::<F64>(input, pos, "velocity", n)?;
        let velocity = vtk::parse::PartialDataArrayBuffered::new(velocity, n, arena);
        Ok((FlowDataVisitor { velocity }, pos))
    }

    fn finish(self, spans: &Spans3D, arena: &PendingArena) -> Option<FlowData> {
        let comps = self.velocity.components(arena);
        let buffer = self.velocity.try_into_buffer(arena)?;
        let velocity =
            <Field3D<F64> as vtk::FromBuffer<Spans3D>>::from_buffer(buffer, spans, comps)?;
        Some(FlowData { velocity })
    }
}

impl vtk::ParseArray for FlowData {
    type Visitor = FlowDataVisitor;
}

#[test]
fn axis_major_vector_roundtrip() {
    // A three-component field of distinct values: the recovered array
    // matches the source at every index, not just in total byte count.
    let nx = 2;
    let ny = 3;
    let nz = 2;
    let spans = Spans3D::new(nx, ny, nz);
    let axis2 = bits(&[0.0, 1.0]);
    let axis3 = bits(&[0.0, 1.0, 2.0]);
    let mesh = Mesh3D::new(axis2.clone(), axis3, axis2.clone());
    let domain: Rectilinear3D<F64, vtk::Binary> = Rectilinear3D::new(mesh, spans);
    let total = 3 * nx * ny * nz;
    let source: Vec<u64> = (0..total).map(|v| (v as f64 + 0.25).to_bits()).collect();
    let velocity = Field3D::new(source.clone(), 3, nx, ny, nz);
    let vtk_data = VtkData::new(domain, FlowData { velocity });
    let mut out: Vec<u8> = Vec::new();
    vtk::write_vtk::write_vtk::<_, _, vtk::Binary, vtk::Binary>(&vtk_data, &mut out);
    let read: VtkData<Rectilinear3D<F64, vtk::Binary>, FlowData> = vtk::parse_xml_document::<
        _,
        Spans3D,
        _,
        Mesh3D<F64, vtk::Binary>,
        FlowDataVisitor,
        vtk::mesh::Mesh3DVisitor<F64>,
    >(out.as_slice())
    .unwrap();
    let got = read.data.velocity;
    for n in 0..3 {
        for x in 0..nx {
            for y in 0..ny {
                for z in 0..nz {
                    let idx = ((n * nx + x) * ny + y) * nz + z;
                    assert_eq!(got.get(n, x, y, z), source[idx]);
                }
            }
        }
    }
}

#[test]
fn serialized_order_is_axis_major() {
    // The serialized element sequence equals iterating z, y, x with the
    // component index fastest.
    let nx = 2;
    let ny = 2;
    let nz = 2;
    let total = 3 * nx * ny * nz;
    let source: Vec<u64> = (0..total).map(|v| (v as f64).to_bits()).collect();
    let velocity = Field3D::<F64>::new(source.clone(), 3, nx, ny, nz);
    let mut expected: Vec<u64> = Vec::new();
    for z in 0..nz {
        for y in 0..ny {
            for x in 0..nx {
                for n in 0..3 {
                    expected.push(source[((n * nx + x) * ny + y) * nz + z]);
                }
            }
        }
    }
    let mut payload: Vec<u8> = Vec::new();
    vtk::Array::write_binary(&velocity, &mut payload, false);
    let decoded = vtk::codec::read_binary_elems(
        vtk::Precision::Float64,
        payload.as_slice(),
        0,
        payload.len(),
    );
    assert_eq!(decoded, expected);
}
