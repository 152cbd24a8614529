//! Reading and writing of rectilinear-grid VTK files.
//!
//! A computational domain (spans plus coordinate arrays) and a set of
//! named per-point data arrays are serialized into an XML container with
//! ASCII, Base64, or raw appended-binary payloads, and read back from it.
//! Numeric elements travel through the library as their IEEE-754 bit
//! patterns, so that every byte of the wire format is pinned down by the
//! contracts; the float-facing text conversions are supplied by
//! implementors of [`Numeric`].

pub mod array;
pub mod bytebuf;
pub mod codec;
mod data;
pub mod decimal;
pub mod mesh;
pub mod parse;
pub mod precision;
mod traits;
pub mod write_vtk;
pub mod xml;

use vstd::prelude::*;

pub use traits::Array;
pub use traits::DataArray;
pub use traits::Domain;
pub use traits::Encode;
pub use traits::FromBuffer;
pub use traits::Numeric;
pub use traits::ParseArray;
pub use traits::ParseMesh;
pub use traits::ParseSpan;
pub use traits::Span;
pub use traits::Visitor;

pub use data::VtkData;

pub use mesh::{Mesh2D, Rectilinear2D, Spans2D};
pub use mesh::{Mesh3D, Rectilinear3D, Spans3D};

pub use array::{Field2D, Field3D, Scalar2D, Scalar3D};

pub use precision::Precision;
pub use write_vtk::{write_appended_dataarray_header, write_inline_dataarray, Encoding};

pub use parse::parse_xml_document;
pub use write_vtk::write_vtk;

verus! {

/// The unified error of the reading entry points: a stage-tagged
/// structural fault.
#[derive(Debug, PartialEq)]
pub enum Error {
    Parse(parse::ParseError),
}

/// Binary (raw appended) encoding marker type.
#[derive(Debug, Clone, PartialEq)]
pub struct Binary;

/// Base64 encoding marker type.
#[derive(Debug, Clone)]
pub struct Base64;

/// Ascii encoding marker type.
#[derive(Debug, Clone, PartialEq)]
pub struct Ascii;

impl traits::Encode for Binary {
    open spec fn spec_is_binary() -> bool {
        true
    }

    fn is_binary() -> bool {
        true
    }
}

impl traits::Encode for Ascii {
    open spec fn spec_is_binary() -> bool {
        false
    }

    fn is_binary() -> bool {
        false
    }
}

impl traits::Encode for Base64 {
    open spec fn spec_is_binary() -> bool {
        false
    }

    fn is_binary() -> bool {
        false
    }
}

} // verus!
