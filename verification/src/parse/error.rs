//! The error taxonomy of the reader, one variant set per structural
//! stage, so every failure names the stage it happened in.

use vstd::prelude::*;
use super::event_summary::EventSummary;
use crate::precision::Precision;

verus! {

/// An element or attribute name as read from the file: decoded text where
/// it was UTF-8, the raw bytes where it was not.
#[derive(Debug, PartialEq)]
pub enum ParsedNameOrBytes {
    Utf8(String),
    Bytes(Vec<u8>),
}

/// Relies on `String::from_utf8`: a string holds at most one character
/// per input byte, and `FromUtf8Error::into_bytes` hands the input bytes
/// back unchanged.
#[verifier::external_body]
fn bytes_to_string(v: Vec<u8>) -> (r: Result<String, Vec<u8>>)
    ensures
        r matches Ok(s) ==> s@.len() <= v@.len(),
        r matches Err(b) ==> b@ == v@,
{
    match String::from_utf8(v) {
        Ok(s) => Ok(s),
        Err(e) => Err(e.into_bytes()),
    }
}

impl ParsedNameOrBytes {
    /// Keep the name as text where it decodes, as bytes where it does
    /// not.
    pub fn new(bytes: &[u8]) -> Self {
        let v = vstd::slice::slice_to_vec(bytes);
        match bytes_to_string(v) {
            Ok(s) => ParsedNameOrBytes::Utf8(s),
            Err(b) => ParsedNameOrBytes::Bytes(b),
        }
    }

    /// Wrap an expected-name literal.
    pub fn from_str(s: &str) -> Self {
        ParsedNameOrBytes::Utf8(s.to_owned())
    }
}

/// The markup itself could not be scanned at this byte position.
#[derive(Debug, PartialEq)]
pub struct MalformedXml {
    pub pos: usize,
}

impl MalformedXml {
    pub fn new(pos: usize) -> Self {
        MalformedXml { pos }
    }
}

/// An attribute value did not hold what its element requires of it.
#[derive(Debug, PartialEq)]
pub struct MalformedAttribute {
    pub element_name: String,
    pub attribute_name: String,
}

impl MalformedAttribute {
    pub fn new(element_name: &str, attribute_name: &str) -> Self {
        MalformedAttribute {
            element_name: element_name.to_owned(),
            attribute_name: attribute_name.to_owned(),
        }
    }
}

/// Another element than the expected one stood here.
#[derive(Debug, PartialEq)]
pub struct UnexpectedElement {
    pub expected_name: String,
    pub actual_element: EventSummary,
}

impl UnexpectedElement {
    pub fn new(expected_name: &str, actual_element: EventSummary) -> Self {
        UnexpectedElement { expected_name: expected_name.to_owned(), actual_element }
    }
}

/// An attribute held another value than the one the format fixes.
#[derive(Debug, PartialEq)]
pub struct UnexpectedAttributeValue {
    pub element_name: String,
    pub attribute_name: String,
    pub expected_value: String,
    pub actual_value: ParsedNameOrBytes,
}

impl UnexpectedAttributeValue {
    pub fn new(
        element_name: &str,
        attribute_name: &str,
        expected_value: &str,
        actual_value: ParsedNameOrBytes,
    ) -> Self {
        UnexpectedAttributeValue {
            element_name: element_name.to_owned(),
            attribute_name: attribute_name.to_owned(),
            expected_value: expected_value.to_owned(),
            actual_value,
        }
    }
}

/// An attribute the format requires was missing from its element.
#[derive(Debug, PartialEq)]
pub struct MissingAttribute {
    pub element_name: String,
    pub attribute_name: String,
}

impl MissingAttribute {
    pub fn new(element_name: &str, attribute_name: &str) -> Self {
        MissingAttribute {
            element_name: element_name.to_owned(),
            attribute_name: attribute_name.to_owned(),
        }
    }
}

/// A data array declared another precision than the one being read.
#[derive(Debug, PartialEq)]
pub struct UnexpectedPrecision {
    pub array_name: String,
    pub expected_precision: Precision,
    pub actual_precision: ParsedNameOrBytes,
}

impl UnexpectedPrecision {
    pub fn new(
        array_name: &str,
        expected_precision: Precision,
        actual_precision: ParsedNameOrBytes,
    ) -> Self {
        UnexpectedPrecision {
            array_name: array_name.to_owned(),
            expected_precision,
            actual_precision,
        }
    }
}

/// A data array carried another name than the one expected at this point
/// of the declaration order.
#[derive(Debug, PartialEq)]
pub struct DataArrayName {
    pub actual_name: ParsedNameOrBytes,
    pub expected_name: String,
}

impl DataArrayName {
    pub fn new(actual_name: ParsedNameOrBytes, expected_name: &str) -> Self {
        DataArrayName { actual_name, expected_name: expected_name.to_owned() }
    }
}

/// A data array declared a format other than appended, binary, or ascii.
#[derive(Debug, PartialEq)]
pub struct DataArrayFormat {
    pub expected_name: String,
    pub actual_format: ParsedNameOrBytes,
}

impl DataArrayFormat {
    pub fn new(expected_name: &str, actual_format: ParsedNameOrBytes) -> Self {
        DataArrayFormat { expected_name: expected_name.to_owned(), actual_format }
    }
}

/// An inline ascii array's text could not be read back as numbers.
#[derive(Debug, PartialEq)]
pub struct InlineAsciiArray {
    pub array_name: String,
}

impl InlineAsciiArray {
    pub fn new(array_name: &str) -> Self {
        InlineAsciiArray { array_name: array_name.to_owned() }
    }
}

/// Faults specific to the raw appended section.
#[derive(Debug, PartialEq)]
pub enum ParsingBinary {
    /// The leading marker and filler bytes could not be stripped.
    LeadingBytes,
    /// Fewer bytes remained than a declared payload needs, or the
    /// declared offsets contradict the declared element counts.
    BinaryToFloat,
}

/// Errors while locating the `VTKFile` element.
#[derive(Debug, PartialEq)]
pub enum Header {
    MalformedXml(MalformedXml),
    MalformedAttribute(MalformedAttribute),
    UnexpectedElement(UnexpectedElement),
    UnexpectedAttributeValue(UnexpectedAttributeValue),
}

/// Errors while reading the `RectilinearGrid` element and its
/// `WholeExtent` attribute.
#[derive(Debug, PartialEq)]
pub enum RectilinearHeader {
    MalformedXml(MalformedXml),
    MalformedAttribute(MalformedAttribute),
    MissingAttribute(MissingAttribute),
    UnexpectedElement(UnexpectedElement),
}

/// Errors while reading the `Piece` and `Coordinates` elements.
#[derive(Debug, PartialEq)]
pub enum CoordinatesHeader {
    MalformedXml(MalformedXml),
    MalformedAttribute(MalformedAttribute),
    MissingAttribute(MissingAttribute),
    UnexpectedElement(UnexpectedElement),
}

/// Errors while reading `DataArray` elements, in the coordinate or the
/// point-data region.
#[derive(Debug, PartialEq)]
pub enum Mesh {
    MalformedXml(MalformedXml),
    MalformedAttribute(MalformedAttribute),
    MissingAttribute(MissingAttribute),
    UnexpectedElement(UnexpectedElement),
    UnexpectedPrecision(UnexpectedPrecision),
    DataArrayName(DataArrayName),
    DataArrayFormat(DataArrayFormat),
    InlineAsciiArray(InlineAsciiArray),
}

/// Errors while closing `Coordinates` and opening `PointData`.
#[derive(Debug, PartialEq)]
pub enum PreparePointData {
    MalformedXml(MalformedXml),
    UnexpectedElement(UnexpectedElement),
}

/// Errors while closing the document elements before `AppendedData`.
#[derive(Debug, PartialEq)]
pub enum CloseElements {
    MalformedXml(MalformedXml),
    UnexpectedElement(UnexpectedElement),
}

/// Errors while reading the `AppendedData` section.
#[derive(Debug, PartialEq)]
pub enum AppendedData {
    MalformedXml(MalformedXml),
    MissingAttribute(MissingAttribute),
    UnexpectedElement(UnexpectedElement),
    UnexpectedAttributeValue(UnexpectedAttributeValue),
    ParsingBinary(ParsingBinary),
}

/// The unified reader error: one stage-local error, tagged with its
/// stage.
#[derive(Debug, PartialEq)]
pub enum ParseError {
    Header(Header),
    RectilinearHeader(RectilinearHeader),
    CoordinatesHeader(CoordinatesHeader),
    Mesh(Mesh),
    PreparePointData(PreparePointData),
    CloseElements(CloseElements),
    AppendedData(AppendedData),
}

} // verus!
