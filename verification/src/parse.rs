//! The reader side: the staged XML header state machine, the lazy
//! per-array parse results, and the appended-binary offset resolver.

mod error;
mod event_summary;

pub use error::AppendedData;
pub use error::CloseElements;
pub use error::CoordinatesHeader;
pub use error::DataArrayFormat;
pub use error::DataArrayName;
pub use error::Header;
pub use error::InlineAsciiArray;
pub use error::MalformedAttribute;
pub use error::MalformedXml;
pub use error::Mesh;
pub use error::MissingAttribute;
pub use error::ParseError;
pub use error::ParsedNameOrBytes;
pub use error::ParsingBinary;
pub use error::PreparePointData;
pub use error::RectilinearHeader;
pub use error::UnexpectedAttributeValue;
pub use error::UnexpectedElement;
pub use error::UnexpectedPrecision;
pub use event_summary::EventSummary;

use vstd::prelude::*;
use vstd::string::StringSliceAdditionalSpecFns;
use crate::codec;
use crate::decimal::{dec_val, is_dec_token, spec_parse_offset};
use crate::precision::Precision;
use crate::traits::Numeric;
use crate::xml::{self, find_attr, scan_event, ElemTag, Event, SpecEvent, SpecScan};

verus! {

/// A registered, not-yet-filled destination for one appended-binary
/// array: its declared byte offset, its shape, and the buffer the
/// resolver fills.
#[derive(Debug)]
pub struct OffsetBuffer {
    /// The byte offset declared in the array's header.
    pub offset: i64,
    /// The per-point component count declared in the header.
    pub components: usize,
    /// The number of points this array covers.
    pub num_elements: usize,
    /// The destination: empty until the resolver fills it.
    pub buffer: Vec<u64>,
}

impl OffsetBuffer {
    /// A placeholder the resolver has filled: one element per component
    /// per point.
    pub open spec fn resolved(&self) -> bool {
        self.buffer@.len() == self.components * self.num_elements
    }
}

/// The owned slots every appended-binary placeholder lives in; visitors
/// hold indices into it, and the resolver fills every slot.
#[derive(Debug)]
pub struct PendingArena {
    pub entries: Vec<OffsetBuffer>,
}

impl PendingArena {
    /// An arena with no placeholders yet.
    pub fn new() -> (r: PendingArena)
        ensures
            r.entries@.len() == 0,
    {
        PendingArena { entries: Vec::new() }
    }

    /// The number of registered placeholders.
    pub fn len(&self) -> (n: usize)
        ensures
            n == self.entries@.len(),
    {
        self.entries.len()
    }

    /// Register a placeholder, returning its stable index.
    pub fn register(&mut self, offset: i64, components: usize, num_elements: usize) -> (idx: usize)
        ensures
            idx == old(self).entries@.len(),
            final(self).entries@.len() == old(self).entries@.len() + 1,
            forall|i: int|
                0 <= i < old(self).entries@.len() ==> final(self).entries@[i] == old(
                    self,
                ).entries@[i],
            final(self).entries@.last().offset == offset,
            final(self).entries@.last().components == components,
            final(self).entries@.last().num_elements == num_elements,
            final(self).entries@.last().buffer@.len() == 0,
    {
        let idx = self.entries.len();
        self.entries.push(OffsetBuffer { offset, components, num_elements, buffer: Vec::new() });
        idx
    }

    /// A copy of the buffer a placeholder resolved into.
    pub fn buffer_copy(&self, idx: usize) -> (r: Vec<u64>)
        requires
            idx < self.entries@.len(),
        ensures
            r@ == self.entries@[idx as int].buffer@,
    {
        let src = &self.entries[idx].buffer;
        let mut out: Vec<u64> = Vec::new();
        let n = src.len();
        let mut i: usize = 0;
        while i < n
            invariant
                0 <= i <= n,
                n == src@.len(),
                out@ == src@.subrange(0, i as int),
            decreases n - i,
        {
            out.push(src[i]);
            proof {
                assert(out@ =~= src@.subrange(0, i + 1));
            }
            i = i + 1;
        }
        proof {
            assert(out@ =~= src@);
        }
        out
    }

    /// Hand a placeholder the elements the resolver read for it.
    pub fn fill(&mut self, idx: usize, elems: Vec<u64>)
        requires
            idx < old(self).entries@.len(),
        ensures
            final(self).entries@.len() == old(self).entries@.len(),
            forall|i: int|
                0 <= i < old(self).entries@.len() && i != idx ==> final(self).entries@[i] == old(
                    self,
                ).entries@[i],
            final(self).entries@[idx as int].offset == old(self).entries@[idx as int].offset,
            final(self).entries@[idx as int].components == old(self).entries@[idx as int].components,
            final(self).entries@[idx as int].num_elements == old(self).entries@[idx
                as int].num_elements,
            final(self).entries@[idx as int].buffer == elems,
    {
        let entry = &mut self.entries[idx];
        entry.buffer = elems;
    }

    /// The component count a placeholder was registered with.
    pub fn components_of(&self, idx: usize) -> (c: usize)
        requires
            idx < self.entries@.len(),
        ensures
            c == self.entries@[idx as int].components,
    {
        self.entries[idx].components
    }
}


/// What reading one element yields before it is mapped to a stage error.
enum ElemErr {
    Malformed(MalformedXml),
    Unexpected(UnexpectedElement),
}

/// Read one event and require it to be an opening tag with the given
/// name.
fn read_start_named(input: &[u8], pos: usize, expected: &str) -> (r: Result<
    (ElemTag, usize),
    ElemErr,
>)
    requires
        pos <= input@.len(),
    ensures
        match r {
            Ok((tag, p2)) => scan_event(input@, pos as int) == SpecScan::Found(
                SpecEvent::Start { name: tag.spec_name(), attrs: tag.spec_attrs() },
                p2 as int,
            ) && tag.spec_name() == expected.spec_bytes() && pos <= p2 <= input@.len(),
            Err(ElemErr::Malformed(_)) => scan_event(input@, pos as int) is Bad,
            Err(ElemErr::Unexpected(_)) => scan_event(input@, pos as int) matches SpecScan::Found(
                ev,
                _,
            ) && !(ev matches SpecEvent::Start { name, .. } && name == expected.spec_bytes()),
        },
{
    proof {
        xml::lemma_scan_advances(input@, pos as int);
    }
    match xml::read_event(input, pos) {
        None => Err(ElemErr::Malformed(MalformedXml::new(pos))),
        Some((Event::Start(tag), p2)) => {
            if crate::bytebuf::bytes_eq_str(tag.name.as_slice(), expected) {
                Ok((tag, p2))
            } else {
                let summary = EventSummary::start(tag.name.as_slice());
                Err(ElemErr::Unexpected(UnexpectedElement::new(expected, summary)))
            }
        },
        Some((ev, _)) => {
            let summary = EventSummary::new(&ev);
            Err(ElemErr::Unexpected(UnexpectedElement::new(expected, summary)))
        },
    }
}

/// Read one event and require it to be an opening or self-closing tag
/// with the given name; reports whether it was self-closing.
fn read_empty_or_start_named(input: &[u8], pos: usize, expected: &str) -> (r: Result<
    (bool, ElemTag, usize),
    ElemErr,
>)
    requires
        pos <= input@.len(),
    ensures
        match r {
            Ok((was_empty, tag, p2)) => scan_event(input@, pos as int) == SpecScan::Found(
                if was_empty {
                    SpecEvent::Empty { name: tag.spec_name(), attrs: tag.spec_attrs() }
                } else {
                    SpecEvent::Start { name: tag.spec_name(), attrs: tag.spec_attrs() }
                },
                p2 as int,
            ) && tag.spec_name() == expected.spec_bytes() && pos <= p2 <= input@.len(),
            Err(ElemErr::Malformed(_)) => scan_event(input@, pos as int) is Bad,
            Err(ElemErr::Unexpected(_)) => scan_event(input@, pos as int) matches SpecScan::Found(
                ev,
                _,
            ) && !((ev matches SpecEvent::Start { name, .. } && name == expected.spec_bytes()) || (
            ev matches SpecEvent::Empty { name, .. } && name == expected.spec_bytes())),
        },
{
    proof {
        xml::lemma_scan_advances(input@, pos as int);
    }
    match xml::read_event(input, pos) {
        None => Err(ElemErr::Malformed(MalformedXml::new(pos))),
        Some((Event::Start(tag), p2)) => {
            if crate::bytebuf::bytes_eq_str(tag.name.as_slice(), expected) {
                Ok((false, tag, p2))
            } else {
                let summary = EventSummary::start(tag.name.as_slice());
                Err(ElemErr::Unexpected(UnexpectedElement::new(expected, summary)))
            }
        },
        Some((Event::Empty(tag), p2)) => {
            if crate::bytebuf::bytes_eq_str(tag.name.as_slice(), expected) {
                Ok((true, tag, p2))
            } else {
                let summary = EventSummary::start(tag.name.as_slice());
                Err(ElemErr::Unexpected(UnexpectedElement::new(expected, summary)))
            }
        },
        Some((ev, _)) => {
            let summary = EventSummary::new(&ev);
            Err(ElemErr::Unexpected(UnexpectedElement::new(expected, summary)))
        },
    }
}

/// Read one event and require it to be a closing tag with the given name.
fn read_end_named(input: &[u8], pos: usize, expected: &str) -> (r: Result<usize, ElemErr>)
    requires
        pos <= input@.len(),
    ensures
        match r {
            Ok(p2) => scan_event(input@, pos as int) == SpecScan::Found(
                SpecEvent::End { name: expected.spec_bytes() },
                p2 as int,
            ) && pos <= p2 <= input@.len(),
            Err(ElemErr::Malformed(_)) => scan_event(input@, pos as int) is Bad,
            Err(ElemErr::Unexpected(_)) => scan_event(input@, pos as int) matches SpecScan::Found(
                ev,
                _,
            ) && !(ev matches SpecEvent::End { name } && name == expected.spec_bytes()),
        },
{
    proof {
        xml::lemma_scan_advances(input@, pos as int);
    }
    match xml::read_event(input, pos) {
        None => Err(ElemErr::Malformed(MalformedXml::new(pos))),
        Some((Event::End(name), p2)) => {
            if crate::bytebuf::bytes_eq_str(name.as_slice(), expected) {
                Ok(p2)
            } else {
                let summary = EventSummary::end(name.as_slice());
                Err(ElemErr::Unexpected(UnexpectedElement::new(expected, summary)))
            }
        },
        Some((ev, _)) => {
            let summary = EventSummary::new(&ev);
            Err(ElemErr::Unexpected(UnexpectedElement::new(expected, summary)))
        },
    }
}

/// Read one event and require it to be a text run: an element body.
fn read_body_text(input: &[u8], pos: usize) -> (r: Result<(Vec<u8>, usize), ElemErr>)
    requires
        pos <= input@.len(),
    ensures
        match r {
            Ok((body, p2)) => scan_event(input@, pos as int) == SpecScan::Found(
                SpecEvent::Text { body: body@ },
                p2 as int,
            ) && pos <= p2 <= input@.len(),
            Err(ElemErr::Malformed(_)) => scan_event(input@, pos as int) is Bad,
            Err(ElemErr::Unexpected(_)) => scan_event(input@, pos as int) matches SpecScan::Found(
                ev,
                _,
            ) && !(ev is Text),
        },
{
    proof {
        xml::lemma_scan_advances(input@, pos as int);
    }
    match xml::read_event(input, pos) {
        None => Err(ElemErr::Malformed(MalformedXml::new(pos))),
        Some((Event::Text(body), p2)) => Ok((body, p2)),
        Some((ev, _)) => {
            let summary = EventSummary::new(&ev);
            Err(ElemErr::Unexpected(UnexpectedElement::new("body element", summary)))
        },
    }
}

/// Ensure an attribute holds the one value the format fixes for it.
fn check_attribute_value(
    value: &[u8],
    element_name: &str,
    attribute_name: &str,
    expected_value: &str,
) -> (r: Result<(), UnexpectedAttributeValue>)
    ensures
        r is Ok <==> value@ == expected_value.spec_bytes(),
{
    if crate::bytebuf::bytes_eq_str(value, expected_value) {
        Ok(())
    } else {
        Err(
            UnexpectedAttributeValue::new(
                element_name,
                attribute_name,
                expected_value,
                ParsedNameOrBytes::new(value),
            ),
        )
    }
}

/// Describes what kind of information a `DataArray` header declares.
#[derive(Debug, Clone, Copy, Eq, PartialEq, Structural)]
pub enum DataArrayHeader {
    /// Ascii text lives directly within the element.
    InlineAscii { components: usize },
    /// Base64 text lives directly within the element.
    InlineBase64 { components: usize },
    /// The payload lives at the given byte offset of the appended
    /// section.
    AppendedBinary { offset: i64, components: usize },
}

/// How reading a `DataArray` header at a position must turn out; the
/// specification twin of [`read_dataarray_header`].
pub enum DaHeaderOutcome {
    Found(int, bool, DataArrayHeader),
    BadXml,
    BadElem,
    NoAttr,
    BadPrecision,
    BadComponents,
    WrongName,
    BadFormat,
    BadOffset,
}

/// What a `DataArray` header at `pos` declares: the position after it,
/// whether the element was self-closing, and the declared encoding,
/// component count, and offset — or which structural fault stops it.
pub open spec fn spec_read_da_header(
    s: Seq<u8>,
    pos: int,
    name: Seq<u8>,
    p: Precision,
) -> DaHeaderOutcome {
    match scan_event(s, pos) {
        SpecScan::Bad => DaHeaderOutcome::BadXml,
        SpecScan::Found(ev, q) => {
            let (ok, empty, tname, attrs) = match ev {
                SpecEvent::Start { name: n, attrs: a } => (true, false, n, a),
                SpecEvent::Empty { name: n, attrs: a } => (true, true, n, a),
                _ => (false, false, Seq::empty(), Seq::empty()),
            };
            if !ok || tname != "DataArray".spec_bytes() {
                DaHeaderOutcome::BadElem
            } else {
                match find_attr(attrs, "type".spec_bytes()) {
                    None => DaHeaderOutcome::NoAttr,
                    Some(tv) => if tv != p.spec_wire_name() {
                        DaHeaderOutcome::BadPrecision
                    } else {
                        match find_attr(attrs, "NumberOfComponents".spec_bytes()) {
                            None => DaHeaderOutcome::NoAttr,
                            Some(cv) => if !(is_dec_token(cv) && dec_val(cv) <= usize::MAX) {
                                DaHeaderOutcome::BadComponents
                            } else {
                                match find_attr(attrs, "Name".spec_bytes()) {
                                    None => DaHeaderOutcome::NoAttr,
                                    Some(nv) => if nv != name {
                                        DaHeaderOutcome::WrongName
                                    } else {
                                        match find_attr(attrs, "format".spec_bytes()) {
                                            None => DaHeaderOutcome::NoAttr,
                                            Some(fv) => if fv == "appended".spec_bytes() {
                                                match find_attr(attrs, "offset".spec_bytes()) {
                                                    None => DaHeaderOutcome::NoAttr,
                                                    Some(ov) => match spec_parse_offset(ov) {
                                                        None => DaHeaderOutcome::BadOffset,
                                                        Some(o) => DaHeaderOutcome::Found(
                                                            q,
                                                            empty,
                                                            DataArrayHeader::AppendedBinary {
                                                                offset: o as i64,
                                                                components: dec_val(cv) as usize,
                                                            },
                                                        ),
                                                    },
                                                }
                                            } else if fv == "binary".spec_bytes() {
                                                DaHeaderOutcome::Found(
                                                    q,
                                                    empty,
                                                    DataArrayHeader::InlineBase64 {
                                                        components: dec_val(cv) as usize,
                                                    },
                                                )
                                            } else if fv == "ascii".spec_bytes() {
                                                DaHeaderOutcome::Found(
                                                    q,
                                                    empty,
                                                    DataArrayHeader::InlineAscii {
                                                        components: dec_val(cv) as usize,
                                                    },
                                                )
                                            } else {
                                                DaHeaderOutcome::BadFormat
                                            },
                                        }
                                    },
                                }
                            },
                        }
                    },
                }
            }
        },
    }
}

/// Read one `DataArray` header: its element, the attributes the format
/// fixes, and the declared encoding. The result is exactly what
/// [`spec_read_da_header`] says of the input.
pub fn read_dataarray_header(
    input: &[u8],
    pos: usize,
    expected_name: &str,
    expected_precision: Precision,
) -> (r: Result<(usize, bool, DataArrayHeader), Mesh>)
    requires
        pos <= input@.len(),
    ensures
        match r {
            Ok((p2, was_empty, h)) => spec_read_da_header(
                input@,
                pos as int,
                expected_name.spec_bytes(),
                expected_precision,
            ) == DaHeaderOutcome::Found(p2 as int, was_empty, h) && pos <= p2 <= input@.len(),
            Err(e) => {
                let oc = spec_read_da_header(
                    input@,
                    pos as int,
                    expected_name.spec_bytes(),
                    expected_precision,
                );
                match e {
                    Mesh::MalformedXml(_) => oc is BadXml,
                    Mesh::UnexpectedElement(_) => oc is BadElem,
                    Mesh::MissingAttribute(_) => oc is NoAttr,
                    Mesh::UnexpectedPrecision(_) => oc is BadPrecision,
                    Mesh::MalformedAttribute(_) => oc is BadComponents || oc is BadOffset,
                    Mesh::DataArrayName(_) => oc is WrongName,
                    Mesh::DataArrayFormat(_) => oc is BadFormat,
                    _ => false,
                }
            },
        },
{
    let (was_empty, tag, p2) = match read_empty_or_start_named(input, pos, "DataArray") {
        Ok(v) => v,
        Err(ElemErr::Malformed(e)) => {
            return Err(Mesh::MalformedXml(e));
        },
        Err(ElemErr::Unexpected(e)) => {
            return Err(Mesh::UnexpectedElement(e));
        },
    };
    let type_value = match tag.get_attribute_value("type") {
        Some(v) => v,
        None => {
            return Err(Mesh::MissingAttribute(MissingAttribute::new("DataArray", "type")));
        },
    };
    if !crate::bytebuf::bytes_eq(type_value.as_slice(), expected_precision.to_str().as_bytes()) {
        return Err(
            Mesh::UnexpectedPrecision(
                UnexpectedPrecision::new(
                    expected_name,
                    expected_precision,
                    ParsedNameOrBytes::new(type_value.as_slice()),
                ),
            ),
        );
    }
    let comps_value = match tag.get_attribute_value("NumberOfComponents") {
        Some(v) => v,
        None => {
            return Err(
                Mesh::MissingAttribute(MissingAttribute::new("DataArray", "NumberOfComponents")),
            );
        },
    };
    let components = match crate::decimal::parse_usize_token(comps_value.as_slice()) {
        Some(v) => v,
        None => {
            return Err(
                Mesh::MalformedAttribute(MalformedAttribute::new("DataArray", "NumberOfComponents")),
            );
        },
    };
    let name_value = match tag.get_attribute_value("Name") {
        Some(v) => v,
        None => {
            return Err(Mesh::MissingAttribute(MissingAttribute::new("DataArray", "Name")));
        },
    };
    if !crate::bytebuf::bytes_eq_str(name_value.as_slice(), expected_name) {
        return Err(
            Mesh::DataArrayName(
                DataArrayName::new(ParsedNameOrBytes::new(name_value.as_slice()), expected_name),
            ),
        );
    }
    let format_value = match tag.get_attribute_value("format") {
        Some(v) => v,
        None => {
            return Err(Mesh::MissingAttribute(MissingAttribute::new("DataArray", "format")));
        },
    };
    if crate::bytebuf::bytes_eq_str(format_value.as_slice(), "appended") {
        let offset_value = match tag.get_attribute_value("offset") {
            Some(v) => v,
            None => {
                return Err(Mesh::MissingAttribute(MissingAttribute::new("DataArray", "offset")));
            },
        };
        let offset = match crate::decimal::parse_offset_token(offset_value.as_slice()) {
            Some(v) => v,
            None => {
                return Err(Mesh::MalformedAttribute(MalformedAttribute::new("DataArray", "offset")));
            },
        };
        Ok((p2, was_empty, DataArrayHeader::AppendedBinary { offset, components }))
    } else if crate::bytebuf::bytes_eq_str(format_value.as_slice(), "binary") {
        Ok((p2, was_empty, DataArrayHeader::InlineBase64 { components }))
    } else if crate::bytebuf::bytes_eq_str(format_value.as_slice(), "ascii") {
        Ok((p2, was_empty, DataArrayHeader::InlineAscii { components }))
    } else {
        Err(
            Mesh::DataArrayFormat(
                DataArrayFormat::new(expected_name, ParsedNameOrBytes::new(format_value.as_slice())),
            ),
        )
    }
}


/// The value a decimal text stands for, zero where it does not parse;
/// meaningful only alongside [`spec_ascii_elems`].
pub open spec fn tok_val<NUM: Numeric>(t: Seq<u8>) -> u64 {
    match NUM::spec_from_token(t) {
        Some(v) => v,
        None => 0,
    }
}

/// The element run an inline ASCII body holds: its whitespace-separated
/// tokens, each parsed as one element; nothing when any token does not
/// parse.
pub open spec fn spec_ascii_elems<NUM: Numeric>(body: Seq<u8>) -> Option<Seq<u64>> {
    let ts = codec::split_tokens(body);
    if forall|i: int| 0 <= i < ts.len() ==> NUM::spec_from_token(#[trigger] ts[i]) is Some {
        Some(Seq::new(ts.len(), |i: int| tok_val::<NUM>(ts[i])))
    } else {
        None
    }
}

/// Reading back a written ASCII payload recovers the written elements,
/// for any element text conversion that inverts itself: when every
/// element renders to a writable token that parses back to it — which
/// shortest round-trip decimal text does for every non-NaN pattern — the
/// tokenized payload parses to the original run.
pub proof fn lemma_ascii_payload_roundtrip<NUM: Numeric>(elems: Seq<u64>)
    requires
        forall|i: int|
            0 <= i < elems.len() ==> codec::is_token(NUM::spec_token(#[trigger] elems[i])),
        forall|i: int|
            0 <= i < elems.len() ==> NUM::spec_from_token(NUM::spec_token(#[trigger] elems[i]))
                == Some(elems[i]),
    ensures
        spec_ascii_elems::<NUM>(
            codec::join_tokens(elems.map_values(|b: u64| NUM::spec_token(b))),
        ) == Some(elems),
{
    let ts = elems.map_values(|b: u64| NUM::spec_token(b));
    assert(codec::all_tokens(ts)) by {
        assert forall|i: int| 0 <= i < ts.len() implies codec::is_token(#[trigger] ts[i]) by {
            assert(ts[i] == NUM::spec_token(elems[i]));
        }
    }
    codec::lemma_join_split_roundtrip(ts);
    let body = codec::join_tokens(ts);
    assert(codec::split_tokens(body) == ts);
    assert forall|i: int| 0 <= i < ts.len() implies NUM::spec_from_token(#[trigger] ts[i])
        is Some by {
        assert(ts[i] == NUM::spec_token(elems[i]));
    }
    assert(Seq::new(ts.len(), |i: int| tok_val::<NUM>(ts[i])) =~= elems);
}

/// Parse the text body of an inline ascii data array into elements.
fn parse_ascii_inner_dataarray<NUM: Numeric>(input: &[u8], pos: usize, array_name: &str) -> (r:
    Result<(usize, Vec<u64>), Mesh>)
    requires
        pos <= input@.len(),
    ensures
        match r {
            Ok((p2, elems)) => scan_event(input@, pos as int) matches SpecScan::Found(ev, q) && q
                == p2 && pos <= p2 <= input@.len() && (ev matches SpecEvent::Text { body }
                && spec_ascii_elems::<NUM>(body) == Some(elems@)) && (forall|i: int|
                0 <= i < elems@.len() ==> NUM::spec_precision().spec_valid_bits(
                    #[trigger] elems@[i],
                )),
            Err(_) => match scan_event(input@, pos as int) {
                SpecScan::Found(SpecEvent::Text { body }, _) => spec_ascii_elems::<NUM>(body)
                    is None,
                _ => true,
            },
        },
{
    let (body, p2) = match read_body_text(input, pos) {
        Ok(v) => v,
        Err(ElemErr::Malformed(e)) => {
            return Err(Mesh::MalformedXml(e));
        },
        Err(ElemErr::Unexpected(e)) => {
            return Err(Mesh::UnexpectedElement(e));
        },
    };
    let tokens = codec::tokenize(body.as_slice());
    let n = tokens.len();
    let mut elems: Vec<u64> = Vec::new();
    let ghost ts = codec::split_tokens(body@);
    let mut i: usize = 0;
    while i < n
        invariant
            0 <= i <= n,
            n == tokens@.len(),
            tokens.deep_view() =~~= ts,
            ts == codec::split_tokens(body@),
            scan_event(input@, pos as int) == SpecScan::Found(
                SpecEvent::Text { body: body@ },
                p2 as int,
            ),
            pos <= p2 <= input@.len(),
            elems@.len() == i,
            forall|j: int|
                0 <= j < i ==> NUM::spec_from_token(#[trigger] ts[j]) is Some && elems@[j]
                    == tok_val::<NUM>(ts[j]) && NUM::spec_precision().spec_valid_bits(elems@[j]),
        decreases n - i,
    {
        proof {
            assert(tokens.deep_view()[i as int] == tokens@[i as int]@);
        }
        match NUM::from_token(tokens[i].as_slice()) {
            Some(v) => {
                elems.push(v);
            },
            None => {
                proof {
                    assert(NUM::spec_from_token(ts[i as int]) is None);
                    assert(!(forall|j: int|
                        0 <= j < ts.len() ==> NUM::spec_from_token(#[trigger] ts[j]) is Some));
                    assert(spec_ascii_elems::<NUM>(body@) is None);
                }
                return Err(Mesh::InlineAsciiArray(InlineAsciiArray::new(array_name)));
            },
        }
        i = i + 1;
    }
    proof {
        assert(spec_ascii_elems::<NUM>(body@) == Some(elems@)) by {
            assert(forall|j: int|
                0 <= j < ts.len() ==> NUM::spec_from_token(#[trigger] ts[j]) is Some);
            assert(elems@ =~= Seq::new(ts.len(), |j: int| tok_val::<NUM>(ts[j])));
        }
    }
    Ok((p2, elems))
}

/// Parse the text body of an inline base64 data array into elements.
fn parse_base64_inner_dataarray(
    input: &[u8],
    pos: usize,
    prec: Precision,
    array_name: &str,
) -> (r: Result<(usize, Vec<u64>), Mesh>)
    requires
        pos <= input@.len(),
    ensures
        match r {
            Ok((p2, elems)) => scan_event(input@, pos as int) matches SpecScan::Found(ev, q) && q
                == p2 && pos <= p2 <= input@.len() && (ev matches SpecEvent::Text { body }
                && codec::spec_base64_elems(prec, body) == Some(elems@)) && (forall|i: int|
                0 <= i < elems@.len() ==> prec.spec_valid_bits(#[trigger] elems@[i])),
            Err(_) => match scan_event(input@, pos as int) {
                SpecScan::Found(SpecEvent::Text { body }, _) => codec::spec_base64_elems(
                    prec,
                    body,
                ) is None,
                _ => true,
            },
        },
{
    let (body, p2) = match read_body_text(input, pos) {
        Ok(v) => v,
        Err(ElemErr::Malformed(e)) => {
            return Err(Mesh::MalformedXml(e));
        },
        Err(ElemErr::Unexpected(e)) => {
            return Err(Mesh::UnexpectedElement(e));
        },
    };
    match codec::parse_base64_payload(prec, body.as_slice()) {
        Some(elems) => Ok((p2, elems)),
        None => Err(Mesh::InlineAsciiArray(InlineAsciiArray::new(array_name))),
    }
}

/// A parse result for one array: already materialized for inline
/// encodings, or the declared offset of its appended payload.
#[derive(Debug)]
pub enum PartialDataArray {
    Parsed { buffer: Vec<u64>, components: usize },
    AppendedBinary { offset: i64, components: usize },
}

impl PartialDataArray {
    /// The materialized buffer of an inline parse result.
    pub fn unwrap_parsed(self) -> (r: Vec<u64>)
        requires
            self is Parsed,
        ensures
            self matches PartialDataArray::Parsed { buffer, .. } && r == buffer,
    {
        match self {
            PartialDataArray::Parsed { buffer, .. } => buffer,
            PartialDataArray::AppendedBinary { .. } => unreached(),
        }
    }

    /// The declared offset of an appended parse result.
    pub fn unwrap_appended(self) -> (r: i64)
        requires
            self is AppendedBinary,
        ensures
            self matches PartialDataArray::AppendedBinary { offset, .. } && r == offset,
    {
        match self {
            PartialDataArray::AppendedBinary { offset, .. } => offset,
            PartialDataArray::Parsed { .. } => unreached(),
        }
    }

    /// The component count the header declared.
    pub fn components(&self) -> (c: usize)
        ensures
            c == match self {
                PartialDataArray::Parsed { components, .. } => *components,
                PartialDataArray::AppendedBinary { components, .. } => *components,
            },
    {
        match self {
            PartialDataArray::Parsed { components, .. } => *components,
            PartialDataArray::AppendedBinary { components, .. } => *components,
        }
    }
}

/// Like [`PartialDataArray`], but with an arena slot registered for the
/// appended payload instead of a bare offset.
#[derive(Debug)]
pub enum PartialDataArrayBuffered {
    Parsed { buffer: Vec<u64>, components: usize },
    AppendedBinary { index: usize },
}

impl PartialDataArrayBuffered {
    /// Take over a parse result, registering an arena placeholder where
    /// its payload is still outstanding.
    pub fn new(partial: PartialDataArray, num_elements: usize, arena: &mut PendingArena) -> (r:
        Self)
        ensures
            match partial {
                PartialDataArray::Parsed { buffer, components } => {
                    &&& r == (PartialDataArrayBuffered::Parsed { buffer, components })
                    &&& final(arena).entries@ == old(arena).entries@
                },
                PartialDataArray::AppendedBinary { offset, components } => {
                    &&& (r matches PartialDataArrayBuffered::AppendedBinary { index } && index
                        == old(arena).entries@.len())
                    &&& final(arena).entries@.len() == old(arena).entries@.len() + 1
                    &&& forall|i: int|
                        0 <= i < old(arena).entries@.len() ==> final(arena).entries@[i] == old(
                            arena,
                        ).entries@[i]
                    &&& final(arena).entries@.last().offset == offset
                    &&& final(arena).entries@.last().components == components
                    &&& final(arena).entries@.last().num_elements == num_elements
                    &&& final(arena).entries@.last().buffer@.len() == 0
                },
            },
    {
        match partial {
            PartialDataArray::Parsed { buffer, components } => PartialDataArrayBuffered::Parsed {
                buffer,
                components,
            },
            PartialDataArray::AppendedBinary { offset, components } => {
                let index = arena.register(offset, components, num_elements);
                PartialDataArrayBuffered::AppendedBinary { index }
            },
        }
    }

    /// Whether this parse result points into the arena, and where.
    pub fn arena_index(&self) -> (r: Option<usize>)
        ensures
            match self {
                PartialDataArrayBuffered::Parsed { .. } => r is None,
                PartialDataArrayBuffered::AppendedBinary { index } => r == Some(*index),
            },
    {
        match self {
            PartialDataArrayBuffered::Parsed { .. } => None,
            PartialDataArrayBuffered::AppendedBinary { index } => Some(*index),
        }
    }

    /// The component count associated with this array.
    pub fn components(&self, arena: &PendingArena) -> (c: usize)
        requires
            self matches PartialDataArrayBuffered::AppendedBinary { index } ==> index
                < arena.entries@.len(),
        ensures
            c == match self {
                PartialDataArrayBuffered::Parsed { components, .. } => *components,
                PartialDataArrayBuffered::AppendedBinary { index } => arena.entries@[*index
                    as int].components,
            },
    {
        match self {
            PartialDataArrayBuffered::Parsed { components, .. } => *components,
            PartialDataArrayBuffered::AppendedBinary { index } => arena.components_of(*index),
        }
    }

    /// Pull the element buffer out like [`Self::into_buffer`], checking
    /// the arena bounds at run time; `None` when the slot was never
    /// registered there.
    pub fn try_into_buffer(self, arena: &PendingArena) -> (r: Option<Vec<u64>>)
        ensures
            match r {
                Some(v) => match self {
                    PartialDataArrayBuffered::Parsed { buffer, .. } => v@ == buffer@,
                    PartialDataArrayBuffered::AppendedBinary { index } => index
                        < arena.entries@.len() && v@ == arena.entries@[index as int].buffer@,
                },
                None => self matches PartialDataArrayBuffered::AppendedBinary { index } && index
                    >= arena.entries@.len(),
            },
    {
        match self {
            PartialDataArrayBuffered::Parsed { buffer, .. } => Some(buffer),
            PartialDataArrayBuffered::AppendedBinary { index } => {
                if index < arena.len() {
                    Some(arena.buffer_copy(index))
                } else {
                    None
                }
            },
        }
    }

    /// Pull the element buffer out: the inline data, or a copy of the
    /// buffer the resolver filled.
    pub fn into_buffer(self, arena: &PendingArena) -> (r: Vec<u64>)
        requires
            self matches PartialDataArrayBuffered::AppendedBinary { index } ==> index
                < arena.entries@.len(),
        ensures
            r@ == match self {
                PartialDataArrayBuffered::Parsed { buffer, .. } => buffer@,
                PartialDataArrayBuffered::AppendedBinary { index } => arena.entries@[index
                    as int].buffer@,
            },
    {
        match self {
            PartialDataArrayBuffered::Parsed { buffer, .. } => buffer,
            PartialDataArrayBuffered::AppendedBinary { index } => arena.buffer_copy(index),
        }
    }
}

/// The full parse of one data array element at `pos`: the position after
/// it, the header it declared, and the inline elements it held (empty for
/// an appended header).
pub open spec fn spec_parse_da<NUM: Numeric>(s: Seq<u8>, pos: int, name: Seq<u8>) -> Option<
    (int, DataArrayHeader, Seq<u64>),
> {
    match spec_read_da_header(s, pos, name, NUM::spec_precision()) {
        DaHeaderOutcome::Found(q, empty, h) => {
            match h {
                DataArrayHeader::AppendedBinary { .. } => {
                    if empty {
                        Some((q, h, Seq::empty()))
                    } else {
                        match scan_event(s, q) {
                            SpecScan::Found(SpecEvent::End { name: en }, p2) => if en
                                == "DataArray".spec_bytes() {
                                Some((p2, h, Seq::empty()))
                            } else {
                                None
                            },
                            _ => None,
                        }
                    }
                },
                DataArrayHeader::InlineAscii { .. } => {
                    match scan_event(s, q) {
                        SpecScan::Found(SpecEvent::Text { body }, q2) => {
                            match spec_ascii_elems::<NUM>(body) {
                                Some(es) => if empty {
                                    Some((q2, h, es))
                                } else {
                                    match scan_event(s, q2) {
                                        SpecScan::Found(SpecEvent::End { name: en }, p2) => if en
                                            == "DataArray".spec_bytes() {
                                            Some((p2, h, es))
                                        } else {
                                            None
                                        },
                                        _ => None,
                                    }
                                },
                                None => None,
                            }
                        },
                        _ => None,
                    }
                },
                DataArrayHeader::InlineBase64 { .. } => {
                    match scan_event(s, q) {
                        SpecScan::Found(SpecEvent::Text { body }, q2) => {
                            match codec::spec_base64_elems(NUM::spec_precision(), body) {
                                Some(es) => if empty {
                                    Some((q2, h, es))
                                } else {
                                    match scan_event(s, q2) {
                                        SpecScan::Found(SpecEvent::End { name: en }, p2) => if en
                                            == "DataArray".spec_bytes() {
                                            Some((p2, h, es))
                                        } else {
                                            None
                                        },
                                        _ => None,
                                    }
                                },
                                None => None,
                            }
                        },
                        _ => None,
                    }
                },
            }
        },
        _ => None,
    }
}

/// Parse one data array: its header, then its inline payload, or only the
/// declared offset for an appended one. The result is exactly what
/// [`spec_parse_da`] says of the input.
pub fn parse_dataarray_or_lazy<NUM: Numeric>(
    input: &[u8],
    pos: usize,
    expected_name: &str,
    size_hint: usize,
) -> (r: Result<(usize, PartialDataArray), Mesh>)
    requires
        pos <= input@.len(),
    ensures
        match r {
            Ok((p2, pd)) => spec_parse_da::<NUM>(input@, pos as int, expected_name.spec_bytes())
                matches Some((pp, h, es)) && pp == p2 && pos <= p2 <= input@.len() && match pd {
                PartialDataArray::Parsed { buffer, components } => buffer@ == es && ((h
                    matches DataArrayHeader::InlineAscii { components: c } && c == components) || (
                h matches DataArrayHeader::InlineBase64 { components: c } && c == components)) && (
                forall|i: int|
                    0 <= i < buffer@.len() ==> NUM::spec_precision().spec_valid_bits(
                        #[trigger] buffer@[i],
                    )),
                PartialDataArray::AppendedBinary { offset, components } => h
                    == DataArrayHeader::AppendedBinary { offset, components },
            },
            Err(_) => spec_parse_da::<NUM>(input@, pos as int, expected_name.spec_bytes()) is None,
        },
{
    let prec = NUM::as_precision();
    let (q, was_empty, header) = match read_dataarray_header(input, pos, expected_name, prec) {
        Ok(v) => v,
        Err(e) => {
            return Err(e);
        },
    };
    let (after_payload, lazy) = match header {
        DataArrayHeader::AppendedBinary { offset, components } => (
            q,
            PartialDataArray::AppendedBinary { offset, components },
        ),
        DataArrayHeader::InlineAscii { components } => {
            let (q2, buffer) = match parse_ascii_inner_dataarray::<NUM>(input, q, expected_name) {
                Ok(v) => v,
                Err(e) => {
                    return Err(e);
                },
            };
            (q2, PartialDataArray::Parsed { buffer, components })
        },
        DataArrayHeader::InlineBase64 { components } => {
            let (q2, buffer) = match parse_base64_inner_dataarray(input, q, prec, expected_name) {
                Ok(v) => v,
                Err(e) => {
                    return Err(e);
                },
            };
            (q2, PartialDataArray::Parsed { buffer, components })
        },
    };
    if !was_empty {
        let p2 = match read_end_named(input, after_payload, "DataArray") {
            Ok(v) => v,
            Err(ElemErr::Malformed(e)) => {
                return Err(Mesh::MalformedXml(e));
            },
            Err(ElemErr::Unexpected(e)) => {
                return Err(Mesh::UnexpectedElement(e));
            },
        };
        Ok((p2, lazy))
    } else {
        Ok((after_payload, lazy))
    }
}


/// The position after the leading declaration events, where the document
/// proper begins.
pub open spec fn skip_decls(s: Seq<u8>, pos: int) -> int
    decreases s.len() - pos,
    when 0 <= pos <= s.len()
    via skip_decls_decreases
{
    match scan_event(s, pos) {
        SpecScan::Found(ev, q) => if ev is Decl {
            skip_decls(s, q)
        } else {
            pos
        },
        SpecScan::Bad => pos,
    }
}

#[via_fn]
proof fn skip_decls_decreases(s: Seq<u8>, pos: int) {
    xml::lemma_scan_advances(s, pos);
}

/// Read to and through the `VTKFile` element: leading declarations are
/// skipped; when `type` or `byte_order` attributes are present they must
/// name a little-endian rectilinear grid.
pub fn read_to_grid_header(input: &[u8], pos: usize) -> (r: Result<usize, Header>)
    requires
        pos <= input@.len(),
    ensures
        ({
            let p0 = skip_decls(input@, pos as int);
            match r {
                Ok(p2) => scan_event(input@, p0) matches SpecScan::Found(ev, q) && q == p2 && pos
                    <= p2 <= input@.len() && (ev matches SpecEvent::Start { name, attrs } && name
                    == "VTKFile".spec_bytes() && (match find_attr(attrs, "type".spec_bytes()) {
                    Some(v) => v == "RectilinearGrid".spec_bytes(),
                    None => true,
                }) && (match find_attr(attrs, "byte_order".spec_bytes()) {
                    Some(v) => v == "LittleEndian".spec_bytes(),
                    None => true,
                })),
                Err(Header::MalformedXml(_)) => scan_event(input@, p0) is Bad,
                Err(Header::UnexpectedElement(_)) => scan_event(input@, p0) matches SpecScan::Found(
                    ev,
                    _,
                ) && !(ev matches SpecEvent::Start { name, .. } && name == "VTKFile".spec_bytes()),
                Err(Header::UnexpectedAttributeValue(_)) => scan_event(input@, p0)
                    matches SpecScan::Found(ev, _) && (ev matches SpecEvent::Start { name, attrs }
                    && name == "VTKFile".spec_bytes() && ((find_attr(attrs, "type".spec_bytes())
                    matches Some(v) && v != "RectilinearGrid".spec_bytes()) || (find_attr(
                    attrs,
                    "byte_order".spec_bytes(),
                ) matches Some(w) && w != "LittleEndian".spec_bytes()))),
                Err(_) => false,
            }
        }),
{
    let mut cur = pos;
    loop
        invariant
            pos <= cur <= input@.len(),
            skip_decls(input@, pos as int) == skip_decls(input@, cur as int),
        decreases input@.len() - cur,
    {
        proof {
            xml::lemma_scan_advances(input@, cur as int);
        }
        match xml::read_event(input, cur) {
            None => {
                return Err(Header::MalformedXml(MalformedXml::new(cur)));
            },
            Some((Event::Decl, q)) => {
                cur = q;
            },
            Some((Event::Start(tag), q)) => {
                if !crate::bytebuf::bytes_eq_str(tag.name.as_slice(), "VTKFile") {
                    let summary = EventSummary::start(tag.name.as_slice());
                    return Err(Header::UnexpectedElement(UnexpectedElement::new("VTKFile", summary)));
                }
                match tag.get_attribute_value("type") {
                    Some(v) => {
                        match check_attribute_value(v.as_slice(), "VTKFile", "type", "RectilinearGrid") {
                            Ok(()) => (),
                            Err(e) => {
                                return Err(Header::UnexpectedAttributeValue(e));
                            },
                        }
                    },
                    None => (),
                }
                match tag.get_attribute_value("byte_order") {
                    Some(v) => {
                        match check_attribute_value(
                            v.as_slice(),
                            "VTKFile",
                            "byte_order",
                            "LittleEndian",
                        ) {
                            Ok(()) => (),
                            Err(e) => {
                                return Err(Header::UnexpectedAttributeValue(e));
                            },
                        }
                    },
                    None => (),
                }
                return Ok(q);
            },
            Some((ev, _)) => {
                let summary = EventSummary::new(&ev);
                return Err(Header::UnexpectedElement(UnexpectedElement::new("VTKFile", summary)));
            },
        }
    }
}

/// Read the `RectilinearGrid` element and parse its `WholeExtent`
/// attribute into the whole span. A document without that attribute is
/// rejected with a missing-attribute error, never a panic.
pub fn read_rectilinear_header<SPAN: crate::traits::ParseSpan>(input: &[u8], pos: usize) -> (r:
    Result<(usize, SPAN), RectilinearHeader>)
    requires
        pos <= input@.len(),
    ensures
        match r {
            Ok((p2, span)) => scan_event(input@, pos as int) matches SpecScan::Found(ev, q) && q
                == p2 && pos <= p2 <= input@.len() && (ev matches SpecEvent::Start { name, attrs }
                && name == "RectilinearGrid".spec_bytes() && (find_attr(
                attrs,
                "WholeExtent".spec_bytes(),
            ) matches Some(v) && SPAN::spec_from_span_str(v) == Some(span))),
            Err(RectilinearHeader::MalformedXml(_)) => scan_event(input@, pos as int) is Bad,
            Err(RectilinearHeader::UnexpectedElement(_)) => scan_event(input@, pos as int)
                matches SpecScan::Found(ev, _) && !(ev matches SpecEvent::Start { name, .. } && name
                == "RectilinearGrid".spec_bytes()),
            Err(RectilinearHeader::MissingAttribute(_)) => scan_event(input@, pos as int)
                matches SpecScan::Found(ev, _) && (ev matches SpecEvent::Start { name, attrs }
                && name == "RectilinearGrid".spec_bytes() && find_attr(
                attrs,
                "WholeExtent".spec_bytes(),
            ) is None),
            Err(RectilinearHeader::MalformedAttribute(_)) => scan_event(input@, pos as int)
                matches SpecScan::Found(ev, _) && (ev matches SpecEvent::Start { name, attrs }
                && name == "RectilinearGrid".spec_bytes() && (find_attr(
                attrs,
                "WholeExtent".spec_bytes(),
            ) matches Some(v) && SPAN::spec_from_span_str(v) is None)),
        },
{
    let (tag, p2) = match read_start_named(input, pos, "RectilinearGrid") {
        Ok(v) => v,
        Err(ElemErr::Malformed(e)) => {
            return Err(RectilinearHeader::MalformedXml(e));
        },
        Err(ElemErr::Unexpected(e)) => {
            return Err(RectilinearHeader::UnexpectedElement(e));
        },
    };
    let extent = match tag.get_attribute_value("WholeExtent") {
        Some(v) => v,
        None => {
            return Err(
                RectilinearHeader::MissingAttribute(
                    MissingAttribute::new("RectilinearGrid", "WholeExtent"),
                ),
            );
        },
    };
    match SPAN::from_str(extent.as_slice()) {
        Some(span) => Ok((p2, span)),
        None => Err(
            RectilinearHeader::MalformedAttribute(
                MalformedAttribute::new("RectilinearGrid", "WholeExtent"),
            ),
        ),
    }
}

/// Read the `Piece` element, parse its `Extent` attribute into the local
/// span, and read the opening `Coordinates` element.
pub fn read_to_coordinates<SPAN: crate::traits::ParseSpan>(input: &[u8], pos: usize) -> (r: Result<
    (usize, SPAN),
    CoordinatesHeader,
>)
    requires
        pos <= input@.len(),
    ensures
        match r {
            Ok((p2, span)) => scan_event(input@, pos as int) matches SpecScan::Found(ev, q) && pos
                <= q <= input@.len() && (ev matches SpecEvent::Start { name, attrs } && name
                == "Piece".spec_bytes() && (find_attr(attrs, "Extent".spec_bytes()) matches Some(v)
                && SPAN::spec_from_span_str(v) == Some(span)) && (scan_event(input@, q)
                matches SpecScan::Found(ev2, q2) && q2 == p2 && q <= p2 <= input@.len() && (ev2
                matches SpecEvent::Start { name: n2, .. } && n2 == "Coordinates".spec_bytes()))),
            Err(CoordinatesHeader::MalformedXml(_)) => (scan_event(input@, pos as int)
                is Bad) || (scan_event(input@, pos as int) matches SpecScan::Found(ev, q) && (ev
                matches SpecEvent::Start { name, attrs } && name == "Piece".spec_bytes() && (
            find_attr(attrs, "Extent".spec_bytes()) matches Some(v) && SPAN::spec_from_span_str(v)
                is Some) && scan_event(input@, q) is Bad)),
            Err(CoordinatesHeader::UnexpectedElement(_)) => (scan_event(input@, pos as int)
                matches SpecScan::Found(ev, _) && !(ev matches SpecEvent::Start { name, .. } && name
                == "Piece".spec_bytes())) || (scan_event(input@, pos as int)
                matches SpecScan::Found(ev, q) && (ev matches SpecEvent::Start { name, attrs }
                && name == "Piece".spec_bytes() && (find_attr(attrs, "Extent".spec_bytes())
                matches Some(v) && SPAN::spec_from_span_str(v) is Some) && (scan_event(input@, q)
                matches SpecScan::Found(ev2, _) && !(ev2 matches SpecEvent::Start { name: n2, .. }
                && n2 == "Coordinates".spec_bytes())))),
            Err(CoordinatesHeader::MissingAttribute(_)) => scan_event(input@, pos as int)
                matches SpecScan::Found(ev, _) && (ev matches SpecEvent::Start { name, attrs }
                && name == "Piece".spec_bytes() && find_attr(attrs, "Extent".spec_bytes())
                is None),
            Err(CoordinatesHeader::MalformedAttribute(_)) => scan_event(input@, pos as int)
                matches SpecScan::Found(ev, _) && (ev matches SpecEvent::Start { name, attrs }
                && name == "Piece".spec_bytes() && (find_attr(attrs, "Extent".spec_bytes())
                matches Some(v) && SPAN::spec_from_span_str(v) is None)),
        },
{
    let (tag, q) = match read_start_named(input, pos, "Piece") {
        Ok(v) => v,
        Err(ElemErr::Malformed(e)) => {
            return Err(CoordinatesHeader::MalformedXml(e));
        },
        Err(ElemErr::Unexpected(e)) => {
            return Err(CoordinatesHeader::UnexpectedElement(e));
        },
    };
    let extent = match tag.get_attribute_value("Extent") {
        Some(v) => v,
        None => {
            return Err(CoordinatesHeader::MissingAttribute(MissingAttribute::new("Piece", "Extent")));
        },
    };
    let span = match SPAN::from_str(extent.as_slice()) {
        Some(v) => v,
        None => {
            return Err(
                CoordinatesHeader::MalformedAttribute(MalformedAttribute::new("Piece", "Extent")),
            );
        },
    };
    let (_tag, p2) = match read_start_named(input, q, "Coordinates") {
        Ok(v) => v,
        Err(ElemErr::Malformed(e)) => {
            return Err(CoordinatesHeader::MalformedXml(e));
        },
        Err(ElemErr::Unexpected(e)) => {
            return Err(CoordinatesHeader::UnexpectedElement(e));
        },
    };
    Ok((p2, span))
}

/// Close the `Coordinates` element and open the `PointData` element.
pub fn prepare_reading_point_data(input: &[u8], pos: usize) -> (r: Result<usize, PreparePointData>)
    requires
        pos <= input@.len(),
    ensures
        match r {
            Ok(p2) => scan_event(input@, pos as int) matches SpecScan::Found(ev, q) && pos <= q
                <= input@.len() && (ev matches SpecEvent::End { name } && name
                == "Coordinates".spec_bytes()) && (scan_event(input@, q) matches SpecScan::Found(
                ev2,
                q2,
            ) && q2 == p2 && q <= p2 <= input@.len() && (ev2 matches SpecEvent::Start {
                name: n2,
                ..
            } && n2 == "PointData".spec_bytes())),
            Err(PreparePointData::MalformedXml(_)) => (scan_event(input@, pos as int)
                is Bad) || (scan_event(input@, pos as int) matches SpecScan::Found(ev, q) && (ev
                matches SpecEvent::End { name } && name == "Coordinates".spec_bytes())
                && scan_event(input@, q) is Bad),
            Err(PreparePointData::UnexpectedElement(_)) => (scan_event(input@, pos as int)
                matches SpecScan::Found(ev, _) && !(ev matches SpecEvent::End { name } && name
                == "Coordinates".spec_bytes())) || (scan_event(input@, pos as int)
                matches SpecScan::Found(ev, q) && (ev matches SpecEvent::End { name } && name
                == "Coordinates".spec_bytes()) && (scan_event(input@, q) matches SpecScan::Found(
                ev2,
                _,
            ) && !(ev2 matches SpecEvent::Start { name: n2, .. } && n2
                == "PointData".spec_bytes()))),
        },
{
    let q = match read_end_named(input, pos, "Coordinates") {
        Ok(v) => v,
        Err(ElemErr::Malformed(e)) => {
            return Err(PreparePointData::MalformedXml(e));
        },
        Err(ElemErr::Unexpected(e)) => {
            return Err(PreparePointData::UnexpectedElement(e));
        },
    };
    let (_tag, p2) = match read_start_named(input, q, "PointData") {
        Ok(v) => v,
        Err(ElemErr::Malformed(e)) => {
            return Err(PreparePointData::MalformedXml(e));
        },
        Err(ElemErr::Unexpected(e)) => {
            return Err(PreparePointData::UnexpectedElement(e));
        },
    };
    Ok(p2)
}

/// How skipping unread extra arrays inside `PointData` must turn out.
pub enum SkipOutcome {
    Done(int),
    Fail,
}

/// Walk over any unread `DataArray` elements and their bodies inside
/// `PointData`, up to and through the closing `PointData` tag.
pub open spec fn spec_skip_extra(s: Seq<u8>, pos: int, text_allowed: bool) -> SkipOutcome
    decreases s.len() - pos,
    when 0 <= pos <= s.len()
    via spec_skip_extra_decreases
{
    match scan_event(s, pos) {
        SpecScan::Bad => SkipOutcome::Fail,
        SpecScan::Found(ev, q) => match ev {
            SpecEvent::Start { name, .. } => if name == "DataArray".spec_bytes() {
                spec_skip_extra(s, q, true)
            } else {
                SkipOutcome::Fail
            },
            SpecEvent::Empty { name, .. } => if name == "DataArray".spec_bytes() {
                spec_skip_extra(s, q, false)
            } else {
                SkipOutcome::Fail
            },
            SpecEvent::End { name } => if name == "PointData".spec_bytes() {
                SkipOutcome::Done(q)
            } else if name == "DataArray".spec_bytes() {
                spec_skip_extra(s, q, false)
            } else {
                SkipOutcome::Fail
            },
            SpecEvent::Text { .. } => if text_allowed {
                spec_skip_extra(s, q, text_allowed)
            } else {
                SkipOutcome::Fail
            },
            _ => SkipOutcome::Fail,
        },
    }
}

#[via_fn]
proof fn spec_skip_extra_decreases(s: Seq<u8>, pos: int, text_allowed: bool) {
    xml::lemma_scan_advances(s, pos);
}

/// Read through any unread `DataArray` elements left in `PointData`, then
/// the closing `PointData`, `Piece`, and `RectilinearGrid` tags.
pub fn close_element_to_appended_data(input: &[u8], pos: usize) -> (r: Result<usize, CloseElements>)
    requires
        pos <= input@.len(),
    ensures
        match r {
            Ok(p2) => spec_skip_extra(input@, pos as int, false) matches SkipOutcome::Done(m) && pos
                <= m <= input@.len() && (scan_event(input@, m) matches SpecScan::Found(e1, m2) && m
                <= m2 <= input@.len() && (e1 matches SpecEvent::End { name } && name
                == "Piece".spec_bytes()) && (scan_event(input@, m2) matches SpecScan::Found(e2, m3)
                && m3 == p2 && m2 <= p2 <= input@.len() && (e2 matches SpecEvent::End { name: n2 }
                && n2 == "RectilinearGrid".spec_bytes()))),
            Err(_) => !(spec_skip_extra(input@, pos as int, false) matches SkipOutcome::Done(m) && (
            scan_event(input@, m) matches SpecScan::Found(e1, m2) && (e1 matches SpecEvent::End {
                name,
            } && name == "Piece".spec_bytes()) && (scan_event(input@, m2)
                matches SpecScan::Found(e2, _) && (e2 matches SpecEvent::End { name: n2 } && n2
                == "RectilinearGrid".spec_bytes())))),
        },
{
    let mut cur = pos;
    let mut text_allowed = false;
    let mut m: usize = 0;
    loop
        invariant_except_break
            pos <= cur <= input@.len(),
            spec_skip_extra(input@, pos as int, false) == spec_skip_extra(
                input@,
                cur as int,
                text_allowed,
            ),
        ensures
            pos <= m <= input@.len(),
            spec_skip_extra(input@, pos as int, false) == SkipOutcome::Done(m as int),
        decreases input@.len() - cur,
    {
        proof {
            xml::lemma_scan_advances(input@, cur as int);
        }
        match xml::read_event(input, cur) {
            None => {
                return Err(CloseElements::MalformedXml(MalformedXml::new(cur)));
            },
            Some((Event::Start(tag), q)) => {
                if crate::bytebuf::bytes_eq_str(tag.name.as_slice(), "DataArray") {
                    text_allowed = true;
                    cur = q;
                } else {
                    let summary = EventSummary::start(tag.name.as_slice());
                    return Err(
                        CloseElements::UnexpectedElement(
                            UnexpectedElement::new("PointData,DataArray,/DataArray", summary),
                        ),
                    );
                }
            },
            Some((Event::Empty(tag), q)) => {
                if crate::bytebuf::bytes_eq_str(tag.name.as_slice(), "DataArray") {
                    text_allowed = false;
                    cur = q;
                } else {
                    let summary = EventSummary::start(tag.name.as_slice());
                    return Err(
                        CloseElements::UnexpectedElement(
                            UnexpectedElement::new("PointData,DataArray,/DataArray", summary),
                        ),
                    );
                }
            },
            Some((Event::End(name), q)) => {
                if crate::bytebuf::bytes_eq_str(name.as_slice(), "PointData") {
                    m = q;
                    break;
                } else if crate::bytebuf::bytes_eq_str(name.as_slice(), "DataArray") {
                    text_allowed = false;
                    cur = q;
                } else {
                    let summary = EventSummary::end(name.as_slice());
                    return Err(
                        CloseElements::UnexpectedElement(
                            UnexpectedElement::new("PointData,DataArray,/DataArray", summary),
                        ),
                    );
                }
            },
            Some((Event::Text(_), q)) => {
                if text_allowed {
                    cur = q;
                } else {
                    let summary = EventSummary::text();
                    return Err(
                        CloseElements::UnexpectedElement(
                            UnexpectedElement::new("PointData,DataArray,/DataArray", summary),
                        ),
                    );
                }
            },
            Some((ev, _)) => {
                let summary = EventSummary::new(&ev);
                return Err(
                    CloseElements::UnexpectedElement(
                        UnexpectedElement::new("PointData,DataArray,/DataArray", summary),
                    ),
                );
            },
        }
    }
    let m2 = match read_end_named(input, m, "Piece") {
        Ok(v) => v,
        Err(ElemErr::Malformed(e)) => {
            return Err(CloseElements::MalformedXml(e));
        },
        Err(ElemErr::Unexpected(e)) => {
            return Err(CloseElements::UnexpectedElement(e));
        },
    };
    let p2 = match read_end_named(input, m2, "RectilinearGrid") {
        Ok(v) => v,
        Err(ElemErr::Malformed(e)) => {
            return Err(CloseElements::MalformedXml(e));
        },
        Err(ElemErr::Unexpected(e)) => {
            return Err(CloseElements::UnexpectedElement(e));
        },
    };
    Ok(p2)
}

/// Strip the `_` marker and the eight filler bytes that open the raw
/// appended section.
pub fn clean_garbage_from_reader(input: &[u8], pos: usize) -> (r: Result<usize, AppendedData>)
    requires
        pos <= input@.len(),
    ensures
        match r {
            Ok(p2) => p2 == pos + 9 && p2 <= input@.len(),
            Err(AppendedData::ParsingBinary(pb)) => pb == ParsingBinary::LeadingBytes && pos + 9
                > input@.len(),
            Err(_) => false,
        },
{
    let n = input.len();
    if n - pos < 9 {
        return Err(AppendedData::ParsingBinary(ParsingBinary::LeadingBytes));
    }
    Ok(pos + 9)
}

/// Read `length` raw bytes from the appended section and convert every
/// element-width window into an element.
pub fn parse_appended_binary(input: &[u8], pos: usize, length: usize, prec: Precision) -> (r:
    Result<(usize, Vec<u64>), AppendedData>)
    requires
        pos <= input@.len(),
    ensures
        match r {
            Ok((p2, elems)) => p2 == pos + length && p2 <= input@.len() && elems@
                == crate::codec::decode_elems(prec, input@.subrange(pos as int, pos + length)) && (
            forall|i: int| 0 <= i < elems@.len() ==> prec.spec_valid_bits(#[trigger] elems@[i])),
            Err(AppendedData::ParsingBinary(pb)) => pb == ParsingBinary::BinaryToFloat && pos
                + length > input@.len(),
            Err(_) => false,
        },
{
    let n = input.len();
    if n - pos < length {
        return Err(AppendedData::ParsingBinary(ParsingBinary::BinaryToFloat));
    }
    let elems = crate::codec::read_binary_elems(prec, input, pos, pos + length);
    Ok((pos + length, elems))
}


/// The raw byte count one placeholder's payload occupies.
pub open spec fn entry_bytes(e: OffsetBuffer, p: Precision) -> int {
    e.components * e.num_elements * p.spec_width()
}

/// The smallest declared offset among a run of placeholders.
pub open spec fn min_offset(es: Seq<OffsetBuffer>) -> int
    decreases es.len(),
{
    if es.len() == 0 {
        0
    } else if es.len() == 1 {
        es[0].offset as int
    } else if es[0].offset <= min_offset(es.drop_first()) {
        es[0].offset as int
    } else {
        min_offset(es.drop_first())
    }
}

/// The smallest offset is a lower bound and is attained.
proof fn lemma_min_offset(es: Seq<OffsetBuffer>)
    requires
        es.len() > 0,
    ensures
        forall|k: int| 0 <= k < es.len() ==> #[trigger] es[k].offset >= min_offset(es),
        exists|k: int| 0 <= k < es.len() && #[trigger] es[k].offset == min_offset(es),
    decreases es.len(),
{
    if es.len() == 1 {
        assert(es[0].offset == min_offset(es));
    } else {
        lemma_min_offset(es.drop_first());
        assert forall|k: int| 0 <= k < es.len() implies #[trigger] es[k].offset >= min_offset(
            es,
        ) by {
            if k > 0 {
                assert(es.drop_first()[k - 1] == es[k]);
            }
        }
        if es[0].offset <= min_offset(es.drop_first()) {
            assert(es[0].offset == min_offset(es));
        } else {
            let k0 = choose|k: int|
                0 <= k < es.drop_first().len() && #[trigger] es.drop_first()[k].offset
                    == min_offset(es.drop_first());
            assert(es[k0 + 1].offset == min_offset(es));
        }
    }
}


/// The largest declared offset among a run of placeholders.
pub open spec fn max_offset(es: Seq<OffsetBuffer>) -> int
    decreases es.len(),
{
    if es.len() == 0 {
        0
    } else if es.len() == 1 {
        es[0].offset as int
    } else if es[0].offset >= max_offset(es.drop_first()) {
        es[0].offset as int
    } else {
        max_offset(es.drop_first())
    }
}

/// The largest offset is an upper bound and is attained.
proof fn lemma_max_offset(es: Seq<OffsetBuffer>)
    requires
        es.len() > 0,
    ensures
        forall|k: int| 0 <= k < es.len() ==> #[trigger] es[k].offset <= max_offset(es),
        exists|k: int| 0 <= k < es.len() && #[trigger] es[k].offset == max_offset(es),
    decreases es.len(),
{
    if es.len() > 1 {
        lemma_max_offset(es.drop_first());
        assert forall|k: int| 0 <= k < es.len() implies #[trigger] es[k].offset <= max_offset(
            es,
        ) by {
            if k > 0 {
                assert(es.drop_first()[k - 1] == es[k]);
            }
        }
        if es[0].offset >= max_offset(es.drop_first()) {
            assert(es[0].offset == max_offset(es));
        } else {
            let k0 = choose|k: int|
                0 <= k < es.drop_first().len() && #[trigger] es.drop_first()[k].offset
                    == max_offset(es.drop_first());
            assert(es[k0 + 1].offset == max_offset(es));
        }
    } else {
        assert(es[0].offset == max_offset(es));
    }
}

/// Placeholder `j` declares the next offset above placeholder `k`: it
/// lies strictly higher and no other placeholder lies between the two.
pub open spec fn is_next_offset(es: Seq<OffsetBuffer>, k: int, j: int) -> bool {
    &&& 0 <= k < es.len()
    &&& 0 <= j < es.len()
    &&& es[j].offset > es[k].offset
    &&& forall|m: int|
        0 <= m < es.len() ==> (#[trigger] es[m]).offset <= es[k].offset || es[m].offset
            >= es[j].offset
}

/// The faults the resolver rejects a section for: too few marker bytes,
/// duplicate offsets, a declared byte count no buffer can hold, adjacent
/// offsets whose distance contradicts the earlier placeholder's byte
/// count or overflows the offset type, or a payload running past the end
/// of the input.
pub open spec fn resolver_fault(
    es: Seq<OffsetBuffer>,
    prec: Precision,
    input: Seq<u8>,
    pos: int,
) -> bool {
    ||| pos + 9 > input.len()
    ||| !distinct_offsets(es)
    ||| exists|k: int| 0 <= k < es.len() && entry_bytes(#[trigger] es[k], prec) > usize::MAX
    ||| exists|k: int, j: int|
        #[trigger] is_next_offset(es, k, j) && (es[j].offset - es[k].offset != entry_bytes(
            es[k],
            prec,
        ) || es[j].offset - es[k].offset > i64::MAX)
    ||| exists|k: int|
        0 <= k < es.len() && pos + 9 + ((#[trigger] es[k]).offset - min_offset(es)) + entry_bytes(
            es[k],
            prec,
        ) > input.len()
}

/// No two placeholders declare the same offset.
pub open spec fn distinct_offsets(es: Seq<OffsetBuffer>) -> bool {
    forall|i: int, j: int|
        0 <= i < j < es.len() ==> #[trigger] es[i].offset != #[trigger] es[j].offset
}

/// How many entries of a run are set.
spec fn count_true(s: Seq<bool>) -> int
    decreases s.len(),
{
    if s.len() == 0 {
        0
    } else {
        count_true(s.drop_last()) + if s.last() {
            1int
        } else {
            0int
        }
    }
}

/// Fewer set entries than entries leaves an unset one.
proof fn lemma_count_true_exists(s: Seq<bool>)
    requires
        count_true(s) < s.len(),
    ensures
        exists|k: int| 0 <= k < s.len() && !s[k],
    decreases s.len(),
{
    if s.len() > 0 {
        if s.last() {
            lemma_count_true_exists(s.drop_last());
            let k = choose|k: int| 0 <= k < s.drop_last().len() && !s.drop_last()[k];
            assert(!s[k]);
        } else {
            assert(!s[s.len() - 1]);
        }
    }
}

/// Counting is bounded by the length.
proof fn lemma_count_true_bound(s: Seq<bool>)
    ensures
        0 <= count_true(s) <= s.len(),
    decreases s.len(),
{
    if s.len() > 0 {
        lemma_count_true_bound(s.drop_last());
    }
}

/// A count of zero means nothing is set.
proof fn lemma_count_true_zero(s: Seq<bool>)
    requires
        count_true(s) == 0,
    ensures
        forall|k: int| 0 <= k < s.len() ==> !s[k],
    decreases s.len(),
{
    if s.len() > 0 {
        lemma_count_true_bound(s.drop_last());
        lemma_count_true_zero(s.drop_last());
        assert forall|k: int| 0 <= k < s.len() implies !s[k] by {
            if k < s.len() - 1 {
                assert(s.drop_last()[k] == s[k]);
            }
        }
    }
}

/// A full count means everything is set.
proof fn lemma_count_true_full(s: Seq<bool>)
    requires
        count_true(s) == s.len(),
    ensures
        forall|k: int| 0 <= k < s.len() ==> s[k],
    decreases s.len(),
{
    if s.len() > 0 {
        lemma_count_true_bound(s.drop_last());
        lemma_count_true_full(s.drop_last());
        assert forall|k: int| 0 <= k < s.len() implies s[k] by {
            if k < s.len() - 1 {
                assert(s.drop_last()[k] == s[k]);
            }
        }
    }
}

/// Setting an unset entry raises the count by one.
proof fn lemma_count_true_set(s: Seq<bool>, k: int)
    requires
        0 <= k < s.len(),
        !s[k],
    ensures
        count_true(s.update(k, true)) == count_true(s) + 1,
    decreases s.len(),
{
    if k == s.len() - 1 {
        assert(s.update(k, true).drop_last() =~= s.drop_last());
    } else {
        lemma_count_true_set(s.drop_last(), k);
        assert(s.update(k, true).drop_last() =~= s.drop_last().update(k, true));
        assert(s.update(k, true).last() == s.last());
    }
}

/// Drain the appended section into every placeholder, in ascending order
/// of declared offset: placeholder `k` reads exactly its declared byte
/// count, at the section position its offset names, so the byte length of
/// each placeholder but the last equals the distance to the next offset
/// and the stream rests at the end of the declared payload. Failure comes
/// exactly from the faults of [`resolver_fault`].
#[verifier::rlimit(100)]
pub fn read_appended_array_buffers(
    input: &[u8],
    pos: usize,
    arena: &mut PendingArena,
    prec: Precision,
) -> (r: Result<usize, AppendedData>)
    requires
        pos <= input@.len(),
    ensures
        final(arena).entries@.len() == old(arena).entries@.len(),
        forall|k: int|
            0 <= k < old(arena).entries@.len() ==> {
                &&& final(arena).entries@[k].offset == old(arena).entries@[k].offset
                &&& final(arena).entries@[k].components == old(arena).entries@[k].components
                &&& final(arena).entries@[k].num_elements == old(arena).entries@[k].num_elements
            },
        match r {
            Ok(p2) => {
                let es = old(arena).entries@;
                &&& pos <= p2 <= input@.len()
                &&& distinct_offsets(es)
                &&& es.len() == 0 ==> p2 == pos && final(arena).entries@ == es
                &&& forall|k: int, j: int|
                    #[trigger] is_next_offset(es, k, j) ==> es[j].offset - es[k].offset
                        == entry_bytes(es[k], prec)
                &&& es.len() > 0 ==> exists|k: int|
                    0 <= k < es.len() && (#[trigger] es[k]).offset == max_offset(es) && p2 == pos
                        + 9 + (max_offset(es) - min_offset(es)) + entry_bytes(es[k], prec)
                &&& forall|k: int|
                    0 <= k < es.len() ==> {
                        let start = pos + 9 + (es[k].offset - min_offset(es));
                        let blen = entry_bytes(es[k], prec);
                        &&& 0 <= start && start + blen <= input@.len()
                        &&& (#[trigger] final(arena).entries@[k]).buffer@
                            == crate::codec::decode_elems(
                            prec,
                            input@.subrange(start, start + blen),
                        )
                        &&& final(arena).entries@[k].buffer@.len() == es[k].components * es[
                            k].num_elements
                        &&& forall|i: int|
                            0 <= i < final(arena).entries@[k].buffer@.len()
                                ==> prec.spec_valid_bits(
                                #[trigger] final(arena).entries@[k].buffer@[i],
                            )
                    }
            },
            Err(e) => e is ParsingBinary && resolver_fault(
                old(arena).entries@,
                prec,
                input@,
                pos as int,
            ),
        },
{
    let n = arena.len();
    if n == 0 {
        return Ok(pos);
    }
    let pos0 = match clean_garbage_from_reader(input, pos) {
        Ok(v) => v,
        Err(e) => {
            return Err(e);
        },
    };
    let w = prec.width();
    let mut done: Vec<bool> = Vec::new();
    let mut i: usize = 0;
    while i < n
        invariant
            0 <= i <= n,
            done@.len() == i,
            forall|k: int| 0 <= k < i ==> !done@[k],
            count_true(done@) == 0,
        decreases n - i,
    {
        proof {
            assert(done@.push(false).drop_last() =~= done@);
        }
        done.push(false);
        i = i + 1;
    }
    let mut cur = pos0;
    let ghost es0 = arena.entries@;
    let ghost mut first_ofs: int = 0int;
    let mut prev_ofs: i64 = 0;
    let mut prev_blen: usize = 0;
    let mut r: usize = 0;
    while r < n
        invariant
            0 <= r <= n,
            n == es0.len(),
            es0 == old(arena).entries@,
            done@.len() == n,
            count_true(done@) == r,
            pos + 9 == pos0,
            pos0 <= cur <= input@.len(),
            r == 0 ==> cur == pos0,
            w == prec.spec_width(),
            arena.entries@.len() == n,
            forall|k: int|
                0 <= k < n ==> {
                    &&& (#[trigger] arena.entries@[k]).offset == es0[k].offset
                    &&& arena.entries@[k].components == es0[k].components
                    &&& arena.entries@[k].num_elements == es0[k].num_elements
                },
            forall|k: int| 0 <= k < n && !done@[k] ==> arena.entries@[k] == es0[k],
            r > 0 ==> forall|k: int| 0 <= k < n ==> #[trigger] es0[k].offset >= first_ofs,
            r > 0 ==> first_ofs == min_offset(es0),
            r > 0 ==> forall|k: int|
                0 <= k < n ==> (#[trigger] done@[k] <==> es0[k].offset <= prev_ofs),
            r > 0 ==> cur == pos0 + (prev_ofs - first_ofs) + prev_blen,
            r > 0 ==> exists|k: int|
                0 <= k < n && #[trigger] es0[k].offset == prev_ofs && entry_bytes(es0[k], prec)
                    == prev_blen,
            forall|i2: int, j2: int|
                0 <= i2 < n && 0 <= j2 < n && i2 != j2 && #[trigger] done@[i2]
                    && #[trigger] done@[j2] ==> es0[i2].offset != es0[j2].offset,
            forall|i2: int, j2: int|
                #[trigger] is_next_offset(es0, i2, j2) && done@[i2] && done@[j2] ==> es0[j2].offset
                    - es0[i2].offset == entry_bytes(es0[i2], prec),
            forall|k: int|
                0 <= k < n && #[trigger] done@[k] ==> {
                    let start = pos + 9 + (es0[k].offset - first_ofs);
                    let blen = entry_bytes(es0[k], prec);
                    &&& 0 <= start && start + blen <= input@.len()
                    &&& arena.entries@[k].buffer@ == crate::codec::decode_elems(
                        prec,
                        input@.subrange(start, start + blen),
                    )
                    &&& arena.entries@[k].buffer@.len() == es0[k].components * es0[
                        k].num_elements
                    &&& forall|i2: int|
                        0 <= i2 < arena.entries@[k].buffer@.len() ==> prec.spec_valid_bits(
                            #[trigger] arena.entries@[k].buffer@[i2],
                        )
                },
        decreases n - r,
    {
        proof {
            lemma_count_true_bound(done@);
            lemma_count_true_exists(done@);
        }
        let mut best: usize = n;
        let mut k: usize = 0;
        while k < n
            invariant
                0 <= k <= n,
                n == done@.len(),
                n == arena.entries@.len(),
                n == es0.len(),
                es0 == old(arena).entries@,
                forall|m: int|
                    0 <= m < n ==> {
                        &&& (#[trigger] arena.entries@[m]).offset == es0[m].offset
                        &&& arena.entries@[m].components == es0[m].components
                        &&& arena.entries@[m].num_elements == es0[m].num_elements
                    },
                best == n || (best < n && !done@[best as int]),
                best == n ==> forall|k2: int| 0 <= k2 < k ==> done@[k2],
                best < n ==> best < k,
                best < n ==> forall|k2: int|
                    0 <= k2 < k && !done@[k2] ==> arena.entries@[best as int].offset
                        <= #[trigger] arena.entries@[k2].offset,
            decreases n - k,
        {
            if !done[k] {
                if best == n {
                    best = k;
                } else if arena.entries[k].offset < arena.entries[best].offset {
                    best = k;
                }
            }
            k = k + 1;
        }
        proof {
            let kw = choose|k2: int| 0 <= k2 < n && !done@[k2];
            assert(best < n);
        }
        let best_ofs = arena.entries[best].offset;
        let mut k2: usize = 0;
        while k2 < n
            invariant
                0 <= k2 <= n,
                n == done@.len(),
                n == arena.entries@.len(),
                n == es0.len(),
                es0 == old(arena).entries@,
                forall|m: int|
                    0 <= m < n ==> {
                        &&& (#[trigger] arena.entries@[m]).offset == es0[m].offset
                        &&& arena.entries@[m].components == es0[m].components
                        &&& arena.entries@[m].num_elements == es0[m].num_elements
                    },
                best < n,
                best_ofs == arena.entries@[best as int].offset,
                forall|m: int|
                    0 <= m < k2 && m != best && !done@[m] ==> #[trigger] arena.entries@[m].offset
                        != best_ofs,
            decreases n - k2,
        {
            if k2 != best && !done[k2] && arena.entries[k2].offset == best_ofs {
                proof {
                    assert(es0[k2 as int].offset == es0[best as int].offset);
                    if (best as int) < (k2 as int) {
                        assert(!distinct_offsets(es0));
                    } else {
                        assert(!distinct_offsets(es0));
                    }
                }
                return Err(AppendedData::ParsingBinary(ParsingBinary::BinaryToFloat));
            }
            k2 = k2 + 1;
        }
        let comps = arena.entries[best].components;
        let nelems = arena.entries[best].num_elements;
        let blen = match comps.checked_mul(nelems) {
            Some(v) => match v.checked_mul(w) {
                Some(v2) => v2,
                None => {
                    proof {
                        assert(entry_bytes(es0[best as int], prec) > usize::MAX);
                    }
                    return Err(AppendedData::ParsingBinary(ParsingBinary::BinaryToFloat));
                },
            },
            None => {
                proof {
                    assert(comps * nelems * (w as int) >= comps * nelems) by (nonlinear_arith)
                        requires
                            comps >= 0,
                            nelems >= 0,
                            w == 4 || w == 8,
                    ;
                    assert(entry_bytes(es0[best as int], prec) > usize::MAX);
                }
                return Err(AppendedData::ParsingBinary(ParsingBinary::BinaryToFloat));
            },
        };
        if r > 0 {
            proof {
                assert(!done@[best as int]);
                assert(es0[best as int].offset > prev_ofs);
            }
            if best_ofs <= prev_ofs {
                return Err(AppendedData::ParsingBinary(ParsingBinary::BinaryToFloat));
            }
            let ghost kp = choose|m: int|
                0 <= m < n && #[trigger] es0[m].offset == prev_ofs && entry_bytes(es0[m], prec)
                    == prev_blen;
            proof {
                assert(is_next_offset(es0, kp, best as int)) by {
                    assert forall|m: int| 0 <= m < n implies (#[trigger] es0[m]).offset
                        <= es0[kp].offset || es0[m].offset >= es0[best as int].offset by {
                        if done@[m] {
                            assert(es0[m].offset <= prev_ofs);
                        } else {
                            assert(arena.entries@[best as int].offset
                                <= arena.entries@[m].offset);
                        }
                    }
                }
            }
            let diff = match best_ofs.checked_sub(prev_ofs) {
                Some(v) => v,
                None => {
                    proof {
                        assert(es0[best as int].offset - es0[kp].offset > i64::MAX);
                    }
                    return Err(AppendedData::ParsingBinary(ParsingBinary::BinaryToFloat));
                },
            };
            if diff as u64 != prev_blen as u64 {
                proof {
                    assert(diff as int == es0[best as int].offset - es0[kp].offset);
                    assert(diff as int != prev_blen as int);
                    assert(es0[best as int].offset - es0[kp].offset != entry_bytes(
                        es0[kp],
                        prec,
                    ));
                }
                return Err(AppendedData::ParsingBinary(ParsingBinary::BinaryToFloat));
            }
        } else {
            proof {
                lemma_count_true_zero(done@);
                lemma_min_offset(es0);
                let km = choose|m: int|
                    0 <= m < es0.len() && #[trigger] es0[m].offset == min_offset(es0);
                assert(!done@[km]);
                assert(arena.entries@[best as int].offset <= es0[km].offset);
                assert(es0[best as int].offset >= min_offset(es0));
                first_ofs = es0[best as int].offset as int;
                assert(first_ofs == min_offset(es0));
            }
        }
        proof {
            assert(first_ofs == min_offset(es0));
            if r == 0 {
                lemma_count_true_zero(done@);
                assert(cur == pos0);
                assert(first_ofs == best_ofs as int);
            } else {
                assert(cur == pos0 + (prev_ofs - first_ofs) + prev_blen);
                assert(best_ofs - prev_ofs == prev_blen as int);
            }
            assert(cur == pos0 + (best_ofs - first_ofs));
            assert(blen == entry_bytes(es0[best as int], prec));
        }
        let (after, elems) = match parse_appended_binary(input, cur, blen, prec) {
            Ok(v) => v,
            Err(e) => {
                proof {
                    assert(pos + 9 + (es0[best as int].offset - min_offset(es0)) + entry_bytes(
                        es0[best as int],
                        prec,
                    ) > input@.len());
                }
                return Err(e);
            },
        };
        proof {
            assert(elems@.len() == comps * nelems) by {
                crate::codec::lemma_decode_elems_len(
                    prec,
                    input@.subrange(cur as int, cur + blen),
                );
                assert((comps * nelems * w as int) / (w as int) == comps * nelems)
                    by (nonlinear_arith)
                    requires
                        w == 4 || w == 8,
                        comps >= 0,
                        nelems >= 0,
                ;
            }
        }
        let ghost done_before = done@;
        let ghost prev_before = prev_ofs;
        let ghost prev_blen_before = prev_blen;
        let ghost r_before = r;
        let ghost cur_before = cur;
        arena.fill(best, elems);
        proof {
            lemma_count_true_set(done@, best as int);
            if r_before == 0 {
                lemma_count_true_zero(done_before);
            }
        }
        done.set(best, true);
        prev_ofs = best_ofs;
        prev_blen = blen;
        cur = after;
        r = r + 1;
        proof {
            assert forall|k: int| 0 <= k < n implies (#[trigger] done@[k] <==> es0[k].offset
                <= prev_ofs as int) by {
                if k == best as int {
                } else if done_before[k] {
                    assert(r_before > 0);
                    assert(es0[k].offset <= prev_before as int);
                } else {
                    assert(arena.entries@[best as int].offset <= es0[k].offset);
                    assert(es0[k].offset != best_ofs as int);
                }
            }
            assert forall|i2: int, j2: int|
                #[trigger] is_next_offset(es0, i2, j2) && done@[i2] && done@[j2] implies es0[
                j2].offset - es0[i2].offset == entry_bytes(es0[i2], prec) by {
                if j2 == best as int && i2 != best as int {
                    assert(done_before[i2]);
                    assert(r_before > 0);
                    let kp = choose|m: int|
                        0 <= m < n && #[trigger] es0[m].offset == prev_before && entry_bytes(
                            es0[m],
                            prec,
                        ) == prev_blen_before;
                    assert(done_before[kp]);
                    assert(es0[i2].offset == prev_before as int) by {
                        if es0[i2].offset < prev_before as int {
                            assert(es0[kp].offset <= es0[i2].offset || es0[kp].offset >= es0[
                                best as int].offset);
                        }
                    }
                    assert(i2 == kp) by {
                        if i2 != kp {
                            assert(es0[i2].offset != es0[kp].offset);
                        }
                    }
                    assert(es0[best as int].offset - es0[i2].offset == entry_bytes(
                        es0[i2],
                        prec,
                    ));
                } else if i2 == best as int && j2 != best as int {
                    assert(done_before[j2]);
                    assert(r_before > 0);
                    assert(es0[j2].offset <= prev_before as int);
                    assert(es0[j2].offset > es0[best as int].offset);
                    assert(false);
                } else if i2 != best as int && j2 != best as int {
                    assert(done_before[i2] && done_before[j2]);
                }
            }
        }
    }
    proof {
        lemma_count_true_full(done@);
        assert forall|i2: int, j2: int|
            0 <= i2 < j2 < es0.len() implies #[trigger] es0[i2].offset
            != #[trigger] es0[j2].offset by {
            assert(done@[i2] && done@[j2]);
        }
        assert(first_ofs == min_offset(es0));
        assert forall|i2: int, j2: int| #[trigger] is_next_offset(es0, i2, j2) implies es0[
        j2].offset - es0[i2].offset == entry_bytes(es0[i2], prec) by {
            assert(done@[i2] && done@[j2]);
        }
        lemma_max_offset(es0);
        let kp = choose|m: int|
            0 <= m < n && #[trigger] es0[m].offset == prev_ofs && entry_bytes(es0[m], prec)
                == prev_blen;
        assert(prev_ofs as int == max_offset(es0)) by {
            let km = choose|m: int|
                0 <= m < es0.len() && #[trigger] es0[m].offset == max_offset(es0);
            assert(done@[km]);
            assert(es0[km].offset <= prev_ofs);
            assert(es0[kp].offset <= max_offset(es0));
        }
        assert(es0[kp].offset == max_offset(es0) && cur == pos + 9 + (max_offset(es0)
            - min_offset(es0)) + entry_bytes(es0[kp], prec));
        assert forall|k: int| 0 <= k < es0.len() implies {
            let start = pos + 9 + (es0[k].offset - min_offset(es0));
            let blen = entry_bytes(es0[k], prec);
            &&& 0 <= start && start + blen <= input@.len()
            &&& (#[trigger] arena.entries@[k]).buffer@ == crate::codec::decode_elems(
                prec,
                input@.subrange(start, start + blen),
            )
            &&& arena.entries@[k].buffer@.len() == es0[k].components * es0[k].num_elements
            &&& forall|i2: int|
                0 <= i2 < arena.entries@[k].buffer@.len() ==> prec.spec_valid_bits(
                    #[trigger] arena.entries@[k].buffer@[i2],
                )
        } by {
            assert(done@[k]);
        }
    }
    Ok(cur)
}


/// Read the `AppendedData` element and drain its raw section into every
/// placeholder; a document with no placeholders is complete as it stands
/// and no further bytes are read.
pub fn read_appended_data(
    input: &[u8],
    pos: usize,
    arena: &mut PendingArena,
    prec: Precision,
) -> (r: Result<usize, AppendedData>)
    requires
        pos <= input@.len(),
    ensures
        final(arena).entries@.len() == old(arena).entries@.len(),
        old(arena).entries@.len() == 0 ==> (r matches Ok(p2) && p2 == pos
            && final(arena).entries@ == old(arena).entries@),
        match r {
            Ok(p2) => {
                let oldes = old(arena).entries@;
                let newes = final(arena).entries@;
                &&& pos <= p2 <= input@.len()
                &&& oldes.len() == 0 ==> p2 == pos && newes == oldes
                &&& distinct_offsets(oldes)
                &&& forall|k: int|
                    0 <= k < oldes.len() ==> {
                        &&& (#[trigger] newes[k]).resolved()
                        &&& newes[k].components == oldes[k].components
                        &&& newes[k].num_elements == oldes[k].num_elements
                        &&& forall|i: int|
                            0 <= i < newes[k].buffer@.len() ==> prec.spec_valid_bits(
                                #[trigger] newes[k].buffer@[i],
                            )
                    }
            },
            Err(AppendedData::MalformedXml(_)) => scan_event(input@, pos as int) is Bad,
            Err(AppendedData::UnexpectedElement(_)) => scan_event(input@, pos as int)
                matches SpecScan::Found(ev, _) && !(ev matches SpecEvent::Start { name, .. } && name
                == "AppendedData".spec_bytes()),
            Err(AppendedData::MissingAttribute(_)) => scan_event(input@, pos as int)
                matches SpecScan::Found(ev, _) && (ev matches SpecEvent::Start { name, attrs }
                && name == "AppendedData".spec_bytes() && find_attr(attrs, "encoding".spec_bytes())
                is None),
            Err(AppendedData::UnexpectedAttributeValue(_)) => scan_event(input@, pos as int)
                matches SpecScan::Found(ev, _) && (ev matches SpecEvent::Start { name, attrs }
                && name == "AppendedData".spec_bytes() && (find_attr(
                attrs,
                "encoding".spec_bytes(),
            ) matches Some(v) && v != "raw".spec_bytes())),
            Err(AppendedData::ParsingBinary(_)) => scan_event(input@, pos as int)
                matches SpecScan::Found(ev, _) && (ev matches SpecEvent::Start { name, attrs }
                && name == "AppendedData".spec_bytes() && (find_attr(
                attrs,
                "encoding".spec_bytes(),
            ) matches Some(v) && v == "raw".spec_bytes())),
        },
{
    if arena.len() == 0 {
        return Ok(pos);
    }
    let (tag, p1) = match read_start_named(input, pos, "AppendedData") {
        Ok(v) => v,
        Err(ElemErr::Malformed(e)) => {
            return Err(AppendedData::MalformedXml(e));
        },
        Err(ElemErr::Unexpected(e)) => {
            return Err(AppendedData::UnexpectedElement(e));
        },
    };
    let encoding = match tag.get_attribute_value("encoding") {
        Some(v) => v,
        None => {
            return Err(AppendedData::MissingAttribute(MissingAttribute::new("AppendedData", "encoding")));
        },
    };
    match check_attribute_value(encoding.as_slice(), "AppendedData", "encoding", "raw") {
        Ok(()) => (),
        Err(e) => {
            return Err(AppendedData::UnexpectedAttributeValue(e));
        },
    }
    read_appended_array_buffers(input, p1, arena, prec)
}

/// The document opens, past any leading declarations, with a `VTKFile`
/// element whose `type` and `byte_order` attributes, where present, name
/// a little-endian rectilinear grid.
pub open spec fn spec_grid_header_ok(s: Seq<u8>) -> bool {
    scan_event(s, skip_decls(s, 0)) matches SpecScan::Found(ev, _) && (ev matches SpecEvent::Start {
        name,
        attrs,
    } && name == "VTKFile".spec_bytes() && (match find_attr(attrs, "type".spec_bytes()) {
        Some(v) => v == "RectilinearGrid".spec_bytes(),
        None => true,
    }) && (match find_attr(attrs, "byte_order".spec_bytes()) {
        Some(w) => w == "LittleEndian".spec_bytes(),
        None => true,
    }))
}

/// The position right after the `VTKFile` opening tag, where the
/// `RectilinearGrid` element must stand.
pub open spec fn spec_grid_header_end(s: Seq<u8>) -> int {
    match scan_event(s, skip_decls(s, 0)) {
        SpecScan::Found(ev, q) => q,
        SpecScan::Bad => 0,
    }
}

/// The `RectilinearGrid` element stands after the document opening and
/// carries a `WholeExtent` attribute that parses as a span.
pub open spec fn spec_whole_extent_ok<SPAN: crate::ParseSpan>(s: Seq<u8>) -> bool {
    scan_event(s, spec_grid_header_end(s)) matches SpecScan::Found(ev, _) && (ev
        matches SpecEvent::Start { name, attrs } && name == "RectilinearGrid".spec_bytes() && (
    find_attr(attrs, "WholeExtent".spec_bytes()) matches Some(v) && SPAN::spec_from_span_str(v)
        is Some))
}

/// The `RectilinearGrid` element stands after the document opening but
/// lacks the `WholeExtent` attribute.
pub open spec fn spec_whole_extent_missing(s: Seq<u8>) -> bool {
    scan_event(s, spec_grid_header_end(s)) matches SpecScan::Found(ev, _) && (ev
        matches SpecEvent::Start { name, attrs } && name == "RectilinearGrid".spec_bytes()
        && find_attr(attrs, "WholeExtent".spec_bytes()) is None)
}

/// Parse a whole document: the fixed element sequence of the reader state
/// machine, the caller's visitors over the coordinate and point-data
/// arrays, the appended-binary resolver, and the final assembly of the
/// caller's types. Structural faults surface as the stage-tagged
/// [`ParseError`]; a visitor whose placeholder cannot be finalized
/// surfaces as an appended-data error.
pub fn parse_xml_document<DOMAIN, SPAN, D, MESH, ArrayVisitor, MeshVisitor>(input: &[u8]) -> (r:
    Result<crate::VtkData<DOMAIN, D>, crate::Error>) where
    D: crate::ParseArray<Visitor = ArrayVisitor>,
    ArrayVisitor: crate::Visitor<SPAN, Output = D>,
    MESH: crate::ParseMesh<Visitor = MeshVisitor>,
    MeshVisitor: crate::Visitor<SPAN, Output = MESH>,
    SPAN: crate::ParseSpan,
    DOMAIN: From<(MESH, SPAN)>,

    ensures
        r matches Err(crate::Error::Parse(ParseError::Header(_))) <==> !spec_grid_header_ok(
            input@,
        ),
        r matches Err(
            crate::Error::Parse(
                ParseError::RectilinearHeader(RectilinearHeader::MissingAttribute(_)),
            ),
        ) <==> spec_grid_header_ok(input@) && spec_whole_extent_missing(input@),
        r is Ok ==> spec_grid_header_ok(input@) && spec_whole_extent_ok::<SPAN>(input@),
{
    let mut arena = PendingArena::new();
    let pos = match read_to_grid_header(input, 0) {
        Ok(v) => v,
        Err(e) => {
            return Err(crate::Error::Parse(ParseError::Header(e)));
        },
    };
    let (pos, spans) = match read_rectilinear_header::<SPAN>(input, pos) {
        Ok(v) => v,
        Err(e) => {
            return Err(crate::Error::Parse(ParseError::RectilinearHeader(e)));
        },
    };
    let (pos, _local_spans) = match read_to_coordinates::<SPAN>(input, pos) {
        Ok(v) => v,
        Err(e) => {
            return Err(crate::Error::Parse(ParseError::CoordinatesHeader(e)));
        },
    };
    let (location_visitor, pos) = match MeshVisitor::read_headers(&spans, input, pos, &mut arena) {
        Ok(v) => v,
        Err(e) => {
            return Err(crate::Error::Parse(ParseError::Mesh(e)));
        },
    };
    let pos = match prepare_reading_point_data(input, pos) {
        Ok(v) => v,
        Err(e) => {
            return Err(crate::Error::Parse(ParseError::PreparePointData(e)));
        },
    };
    let (array_visitor, pos) = match ArrayVisitor::read_headers(&spans, input, pos, &mut arena) {
        Ok(v) => v,
        Err(e) => {
            return Err(crate::Error::Parse(ParseError::Mesh(e)));
        },
    };
    let pos = match close_element_to_appended_data(input, pos) {
        Ok(v) => v,
        Err(e) => {
            return Err(crate::Error::Parse(ParseError::CloseElements(e)));
        },
    };
    let prec = <MeshVisitor::Num as Numeric>::as_precision();
    let _pos = match read_appended_data(input, pos, &mut arena, prec) {
        Ok(v) => v,
        Err(e) => {
            return Err(crate::Error::Parse(ParseError::AppendedData(e)));
        },
    };
    let data: D = match array_visitor.finish(&spans, &arena) {
        Some(v) => v,
        None => {
            return Err(
                crate::Error::Parse(
                    ParseError::AppendedData(AppendedData::ParsingBinary(ParsingBinary::BinaryToFloat)),
                ),
            );
        },
    };
    let mesh: MESH = match location_visitor.finish(&spans, &arena) {
        Some(v) => v,
        None => {
            return Err(
                crate::Error::Parse(
                    ParseError::AppendedData(AppendedData::ParsingBinary(ParsingBinary::BinaryToFloat)),
                ),
            );
        },
    };
    let domain = DOMAIN::from((mesh, spans));
    Ok(crate::VtkData { domain, data })
}

} // verus!
