//! The XML token layer: a byte-level scanner for the markup subset the
//! file format uses, and the renderers that emit it.
//!
//! An event is a declaration, an opening tag with its attributes, a
//! self-closing tag, a closing tag, a text run, or the end of input.
//! Whitespace between elements is skipped; text runs are trimmed at both
//! ends, and attribute values know no escaping — the format never needs
//! any.

use vstd::prelude::*;
use vstd::string::is_ascii;
use vstd::string::StringSliceAdditionalSpecFns;
use crate::codec::is_space;

verus! {

/// One attribute as the specification sees it.
pub struct SpecAttr {
    pub key: Seq<u8>,
    pub value: Seq<u8>,
}

/// One scanned event as the specification sees it.
pub enum SpecEvent {
    /// `<?...?>`, the XML declaration or another processing instruction.
    Decl,
    /// `<Name key="value" ...>`.
    Start { name: Seq<u8>, attrs: Seq<SpecAttr> },
    /// `<Name key="value" .../>`, a self-closing element.
    Empty { name: Seq<u8>, attrs: Seq<SpecAttr> },
    /// `</Name>`.
    End { name: Seq<u8> },
    /// A run of text between elements, trimmed of surrounding whitespace.
    Text { body: Seq<u8> },
    /// `<!...>`: a comment or doctype; recognized, never expected.
    Other,
    /// The end of the input.
    Eof,
}

/// What scanning at a position yields: an event and the position after
/// it, or a malformed-markup failure.
pub enum SpecScan {
    Found(SpecEvent, int),
    Bad,
}

/// The first position at or after `pos` holding a non-whitespace byte.
pub open spec fn skip_ws(s: Seq<u8>, pos: int) -> int
    decreases s.len() - pos,
    when 0 <= pos <= s.len()
{
    if pos < s.len() && is_space(s[pos]) {
        skip_ws(s, pos + 1)
    } else {
        pos
    }
}

/// The first position at or after `pos` holding `<`, or the end.
pub open spec fn text_end(s: Seq<u8>, pos: int) -> int
    decreases s.len() - pos,
    when 0 <= pos <= s.len()
{
    if pos < s.len() && s[pos] != 0x3c {
        text_end(s, pos + 1)
    } else {
        pos
    }
}

/// The end of a text run with trailing whitespace cut back, no further
/// than `start`.
pub open spec fn trim_ws_end(s: Seq<u8>, start: int, e: int) -> int
    decreases e - start,
    when 0 <= start <= e <= s.len()
{
    if e > start && is_space(s[e - 1]) {
        trim_ws_end(s, start, e - 1)
    } else {
        e
    }
}

/// A byte that may stand in an element or attribute name.
pub open spec fn is_name_byte(b: u8) -> bool {
    &&& !is_space(b)
    &&& b != 0x3c  // <
    &&& b != 0x3e  // >
    &&& b != 0x2f  // /
    &&& b != 0x3d  // =
    &&& b != 0x22  // "
    &&& b != 0x3f  // ?
    &&& b != 0x21  // !
}

/// The first position at or after `pos` holding a byte that cannot stand
/// in a name.
pub open spec fn name_end(s: Seq<u8>, pos: int) -> int
    decreases s.len() - pos,
    when 0 <= pos <= s.len()
{
    if pos < s.len() && is_name_byte(s[pos]) {
        name_end(s, pos + 1)
    } else {
        pos
    }
}

/// The first position at or after `pos` holding `quote`, or `-1` when
/// there is none.
pub open spec fn find_byte(s: Seq<u8>, pos: int, quote: u8) -> int
    decreases s.len() - pos,
    when 0 <= pos <= s.len()
{
    if pos >= s.len() {
        -1
    } else if s[pos] == quote {
        pos
    } else {
        find_byte(s, pos + 1, quote)
    }
}

/// `skip_ws` stays inside the bounds and lands on a boundary.
pub proof fn lemma_skip_ws_bounds(s: Seq<u8>, pos: int)
    requires
        0 <= pos <= s.len(),
    ensures
        pos <= skip_ws(s, pos) <= s.len(),
        skip_ws(s, pos) < s.len() ==> !is_space(s[skip_ws(s, pos)]),
    decreases s.len() - pos,
{
    if pos < s.len() && is_space(s[pos]) {
        lemma_skip_ws_bounds(s, pos + 1);
    }
}

/// `text_end` stays inside the bounds.
pub proof fn lemma_text_end_bounds(s: Seq<u8>, pos: int)
    requires
        0 <= pos <= s.len(),
    ensures
        pos <= text_end(s, pos) <= s.len(),
    decreases s.len() - pos,
{
    if pos < s.len() && s[pos] != 0x3c {
        lemma_text_end_bounds(s, pos + 1);
    }
}

/// `trim_ws_end` stays inside the bounds.
pub proof fn lemma_trim_ws_end_bounds(s: Seq<u8>, start: int, e: int)
    requires
        0 <= start <= e <= s.len(),
    ensures
        start <= trim_ws_end(s, start, e) <= e,
    decreases e - start,
{
    if e > start && is_space(s[e - 1]) {
        lemma_trim_ws_end_bounds(s, start, e - 1);
    }
}

/// `name_end` stays inside the bounds.
pub proof fn lemma_name_end_bounds(s: Seq<u8>, pos: int)
    requires
        0 <= pos <= s.len(),
    ensures
        pos <= name_end(s, pos) <= s.len(),
    decreases s.len() - pos,
{
    if pos < s.len() && is_name_byte(s[pos]) {
        lemma_name_end_bounds(s, pos + 1);
    }
}

/// `find_byte` stays inside the bounds when it finds anything.
pub proof fn lemma_find_byte_bounds(s: Seq<u8>, pos: int, quote: u8)
    requires
        0 <= pos <= s.len(),
    ensures
        find_byte(s, pos, quote) == -1 || pos <= find_byte(s, pos, quote) < s.len(),
    decreases s.len() - pos,
{
    if pos < s.len() && s[pos] != quote {
        lemma_find_byte_bounds(s, pos + 1, quote);
    }
}

/// What scanning the attribute list of a tag yields: the attributes, the
/// position after the closing `>`, and whether the tag was self-closing.
pub enum SpecAttrScan {
    Attrs(Seq<SpecAttr>, int, bool),
    Bad,
}

/// Scan attributes from `pos` up to the tag's `>` or `/>`: whitespace,
/// then either the closer or one `key="value"` pair, and so on.
pub open spec fn scan_attrs(s: Seq<u8>, pos: int) -> SpecAttrScan
    decreases s.len() - pos,
    when 0 <= pos <= s.len()
    via scan_attrs_decreases
{
    let k = skip_ws(s, pos);
    if k >= s.len() {
        SpecAttrScan::Bad
    } else if s[k] == 0x3e {  // >
        SpecAttrScan::Attrs(Seq::empty(), k + 1, false)
    } else if s[k] == 0x2f {  // /
        if k + 1 < s.len() && s[k + 1] == 0x3e {
            SpecAttrScan::Attrs(Seq::empty(), k + 2, true)
        } else {
            SpecAttrScan::Bad
        }
    } else {
        let ke = name_end(s, k);
        if ke == k || ke + 1 >= s.len() || s[ke] != 0x3d || s[ke + 1] != 0x22 {
            SpecAttrScan::Bad
        } else {
            let q = find_byte(s, ke + 2, 0x22);
            if q == -1 {
                SpecAttrScan::Bad
            } else {
                match scan_attrs(s, q + 1) {
                    SpecAttrScan::Attrs(rest, after, empty) => SpecAttrScan::Attrs(
                        seq![SpecAttr { key: s.subrange(k, ke), value: s.subrange(ke + 2, q) }]
                            + rest,
                        after,
                        empty,
                    ),
                    SpecAttrScan::Bad => SpecAttrScan::Bad,
                }
            }
        }
    }
}

#[via_fn]
proof fn scan_attrs_decreases(s: Seq<u8>, pos: int) {
    lemma_skip_ws_bounds(s, pos);
    let k = skip_ws(s, pos);
    if k < s.len() && s[k] != 0x3e && s[k] != 0x2f {
        lemma_name_end_bounds(s, k);
        let ke = name_end(s, k);
        if !(ke == k || ke + 1 >= s.len() || s[ke] != 0x3d || s[ke + 1] != 0x22) {
            lemma_find_byte_bounds(s, ke + 2, 0x22);
        }
    }
}

/// Scan one event at `pos`: leading whitespace is skipped; text runs end
/// at the next `<` and lose their trailing whitespace.
pub open spec fn scan_event(s: Seq<u8>, pos: int) -> SpecScan {
    let i = skip_ws(s, pos);
    if i >= s.len() {
        SpecScan::Found(SpecEvent::Eof, i)
    } else if s[i] != 0x3c {
        let e = text_end(s, i);
        SpecScan::Found(SpecEvent::Text { body: s.subrange(i, trim_ws_end(s, i, e)) }, e)
    } else if i + 1 >= s.len() {
        SpecScan::Bad
    } else if s[i + 1] == 0x3f {  // ?
        let q = find_byte(s, i + 2, 0x3e);
        if q == -1 || s[q - 1] != 0x3f {
            SpecScan::Bad
        } else {
            SpecScan::Found(SpecEvent::Decl, q + 1)
        }
    } else if s[i + 1] == 0x21 {  // !
        let q = find_byte(s, i + 2, 0x3e);
        if q == -1 {
            SpecScan::Bad
        } else {
            SpecScan::Found(SpecEvent::Other, q + 1)
        }
    } else if s[i + 1] == 0x2f {  // /
        let ne = name_end(s, i + 2);
        if ne == i + 2 || ne >= s.len() || s[ne] != 0x3e {
            SpecScan::Bad
        } else {
            SpecScan::Found(SpecEvent::End { name: s.subrange(i + 2, ne) }, ne + 1)
        }
    } else {
        let ne = name_end(s, i + 1);
        if ne == i + 1 {
            SpecScan::Bad
        } else {
            match scan_attrs(s, ne) {
                SpecAttrScan::Attrs(attrs, after, empty) => {
                    let name = s.subrange(i + 1, ne);
                    if empty {
                        SpecScan::Found(SpecEvent::Empty { name, attrs }, after)
                    } else {
                        SpecScan::Found(SpecEvent::Start { name, attrs }, after)
                    }
                },
                SpecAttrScan::Bad => SpecScan::Bad,
            }
        }
    }
}

/// One attribute of a scanned tag.
pub struct Attribute {
    pub key: Vec<u8>,
    pub value: Vec<u8>,
}

impl View for Attribute {
    type V = SpecAttr;

    open spec fn view(&self) -> SpecAttr {
        SpecAttr { key: self.key@, value: self.value@ }
    }
}

/// A scanned opening or self-closing tag: its name and its attributes.
pub struct ElemTag {
    pub name: Vec<u8>,
    pub attrs: Vec<Attribute>,
}

/// The attribute views of an attribute list.
pub open spec fn attrs_view(attrs: Seq<Attribute>) -> Seq<SpecAttr> {
    attrs.map_values(|a: Attribute| a@)
}

impl ElemTag {
    /// What the tag looks like to the specification.
    pub open spec fn spec_name(&self) -> Seq<u8> {
        self.name@
    }

    /// The attribute views, in scanned order.
    pub open spec fn spec_attrs(&self) -> Seq<SpecAttr> {
        attrs_view(self.attrs@)
    }
}

/// One scanned event.
pub enum Event {
    Decl,
    Start(ElemTag),
    Empty(ElemTag),
    End(Vec<u8>),
    Text(Vec<u8>),
    Other,
    Eof,
}

impl View for Event {
    type V = SpecEvent;

    open spec fn view(&self) -> SpecEvent {
        match self {
            Event::Decl => SpecEvent::Decl,
            Event::Start(t) => SpecEvent::Start { name: t.spec_name(), attrs: t.spec_attrs() },
            Event::Empty(t) => SpecEvent::Empty { name: t.spec_name(), attrs: t.spec_attrs() },
            Event::End(n) => SpecEvent::End { name: n@ },
            Event::Text(b) => SpecEvent::Text { body: b@ },
            Event::Other => SpecEvent::Other,
            Event::Eof => SpecEvent::Eof,
        }
    }
}

/// Advance over whitespace.
pub fn skip_ws_exec(s: &[u8], pos: usize) -> (r: usize)
    requires
        pos <= s@.len(),
    ensures
        r == skip_ws(s@, pos as int),
        pos <= r <= s@.len(),
        r < s@.len() ==> !is_space(s@[r as int]),
{
    let n = s.len();
    let mut i = pos;
    while i < n && crate::codec::byte_is_space(s[i])
        invariant
            pos <= i <= n,
            n == s@.len(),
            skip_ws(s@, pos as int) == skip_ws(s@, i as int),
        decreases n - i,
    {
        i = i + 1;
    }
    i
}

/// Advance to the next `<` or the end.
fn text_end_exec(s: &[u8], pos: usize) -> (r: usize)
    requires
        pos <= s@.len(),
    ensures
        r == text_end(s@, pos as int),
        pos <= r <= s@.len(),
{
    let n = s.len();
    let mut i = pos;
    while i < n && s[i] != 0x3c
        invariant
            pos <= i <= n,
            n == s@.len(),
            text_end(s@, pos as int) == text_end(s@, i as int),
        decreases n - i,
    {
        i = i + 1;
    }
    i
}

/// Cut trailing whitespace back, no further than `start`.
fn trim_ws_end_exec(s: &[u8], start: usize, e: usize) -> (r: usize)
    requires
        start <= e <= s@.len(),
    ensures
        r == trim_ws_end(s@, start as int, e as int),
        start <= r <= e,
{
    let mut j = e;
    while j > start && crate::codec::byte_is_space(s[j - 1])
        invariant
            start <= j <= e <= s@.len(),
            trim_ws_end(s@, start as int, e as int) == trim_ws_end(s@, start as int, j as int),
        decreases j,
    {
        j = j - 1;
    }
    j
}

/// Runtime view of [`is_name_byte`].
fn byte_is_name(b: u8) -> (r: bool)
    ensures
        r == is_name_byte(b),
{
    !crate::codec::byte_is_space(b) && b != 0x3c && b != 0x3e && b != 0x2f && b != 0x3d && b != 0x22
        && b != 0x3f && b != 0x21
}

/// Advance over name bytes.
fn name_end_exec(s: &[u8], pos: usize) -> (r: usize)
    requires
        pos <= s@.len(),
    ensures
        r == name_end(s@, pos as int),
        pos <= r <= s@.len(),
{
    let n = s.len();
    let mut i = pos;
    while i < n && byte_is_name(s[i])
        invariant
            pos <= i <= n,
            n == s@.len(),
            name_end(s@, pos as int) == name_end(s@, i as int),
        decreases n - i,
    {
        i = i + 1;
    }
    i
}

/// Find the next occurrence of `b`, if any.
fn find_byte_exec(s: &[u8], pos: usize, b: u8) -> (r: Option<usize>)
    requires
        pos <= s@.len(),
    ensures
        match r {
            Some(q) => find_byte(s@, pos as int, b) == q && pos <= q < s@.len(),
            None => find_byte(s@, pos as int, b) == -1,
        },
{
    let n = s.len();
    let mut i = pos;
    while i < n && s[i] != b
        invariant
            pos <= i <= n,
            n == s@.len(),
            find_byte(s@, pos as int, b) == find_byte(s@, i as int, b),
        decreases n - i,
    {
        i = i + 1;
    }
    if i < n {
        Some(i)
    } else {
        None
    }
}

/// Copy the bytes between two positions into an owned buffer.
fn copy_range(s: &[u8], start: usize, end: usize) -> (r: Vec<u8>)
    requires
        start <= end <= s@.len(),
    ensures
        r@ == s@.subrange(start as int, end as int),
{
    vstd::slice::slice_to_vec(vstd::slice::slice_subrange(s, start, end))
}

/// Scan the attribute list of a tag, from right after the name to right
/// after the closing `>` or `/>`.
fn read_attrs(s: &[u8], pos: usize) -> (r: Option<(Vec<Attribute>, usize, bool)>)
    requires
        pos <= s@.len(),
    ensures
        match r {
            Some((attrs, after, empty)) => scan_attrs(s@, pos as int) == SpecAttrScan::Attrs(
                attrs_view(attrs@),
                after as int,
                empty,
            ) && after <= s@.len(),
            None => scan_attrs(s@, pos as int) == SpecAttrScan::Bad,
        },
{
    let n = s.len();
    let mut attrs: Vec<Attribute> = Vec::new();
    let mut cur = pos;
    loop
        invariant
            cur <= n,
            n == s@.len(),
            scan_attrs(s@, pos as int) == (match scan_attrs(s@, cur as int) {
                SpecAttrScan::Attrs(rest, after, empty) => SpecAttrScan::Attrs(
                    attrs_view(attrs@) + rest,
                    after,
                    empty,
                ),
                SpecAttrScan::Bad => SpecAttrScan::Bad,
            }),
        decreases n - cur,
    {
        let k = skip_ws_exec(s, cur);
        if k >= n {
            return None;
        }
        if s[k] == 0x3e {
            proof {
                assert(attrs_view(attrs@) + Seq::<SpecAttr>::empty() =~= attrs_view(attrs@));
            }
            return Some((attrs, k + 1, false));
        }
        if s[k] == 0x2f {
            if k + 1 < n && s[k + 1] == 0x3e {
                proof {
                    assert(attrs_view(attrs@) + Seq::<SpecAttr>::empty() =~= attrs_view(attrs@));
                }
                return Some((attrs, k + 2, true));
            }
            return None;
        }
        let ke = name_end_exec(s, k);
        if ke == k || n - ke < 2 || s[ke] != 0x3d || s[ke + 1] != 0x22 {
            return None;
        }
        let q = match find_byte_exec(s, ke + 2, 0x22) {
            Some(q) => q,
            None => {
                return None;
            },
        };
        let key = copy_range(s, k, ke);
        let value = copy_range(s, ke + 2, q);
        let ghost prev = attrs_view(attrs@);
        let ghost a = SpecAttr { key: s@.subrange(k as int, ke as int), value: s@.subrange(
            ke + 2,
            q as int,
        ) };
        attrs.push(Attribute { key, value });
        proof {
            assert(attrs_view(attrs@) =~= prev.push(a));
            assert forall|rest: Seq<SpecAttr>| true implies prev.push(a) + rest =~= prev + (seq![a]
                + rest) by {}
        }
        cur = q + 1;
    }
}

/// Scan one event at `pos`; `None` when the markup is malformed. The
/// result and the position after it are exactly what [`scan_event`] says.
pub fn read_event(s: &[u8], pos: usize) -> (r: Option<(Event, usize)>)
    requires
        pos <= s@.len(),
    ensures
        match r {
            Some((ev, next)) => scan_event(s@, pos as int) == SpecScan::Found(ev@, next as int)
                && next <= s@.len(),
            None => scan_event(s@, pos as int) == SpecScan::Bad,
        },
{
    let n = s.len();
    let i = skip_ws_exec(s, pos);
    if i >= n {
        return Some((Event::Eof, i));
    }
    if s[i] != 0x3c {
        let e = text_end_exec(s, i);
        let t = trim_ws_end_exec(s, i, e);
        let body = copy_range(s, i, t);
        return Some((Event::Text(body), e));
    }
    if i + 1 >= n {
        return None;
    }
    if s[i + 1] == 0x3f {
        let q = match find_byte_exec(s, i + 2, 0x3e) {
            Some(q) => q,
            None => {
                return None;
            },
        };
        if s[q - 1] != 0x3f {
            return None;
        }
        return Some((Event::Decl, q + 1));
    }
    if s[i + 1] == 0x21 {
        let q = match find_byte_exec(s, i + 2, 0x3e) {
            Some(q) => q,
            None => {
                return None;
            },
        };
        return Some((Event::Other, q + 1));
    }
    if s[i + 1] == 0x2f {
        let ne = name_end_exec(s, i + 2);
        if ne == i + 2 || ne >= n || s[ne] != 0x3e {
            return None;
        }
        let name = copy_range(s, i + 2, ne);
        return Some((Event::End(name), ne + 1));
    }
    let ne = name_end_exec(s, i + 1);
    if ne == i + 1 {
        return None;
    }
    match read_attrs(s, ne) {
        Some((attrs, after, empty)) => {
            let name = copy_range(s, i + 1, ne);
            let tag = ElemTag { name, attrs };
            if empty {
                Some((Event::Empty(tag), after))
            } else {
                Some((Event::Start(tag), after))
            }
        },
        None => None,
    }
}

/// The rendering of one attribute: a leading space, then `key="value"`.
pub open spec fn render_attr(a: SpecAttr) -> Seq<u8> {
    seq![0x20u8] + a.key + seq![0x3du8, 0x22u8] + a.value + seq![0x22u8]
}

/// The rendering of an attribute list, in order.
pub open spec fn render_attrs(attrs: Seq<SpecAttr>) -> Seq<u8>
    decreases attrs.len(),
{
    if attrs.len() == 0 {
        Seq::empty()
    } else {
        render_attr(attrs.first()) + render_attrs(attrs.drop_first())
    }
}

/// Appending one attribute extends the rendering at its end.
pub proof fn lemma_render_attrs_snoc(attrs: Seq<SpecAttr>, a: SpecAttr)
    ensures
        render_attrs(attrs.push(a)) == render_attrs(attrs) + render_attr(a),
    decreases attrs.len(),
{
    if attrs.len() == 0 {
        assert(attrs.push(a).drop_first() =~= Seq::<SpecAttr>::empty());
        assert(attrs.push(a).first() == a);
        assert(render_attrs(Seq::<SpecAttr>::empty()) =~= Seq::<u8>::empty());
        assert(render_attrs(attrs.push(a)) == render_attr(a) + render_attrs(
            Seq::<SpecAttr>::empty(),
        ));
        assert(render_attr(a) + Seq::<u8>::empty() =~= render_attr(a));
        assert(Seq::<u8>::empty() + render_attr(a) =~= render_attr(a));
    } else {
        lemma_render_attrs_snoc(attrs.drop_first(), a);
        assert(attrs.push(a).drop_first() =~= attrs.drop_first().push(a));
        assert(attrs.push(a).first() == attrs.first());
        assert(render_attr(attrs.first()) + (render_attrs(attrs.drop_first()) + render_attr(a))
            =~= (render_attr(attrs.first()) + render_attrs(attrs.drop_first())) + render_attr(a));
        assert(render_attrs(attrs.push(a)) == render_attr(attrs.push(a).first()) + render_attrs(
            attrs.push(a).drop_first(),
        ));
        assert(render_attrs(attrs) == render_attr(attrs.first()) + render_attrs(
            attrs.drop_first(),
        ));
    }
}

/// The rendering of an opening tag.
pub open spec fn render_start(name: Seq<u8>, attrs: Seq<SpecAttr>) -> Seq<u8> {
    seq![0x3cu8] + name + render_attrs(attrs) + seq![0x3eu8]
}

/// The rendering of a self-closing tag.
pub open spec fn render_empty(name: Seq<u8>, attrs: Seq<SpecAttr>) -> Seq<u8> {
    seq![0x3cu8] + name + render_attrs(attrs) + seq![0x2fu8, 0x3eu8]
}

/// The rendering of a closing tag.
pub open spec fn render_end(name: Seq<u8>) -> Seq<u8> {
    seq![0x3cu8, 0x2fu8] + name + seq![0x3eu8]
}

/// The document declaration the writer emits.
pub open spec fn render_decl() -> Seq<u8> {
    "<?xml version=\"1.0\" encoding=\"UTF-8\"?>".spec_bytes()
}

/// A tag under construction: its name has been written, some attributes
/// may have been, and its closer has not.
pub struct TagWriter {
    /// The name the tag was opened with.
    pub name: Ghost<Seq<u8>>,
    /// The attributes written so far.
    pub attrs: Ghost<Seq<SpecAttr>>,
    /// The buffer contents from before the tag was opened.
    pub base: Ghost<Seq<u8>>,
}

impl TagWriter {
    /// What the buffer holds while this tag is under construction.
    pub open spec fn partial(&self) -> Seq<u8> {
        self.base@ + seq![0x3cu8] + self.name@ + render_attrs(self.attrs@)
    }

    /// Open a tag: write `<name`.
    pub fn open(out: &mut Vec<u8>, name: &str) -> (w: TagWriter)
        ensures
            w.name@ == name.spec_bytes(),
            w.attrs@ == Seq::<SpecAttr>::empty(),
            w.base@ == old(out)@,
            final(out)@ == w.partial(),
    {
        let ghost base = out@;
        out.push(0x3c);
        crate::bytebuf::push_str_bytes(out, name);
        let w = TagWriter {
            name: Ghost(name.spec_bytes()),
            attrs: Ghost(Seq::empty()),
            base: Ghost(base),
        };
        proof {
            assert(render_attrs(Seq::<SpecAttr>::empty()) =~= Seq::<u8>::empty());
            assert(out@ =~= w.partial());
        }
        w
    }

    /// Write one ` key="value"` attribute.
    pub fn attr(self, out: &mut Vec<u8>, key: &str, value: &[u8]) -> (w: TagWriter)
        requires
            old(out)@ == self.partial(),
        ensures
            w.name@ == self.name@,
            w.base@ == self.base@,
            w.attrs@ == self.attrs@.push(SpecAttr { key: key.spec_bytes(), value: value@ }),
            final(out)@ == w.partial(),
    {
        out.push(0x20);
        crate::bytebuf::push_str_bytes(out, key);
        out.push(0x3d);
        out.push(0x22);
        crate::bytebuf::push_bytes(out, value);
        out.push(0x22);
        let ghost a = SpecAttr { key: key.spec_bytes(), value: value@ };
        let w = TagWriter { name: self.name, attrs: Ghost(self.attrs@.push(a)), base: self.base };
        proof {
            lemma_render_attrs_snoc(self.attrs@, a);
            assert(out@ =~= w.partial());
        }
        w
    }

    /// Close the tag with `>`.
    pub fn finish(self, out: &mut Vec<u8>)
        requires
            old(out)@ == self.partial(),
        ensures
            final(out)@ == self.base@ + render_start(self.name@, self.attrs@),
    {
        out.push(0x3e);
        proof {
            assert(out@ =~= self.base@ + render_start(self.name@, self.attrs@));
        }
    }

    /// Close the tag with `/>`.
    pub fn finish_empty(self, out: &mut Vec<u8>)
        requires
            old(out)@ == self.partial(),
        ensures
            final(out)@ == self.base@ + render_empty(self.name@, self.attrs@),
    {
        out.push(0x2f);
        out.push(0x3e);
        proof {
            assert(out@ =~= self.base@ + render_empty(self.name@, self.attrs@));
        }
    }
}

/// Write a closing tag.
pub fn push_end_tag(out: &mut Vec<u8>, name: &str)
    ensures
        final(out)@ == old(out)@ + render_end(name.spec_bytes()),
{
    out.push(0x3c);
    out.push(0x2f);
    crate::bytebuf::push_str_bytes(out, name);
    out.push(0x3e);
    proof {
        assert(out@ =~= old(out)@ + render_end(name.spec_bytes()));
    }
}

/// Write the document declaration.
pub fn push_decl(out: &mut Vec<u8>)
    ensures
        final(out)@ == old(out)@ + render_decl(),
{
    crate::bytebuf::push_str_bytes(out, "<?xml version=\"1.0\" encoding=\"UTF-8\"?>");
}

/// The first value bound to `key` in an attribute list, if any.
pub open spec fn find_attr(attrs: Seq<SpecAttr>, key: Seq<u8>) -> Option<Seq<u8>>
    decreases attrs.len(),
{
    if attrs.len() == 0 {
        None
    } else if attrs.first().key == key {
        Some(attrs.first().value)
    } else {
        find_attr(attrs.drop_first(), key)
    }
}

impl ElemTag {
    /// Look up an attribute by key, handing back a copy of its value.
    pub fn get_attribute_value(&self, key: &str) -> (r: Option<Vec<u8>>)
        ensures
            match r {
                Some(v) => find_attr(self.spec_attrs(), key.spec_bytes()) == Some(v@),
                None => find_attr(self.spec_attrs(), key.spec_bytes()) is None,
            },
    {
        let n = self.attrs.len();
        let mut i: usize = 0;
        proof {
            assert(attrs_view(self.attrs@).skip(0) =~= attrs_view(self.attrs@));
        }
        while i < n
            invariant
                0 <= i <= n,
                n == self.attrs@.len(),
                find_attr(self.spec_attrs(), key.spec_bytes()) == find_attr(
                    attrs_view(self.attrs@).skip(i as int),
                    key.spec_bytes(),
                ),
            decreases n - i,
        {
            proof {
                let av = attrs_view(self.attrs@);
                assert(av.skip(i as int).first() == av[i as int]);
                assert(av.skip(i as int).drop_first() =~= av.skip(i + 1));
            }
            if crate::bytebuf::bytes_eq_str(self.attrs[i].key.as_slice(), key) {
                let v = vstd::slice::slice_to_vec(self.attrs[i].value.as_slice());
                return Some(v);
            }
            i = i + 1;
        }
        proof {
            assert(attrs_view(self.attrs@).skip(n as int) =~= Seq::<SpecAttr>::empty());
        }
        None
    }
}

/// Every event but the end of input moves the scan position strictly
/// forward, and never out of bounds.
pub proof fn lemma_scan_advances(s: Seq<u8>, pos: int)
    requires
        0 <= pos <= s.len(),
    ensures
        scan_event(s, pos) matches SpecScan::Found(ev, q) ==> pos <= q <= s.len() && (!(ev
            is Eof) ==> q > pos),
{
    lemma_skip_ws_bounds(s, pos);
    let i = skip_ws(s, pos);
    if i < s.len() {
        if s[i] != 0x3c {
            lemma_text_end_bounds(s, i);
            assert(text_end(s, i) == text_end(s, i + 1) || text_end(s, i) == i + 1);
            lemma_text_end_bounds(s, i + 1);
        } else if i + 1 < s.len() {
            if s[i + 1] == 0x3f || s[i + 1] == 0x21 {
                lemma_find_byte_bounds(s, i + 2, 0x3e);
            } else if s[i + 1] == 0x2f {
                lemma_name_end_bounds(s, i + 2);
            } else {
                lemma_name_end_bounds(s, i + 1);
                let ne = name_end(s, i + 1);
                if ne != i + 1 {
                    lemma_scan_attrs_advances(s, ne);
                }
            }
        }
    }
}

/// Attribute scanning ends inside the input, past its starting point.
pub proof fn lemma_scan_attrs_advances(s: Seq<u8>, pos: int)
    requires
        0 <= pos <= s.len(),
    ensures
        scan_attrs(s, pos) matches SpecAttrScan::Attrs(a, q, e) ==> pos < q <= s.len(),
    decreases s.len() - pos,
{
    lemma_skip_ws_bounds(s, pos);
    let k = skip_ws(s, pos);
    if k < s.len() && s[k] != 0x3e && s[k] != 0x2f {
        lemma_name_end_bounds(s, k);
        let ke = name_end(s, k);
        if !(ke == k || ke + 1 >= s.len() || s[ke] != 0x3d || s[ke + 1] != 0x22) {
            lemma_find_byte_bounds(s, ke + 2, 0x22);
            let q = find_byte(s, ke + 2, 0x22);
            if q != -1 {
                lemma_scan_attrs_advances(s, q + 1);
            }
        }
    }
}


/// A name the scanner can read back: nonempty, nothing but name bytes.
pub open spec fn wf_name(n: Seq<u8>) -> bool {
    n.len() > 0 && forall|i: int| 0 <= i < n.len() ==> is_name_byte(#[trigger] n[i])
}

/// An attribute the scanner can read back: a well-formed key and a value
/// free of the quote that closes it.
pub open spec fn wf_attr(a: SpecAttr) -> bool {
    wf_name(a.key) && forall|i: int| 0 <= i < a.value.len() ==> (#[trigger] a.value[i]) != 0x22
}

/// Every attribute is scannable.
pub open spec fn wf_attrs(attrs: Seq<SpecAttr>) -> bool {
    forall|i: int| 0 <= i < attrs.len() ==> wf_attr(#[trigger] attrs[i])
}

/// Over a run of name bytes ending at a non-name byte or the end,
/// `name_end` lands exactly on that boundary.
proof fn lemma_name_end_run(s: Seq<u8>, i: int, e: int)
    requires
        0 <= i <= e <= s.len(),
        forall|j: int| i <= j < e ==> is_name_byte(#[trigger] s[j]),
        e == s.len() || !is_name_byte(s[e]),
    ensures
        name_end(s, i) == e,
    decreases e - i,
{
    if i < e {
        lemma_name_end_run(s, i + 1, e);
    }
}

/// Over a run free of the sought byte that ends at an occurrence,
/// `find_byte` lands exactly on that occurrence.
proof fn lemma_find_byte_run(s: Seq<u8>, i: int, e: int, b: u8)
    requires
        0 <= i <= e < s.len(),
        forall|j: int| i <= j < e ==> (#[trigger] s[j]) != b,
        s[e] == b,
    ensures
        find_byte(s, i, b) == e,
    decreases e - i,
{
    if i < e {
        lemma_find_byte_run(s, i + 1, e, b);
    }
}

/// One byte of a region equality, read off at its absolute position.
proof fn lemma_region_byte(s: Seq<u8>, pos: int, region: Seq<u8>, j: int)
    requires
        0 <= pos,
        pos + region.len() <= s.len(),
        s.subrange(pos, pos + region.len()) == region,
        0 <= j < region.len(),
    ensures
        s[pos + j] == region[j],
{
    assert(s.subrange(pos, pos + region.len())[j] == s[pos + j]);
}

/// Rendered attribute lists have no surprises for the renderer: their
/// length grows by each attribute's rendering.
proof fn lemma_render_attrs_len(attrs: Seq<SpecAttr>)
    ensures
        attrs.len() == 0 ==> render_attrs(attrs).len() == 0,
        attrs.len() > 0 ==> render_attrs(attrs) == render_attr(attrs.first()) + render_attrs(
            attrs.drop_first(),
        ),
{
}

/// What the attribute renderer emits, the attribute scanner scans back:
/// scanning at the start of the rendered attributes, with the tag's `>`
/// right after them, yields exactly those attributes and stops right
/// after the `>`.
pub proof fn lemma_scan_render_attrs(s: Seq<u8>, pos: int, attrs: Seq<SpecAttr>)
    requires
        wf_attrs(attrs),
        0 <= pos,
        pos + render_attrs(attrs).len() < s.len(),
        s.subrange(pos, pos + render_attrs(attrs).len()) == render_attrs(attrs),
        s[pos + render_attrs(attrs).len()] == 0x3e,
    ensures
        scan_attrs(s, pos) == SpecAttrScan::Attrs(attrs, pos + render_attrs(attrs).len() + 1, false),
    decreases attrs.len(),
{
    let whole = render_attrs(attrs);
    if attrs.len() == 0 {
        assert(whole.len() == 0);
        assert(s[pos] == 0x3e) by {
            assert(s.subrange(pos, pos + whole.len()) == whole);
        }
        assert(!is_space(s[pos]));
        assert(skip_ws(s, pos) == pos);
        assert(attrs =~= Seq::<SpecAttr>::empty());
    } else {
        let a0 = attrs.first();
        let rest = attrs.drop_first();
        assert(wf_attr(attrs[0]));
        let ra = render_attr(a0);
        let rr = render_attrs(rest);
        lemma_render_attrs_len(attrs);
        assert(whole == ra + rr);
        let kl = a0.key.len() as int;
        let vl = a0.value.len() as int;
        assert(ra.len() == kl + vl + 4);
        let k = pos + 1;
        let ke = k + kl;
        let q = ke + 2 + vl;
        // every byte of the region is pinned by the rendering
        assert(s[pos] == 0x20) by {
            lemma_region_byte(s, pos, whole, 0);
            assert(whole[0] == ra[0]);
        }
        assert forall|j: int| 0 <= j < kl implies #[trigger] s[k + j] == a0.key[j] by {
            lemma_region_byte(s, pos, whole, 1 + j);
            assert(whole[1 + j] == ra[1 + j]);
            assert(ra[1 + j] == a0.key[j]);
        }
        assert(s[ke] == 0x3d) by {
            lemma_region_byte(s, pos, whole, 1 + kl);
            assert(whole[1 + kl] == ra[1 + kl]);
        }
        assert(s[ke + 1] == 0x22) by {
            lemma_region_byte(s, pos, whole, 2 + kl);
            assert(whole[2 + kl] == ra[2 + kl]);
        }
        assert forall|j: int| 0 <= j < vl implies #[trigger] s[ke + 2 + j] == a0.value[j] by {
            lemma_region_byte(s, pos, whole, 3 + kl + j);
            assert(whole[3 + kl + j] == ra[3 + kl + j]);
            assert(ra[3 + kl + j] == a0.value[j]);
        }
        assert(s[q] == 0x22) by {
            lemma_region_byte(s, pos, whole, 3 + kl + vl);
            assert(whole[3 + kl + vl] == ra[3 + kl + vl]);
        }
        // the first key byte follows one space
        assert(is_name_byte(s[k])) by {
            lemma_region_byte(s, pos, whole, 1);
            assert(whole[1] == ra[1]);
            assert(ra[1] == a0.key[0]);
        }
        assert(skip_ws(s, pos) == k) by {
            assert(!is_space(s[k]));
            assert(is_space(s[pos]));
            assert(skip_ws(s, pos) == skip_ws(s, pos + 1));
        }
        assert(s[k] != 0x3e && s[k] != 0x2f);
        assert(name_end(s, k) == ke) by {
            assert forall|j: int| k <= j < ke implies is_name_byte(#[trigger] s[j]) by {
                lemma_region_byte(s, pos, whole, j - pos);
                assert(whole[j - pos] == ra[j - pos]);
                assert(ra[j - pos] == a0.key[j - pos - 1]);
            }
            assert(ke == s.len() || !is_name_byte(s[ke]));
            lemma_name_end_run(s, k, ke);
        }
        assert(find_byte(s, ke + 2, 0x22) == q) by {
            assert forall|j: int| ke + 2 <= j < q implies (#[trigger] s[j]) != 0x22 by {
                lemma_region_byte(s, pos, whole, j - pos);
                assert(whole[j - pos] == ra[j - pos]);
                assert(ra[j - pos] == a0.value[j - ke - 2]);
                assert(wf_attr(a0));
            }
            lemma_find_byte_run(s, ke + 2, q, 0x22);
        }
        assert(s.subrange(k, ke) =~= a0.key) by {
            assert forall|j: int| 0 <= j < kl implies s.subrange(k, ke)[j] == a0.key[j] by {
                lemma_region_byte(s, pos, whole, 1 + j);
                assert(whole[1 + j] == ra[1 + j]);
                assert(ra[1 + j] == a0.key[j]);
                assert(s.subrange(k, ke)[j] == s[k + j]);
            }
        }
        assert(s.subrange(ke + 2, q) =~= a0.value) by {
            assert forall|j: int| 0 <= j < vl implies s.subrange(ke + 2, q)[j] == a0.value[j] by {
                lemma_region_byte(s, pos, whole, 3 + kl + j);
                assert(whole[3 + kl + j] == ra[3 + kl + j]);
                assert(ra[3 + kl + j] == a0.value[j]);
                assert(s.subrange(ke + 2, q)[j] == s[ke + 2 + j]);
            }
        }
        assert(s.subrange(q + 1, q + 1 + rr.len()) =~= rr) by {
            assert forall|j: int| 0 <= j < rr.len() implies s.subrange(q + 1, q + 1 + rr.len())[j]
                == rr[j] by {
                lemma_region_byte(s, pos, whole, ra.len() + j);
                assert(whole[ra.len() + j] == rr[j]);
                assert(s.subrange(q + 1, q + 1 + rr.len())[j] == s[q + 1 + j]);
            }
        }
        assert(wf_attrs(rest)) by {
            assert(forall|i: int| 0 <= i < rest.len() ==> wf_attr(#[trigger] attrs[i + 1]));
        }
        lemma_scan_render_attrs(s, q + 1, rest);
        assert(scan_attrs(s, q + 1) == SpecAttrScan::Attrs(rest, pos + whole.len() + 1, false));
        assert(seq![SpecAttr { key: s.subrange(k, ke), value: s.subrange(ke + 2, q) }] + rest
            =~= attrs);
        assert(skip_ws(s, pos) < s.len());
        assert(ke != k);
        assert(ke + 1 < s.len());
        assert(q != -1);
        assert(scan_attrs(s, pos) == SpecAttrScan::Attrs(
            seq![SpecAttr { key: s.subrange(k, ke), value: s.subrange(ke + 2, q) }] + rest,
            pos + whole.len() + 1,
            false,
        ));
    }
}

/// What the tag renderer emits, the scanner scans back: scanning at the
/// start of a rendered opening tag yields exactly that tag's name and
/// attributes and stops right after its `>`.
pub proof fn lemma_scan_render_start(s: Seq<u8>, pos: int, name: Seq<u8>, attrs: Seq<SpecAttr>)
    requires
        wf_name(name),
        wf_attrs(attrs),
        0 <= pos,
        pos + render_start(name, attrs).len() <= s.len(),
        s.subrange(pos, pos + render_start(name, attrs).len()) == render_start(name, attrs),
    ensures
        scan_event(s, pos) == SpecScan::Found(
            SpecEvent::Start { name, attrs },
            pos + render_start(name, attrs).len(),
        ),
{
    let whole = render_start(name, attrs);
    let nl = name.len() as int;
    let ra = render_attrs(attrs);
    assert(whole.len() == 1 + nl + ra.len() + 1);
    assert(s[pos] == 0x3c) by {
        lemma_region_byte(s, pos, whole, 0);
    }
    assert forall|j: int| 0 <= j < nl implies #[trigger] s[pos + 1 + j] == name[j] by {
        lemma_region_byte(s, pos, whole, 1 + j);
        assert(whole[1 + j] == name[j]);
    }
    assert(!is_space(s[pos]));
    assert(skip_ws(s, pos) == pos);
    assert(is_name_byte(s[pos + 1])) by {
        lemma_region_byte(s, pos, whole, 1);
        assert(whole[1] == name[0]);
    }
    let ne = pos + 1 + nl;
    assert(name_end(s, pos + 1) == ne) by {
        assert forall|j: int| pos + 1 <= j < ne implies is_name_byte(#[trigger] s[j]) by {
            assert(s[j] == s[pos + 1 + (j - pos - 1)]);
            assert(s[pos + 1 + (j - pos - 1)] == name[j - pos - 1]);
        }
        if ra.len() == 0 {
            assert(s[ne] == 0x3e) by {
                lemma_region_byte(s, pos, whole, 1 + nl);
                assert(whole[1 + nl] == 0x3e);
            }
        } else {
            lemma_render_attrs_len(attrs);
            assert(s[ne] == 0x20) by {
                lemma_region_byte(s, pos, whole, 1 + nl);
                assert(whole[1 + nl] == ra[0]);
                assert(ra[0] == render_attr(attrs.first())[0]);
            }
        }
        lemma_name_end_run(s, pos + 1, ne);
    }
    assert(ne != pos + 1);
    assert(s.subrange(ne, ne + ra.len()) =~= ra) by {
        assert forall|j: int| 0 <= j < ra.len() implies s.subrange(ne, ne + ra.len())[j]
            == ra[j] by {
            lemma_region_byte(s, pos, whole, 1 + nl + j);
            assert(whole[1 + nl + j] == ra[j]);
            assert(s.subrange(ne, ne + ra.len())[j] == s[ne + j]);
        }
    }
    assert(s[pos + whole.len() - 1] == 0x3e) by {
        lemma_region_byte(s, pos, whole, whole.len() - 1);
        assert(whole[whole.len() - 1] == 0x3e);
    }
    lemma_scan_render_attrs(s, ne, attrs);
    assert(s.subrange(pos + 1, ne) =~= name) by {
        assert forall|j: int| 0 <= j < nl implies s.subrange(pos + 1, ne)[j] == name[j] by {
            lemma_region_byte(s, pos, whole, 1 + j);
            assert(whole[1 + j] == name[j]);
            assert(s.subrange(pos + 1, ne)[j] == s[pos + 1 + j]);
        }
    }
}

/// What the closing-tag renderer emits, the scanner scans back.
pub proof fn lemma_scan_render_end(s: Seq<u8>, pos: int, name: Seq<u8>)
    requires
        wf_name(name),
        0 <= pos,
        pos + render_end(name).len() <= s.len(),
        s.subrange(pos, pos + render_end(name).len()) == render_end(name),
    ensures
        scan_event(s, pos) == SpecScan::Found(
            SpecEvent::End { name },
            pos + render_end(name).len(),
        ),
{
    let whole = render_end(name);
    let nl = name.len() as int;
    assert(whole.len() == nl + 3);
    assert(s[pos] == 0x3c) by {
        lemma_region_byte(s, pos, whole, 0);
    }
    assert(s[pos + 1] == 0x2f) by {
        lemma_region_byte(s, pos, whole, 1);
    }
    assert forall|j: int| 0 <= j < nl implies #[trigger] s[pos + 2 + j] == name[j] by {
        lemma_region_byte(s, pos, whole, 2 + j);
        assert(whole[2 + j] == name[j]);
    }
    assert(s[pos + 2 + nl] == 0x3e) by {
        lemma_region_byte(s, pos, whole, 2 + nl);
        assert(whole[2 + nl] == 0x3e);
    }
    assert(!is_space(s[pos]));
    assert(skip_ws(s, pos) == pos);
    let ne = pos + 2 + nl;
    assert(name_end(s, pos + 2) == ne) by {
        assert forall|j: int| pos + 2 <= j < ne implies is_name_byte(#[trigger] s[j]) by {
            assert(s[j] == s[pos + 2 + (j - pos - 2)]);
            assert(s[pos + 2 + (j - pos - 2)] == name[j - pos - 2]);
        }
        lemma_name_end_run(s, pos + 2, ne);
    }
    assert(ne != pos + 2);
    assert(s.subrange(pos + 2, ne) =~= name) by {
        assert forall|j: int| 0 <= j < nl implies s.subrange(pos + 2, ne)[j] == name[j] by {
            lemma_region_byte(s, pos, whole, 2 + j);
            assert(whole[2 + j] == name[j]);
            assert(s.subrange(pos + 2, ne)[j] == s[pos + 2 + j]);
        }
    }
}


/// Over a run of non-`<` bytes ending at a `<`, `text_end` lands exactly
/// on that boundary.
proof fn lemma_text_end_run(s: Seq<u8>, i: int, e: int)
    requires
        0 <= i <= e <= s.len(),
        forall|j: int| i <= j < e ==> (#[trigger] s[j]) != 0x3c,
        e == s.len() || s[e] == 0x3c,
    ensures
        text_end(s, i) == e,
    decreases e - i,
{
    if i < e {
        lemma_text_end_run(s, i + 1, e);
    }
}

/// What the payload writers emit, the scanner scans back as one text run:
/// scanning at the start of a markup-free, whitespace-trimmed payload
/// followed by a tag yields exactly that payload and stops at the tag.
pub proof fn lemma_scan_text_run(s: Seq<u8>, pos: int, body: Seq<u8>)
    requires
        0 <= pos,
        body.len() > 0,
        !is_space(body[0]),
        !is_space(body.last()),
        forall|i: int| 0 <= i < body.len() ==> (#[trigger] body[i]) != 0x3c,
        pos + body.len() < s.len(),
        s.subrange(pos, pos + body.len()) == body,
        s[pos + body.len()] == 0x3c,
    ensures
        scan_event(s, pos) == SpecScan::Found(SpecEvent::Text { body }, pos + body.len()),
{
    let e = pos + body.len();
    assert(s[pos] == body[0]) by {
        lemma_region_byte(s, pos, body, 0);
    }
    assert(!is_space(s[pos]));
    assert(skip_ws(s, pos) == pos);
    assert(s[pos] != 0x3c);
    assert(text_end(s, pos) == e) by {
        assert forall|j: int| pos <= j < e implies (#[trigger] s[j]) != 0x3c by {
            lemma_region_byte(s, pos, body, j - pos);
        }
        lemma_text_end_run(s, pos, e);
    }
    assert(s[e - 1] == body.last()) by {
        lemma_region_byte(s, pos, body, body.len() - 1);
    }
    assert(trim_ws_end(s, pos, e) == e);
    assert(s.subrange(pos, e) =~= body);
}


/// What the declaration writer emits, the scanner scans back.
pub proof fn lemma_scan_render_decl(s: Seq<u8>, pos: int)
    requires
        0 <= pos,
        pos + render_decl().len() <= s.len(),
        s.subrange(pos, pos + render_decl().len()) == render_decl(),
    ensures
        scan_event(s, pos) == SpecScan::Found(SpecEvent::Decl, pos + render_decl().len()),
{
    broadcast use vstd::string::is_ascii_spec_bytes;

    reveal_strlit("<?xml version=\"1.0\" encoding=\"UTF-8\"?>");
    assert(is_ascii("<?xml version=\"1.0\" encoding=\"UTF-8\"?>"));
    let whole = render_decl();
    assert(whole.len() == 38);
    let e = pos + 37;
    assert(s[pos] == 0x3c) by {
        lemma_region_byte(s, pos, whole, 0);
    }
    assert(s[pos + 1] == 0x3f) by {
        lemma_region_byte(s, pos, whole, 1);
    }
    assert(s[e] == 0x3e) by {
        lemma_region_byte(s, pos, whole, 37);
    }
    assert(s[e - 1] == 0x3f) by {
        lemma_region_byte(s, pos, whole, 36);
    }
    assert(!is_space(s[pos]));
    assert(skip_ws(s, pos) == pos);
    assert(find_byte(s, pos + 2, 0x3e) == e) by {
        assert forall|j: int| pos + 2 <= j < e implies (#[trigger] s[j]) != 0x3e by {
            lemma_region_byte(s, pos, whole, j - pos);
        }
        lemma_find_byte_run(s, pos + 2, e, 0x3e);
    }
}

} // verus!
