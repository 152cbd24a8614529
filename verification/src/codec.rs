//! The array payload codec: raw little-endian bytes, Base64 text, and
//! ASCII token runs, with the byte-exact quirks the consuming
//! visualization tool requires.

use vstd::prelude::*;
use vstd::string::StringSliceAdditionalSpecFns;
use vstd::string::is_ascii;
use crate::precision::Precision;

verus! {

/// The little-endian bytes of a run of elements, in order.
pub open spec fn concat_le(p: Precision, elems: Seq<u64>) -> Seq<u8>
    decreases elems.len(),
{
    if elems.len() == 0 {
        Seq::empty()
    } else {
        p.spec_le_bytes(elems.first()) + concat_le(p, elems.drop_first())
    }
}

/// Appending one element extends the byte run at its end.
pub proof fn lemma_concat_le_snoc(p: Precision, elems: Seq<u64>, x: u64)
    ensures
        concat_le(p, elems.push(x)) =~= concat_le(p, elems) + p.spec_le_bytes(x),
    decreases elems.len(),
{
    if elems.len() == 0 {
        assert(elems.push(x).drop_first() =~= Seq::<u64>::empty());
        assert(elems.push(x).first() == x);
        assert(p.spec_le_bytes(x) + Seq::<u8>::empty() =~= p.spec_le_bytes(x));
        assert(concat_le(p, elems) =~= Seq::<u8>::empty());
        assert(Seq::<u8>::empty() + p.spec_le_bytes(x) =~= p.spec_le_bytes(x));
        assert(concat_le(p, elems.push(x)) == p.spec_le_bytes(x) + concat_le(
            p,
            elems.push(x).drop_first(),
        ));
        assert(concat_le(p, elems.push(x)) == concat_le(p, elems) + p.spec_le_bytes(x));
    } else {
        lemma_concat_le_snoc(p, elems.drop_first(), x);
        assert(elems.push(x).drop_first() =~= elems.drop_first().push(x));
        assert(elems.push(x).first() == elems.first());
        assert(p.spec_le_bytes(elems.first()) + (concat_le(p, elems.drop_first())
            + p.spec_le_bytes(x)) =~= (p.spec_le_bytes(elems.first()) + concat_le(
            p,
            elems.drop_first(),
        )) + p.spec_le_bytes(x));
        assert(concat_le(p, elems.push(x)) == p.spec_le_bytes(elems.push(x).first()) + concat_le(
            p,
            elems.push(x).drop_first(),
        ));
        assert(concat_le(p, elems.push(x).drop_first()) == concat_le(
            p,
            elems.drop_first().push(x),
        ));
        assert(concat_le(p, elems) == p.spec_le_bytes(elems.first()) + concat_le(
            p,
            elems.drop_first(),
        ));
        assert(concat_le(p, elems.push(x)) == concat_le(p, elems) + p.spec_le_bytes(x));
    }
}

/// The byte run is element width times element count long.
pub proof fn lemma_concat_le_len(p: Precision, elems: Seq<u64>)
    ensures
        concat_le(p, elems).len() == p.spec_width() * elems.len(),
    decreases elems.len(),
{
    if elems.len() == 0 {
    } else {
        lemma_concat_le_len(p, elems.drop_first());
        p.lemma_le_bytes_len(elems.first());
        assert(p.spec_width() * elems.len() == p.spec_width() + p.spec_width() * (elems.len()
            - 1)) by (nonlinear_arith);
    }
}

/// The elements read from a run of bytes: one per element-width window,
/// any trailing partial window ignored.
pub open spec fn decode_elems(p: Precision, bytes: Seq<u8>) -> Seq<u64>
    decreases bytes.len(),
{
    if bytes.len() < p.spec_width() {
        Seq::empty()
    } else {
        seq![p.spec_from_le_bytes(bytes.subrange(0, p.spec_width()))] + decode_elems(
            p,
            bytes.skip(p.spec_width()),
        )
    }
}

/// Decoding inverts encoding: the elements read back from a byte run are
/// the elements that produced it.
pub proof fn lemma_binary_roundtrip(p: Precision, elems: Seq<u64>)
    requires
        forall|i: int| 0 <= i < elems.len() ==> p.spec_valid_bits(#[trigger] elems[i]),
    ensures
        decode_elems(p, concat_le(p, elems)) =~= elems,
    decreases elems.len(),
{
    if elems.len() == 0 {
    } else {
        let first = elems.first();
        let rest = elems.drop_first();
        assert(p.spec_valid_bits(elems[0]));
        assert(forall|i: int| 0 <= i < rest.len() ==> p.spec_valid_bits(#[trigger] rest[i]));
        p.lemma_le_bytes(first);
        lemma_concat_le_len(p, rest);
        assert(p.spec_width() * rest.len() >= 0) by (nonlinear_arith);
        let bytes = concat_le(p, elems);
        assert(bytes.subrange(0, p.spec_width()) =~= p.spec_le_bytes(first));
        assert(bytes.skip(p.spec_width()) =~= concat_le(p, rest));
        lemma_binary_roundtrip(p, rest);
    }
}

/// A byte run decodes to one element per whole element-width window.
pub proof fn lemma_decode_elems_len(p: Precision, bytes: Seq<u8>)
    ensures
        decode_elems(p, bytes).len() == bytes.len() as int / p.spec_width(),
    decreases bytes.len(),
{
    let w = p.spec_width();
    if bytes.len() < w {
        assert(bytes.len() as int / w == 0) by (nonlinear_arith)
            requires
                w == 4 || w == 8,
                0 <= bytes.len() < w,
        ;
    } else {
        lemma_decode_elems_len(p, bytes.skip(w));
        assert(bytes.skip(w).len() == bytes.len() - w);
        assert(bytes.len() as int / w == 1 + (bytes.len() - w) / w) by (nonlinear_arith)
            requires
                w == 4 || w == 8,
                bytes.len() >= w,
        ;
    }
}

/// The element run actually written to a binary section: when this array
/// closes the section (`is_last`) and its final element is exactly zero,
/// that element is replaced by the near-zero sentinel, working around a
/// defect in the consuming tool on all-zero section tails.
pub open spec fn zero_tail_substituted(p: Precision, elems: Seq<u64>, is_last: bool) -> Seq<u64> {
    if is_last && elems.len() > 0 && p.spec_is_zero(elems.last()) {
        elems.update(elems.len() - 1, p.spec_small())
    } else {
        elems
    }
}

/// The raw payload of one array in the appended section.
pub open spec fn spec_binary_payload(p: Precision, elems: Seq<u64>, is_last: bool) -> Seq<u8> {
    concat_le(p, zero_tail_substituted(p, elems, is_last))
}

/// Zero-tail substitution touches nothing but a zero in the last place,
/// and keeps every pattern representable.
pub proof fn lemma_zero_tail_substituted_wf(p: Precision, elems: Seq<u64>, is_last: bool)
    requires
        forall|i: int| 0 <= i < elems.len() ==> p.spec_valid_bits(#[trigger] elems[i]),
    ensures
        zero_tail_substituted(p, elems, is_last).len() == elems.len(),
        forall|i: int|
            0 <= i < elems.len() ==> p.spec_valid_bits(
                #[trigger] zero_tail_substituted(p, elems, is_last)[i],
            ),
        forall|i: int|
            0 <= i < elems.len() - 1 ==> zero_tail_substituted(p, elems, is_last)[i] == elems[i],
        !(is_last && elems.len() > 0 && p.spec_is_zero(elems.last())) ==> zero_tail_substituted(
            p,
            elems,
            is_last,
        ) == elems,
{
}

/// Reading a written binary payload recovers the written elements, up to
/// the zero-tail substitution.
pub proof fn lemma_binary_payload_roundtrip(p: Precision, elems: Seq<u64>, is_last: bool)
    requires
        forall|i: int| 0 <= i < elems.len() ==> p.spec_valid_bits(#[trigger] elems[i]),
    ensures
        decode_elems(p, spec_binary_payload(p, elems, is_last)) =~= zero_tail_substituted(
            p,
            elems,
            is_last,
        ),
{
    lemma_zero_tail_substituted_wf(p, elems, is_last);
    lemma_binary_roundtrip(p, zero_tail_substituted(p, elems, is_last));
}

/// Append the raw binary payload of `elems` to `out`, substituting the
/// near-zero sentinel for a zero in the last place when `is_last`.
pub fn write_binary_payload(p: Precision, elems: &[u64], is_last: bool, out: &mut Vec<u8>)
    requires
        forall|i: int| 0 <= i < elems@.len() ==> p.spec_valid_bits(#[trigger] elems@[i]),
    ensures
        final(out)@ == old(out)@ + spec_binary_payload(p, elems@, is_last),
{
    proof {
        lemma_zero_tail_substituted_wf(p, elems@, is_last);
    }
    let ghost target = zero_tail_substituted(p, elems@, is_last);
    let n = elems.len();
    let mut i: usize = 0;
    while i < n
        invariant
            0 <= i <= n,
            n == elems@.len(),
            forall|k: int| 0 <= k < elems@.len() ==> p.spec_valid_bits(#[trigger] elems@[k]),
            target == zero_tail_substituted(p, elems@, is_last),
            target.len() == n,
            forall|k: int| 0 <= k < n ==> p.spec_valid_bits(#[trigger] target[k]),
            out@ == old(out)@ + concat_le(p, target.subrange(0, i as int)),
        decreases n - i,
    {
        let e = elems[i];
        let this = if is_last && i == n - 1 && p.is_zero(e) {
            p.small()
        } else {
            e
        };
        proof {
            if is_last && i == n - 1 && p.spec_is_zero(e) {
                assert(target[i as int] == p.spec_small());
            } else {
                assert(target[i as int] == elems@[i as int]);
            }
            assert(this == target[i as int]);
            lemma_concat_le_snoc(p, target.subrange(0, i as int), this);
            assert(target.subrange(0, i as int).push(this) =~= target.subrange(0, i + 1));
        }
        p.push_le_bytes(out, this);
        i = i + 1;
    }
    proof {
        assert(target.subrange(0, n as int) =~= target);
    }
}

/// Read every whole element-width window of `s` between `pos` and `end`.
pub fn read_binary_elems(p: Precision, s: &[u8], pos: usize, end: usize) -> (r: Vec<u64>)
    requires
        pos <= end <= s@.len(),
    ensures
        r@ == decode_elems(p, s@.subrange(pos as int, end as int)),
        forall|i: int| 0 <= i < r@.len() ==> p.spec_valid_bits(#[trigger] r@[i]),
{
    let w = p.width();
    let mut out: Vec<u64> = Vec::new();
    let mut i: usize = pos;
    proof {
        assert(s@.subrange(pos as int, end as int).skip(0) =~= s@.subrange(pos as int, end as int));
    }
    while end - i >= w
        invariant
            pos <= i <= end <= s@.len(),
            w == p.spec_width(),
            decode_elems(p, s@.subrange(pos as int, end as int)) == out@ + decode_elems(
                p,
                s@.subrange(i as int, end as int),
            ),
            forall|k: int| 0 <= k < out@.len() ==> p.spec_valid_bits(#[trigger] out@[k]),
        decreases end - i,
    {
        let e = p.read_le_bytes(s, i);
        proof {
            let cur = s@.subrange(i as int, end as int);
            assert(cur.subrange(0, w as int) =~= s@.subrange(i as int, i + w));
            assert(cur.skip(w as int) =~= s@.subrange(i + w, end as int));
            assert(decode_elems(p, cur) == seq![e] + decode_elems(
                p,
                s@.subrange(i + w, end as int),
            ));
            assert(out@.push(e) + decode_elems(p, s@.subrange(i + w, end as int)) =~= (out@ + seq![
                e,
            ]) + decode_elems(p, s@.subrange(i + w, end as int)));
            assert(out@ + (seq![e] + decode_elems(p, s@.subrange(i + w, end as int))) =~= (out@
                + seq![e]) + decode_elems(p, s@.subrange(i + w, end as int)));
        }
        out.push(e);
        i = i + w;
    }
    proof {
        assert(decode_elems(p, s@.subrange(i as int, end as int)) =~= Seq::<u64>::empty());
        assert(out@ + Seq::<u64>::empty() =~= out@);
    }
    out
}

/// What `base64::encode` returns on a byte run: standard alphabet, padded.
pub uninterp spec fn b64_of(bytes: Seq<u8>) -> Seq<u8>;

/// What `base64::decode` returns: the decoded bytes, or nothing on text it
/// rejects.
pub uninterp spec fn b64_dec_of(text: Seq<u8>) -> Option<Seq<u8>>;

/// A byte of the standard base64 alphabet, or its padding byte.
pub open spec fn is_b64_byte(b: u8) -> bool {
    (0x41 <= b <= 0x5a) || (0x61 <= b <= 0x7a) || (0x30 <= b <= 0x39) || b == 0x2b || b == 0x2f
        || b == 0x3d
}

/// Relies on `base64::encode`: deterministic in its input, four alphabet
/// bytes per three input bytes, padded, and inverted by `base64::decode`,
/// as the crate documents.
#[verifier::external_body]
fn b64_encode(bytes: &[u8]) -> (r: Vec<u8>)
    ensures
        r@ == b64_of(bytes@),
        forall|i: int| 0 <= i < r@.len() ==> is_b64_byte(#[trigger] r@[i]),
        r@.len() == 4 * ((bytes@.len() + 2) / 3),
        b64_dec_of(r@) == Some(bytes@),
{
    base64::encode(bytes).into_bytes()
}

/// Relies on `base64::decode`: deterministic in its input.
#[verifier::external_body]
fn b64_decode(text: &[u8]) -> (r: Option<Vec<u8>>)
    ensures
        r matches Some(v) ==> b64_dec_of(text@) matches Some(w) && v@ == w,
        r is None <==> b64_dec_of(text@) is None,
{
    match base64::decode(text) {
        Ok(v) => Some(v),
        Err(_) => None,
    }
}

/// The eight filler bytes that precede every Base64 element run; the
/// consuming tool skips them after decoding.
pub open spec fn spec_b64_filler() -> Seq<u8> {
    "12345678".spec_bytes()
}

/// The filler run is eight bytes long.
pub proof fn lemma_b64_filler_len()
    ensures
        spec_b64_filler().len() == 8,
{
    broadcast use vstd::string::is_ascii_spec_bytes;

    reveal_strlit("12345678");
    assert(is_ascii("12345678"));
}

/// The Base64 text payload of an element run: eight filler bytes, then the
/// little-endian element bytes, encoded as one run of text.
pub open spec fn spec_base64_payload(p: Precision, elems: Seq<u64>) -> Seq<u8> {
    b64_of(spec_b64_filler() + concat_le(p, elems))
}

/// The element run recovered from a Base64 text payload: decode, skip the
/// eight filler bytes, then read element-width windows.
pub open spec fn spec_base64_elems(p: Precision, text: Seq<u8>) -> Option<Seq<u64>> {
    match b64_dec_of(text) {
        Some(bs) => Some(
            decode_elems(
                p,
                if bs.len() >= 8 {
                    bs.skip(8)
                } else {
                    Seq::empty()
                },
            ),
        ),
        None => None,
    }
}

/// Append the Base64 text payload of `elems` to `out`. The payload decodes
/// back to the filler bytes followed by the little-endian element bytes.
pub fn write_base64_payload(p: Precision, elems: &[u64], out: &mut Vec<u8>)
    requires
        forall|i: int| 0 <= i < elems@.len() ==> p.spec_valid_bits(#[trigger] elems@[i]),
    ensures
        final(out)@ == old(out)@ + spec_base64_payload(p, elems@),
        spec_base64_elems(p, spec_base64_payload(p, elems@)) == Some(elems@),
{
    let mut raw: Vec<u8> = Vec::new();
    crate::bytebuf::push_str_bytes(&mut raw, "12345678");
    write_binary_payload(p, elems, false, &mut raw);
    proof {
        assert(zero_tail_substituted(p, elems@, false) == elems@);
        assert(raw@ == spec_b64_filler() + concat_le(p, elems@));
    }
    let enc = b64_encode(raw.as_slice());
    proof {
        lemma_b64_filler_len();
        lemma_concat_le_len(p, elems@);
        assert(p.spec_width() * elems@.len() >= 0) by (nonlinear_arith);
        assert(raw@.skip(8) =~= concat_le(p, elems@));
        lemma_binary_roundtrip(p, elems@);
    }
    crate::bytebuf::push_bytes(out, enc.as_slice());
}

/// Read the element run held in a Base64 text payload; `None` exactly when
/// the text is not valid Base64. Together with the second clause of
/// [`write_base64_payload`], reading back a written payload recovers the
/// written elements exactly.
pub fn parse_base64_payload(p: Precision, text: &[u8]) -> (r: Option<Vec<u64>>)
    ensures
        match (r, spec_base64_elems(p, text@)) {
            (Some(v), Some(w)) => v@ == w,
            (None, None) => true,
            _ => false,
        },
        r matches Some(v) ==> forall|i: int|
            0 <= i < v@.len() ==> p.spec_valid_bits(#[trigger] v@[i]),
{
    let decoded = match b64_decode(text) {
        Some(v) => v,
        None => {
            return None;
        },
    };
    let n = decoded.len();
    let start: usize = if n >= 8 {
        8
    } else {
        n
    };
    let elems = read_binary_elems(p, decoded.as_slice(), start, n);
    proof {
        if n >= 8 {
            assert(decoded@.subrange(8, n as int) =~= decoded@.skip(8));
        } else {
            assert(decoded@.subrange(n as int, n as int) =~= Seq::<u8>::empty());
            assert(decode_elems(p, Seq::<u8>::empty()) =~= Seq::<u64>::empty());
        }
    }
    Some(elems)
}

/// ASCII whitespace, as the payload tokenizer understands it.
pub open spec fn is_space(b: u8) -> bool {
    b == 0x20 || b == 0x09 || b == 0x0a || b == 0x0d
}

/// Runtime view of [`is_space`].
pub fn byte_is_space(b: u8) -> (r: bool)
    ensures
        r == is_space(b),
{
    b == 0x20 || b == 0x09 || b == 0x0a || b == 0x0d
}

/// A writable ASCII payload token: nonempty, free of whitespace and of the
/// markup opener.
pub open spec fn is_token(t: Seq<u8>) -> bool {
    t.len() > 0 && forall|i: int| 0 <= i < t.len() ==> !is_space(#[trigger] t[i]) && t[i] != 0x3c
}

/// Every entry is a writable token.
pub open spec fn all_tokens(ts: Seq<Seq<u8>>) -> bool {
    forall|i: int| 0 <= i < ts.len() ==> is_token(#[trigger] ts[i])
}

/// The ASCII payload of a token run: each token followed by one space, so
/// the payload ends in one trailing space.
pub open spec fn join_tokens(ts: Seq<Seq<u8>>) -> Seq<u8>
    decreases ts.len(),
{
    if ts.len() == 0 {
        Seq::empty()
    } else {
        ts.first() + seq![0x20u8] + join_tokens(ts.drop_first())
    }
}

/// Appending one token extends the payload at its end.
pub proof fn lemma_join_tokens_snoc(ts: Seq<Seq<u8>>, t: Seq<u8>)
    ensures
        join_tokens(ts.push(t)) == join_tokens(ts) + t + seq![0x20u8],
    decreases ts.len(),
{
    if ts.len() == 0 {
        assert(ts.push(t).drop_first() =~= Seq::<Seq<u8>>::empty());
        assert(ts.push(t).first() == t);
        assert(join_tokens(Seq::<Seq<u8>>::empty()) =~= Seq::<u8>::empty());
        assert(join_tokens(ts.push(t)) == t + seq![0x20u8] + join_tokens(
            Seq::<Seq<u8>>::empty(),
        ));
        assert(join_tokens(ts.push(t)) =~= join_tokens(ts) + t + seq![0x20u8]);
    } else {
        lemma_join_tokens_snoc(ts.drop_first(), t);
        assert(ts.push(t).drop_first() =~= ts.drop_first().push(t));
        assert(ts.push(t).first() == ts.first());
        assert(join_tokens(ts.push(t)) == ts.first() + seq![0x20u8] + (join_tokens(ts.drop_first())
            + t + seq![0x20u8]));
        assert(ts.first() + seq![0x20u8] + (join_tokens(ts.drop_first()) + t + seq![0x20u8]) =~= (
        ts.first() + seq![0x20u8] + join_tokens(ts.drop_first())) + t + seq![0x20u8]);
    }
}

/// The index of the first whitespace byte at or after `i`, or the end.
pub open spec fn token_end(s: Seq<u8>, i: int) -> int
    decreases s.len() - i,
    when 0 <= i <= s.len()
{
    if i >= s.len() || is_space(s[i]) {
        i
    } else {
        token_end(s, i + 1)
    }
}

/// `token_end` stays inside the sequence and moves forward over a
/// non-whitespace byte.
pub proof fn lemma_token_end_bounds(s: Seq<u8>, i: int)
    requires
        0 <= i <= s.len(),
    ensures
        i <= token_end(s, i) <= s.len(),
        i < s.len() && !is_space(s[i]) ==> token_end(s, i) > i,
    decreases s.len() - i,
{
    if i < s.len() && !is_space(s[i]) {
        lemma_token_end_bounds(s, i + 1);
    }
}

/// Over a run of non-whitespace bytes ending at a whitespace byte or at
/// the end, `token_end` lands exactly on that boundary.
pub proof fn lemma_token_end_run(s: Seq<u8>, i: int, e: int)
    requires
        0 <= i <= e <= s.len(),
        forall|j: int| i <= j < e ==> !is_space(#[trigger] s[j]),
        e == s.len() || is_space(s[e]),
    ensures
        token_end(s, i) == e,
    decreases e - i,
{
    if i < e {
        lemma_token_end_run(s, i + 1, e);
    }
}

/// The tokens of a byte run from position `i` on: maximal runs of
/// non-whitespace bytes.
pub open spec fn split_tokens_from(s: Seq<u8>, i: int) -> Seq<Seq<u8>>
    decreases s.len() - i,
    when 0 <= i <= s.len()
    via split_tokens_from_decreases
{
    if i >= s.len() {
        Seq::empty()
    } else if is_space(s[i]) {
        split_tokens_from(s, i + 1)
    } else {
        seq![s.subrange(i, token_end(s, i))] + split_tokens_from(s, token_end(s, i))
    }
}

#[via_fn]
proof fn split_tokens_from_decreases(s: Seq<u8>, i: int) {
    if 0 <= i <= s.len() && i < s.len() && !is_space(s[i]) {
        lemma_token_end_bounds(s, i);
    }
}

/// The tokens of a whole byte run.
pub open spec fn split_tokens(s: Seq<u8>) -> Seq<Seq<u8>> {
    split_tokens_from(s, 0)
}

/// `token_end` looks only at the bytes after its position, so a prefix can
/// be cut away.
proof fn lemma_token_end_shift(s1: Seq<u8>, s2: Seq<u8>, k: int)
    requires
        0 <= k <= s2.len(),
    ensures
        token_end(s1 + s2, s1.len() + k) == s1.len() + token_end(s2, k),
    decreases s2.len() - k,
{
    let s = s1 + s2;
    if k < s2.len() {
        assert(s[s1.len() + k] == s2[k]);
        if !is_space(s2[k]) {
            lemma_token_end_shift(s1, s2, k + 1);
        }
    }
}

/// Splitting looks only at the bytes after its position, so a prefix can
/// be cut away.
proof fn lemma_split_shift(s1: Seq<u8>, s2: Seq<u8>, k: int)
    requires
        0 <= k <= s2.len(),
    ensures
        split_tokens_from(s1 + s2, s1.len() + k) =~~= split_tokens_from(s2, k),
    decreases s2.len() - k,
{
    let s = s1 + s2;
    if k >= s2.len() {
    } else {
        assert(s[s1.len() + k] == s2[k]);
        if is_space(s2[k]) {
            lemma_split_shift(s1, s2, k + 1);
        } else {
            lemma_token_end_shift(s1, s2, k);
            lemma_token_end_bounds(s2, k);
            assert(s.subrange(s1.len() + k, s1.len() + token_end(s2, k)) =~= s2.subrange(
                k,
                token_end(s2, k),
            ));
            lemma_split_shift(s1, s2, token_end(s2, k));
        }
    }
}

/// Tokenizing a written ASCII payload recovers the written tokens: the
/// join of writable tokens splits back into them.
pub proof fn lemma_join_split_roundtrip(ts: Seq<Seq<u8>>)
    requires
        all_tokens(ts),
    ensures
        split_tokens(join_tokens(ts)) =~~= ts,
    decreases ts.len(),
{
    if ts.len() == 0 {
    } else {
        let t0 = ts.first();
        let rest = ts.drop_first();
        assert(is_token(ts[0]));
        let s = join_tokens(ts);
        let head = t0 + seq![0x20u8];
        assert(s =~= head + join_tokens(rest));
        assert(forall|j: int| 0 <= j < t0.len() ==> !is_space(#[trigger] s[j]));
        assert(is_space(s[t0.len() as int]));
        lemma_token_end_run(s, 0, t0.len() as int);
        assert(!is_space(s[0]));
        assert(split_tokens_from(s, 0) == seq![s.subrange(0, t0.len() as int)]
            + split_tokens_from(s, t0.len() as int));
        assert(s.subrange(0, t0.len() as int) =~= t0);
        assert(split_tokens_from(s, t0.len() as int) == split_tokens_from(s, t0.len() as int + 1));
        lemma_split_shift(head, join_tokens(rest), 0);
        assert(split_tokens_from(s, t0.len() as int + 1) =~~= split_tokens_from(join_tokens(rest), 0));
        assert(forall|i: int| 0 <= i < rest.len() ==> is_token(#[trigger] rest[i]));
        lemma_join_split_roundtrip(rest);
        assert(seq![t0] + rest =~= ts);
    }
}

/// Append the ASCII payload of a token run to `out`: every token in order,
/// each followed by one space.
pub fn write_ascii_payload(tokens: &Vec<Vec<u8>>, out: &mut Vec<u8>)
    ensures
        final(out)@ == old(out)@ + join_tokens(tokens.deep_view()),
{
    let n = tokens.len();
    let mut i: usize = 0;
    while i < n
        invariant
            0 <= i <= n,
            n == tokens@.len(),
            tokens.deep_view().len() == n,
            out@ == old(out)@ + join_tokens(tokens.deep_view().subrange(0, i as int)),
        decreases n - i,
    {
        proof {
            assert(tokens.deep_view()[i as int] == tokens@[i as int]@);
            lemma_join_tokens_snoc(tokens.deep_view().subrange(0, i as int), tokens@[i as int]@);
            assert(tokens.deep_view().subrange(0, i as int).push(tokens@[i as int]@)
                =~= tokens.deep_view().subrange(0, i + 1));
        }
        crate::bytebuf::push_bytes(out, tokens[i].as_slice());
        out.push(0x20);
        proof {
            assert(out@ =~= old(out)@ + join_tokens(tokens.deep_view().subrange(0, i + 1)));
        }
        i = i + 1;
    }
    proof {
        assert(tokens.deep_view().subrange(0, n as int) =~= tokens.deep_view());
    }
}

/// Cut a byte run into its whitespace-separated tokens.
pub fn tokenize(s: &[u8]) -> (ts: Vec<Vec<u8>>)
    ensures
        ts.deep_view() =~~= split_tokens(s@),
{
    let n = s.len();
    let mut out: Vec<Vec<u8>> = Vec::new();
    let mut i: usize = 0;
    while i < n
        invariant
            0 <= i <= n,
            n == s@.len(),
            split_tokens(s@) =~~= out.deep_view() + split_tokens_from(s@, i as int),
        decreases n - i,
    {
        if byte_is_space(s[i]) {
            i = i + 1;
        } else {
            let start = i;
            let mut j = i;
            while j < n && !byte_is_space(s[j])
                invariant
                    start <= j <= n,
                    n == s@.len(),
                    forall|k: int| start <= k < j ==> !is_space(#[trigger] s@[k]),
                decreases n - j,
            {
                j = j + 1;
            }
            proof {
                lemma_token_end_run(s@, start as int, j as int);
            }
            let tok = vstd::slice::slice_to_vec(vstd::slice::slice_subrange(s, start, j));
            proof {
                let dv = out.deep_view();
                assert(split_tokens_from(s@, start as int) == seq![
                    s@.subrange(start as int, j as int),
                ] + split_tokens_from(s@, j as int));
            }
            let ghost old_out = out.deep_view();
            out.push(tok);
            proof {
                assert(out.deep_view() =~~= old_out.push(tok@));
                assert(old_out.push(tok@) + split_tokens_from(s@, j as int) =~~= old_out + (seq![
                    s@.subrange(start as int, j as int),
                ] + split_tokens_from(s@, j as int)));
            }
            i = j;
        }
    }
    proof {
        assert(split_tokens_from(s@, n as int) =~~= Seq::<Seq<u8>>::empty());
        assert(out.deep_view() + Seq::<Seq<u8>>::empty() =~~= out.deep_view());
    }
    out
}

/// A lone writable token splits into itself.
pub proof fn lemma_split_single_token(t: Seq<u8>)
    requires
        is_token(t),
    ensures
        split_tokens(t) =~~= seq![t],
{
    assert(forall|j: int| 0 <= j < t.len() ==> !is_space(#[trigger] t[j]));
    lemma_token_end_run(t, 0, t.len() as int);
    assert(split_tokens_from(t, 0) == seq![t.subrange(0, t.len() as int)] + split_tokens_from(
        t,
        t.len() as int,
    ));
    assert(t.subrange(0, t.len() as int) =~= t);
    assert(split_tokens_from(t, t.len() as int) =~~= Seq::<Seq<u8>>::empty());
}

/// A writable token, one space, and a remainder split into the token
/// followed by the remainder's tokens.
pub proof fn lemma_split_token_sp(t: Seq<u8>, r: Seq<u8>)
    requires
        is_token(t),
    ensures
        split_tokens(t + seq![0x20u8] + r) =~~= seq![t] + split_tokens(r),
{
    let s = t + seq![0x20u8] + r;
    let head = t + seq![0x20u8];
    assert(s =~= head + r);
    assert(forall|j: int| 0 <= j < t.len() ==> !is_space(#[trigger] s[j]));
    assert(is_space(s[t.len() as int]));
    lemma_token_end_run(s, 0, t.len() as int);
    assert(!is_space(s[0]));
    assert(split_tokens_from(s, 0) == seq![s.subrange(0, t.len() as int)] + split_tokens_from(
        s,
        t.len() as int,
    ));
    assert(s.subrange(0, t.len() as int) =~= t);
    assert(split_tokens_from(s, t.len() as int) == split_tokens_from(s, t.len() as int + 1));
    lemma_split_shift(head, r, 0);
    assert(split_tokens_from(s, t.len() as int + 1) =~~= split_tokens_from(r, 0));
}

} // verus!
