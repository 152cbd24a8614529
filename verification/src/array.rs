//! Array containers for the data read from and written to files.
//!
//! A container owns a flat element buffer in caller order — the component
//! index outermost, as in `get(component, x, y, z)` — and serializes it
//! in on-disk order: axis-major, with the component index varying
//! fastest, so the wire sequence runs `for z { for y { for x { for
//! component { value } } } }`.

use vstd::prelude::*;
use vstd::string::StringSliceAdditionalSpecFns;
use crate::codec;
use crate::precision::Precision;
use crate::traits::{Array, FromBuffer, Numeric};
use core::marker::PhantomData;
use crate::mesh::{Spans2D, Spans3D};

verus! {

/// The flat position of `(n, x, y, z)` in caller order: `z` fastest,
/// `n` slowest.
pub open spec fn store_index(nx: int, ny: int, nz: int, n: int, x: int, y: int, z: int) -> int {
    ((n * nx + x) * ny + y) * nz + z
}

/// The flat position of `(n, x, y, z)` in on-disk order: `n` fastest,
/// `z` slowest.
pub open spec fn wire_index(nn: int, nx: int, ny: int, n: int, x: int, y: int, z: int) -> int {
    ((z * ny + y) * nx + x) * nn + n
}

/// The on-disk element run of a caller-order buffer.
pub open spec fn wire_elems(data: Seq<u64>, nn: int, nx: int, ny: int, nz: int) -> Seq<u64> {
    Seq::new(
        (nn * nx * ny * nz) as nat,
        |k: int|
            {
                let n = k % nn;
                let q1 = k / nn;
                let x = q1 % nx;
                let q2 = q1 / nx;
                let y = q2 % ny;
                let z = q2 / ny;
                data[store_index(nx, ny, nz, n, x, y, z)]
            },
    )
}

/// Splitting off the lowest mixed-radix digit.
proof fn lemma_divmod(a: int, b: int, r: int)
    requires
        b > 0,
        0 <= r < b,
        a >= 0,
    ensures
        (a * b + r) % b == r,
        (a * b + r) / b == a,
{
    assert((a * b + r) % b == r && (a * b + r) / b == a) by (nonlinear_arith)
        requires
            b > 0,
            0 <= r < b,
            a >= 0,
    ;
}

/// A caller-order position is inside the buffer.
pub proof fn lemma_store_index_bounds(
    nn: int,
    nx: int,
    ny: int,
    nz: int,
    n: int,
    x: int,
    y: int,
    z: int,
)
    requires
        0 <= n < nn,
        0 <= x < nx,
        0 <= y < ny,
        0 <= z < nz,
    ensures
        0 <= store_index(nx, ny, nz, n, x, y, z) < nn * nx * ny * nz,
{
    assert(0 <= ((n * nx + x) * ny + y) * nz + z < nn * nx * ny * nz) by (nonlinear_arith)
        requires
            0 <= n < nn,
            0 <= x < nx,
            0 <= y < ny,
            0 <= z < nz,
    ;
}

/// An on-disk position is inside the run.
pub proof fn lemma_wire_index_bounds(
    nn: int,
    nx: int,
    ny: int,
    nz: int,
    n: int,
    x: int,
    y: int,
    z: int,
)
    requires
        0 <= n < nn,
        0 <= x < nx,
        0 <= y < ny,
        0 <= z < nz,
    ensures
        0 <= wire_index(nn, nx, ny, n, x, y, z) < nn * nx * ny * nz,
{
    assert(0 <= ((z * ny + y) * nx + x) * nn + n < nn * nx * ny * nz) by (nonlinear_arith)
        requires
            0 <= n < nn,
            0 <= x < nx,
            0 <= y < ny,
            0 <= z < nz,
    ;
}

/// The axis-major law: position `wire_index(n, x, y, z)` of the on-disk
/// run holds the element stored at `(n, x, y, z)`, so the run iterates
/// `z`, then `y`, then `x`, with the component index fastest.
pub proof fn lemma_wire_order(
    data: Seq<u64>,
    nn: int,
    nx: int,
    ny: int,
    nz: int,
    n: int,
    x: int,
    y: int,
    z: int,
)
    requires
        data.len() == nn * nx * ny * nz,
        0 <= n < nn,
        0 <= x < nx,
        0 <= y < ny,
        0 <= z < nz,
    ensures
        wire_elems(data, nn, nx, ny, nz)[wire_index(nn, nx, ny, n, x, y, z)] == data[store_index(
            nx,
            ny,
            nz,
            n,
            x,
            y,
            z,
        )],
{
    lemma_wire_index_bounds(nn, nx, ny, nz, n, x, y, z);
    let k = wire_index(nn, nx, ny, n, x, y, z);
    lemma_divmod((z * ny + y) * nx + x, nn, n);
    assert(k % nn == n && k / nn == (z * ny + y) * nx + x);
    lemma_divmod(z * ny + y, nx, x);
    assert((k / nn) % nx == x && (k / nn) / nx == z * ny + y);
    lemma_divmod(z, ny, y);
    assert(((k / nn) / nx) % ny == y && ((k / nn) / nx) / ny == z);
}

/// Build the on-disk element run of a caller-order buffer.
fn reorder_to_wire(data: &Vec<u64>, nn: usize, nx: usize, ny: usize, nz: usize) -> (r: Vec<u64>)
    requires
        nn * nx * ny * nz == data@.len(),
        data@.len() <= usize::MAX,
        nn > 0,
        nx > 0,
        ny > 0,
        nz > 0,
    ensures
        r@ == wire_elems(data@, nn as int, nx as int, ny as int, nz as int),
{
    let total = data.len();
    let mut out: Vec<u64> = Vec::new();
    let mut k: usize = 0;
    while k < total
        invariant
            0 <= k <= total,
            total == data@.len(),
            nn * nx * ny * nz == total,
            nn > 0 && nx > 0 && ny > 0 && nz > 0,
            out@.len() == k,
            forall|j: int|
                0 <= j < k ==> out@[j] == wire_elems(
                    data@,
                    nn as int,
                    nx as int,
                    ny as int,
                    nz as int,
                )[j],
        decreases total - k,
    {
        let n = k % nn;
        let q1 = k / nn;
        let x = q1 % nx;
        let q2 = q1 / nx;
        let y = q2 % ny;
        let z = q2 / ny;
        proof {
            assert(z < nz) by (nonlinear_arith)
                requires
                    nn > 0 && nx > 0 && ny > 0 && nz > 0,
                    k < nn * nx * ny * nz,
                    q1 == k / nn,
                    q2 == q1 / nx,
                    z == q2 / ny,
            ;
            lemma_store_index_bounds(
                nn as int,
                nx as int,
                ny as int,
                nz as int,
                n as int,
                x as int,
                y as int,
                z as int,
            );
            assert(n * nx + x < nn * nx && (n * nx + x) * ny + y < nn * nx * ny && ((n * nx + x)
                * ny + y) * nz + z < nn * nx * ny * nz && nn * nx <= nn * nx * ny * nz && nn * nx
                * ny <= nn * nx * ny * nz) by (nonlinear_arith)
                requires
                    0 <= n < nn,
                    0 <= x < nx,
                    0 <= y < ny,
                    0 <= z < nz,
            ;
        }
        let si = ((n * nx + x) * ny + y) * nz + z;
        out.push(data[si]);
        k = k + 1;
    }
    proof {
        assert(out@ =~= wire_elems(data@, nn as int, nx as int, ny as int, nz as int));
    }
    out
}

/// Rebuild a caller-order buffer from an on-disk element run; the inverse
/// of [`reorder_to_wire`].
fn reorder_from_wire(buffer: &Vec<u64>, nn: usize, nx: usize, ny: usize, nz: usize) -> (r: Vec<
    u64,
>)
    requires
        nn * nx * ny * nz == buffer@.len(),
        buffer@.len() <= usize::MAX,
        nn > 0,
        nx > 0,
        ny > 0,
        nz > 0,
    ensures
        r@.len() == buffer@.len(),
        wire_elems(r@, nn as int, nx as int, ny as int, nz as int) == buffer@,
        forall|i: int| 0 <= i < r@.len() ==> buffer@.contains(#[trigger] r@[i]),
{
    let total = buffer.len();
    let mut out: Vec<u64> = Vec::new();
    let mut s: usize = 0;
    while s < total
        invariant
            0 <= s <= total,
            total == buffer@.len(),
            nn * nx * ny * nz == total,
            nn > 0 && nx > 0 && ny > 0 && nz > 0,
            out@.len() == s,
            forall|j: int|
                0 <= j < s ==> {
                    let z = j % (nz as int);
                    let q1 = j / (nz as int);
                    let y = q1 % (ny as int);
                    let q2 = q1 / (ny as int);
                    let x = q2 % (nx as int);
                    let n = q2 / (nx as int);
                    #[trigger] out@[j] == buffer@[wire_index(
                        nn as int,
                        nx as int,
                        ny as int,
                        n,
                        x,
                        y,
                        z,
                    )]
                },
            forall|i: int| 0 <= i < out@.len() ==> buffer@.contains(#[trigger] out@[i]),
        decreases total - s,
    {
        let z = s % nz;
        let q1 = s / nz;
        let y = q1 % ny;
        let q2 = q1 / ny;
        let x = q2 % nx;
        let n = q2 / nx;
        proof {
            assert(n < nn) by (nonlinear_arith)
                requires
                    nn > 0 && nx > 0 && ny > 0 && nz > 0,
                    s < nn * nx * ny * nz,
                    q1 == s / nz,
                    q2 == q1 / ny,
                    n == q2 / nx,
            ;
            lemma_wire_index_bounds(
                nn as int,
                nx as int,
                ny as int,
                nz as int,
                n as int,
                x as int,
                y as int,
                z as int,
            );
            assert(z * ny + y < nz * ny && (z * ny + y) * nx + x < nz * ny * nx && ((z * ny + y)
                * nx + x) * nn + n < nz * ny * nx * nn && nz * ny * nx * nn == nn * nx * ny * nz
                && nz * ny <= nn * nx * ny * nz && nz * ny * nx <= nn * nx * ny * nz)
                by (nonlinear_arith)
                requires
                    0 <= n < nn,
                    0 <= x < nx,
                    0 <= y < ny,
                    0 <= z < nz,
            ;
        }
        let wi = ((z * ny + y) * nx + x) * nn + n;
        let v = buffer[wi];
        out.push(v);
        proof {
            assert(out@[s as int] == buffer@[wi as int]);
            assert(buffer@.contains(buffer@[wi as int]));
        }
        s = s + 1;
    }
    proof {
        lemma_reorder_inverse(out@, buffer@, nn as int, nx as int, ny as int, nz as int);
    }
    out
}

/// A caller-order buffer whose every caller-order slot holds the wire
/// element of its position renders back to that wire run.
proof fn lemma_reorder_inverse(store: Seq<u64>, wire: Seq<u64>, nn: int, nx: int, ny: int, nz: int)
    requires
        nn > 0 && nx > 0 && ny > 0 && nz > 0,
        store.len() == nn * nx * ny * nz,
        wire.len() == nn * nx * ny * nz,
        forall|j: int|
            0 <= j < store.len() ==> {
                let z = j % nz;
                let q1 = j / nz;
                let y = q1 % ny;
                let q2 = q1 / ny;
                let x = q2 % nx;
                let n = q2 / nx;
                #[trigger] store[j] == wire[wire_index(nn, nx, ny, n, x, y, z)]
            },
    ensures
        wire_elems(store, nn, nx, ny, nz) == wire,
{
    assert forall|k: int| 0 <= k < wire.len() implies wire_elems(store, nn, nx, ny, nz)[k]
        == wire[k] by {
        let n = k % nn;
        let q1 = k / nn;
        let x = q1 % nx;
        let q2 = q1 / nx;
        let y = q2 % ny;
        let z = q2 / ny;
        assert(0 <= z < nz) by (nonlinear_arith)
            requires
                nn > 0 && nx > 0 && ny > 0 && nz > 0,
                0 <= k < nn * nx * ny * nz,
                q1 == k / nn,
                q2 == q1 / nx,
                z == q2 / ny,
                n == k % nn,
        ;
        lemma_store_index_bounds(nn, nx, ny, nz, n, x, y, z);
        let j = store_index(nx, ny, nz, n, x, y, z);
        lemma_divmod((n * nx + x) * ny + y, nz, z);
        lemma_divmod(n * nx + x, ny, y);
        lemma_divmod(n, nx, x);
        assert(j % nz == z && j / nz == (n * nx + x) * ny + y);
        assert((j / nz) % ny == y && (j / nz) / ny == n * nx + x);
        assert(((j / nz) / ny) % nx == x && ((j / nz) / ny) / nx == n);
        assert(store[j] == wire[wire_index(nn, nx, ny, n, x, y, z)]);
        vstd::arithmetic::div_mod::lemma_fundamental_div_mod(k, nn);
        vstd::arithmetic::div_mod::lemma_fundamental_div_mod(q1, nx);
        vstd::arithmetic::div_mod::lemma_fundamental_div_mod(q2, ny);
        assert(((z * ny + y) * nx + x) * nn + n == k) by (nonlinear_arith)
            requires
                k == nn * q1 + n,
                q1 == nx * q2 + x,
                q2 == ny * z + y,
        ;
        assert(wire_elems(store, nn, nx, ny, nz)[k] == store[j]);
    }
    assert(wire_elems(store, nn, nx, ny, nz) =~= wire);
}

/// Exposes a container's on-disk element run and shape.
pub trait Components {
    /// The on-disk element run.
    spec fn spec_wire(&self) -> Seq<u64>;

    /// The per-point component count.
    spec fn spec_components(&self) -> int;

    /// A container whose buffer matches its declared shape.
    spec fn inv(&self) -> bool;

    /// The per-point component count.
    fn array_components(&self) -> (c: usize)
        requires
            self.inv(),
        ensures
            c == self.spec_components(),
    ;

    /// The total element count, components included.
    fn length(&self) -> (n: usize)
        requires
            self.inv(),
        ensures
            n == self.spec_wire().len(),
    ;

    /// The elements in on-disk order: axis-major, component fastest.
    fn iter(&self) -> (r: Vec<u64>)
        requires
            self.inv(),
        ensures
            r@ == self.spec_wire(),
    ;
}

/// Render every element of a run as decimal text.
pub(crate) fn tokens_of<NUM: Numeric>(wire: &Vec<u64>) -> (ts: Vec<Vec<u8>>)
    requires
        forall|i: int|
            0 <= i < wire@.len() ==> NUM::spec_precision().spec_valid_bits(#[trigger] wire@[i]),
    ensures
        ts.deep_view() == wire@.map_values(|b: u64| NUM::spec_token(b)),
        codec::all_tokens(ts.deep_view()),
{
    let n = wire.len();
    let mut out: Vec<Vec<u8>> = Vec::new();
    let mut i: usize = 0;
    while i < n
        invariant
            0 <= i <= n,
            n == wire@.len(),
            forall|k: int|
                0 <= k < wire@.len() ==> NUM::spec_precision().spec_valid_bits(
                    #[trigger] wire@[k],
                ),
            out.deep_view() =~~= wire@.subrange(0, i as int).map_values(
                |b: u64| NUM::spec_token(b),
            ),
            codec::all_tokens(out.deep_view()),
        decreases n - i,
    {
        let t = NUM::to_token(wire[i]);
        let ghost prev = out.deep_view();
        out.push(t);
        proof {
            assert(out.deep_view() =~~= prev.push(t@));
            assert(wire@.subrange(0, i + 1).drop_last() =~= wire@.subrange(0, i as int));
            assert(out.deep_view() =~~= wire@.subrange(0, i + 1).map_values(
                |b: u64| NUM::spec_token(b),
            ));
        }
        i = i + 1;
    }
    proof {
        assert(wire@.subrange(0, n as int) =~= wire@);
    }
    out
}

/// Write a whole inline ASCII `DataArray` element for an element run.
pub(crate) fn write_ascii_run<NUM: Numeric>(
    wire: &Vec<u64>,
    components: usize,
    out: &mut Vec<u8>,
    name: &str,
)
    requires
        forall|i: int|
            0 <= i < wire@.len() ==> NUM::spec_precision().spec_valid_bits(#[trigger] wire@[i]),
    ensures
        final(out)@ == old(out)@ + crate::write_vtk::spec_inline_dataarray(
            name.spec_bytes(),
            components as int,
            NUM::spec_precision(),
            crate::write_vtk::Encoding::Ascii,
            codec::join_tokens(wire@.map_values(|b: u64| NUM::spec_token(b))),
        ),
        codec::all_tokens(wire@.map_values(|b: u64| NUM::spec_token(b))),
{
    let p = NUM::as_precision();
    crate::write_vtk::write_inline_array_header(
        out,
        crate::write_vtk::Encoding::Ascii,
        name,
        components,
        p,
    );
    let tokens = tokens_of::<NUM>(wire);
    codec::write_ascii_payload(&tokens, out);
    crate::write_vtk::close_inline_array_header(out);
    proof {
        assert(final(out)@ =~= old(out)@ + crate::write_vtk::spec_inline_dataarray(
            name.spec_bytes(),
            components as int,
            NUM::spec_precision(),
            crate::write_vtk::Encoding::Ascii,
            codec::join_tokens(wire@.map_values(|b: u64| NUM::spec_token(b))),
        ));
    }
}

/// Write a whole inline Base64 `DataArray` element for an element run.
pub(crate) fn write_base64_run(
    p: Precision,
    wire: &Vec<u64>,
    components: usize,
    out: &mut Vec<u8>,
    name: &str,
)
    requires
        forall|i: int| 0 <= i < wire@.len() ==> p.spec_valid_bits(#[trigger] wire@[i]),
    ensures
        final(out)@ == old(out)@ + crate::write_vtk::spec_inline_dataarray(
            name.spec_bytes(),
            components as int,
            p,
            crate::write_vtk::Encoding::Base64,
            codec::spec_base64_payload(p, wire@),
        ),
        codec::spec_base64_elems(p, codec::spec_base64_payload(p, wire@)) == Some(wire@),
{
    crate::write_vtk::write_inline_array_header(
        out,
        crate::write_vtk::Encoding::Base64,
        name,
        components,
        p,
    );
    codec::write_base64_payload(p, wire.as_slice(), out);
    crate::write_vtk::close_inline_array_header(out);
    proof {
        assert(final(out)@ =~= old(out)@ + crate::write_vtk::spec_inline_dataarray(
            name.spec_bytes(),
            components as int,
            p,
            crate::write_vtk::Encoding::Base64,
            codec::spec_base64_payload(p, wire@),
        ));
    }
}

/// Array container for vector-valued data in a 3D domain, such as a
/// velocity field.
///
/// The buffer is indexed `(component, x, y, z)` with `z` fastest; for a
/// domain of `nx` by `ny` by `nz` points with `c` components it holds
/// `c * nx * ny * nz` elements.
#[derive(Debug)]
pub struct Field3D<NUM> {
    pub data: Vec<u64>,
    pub components: usize,
    pub nx: usize,
    pub ny: usize,
    pub nz: usize,
    pub _marker: PhantomData<NUM>,
}

impl<NUM: Numeric> Field3D<NUM> {
    /// The shape and representability invariant.
    pub open spec fn inv(&self) -> bool {
        &&& self.components > 0 && self.nx > 0 && self.ny > 0 && self.nz > 0
        &&& self.components * self.nx * self.ny * self.nz == self.data@.len()
        &&& self.data@.len() <= usize::MAX
        &&& forall|i: int|
            0 <= i < self.data@.len() ==> NUM::spec_precision().spec_valid_bits(
                #[trigger] self.data@[i],
            )
    }

    /// The caller-order element buffer.
    pub open spec fn spec_data(&self) -> Seq<u64> {
        self.data@
    }

    /// The declared shape, components first.
    pub open spec fn spec_dims(&self) -> (int, int, int, int) {
        (self.components as int, self.nx as int, self.ny as int, self.nz as int)
    }

    /// Construct a field from its caller-order buffer and shape.
    pub fn new(data: Vec<u64>, components: usize, nx: usize, ny: usize, nz: usize) -> (r: Self)
        requires
            components > 0 && nx > 0 && ny > 0 && nz > 0,
            components * nx * ny * nz == data@.len(),
            data@.len() <= usize::MAX,
            forall|i: int|
                0 <= i < data@.len() ==> NUM::spec_precision().spec_valid_bits(
                    #[trigger] data@[i],
                ),
        ensures
            r.inv(),
            r.spec_data() == data@,
            r.spec_dims() == (components as int, nx as int, ny as int, nz as int),
    {
        Field3D { data, components, nx, ny, nz, _marker: PhantomData }
    }

    /// The caller-order buffer this field wraps.
    pub fn inner(self) -> (r: Vec<u64>)
        ensures
            r@ == self.spec_data(),
    {
        self.data
    }

    /// The element at `(component, x, y, z)`.
    pub fn get(&self, n: usize, x: usize, y: usize, z: usize) -> (b: u64)
        requires
            self.inv(),
            n < self.components as int && x < self.nx as int && y < self.ny as int && z
                < self.nz as int,
        ensures
            b == self.spec_data()[store_index(
                self.nx as int,
                self.ny as int,
                self.nz as int,
                n as int,
                x as int,
                y as int,
                z as int,
            )],
    {
        proof {
            lemma_store_index_bounds(
                self.components as int,
                self.nx as int,
                self.ny as int,
                self.nz as int,
                n as int,
                x as int,
                y as int,
                z as int,
            );
            assert(n * self.nx + x < self.components * self.nx && (n * self.nx + x) * self.ny + y
                < self.components * self.nx * self.ny && ((n * self.nx + x) * self.ny + y)
                * self.nz + z < self.components * self.nx * self.ny * self.nz && self.components
                * self.nx <= self.components * self.nx * self.ny * self.nz && self.components
                * self.nx * self.ny <= self.components * self.nx * self.ny * self.nz)
                by (nonlinear_arith)
                requires
                    0 <= n < self.components as int,
                    0 <= x < self.nx as int,
                    0 <= y < self.ny as int,
                    0 <= z < self.nz as int,
            ;
        }
        self.data[((n * self.nx + x) * self.ny + y) * self.nz + z]
    }
}

impl<NUM: Numeric> Components for Field3D<NUM> {
    open spec fn spec_wire(&self) -> Seq<u64> {
        wire_elems(
            self.data@,
            self.components as int,
            self.nx as int,
            self.ny as int,
            self.nz as int,
        )
    }

    open spec fn spec_components(&self) -> int {
        self.components as int
    }

    open spec fn inv(&self) -> bool {
        Field3D::inv(self)
    }

    fn array_components(&self) -> usize {
        self.components
    }

    fn length(&self) -> usize {
        self.data.len()
    }

    fn iter(&self) -> Vec<u64> {
        reorder_to_wire(&self.data, self.components, self.nx, self.ny, self.nz)
    }
}

/// The element count of a shape, when it fits `usize`.
fn shape_len(nn: usize, nx: usize, ny: usize, nz: usize) -> (r: Option<usize>)
    requires
        nn > 0 && nx > 0 && ny > 0 && nz > 0,
    ensures
        match r {
            Some(v) => v == nn * nx * ny * nz,
            None => nn * nx * ny * nz > usize::MAX,
        },
{
    let t1 = match nn.checked_mul(nx) {
        Some(v) => v,
        None => {
            proof {
                assert(nn * nx * ny * nz >= nn * nx) by (nonlinear_arith)
                    requires
                        nn > 0 && nx > 0 && ny > 0 && nz > 0,
                ;
            }
            return None;
        },
    };
    let t2 = match t1.checked_mul(ny) {
        Some(v) => v,
        None => {
            proof {
                assert(nn * nx * ny * nz >= nn * nx * ny) by (nonlinear_arith)
                    requires
                        nn > 0 && nx > 0 && ny > 0 && nz > 0,
                ;
            }
            return None;
        },
    };
    match t2.checked_mul(nz) {
        Some(v) => Some(v),
        None => None,
    }
}

impl<NUM: Numeric> FromBuffer<crate::mesh::Spans3D> for Field3D<NUM> {
    open spec fn spec_fits(spans: crate::mesh::Spans3D, components: int, len: int) -> bool {
        &&& spans.wf()
        &&& components > 0
        &&& len == components * spans.spec_x_len() * spans.spec_y_len() * spans.spec_z_len()
    }

    open spec fn spec_wire_rep(&self) -> Seq<u64> {
        self.spec_wire()
    }

    /// Beyond the trait contract: when every buffer element is
    /// representable, the rebuilt field satisfies its invariant.
    fn from_buffer(buffer: Vec<u64>, spans: &crate::mesh::Spans3D, components: usize) -> (r:
        Option<Self>)
        ensures
            r matches Some(v) ==> ((forall|i: int|
                0 <= i < buffer@.len() ==> NUM::spec_precision().spec_valid_bits(
                    #[trigger] buffer@[i],
                )) ==> v.inv()),
            r matches Some(v) ==> v.spec_dims() == (
                components as int,
                spans.spec_x_len(),
                spans.spec_y_len(),
                spans.spec_z_len(),
            ),
    {
        let bl = buffer.len();
        if components == 0 || !spans.check_wf() {
            return None;
        }
        let nx = spans.x_len();
        let ny = spans.y_len();
        let nz = spans.z_len();
        let total = match shape_len(components, nx, ny, nz) {
            Some(v) => v,
            None => {
                return None;
            },
        };
        if buffer.len() != total {
            return None;
        }
        let data = reorder_from_wire(&buffer, components, nx, ny, nz);
        Some(Field3D { data, components, nx, ny, nz, _marker: PhantomData })
    }
}


/// Every element of the on-disk run of a representable buffer is itself
/// representable: the run permutes the buffer.
proof fn lemma_wire_elems_valid<NUM: Numeric>(data: Seq<u64>, nn: int, nx: int, ny: int, nz: int)
    requires
        nn > 0 && nx > 0 && ny > 0 && nz > 0,
        data.len() == nn * nx * ny * nz,
        forall|i: int|
            0 <= i < data.len() ==> NUM::spec_precision().spec_valid_bits(#[trigger] data[i]),
    ensures
        wire_elems(data, nn, nx, ny, nz).len() == data.len(),
        forall|k: int|
            0 <= k < data.len() ==> NUM::spec_precision().spec_valid_bits(
                #[trigger] wire_elems(data, nn, nx, ny, nz)[k],
            ),
{
    assert forall|k: int| 0 <= k < data.len() implies NUM::spec_precision().spec_valid_bits(
        #[trigger] wire_elems(data, nn, nx, ny, nz)[k],
    ) by {
        let n = k % nn;
        let q1 = k / nn;
        let x = q1 % nx;
        let q2 = q1 / nx;
        let y = q2 % ny;
        let z = q2 / ny;
        assert(0 <= z < nz) by (nonlinear_arith)
            requires
                nn > 0 && nx > 0 && ny > 0 && nz > 0,
                0 <= k < nn * nx * ny * nz,
                q1 == k / nn,
                q2 == q1 / nx,
                z == q2 / ny,
                n == k % nn,
        ;
        lemma_store_index_bounds(nn, nx, ny, nz, n, x, y, z);
        assert(wire_elems(data, nn, nx, ny, nz)[k] == data[store_index(nx, ny, nz, n, x, y, z)]);
    }
}

/// Array container for scalar data in a 3D domain, such as a pressure field.
///
/// The buffer is indexed `(x, y, z)` with `z` fastest; for a domain of `nx` by `ny` by `nz` points it holds `nx * ny * nz` elements.
#[derive(Debug)]
pub struct Scalar3D<NUM> {
    pub data: Vec<u64>,
    pub nx: usize,
    pub ny: usize,
    pub nz: usize,
    pub _marker: PhantomData<NUM>,
}

impl<NUM: Numeric> Scalar3D<NUM> {
    /// The shape and representability invariant.
    pub open spec fn inv(&self) -> bool {
        &&& self.nx > 0 && self.ny > 0 && self.nz > 0
        &&& 1 * self.nx * self.ny * self.nz == self.data@.len()
        &&& self.data@.len() <= usize::MAX
        &&& forall|i: int|
            0 <= i < self.data@.len() ==> NUM::spec_precision().spec_valid_bits(
                #[trigger] self.data@[i],
            )
    }

    /// The caller-order element buffer.
    pub open spec fn spec_data(&self) -> Seq<u64> {
        self.data@
    }

    /// The declared shape, components first.
    pub open spec fn spec_dims(&self) -> (int, int, int, int) {
        (1 as int, self.nx as int, self.ny as int, self.nz as int)
    }

    /// Construct from the caller-order buffer and shape.
    pub fn new(data: Vec<u64>, nx: usize, ny: usize, nz: usize) -> (r: Self)
        requires
            nx > 0 && ny > 0 && nz > 0,
            nx * ny * nz == data@.len(),
            data@.len() <= usize::MAX,
            forall|i: int|
                0 <= i < data@.len() ==> NUM::spec_precision().spec_valid_bits(
                    #[trigger] data@[i],
                ),
        ensures
            r.inv(),
            r.spec_data() == data@,
            r.spec_dims() == (1int, nx as int, ny as int, nz as int),
    {
        Scalar3D { data, nx, ny, nz, _marker: PhantomData }
    }

    /// The caller-order buffer this container wraps.
    pub fn inner(self) -> (r: Vec<u64>)
        ensures
            r@ == self.spec_data(),
    {
        self.data
    }
}

impl<NUM: Numeric> Components for Scalar3D<NUM> {
    open spec fn spec_wire(&self) -> Seq<u64> {
        wire_elems(self.data@, 1 as int, self.nx as int, self.ny as int, self.nz as int)
    }

    open spec fn spec_components(&self) -> int {
        1 as int
    }

    open spec fn inv(&self) -> bool {
        Scalar3D::inv(self)
    }

    fn array_components(&self) -> usize {
        1
    }

    fn length(&self) -> usize {
        proof {
            assert(self.spec_wire().len() == self.data@.len());
        }
        self.data.len()
    }

    fn iter(&self) -> Vec<u64> {
        reorder_to_wire(&self.data, 1, self.nx, self.ny, self.nz)
    }
}

impl<NUM: Numeric> FromBuffer<crate::mesh::Spans3D> for Scalar3D<NUM> {
    open spec fn spec_fits(spans: crate::mesh::Spans3D, components: int, len: int) -> bool {
        &&& spans.wf()
        &&& components == 1
        &&& len == components * spans.spec_x_len() * spans.spec_y_len() * spans.spec_z_len()
    }

    open spec fn spec_wire_rep(&self) -> Seq<u64> {
        self.spec_wire()
    }

    /// Beyond the trait contract: when every buffer element is
    /// representable, the rebuilt value satisfies its invariant.
    fn from_buffer(buffer: Vec<u64>, spans: &crate::mesh::Spans3D, components: usize) -> (r: Option<Self>)
        ensures
            r matches Some(v) ==> ((forall|i: int|
                0 <= i < buffer@.len() ==> NUM::spec_precision().spec_valid_bits(
                    #[trigger] buffer@[i],
                )) ==> v.inv()),
            r matches Some(v) ==> v.spec_dims() == (
                components as int,
                spans.spec_x_len(),
                spans.spec_y_len(),
                spans.spec_z_len(),
            ),
    {
        let bl = buffer.len();
        if components != 1 || !spans.check_wf() {
            return None;
        }
        let nx = spans.x_len();
        let ny = spans.y_len();
        let nz: usize = spans.z_len();
        let total = match shape_len(components, nx, ny, nz) {
            Some(v) => v,
            None => {
                return None;
            },
        };
        if buffer.len() != total {
            return None;
        }
        let data = reorder_from_wire(&buffer, components, nx, ny, nz);
        Some(Scalar3D { data, nx, ny, nz, _marker: PhantomData })
    }
}

/// Array container for vector-valued data in a 2D domain.
///
/// The buffer is indexed `(component, x, y)` with `y` fastest; for a domain of `nx` by `ny` points with `c` components it holds `c * nx * ny` elements.
#[derive(Debug)]
pub struct Field2D<NUM> {
    pub data: Vec<u64>,
    pub components: usize,
    pub nx: usize,
    pub ny: usize,
    pub _marker: PhantomData<NUM>,
}

impl<NUM: Numeric> Field2D<NUM> {
    /// The shape and representability invariant.
    pub open spec fn inv(&self) -> bool {
        &&& self.components > 0 && self.nx > 0 && self.ny > 0
        &&& self.components * self.nx * self.ny == self.data@.len()
        &&& self.data@.len() <= usize::MAX
        &&& forall|i: int|
            0 <= i < self.data@.len() ==> NUM::spec_precision().spec_valid_bits(
                #[trigger] self.data@[i],
            )
    }

    /// The caller-order element buffer.
    pub open spec fn spec_data(&self) -> Seq<u64> {
        self.data@
    }

    /// The declared shape, components first.
    pub open spec fn spec_dims(&self) -> (int, int, int, int) {
        (self.components as int, self.nx as int, self.ny as int, 1 as int)
    }

    /// Construct from the caller-order buffer and shape.
    pub fn new(data: Vec<u64>, components: usize, nx: usize, ny: usize) -> (r: Self)
        requires
            components > 0 && nx > 0 && ny > 0,
            components * nx * ny == data@.len(),
            data@.len() <= usize::MAX,
            forall|i: int|
                0 <= i < data@.len() ==> NUM::spec_precision().spec_valid_bits(
                    #[trigger] data@[i],
                ),
        ensures
            r.inv(),
            r.spec_data() == data@,
            r.spec_dims() == (components as int, nx as int, ny as int, 1int),
    {
        Field2D { data, components, nx, ny, _marker: PhantomData }
    }

    /// The caller-order buffer this container wraps.
    pub fn inner(self) -> (r: Vec<u64>)
        ensures
            r@ == self.spec_data(),
    {
        self.data
    }
}

impl<NUM: Numeric> Components for Field2D<NUM> {
    open spec fn spec_wire(&self) -> Seq<u64> {
        wire_elems(self.data@, self.components as int, self.nx as int, self.ny as int, 1 as int)
    }

    open spec fn spec_components(&self) -> int {
        self.components as int
    }

    open spec fn inv(&self) -> bool {
        Field2D::inv(self)
    }

    fn array_components(&self) -> usize {
        self.components
    }

    fn length(&self) -> usize {
        proof {
            assert(self.spec_wire().len() == self.data@.len());
        }
        self.data.len()
    }

    fn iter(&self) -> Vec<u64> {
        reorder_to_wire(&self.data, self.components, self.nx, self.ny, 1)
    }
}

impl<NUM: Numeric> FromBuffer<crate::mesh::Spans2D> for Field2D<NUM> {
    open spec fn spec_fits(spans: crate::mesh::Spans2D, components: int, len: int) -> bool {
        &&& spans.wf()
        &&& components > 0
        &&& len == components * spans.spec_x_len() * spans.spec_y_len()
    }

    open spec fn spec_wire_rep(&self) -> Seq<u64> {
        self.spec_wire()
    }

    /// Beyond the trait contract: when every buffer element is
    /// representable, the rebuilt value satisfies its invariant.
    fn from_buffer(buffer: Vec<u64>, spans: &crate::mesh::Spans2D, components: usize) -> (r: Option<Self>)
        ensures
            r matches Some(v) ==> ((forall|i: int|
                0 <= i < buffer@.len() ==> NUM::spec_precision().spec_valid_bits(
                    #[trigger] buffer@[i],
                )) ==> v.inv()),
            r matches Some(v) ==> v.spec_dims() == (
                components as int,
                spans.spec_x_len(),
                spans.spec_y_len(),
                1int,
            ),
    {
        let bl = buffer.len();
        if components == 0 || !spans.check_wf() {
            return None;
        }
        let nx = spans.x_len();
        let ny = spans.y_len();
        let nz: usize = 1;
        let total = match shape_len(components, nx, ny, nz) {
            Some(v) => v,
            None => {
                return None;
            },
        };
        if buffer.len() != total {
            return None;
        }
        let data = reorder_from_wire(&buffer, components, nx, ny, nz);
        Some(Field2D { data, components, nx, ny, _marker: PhantomData })
    }
}

/// Array container for scalar data in a 2D domain.
///
/// The buffer is indexed `(x, y)` with `y` fastest; for a domain of `nx` by `ny` points it holds `nx * ny` elements.
#[derive(Debug)]
pub struct Scalar2D<NUM> {
    pub data: Vec<u64>,
    pub nx: usize,
    pub ny: usize,
    pub _marker: PhantomData<NUM>,
}

impl<NUM: Numeric> Scalar2D<NUM> {
    /// The shape and representability invariant.
    pub open spec fn inv(&self) -> bool {
        &&& self.nx > 0 && self.ny > 0
        &&& 1 * self.nx * self.ny == self.data@.len()
        &&& self.data@.len() <= usize::MAX
        &&& forall|i: int|
            0 <= i < self.data@.len() ==> NUM::spec_precision().spec_valid_bits(
                #[trigger] self.data@[i],
            )
    }

    /// The caller-order element buffer.
    pub open spec fn spec_data(&self) -> Seq<u64> {
        self.data@
    }

    /// The declared shape, components first.
    pub open spec fn spec_dims(&self) -> (int, int, int, int) {
        (1 as int, self.nx as int, self.ny as int, 1 as int)
    }

    /// Construct from the caller-order buffer and shape.
    pub fn new(data: Vec<u64>, nx: usize, ny: usize) -> (r: Self)
        requires
            nx > 0 && ny > 0,
            nx * ny == data@.len(),
            data@.len() <= usize::MAX,
            forall|i: int|
                0 <= i < data@.len() ==> NUM::spec_precision().spec_valid_bits(
                    #[trigger] data@[i],
                ),
        ensures
            r.inv(),
            r.spec_data() == data@,
            r.spec_dims() == (1int, nx as int, ny as int, 1int),
    {
        Scalar2D { data, nx, ny, _marker: PhantomData }
    }

    /// The caller-order buffer this container wraps.
    pub fn inner(self) -> (r: Vec<u64>)
        ensures
            r@ == self.spec_data(),
    {
        self.data
    }
}

impl<NUM: Numeric> Components for Scalar2D<NUM> {
    open spec fn spec_wire(&self) -> Seq<u64> {
        wire_elems(self.data@, 1 as int, self.nx as int, self.ny as int, 1 as int)
    }

    open spec fn spec_components(&self) -> int {
        1 as int
    }

    open spec fn inv(&self) -> bool {
        Scalar2D::inv(self)
    }

    fn array_components(&self) -> usize {
        1
    }

    fn length(&self) -> usize {
        proof {
            assert(self.spec_wire().len() == self.data@.len());
        }
        self.data.len()
    }

    fn iter(&self) -> Vec<u64> {
        reorder_to_wire(&self.data, 1, self.nx, self.ny, 1)
    }
}

impl<NUM: Numeric> FromBuffer<crate::mesh::Spans2D> for Scalar2D<NUM> {
    open spec fn spec_fits(spans: crate::mesh::Spans2D, components: int, len: int) -> bool {
        &&& spans.wf()
        &&& components == 1
        &&& len == components * spans.spec_x_len() * spans.spec_y_len()
    }

    open spec fn spec_wire_rep(&self) -> Seq<u64> {
        self.spec_wire()
    }

    /// Beyond the trait contract: when every buffer element is
    /// representable, the rebuilt value satisfies its invariant.
    fn from_buffer(buffer: Vec<u64>, spans: &crate::mesh::Spans2D, components: usize) -> (r: Option<Self>)
        ensures
            r matches Some(v) ==> ((forall|i: int|
                0 <= i < buffer@.len() ==> NUM::spec_precision().spec_valid_bits(
                    #[trigger] buffer@[i],
                )) ==> v.inv()),
            r matches Some(v) ==> v.spec_dims() == (
                components as int,
                spans.spec_x_len(),
                spans.spec_y_len(),
                1int,
            ),
    {
        let bl = buffer.len();
        if components != 1 || !spans.check_wf() {
            return None;
        }
        let nx = spans.x_len();
        let ny = spans.y_len();
        let nz: usize = 1;
        let total = match shape_len(components, nx, ny, nz) {
            Some(v) => v,
            None => {
                return None;
            },
        };
        if buffer.len() != total {
            return None;
        }
        let data = reorder_from_wire(&buffer, components, nx, ny, nz);
        Some(Scalar2D { data, nx, ny, _marker: PhantomData })
    }
}

impl<NUM: Numeric> Array for Field3D<NUM> {
    open spec fn spec_elems(&self) -> Seq<u64> {
        self.spec_wire()
    }

    open spec fn spec_precision(&self) -> Precision {
        NUM::spec_precision()
    }

    open spec fn spec_components(&self) -> int {
        Components::spec_components(self)
    }

    open spec fn spec_tokens(&self) -> Seq<Seq<u8>> {
        self.spec_wire().map_values(|b: u64| NUM::spec_token(b))
    }

    open spec fn wf(&self) -> bool {
        self.inv()
    }

    proof fn lemma_wf(&self) {
        lemma_wire_elems_valid::<NUM>(
            self.data@,
            self.components as int,
            self.nx as int,
            self.ny as int,
            self.nz as int,
        );
    }

    fn write_ascii(&self, out: &mut Vec<u8>, name: &str) {
        proof {
            Array::lemma_wf(self);
        }
        let wire = Components::iter(self);
        proof {
            assert forall|i: int|
                0 <= i < wire@.len() implies NUM::spec_precision().spec_valid_bits(
                #[trigger] wire@[i],
            ) by {
                assert(wire@[i] == Array::spec_elems(self)[i]);
            }
        }
        let comps = Components::array_components(self);
        write_ascii_run::<NUM>(&wire, comps, out, name);
    }

    fn write_base64(&self, out: &mut Vec<u8>, name: &str) {
        proof {
            Array::lemma_wf(self);
        }
        let wire = Components::iter(self);
        proof {
            assert forall|i: int|
                0 <= i < wire@.len() implies NUM::spec_precision().spec_valid_bits(
                #[trigger] wire@[i],
            ) by {
                assert(wire@[i] == Array::spec_elems(self)[i]);
            }
        }
        let comps = Components::array_components(self);
        write_base64_run(NUM::as_precision(), &wire, comps, out, name);
    }

    fn write_binary(&self, out: &mut Vec<u8>, is_last: bool) {
        proof {
            Array::lemma_wf(self);
        }
        let wire = Components::iter(self);
        proof {
            assert forall|i: int|
                0 <= i < wire@.len() implies NUM::spec_precision().spec_valid_bits(
                #[trigger] wire@[i],
            ) by {
                assert(wire@[i] == Array::spec_elems(self)[i]);
            }
        }
        codec::write_binary_payload(NUM::as_precision(), wire.as_slice(), is_last, out);
    }

    fn length(&self) -> usize {
        Components::length(self)
    }

    fn components(&self) -> usize {
        Components::array_components(self)
    }

    fn precision(&self) -> Precision {
        NUM::as_precision()
    }

    fn size_of_elem(&self) -> usize {
        NUM::as_precision().width()
    }
}

impl<NUM: Numeric> Array for Scalar3D<NUM> {
    open spec fn spec_elems(&self) -> Seq<u64> {
        self.spec_wire()
    }

    open spec fn spec_precision(&self) -> Precision {
        NUM::spec_precision()
    }

    open spec fn spec_components(&self) -> int {
        Components::spec_components(self)
    }

    open spec fn spec_tokens(&self) -> Seq<Seq<u8>> {
        self.spec_wire().map_values(|b: u64| NUM::spec_token(b))
    }

    open spec fn wf(&self) -> bool {
        self.inv()
    }

    proof fn lemma_wf(&self) {
        lemma_wire_elems_valid::<NUM>(
            self.data@,
            1 as int,
            self.nx as int,
            self.ny as int,
            self.nz as int,
        );
    }

    fn write_ascii(&self, out: &mut Vec<u8>, name: &str) {
        proof {
            Array::lemma_wf(self);
        }
        let wire = Components::iter(self);
        proof {
            assert forall|i: int|
                0 <= i < wire@.len() implies NUM::spec_precision().spec_valid_bits(
                #[trigger] wire@[i],
            ) by {
                assert(wire@[i] == Array::spec_elems(self)[i]);
            }
        }
        let comps = Components::array_components(self);
        write_ascii_run::<NUM>(&wire, comps, out, name);
    }

    fn write_base64(&self, out: &mut Vec<u8>, name: &str) {
        proof {
            Array::lemma_wf(self);
        }
        let wire = Components::iter(self);
        proof {
            assert forall|i: int|
                0 <= i < wire@.len() implies NUM::spec_precision().spec_valid_bits(
                #[trigger] wire@[i],
            ) by {
                assert(wire@[i] == Array::spec_elems(self)[i]);
            }
        }
        let comps = Components::array_components(self);
        write_base64_run(NUM::as_precision(), &wire, comps, out, name);
    }

    fn write_binary(&self, out: &mut Vec<u8>, is_last: bool) {
        proof {
            Array::lemma_wf(self);
        }
        let wire = Components::iter(self);
        proof {
            assert forall|i: int|
                0 <= i < wire@.len() implies NUM::spec_precision().spec_valid_bits(
                #[trigger] wire@[i],
            ) by {
                assert(wire@[i] == Array::spec_elems(self)[i]);
            }
        }
        codec::write_binary_payload(NUM::as_precision(), wire.as_slice(), is_last, out);
    }

    fn length(&self) -> usize {
        Components::length(self)
    }

    fn components(&self) -> usize {
        Components::array_components(self)
    }

    fn precision(&self) -> Precision {
        NUM::as_precision()
    }

    fn size_of_elem(&self) -> usize {
        NUM::as_precision().width()
    }
}

impl<NUM: Numeric> Array for Field2D<NUM> {
    open spec fn spec_elems(&self) -> Seq<u64> {
        self.spec_wire()
    }

    open spec fn spec_precision(&self) -> Precision {
        NUM::spec_precision()
    }

    open spec fn spec_components(&self) -> int {
        Components::spec_components(self)
    }

    open spec fn spec_tokens(&self) -> Seq<Seq<u8>> {
        self.spec_wire().map_values(|b: u64| NUM::spec_token(b))
    }

    open spec fn wf(&self) -> bool {
        self.inv()
    }

    proof fn lemma_wf(&self) {
        lemma_wire_elems_valid::<NUM>(
            self.data@,
            self.components as int,
            self.nx as int,
            self.ny as int,
            1 as int,
        );
    }

    fn write_ascii(&self, out: &mut Vec<u8>, name: &str) {
        proof {
            Array::lemma_wf(self);
        }
        let wire = Components::iter(self);
        proof {
            assert forall|i: int|
                0 <= i < wire@.len() implies NUM::spec_precision().spec_valid_bits(
                #[trigger] wire@[i],
            ) by {
                assert(wire@[i] == Array::spec_elems(self)[i]);
            }
        }
        let comps = Components::array_components(self);
        write_ascii_run::<NUM>(&wire, comps, out, name);
    }

    fn write_base64(&self, out: &mut Vec<u8>, name: &str) {
        proof {
            Array::lemma_wf(self);
        }
        let wire = Components::iter(self);
        proof {
            assert forall|i: int|
                0 <= i < wire@.len() implies NUM::spec_precision().spec_valid_bits(
                #[trigger] wire@[i],
            ) by {
                assert(wire@[i] == Array::spec_elems(self)[i]);
            }
        }
        let comps = Components::array_components(self);
        write_base64_run(NUM::as_precision(), &wire, comps, out, name);
    }

    fn write_binary(&self, out: &mut Vec<u8>, is_last: bool) {
        proof {
            Array::lemma_wf(self);
        }
        let wire = Components::iter(self);
        proof {
            assert forall|i: int|
                0 <= i < wire@.len() implies NUM::spec_precision().spec_valid_bits(
                #[trigger] wire@[i],
            ) by {
                assert(wire@[i] == Array::spec_elems(self)[i]);
            }
        }
        codec::write_binary_payload(NUM::as_precision(), wire.as_slice(), is_last, out);
    }

    fn length(&self) -> usize {
        Components::length(self)
    }

    fn components(&self) -> usize {
        Components::array_components(self)
    }

    fn precision(&self) -> Precision {
        NUM::as_precision()
    }

    fn size_of_elem(&self) -> usize {
        NUM::as_precision().width()
    }
}

impl<NUM: Numeric> Array for Scalar2D<NUM> {
    open spec fn spec_elems(&self) -> Seq<u64> {
        self.spec_wire()
    }

    open spec fn spec_precision(&self) -> Precision {
        NUM::spec_precision()
    }

    open spec fn spec_components(&self) -> int {
        Components::spec_components(self)
    }

    open spec fn spec_tokens(&self) -> Seq<Seq<u8>> {
        self.spec_wire().map_values(|b: u64| NUM::spec_token(b))
    }

    open spec fn wf(&self) -> bool {
        self.inv()
    }

    proof fn lemma_wf(&self) {
        lemma_wire_elems_valid::<NUM>(
            self.data@,
            1 as int,
            self.nx as int,
            self.ny as int,
            1 as int,
        );
    }

    fn write_ascii(&self, out: &mut Vec<u8>, name: &str) {
        proof {
            Array::lemma_wf(self);
        }
        let wire = Components::iter(self);
        proof {
            assert forall|i: int|
                0 <= i < wire@.len() implies NUM::spec_precision().spec_valid_bits(
                #[trigger] wire@[i],
            ) by {
                assert(wire@[i] == Array::spec_elems(self)[i]);
            }
        }
        let comps = Components::array_components(self);
        write_ascii_run::<NUM>(&wire, comps, out, name);
    }

    fn write_base64(&self, out: &mut Vec<u8>, name: &str) {
        proof {
            Array::lemma_wf(self);
        }
        let wire = Components::iter(self);
        proof {
            assert forall|i: int|
                0 <= i < wire@.len() implies NUM::spec_precision().spec_valid_bits(
                #[trigger] wire@[i],
            ) by {
                assert(wire@[i] == Array::spec_elems(self)[i]);
            }
        }
        let comps = Components::array_components(self);
        write_base64_run(NUM::as_precision(), &wire, comps, out, name);
    }

    fn write_binary(&self, out: &mut Vec<u8>, is_last: bool) {
        proof {
            Array::lemma_wf(self);
        }
        let wire = Components::iter(self);
        proof {
            assert forall|i: int|
                0 <= i < wire@.len() implies NUM::spec_precision().spec_valid_bits(
                #[trigger] wire@[i],
            ) by {
                assert(wire@[i] == Array::spec_elems(self)[i]);
            }
        }
        codec::write_binary_payload(NUM::as_precision(), wire.as_slice(), is_last, out);
    }

    fn length(&self) -> usize {
        Components::length(self)
    }

    fn components(&self) -> usize {
        Components::array_components(self)
    }

    fn precision(&self) -> Precision {
        NUM::as_precision()
    }

    fn size_of_elem(&self) -> usize {
        NUM::as_precision().width()
    }
}

} // verus!
