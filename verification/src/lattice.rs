//! Row-major grid arithmetic and the in-place passes over one field of a
//! lattice: filling, copying, refreshing the edge ring, advecting along a
//! direction, reflecting at solid cells and patching the outflow column.
//!
//! A field is a flat sequence of `w * h` values; cell `(x, y)` lives at
//! `x + y * w`. The passes are stated over flat positions, and
//! `lemma_cell_index` relates those to coordinates.

use vstd::prelude::*;
use vstd::arithmetic::div_mod::lemma_fundamental_div_mod_converse;

verus! {

/// Flat position of cell `(x, y)` in a grid of width `w`.
pub open spec fn cell_index(x: int, y: int, w: int) -> int {
    x + y * w
}

/// Position `i` of a field of `n` values in rows of `w` lies off the
/// outermost ring of cells.
pub open spec fn inner(i: int, w: int, n: int) -> bool {
    w + 1 <= i <= n - w - 2 && 1 <= i % w <= w - 2
}

/// Position `i` lies in the last column, in a row that the outflow patch
/// covers: every row but the first and the last two.
pub open spec fn outflow(i: int, w: int, n: int) -> bool {
    w <= i < n - 2 * w && i % w == w - 1
}

/// A field of `n` copies of `value`.
pub open spec fn constant<T>(value: T, n: int) -> Seq<T> {
    Seq::new(n as nat, |i: int| value)
}

/// The field `v` with every position on the outermost ring set to `value`.
pub open spec fn refreshed<T>(v: Seq<T>, w: int, value: T) -> Seq<T> {
    Seq::new(
        v.len(),
        |i: int|
            if inner(i, w, v.len() as int) {
                v[i]
            } else {
                value
            },
    )
}

/// The field `v` after its values moved by `off` positions: every inner
/// position takes the value that stood `off` positions before it, every other
/// position keeps its own.
pub open spec fn shifted<T>(v: Seq<T>, w: int, off: int) -> Seq<T> {
    Seq::new(
        v.len(),
        |i: int|
            if inner(i, w, v.len() as int) {
                v[i - off]
            } else {
                v[i]
            },
    )
}

/// The field `dst` after every solid inner position `b` pushed `src[b]` to
/// position `b + off` of it.
pub open spec fn reflected<T>(dst: Seq<T>, src: Seq<T>, solid: Seq<bool>, w: int, off: int) -> Seq<
    T,
> {
    Seq::new(
        dst.len(),
        |t: int|
            if inner(t - off, w, dst.len() as int) && solid[t - off] {
                src[t - off]
            } else {
                dst[t]
            },
    )
}

/// The field `v` after the outflow patch: each covered position of the last
/// column takes the value of its left neighbour.
pub open spec fn patched<T>(v: Seq<T>, w: int) -> Seq<T> {
    Seq::new(
        v.len(),
        |i: int|
            if outflow(i, w, v.len() as int) {
                v[i - 1]
            } else {
                v[i]
            },
    )
}

/// Signed offset from a magnitude and a sense.
pub open spec fn signed(mag: int, forward: bool) -> int {
    if forward {
        mag
    } else {
        -mag
    }
}

/// Coordinates and flat positions agree: a cell of a `w` by `h` grid has a
/// position below `w * h`, its column is the position's remainder by `w`,
/// and it is inner exactly when it is off the outermost ring.
pub proof fn lemma_cell_index(x: int, y: int, w: int, h: int)
    requires
        0 <= x < w,
        0 <= y < h,
    ensures
        0 <= cell_index(x, y, w) < w * h,
        0 <= y * w <= cell_index(x, y, w),
        cell_index(x, y, w) % w == x,
        cell_index(x, y, w) / w == y,
        inner(cell_index(x, y, w), w, w * h) <==> (1 <= x <= w - 2 && 1 <= y <= h - 2),
        outflow(cell_index(x, y, w), w, w * h) <==> (x == w - 1 && 1 <= y < h - 2),
        cell_index(x, y + 1, w) == cell_index(x, y, w) + w,
        cell_index(x, y - 1, w) == cell_index(x, y, w) - w,
{
    let i = cell_index(x, y, w);
    lemma_fundamental_div_mod_converse(i, w, y, x);
    assert(0 <= y * w && (y + 1) * w <= h * w && (y + 1) * w == y * w + w && (y - 1) * w == y * w
        - w && w * h == h * w) by (nonlinear_arith)
        requires
            0 <= y < h,
            0 < w,
    ;
    assert(y >= 1 ==> y * w >= w) by (nonlinear_arith)
        requires
            0 < w,
    ;
    assert(y <= 0 ==> y * w <= 0) by (nonlinear_arith)
        requires
            0 < w,
            0 <= y,
    ;
    assert(y <= h - 2 ==> y * w + 2 * w <= h * w) by (nonlinear_arith)
        requires
            0 < w,
    ;
    assert(y <= h - 3 ==> y * w + 3 * w <= h * w) by (nonlinear_arith)
        requires
            0 < w,
    ;
    assert(y >= h - 2 ==> y * w + 2 * w >= h * w) by (nonlinear_arith)
        requires
            0 < w,
    ;
    assert(y >= h - 1 ==> y * w + w >= h * w) by (nonlinear_arith)
        requires
            0 < w,
    ;
}

/// `lemma_cell_index`'s statement on inner positions, extended to the
/// coordinates one step outside the grid: their flat positions, which fall on
/// a neighbouring row or outside the field, are never inner.
pub proof fn lemma_inner_at(x: int, y: int, w: int, h: int)
    requires
        w >= 3,
        h >= 3,
        -1 <= x <= w,
        -1 <= y <= h,
    ensures
        inner(cell_index(x, y, w), w, w * h) <==> (1 <= x <= w - 2 && 1 <= y <= h - 2),
        (0 <= x < w && 0 <= y < h) ==> 0 <= cell_index(x, y, w) < w * h,
{
    assert(w * h == h * w && (-1) * w == -w && 0 * w == 0 && (h - 1) * w == h * w - w) by (nonlinear_arith);
    if 0 <= x < w && 0 <= y < h {
        lemma_cell_index(x, y, w, h);
    } else if 0 <= y < h {
        if x == -1 {
            if y >= 1 {
                lemma_cell_index(w - 1, y - 1, w, h);
                assert(cell_index(x, y, w) == cell_index(w - 1, y - 1, w));
            }
        } else {
            if y + 1 < h {
                lemma_cell_index(0, y + 1, w, h);
                lemma_cell_index(0, y, w, h);
                assert(cell_index(x, y, w) == cell_index(0, y + 1, w));
            }
        }
    } else {
    }
}

/// The flat position of a neighbour: one step in `x` is one position, one
/// step in `y` is one row.
pub proof fn lemma_neighbour(x: int, y: int, a: int, b: int, w: int)
    requires
        -1 <= b <= 1,
    ensures
        b == 1 ==> cell_index(x + a, y + b, w) == cell_index(x, y, w) + a + w,
        b == 0 ==> cell_index(x + a, y + b, w) == cell_index(x, y, w) + a,
        b == -1 ==> cell_index(x + a, y + b, w) == cell_index(x, y, w) + a - w,
{
    assert((y + 1) * w == y * w + w && (y - 1) * w == y * w - w) by (nonlinear_arith);
}

/// Flat offset of a step of `a` columns and `b` rows.
pub open spec fn step(a: int, b: int, w: int) -> int {
    if b == 1 {
        a + w
    } else if b == -1 {
        a - w
    } else {
        a
    }
}

/// What cell `(x, y)` holds of a field after it was advected by the step
/// `(a, b)` and then received what the solid cells reflect, read in
/// coordinates. `own` is the field, `opp` the field of the reverse direction.
/// If the cell one step back is solid and inner, the cell gets back what it
/// sent there in the reverse direction; else, if the cell is inner, it gets
/// what stood one step back; else it keeps its value.
pub proof fn lemma_streamed_field<T>(
    own: Seq<T>,
    opp: Seq<T>,
    solid: Seq<bool>,
    w: int,
    h: int,
    x: int,
    y: int,
    a: int,
    b: int,
)
    requires
        w >= 3,
        h >= 3,
        own.len() == w * h,
        opp.len() == w * h,
        solid.len() == w * h,
        0 <= x < w,
        0 <= y < h,
        -1 <= a <= 1,
        -1 <= b <= 1,
        a != 0 || b != 0,
    ensures
        0 <= cell_index(x, y, w) < w * h,
        reflected(
            shifted(own, w, step(a, b, w)),
            shifted(opp, w, -step(a, b, w)),
            solid,
            w,
            step(a, b, w),
        )[cell_index(x, y, w)] == (if 1 <= x - a <= w - 2 && 1 <= y - b <= h - 2 && solid[cell_index(
            x - a,
            y - b,
            w,
        )] {
            opp[cell_index(x, y, w)]
        } else if 1 <= x <= w - 2 && 1 <= y <= h - 2 {
            own[cell_index(x - a, y - b, w)]
        } else {
            own[cell_index(x, y, w)]
        }),
{
    let t = cell_index(x, y, w);
    let s = cell_index(x - a, y - b, w);
    let off = step(a, b, w);
    lemma_cell_index(x, y, w, h);
    lemma_inner_at(x, y, w, h);
    lemma_inner_at(x - a, y - b, w, h);
    lemma_neighbour(x, y, -a, -b, w);
    assert(s == t - off);
    let moved = shifted(own, w, off);
    let back = shifted(opp, w, -off);
    if inner(s, w, w * h) {
        assert(0 <= s < w * h);
        assert(back[s] == opp[s + off]);
    }
    if inner(t, w, w * h) {
        assert(0 <= t - off < w * h);
    }
    assert(moved[t] == if inner(t, w, w * h) {
        own[t - off]
    } else {
        own[t]
    });
}

/// A field of `n` copies of `value`.
pub fn filled<T: Copy>(value: T, n: usize) -> (v: Vec<T>)
    ensures
        v@ == constant(value, n as int),
{
    let mut v: Vec<T> = Vec::new();
    let mut i: usize = 0;
    while i < n
        invariant
            i <= n,
            v@.len() == i,
            forall|k: int| 0 <= k < i ==> v@[k] == value,
        decreases n - i,
    {
        v.push(value);
        i += 1;
    }
    assert(v@ =~= constant(value, n as int));
    v
}

/// A copy of the field `v`.
pub fn duplicate<T: Copy>(v: &Vec<T>) -> (r: Vec<T>)
    ensures
        r@ == v@,
{
    let mut r: Vec<T> = Vec::new();
    let mut i: usize = 0;
    while i < v.len()
        invariant
            i <= v.len(),
            r@.len() == i,
            forall|k: int| 0 <= k < i ==> r@[k] == v@[k],
        decreases v.len() - i,
    {
        r.push(v[i]);
        i += 1;
    }
    assert(r@ =~= v@);
    r
}

/// Whether position `i` is inner, computed.
pub fn is_inner(i: usize, w: usize, n: usize) -> (r: bool)
    requires
        w >= 3,
        n >= 3 * w,
        i < n,
    ensures
        r == inner(i as int, w as int, n as int),
{
    w + 1 <= i && i <= n - w - 2 && 1 <= i % w && i % w <= w - 2
}

/// Sets every position on the outermost ring of `v` to `value`.
pub fn refresh_edges<T: Copy>(v: &mut Vec<T>, w: usize, value: T)
    requires
        w >= 3,
        old(v).len() >= 3 * w,
    ensures
        final(v)@ == refreshed(old(v)@, w as int, value),
{
    let n = v.len();
    let mut i: usize = 0;
    while i < n
        invariant
            w >= 3,
            n >= 3 * w,
            i <= n,
            v@.len() == n,
            old(v)@.len() == n,
            forall|k: int|
                0 <= k < n ==> (#[trigger] v@[k]) == if k < i && !inner(k, w as int, n as int) {
                    value
                } else {
                    old(v)@[k]
                },
        decreases n - i,
    {
        if !is_inner(i, w, n) {
            v.set(i, value);
        }
        i += 1;
    }
    assert(v@ =~= refreshed(old(v)@, w as int, value));
}

/// Moves the values of `v` by `mag` positions, towards higher positions if
/// `forward` and towards lower ones if not, in place: the positions are
/// visited against the sense of the move, so that each value is read before
/// it is overwritten.
pub fn shift<T: Copy>(v: &mut Vec<T>, w: usize, mag: usize, forward: bool)
    requires
        w >= 3,
        old(v).len() >= 3 * w,
        1 <= mag <= w + 1,
    ensures
        final(v)@ == shifted(old(v)@, w as int, signed(mag as int, forward)),
{
    let n = v.len();
    if forward {
        let mut i: usize = n - w - 1;
        while i > w + 1
            invariant
                w >= 3,
                n >= 3 * w,
                1 <= mag <= w + 1,
                w + 1 <= i <= n - w - 1,
                v@.len() == n,
                old(v)@.len() == n,
                forall|k: int|
                    0 <= k < n ==> (#[trigger] v@[k]) == if k >= i && inner(k, w as int, n as int) {
                        old(v)@[k - mag]
                    } else {
                        old(v)@[k]
                    },
            decreases i,
        {
            i -= 1;
            if is_inner(i, w, n) {
                let moved = v[i - mag];
                v.set(i, moved);
            }
        }
    } else {
        let mut i: usize = w + 1;
        while i < n - w - 1
            invariant
                w >= 3,
                n >= 3 * w,
                1 <= mag <= w + 1,
                w + 1 <= i <= n - w - 1,
                v@.len() == n,
                old(v)@.len() == n,
                forall|k: int|
                    0 <= k < n ==> (#[trigger] v@[k]) == if k < i && inner(k, w as int, n as int) {
                        old(v)@[k + mag]
                    } else {
                        old(v)@[k]
                    },
            decreases n - i,
        {
            if is_inner(i, w, n) {
                let moved = v[i + mag];
                v.set(i, moved);
            }
            i += 1;
        }
    }
    assert(v@ =~= shifted(old(v)@, w as int, signed(mag as int, forward)));
}

/// For every solid inner position `b`, writes `src[b]` to position `b + mag`
/// of `dst` if `forward`, to position `b - mag` if not.
pub fn reflect<T: Copy>(
    dst: &mut Vec<T>,
    src: &Vec<T>,
    solid: &Vec<bool>,
    w: usize,
    mag: usize,
    forward: bool,
)
    requires
        w >= 3,
        old(dst).len() >= 3 * w,
        src.len() == old(dst).len(),
        solid.len() == old(dst).len(),
        1 <= mag <= w + 1,
    ensures
        final(dst)@ == reflected(
            old(dst)@,
            src@,
            solid@,
            w as int,
            signed(mag as int, forward),
        ),
{
    let n = dst.len();
    let ghost off = signed(mag as int, forward);
    let mut b: usize = w + 1;
    while b < n - w - 1
        invariant
            w >= 3,
            n >= 3 * w,
            1 <= mag <= w + 1,
            off == signed(mag as int, forward),
            w + 1 <= b <= n - w - 1,
            dst@.len() == n,
            old(dst)@.len() == n,
            src@.len() == n,
            solid@.len() == n,
            forall|t: int|
                0 <= t < n ==> (#[trigger] dst@[t]) == if t - off < b && inner(t - off, w as int, n as int)
                    && solid@[t - off] {
                    src@[t - off]
                } else {
                    old(dst)@[t]
                },
        decreases n - b,
    {
        if is_inner(b, w, n) && solid[b] {
            let pushed = src[b];
            if forward {
                dst.set(b + mag, pushed);
            } else {
                dst.set(b - mag, pushed);
            }
        }
        b += 1;
    }
    assert(dst@ =~= reflected(old(dst)@, src@, solid@, w as int, off));
}

/// Copies, in every covered row, the value left of the last column into the
/// last column.
pub fn patch_outflow<T: Copy>(v: &mut Vec<T>, w: usize)
    requires
        w >= 3,
        old(v).len() >= 3 * w,
    ensures
        final(v)@ == patched(old(v)@, w as int),
{
    let n = v.len();
    let mut i: usize = n - 2 * w;
    while i > w
        invariant
            w >= 3,
            n >= 3 * w,
            w <= i <= n - 2 * w,
            v@.len() == n,
            old(v)@.len() == n,
            forall|k: int|
                0 <= k < n ==> (#[trigger] v@[k]) == if k >= i && outflow(k, w as int, n as int) {
                    old(v)@[k - 1]
                } else {
                    old(v)@[k]
                },
        decreases i,
    {
        i -= 1;
        if i % w == w - 1 {
            let left = v[i - 1];
            v.set(i, left);
        }
    }
    assert(v@ =~= patched(old(v)@, w as int));
}

} // verus!
