//! The whole walk of `PosAroundIterator`: which offsets it returns, in which order, and
//! when it stops.
use super::pos::{abs_int, around_step, column_half_height, max_int, ring_of, Pos};
use vstd::prelude::*;

verus! {

/// Number of columns on ring `r`: the centre column alone, then `8 r` around it.
pub open spec fn ring_columns(r: int) -> int {
    if r == 0 {
        1
    } else {
        8 * r
    }
}

/// Lowest height the walk returns in a column of ring `r`.
pub open spec fn column_bottom(radius: int, r: int) -> int {
    if r == 0 {
        -radius + 1
    } else {
        -column_half_height(radius, r)
    }
}

/// Number of positions the walk returns in each column of ring `r`.
pub open spec fn column_items(radius: int, r: int) -> int {
    column_half_height(radius, r) - column_bottom(radius, r) + 1
}

/// Number of positions the walk returns on the rings below `r`.
pub open spec fn items_before(radius: int, r: int) -> int
    decreases r,
{
    if r <= 0 {
        0
    } else {
        items_before(radius, r - 1) + ring_columns(r - 1) * column_items(radius, r - 1)
    }
}

/// Number of positions the walk of radius `radius` returns.
pub open spec fn around_total(radius: int) -> int {
    items_before(radius, radius)
}

/// Place of column `(x, z)` on its ring `r`: the ring starts next to its top-left corner,
/// runs along `z = r` to growing `x`, down `x = r`, back along `z = -r` and up `x = -r`.
pub open spec fn ring_index(x: int, z: int, r: int) -> int {
    if r == 0 {
        0
    } else if z == r && x > -r {
        x + r - 1
    } else if x == r {
        2 * r + (r - 1 - z)
    } else if z == -r {
        4 * r + (r - 1 - x)
    } else {
        6 * r + z + r - 1
    }
}

/// Place of an offset in the walk of radius `radius`, counted from 0.
pub open spec fn around_index(p: Pos<i64>, radius: int) -> int {
    let r = ring_of(p);
    items_before(radius, r) + ring_index(p.x as int, p.z as int, r) * column_items(radius, r) + (
    p.y - column_bottom(radius, r))
}

/// The offsets the walk returns: a ring below the radius and a height inside the column.
pub open spec fn around_cell(p: Pos<i64>, radius: int) -> bool {
    &&& ring_of(p) < radius
    &&& column_bottom(radius, ring_of(p)) <= p.y
    &&& p.y <= column_half_height(radius, ring_of(p))
}

/// Cursor and ring of a walk of radius `radius` after `n` calls of `next`, from the state
/// that `PosAroundIterator::new` builds.
pub open spec fn around_state(radius: i64, n: nat) -> (Pos<i64>, i64)
    decreases n,
{
    if n == 0 {
        (Pos { x: 0i64, y: (-radius) as i64, z: 0i64 }, 0i64)
    } else {
        let s = around_state(radius, (n - 1) as nat);
        let t = around_step(s.0, s.1, radius);
        (t.0, t.1)
    }
}

/// Offset (from the start) that call number `n` of `next` returns.
pub open spec fn around_item(radius: i64, n: nat) -> Option<Pos<i64>> {
    let s = around_state(radius, n);
    around_step(s.0, s.1, radius).3
}

/// The walk state before item `k`: on ring `s.1`, just after item `k - 1`.
spec fn state_before(radius: int, s: (Pos<i64>, i64), k: int) -> bool {
    &&& 0 <= s.1 < radius
    &&& ring_of(s.0) == s.1
    &&& column_bottom(radius, s.1 as int) - 1 <= s.0.y
    &&& s.0.y <= column_half_height(radius, s.1 as int)
    &&& (k >= 1 ==> column_bottom(radius, s.1 as int) <= s.0.y)
    &&& around_index(s.0, radius) == k - 1
}

proof fn lemma_mixed_radix(a1: int, o1: int, a2: int, o2: int, c: int)
    requires
        0 <= o1 < c,
        0 <= o2 < c,
        a1 * c + o1 == a2 * c + o2,
    ensures
        a1 == a2,
        o1 == o2,
{
    if a1 < a2 {
        assert(a1 * c + c <= a2 * c) by (nonlinear_arith)
            requires
                a1 < a2,
                0 < c,
        ;
    } else if a2 < a1 {
        assert(a2 * c + c <= a1 * c) by (nonlinear_arith)
            requires
                a2 < a1,
                0 < c,
        ;
    }
}

proof fn lemma_ring_index(x: int, z: int, r: int)
    requires
        r >= 0,
        r == max_int(abs_int(x), abs_int(z)),
    ensures
        0 <= ring_index(x, z, r) < ring_columns(r),
        ring_index(x, z, r) == ring_columns(r) - 1 ==> x == -r && z == r,
{
}

proof fn lemma_ring_index_injective(x1: int, z1: int, x2: int, z2: int, r: int)
    requires
        r >= 0,
        r == max_int(abs_int(x1), abs_int(z1)),
        r == max_int(abs_int(x2), abs_int(z2)),
        ring_index(x1, z1, r) == ring_index(x2, z2, r),
    ensures
        x1 == x2,
        z1 == z2,
{
}

proof fn lemma_items_before_grows(radius: int, a: int, b: int)
    requires
        0 <= a <= b <= radius,
    ensures
        items_before(radius, a) <= items_before(radius, b),
        a < b ==> items_before(radius, a) < items_before(radius, b),
    decreases b - a,
{
    if a < b {
        lemma_items_before_grows(radius, a, b - 1);
        let c = b - 1;
        assert(ring_columns(c) * column_items(radius, c) > 0) by {
            vstd::arithmetic::mul::lemma_mul_strictly_positive(ring_columns(c), column_items(radius, c));
        }
    }
}

/// Where an offset of ring `r` at a height between one below its column and its top falls.
proof fn lemma_index_in_ring(p: Pos<i64>, radius: int)
    requires
        0 <= ring_of(p) < radius,
        column_bottom(radius, ring_of(p)) - 1 <= p.y <= column_half_height(radius, ring_of(p)),
    ensures
        items_before(radius, ring_of(p)) - 1 <= around_index(p, radius),
        p.y >= column_bottom(radius, ring_of(p)) ==> items_before(radius, ring_of(p)) <= around_index(
            p,
            radius,
        ),
        around_index(p, radius) < items_before(radius, ring_of(p) + 1),
        around_index(p, radius) == items_before(radius, ring_of(p) + 1) - 1 ==> p.x == -ring_of(p)
            && p.z == ring_of(p) && p.y == column_half_height(radius, ring_of(p)),
{
    let r = ring_of(p);
    let ri = ring_index(p.x as int, p.z as int, r);
    let ci = column_items(radius, r);
    let rc = ring_columns(r);
    let o = p.y - column_bottom(radius, r);
    lemma_ring_index(p.x as int, p.z as int, r);
    assert(ci > 0);
    assert(0 <= ri * ci) by (nonlinear_arith)
        requires
            0 <= ri,
            0 < ci,
    ;
    assert(ri * ci + o < rc * ci) by (nonlinear_arith)
        requires
            ri < rc,
            o < ci,
            0 < ci,
    ;
    assert(items_before(radius, r + 1) == items_before(radius, r) + rc * ci);
    if around_index(p, radius) == items_before(radius, r + 1) - 1 {
        if ri < rc - 1 {
            assert(ri * ci + o < rc * ci - 1) by (nonlinear_arith)
                requires
                    ri < rc - 1,
                    o < ci,
                    0 < ci,
            ;
        }
        assert(ri == rc - 1);
        assert(ri * ci + ci == rc * ci) by (nonlinear_arith)
            requires
                ri == rc - 1,
        ;
    }
}

/// One call of `next` from the state before item `k`: it returns item `k` and reaches the
/// state before item `k + 1`, or, after the last item, returns `None` and finishes.
proof fn lemma_around_one_step(radius: i64, s: (Pos<i64>, i64), k: int)
    requires
        0 < radius < i64::MAX,
        state_before(radius as int, s, k),
        0 <= k <= around_total(radius as int),
    ensures
        ({
            let t = around_step(s.0, s.1, radius);
            &&& k < around_total(radius as int) ==> state_before(radius as int, (t.0, t.1), k + 1) && t.3
                == Some(t.0)
            &&& k == around_total(radius as int) ==> t.3 is None && t.1 == radius
        }),
{
    let rr = radius as int;
    let p = s.0;
    let r = s.1 as int;
    let yr = column_half_height(rr, r);
    let t = around_step(s.0, s.1, radius);
    lemma_index_in_ring(p, rr);
    lemma_ring_index(p.x as int, p.z as int, r);
    lemma_items_before_grows(rr, r + 1, rr);
    let ci = column_items(rr, r);
    let ri = ring_index(p.x as int, p.z as int, r);
    if p.y < yr {
        let q = Pos { x: p.x, y: (p.y + 1) as i64, z: p.z };
        assert(t.0 == q && t.1 == s.1 && t.3 == Some(q));
        assert(ring_of(q) == r);
        assert(around_index(q, rr) == around_index(p, rr) + 1);
        if k == around_total(rr) {
            assert(around_index(p, rr) == items_before(rr, r + 1) - 1);
        }
    } else if p.z == r && p.x == -r {
        assert(ri == ring_columns(r) - 1);
        assert(around_index(p, rr) == items_before(rr, r) + (ring_columns(r) - 1) * ci + ci - 1);
        assert((ring_columns(r) - 1) * ci + ci == ring_columns(r) * ci) by (nonlinear_arith);
        assert(around_index(p, rr) == items_before(rr, r + 1) - 1);
        if rr == r + 1 {
            assert(t.3 is None && t.1 == radius);
        } else {
            lemma_items_before_grows(rr, r + 2, rr);
            lemma_items_before_grows(rr, r + 1, r + 2);
            let q = Pos { x: p.x, y: (-yr + 1) as i64, z: (p.z + 1) as i64 };
            assert(t.0 == q && t.1 == r + 1 && t.3 == Some(q));
            assert(ring_of(q) == r + 1);
            assert(ring_index(q.x as int, q.z as int, r + 1) == 0);
            assert(q.y == column_bottom(rr, r + 1));
            assert(around_index(q, rr) == items_before(rr, r + 1));
        }
    } else {
        assert(r >= 1);
        if k == around_total(rr) {
            if around_index(p, rr) == items_before(rr, r + 1) - 1 {
                assert(false);
            }
            if r + 1 < rr {
                lemma_items_before_grows(rr, r + 1, rr);
            }
            assert(false);
        }
        let q = t.0;
        assert(t.1 == s.1 && t.3 == Some(q));
        assert(q.y == -yr);
        assert(ring_of(q) == r);
        assert(ring_index(q.x as int, q.z as int, r) == ri + 1);
        assert((ri + 1) * ci == ri * ci + ci) by (nonlinear_arith);
        assert(around_index(q, rr) == around_index(p, rr) + 1);
    }
}

/// The state of the walk after `n` calls: before item `n` while items are left, and on
/// the last ring, finished, after that.
proof fn lemma_around_states(radius: i64, n: nat)
    requires
        0 <= radius < i64::MAX,
    ensures
        radius > 0 && n <= around_total(radius as int) ==> state_before(
            radius as int,
            around_state(radius, n),
            n as int,
        ),
        radius == 0 || n > around_total(radius as int) ==> around_state(radius, n).1 == radius,
    decreases n,
{
    let rr = radius as int;
    lemma_items_before_grows(rr, 0, rr);
    if n == 0 {
        if radius > 0 {
            let s = around_state(radius, 0);
            assert(ring_of(s.0) == 0);
            assert(around_index(s.0, rr) == -1);
        }
    } else {
        lemma_around_states(radius, (n - 1) as nat);
        let s = around_state(radius, (n - 1) as nat);
        let t = around_step(s.0, s.1, radius);
        assert(around_state(radius, n) == (t.0, t.1));
        if radius > 0 && n - 1 <= around_total(rr) {
            lemma_around_one_step(radius, s, n - 1);
        } else {
            assert(s.1 == radius);
            assert(t.1 == radius);
        }
    }
}

/// The ring walk of radius `radius` returns, at call `n` of `next`, the offset whose place
/// in the walk is `n`, for each `n` below `around_total(radius)`, and `None` (finishing
/// the iterator) at every call after that; each offset it returns lies on a ring below the
/// radius, inside its column.
pub proof fn lemma_around_walk(radius: i64, n: nat)
    requires
        0 <= radius < i64::MAX,
    ensures
        n < around_total(radius as int) ==> ({
            &&& around_item(radius, n) == Some(around_state(radius, n + 1).0)
            &&& around_cell(around_state(radius, n + 1).0, radius as int)
            &&& around_index(around_state(radius, n + 1).0, radius as int) == n
        }),
        n >= around_total(radius as int) ==> around_item(radius, n) is None && around_step(
            around_state(radius, n).0,
            around_state(radius, n).1,
            radius,
        ).2,
{
    let rr = radius as int;
    lemma_around_states(radius, n);
    lemma_around_states(radius, n + 1);
    let s = around_state(radius, n);
    if radius > 0 && n <= around_total(rr) {
        lemma_around_one_step(radius, s, n as int);
        if n < around_total(rr) {
            let q = around_state(radius, n + 1).0;
            lemma_index_in_ring(q, rr);
        }
    }
    if n > around_total(rr) {
        lemma_items_before_grows(rr, 0, rr);
    }
}

/// Where a returned offset lies in the walk: its place is below the total, and the rings
/// of the walk come in order, `items_before(radius, r)` offsets before ring `r` starts.
pub proof fn lemma_around_index_range(p: Pos<i64>, radius: int)
    requires
        around_cell(p, radius),
    ensures
        items_before(radius, ring_of(p)) <= around_index(p, radius) < items_before(
            radius,
            ring_of(p) + 1,
        ),
        0 <= around_index(p, radius) < around_total(radius),
{
    lemma_index_in_ring(p, radius);
    lemma_items_before_grows(radius, ring_of(p) + 1, radius);
    lemma_items_before_grows(radius, 0, ring_of(p));
}

/// Two offsets the walk returns at the same place are the same offset.
pub proof fn lemma_around_index_injective(p: Pos<i64>, q: Pos<i64>, radius: int)
    requires
        around_cell(p, radius),
        around_cell(q, radius),
        around_index(p, radius) == around_index(q, radius),
    ensures
        p == q,
{
    lemma_around_index_range(p, radius);
    lemma_around_index_range(q, radius);
    let (rp, rq) = (ring_of(p), ring_of(q));
    if rp < rq {
        lemma_items_before_grows(radius, rp + 1, rq);
    } else if rq < rp {
        lemma_items_before_grows(radius, rq + 1, rp);
    }
    assert(rp == rq);
    let r = rp;
    lemma_ring_index(p.x as int, p.z as int, r);
    lemma_mixed_radix(
        ring_index(p.x as int, p.z as int, r),
        p.y - column_bottom(radius, r),
        ring_index(q.x as int, q.z as int, r),
        q.y - column_bottom(radius, r),
        column_items(radius, r),
    );
    lemma_ring_index_injective(p.x as int, p.z as int, q.x as int, q.z as int, r);
}

/// No offset comes twice: calls `m < n` that both return an offset return different ones.
pub proof fn lemma_around_no_repeat(radius: i64, m: nat, n: nat)
    requires
        0 <= radius < i64::MAX,
        m < n,
        n < around_total(radius as int),
    ensures
        around_item(radius, m) is Some,
        around_item(radius, n) is Some,
        around_item(radius, m) != around_item(radius, n),
{
    lemma_around_walk(radius, m);
    lemma_around_walk(radius, n);
}

/// Every column offset within the radius, at every height of its column, is returned, at
/// the call given by its place in the walk.
pub proof fn lemma_around_covers(radius: i64, p: Pos<i64>)
    requires
        0 <= radius < i64::MAX,
        around_cell(p, radius as int),
    ensures
        0 <= around_index(p, radius as int) < around_total(radius as int),
        around_item(radius, around_index(p, radius as int) as nat) == Some(p),
{
    let rr = radius as int;
    lemma_around_index_range(p, rr);
    let n = around_index(p, rr) as nat;
    lemma_around_walk(radius, n);
    lemma_around_index_injective(around_state(radius, n + 1).0, p, rr);
}

/// The rings of the returned offsets never go down.
pub proof fn lemma_around_rings_in_order(radius: i64, m: nat, n: nat)
    requires
        0 <= radius < i64::MAX,
        m <= n,
        n < around_total(radius as int),
    ensures
        ring_of(around_item(radius, m)->0) <= ring_of(around_item(radius, n)->0),
{
    let rr = radius as int;
    lemma_around_walk(radius, m);
    lemma_around_walk(radius, n);
    let p = around_item(radius, m)->0;
    let q = around_item(radius, n)->0;
    lemma_around_index_range(p, rr);
    lemma_around_index_range(q, rr);
    if ring_of(q) < ring_of(p) {
        lemma_items_before_grows(rr, ring_of(q) + 1, ring_of(p));
    }
}

} // verus!
