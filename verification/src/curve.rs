//! Index-to-point reconstruction of a discrete self-similar space-filling
//! curve.
//!
//! The curve of order `o` visits every cell of a `2^o` by `2^o` grid exactly
//! once, consecutive visits one grid step apart.  The point at index `i` is
//! rebuilt from the bit-pairs of `i`, least significant first: the lowest
//! pair picks a corner of the unit square, and each further pair folds the
//! running point into one quadrant of the next larger square by a fixed
//! affine transform.  The whole sequence of `4^o` points is the traversal
//! order of the curve and drives the animation reveal.

use vstd::prelude::*;
use vstd::arithmetic::div_mod::{
    lemma_breakdown, lemma_div_pos_is_pos, lemma_fundamental_div_mod,
    lemma_fundamental_div_mod_converse_div, lemma_fundamental_div_mod_converse_mod,
    lemma_mod_division_less_than_divisor, lemma_multiply_divide_lt, lemma_small_mod,
};
use vstd::arithmetic::mul::{lemma_mul_is_commutative, lemma_mul_is_distributive_add_other_way};

verus! {

/// A point of the curve, in integer cell units of the `2^order` grid.
#[derive(Clone, Copy, Debug, PartialEq, Eq, Structural)]
pub struct CurvePoint {
    pub x: u32,
    pub y: u32,
}

/// Largest supported order: `4^15` points still index a `Vec` on every
/// machine width, one step beyond does not fit a 32-bit `usize`.
pub const MAX_ORDER: u32 = 15;

/// `2^n`, the side length of the grid of order `n`.
pub open spec fn pow2(n: nat) -> nat
    decreases n,
{
    if n == 0 {
        1
    } else {
        2 * pow2((n - 1) as nat)
    }
}

/// `4^n`, the number of curve points of order `n`.
pub open spec fn pow4(n: nat) -> nat
    decreases n,
{
    if n == 0 {
        1
    } else {
        4 * pow4((n - 1) as nat)
    }
}

proof fn lemma_pow2_pos(n: nat)
    ensures
        pow2(n) >= 1,
    decreases n,
{
    if n > 0 {
        lemma_pow2_pos((n - 1) as nat);
    }
}

proof fn lemma_pow4_pos(n: nat)
    ensures
        pow4(n) >= 1,
    decreases n,
{
    if n > 0 {
        lemma_pow4_pos((n - 1) as nat);
    }
}

proof fn lemma_pow2_mono(a: nat, b: nat)
    requires
        a <= b,
    ensures
        pow2(a) <= pow2(b),
    decreases b,
{
    if a < b {
        lemma_pow2_mono(a, (b - 1) as nat);
        lemma_pow2_pos((b - 1) as nat);
    }
}

proof fn lemma_pow4_mono(a: nat, b: nat)
    requires
        a <= b,
    ensures
        pow4(a) <= pow4(b),
    decreases b,
{
    if a < b {
        lemma_pow4_mono(a, (b - 1) as nat);
        lemma_pow4_pos((b - 1) as nat);
    }
}

proof fn lemma_pow_values()
    ensures
        pow2(15) == 0x8000,
        pow4(15) == 0x40000000,
{
    reveal_with_fuel(pow2, 17);
    reveal_with_fuel(pow4, 17);
}

/// Corner of the unit square picked by the lowest bit-pair of the index.
pub open spec fn base_point(code: int) -> (int, int) {
    if code == 0 {
        (0, 0)
    } else if code == 1 {
        (0, 1)
    } else if code == 2 {
        (1, 1)
    } else {
        (1, 0)
    }
}

/// Folds a point of the order-`j` square (side `l`) into one quadrant of
/// the next larger square, by the quadrant's fixed affine transform:
/// reflect across the diagonal, translate up, translate up-right, or
/// rotate-reflect into the lower right.
pub open spec fn fold_step(code: int, l: int, p: (int, int)) -> (int, int) {
    if code == 0 {
        (p.1, p.0)
    } else if code == 1 {
        (p.0, p.1 + l)
    } else if code == 2 {
        (p.0 + l, p.1 + l)
    } else {
        (2 * l - 1 - p.1, l - 1 - p.0)
    }
}

/// The curve point at index `i` of the order-`order` curve: the top
/// bit-pair selects the quadrant transform applied to the point of the
/// order one lower curve at the remaining bits.
pub open spec fn curve_point(order: nat, i: int) -> (int, int)
    decreases order,
{
    if order <= 1 {
        base_point(i % 4)
    } else {
        let sub = pow4((order - 1) as nat) as int;
        fold_step(
            i / sub,
            pow2((order - 1) as nat) as int,
            curve_point((order - 1) as nat, i % sub),
        )
    }
}

/// Two grid points one unit apart along exactly one axis.
pub open spec fn unit_step(p: (int, int), q: (int, int)) -> bool {
    ||| (p.0 == q.0 && (p.1 == q.1 + 1 || q.1 == p.1 + 1))
    ||| (p.1 == q.1 && (p.0 == q.0 + 1 || q.0 == p.0 + 1))
}

/// Every quadrant transform is an isometry of the grid: it keeps unit
/// steps unit steps.
proof fn lemma_fold_step_unit_step(code: int, l: int, p: (int, int), q: (int, int))
    requires
        unit_step(p, q),
    ensures
        unit_step(fold_step(code, l, p), fold_step(code, l, q)),
{
}

/// Every curve point lies inside the `2^order` by `2^order` grid.
pub proof fn lemma_curve_point_in_grid(order: nat, i: int)
    requires
        order >= 1,
        0 <= i < pow4(order),
    ensures
        0 <= curve_point(order, i).0 < pow2(order),
        0 <= curve_point(order, i).1 < pow2(order),
    decreases order,
{
    if order == 1 {
        assert(pow4(0) == 1);
        assert(pow4(1) == 4);
        assert(pow2(0) == 1);
        assert(pow2(1) == 2);
        lemma_small_mod(i as nat, 4);
    } else {
        let n1 = (order - 1) as nat;
        let sub = pow4(n1) as int;
        let l = pow2(n1) as int;
        lemma_pow4_pos(n1);
        lemma_pow2_pos(n1);
        lemma_mod_division_less_than_divisor(i, sub);
        lemma_curve_point_in_grid(n1, i % sub);
        lemma_div_pos_is_pos(i, sub);
        assert(i < sub * 4);
        lemma_multiply_divide_lt(i, sub, 4);
    }
}

/// Law: distinct indices give distinct curve points -- the traversal never
/// visits a cell twice.
pub proof fn lemma_curve_injective(order: nat, i: int, j: int)
    requires
        order >= 1,
        0 <= i < pow4(order),
        0 <= j < pow4(order),
        curve_point(order, i) == curve_point(order, j),
    ensures
        i == j,
    decreases order,
{
    if order == 1 {
        assert(pow4(0) == 1);
        assert(pow4(1) == 4);
        lemma_small_mod(i as nat, 4);
        lemma_small_mod(j as nat, 4);
    } else {
        let n1 = (order - 1) as nat;
        let sub = pow4(n1) as int;
        let l = pow2(n1) as int;
        lemma_pow4_pos(n1);
        lemma_pow2_pos(n1);
        let qi = i / sub;
        let ri = i % sub;
        let qj = j / sub;
        let rj = j % sub;
        lemma_fundamental_div_mod(i, sub);
        lemma_fundamental_div_mod(j, sub);
        lemma_mod_division_less_than_divisor(i, sub);
        lemma_mod_division_less_than_divisor(j, sub);
        lemma_div_pos_is_pos(i, sub);
        lemma_div_pos_is_pos(j, sub);
        assert(i < sub * 4);
        assert(j < sub * 4);
        lemma_multiply_divide_lt(i, sub, 4);
        lemma_multiply_divide_lt(j, sub, 4);
        lemma_curve_point_in_grid(n1, ri);
        lemma_curve_point_in_grid(n1, rj);
        // the four transforms fill four disjoint quadrants, so the codes
        // agree; each transform is invertible, so the sub-points agree too.
        assert(qi == qj);
        assert(curve_point(n1, ri) == curve_point(n1, rj));
        lemma_curve_injective(n1, ri, rj);
    }
}

/// The curve of any order starts in the lower left corner and ends in the
/// lower right corner of its grid.
pub proof fn lemma_curve_endpoints(order: nat)
    requires
        order >= 1,
    ensures
        curve_point(order, 0) == (0int, 0int),
        curve_point(order, pow4(order) - 1) == (pow2(order) - 1, 0int),
    decreases order,
{
    if order == 1 {
        assert(curve_point(1, 0) == (0int, 0int));
        assert(curve_point(1, 3) == (1int, 0int));
    } else {
        let sub = pow4((order - 1) as nat) as int;
        let l = pow2((order - 1) as nat) as int;
        lemma_pow4_pos((order - 1) as nat);
        lemma_pow2_pos((order - 1) as nat);
        lemma_curve_endpoints((order - 1) as nat);
        lemma_fundamental_div_mod_converse_div(0, sub, 0, 0);
        lemma_fundamental_div_mod_converse_mod(0, sub, 0, 0);
        let e = 4 * sub - 1;
        assert(e == 3 * sub + (sub - 1));
        lemma_fundamental_div_mod_converse_div(e, sub, 3, sub - 1);
        lemma_fundamental_div_mod_converse_mod(e, sub, 3, sub - 1);
        assert(curve_point(order, e) == fold_step(3, l, curve_point((order - 1) as nat, sub - 1)));
    }
}

/// Law: consecutive curve points are always one grid step apart, along a
/// single axis.
pub proof fn lemma_curve_adjacent(order: nat, i: int)
    requires
        order >= 1,
        0 <= i,
        i + 1 < pow4(order),
    ensures
        unit_step(curve_point(order, i), curve_point(order, i + 1)),
    decreases order,
{
    if order == 1 {
        assert(pow4(0) == 1);
        assert(pow4(1) == 4);
        lemma_small_mod(i as nat, 4);
        lemma_small_mod((i + 1) as nat, 4);
    } else {
        let n1 = (order - 1) as nat;
        let sub = pow4(n1) as int;
        let l = pow2(n1) as int;
        lemma_pow4_pos(n1);
        lemma_pow2_pos(n1);
        let q = i / sub;
        let r = i % sub;
        lemma_fundamental_div_mod(i, sub);
        lemma_mod_division_less_than_divisor(i, sub);
        if r + 1 < sub {
            lemma_fundamental_div_mod_converse_div(i + 1, sub, q, r + 1);
            lemma_fundamental_div_mod_converse_mod(i + 1, sub, q, r + 1);
            lemma_curve_adjacent(n1, r);
            lemma_fold_step_unit_step(q, l, curve_point(n1, r), curve_point(n1, r + 1));
        } else {
            assert(r == sub - 1);
            lemma_mul_is_distributive_add_other_way(sub, q, 1);
            assert((q + 1) * sub == q * sub + sub);
            lemma_fundamental_div_mod_converse_div(i + 1, sub, q + 1, 0);
            lemma_fundamental_div_mod_converse_mod(i + 1, sub, q + 1, 0);
            assert(i < sub * 4);
            lemma_multiply_divide_lt(i, sub, 4);
            if q == 3 {
                assert(i + 1 == 4 * sub);
                assert(false);
            }
            lemma_curve_endpoints(n1);
            assert(curve_point(order, i) == fold_step(q, l, (l - 1, 0int)));
            assert(curve_point(order, i + 1) == fold_step(q + 1, l, (0int, 0int)));
        }
    }
}

/// The quadrant code and remainder of an index at one folding level: the
/// index reduced to the next larger square splits into `sub` times the
/// quadrant code plus the index reduced to the current square.
proof fn lemma_quad_split(i: int, sub: int)
    requires
        0 <= i,
        0 < sub,
    ensures
        (i % (4 * sub)) / sub == (i / sub) % 4,
        (i % (4 * sub)) % sub == i % sub,
        0 <= (i / sub) % 4 < 4,
        0 <= i % sub < sub,
{
    lemma_mod_division_less_than_divisor(i, sub);
    lemma_mod_division_less_than_divisor(i / sub, 4);
    lemma_breakdown(i, sub, 4);
    let c = (i / sub) % 4;
    let r0 = i % sub;
    assert(i % (4 * sub) == sub * c + r0);
    lemma_mul_is_commutative(sub, c);
    lemma_fundamental_div_mod_converse_div(i % (4 * sub), sub, c, r0);
    lemma_fundamental_div_mod_converse_mod(i % (4 * sub), sub, c, r0);
}

/// The curve point at index `i` of the order-`order` curve, rebuilt by
/// folding one bit-pair of `i` at a time, least significant first.
pub fn curve_point_at(i: u64, order: u32) -> (p: CurvePoint)
    requires
        1 <= order <= MAX_ORDER,
        i < pow4(order as nat),
    ensures
        (p.x as int, p.y as int) == curve_point(order as nat, i as int),
        p.x < pow2(order as nat),
        p.y < pow2(order as nat),
{
    let code0 = i % 4;
    let mut x: u64;
    let mut y: u64;
    if code0 == 0 {
        x = 0;
        y = 0;
    } else if code0 == 1 {
        x = 0;
        y = 1;
    } else if code0 == 2 {
        x = 1;
        y = 1;
    } else {
        x = 1;
        y = 0;
    }
    proof {
        assert(pow2(0) == 1);
        assert(pow4(0) == 1);
        assert(pow2(1) == 2);
        assert(pow4(1) == 4);
        lemma_mod_division_less_than_divisor(i as int, 4);
        lemma_small_mod((i as int % 4) as nat, 4);
        assert((x as int, y as int) == curve_point(1, (i as int) % 4));
    }
    let mut j: u32 = 1;
    let mut l: u64 = 2;
    let mut sub: u64 = 4;
    while j < order
        invariant
            1 <= j <= order <= MAX_ORDER,
            i < pow4(order as nat),
            l == pow2(j as nat),
            sub == pow4(j as nat),
            2 <= l <= 0x8000,
            4 <= sub <= 0x40000000,
            (x as int, y as int) == curve_point(j as nat, (i as int) % (sub as int)),
            x < l,
            y < l,
        decreases order - j,
    {
        let code = (i / sub) % 4;
        proof {
            lemma_quad_split(i as int, sub as int);
            assert(pow4((j + 1) as nat) == 4 * pow4(j as nat));
            assert(pow2((j + 1) as nat) == 2 * pow2(j as nat));
        }
        if code == 0 {
            let t = x;
            x = y;
            y = t;
        } else if code == 1 {
            y = y + l;
        } else if code == 2 {
            x = x + l;
            y = y + l;
        } else {
            let nx = 2 * l - 1 - y;
            let ny = l - 1 - x;
            x = nx;
            y = ny;
        }
        proof {
            assert((x as int, y as int) == curve_point(
                (j + 1) as nat,
                (i as int) % (4 * (sub as int)),
            ));
            lemma_pow2_mono((j + 1) as nat, 15);
            lemma_pow4_mono((j + 1) as nat, 15);
            lemma_pow_values();
        }
        j = j + 1;
        l = 2 * l;
        sub = 4 * sub;
    }
    proof {
        lemma_small_mod(i as nat, pow4(order as nat));
    }
    CurvePoint { x: x as u32, y: y as u32 }
}

/// Errors of curve generation.
#[derive(Clone, Copy, Debug, PartialEq, Eq, Structural)]
pub enum CurveError {
    /// Order zero is degenerate: the recursion has no base square.
    DegenerateOrder,
    /// The order's `4^order` points would not fit a `Vec` index.
    OrderTooLarge,
}

/// The full point sequence of the order-`order` curve: index `k` holds the
/// curve point at `k`, so the vector's order is the traversal order.
pub fn curve_points(order: u32) -> (pts: Vec<CurvePoint>)
    requires
        1 <= order <= MAX_ORDER,
    ensures
        pts@.len() == pow4(order as nat),
        forall|k: int|
            0 <= k < pts@.len() ==> (#[trigger] pts@[k].x as int, pts@[k].y as int) == curve_point(
                order as nat,
                k,
            ),
        forall|k: int|
            0 <= k < pts@.len() ==> #[trigger] pts@[k].x < pow2(order as nat) && pts@[k].y < pow2(
                order as nat,
            ),
        forall|k: int|
            0 <= k && k + 1 < pts@.len() ==> unit_step(
                (#[trigger] pts@[k].x as int, pts@[k].y as int),
                (pts@[k + 1].x as int, pts@[k + 1].y as int),
            ),
        forall|k1: int, k2: int|
            0 <= k1 < k2 < pts@.len() ==> #[trigger] pts@[k1] != #[trigger] pts@[k2],
{
    let mut total: u64 = 1;
    let mut t: u32 = 0;
    while t < order
        invariant
            t <= order <= MAX_ORDER,
            total == pow4(t as nat),
            total <= 0x40000000,
        decreases order - t,
    {
        proof {
            assert(pow4((t + 1) as nat) == 4 * pow4(t as nat));
            lemma_pow4_mono((t + 1) as nat, 15);
            lemma_pow_values();
        }
        total = 4 * total;
        t = t + 1;
    }
    let mut pts: Vec<CurvePoint> = Vec::new();
    let mut k: u64 = 0;
    while k < total
        invariant
            1 <= order <= MAX_ORDER,
            total == pow4(order as nat),
            total <= 0x40000000,
            k <= total,
            pts@.len() == k,
            forall|m: int|
                0 <= m < pts@.len() ==> (
                #[trigger] pts@[m].x as int,
                pts@[m].y as int,
                ) == curve_point(order as nat, m),
            forall|m: int|
                0 <= m < pts@.len() ==> #[trigger] pts@[m].x < pow2(order as nat) && pts@[m].y
                    < pow2(order as nat),
        decreases total - k,
    {
        let p = curve_point_at(k, order);
        pts.push(p);
        k = k + 1;
    }
    proof {
        assert forall|m: int| 0 <= m && m + 1 < pts@.len() implies unit_step(
            (#[trigger] pts@[m].x as int, pts@[m].y as int),
            (pts@[m + 1].x as int, pts@[m + 1].y as int),
        ) by {
            lemma_curve_adjacent(order as nat, m);
        }
        assert forall|k1: int, k2: int| 0 <= k1 < k2 < pts@.len() implies #[trigger] pts@[k1]
            != #[trigger] pts@[k2] by {
            if pts@[k1] == pts@[k2] {
                assert((pts@[k1].x as int, pts@[k1].y as int) == curve_point(order as nat, k1));
                assert((pts@[k2].x as int, pts@[k2].y as int) == curve_point(order as nat, k2));
                lemma_curve_injective(order as nat, k1, k2);
            }
        }
    }
    pts
}

/// The ordered point sequence of a curve, rejecting a degenerate or
/// oversized order before generation begins.
pub fn generate_curve(order: u32) -> (r: Result<Vec<CurvePoint>, CurveError>)
    ensures
        r is Ok <==> 1 <= order <= MAX_ORDER,
        order == 0 ==> r == Result::<Vec<CurvePoint>, CurveError>::Err(
            CurveError::DegenerateOrder,
        ),
        order > MAX_ORDER ==> r == Result::<Vec<CurvePoint>, CurveError>::Err(
            CurveError::OrderTooLarge,
        ),
        r matches Ok(pts) ==> {
            &&& pts@.len() == pow4(order as nat)
            &&& forall|k: int|
                0 <= k < pts@.len() ==> (
                #[trigger] pts@[k].x as int,
                pts@[k].y as int,
                ) == curve_point(order as nat, k)
            &&& forall|k: int|
                0 <= k && k + 1 < pts@.len() ==> unit_step(
                    (#[trigger] pts@[k].x as int, pts@[k].y as int),
                    (pts@[k + 1].x as int, pts@[k + 1].y as int),
                )
        },
{
    if order == 0 {
        Err(CurveError::DegenerateOrder)
    } else if order > MAX_ORDER {
        Err(CurveError::OrderTooLarge)
    } else {
        Ok(curve_points(order))
    }
}

} // verus!
