//! Recursive spatial subdivision of an axis-aligned cuboid.
//!
//! One pass partitions a box into a 3x3x3 grid of thirds and keeps the 20
//! sub-positions whose offset vector has Manhattan norm greater than one:
//! the 8 corners and the 12 edge midpoints, dropping the body center and
//! the 6 face centers.  Repeating the pass over every box approximates a
//! 3-D fractal sponge.
//!
//! Thirds of integers are not integers, so a box stores its center and
//! extents as integer numerators over the implicit denominator `3^level`.
//! A child keeps the parent's extent numerators one level deeper (an exact
//! third) and its center numerator is `3 * c + o * e` for parent center
//! `c`, extent `e` and offset component `o` -- exact arithmetic at every
//! depth, even for a unit box.

use vstd::prelude::*;
use vstd::math::abs;

verus! {

/// Numerator magnitudes up to this bound subdivide without overflowing:
/// a child center numerator is at most `3 * |c| + e <= 4 * COORD_LIMIT`.
pub const COORD_LIMIT: i64 = 0x1fff_ffff_ffff_ffff;

/// An axis-aligned cuboid: center `(x, y, z)` and extents `(w, h, d)`,
/// all stored as integer numerators over the denominator `3^level`.
/// A freshly made box has level zero, so its fields are plain coordinates.
#[derive(Clone, Copy, Debug, PartialEq, Eq, Structural)]
pub struct Box3D {
    pub x: i64,
    pub y: i64,
    pub z: i64,
    pub w: i64,
    pub h: i64,
    pub d: i64,
    pub level: u32,
}

impl Box3D {
    /// A level-zero box from plain center and extent coordinates.
    pub fn new(x: i64, y: i64, z: i64, w: i64, h: i64, d: i64) -> (b: Box3D)
        ensures
            b == (Box3D { x, y, z, w, h, d, level: 0 }),
    {
        Box3D { x, y, z, w, h, d, level: 0 }
    }
}

/// The 20 child offset vectors of one subdivision pass, in the fixed
/// enumeration order of the pass (lexicographic over the 3x3x3 grid).
pub open spec fn offsets() -> Seq<(int, int, int)> {
    seq![
        (-1int, -1int, -1int),
        (-1int, -1int, 0int),
        (-1int, -1int, 1int),
        (-1int, 0int, -1int),
        (-1int, 0int, 1int),
        (-1int, 1int, -1int),
        (-1int, 1int, 0int),
        (-1int, 1int, 1int),
        (0int, -1int, -1int),
        (0int, -1int, 1int),
        (0int, 1int, -1int),
        (0int, 1int, 1int),
        (1int, -1int, -1int),
        (1int, -1int, 0int),
        (1int, -1int, 1int),
        (1int, 0int, -1int),
        (1int, 0int, 1int),
        (1int, 1int, -1int),
        (1int, 1int, 0int),
        (1int, 1int, 1int),
    ]
}

/// An offset vector of the 3x3x3 grid whose Manhattan norm exceeds one:
/// a corner or an edge midpoint, not the body center or a face center.
pub open spec fn is_child_offset(o: (int, int, int)) -> bool {
    &&& -1 <= o.0 <= 1
    &&& -1 <= o.1 <= 1
    &&& -1 <= o.2 <= 1
    &&& abs(o.0) + abs(o.1) + abs(o.2) > 1
}

/// A box whose numerators are small enough for one exact subdivision pass.
pub open spec fn can_subdivide(b: Box3D) -> bool {
    &&& -COORD_LIMIT <= b.x <= COORD_LIMIT
    &&& -COORD_LIMIT <= b.y <= COORD_LIMIT
    &&& -COORD_LIMIT <= b.z <= COORD_LIMIT
    &&& 0 < b.w <= COORD_LIMIT
    &&& 0 < b.h <= COORD_LIMIT
    &&& 0 < b.d <= COORD_LIMIT
    &&& b.level < u32::MAX
}

/// Center numerator of a child one level deeper: the parent center `c`
/// shifted by `o` thirds of the extent `e`, i.e. `(c + o * e / 3)` scaled
/// by three.
pub open spec fn child_center(c: int, e: int, o: int) -> int {
    3 * c + o * e
}

/// The child of `b` at offset `o`: extents an exact third (same numerators,
/// one level deeper), center shifted by one scaled extent per axis.
pub open spec fn child_box(b: Box3D, o: (int, int, int)) -> Box3D {
    Box3D {
        x: child_center(b.x as int, b.w as int, o.0) as i64,
        y: child_center(b.y as int, b.h as int, o.1) as i64,
        z: child_center(b.z as int, b.d as int, o.2) as i64,
        w: b.w,
        h: b.h,
        d: b.d,
        level: (b.level + 1) as u32,
    }
}

/// All 20 children of `b`, in the enumeration order of `offsets`.
pub open spec fn children_of(b: Box3D) -> Seq<Box3D> {
    offsets().map(|k: int, o: (int, int, int)| child_box(b, o))
}

/// The offset vector at position `k` of the pass's enumeration order.
fn offset_at(k: usize) -> (o: (i64, i64, i64))
    requires
        k < 20,
    ensures
        (o.0 as int, o.1 as int, o.2 as int) == offsets()[k as int],
        -1 <= o.0 <= 1,
        -1 <= o.1 <= 1,
        -1 <= o.2 <= 1,
{
    if k == 0 {
        (-1, -1, -1)
    } else if k == 1 {
        (-1, -1, 0)
    } else if k == 2 {
        (-1, -1, 1)
    } else if k == 3 {
        (-1, 0, -1)
    } else if k == 4 {
        (-1, 0, 1)
    } else if k == 5 {
        (-1, 1, -1)
    } else if k == 6 {
        (-1, 1, 0)
    } else if k == 7 {
        (-1, 1, 1)
    } else if k == 8 {
        (0, -1, -1)
    } else if k == 9 {
        (0, -1, 1)
    } else if k == 10 {
        (0, 1, -1)
    } else if k == 11 {
        (0, 1, 1)
    } else if k == 12 {
        (1, -1, -1)
    } else if k == 13 {
        (1, -1, 0)
    } else if k == 14 {
        (1, -1, 1)
    } else if k == 15 {
        (1, 0, -1)
    } else if k == 16 {
        (1, 0, 1)
    } else if k == 17 {
        (1, 1, -1)
    } else if k == 18 {
        (1, 1, 0)
    } else {
        (1, 1, 1)
    }
}

/// `o * e` for an offset component `o` in `{-1, 0, 1}`.
fn scaled_extent(o: i64, e: i64) -> (r: i64)
    requires
        -1 <= o <= 1,
        0 < e,
    ensures
        r == o * e,
        -e <= r <= e,
{
    if o == 1 {
        e
    } else if o == -1 {
        -e
    } else {
        0
    }
}

/// One subdivision pass over a single box: exactly its 20 children, in
/// the fixed enumeration order of `offsets`.
pub fn subdivide(b: &Box3D) -> (r: Vec<Box3D>)
    requires
        can_subdivide(*b),
    ensures
        r@.len() == 20,
        r@ == children_of(*b),
        forall|k: int| 0 <= k < 20 ==> r@[k] == child_box(*b, offsets()[k]),
{
    let mut out: Vec<Box3D> = Vec::new();
    let mut k: usize = 0;
    while k < 20
        invariant
            can_subdivide(*b),
            k <= 20,
            out@.len() == k,
            forall|j: int| 0 <= j < k ==> out@[j] == child_box(*b, offsets()[j]),
        decreases 20 - k,
    {
        let (oi, oj, ok) = offset_at(k);
        let cx = 3 * b.x + scaled_extent(oi, b.w);
        let cy = 3 * b.y + scaled_extent(oj, b.h);
        let cz = 3 * b.z + scaled_extent(ok, b.d);
        out.push(
            Box3D { x: cx, y: cy, z: cz, w: b.w, h: b.h, d: b.d, level: b.level + 1 },
        );
        k = k + 1;
    }
    proof {
        assert(out@ =~= children_of(*b));
    }
    out
}

/// One subdivision pass over every box of a collection, children emitted
/// box by box in the order of `offsets`.
pub open spec fn subdivide_all_spec(s: Seq<Box3D>) -> Seq<Box3D>
    decreases s.len(),
{
    if s.len() == 0 {
        Seq::empty()
    } else {
        children_of(s[0]) + subdivide_all_spec(s.drop_first())
    }
}

/// A subdivision pass maps `m` boxes to exactly `20 * m` boxes.
pub proof fn lemma_subdivide_all_spec_len(s: Seq<Box3D>)
    ensures
        subdivide_all_spec(s).len() == 20 * s.len(),
    decreases s.len(),
{
    if s.len() > 0 {
        lemma_subdivide_all_spec_len(s.drop_first());
    }
}

/// Appending a box to a collection appends its children to the pass.
proof fn lemma_subdivide_all_spec_push(s: Seq<Box3D>, b: Box3D)
    ensures
        subdivide_all_spec(s.push(b)) == subdivide_all_spec(s) + children_of(b),
    decreases s.len(),
{
    if s.len() == 0 {
        assert(s.push(b)[0] == b);
        assert(s.push(b).drop_first() =~= Seq::<Box3D>::empty());
        assert(subdivide_all_spec(Seq::<Box3D>::empty()) == Seq::<Box3D>::empty());
        assert(subdivide_all_spec(s.push(b)) == children_of(b) + Seq::<Box3D>::empty());
        assert(children_of(b) + Seq::<Box3D>::empty() =~= Seq::<Box3D>::empty() + children_of(
            b,
        ));
    } else {
        assert(s.push(b)[0] == s[0]);
        assert(s.push(b).drop_first() =~= s.drop_first().push(b));
        lemma_subdivide_all_spec_push(s.drop_first(), b);
        assert(subdivide_all_spec(s.push(b)) == children_of(s[0]) + (subdivide_all_spec(
            s.drop_first(),
        ) + children_of(b)));
        assert(children_of(s[0]) + (subdivide_all_spec(s.drop_first()) + children_of(b)) =~= (
        children_of(s[0]) + subdivide_all_spec(s.drop_first())) + children_of(b));
    }
}

/// The child at position `i * 20 + j` of a pass is the `j`-th child of the
/// `i`-th box: the pass preserves the enumeration order.
pub proof fn lemma_subdivide_all_spec_index(s: Seq<Box3D>, i: int, j: int)
    requires
        0 <= i < s.len(),
        0 <= j < 20,
    ensures
        subdivide_all_spec(s)[i * 20 + j] == child_box(s[i], offsets()[j]),
    decreases i,
{
    lemma_subdivide_all_spec_len(s.drop_first());
    if i > 0 {
        lemma_subdivide_all_spec_index(s.drop_first(), i - 1, j);
    }
}

/// Errors of the subdivision stage.
#[derive(Clone, Copy, Debug, PartialEq, Eq, Structural)]
pub enum FractalError {
    /// A pass was requested on an empty collection.
    EmptyCollection,
}

/// One subdivision pass over a whole collection: replaces every box by its
/// 20 children, keeping the enumeration order.  A pass over an empty
/// collection is degenerate and rejected.
pub fn subdivide_all(boxes: &Vec<Box3D>) -> (r: Result<Vec<Box3D>, FractalError>)
    requires
        forall|i: int| 0 <= i < boxes@.len() ==> can_subdivide(#[trigger] boxes@[i]),
    ensures
        r is Ok <==> boxes@.len() >= 1,
        boxes@.len() == 0 ==> r == Result::<Vec<Box3D>, FractalError>::Err(
            FractalError::EmptyCollection,
        ),
        r matches Ok(out) ==> out@ == subdivide_all_spec(boxes@),
        r matches Ok(out) ==> out@.len() == 20 * boxes@.len(),
{
    if boxes.len() == 0 {
        return Err(FractalError::EmptyCollection);
    }
    let mut out: Vec<Box3D> = Vec::new();
    let mut i: usize = 0;
    while i < boxes.len()
        invariant
            forall|t: int| 0 <= t < boxes@.len() ==> can_subdivide(#[trigger] boxes@[t]),
            i <= boxes@.len(),
            out@ == subdivide_all_spec(boxes@.subrange(0, i as int)),
        decreases boxes@.len() - i,
    {
        let mut children = subdivide(&boxes[i]);
        proof {
            lemma_subdivide_all_spec_push(boxes@.subrange(0, i as int), boxes@[i as int]);
            assert(boxes@.subrange(0, i as int).push(boxes@[i as int]) =~= boxes@.subrange(
                0,
                i as int + 1,
            ));
        }
        out.append(&mut children);
        i = i + 1;
    }
    proof {
        assert(boxes@.subrange(0, boxes@.len() as int) =~= boxes@);
        lemma_subdivide_all_spec_len(boxes@);
    }
    Ok(out)
}

/// The single-box initial state that a reset restores.
pub fn reset_collection(b: Box3D) -> (r: Vec<Box3D>)
    ensures
        r@.len() == 1,
        r@[0] == b,
{
    let mut out: Vec<Box3D> = Vec::new();
    out.push(b);
    out
}

/// `20^n`, the number of boxes after `n` passes over a single box.
pub open spec fn pow20(n: nat) -> nat
    decreases n,
{
    if n == 0 {
        1
    } else {
        20 * pow20((n - 1) as nat)
    }
}

/// The collection after `n` subdivision passes.
pub open spec fn subdivided_times(s: Seq<Box3D>, n: nat) -> Seq<Box3D>
    decreases n,
{
    if n == 0 {
        s
    } else {
        subdivide_all_spec(subdivided_times(s, (n - 1) as nat))
    }
}

/// Law: `n` subdivision passes starting from a single box yield exactly
/// `20^n` boxes.
pub proof fn lemma_subdivision_count(s: Seq<Box3D>, n: nat)
    requires
        s.len() == 1,
    ensures
        subdivided_times(s, n).len() == pow20(n),
    decreases n,
{
    if n > 0 {
        lemma_subdivision_count(s, (n - 1) as nat);
        lemma_subdivide_all_spec_len(subdivided_times(s, (n - 1) as nat));
    }
}

/// Law: the children's offset vectors are exactly the vectors of
/// `{-1, 0, 1}^3` with Manhattan norm greater than one -- the 8 corners
/// and the 12 edge midpoints of the 3x3x3 grid.
pub proof fn lemma_offsets_exactly_norm_gt_one(o: (int, int, int))
    ensures
        offsets().contains(o) <==> is_child_offset(o),
{
    if offsets().contains(o) {
        let k = choose|k: int| 0 <= k < offsets().len() && offsets()[k] == o;
        assert(is_child_offset(offsets()[k]));
    }
    if is_child_offset(o) {
        if o.0 == -1 {
            if o.1 == -1 {
                if o.2 == -1 {
                    assert(offsets()[0] == o);
                } else if o.2 == 0 {
                    assert(offsets()[1] == o);
                } else {
                    assert(offsets()[2] == o);
                }
            } else if o.1 == 0 {
                if o.2 == -1 {
                    assert(offsets()[3] == o);
                } else {
                    assert(offsets()[4] == o);
                }
            } else {
                if o.2 == -1 {
                    assert(offsets()[5] == o);
                } else if o.2 == 0 {
                    assert(offsets()[6] == o);
                } else {
                    assert(offsets()[7] == o);
                }
            }
        } else if o.0 == 0 {
            if o.1 == -1 {
                if o.2 == -1 {
                    assert(offsets()[8] == o);
                } else {
                    assert(offsets()[9] == o);
                }
            } else {
                if o.2 == -1 {
                    assert(offsets()[10] == o);
                } else {
                    assert(offsets()[11] == o);
                }
            }
        } else {
            if o.1 == -1 {
                if o.2 == -1 {
                    assert(offsets()[12] == o);
                } else if o.2 == 0 {
                    assert(offsets()[13] == o);
                } else {
                    assert(offsets()[14] == o);
                }
            } else if o.1 == 0 {
                if o.2 == -1 {
                    assert(offsets()[15] == o);
                } else {
                    assert(offsets()[16] == o);
                }
            } else {
                if o.2 == -1 {
                    assert(offsets()[17] == o);
                } else if o.2 == 0 {
                    assert(offsets()[18] == o);
                } else {
                    assert(offsets()[19] == o);
                }
            }
        }
    }
}

} // verus!
