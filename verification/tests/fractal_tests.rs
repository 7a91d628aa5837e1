use fractal_anim::fractal::{reset_collection, subdivide, subdivide_all, Box3D, FractalError};

/// The 20 offset vectors of a pass, in its enumeration order: every vector
/// of {-1,0,1}^3 whose Manhattan norm exceeds one.
fn expected_offsets() -> Vec<(i64, i64, i64)> {
    let mut v = Vec::new();
    for i in -1..=1i64 {
        for j in -1..=1i64 {
            for k in -1..=1i64 {
                if i.abs() + j.abs() + k.abs() > 1 {
                    v.push((i, j, k));
                }
            }
        }
    }
    v
}

#[test]
fn one_pass_yields_twenty_children() {
    let parent = Box3D::new(0, 0, 0, 90, 90, 90);
    let kids = subdivide(&parent);
    assert_eq!(kids.len(), 20);
}

#[test]
fn children_are_exact_thirds_at_the_expected_offsets() {
    let parent = Box3D::new(12, -9, 30, 90, 60, 120);
    let kids = subdivide(&parent);
    let offs = expected_offsets();
    assert_eq!(kids.len(), offs.len());
    for (c, &(i, j, k)) in kids.iter().zip(offs.iter()) {
        // extents keep the parent's numerators one level deeper: a third.
        assert_eq!((c.w, c.h, c.d), (parent.w, parent.h, parent.d));
        assert_eq!(c.level, parent.level + 1);
        // translating back by the parent center and dividing by the scaled
        // extent recovers the child's offset vector exactly.
        assert_eq!(c.x - 3 * parent.x, i * parent.w);
        assert_eq!(c.y - 3 * parent.y, j * parent.h);
        assert_eq!(c.z - 3 * parent.z, k * parent.d);
    }
}

#[test]
fn corner_child_of_ninety_cube_sits_at_thirty() {
    let parent = Box3D::new(0, 0, 0, 90, 90, 90);
    let kids = subdivide(&parent);
    let corner = kids[19];
    // numerators are over 3^level: at level one, (90, 90, 90) is the
    // point (30, 30, 30), and extents 90 are 30.
    assert_eq!(corner.level, 1);
    assert_eq!((corner.x / 3, corner.y / 3, corner.z / 3), (30, 30, 30));
    assert_eq!((corner.x % 3, corner.y % 3, corner.z % 3), (0, 0, 0));
    assert_eq!((corner.w / 3, corner.h / 3, corner.d / 3), (30, 30, 30));
}

#[test]
fn repeated_passes_multiply_counts_by_twenty() {
    let start = reset_collection(Box3D::new(0, 0, 0, 1, 1, 1));
    assert_eq!(start.len(), 1);
    let once = subdivide_all(&start).expect("non-empty");
    assert_eq!(once.len(), 20);
    let twice = subdivide_all(&once).expect("non-empty");
    assert_eq!(twice.len(), 400);
    let thrice = subdivide_all(&twice).expect("non-empty");
    assert_eq!(thrice.len(), 8000);
}

#[test]
fn pass_keeps_the_enumeration_order_box_by_box() {
    let a = Box3D::new(0, 0, 0, 9, 9, 9);
    let b = Box3D::new(100, 100, 100, 3, 3, 3);
    let both = vec![a, b];
    let out = subdivide_all(&both).expect("non-empty");
    assert_eq!(out.len(), 40);
    assert_eq!(&out[..20], &subdivide(&a)[..]);
    assert_eq!(&out[20..], &subdivide(&b)[..]);
}

#[test]
fn empty_collection_is_rejected() {
    let empty: Vec<Box3D> = Vec::new();
    assert_eq!(subdivide_all(&empty), Err(FractalError::EmptyCollection));
}

#[test]
fn reset_restores_a_single_box() {
    let b = Box3D::new(0, 0, 0, 100, 100, 100);
    let collection = reset_collection(b);
    assert_eq!(collection.len(), 1);
    assert_eq!(collection[0], b);
}
