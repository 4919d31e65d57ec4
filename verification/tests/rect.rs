use softblit::rect::coalesce;
use softblit::Rect;

#[test]
fn clip_drops_out_of_bounds() {
    assert_eq!(Rect::new(100, 0, 10, 10).clipped(50, 50), None);
    assert_eq!(Rect::new(0, 0, 0, 10).clipped(50, 50), None);
}

#[test]
fn clip_truncates_overhang() {
    assert_eq!(
        Rect::new(40, 45, 20, 20).clipped(50, 50),
        Some(Rect::new(40, 45, 10, 5))
    );
}

#[test]
fn disjoint_rects_stay_separate() {
    let out = coalesce(
        &[Rect::new(0, 0, 10, 10), Rect::new(20, 20, 10, 10)],
        100,
        100,
    );
    assert_eq!(out.len(), 2);
}

#[test]
fn overlapping_rects_merge() {
    let out = coalesce(
        &[Rect::new(0, 0, 10, 10), Rect::new(5, 5, 10, 10)],
        100,
        100,
    );
    assert_eq!(out, vec![Rect::new(0, 0, 15, 15)]);
}

#[test]
fn touching_rects_merge() {
    let out = coalesce(
        &[Rect::new(0, 0, 10, 10), Rect::new(10, 0, 10, 10)],
        100,
        100,
    );
    assert_eq!(out, vec![Rect::new(0, 0, 20, 10)]);
}

#[test]
fn chain_merge_reaches_fixpoint() {
    // Third rect bridges the first two.
    let out = coalesce(
        &[
            Rect::new(0, 0, 10, 10),
            Rect::new(30, 0, 10, 10),
            Rect::new(10, 0, 20, 10),
        ],
        100,
        100,
    );
    assert_eq!(out, vec![Rect::new(0, 0, 40, 10)]);
}

#[test]
fn dense_cluster_collapses_to_bbox() {
    // Two rects covering > 80% of their bounding box but not touching.
    let out = coalesce(
        &[Rect::new(0, 0, 100, 49), Rect::new(0, 51, 100, 49)],
        200,
        200,
    );
    assert_eq!(out, vec![Rect::new(0, 0, 100, 100)]);
}

#[test]
fn sparse_corners_do_not_collapse() {
    let out = coalesce(
        &[Rect::new(0, 0, 10, 10), Rect::new(190, 190, 10, 10)],
        200,
        200,
    );
    assert_eq!(out.len(), 2);
}

#[test]
fn too_many_rects_collapse_to_bbox() {
    // 65 disjoint 1x1 rects spaced out on one row.
    let rects: Vec<Rect> = (0..65).map(|i| Rect::new(i * 3, 0, 1, 1)).collect();
    let out = coalesce(&rects, 1000, 1000);
    assert_eq!(out, vec![Rect::new(0, 0, 64 * 3 + 1, 1)]);
}

#[test]
fn exactly_max_rects_stay_separate() {
    let rects: Vec<Rect> = (0..64).map(|i| Rect::new(i * 3, 0, 1, 1)).collect();
    let out = coalesce(&rects, 1000, 1000);
    assert_eq!(out.len(), 64);
}

#[test]
fn density_threshold_is_strict() {
    // Covered 80 of a 100-pixel bounding box: exactly four fifths, no collapse.
    let out = coalesce(
        &[Rect::new(0, 0, 10, 4), Rect::new(0, 6, 10, 4)],
        100,
        100,
    );
    assert_eq!(out.len(), 2);
    // 90 of 100: collapse.
    let out = coalesce(
        &[Rect::new(0, 0, 10, 5), Rect::new(0, 6, 10, 4)],
        100,
        100,
    );
    assert_eq!(out, vec![Rect::new(0, 0, 10, 10)]);
}

#[test]
fn coalesce_clips_and_drops() {
    let out = coalesce(
        &[Rect::new(90, 90, 50, 50), Rect::new(200, 0, 5, 5), Rect::new(0, 0, 0, 9)],
        100,
        100,
    );
    assert_eq!(out, vec![Rect::new(90, 90, 10, 10)]);
    assert!(coalesce(&[], 100, 100).is_empty());
}

#[test]
fn coalesced_rects_are_apart_and_cover_inputs() {
    let input = [
        Rect::new(0, 0, 10, 10),
        Rect::new(50, 50, 5, 5),
        Rect::new(9, 9, 3, 3),
        Rect::new(80, 0, 10, 10),
        Rect::new(56, 50, 1, 1),
    ];
    let out = coalesce(&input, 100, 100);
    for (i, a) in out.iter().enumerate() {
        assert!(a.within(100, 100) && !a.is_empty());
        for b in out.iter().skip(i + 1) {
            assert!(!a.overlaps_or_touches(*b));
        }
    }
    for r in input {
        let c = r.clipped(100, 100).unwrap();
        assert!(out.iter().any(|o| o.x <= c.x
            && o.y <= c.y
            && o.right() >= c.right()
            && o.bottom() >= c.bottom()));
    }
}

#[test]
fn union_and_touching() {
    let a = Rect::new(2, 3, 4, 5);
    let b = Rect::new(10, 1, 2, 2);
    assert_eq!(a.union(b), Rect::new(2, 1, 10, 7));
    assert_eq!(b.union(a), Rect::new(2, 1, 10, 7));
    assert!(!a.overlaps_or_touches(b));
    assert!(a.overlaps_or_touches(Rect::new(6, 8, 1, 1)));
    assert_eq!(a.right(), 6);
    assert_eq!(a.bottom(), 8);
    assert_eq!(a.area(), 20);
    assert!(a.within(6, 8));
    assert!(!a.within(5, 8));
}

#[test]
fn coalescing_twice_changes_nothing() {
    let inputs: [Vec<Rect>; 3] = [
        vec![Rect::new(10, 10, 20, 20), Rect::new(25, 25, 20, 20), Rect::new(80, 5, 3, 3)],
        vec![Rect::new(0, 0, 50, 50), Rect::new(50, 0, 50, 49), Rect::new(0, 51, 100, 49)],
        (0..70).map(|i| Rect::new(i * 10, i * 10, 1, 1)).collect(),
    ];
    for dirty in &inputs {
        let once = coalesce(dirty, 1000, 1000);
        assert_eq!(coalesce(&once, 1000, 1000), once);
    }
}
