use tetris_core::geometry::{Coord, Direction, Rectangle, Segment};

fn collect_segment(seg: &Segment) -> Vec<i8> {
    let mut it = seg.iter();
    let mut out = Vec::new();
    while let Some(v) = it.next() {
        out.push(v);
    }
    out
}

#[test]
fn zigzag_mixed_interval() {
    let seg = Segment::new(-2, 5);
    let got = collect_segment(&seg);
    assert_eq!(got, vec![0, 1, -1, 2, -2, 3, 4, 5]);
}

#[test]
fn zigzag_positive_interval() {
    let seg = Segment::new(2, 5);
    assert_eq!(collect_segment(&seg), vec![2, 3, 4, 5]);
}

#[test]
fn zigzag_negative_interval() {
    let seg = Segment::new(-5, -2);
    assert_eq!(collect_segment(&seg), vec![-2, -3, -4, -5]);
}

#[test]
fn zigzag_counts_and_bounds() {
    for lo in -6i8..=6 {
        for hi in lo..=6 {
            let seg = Segment::new(lo, hi);
            let got = collect_segment(&seg);
            assert_eq!(got.len() as i16, hi as i16 - lo as i16 + 1);
            for &v in &got {
                assert!(lo <= v && v <= hi);
            }
            for i in 0..got.len() {
                for j in 0..i {
                    assert_ne!(got[i], got[j]);
                }
            }
            if lo <= 0 && 0 <= hi {
                assert_eq!(got[0], 0);
            }
        }
    }
}

#[test]
fn zigzag_iterator_resets() {
    let seg = Segment::new(-1, 1);
    let mut it = seg.iter();
    assert_eq!(it.next(), Some(0));
    assert_eq!(it.next(), Some(1));
    it.reset();
    assert_eq!(it.next(), Some(0));
    assert_eq!(it.next(), Some(1));
    assert_eq!(it.next(), Some(-1));
    assert_eq!(it.next(), None);
    assert_eq!(it.next(), None);
}

#[test]
fn rectangle_iter_y_outside_x_inside() {
    let rect = Rectangle::from_coords(Coord::new(-1, 0), Coord::new(1, 1));
    let mut it = rect.iter();
    let mut got = Vec::new();
    while let Some(c) = it.next() {
        got.push((c.x, c.y));
    }
    assert_eq!(
        got,
        vec![(0, 0), (1, 0), (-1, 0), (0, 1), (1, 1), (-1, 1)]
    );
}

#[test]
fn segment_operations() {
    let mut seg = Segment::new(7, -3);
    seg.ascending_order();
    assert_eq!(seg.lhe, -3);
    assert_eq!(seg.rhe, 7);
    assert_eq!(seg.len(), 11);
    assert!(seg.include_point(0));
    assert!(!seg.include_point(8));
    assert!(seg.include_segment(Segment::new(-1, 2)));
    assert!(!seg.include_segment(Segment::new(-4, 2)));
    seg.extend(9);
    assert_eq!(seg.rhe, 9);
    seg.extend(-5);
    assert_eq!(seg.lhe, -5);
    seg.extend(0);
    assert_eq!(seg.lhe, -5);
    assert_eq!(seg.rhe, 9);
}

#[test]
fn rectangle_operations() {
    let mut rect = Rectangle::from_coords(Coord::new(2, 3), Coord::new(0, 1));
    assert!(rect.include_point(1, 2));
    assert!(!rect.include_point(3, 2));
    rect.extend(Coord::new(4, -1));
    assert!(rect.include_point(4, -1));
    rect.translate(Coord::new(1, 1));
    assert_eq!(rect.x_axis.lhe, 1);
    assert_eq!(rect.x_axis.rhe, 5);
    assert_eq!(rect.y_axis.lhe, 0);
    assert_eq!(rect.y_axis.rhe, 4);
}

#[test]
fn move_to_forms_inverted_t() {
    // a 2-wide box re-anchored against a 4-wide box: bottoms align, the
    // narrower box is centred with its left edge one column in
    let mut narrow = Rectangle::from_coords(Coord::new(10, 5), Coord::new(11, 6));
    let wide = Rectangle::from_coords(Coord::new(0, 0), Coord::new(3, 1));
    let motion = narrow.move_to(&wide);
    assert_eq!(motion.x, -9);
    assert_eq!(motion.y, -5);
    assert_eq!(narrow.x_axis.lhe, 1);
    assert_eq!(narrow.x_axis.rhe, 2);
    assert_eq!(narrow.y_axis.lhe, 0);
    assert_eq!(narrow.y_axis.rhe, 1);
}

#[test]
fn direction_rotation_cycles() {
    let mut d = Direction::Top;
    d.rotate(true);
    assert_eq!(d, Direction::Rgt);
    d.rotate(true);
    assert_eq!(d, Direction::Dwn);
    d.rotate(false);
    assert_eq!(d, Direction::Rgt);
    d.rotate(false);
    assert_eq!(d, Direction::Top);
    for start in [Direction::Top, Direction::Rgt, Direction::Dwn, Direction::Lft] {
        let mut x = start;
        x.rotate(true);
        x.rotate(true);
        x.rotate(true);
        x.rotate(true);
        assert_eq!(x, start);
    }
}

#[test]
fn direction_unit_vectors() {
    assert_eq!(Direction::Top.as_coord(), Coord::new(0, 1));
    assert_eq!(Direction::Rgt.as_coord(), Coord::new(1, 0));
    assert_eq!(Direction::Dwn.as_coord(), Coord::new(0, -1));
    assert_eq!(Direction::Lft.as_coord(), Coord::new(-1, 0));
}
