use tetris_core::color::Color;
use tetris_core::geometry::{Coord, Direction};
use tetris_core::map::Field;
use tetris_core::tetrimino::Tetrimino;

/// All 160 display colors, x fastest then y; with a `Non` background the
/// snapshot shows the raw cells.
fn snapshot(field: &Field) -> Vec<(i8, i8, Color)> {
    let mut it = field.iter();
    let mut out = Vec::new();
    while let Some((c, color)) = it.next() {
        out.push((c.x, c.y, color));
    }
    out
}

fn cell(snap: &[(i8, i8, Color)], x: i8, y: i8) -> Color {
    snap[(y as usize) * 10 + (x as usize)].2
}

/// A horizontal four-block bar with its leftmost block at `(x, y)`.
fn bar(x: i8, y: i8, color: Color) -> Tetrimino {
    Tetrimino::assemble(
        Coord::new(x, y),
        vec![Direction::Rgt, Direction::Rgt, Direction::Rgt],
        true,
        color,
    )
}

/// A two-by-two square with its lower-left block at `(x, y)`.
fn square(x: i8, y: i8, color: Color) -> Tetrimino {
    Tetrimino::assemble(
        Coord::new(x, y),
        vec![Direction::Rgt, Direction::Top, Direction::Lft],
        true,
        color,
    )
}

/// Locks the piece's blocks onto the field; the position must be legal.
fn lock(field: &mut Field, t: &Tetrimino) {
    assert!(field.put(t));
    field.kill();
}

/// Fills row `y` completely and additionally the cells `(8, y+1)` and
/// `(9, y+1)`.
fn fill_row(field: &mut Field, y: i8) {
    lock(field, &bar(0, y, Color::Red));
    lock(field, &bar(4, y, Color::Grn));
    lock(field, &square(8, y, Color::Blu));
}

#[test]
fn burn_on_empty_field_changes_nothing() {
    let mut field = Field::new(Color::Non);
    let before = snapshot(&field);
    assert_eq!(field.burn(), 0);
    let after = snapshot(&field);
    assert_eq!(before, after);
    for e in &after {
        assert_eq!(e.2, Color::Non);
    }
}

#[test]
fn burn_single_row_shifts_rows_down() {
    let mut field = Field::new(Color::Non);
    fill_row(&mut field, 0);
    // row 0 is complete, row 1 holds only the square's upper two blocks
    assert!(field.line_completed(0));
    assert!(!field.line_completed(1));
    assert_eq!(field.burn(), 1);
    let snap = snapshot(&field);
    // the old row 1 moved down to row 0
    assert_eq!(cell(&snap, 8, 0), Color::Blu);
    assert_eq!(cell(&snap, 9, 0), Color::Blu);
    for x in 0..8i8 {
        assert_eq!(cell(&snap, x, 0), Color::Non);
    }
    // everything above is empty, including the new top row
    for y in 1..16i8 {
        for x in 0..10i8 {
            assert_eq!(cell(&snap, x, y), Color::Non);
        }
    }
}

#[test]
fn burn_four_rows_in_one_call() {
    let mut field = Field::new(Color::Non);
    // four complete rows 0..4, with spill-over blocks on rows 1 and 3
    lock(&mut field, &bar(0, 0, Color::Red));
    lock(&mut field, &bar(4, 0, Color::Red));
    lock(&mut field, &square(8, 0, Color::Red));
    lock(&mut field, &bar(0, 1, Color::Grn));
    lock(&mut field, &bar(4, 1, Color::Grn));
    lock(&mut field, &bar(0, 2, Color::Blu));
    lock(&mut field, &bar(4, 2, Color::Blu));
    lock(&mut field, &square(8, 2, Color::Blu));
    lock(&mut field, &bar(0, 3, Color::Wht));
    lock(&mut field, &bar(4, 3, Color::Wht));
    for y in 0..4 {
        assert!(field.line_completed(y));
    }
    // one call reports the whole run of four
    assert_eq!(field.burn(), 4);
    let snap = snapshot(&field);
    for y in 0..16i8 {
        for x in 0..10i8 {
            assert_eq!(cell(&snap, x, y), Color::Non);
        }
    }
}

#[test]
fn burn_separate_runs_in_one_pass() {
    let mut field = Field::new(Color::Non);
    // complete rows 0 and 2; row 1 only partly filled
    fill_row(&mut field, 0);
    lock(&mut field, &bar(0, 2, Color::Ylw));
    lock(&mut field, &bar(4, 2, Color::Ylw));
    lock(&mut field, &square(8, 2, Color::Ylw));
    assert_eq!(field.burn(), 2);
    let snap = snapshot(&field);
    // the partial rows 1 and 3 compact down to rows 0 and 1
    assert_eq!(cell(&snap, 8, 0), Color::Blu);
    assert_eq!(cell(&snap, 9, 0), Color::Blu);
    assert_eq!(cell(&snap, 8, 1), Color::Ylw);
    assert_eq!(cell(&snap, 9, 1), Color::Ylw);
    for y in 2..16i8 {
        for x in 0..10i8 {
            assert_eq!(cell(&snap, x, y), Color::Non);
        }
    }
}

#[test]
fn burn_from_shifts_and_clears() {
    let mut field = Field::new(Color::Non);
    lock(&mut field, &bar(0, 5, Color::Pnk));
    // compact two rows away starting at row 3: row 5 moves to row 3
    field.burn_from(3, 2);
    let snap = snapshot(&field);
    for x in 0..4i8 {
        assert_eq!(cell(&snap, x, 3), Color::Pnk);
        assert_eq!(cell(&snap, x, 5), Color::Non);
    }
}

#[test]
fn rejected_placement_leaves_field_and_piece_unchanged() {
    let mut field = Field::new(Color::Non);
    lock(&mut field, &bar(0, 0, Color::Red));
    let before = snapshot(&field);

    // overlaps the locked bar
    let mut piece = square(2, 0, Color::Grn);
    assert!(!field.put(&piece));
    assert_eq!(snapshot(&field), before);

    // sticks out past the right wall
    piece = square(9, 5, Color::Grn);
    assert!(!field.put(&piece));
    assert_eq!(snapshot(&field), before);

    // below the floor
    piece = square(0, -1, Color::Grn);
    assert!(!field.put(&piece));
    assert_eq!(snapshot(&field), before);

    // a failed shift reverts the centre and the field
    let mut faller = square(0, 0, Color::Grn);
    let c0 = faller.center();
    assert!(!faller.shift(Direction::Dwn, &mut field));
    assert_eq!(faller.center(), c0);
    assert_eq!(snapshot(&field), before);
}

#[test]
fn headroom_blocks_are_legal_and_undrawn() {
    let mut field = Field::new(Color::Non);
    // a piece half above the visible rows is legal; only the visible half is drawn
    let piece = square(0, 15, Color::Vin);
    assert!(field.put(&piece));
    let snap = snapshot(&field);
    assert_eq!(cell(&snap, 0, 15), Color::Vin);
    assert_eq!(cell(&snap, 1, 15), Color::Vin);
}

#[test]
fn snapshot_substitutes_background_for_empty_cells() {
    let field = Field::new(Color::Gry);
    let snap = snapshot(&field);
    assert_eq!(snap.len(), 160);
    // x runs fastest, then y
    assert_eq!((snap[0].0, snap[0].1), (0, 0));
    assert_eq!((snap[9].0, snap[9].1), (9, 0));
    assert_eq!((snap[10].0, snap[10].1), (0, 1));
    assert_eq!((snap[159].0, snap[159].1), (9, 15));
    for e in &snap {
        assert_eq!(e.2, Color::Gry);
    }
}

#[test]
fn spawn_anchor_is_above_the_middle() {
    assert_eq!(Field::top(), Coord::new(4, 16));
}

#[test]
fn snapshot_walk_is_restartable() {
    let field = Field::new(Color::Gry);
    let mut it = field.iter();
    let first = it.next();
    assert!(first.is_some());
    while let Some(_) = it.next() {}
    it.reset();
    assert_eq!(it.next(), first);
}
