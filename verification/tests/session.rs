use tetris_core::color::Color;
use tetris_core::game::Msg;
use tetris_core::geometry::Direction;
use tetris_core::map::Field;
use tetris_core::tetrimino::{Generator, Tetrimino};
use tetris_core::tetris::Tetris;

#[test]
fn new_game_starts_empty() {
    let game = Tetris::new();
    assert_eq!(game.score(), 0);
    assert_eq!(game.lines(), 0);
    assert_eq!(game.level(), 0);
    assert_eq!(game.level_time(), 1000);
    let mut it = game.map_iter();
    let mut count: usize = 0;
    while let Some(_) = it.next() {
        count += 1;
    }
    assert_eq!(count, 160);
}

#[test]
fn scoring_three_rows_by_level() {
    // three rows at level 0 earn exactly 300 points
    let mut game = Tetris::new();
    game.apply_score(3);
    assert_eq!(game.score(), 300);
    assert_eq!(game.lines(), 3);
    assert_eq!(game.level(), 0);

    // at level 1 the same clear earns exactly 600
    let mut advanced = Tetris::new();
    for _ in 0..5 {
        advanced.apply_score(4);
    }
    assert_eq!(advanced.level(), 1);
    let before = advanced.score();
    advanced.apply_score(3);
    assert_eq!(advanced.score(), before + 600);
}

#[test]
fn scoring_table_at_level_zero() {
    for (cleared, points) in [(1usize, 40usize), (2, 100), (3, 300), (4, 1200)] {
        let mut game = Tetris::new();
        game.apply_score(cleared);
        assert_eq!(game.score(), points);
    }
}

#[test]
fn level_up_at_twenty_lines_not_nineteen() {
    let mut game = Tetris::new();
    // 19 cleared lines leave the game at level 0
    for _ in 0..4 {
        game.apply_score(4);
    }
    game.apply_score(3);
    assert_eq!(game.lines(), 19);
    assert_eq!(game.level(), 0);
    // the twentieth reaches the threshold
    game.apply_score(1);
    assert_eq!(game.lines(), 20);
    assert_eq!(game.level(), 1);
}

#[test]
fn level_time_table() {
    let expected: [u64; 10] = [1000, 850, 700, 600, 500, 400, 300, 250, 220, 190];
    let mut game = Tetris::new();
    let mut level = 0usize;
    loop {
        assert_eq!(game.level_time(), expected[level.min(9)]);
        if level >= 10 {
            break;
        }
        // two tetrises per level step
        game.apply_score(4);
        game.apply_score(4);
        if game.level() == level {
            game.apply_score(4);
            game.apply_score(4);
            game.apply_score(4);
        }
        level = game.level();
    }
}

#[test]
fn o_shape_descends_to_the_floor_and_locks() {
    // radial steps Right, Down, Left at the spawn anchor on an empty field
    let mut field = Field::new(Color::Non);
    let generator = Generator::new();
    let mut piece = generator.O();
    // lowest block starts at row 16: sixteen descents reach the floor
    for step in 0..16 {
        assert!(piece.shift(Direction::Dwn, &mut field), "descent {} failed", step);
    }
    assert_eq!(piece.center().y, 1);
    // on the floor the next descent must fail
    assert!(!piece.shift(Direction::Dwn, &mut field));
    assert_eq!(piece.center().y, 1);
}

#[test]
fn rotation_cycle_restores_bounding_box() {
    // full four-rotation cycle on an empty field: two turns clockwise, two
    // back, with no collision anywhere
    let generator = Generator::new();
    for piece0 in [
        generator.I(),
        generator.J(),
        generator.L(),
        generator.O(),
        generator.S(),
        generator.Z(),
        generator.T(),
    ] {
        let mut field = Field::new(Color::Non);
        let mut piece = piece0;
        // bring it onto the open field so every kick has room
        for _ in 0..8 {
            assert!(piece.shift(Direction::Dwn, &mut field));
        }
        let b0 = piece.bounds();
        let w0 = b0.x_axis.len();
        let h0 = b0.y_axis.len();
        assert!(piece.rotate(true, &mut field));
        assert!(piece.rotate(true, &mut field));
        assert!(piece.rotate(false, &mut field));
        assert!(piece.rotate(false, &mut field));
        let b1 = piece.bounds();
        assert_eq!(w0, b1.x_axis.len());
        assert_eq!(h0, b1.y_axis.len());
    }
}

#[test]
fn generator_colors_pieces_apart_from_background() {
    let mut generator = Generator::new();
    let bg = generator.map_bg();
    assert_ne!(bg, Color::Non);
    for _ in 0..40 {
        let piece = generator.gen();
        assert_ne!(piece.color(), bg);
        assert_ne!(piece.color(), Color::Non);
    }
}

#[test]
fn commands_without_active_piece_are_ignored() {
    let mut game = Tetris::new();
    game.react_to(Msg::ShiftLft);
    game.react_to(Msg::ShiftRgt);
    game.react_to(Msg::Clockwise);
    game.react_to(Msg::Counterclockwise);
    assert_eq!(game.score(), 0);
    assert_eq!(game.lines(), 0);
    assert_eq!(game.level(), 0);
}

#[test]
fn advancing_spawns_and_descends() {
    let mut game = Tetris::new();
    // the first tick spawns a piece above the visible rows and descends it;
    // after enough ticks the piece locks and a new one spawns — the counters
    // stay monotonic throughout
    let mut last_score: usize = 0;
    let mut last_lines: usize = 0;
    for _ in 0..200 {
        game.proceed();
        game.react_to(Msg::ShiftLft);
        game.react_to(Msg::Clockwise);
        assert!(game.score() >= last_score);
        assert!(game.lines() >= last_lines);
        last_score = game.score();
        last_lines = game.lines();
    }
}

#[test]
fn pieces_are_four_blocks() {
    let generator = Generator::new();
    for piece in [
        generator.I(),
        generator.J(),
        generator.L(),
        generator.O(),
        generator.S(),
        generator.Z(),
        generator.T(),
    ] {
        let blocks = piece.blocks();
        assert_eq!(blocks.len(), 4);
        let mut it = piece.iter();
        for b in &blocks {
            assert_eq!(it.next(), Some(*b));
        }
        assert_eq!(it.next(), None);
    }
}

#[test]
fn t_shape_blocks_are_radial() {
    let t = Tetrimino::assemble(
        tetris_core::geometry::Coord::new(4, 8),
        vec![Direction::Lft, Direction::Top, Direction::Rgt],
        false,
        Color::Red,
    );
    let blocks = t.blocks();
    let got: Vec<(i8, i8)> = blocks.iter().map(|c| (c.x, c.y)).collect();
    assert_eq!(got, vec![(4, 8), (3, 8), (4, 9), (5, 8)]);
}

#[test]
fn color_palette_and_rgb() {
    let all = Color::all();
    assert_eq!(all.len(), 8);
    for c in &all {
        assert_ne!(*c, Color::Non);
    }
    assert_eq!(Color::Red.to_rgb(), (159, 70, 54));
    assert_eq!(Color::Non.to_rgb(), (0, 0, 0));
}

#[test]
fn shuffle_keeps_the_palette() {
    let mut colors = Color::all();
    let original = Color::all();
    tetris_core::random::shuffle_colors(&mut colors);
    assert_eq!(colors.len(), original.len());
    for c in &original {
        let mut before: usize = 0;
        let mut after: usize = 0;
        for x in &original {
            if x == c {
                before += 1;
            }
        }
        for x in &colors {
            if x == c {
                after += 1;
            }
        }
        assert_eq!(before, after);
    }
}

#[test]
fn non_serial_rnd_avoids_previous() {
    let mut prev = 0u8;
    for _ in 0..200 {
        let next = tetris_core::random::non_serial_rnd(prev, 7);
        assert!(next < 7);
        assert_ne!(next, prev);
        prev = next;
    }
}
