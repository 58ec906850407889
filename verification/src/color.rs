//! The palette of block colors. `Non` is the sentinel for an unoccupied grid
//! cell; the eight named colors mark pieces and, for one of them, the field
//! background.
use vstd::prelude::*;

verus! {

/// Number of named (non-sentinel) colors.
pub const N_COLORS: usize = 8;

#[derive(Debug, Clone, Copy, PartialEq, Eq, Structural)]
pub enum Color {
    Red,
    Grn,
    Blu,
    Wht,
    Ylw,
    Pnk,
    Vin,
    Gry,
    Non,
}

/// The eight named colors, in declaration order.
pub open spec fn all_colors() -> Seq<Color> {
    seq![
        Color::Red,
        Color::Grn,
        Color::Blu,
        Color::Wht,
        Color::Ylw,
        Color::Pnk,
        Color::Vin,
        Color::Gry,
    ]
}

impl Color {
    /// Every named color exactly once; the sentinel `Non` is not among them.
    pub fn all() -> (r: Vec<Color>)
        ensures
            r@ == all_colors(),
    {
        let mut v: Vec<Color> = Vec::new();
        v.push(Color::Red);
        v.push(Color::Grn);
        v.push(Color::Blu);
        v.push(Color::Wht);
        v.push(Color::Ylw);
        v.push(Color::Pnk);
        v.push(Color::Vin);
        v.push(Color::Gry);
        proof {
            assert(v@ =~= all_colors());
        }
        v
    }

    /// The color as an RGB triple for a renderer; the sentinel maps to black.
    pub fn to_rgb(&self) -> (r: (u8, u8, u8))
        ensures
            r == spec_rgb(*self),
    {
        match self {
            Color::Red => (159, 70, 54),
            Color::Grn => (7, 87, 91),
            Color::Blu => (120, 165, 163),
            Color::Wht => (241, 220, 201),
            Color::Ylw => (225, 177, 106),
            Color::Pnk => (255, 204, 187),
            Color::Vin => (30, 0, 0),
            Color::Gry => (254, 155, 151),
            Color::Non => (0, 0, 0),
        }
    }
}

pub open spec fn spec_rgb(c: Color) -> (u8, u8, u8) {
    match c {
        Color::Red => (159, 70, 54),
        Color::Grn => (7, 87, 91),
        Color::Blu => (120, 165, 163),
        Color::Wht => (241, 220, 201),
        Color::Ylw => (225, 177, 106),
        Color::Pnk => (255, 204, 187),
        Color::Vin => (30, 0, 0),
        Color::Gry => (254, 155, 151),
        Color::Non => (0, 0, 0),
    }
}

/// The named colors are pairwise distinct, so a shuffled palette never
/// assigns one of them twice.
pub proof fn lemma_all_colors_distinct()
    ensures
        all_colors().len() == N_COLORS,
        all_colors().no_duplicates(),
        forall|i: int| 0 <= i < all_colors().len() ==> all_colors()[i] != Color::Non,
{
    assert(all_colors().no_duplicates());
}

} // verus!
