//! The source of piece identities and of the shuffled color assignment. The
//! draws come from the `rand` crate behind two trusted items; everything
//! decided from a draw is verified for every value the draw could take.
use vstd::prelude::*;

use crate::color::Color;
use rand::seq::SliceRandom;

verus! {

/// Relies on `rand::random::<u8>`: an arbitrary byte. Nothing can be promised
/// of a random value, so nothing is.
#[verifier::external_body]
fn random_byte() -> u8 {
    rand::random::<u8>()
}

/// A value below `module` that differs from `prev`: draws are resampled while
/// they collide with `prev`, and after many collisions — possible only with
/// vanishing probability — the next value after `prev` is taken so that the
/// search terminates.
pub fn non_serial_rnd(prev: u8, module: u8) -> (r: u8)
    requires
        module >= 2,
    ensures
        r < module,
        r != prev,
{
    let mut tries: u8 = 0;
    while tries < 64
        invariant
            module >= 2,
        decreases 64 - tries,
    {
        let rnd = random_byte() % module;
        if rnd != prev {
            return rnd;
        }
        tries = tries + 1;
    }
    if prev >= module - 1 {
        0
    } else {
        prev + 1
    }
}

/// Relies on `rand::seq::SliceRandom::shuffle`: a Fisher-Yates pass of swaps,
/// so the slice afterwards holds the same elements, reordered in place.
#[verifier::external_body]
pub fn shuffle_colors(colors: &mut Vec<Color>)
    ensures
        final(colors)@.to_multiset() == old(colors)@.to_multiset(),
        final(colors)@.len() == old(colors)@.len(),
{
    colors.shuffle(&mut rand::thread_rng());
}

} // verus!
