//! Random cells of the arena.

use vstd::prelude::*;
use crate::grid::{Position, ARENA_HEIGHT, ARENA_WIDTH};

verus! {

/// Draws a number from `0` up to, but not including, `bound`.
///
/// The body calls `rand::Rng::gen_range(0, bound)` on the generator that
/// `rand::thread_rng()` returns. Not proved, but taken from `rand`'s
/// documentation: the result lies in the half-open range; the call panics
/// where the range is empty, which the precondition rules out. Which number
/// of the range comes back is left open.
#[verifier::external_body]
fn random_below(bound: i32) -> (r: i32)
    requires
        bound > 0,
    ensures
        0 <= r < bound,
{
    rand::Rng::gen_range(&mut rand::thread_rng(), 0, bound)
}

/// A cell of the arena, each coordinate drawn independently. The cell may
/// be one that the snake or a food item occupies.
pub fn random_cell() -> (cell: Position)
    ensures
        cell.in_arena(),
{
    let x: i32 = random_below(ARENA_WIDTH);
    let y: i32 = random_below(ARENA_HEIGHT);
    Position { x, y }
}

} // verus!
