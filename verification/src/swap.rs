//! The bookkeeping of a player's swap: what it costs, the color a Starburst swap targets, and
//! what a swap that matches nothing does.

use vstd::prelude::*;

use crate::grid::GridPos;
use crate::lifecycle::Phase;
use crate::light::{LightColor, LightKind};

verus! {

/// A swap waiting to be resolved: piece `a` (which was on `a_pos`) traded places with piece `b`
/// (on `b_pos`), if any. A free swap (a shop Swap) costs no move and is never reverted.
#[derive(Clone, Copy, PartialEq, Eq, Debug, Structural)]
pub struct SwapData {
    pub a: u64,
    pub b: Option<u64>,
    pub a_pos: GridPos,
    pub b_pos: GridPos,
    pub free: bool,
}

/// The moves left after a swap: a paid swap costs one move (never below 0); a free one (bought
/// from the shop) costs none.
pub fn moves_after_swap(moves: u32, free: bool) -> (r: u32)
    ensures
        r == if free || moves == 0 { moves } else { (moves - 1) as u32 },
{
    if free {
        moves
    } else {
        moves.saturating_sub(1)
    }
}

/// The color a Starburst in a power swap targets: its partner's color (`a_color`/`b_color` are
/// the colors on the two swapped cells, if known); `None` when neither light is a Starburst.
pub fn star_partner_color(
    a_kind: LightKind,
    a_color: Option<LightColor>,
    b_kind: LightKind,
    b_color: Option<LightColor>,
) -> (r: Option<LightColor>)
    ensures
        r == if a_kind == LightKind::Starburst {
            b_color
        } else if b_kind == LightKind::Starburst {
            a_color
        } else {
            None::<LightColor>
        },
{
    if a_kind == LightKind::Starburst {
        b_color
    } else if b_kind == LightKind::Starburst {
        a_color
    } else {
        None
    }
}

/// What a swap that forms no match does.
#[derive(Clone, Copy, PartialEq, Eq, Debug, Structural)]
pub struct UnmatchedSwap {
    /// Move the swapped pieces back to where they were.
    pub revert: bool,
    /// Tell the player the swap failed.
    pub failed: bool,
    /// The phase that follows.
    pub next: Phase,
}

/// A swap that formed no match: a paid swap is reverted (animated back) and reported as failed;
/// a free swap keeps its new arrangement and play goes on.
pub fn unmatched_swap(free: bool, pending: bool) -> (r: UnmatchedSwap)
    ensures
        r == if free {
            UnmatchedSwap { revert: false, failed: false, next: Phase::Playing }
        } else if pending {
            UnmatchedSwap { revert: true, failed: true, next: Phase::SwapAnimating }
        } else {
            UnmatchedSwap { revert: false, failed: true, next: Phase::Playing }
        },
{
    if free {
        UnmatchedSwap { revert: false, failed: false, next: Phase::Playing }
    } else if pending {
        UnmatchedSwap { revert: true, failed: true, next: Phase::SwapAnimating }
    } else {
        UnmatchedSwap { revert: false, failed: true, next: Phase::Playing }
    }
}

/// Whether a wave's power lights combine into a super combo that clears the whole board:
/// three or more of them.
pub fn is_super_combo(powers: usize) -> (r: bool)
    ensures
        r == (powers >= 3),
{
    powers >= 3
}

} // verus!
