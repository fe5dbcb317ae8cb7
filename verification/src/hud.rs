//! What the in-level HUD shows: the moves badge, the goal panel, the shop buttons' status and
//! price tags, and the badge of an armed special move.

use vstd::prelude::*;

use crate::lifecycle::{is_timed, GameMode, GoalProgress, LevelGoal};
use crate::light::LightColor;
use crate::run::RunState;
use crate::shop::{count_spec, item_cost, Shop, ShopItem, SpecialMoveInventory};
use crate::text::{decimal, push_decimal, push_str};

verus! {

/// Whether the level has no move limit: a sandbox, or a level against the clock.
pub open spec fn moves_unbounded(mode: GameMode, goal: LevelGoal) -> bool {
    mode.is_sandbox_spec() || goal is TimedScore || goal is TimedCollectColor
}

/// The moves badge: hidden (`None`) when the level has no move limit, else the moves left.
pub fn moves_label(mode: GameMode, goal: LevelGoal, moves: u32) -> (r: Option<String>)
    ensures
        moves_unbounded(mode, goal) ==> r is None,
        !moves_unbounded(mode, goal) ==> r is Some && r->0@ == decimal(moves as nat),
{
    if mode.is_sandbox() || is_timed(goal) {
        None
    } else {
        let mut s = String::new();
        push_decimal(&mut s, moves as u64);
        Some(s)
    }
}

/// The swatch the goal panel shows: a round core, or a square shadow tile.
#[derive(Clone, Copy, PartialEq, Eq, Debug, Structural)]
pub enum GoalIcon {
    Core,
    Tile,
}

/// The tint of the goal panel.
#[derive(Clone, Copy, PartialEq, Eq, Debug, Structural)]
pub enum GoalTint {
    /// Score and sandbox.
    Score,
    /// Sparks.
    Sparks,
    /// Shadows.
    Shadow,
    /// A score against the clock.
    Clock,
    /// The color to collect.
    Color(LightColor),
}

/// The goal panel: its swatch, its tint, the large figure and the text after it.
pub struct GoalDisplay {
    pub icon: GoalIcon,
    pub tint: GoalTint,
    pub primary: String,
    pub target: String,
}

/// `n` written with at least two digits (a leading `0` below 10).
pub open spec fn two_digits(n: nat) -> Seq<char> {
    if n < 10 {
        seq!['0'] + decimal(n)
    } else {
        decimal(n)
    }
}

/// A clock of `secs` seconds: minutes, a colon and seconds, each with at least two digits.
pub open spec fn clock_spec(secs: nat) -> Seq<char> {
    two_digits(secs / 60) + ":"@ + two_digits(secs % 60)
}

/// `"/ "` and `n`.
pub open spec fn out_of(n: nat) -> Seq<char> {
    "/ "@ + decimal(n)
}

/// `a`, `" / "` and `b`.
pub open spec fn ratio(a: nat, b: nat) -> Seq<char> {
    decimal(a) + " / "@ + decimal(b)
}

/// The goal panel's (icon, tint, large figure, text after it) for `goal` in `mode`, with
/// `remaining_secs` whole seconds on the level clock.
pub open spec fn goal_display_spec(mode: GameMode, goal: LevelGoal, p: GoalProgress, remaining_secs: u32) -> (
    GoalIcon,
    GoalTint,
    Seq<char>,
    Seq<char>,
) {
    if mode.is_sandbox_spec() {
        (GoalIcon::Core, GoalTint::Score, decimal(p.score as nat), Seq::empty())
    } else {
        match goal {
            LevelGoal::Score(target) => (
                GoalIcon::Core,
                GoalTint::Score,
                decimal(p.score as nat),
                out_of(target as nat),
            ),
            LevelGoal::Sparks => (
                GoalIcon::Core,
                GoalTint::Sparks,
                decimal(p.sparks_collected as nat),
                out_of(p.sparks_total as nat),
            ),
            LevelGoal::ClearShadow => (
                GoalIcon::Tile,
                GoalTint::Shadow,
                decimal(p.shadows_left as nat),
                Seq::empty(),
            ),
            LevelGoal::TimedScore { target } => (
                GoalIcon::Core,
                GoalTint::Clock,
                clock_spec(remaining_secs as nat),
                ratio(p.score as nat, target as nat),
            ),
            LevelGoal::CollectColor { color, target } => (
                GoalIcon::Core,
                GoalTint::Color(color),
                decimal(p.collected_cores@[color.index_spec()] as nat),
                out_of(target as nat),
            ),
            LevelGoal::TimedCollectColor { color, target } => (
                GoalIcon::Core,
                GoalTint::Color(color),
                clock_spec(remaining_secs as nat),
                ratio(p.collected_cores@[color.index_spec()] as nat, target as nat),
            ),
        }
    }
}

/// Appends `n` with at least two digits.
fn push_two_digits(s: &mut String, n: u32)
    ensures
        final(s)@ == old(s)@ + two_digits(n as nat),
{
    if n < 10 {
        push_str(s, "0");
        proof {
            reveal_strlit("0");
        }
    }
    push_decimal(s, n as u64);
    assert(final(s)@ =~= old(s)@ + two_digits(n as nat));
}

/// Appends the clock of `secs` seconds.
fn push_clock(s: &mut String, secs: u32)
    ensures
        final(s)@ == old(s)@ + clock_spec(secs as nat),
{
    push_two_digits(s, secs / 60);
    push_str(s, ":");
    push_two_digits(s, secs % 60);
    assert(final(s)@ =~= old(s)@ + clock_spec(secs as nat));
}

/// The text `"/ "` and `n`.
fn out_of_text(n: u32) -> (r: String)
    ensures
        r@ == out_of(n as nat),
{
    let mut s = String::new();
    push_str(&mut s, "/ ");
    push_decimal(&mut s, n as u64);
    s
}

/// The text `a`, `" / "` and `b`.
fn ratio_text(a: u32, b: u32) -> (r: String)
    ensures
        r@ == ratio(a as nat, b as nat),
{
    let mut s = String::new();
    push_decimal(&mut s, a as u64);
    push_str(&mut s, " / ");
    push_decimal(&mut s, b as u64);
    s
}

/// The decimal spelling of `n`.
fn number_text(n: u32) -> (r: String)
    ensures
        r@ == decimal(n as nat),
{
    let mut s = String::new();
    push_decimal(&mut s, n as u64);
    s
}

/// The goal panel for `goal` in `mode`, with `remaining_secs` whole seconds on the level clock.
pub fn goal_display(mode: GameMode, goal: LevelGoal, p: &GoalProgress, remaining_secs: u32) -> (r: GoalDisplay)
    ensures
        (r.icon, r.tint, r.primary@, r.target@) == goal_display_spec(mode, goal, *p, remaining_secs),
{
    if mode.is_sandbox() {
        return GoalDisplay {
            icon: GoalIcon::Core,
            tint: GoalTint::Score,
            primary: number_text(p.score),
            target: String::new(),
        };
    }
    match goal {
        LevelGoal::Score(target) => GoalDisplay {
            icon: GoalIcon::Core,
            tint: GoalTint::Score,
            primary: number_text(p.score),
            target: out_of_text(target),
        },
        LevelGoal::Sparks => GoalDisplay {
            icon: GoalIcon::Core,
            tint: GoalTint::Sparks,
            primary: number_text(p.sparks_collected),
            target: out_of_text(p.sparks_total),
        },
        LevelGoal::ClearShadow => GoalDisplay {
            icon: GoalIcon::Tile,
            tint: GoalTint::Shadow,
            primary: number_text(p.shadows_left),
            target: String::new(),
        },
        LevelGoal::TimedScore { target } => {
            let mut clock = String::new();
            push_clock(&mut clock, remaining_secs);
            GoalDisplay {
                icon: GoalIcon::Core,
                tint: GoalTint::Clock,
                primary: clock,
                target: ratio_text(p.score, target),
            }
        },
        LevelGoal::CollectColor { color, target } => GoalDisplay {
            icon: GoalIcon::Core,
            tint: GoalTint::Color(color),
            primary: number_text(p.collected_cores[color.index()]),
            target: out_of_text(target),
        },
        LevelGoal::TimedCollectColor { color, target } => {
            let mut clock = String::new();
            push_clock(&mut clock, remaining_secs);
            GoalDisplay {
                icon: GoalIcon::Core,
                tint: GoalTint::Color(color),
                primary: clock,
                target: ratio_text(p.collected_cores[color.index()], target),
            }
        },
    }
}

/// The status line of a shop button.
#[derive(Clone, Copy, PartialEq, Eq, Debug, Structural)]
pub enum ShopButtonStatus {
    /// The armed swap waits for its second light.
    ChooseTarget,
    /// The item is armed.
    Ready,
    /// The reserve covers the price.
    Affordable,
    /// The reserve is short of the price.
    NotEnoughCores,
    /// A boon at its top level.
    Max,
}

/// The status of `item`'s button: armed first, then by price against `reserve`.
pub open spec fn button_status_spec(shop: Shop, item: ShopItem, cost: Option<u32>, reserve: u32) -> ShopButtonStatus {
    if shop.armed == Some(item) {
        if item == ShopItem::Swap && shop.first_pick is Some {
            ShopButtonStatus::ChooseTarget
        } else {
            ShopButtonStatus::Ready
        }
    } else {
        match cost {
            Some(c) => if reserve >= c {
                ShopButtonStatus::Affordable
            } else {
                ShopButtonStatus::NotEnoughCores
            },
            None => ShopButtonStatus::Max,
        }
    }
}

/// The status of `item`'s shop button, given the run and the booster reserve.
pub fn shop_button_status(shop: &Shop, item: ShopItem, run: &RunState, reserve: u32) -> (r: ShopButtonStatus)
    ensures
        r == button_status_spec(*shop, item, item_cost(item, run@), reserve),
{
    if shop.armed_item() == Some(item) {
        if item == ShopItem::Swap && shop.has_first_pick() {
            ShopButtonStatus::ChooseTarget
        } else {
            ShopButtonStatus::Ready
        }
    } else {
        match item.cost(run) {
            Some(cost) => if reserve >= cost {
                ShopButtonStatus::Affordable
            } else {
                ShopButtonStatus::NotEnoughCores
            },
            None => ShopButtonStatus::Max,
        }
    }
}

/// The price tag: the price and `c`, or `MAX` for a boon at its top level.
pub open spec fn cost_label_spec(cost: Option<u32>) -> Seq<char> {
    match cost {
        Some(c) => decimal(c as nat) + "c"@,
        None => "MAX"@,
    }
}

/// The price tag of `item`'s button.
pub fn cost_label(item: ShopItem, run: &RunState) -> (r: String)
    ensures
        r@ == cost_label_spec(item_cost(item, run@)),
{
    let mut s = String::new();
    match item.cost(run) {
        Some(cost) => {
            push_decimal(&mut s, cost as u64);
            push_str(&mut s, "c");
        },
        None => push_str(&mut s, "MAX"),
    }
    s
}

/// The badge shown while a special move is armed.
#[derive(Clone, Copy, PartialEq, Eq, Debug, Structural)]
pub enum ArmedBadge {
    /// A swap with its first light picked.
    SwapSecondPick,
    /// A swap waiting for its first light.
    Swap,
    Eliminate,
    Upgrade,
}

/// The armed-move badge of `shop`: none when nothing, a life or a boon is armed.
pub open spec fn armed_badge_spec(shop: Shop) -> Option<ArmedBadge> {
    match shop.armed {
        Some(ShopItem::Swap) => if shop.first_pick is Some {
            Some(ArmedBadge::SwapSecondPick)
        } else {
            Some(ArmedBadge::Swap)
        },
        Some(ShopItem::Eliminate) => Some(ArmedBadge::Eliminate),
        Some(ShopItem::Upgrade) => Some(ArmedBadge::Upgrade),
        _ => None,
    }
}

/// The armed-move badge of `shop`.
pub fn active_badge(shop: &Shop) -> (r: Option<ArmedBadge>)
    ensures
        r == armed_badge_spec(*shop),
{
    match shop.armed_item() {
        Some(ShopItem::Swap) => if shop.has_first_pick() {
            Some(ArmedBadge::SwapSecondPick)
        } else {
            Some(ArmedBadge::Swap)
        },
        Some(ShopItem::Eliminate) => Some(ArmedBadge::Eliminate),
        Some(ShopItem::Upgrade) => Some(ArmedBadge::Upgrade),
        _ => None,
    }
}

/// How an owned special move's counter is drawn.
#[derive(Clone, Copy, PartialEq, Eq, Debug, Structural)]
pub enum CounterLook {
    /// The move is armed.
    Armed,
    /// At least one copy is owned.
    Owned,
    /// No copy is owned.
    Empty,
}

/// The counter of special move `item`: the number of copies owned, and how it is drawn.
pub fn special_move_counter(inventory: &SpecialMoveInventory, shop: &Shop, item: ShopItem) -> (r: (
    String,
    CounterLook,
))
    ensures
        r.0@ == decimal(count_spec(inventory@, item) as nat),
        r.1 == if shop.armed == Some(item) {
            CounterLook::Armed
        } else if count_spec(inventory@, item) > 0 {
            CounterLook::Owned
        } else {
            CounterLook::Empty
        },
{
    let count = inventory.count(item);
    let look = if shop.armed_item() == Some(item) {
        CounterLook::Armed
    } else if count > 0 {
        CounterLook::Owned
    } else {
        CounterLook::Empty
    };
    (number_text(count), look)
}

/// A press on the shop toggle opens or closes the panel, except while the tutorial is open.
pub fn toggle_shop(shop: &mut Shop, tutorial_open: bool)
    ensures
        *final(shop) == if tutorial_open { *old(shop) } else { Shop { open: !old(shop).open, ..*old(shop) } },
{
    if !tutorial_open {
        shop.open = !shop.open;
    }
}

} // verus!
