//! The in-level shop: its items and prices, the owned special moves, the purchase that needs a
//! second confirming press, arming an owned move, and what a press on the board does while a
//! move is armed.

use vstd::prelude::*;

use crate::grid::GridPos;
use crate::lifecycle::Phase;
use crate::run::{level_spec, BoonKind, RunState, RunView, MAX_BOON_LEVEL};
use crate::swap::SwapData;

verus! {

/// What the shop sells.
#[derive(Clone, Copy, PartialEq, Eq, Debug, Structural)]
pub enum ShopItem {
    Swap,
    Eliminate,
    Upgrade,
    Life,
    Boon(BoonKind),
}

/// The price of `item` in the run `run`, or `None` for a boon at its top level.
pub open spec fn item_cost(item: ShopItem, run: RunView) -> Option<u32> {
    match item {
        ShopItem::Swap => Some(20),
        ShopItem::Eliminate => Some(45),
        ShopItem::Upgrade => Some(90),
        ShopItem::Life => Some(80),
        ShopItem::Boon(b) => if level_spec(run, b) < MAX_BOON_LEVEL {
            Some((b.base_cost() + level_spec(run, b) * 45) as u32)
        } else {
            None
        },
    }
}

/// The inventory slot of a special move (`None` for a life or a boon).
pub open spec fn slot_of(item: ShopItem) -> Option<int> {
    match item {
        ShopItem::Swap => Some(0),
        ShopItem::Eliminate => Some(1),
        ShopItem::Upgrade => Some(2),
        _ => None,
    }
}

impl ShopItem {
    /// The price of the item; a boon's is its next level's price, `None` at the top level.
    pub fn cost(self, run: &RunState) -> (r: Option<u32>)
        ensures
            r == item_cost(self, run@),
    {
        match self {
            ShopItem::Swap => Some(20),
            ShopItem::Eliminate => Some(45),
            ShopItem::Upgrade => Some(90),
            ShopItem::Life => Some(80),
            ShopItem::Boon(boon) => run.boon_cost(boon),
        }
    }

    /// Whether the item is a boon.
    pub fn is_boon(self) -> (r: bool)
        ensures
            r == (self is Boon),
    {
        match self {
            ShopItem::Boon(_) => true,
            _ => false,
        }
    }
}

/// The special moves bought and not yet used: one count per move.
pub struct SpecialMoveInventory {
    counts: [u32; 3],
}

impl View for SpecialMoveInventory {
    type V = Seq<u32>;

    closed spec fn view(&self) -> Seq<u32> {
        self.counts@
    }
}

/// How many copies of `item` the counts `inv` hold (0 for a life or a boon).
pub open spec fn count_spec(inv: Seq<u32>, item: ShopItem) -> u32 {
    match slot_of(item) {
        Some(i) => inv[i],
        None => 0,
    }
}

impl Default for SpecialMoveInventory {
    /// No special moves.
    fn default() -> (r: SpecialMoveInventory)
        ensures
            r@ == seq![0u32, 0u32, 0u32],
    {
        let r = SpecialMoveInventory { counts: [0u32; 3] };
        assert(r@ =~= seq![0u32, 0u32, 0u32]);
        r
    }
}

impl SpecialMoveInventory {
    /// The inventory slot of a special move.
    fn index(item: ShopItem) -> (r: Option<usize>)
        ensures
            match slot_of(item) {
                Some(i) => r == Some(i as usize),
                None => r is None,
            },
    {
        match item {
            ShopItem::Swap => Some(0),
            ShopItem::Eliminate => Some(1),
            ShopItem::Upgrade => Some(2),
            _ => None,
        }
    }

    /// How many copies of `item` are owned (0 for a life or a boon).
    pub fn count(&self, item: ShopItem) -> (r: u32)
        ensures
            r == count_spec(self@, item),
    {
        match Self::index(item) {
            Some(i) => self.counts[i],
            None => 0,
        }
    }

    /// Adds one copy of a special move (the count stops at `u32::MAX`); a life or a boon is
    /// never stored.
    pub fn add(&mut self, item: ShopItem)
        ensures
            match slot_of(item) {
                Some(i) => final(self)@ == old(self)@.update(
                    i,
                    if old(self)@[i] == u32::MAX { u32::MAX } else { (old(self)@[i] + 1) as u32 },
                ),
                None => final(self)@ == old(self)@,
            },
            final(self)@ == added(old(self)@, item),
    {
        if let Some(i) = Self::index(item) {
            self.counts[i] = self.counts[i].saturating_add(1);
            assert(self@ =~= old(self)@.update(
                i as int,
                if old(self)@[i as int] == u32::MAX { u32::MAX } else { (old(self)@[i as int] + 1) as u32 },
            ));
        }
    }

    /// Uses one copy of a special move; says whether one was owned.
    pub fn consume(&mut self, item: ShopItem) -> (r: bool)
        ensures
            r == (count_spec(old(self)@, item) > 0),
            r ==> final(self)@ == old(self)@.update(slot_of(item)->0, (old(self)@[slot_of(item)->0] - 1) as u32),
            !r ==> final(self)@ == old(self)@,
            final(self)@ == consumed(old(self)@, item),
    {
        let i = match Self::index(item) {
            Some(i) => i,
            None => {
                return false;
            },
        };
        if self.counts[i] == 0 {
            return false;
        }
        self.counts[i] = self.counts[i] - 1;
        assert(self@ =~= old(self)@.update(i as int, (old(self)@[i as int] - 1) as u32));
        true
    }

    /// Forgets every owned move.
    pub fn clear(&mut self)
        ensures
            final(self)@ == seq![0u32, 0u32, 0u32],
    {
        self.counts = [0u32; 3];
        assert(self@ =~= seq![0u32, 0u32, 0u32]);
    }
}

/// The shop's state: the armed move, the first light picked for a swap (by its id), whether
/// the press that armed the move must not also count as a board press, the purchase waiting
/// for its confirming press, and whether the shop panel is open.
#[derive(Clone, Copy, PartialEq, Eq, Debug, Structural)]
pub struct Shop {
    pub armed: Option<ShopItem>,
    pub first_pick: Option<u64>,
    pub ignore_board_press: bool,
    pub pending_purchase: Option<ShopItem>,
    pub open: bool,
}

impl Default for Shop {
    /// Nothing armed, picked or pending; the panel closed.
    fn default() -> (r: Shop)
        ensures
            r == (Shop {
                armed: None,
                first_pick: None,
                ignore_board_press: false,
                pending_purchase: None,
                open: false,
            }),
    {
        Shop { armed: None, first_pick: None, ignore_board_press: false, pending_purchase: None, open: false }
    }
}

/// The shop with nothing armed and nothing picked.
pub open spec fn disarmed(s: Shop) -> Shop {
    Shop { armed: None, ignore_board_press: false, first_pick: None, ..s }
}

impl Shop {
    /// Whether a move is armed.
    pub fn is_armed(&self) -> (r: bool)
        ensures
            r == (self.armed is Some),
    {
        self.armed.is_some()
    }

    /// The armed move.
    pub fn armed_item(&self) -> (r: Option<ShopItem>)
        ensures
            r == self.armed,
    {
        self.armed
    }

    /// Whether a first light is picked for a swap.
    pub fn has_first_pick(&self) -> (r: bool)
        ensures
            r == (self.first_pick is Some),
    {
        self.first_pick.is_some()
    }

    /// The purchase waiting for its confirming press.
    pub fn pending_purchase_item(&self) -> (r: Option<ShopItem>)
        ensures
            r == self.pending_purchase,
    {
        self.pending_purchase
    }

    /// Forgets the half-finished swap pick.
    pub fn clear_pick(&mut self)
        ensures
            *final(self) == (Shop { first_pick: None, ..*old(self) }),
    {
        self.first_pick = None;
    }

    /// Disarms the armed move and forgets the pick.
    pub fn disarm(&mut self)
        ensures
            *final(self) == disarmed(*old(self)),
    {
        self.armed = None;
        self.ignore_board_press = false;
        self.clear_pick();
    }

    /// Arms `item`; when the arming press was itself a fresh press, the board ignores it.
    pub fn arm(&mut self, item: ShopItem, just_pressed: bool)
        ensures
            *final(self) == (Shop { armed: Some(item), ignore_board_press: just_pressed, ..*old(self) }),
    {
        self.armed = Some(item);
        self.ignore_board_press = just_pressed;
    }

    /// Leaving play: disarms, drops any pending purchase and closes the panel.
    pub fn reset(&mut self)
        ensures
            *final(self) == (Shop { pending_purchase: None, open: false, ..disarmed(*old(self)) }),
    {
        self.disarm();
        self.pending_purchase = None;
        self.open = false;
    }
}

/// Spends `cost` from the booster reserve (never below 0) and adds it to the spent total.
pub fn spend(reserve: &mut u32, spent: &mut u32, cost: u32)
    requires
        *old(spent) + cost <= u32::MAX,
    ensures
        *final(reserve) == if *old(reserve) >= cost { (*old(reserve) - cost) as u32 } else { 0u32 },
        *final(spent) == *old(spent) + cost,
{
    *reserve = reserve.saturating_sub(cost);
    *spent = *spent + cost;
}

/// A press on the shop button of `item`. A life is bought at once when affordable (one more
/// life, the panel closes); a boon is never bought here; an unaffordable special move drops any
/// pending purchase; an affordable one becomes the pending purchase on the first press and is
/// bought on the next press of the same button (one more copy owned, the panel closes).
pub fn press_shop_button(
    item: ShopItem,
    shop: &mut Shop,
    reserve: &mut u32,
    spent: &mut u32,
    run: &mut RunState,
    inventory: &mut SpecialMoveInventory,
)
    requires
        item_cost(item, old(run)@) matches Some(c) ==> *old(spent) + c <= u32::MAX,
        item == ShopItem::Life ==> old(run)@.lives < u32::MAX,
    ensures
        match item_cost(item, old(run)@) {
            None => *final(shop) == *old(shop) && *final(reserve) == *old(reserve) && *final(spent) == *old(spent)
                && final(run)@ == old(run)@ && final(inventory)@ == old(inventory)@,
            Some(cost) => if item == ShopItem::Life {
                &&& final(inventory)@ == old(inventory)@
                &&& if *old(reserve) >= cost {
                    &&& final(run)@ == (RunView { lives: (old(run)@.lives + 1) as u32, ..old(run)@ })
                    &&& *final(reserve) == *old(reserve) - cost
                    &&& *final(spent) == *old(spent) + cost
                    &&& *final(shop) == (Shop { pending_purchase: None, open: false, ..*old(shop) })
                } else {
                    &&& final(run)@ == old(run)@
                    &&& *final(reserve) == *old(reserve)
                    &&& *final(spent) == *old(spent)
                    &&& *final(shop) == (Shop { pending_purchase: None, ..*old(shop) })
                }
            } else if item is Boon {
                *final(shop) == *old(shop) && *final(reserve) == *old(reserve) && *final(spent) == *old(spent)
                    && final(run)@ == old(run)@ && final(inventory)@ == old(inventory)@
            } else {
                &&& final(run)@ == old(run)@
                &&& if *old(reserve) < cost {
                    &&& *final(shop) == (Shop { pending_purchase: None, ..*old(shop) })
                    &&& *final(reserve) == *old(reserve) && *final(spent) == *old(spent)
                    &&& final(inventory)@ == old(inventory)@
                } else if old(shop).pending_purchase != Some(item) {
                    &&& *final(shop) == (Shop { pending_purchase: Some(item), ..*old(shop) })
                    &&& *final(reserve) == *old(reserve) && *final(spent) == *old(spent)
                    &&& final(inventory)@ == old(inventory)@
                } else {
                    &&& *final(shop) == (Shop { pending_purchase: None, open: false, ..*old(shop) })
                    &&& *final(reserve) == *old(reserve) - cost
                    &&& *final(spent) == *old(spent) + cost
                    &&& final(inventory)@ == old(inventory)@.update(
                        slot_of(item)->0,
                        if old(inventory)@[slot_of(item)->0] == u32::MAX {
                            u32::MAX
                        } else {
                            (old(inventory)@[slot_of(item)->0] + 1) as u32
                        },
                    )
                }
            },
        },
{
    let cost = match item.cost(run) {
        Some(c) => c,
        None => {
            return;
        },
    };
    if item == ShopItem::Life {
        shop.pending_purchase = None;
        if *reserve >= cost {
            run.add_life();
            spend(reserve, spent, cost);
            shop.open = false;
        }
        return;
    }
    if item.is_boon() {
        return;
    }
    if *reserve < cost {
        shop.pending_purchase = None;
        return;
    }
    if shop.pending_purchase != Some(item) {
        shop.pending_purchase = Some(item);
        return;
    }
    shop.pending_purchase = None;
    inventory.add(item);
    spend(reserve, spent, cost);
    shop.open = false;
}

/// A press on the counter of an owned special move: with no copy owned nothing happens;
/// otherwise the pending purchase is dropped and the move is disarmed when it was the armed one,
/// or else armed (after disarming any other and forgetting the pick). Returns whether anything
/// happened (the selection highlight is then cleared).
pub fn press_special_move(
    item: ShopItem,
    shop: &mut Shop,
    inventory: &SpecialMoveInventory,
    just_pressed: bool,
) -> (r: bool)
    ensures
        r == (count_spec(inventory@, item) > 0),
        !r ==> *final(shop) == *old(shop),
        r && old(shop).armed == Some(item) ==> *final(shop) == disarmed(
            Shop { pending_purchase: None, ..*old(shop) },
        ),
        r && old(shop).armed != Some(item) ==> *final(shop) == (Shop {
            armed: Some(item),
            ignore_board_press: just_pressed,
            first_pick: None,
            pending_purchase: None,
            ..*old(shop)
        }),
{
    if inventory.count(item) == 0 {
        return false;
    }
    shop.pending_purchase = None;
    if shop.armed == Some(item) {
        shop.disarm();
    } else {
        if shop.is_armed() {
            shop.disarm();
        }
        shop.clear_pick();
        shop.arm(item, just_pressed);
    }
    true
}

/// What a press on the board does while a special move is armed.
#[derive(Clone, Copy, PartialEq, Eq, Debug, Structural)]
pub enum BoardAction {
    /// Nothing happens.
    Nothing,
    /// The armed item was a life or a boon: it is just disarmed.
    Disarmed,
    /// Pop the light (one copy of Eliminate used).
    Eliminate(u64),
    /// Raise the light one tier (one copy of Upgrade used).
    Upgrade(u64),
    /// The light becomes the first pick of a swap (highlight it).
    PickFirst(u64),
    /// The pick is dropped: the first pick was pressed again, or it is no longer on the board.
    CancelPick,
    /// The first pick and this light trade places: the pieces move to each other's cells and
    /// this free swap (one copy of Swap used) is handed to the swap resolution.
    Swap(SwapData),
}

/// The phase a board action leads to, if it changes the phase: an Eliminate pops its light,
/// and a shop Swap plays the swap animation.
pub open spec fn board_action_phase_spec(a: BoardAction) -> Option<Phase> {
    match a {
        BoardAction::Eliminate(_) => Some(Phase::Popping),
        BoardAction::Swap(_) => Some(Phase::SwapAnimating),
        _ => None,
    }
}

/// The phase a board action leads to, if it changes the phase.
pub fn board_action_phase(a: BoardAction) -> (r: Option<Phase>)
    ensures
        r == board_action_phase_spec(a),
{
    match a {
        BoardAction::Eliminate(_) => Some(Phase::Popping),
        BoardAction::Swap(_) => Some(Phase::SwapAnimating),
        _ => None,
    }
}

/// A press on the board while `shop` is armed. `target` is the light under the press and its
/// cell, if any; `first_pos` is the cell of the light picked first for a swap, if that light is
/// still on the board; `can_upgrade` says whether the target has a next tier. An Eliminate or
/// Upgrade (when the light can be raised) uses a copy and disarms; a Swap first picks a light,
/// drops the pick on the same light or when the first pick is gone, and on a second light uses a
/// copy and trades the two as a free swap (nothing stays armed). Nothing happens while the
/// tutorial is open, without a fresh press, with no light under it, or when nothing is armed;
/// the first press right after arming is swallowed.
pub fn press_board(
    shop: &mut Shop,
    inventory: &mut SpecialMoveInventory,
    tutorial_open: bool,
    just_pressed: bool,
    target: Option<(u64, GridPos)>,
    first_pos: Option<GridPos>,
    can_upgrade: bool,
) -> (r: BoardAction)
    ensures
        ({
            let s = *old(shop);
            if tutorial_open || s.armed is None || !just_pressed {
                r == BoardAction::Nothing && *final(shop) == s && final(inventory)@ == old(inventory)@
            } else if s.ignore_board_press {
                r == BoardAction::Nothing && *final(shop) == (Shop { ignore_board_press: false, ..s })
                    && final(inventory)@ == old(inventory)@
            } else if target is None {
                r == BoardAction::Nothing && *final(shop) == s && final(inventory)@ == old(inventory)@
            } else {
                let tp = target->0;
                let t = tp.0;
                let t_pos = tp.1;
                let item = s.armed->0;
                match item {
                    ShopItem::Life | ShopItem::Boon(_) => r == BoardAction::Disarmed && *final(shop)
                        == disarmed(s) && final(inventory)@ == old(inventory)@,
                    ShopItem::Eliminate => r == BoardAction::Eliminate(t) && *final(shop) == disarmed(s)
                        && final(inventory)@ == consumed(old(inventory)@, item),
                    ShopItem::Upgrade => if can_upgrade {
                        r == BoardAction::Upgrade(t) && *final(shop) == disarmed(s) && final(inventory)@
                            == consumed(old(inventory)@, item)
                    } else {
                        r == BoardAction::Nothing && *final(shop) == s && final(inventory)@ == old(inventory)@
                    },
                    ShopItem::Swap => match s.first_pick {
                        None => r == BoardAction::PickFirst(t) && *final(shop) == (Shop {
                            first_pick: Some(t),
                            ..s
                        }) && final(inventory)@ == old(inventory)@,
                        Some(f) => if f == t || first_pos is None {
                            r == BoardAction::CancelPick && *final(shop) == (Shop { first_pick: None, ..s })
                                && final(inventory)@ == old(inventory)@
                        } else {
                            r == BoardAction::Swap(
                                SwapData { a: f, b: Some(t), a_pos: first_pos->0, b_pos: t_pos, free: true },
                            ) && *final(shop) == (Shop { first_pick: None, armed: None, ..s })
                                && final(inventory)@ == consumed(old(inventory)@, item)
                        },
                    },
                }
            }
        }),
{
    if tutorial_open {
        return BoardAction::Nothing;
    }
    let item = match shop.armed {
        Some(item) => item,
        None => {
            return BoardAction::Nothing;
        },
    };
    if !just_pressed {
        return BoardAction::Nothing;
    }
    if shop.ignore_board_press {
        shop.ignore_board_press = false;
        return BoardAction::Nothing;
    }
    let (t, t_pos) = match target {
        Some(tp) => tp,
        None => {
            return BoardAction::Nothing;
        },
    };
    match item {
        ShopItem::Boon(_) | ShopItem::Life => {
            shop.disarm();
            BoardAction::Disarmed
        },
        ShopItem::Eliminate => {
            inventory.consume(item);
            shop.disarm();
            BoardAction::Eliminate(t)
        },
        ShopItem::Upgrade => {
            if can_upgrade {
                inventory.consume(item);
                shop.disarm();
                BoardAction::Upgrade(t)
            } else {
                BoardAction::Nothing
            }
        },
        ShopItem::Swap => match shop.first_pick {
            None => {
                shop.first_pick = Some(t);
                BoardAction::PickFirst(t)
            },
            Some(first) => {
                if first == t {
                    shop.clear_pick();
                    BoardAction::CancelPick
                } else {
                    match first_pos {
                        None => {
                            shop.clear_pick();
                            BoardAction::CancelPick
                        },
                        Some(a_pos) => {
                            inventory.consume(item);
                            shop.clear_pick();
                            shop.armed = None;
                            BoardAction::Swap(SwapData { a: first, b: Some(t), a_pos, b_pos: t_pos, free: true })
                        },
                    }
                }
            },
        },
    }
}

/// The counts after using one copy of `item` when one is owned.
pub open spec fn consumed(inv: Seq<u32>, item: ShopItem) -> Seq<u32> {
    if count_spec(inv, item) > 0 {
        inv.update(slot_of(item)->0, (inv[slot_of(item)->0] - 1) as u32)
    } else {
        inv
    }
}

/// The counts after adding one copy of `item` (a special move; the count stops at `u32::MAX`).
pub open spec fn added(inv: Seq<u32>, item: ShopItem) -> Seq<u32> {
    match slot_of(item) {
        Some(i) => inv.update(i, if inv[i] == u32::MAX { u32::MAX } else { (inv[i] + 1) as u32 }),
        None => inv,
    }
}

/// An inventory always holds one count per special move.
pub proof fn lemma_inventory_len(inv: SpecialMoveInventory)
    ensures
        inv@.len() == 3,
{
}

/// Law: owned special moves are an inventory: adding a copy of a special move and then using
/// one gives back the inventory as it was (below the counter's limit), and a life or a boon
/// leaves the inventory as it is.
pub proof fn lemma_add_then_consume(inv: SpecialMoveInventory, item: ShopItem)
    requires
        count_spec(inv@, item) < u32::MAX,
    ensures
        slot_of(item) is Some ==> count_spec(added(inv@, item), item) == count_spec(inv@, item) + 1
            && consumed(added(inv@, item), item) == inv@,
        slot_of(item) is None ==> added(inv@, item) == inv@ && consumed(inv@, item) == inv@,
{
    if slot_of(item) is Some {
        assert(consumed(added(inv@, item), item) =~= inv@);
    }
}

/// Law: using a copy of `item` takes exactly one copy of it when one is owned and none
/// otherwise, and leaves every other item's count as it was.
pub proof fn lemma_consumed_counts(inv: SpecialMoveInventory, item: ShopItem, other: ShopItem)
    ensures
        count_spec(consumed(inv@, item), other) == if other == item && count_spec(inv@, item) > 0 {
            (count_spec(inv@, item) - 1) as u32
        } else {
            count_spec(inv@, other)
        },
{
}

} // verus!
