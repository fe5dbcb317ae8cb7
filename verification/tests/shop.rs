use lightcore::run::{BoonKind, RunState};
use lightcore::grid::GridPos;
use lightcore::lifecycle::Phase;
use lightcore::swap::SwapData;
use lightcore::shop::{board_action_phase, press_board, press_shop_button, press_special_move, spend, BoardAction, Shop, ShopItem, SpecialMoveInventory};

#[test]
fn special_moves_are_inventory_until_they_are_used() {
    let mut inventory = SpecialMoveInventory::default();
    inventory.add(ShopItem::Swap);
    inventory.add(ShopItem::Swap);

    assert_eq!(inventory.count(ShopItem::Swap), 2);
    assert!(inventory.consume(ShopItem::Swap));
    assert_eq!(inventory.count(ShopItem::Swap), 1);
    assert!(inventory.consume(ShopItem::Swap));
    assert!(!inventory.consume(ShopItem::Swap));
}

#[test]
fn life_and_boons_cannot_enter_special_inventory() {
    let mut inventory = SpecialMoveInventory::default();
    inventory.add(ShopItem::Life);
    inventory.add(ShopItem::Boon(BoonKind::RedValue));

    assert_eq!(inventory.count(ShopItem::Life), 0);
    assert_eq!(inventory.count(ShopItem::Boon(BoonKind::RedValue)), 0);
}

#[test]
fn special_move_purchase_requires_a_second_confirmation_press() {
    let mut shop = Shop::default();
    let mut reserve: u32 = 100;
    let mut spent: u32 = 0;
    let mut run = RunState::default();
    let mut inventory = SpecialMoveInventory::default();

    press_shop_button(ShopItem::Swap, &mut shop, &mut reserve, &mut spent, &mut run, &mut inventory);
    assert_eq!(shop.pending_purchase_item(), Some(ShopItem::Swap));
    assert_eq!(reserve, 100);
    assert_eq!(inventory.count(ShopItem::Swap), 0);

    press_shop_button(ShopItem::Swap, &mut shop, &mut reserve, &mut spent, &mut run, &mut inventory);

    assert_eq!(shop.pending_purchase_item(), None);
    assert_eq!(reserve, 80);
    assert_eq!(inventory.count(ShopItem::Swap), 1);
}

#[test]
fn shop_prices_follow_the_item_and_boon_level() {
    let mut run = RunState::default();
    assert_eq!(ShopItem::Swap.cost(&run), Some(20));
    assert_eq!(ShopItem::Eliminate.cost(&run), Some(45));
    assert_eq!(ShopItem::Upgrade.cost(&run), Some(90));
    assert_eq!(ShopItem::Life.cost(&run), Some(80));
    assert_eq!(ShopItem::Boon(BoonKind::BlueMoves).cost(&run), Some(80));
    run.buy(BoonKind::BlueMoves);
    assert_eq!(ShopItem::Boon(BoonKind::BlueMoves).cost(&run), Some(125));
}

#[test]
fn life_is_bought_at_once_when_affordable() {
    let mut shop = Shop::default();
    shop.open = true;
    let mut reserve: u32 = 100;
    let mut spent: u32 = 5;
    let mut run = RunState::default();
    let mut inventory = SpecialMoveInventory::default();
    press_shop_button(ShopItem::Life, &mut shop, &mut reserve, &mut spent, &mut run, &mut inventory);
    assert_eq!(run.lives, 3);
    assert_eq!(reserve, 20);
    assert_eq!(spent, 85);
    assert!(!shop.open);
    // Not affordable any more: nothing bought.
    press_shop_button(ShopItem::Life, &mut shop, &mut reserve, &mut spent, &mut run, &mut inventory);
    assert_eq!(run.lives, 3);
    assert_eq!(reserve, 20);
}

#[test]
fn unaffordable_move_drops_the_pending_purchase() {
    let mut shop = Shop::default();
    let mut reserve: u32 = 50;
    let mut spent: u32 = 0;
    let mut run = RunState::default();
    let mut inventory = SpecialMoveInventory::default();
    press_shop_button(ShopItem::Eliminate, &mut shop, &mut reserve, &mut spent, &mut run, &mut inventory);
    assert_eq!(shop.pending_purchase_item(), Some(ShopItem::Eliminate));
    press_shop_button(ShopItem::Upgrade, &mut shop, &mut reserve, &mut spent, &mut run, &mut inventory);
    assert_eq!(shop.pending_purchase_item(), None);
    assert_eq!(reserve, 50);
    // A boon is never bought from the bar.
    press_shop_button(ShopItem::Boon(BoonKind::RedValue), &mut shop, &mut reserve, &mut spent, &mut run, &mut inventory);
    assert_eq!(run.level(BoonKind::RedValue), 0);
}

#[test]
fn spend_never_goes_below_zero() {
    let mut reserve: u32 = 10;
    let mut spent: u32 = 0;
    spend(&mut reserve, &mut spent, 45);
    assert_eq!(reserve, 0);
    assert_eq!(spent, 45);
}

fn cell(id: u64) -> GridPos {
    GridPos { x: id as i32, y: 2 }
}

#[test]
fn swap_move_picks_then_trades_two_lights() {
    let first = Some(cell(7));
    let mut shop = Shop::default();
    let mut inventory = SpecialMoveInventory::default();
    inventory.add(ShopItem::Swap);
    assert!(press_special_move(ShopItem::Swap, &mut shop, &inventory, true));
    assert_eq!(shop.armed_item(), Some(ShopItem::Swap));
    // The arming press itself is swallowed.
    assert_eq!(press_board(&mut shop, &mut inventory, false, true, Some((7, cell(7))), first, true), BoardAction::Nothing);
    assert_eq!(press_board(&mut shop, &mut inventory, false, true, Some((7, cell(7))), first, true), BoardAction::PickFirst(7));
    assert!(shop.has_first_pick());
    assert_eq!(press_board(&mut shop, &mut inventory, false, true, Some((7, cell(7))), first, true), BoardAction::CancelPick);
    assert_eq!(press_board(&mut shop, &mut inventory, false, true, Some((7, cell(7))), first, true), BoardAction::PickFirst(7));
    assert_eq!(press_board(&mut shop, &mut inventory, false, true, Some((9, cell(9))), first, true), BoardAction::Swap(SwapData { a: 7, b: Some(9), a_pos: cell(7), b_pos: cell(9), free: true }));
    assert!(!shop.is_armed());
    assert_eq!(inventory.count(ShopItem::Swap), 0);
}

#[test]
fn pressing_the_armed_counter_again_disarms_it() {
    let mut shop = Shop::default();
    let mut inventory = SpecialMoveInventory::default();
    assert!(!press_special_move(ShopItem::Eliminate, &mut shop, &inventory, false));
    inventory.add(ShopItem::Eliminate);
    assert!(press_special_move(ShopItem::Eliminate, &mut shop, &inventory, false));
    assert!(shop.is_armed());
    assert!(press_special_move(ShopItem::Eliminate, &mut shop, &inventory, false));
    assert!(!shop.is_armed());
    assert_eq!(inventory.count(ShopItem::Eliminate), 1);
}

#[test]
fn eliminate_and_upgrade_use_one_copy() {
    let first = None;
    let mut shop = Shop::default();
    let mut inventory = SpecialMoveInventory::default();
    inventory.add(ShopItem::Eliminate);
    inventory.add(ShopItem::Upgrade);
    press_special_move(ShopItem::Eliminate, &mut shop, &inventory, false);
    assert_eq!(press_board(&mut shop, &mut inventory, true, true, Some((3, cell(3))), first, true), BoardAction::Nothing);
    assert_eq!(press_board(&mut shop, &mut inventory, false, true, None, first, true), BoardAction::Nothing);
    assert_eq!(press_board(&mut shop, &mut inventory, false, true, Some((3, cell(3))), first, true), BoardAction::Eliminate(3));
    assert_eq!(inventory.count(ShopItem::Eliminate), 0);
    press_special_move(ShopItem::Upgrade, &mut shop, &inventory, false);
    assert_eq!(press_board(&mut shop, &mut inventory, false, true, Some((4, cell(4))), first, false), BoardAction::Nothing);
    assert!(shop.is_armed());
    assert_eq!(press_board(&mut shop, &mut inventory, false, true, Some((4, cell(4))), first, true), BoardAction::Upgrade(4));
    assert_eq!(inventory.count(ShopItem::Upgrade), 0);
    assert!(!shop.is_armed());
}

#[test]
fn an_armed_life_or_boon_is_just_disarmed_on_the_board() {
    let first = None;
    let mut inventory = SpecialMoveInventory::default();
    let mut shop = Shop::default();
    shop.arm(ShopItem::Life, false);
    assert_eq!(press_board(&mut shop, &mut inventory, false, true, Some((3, cell(3))), first, true), BoardAction::Disarmed);
    assert!(!shop.is_armed());
    shop.arm(ShopItem::Boon(BoonKind::BlueMoves), false);
    assert_eq!(press_board(&mut shop, &mut inventory, false, true, Some((3, cell(3))), first, true), BoardAction::Disarmed);
    assert_eq!(shop.armed_item(), None);
}

#[test]
fn adding_then_using_a_move_gives_the_inventory_back() {
    let mut inventory = SpecialMoveInventory::default();
    for item in [ShopItem::Swap, ShopItem::Eliminate, ShopItem::Upgrade] {
        let before = inventory.count(item);
        inventory.add(item);
        assert_eq!(inventory.count(item), before + 1);
        assert!(inventory.consume(item));
        assert_eq!(inventory.count(item), before);
    }
    inventory.add(ShopItem::Life);
    assert_eq!(inventory.count(ShopItem::Life), 0);
    assert!(!inventory.consume(ShopItem::Life));
}

#[test]
fn a_swap_whose_first_pick_is_gone_uses_no_copy() {
    let mut shop = Shop::default();
    let mut inventory = SpecialMoveInventory::default();
    inventory.add(ShopItem::Swap);
    shop.arm(ShopItem::Swap, false);
    let a = press_board(&mut shop, &mut inventory, false, true, Some((7, cell(7))), None, true);
    assert_eq!(a, BoardAction::PickFirst(7));
    assert_eq!(board_action_phase(a), None);
    let b = press_board(&mut shop, &mut inventory, false, true, Some((9, cell(9))), None, true);
    assert_eq!(b, BoardAction::CancelPick);
    assert!(!shop.has_first_pick());
    assert!(shop.is_armed());
    assert_eq!(inventory.count(ShopItem::Swap), 1);
    press_board(&mut shop, &mut inventory, false, true, Some((7, cell(7))), None, true);
    let c = press_board(&mut shop, &mut inventory, false, true, Some((9, cell(9))), Some(cell(7)), true);
    assert_eq!(c, BoardAction::Swap(SwapData { a: 7, b: Some(9), a_pos: cell(7), b_pos: cell(9), free: true }));
    assert_eq!(board_action_phase(c), Some(Phase::SwapAnimating));
    assert_eq!(board_action_phase(BoardAction::Eliminate(3)), Some(Phase::Popping));
    assert_eq!(inventory.count(ShopItem::Swap), 0);
}
