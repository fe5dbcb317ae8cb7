use lightcore::hud::{
    active_badge, cost_label, goal_display, moves_label, shop_button_status, special_move_counter,
    toggle_shop, ArmedBadge, CounterLook, GoalIcon, GoalTint, ShopButtonStatus,
};
use lightcore::lifecycle::{GameMode, GoalProgress, LevelGoal};
use lightcore::light::LightColor;
use lightcore::run::{BoonKind, RunState};
use lightcore::shop::{Shop, ShopItem, SpecialMoveInventory};

fn progress() -> GoalProgress {
    GoalProgress { score: 125, sparks_collected: 2, sparks_total: 5, shadows_left: 7, collected_cores: [0, 3, 11, 0, 0] }
}

#[test]
fn moves_badge_hides_without_a_move_limit() {
    assert_eq!(moves_label(GameMode::Classic(1), LevelGoal::Score(100), 17), Some("17".to_string()));
    assert_eq!(moves_label(GameMode::Sandbox, LevelGoal::Score(100), 17), None);
    assert_eq!(moves_label(GameMode::Run(2), LevelGoal::TimedScore { target: 9 }, 17), None);
    assert_eq!(moves_label(GameMode::Classic(1), LevelGoal::ClearShadow, 0), Some("0".to_string()));
}

#[test]
fn goal_panel_shows_progress_against_the_target() {
    let p = progress();
    let d = goal_display(GameMode::Classic(1), LevelGoal::Score(300), &p, 0);
    assert_eq!((d.icon, d.tint, d.primary.as_str(), d.target.as_str()), (GoalIcon::Core, GoalTint::Score, "125", "/ 300"));
    let d = goal_display(GameMode::Classic(1), LevelGoal::Sparks, &p, 0);
    assert_eq!((d.tint, d.primary.as_str(), d.target.as_str()), (GoalTint::Sparks, "2", "/ 5"));
    let d = goal_display(GameMode::Classic(1), LevelGoal::ClearShadow, &p, 0);
    assert_eq!((d.icon, d.tint, d.primary.as_str(), d.target.as_str()), (GoalIcon::Tile, GoalTint::Shadow, "7", ""));
    let d = goal_display(GameMode::Run(1), LevelGoal::TimedScore { target: 400 }, &p, 125);
    assert_eq!((d.tint, d.primary.as_str(), d.target.as_str()), (GoalTint::Clock, "02:05", "125 / 400"));
    let d = goal_display(GameMode::Run(1), LevelGoal::CollectColor { color: LightColor::Blue, target: 20 }, &p, 0);
    assert_eq!((d.tint, d.primary.as_str(), d.target.as_str()), (GoalTint::Color(LightColor::Blue), "11", "/ 20"));
    let d = goal_display(
        GameMode::Run(1),
        LevelGoal::TimedCollectColor { color: LightColor::Green, target: 8 },
        &p,
        3671,
    );
    assert_eq!((d.primary.as_str(), d.target.as_str()), ("61:11", "3 / 8"));
    let d = goal_display(GameMode::Sandbox, LevelGoal::Score(300), &p, 0);
    assert_eq!((d.tint, d.primary.as_str(), d.target.as_str()), (GoalTint::Score, "125", ""));
}

#[test]
fn shop_buttons_report_armed_price_and_max() {
    let mut run = RunState::default();
    let mut shop = Shop::default();
    assert_eq!(shop_button_status(&shop, ShopItem::Swap, &run, 20), ShopButtonStatus::Affordable);
    assert_eq!(shop_button_status(&shop, ShopItem::Eliminate, &run, 20), ShopButtonStatus::NotEnoughCores);
    shop.arm(ShopItem::Swap, false);
    assert_eq!(shop_button_status(&shop, ShopItem::Swap, &run, 0), ShopButtonStatus::Ready);
    shop.first_pick = Some(4);
    assert_eq!(shop_button_status(&shop, ShopItem::Swap, &run, 0), ShopButtonStatus::ChooseTarget);
    for _ in 0..3 {
        assert!(run.buy(BoonKind::RedValue));
    }
    let red = ShopItem::Boon(BoonKind::RedValue);
    assert_eq!(shop_button_status(&shop, red, &run, 1000), ShopButtonStatus::Max);
    assert_eq!(cost_label(red, &run), "MAX");
    assert_eq!(cost_label(ShopItem::Upgrade, &run), "90c");
    assert_eq!(cost_label(ShopItem::Life, &run), "80c");
}

#[test]
fn armed_badge_follows_the_armed_move() {
    let mut shop = Shop::default();
    assert_eq!(active_badge(&shop), None);
    shop.arm(ShopItem::Swap, true);
    assert_eq!(active_badge(&shop), Some(ArmedBadge::Swap));
    shop.first_pick = Some(9);
    assert_eq!(active_badge(&shop), Some(ArmedBadge::SwapSecondPick));
    shop.arm(ShopItem::Eliminate, true);
    assert_eq!(active_badge(&shop), Some(ArmedBadge::Eliminate));
    shop.arm(ShopItem::Upgrade, true);
    assert_eq!(active_badge(&shop), Some(ArmedBadge::Upgrade));
    shop.arm(ShopItem::Life, true);
    assert_eq!(active_badge(&shop), None);
}

#[test]
fn move_counters_show_count_and_state() {
    let mut inventory = SpecialMoveInventory::default();
    let mut shop = Shop::default();
    assert_eq!(special_move_counter(&inventory, &shop, ShopItem::Upgrade), ("0".to_string(), CounterLook::Empty));
    inventory.add(ShopItem::Upgrade);
    inventory.add(ShopItem::Upgrade);
    assert_eq!(special_move_counter(&inventory, &shop, ShopItem::Upgrade), ("2".to_string(), CounterLook::Owned));
    shop.arm(ShopItem::Upgrade, false);
    assert_eq!(special_move_counter(&inventory, &shop, ShopItem::Upgrade), ("2".to_string(), CounterLook::Armed));
}

#[test]
fn the_shop_toggle_waits_for_the_tutorial() {
    let mut shop = Shop::default();
    toggle_shop(&mut shop, true);
    assert!(!shop.open);
    toggle_shop(&mut shop, false);
    assert!(shop.open);
    toggle_shop(&mut shop, false);
    assert!(!shop.open);
}
