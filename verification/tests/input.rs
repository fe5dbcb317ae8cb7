use lightcore::input::{apply_pointer_press, device_in_control, stick_fires, InputActions, LastInputDevice};
use lightcore::swap::{is_super_combo, moves_after_swap, star_partner_color, unmatched_swap};
use lightcore::lifecycle::Phase;
use lightcore::light::{LightColor, LightKind};

#[test]
fn navigation_gives_a_grid_step() {
    let mut a = InputActions::default();
    assert!(!a.any_nav());
    assert_eq!(a.nav_delta(), None);
    a.up = true;
    a.right = true;
    assert_eq!(a.nav_delta(), Some((1, 1)));
    a.down = true;
    assert_eq!(a.nav_delta(), Some((1, 0)));
    a.left = true;
    assert_eq!(a.nav_delta(), None);
    assert!(a.any_nav());
    assert!(!a.menu_back());
    a.pause = true;
    assert!(a.menu_back());
}

#[test]
fn stick_repeats_only_after_the_delay() {
    assert!(!stick_fires((0, 0), (1, 0), true));
    assert!(stick_fires((1, 0), (0, 0), false));
    assert!(!stick_fires((1, 0), (1, 0), false));
    assert!(stick_fires((1, 0), (1, 0), true));
    let mut a = InputActions::default();
    a.apply_stick((0, -1));
    assert!(a.down && !a.up && !a.left && !a.right);
}

#[test]
fn keyboard_actions_take_control_from_the_mouse() {
    let mut a = InputActions::default();
    assert_eq!(device_in_control(&a, false, LastInputDevice::Touch), LastInputDevice::Touch);
    assert_eq!(device_in_control(&a, true, LastInputDevice::Cursor), LastInputDevice::Pointer);
    a.confirm = true;
    assert_eq!(device_in_control(&a, true, LastInputDevice::Pointer), LastInputDevice::Cursor);
}

#[test]
fn swaps_cost_a_move_unless_free() {
    assert_eq!(moves_after_swap(5, false), 4);
    assert_eq!(moves_after_swap(0, false), 0);
    assert_eq!(moves_after_swap(5, true), 5);
    assert_eq!(
        star_partner_color(LightKind::Starburst, Some(LightColor::Red), LightKind::RayH, Some(LightColor::Blue)),
        Some(LightColor::Blue)
    );
    assert_eq!(
        star_partner_color(LightKind::Cross, Some(LightColor::Red), LightKind::Starburst, Some(LightColor::Blue)),
        Some(LightColor::Red)
    );
    assert_eq!(star_partner_color(LightKind::Cross, Some(LightColor::Red), LightKind::RayV, None), None);
    assert_eq!(unmatched_swap(false, true).next, Phase::SwapAnimating);
    assert!(unmatched_swap(false, true).revert);
    assert!(!unmatched_swap(true, true).revert);
    assert!(is_super_combo(3));
    assert!(!is_super_combo(2));
}

#[test]
fn a_pointer_press_confirms_only_on_end_screens() {
    let mut a = InputActions::default();
    apply_pointer_press(&mut a, Phase::Playing, true);
    assert!(!a.confirm);
    apply_pointer_press(&mut a, Phase::GameOver, false);
    assert!(!a.confirm);
    apply_pointer_press(&mut a, Phase::LevelComplete, true);
    assert!(a.confirm);
    let mut b = InputActions::default();
    apply_pointer_press(&mut b, Phase::GameOver, true);
    assert!(b.confirm);
    let mut c = InputActions::default();
    c.apply_stick((0, -1));
    assert!(c.down && !c.up && !c.left && !c.right);
    assert_eq!(c.nav_delta(), Some((0, -1)));
    assert!(c.menu_back() == false);
}
