use lightcore::grid::GridPos;
use lightcore::light::{LightColor, LightKind};
use lightcore::wave::{
    absorb_wave, combo_swap_queue, find_light, find_light_at, orphan_covers, plan_match,
    removed_lights, settle_queued_wave, shadows_after_stasis, swap_pair_activations, swap_pieces, BoardLight,
    PowerActivation,
};

fn light(id: u64, x: i32, y: i32, color: LightColor, kind: LightKind) -> BoardLight {
    BoardLight { id, pos: GridPos { x, y }, color, kind }
}

fn board() -> Vec<BoardLight> {
    vec![
        light(1, 0, 0, LightColor::Red, LightKind::Normal),
        light(2, 1, 0, LightColor::Red, LightKind::RayH),
        light(3, 2, 0, LightColor::Blue, LightKind::Supernova),
        light(4, 3, 0, LightColor::Green, LightKind::Cross),
        light(5, 4, 0, LightColor::Yellow, LightKind::Normal),
        light(6, 5, 0, LightColor::Purple, LightKind::Starburst),
    ]
}

fn sorted(mut v: Vec<u64>) -> Vec<u64> {
    v.sort();
    v
}

fn act(x: i32, y: i32, kind: LightKind) -> PowerActivation {
    PowerActivation { pos: GridPos { x, y }, kind, partner_color: None }
}

#[test]
fn lights_are_found_by_id_and_by_cell() {
    let b = board();
    assert_eq!(find_light(&b, 3).map(|l| l.kind), Some(LightKind::Supernova));
    assert_eq!(find_light(&b, 99), None);
    assert_eq!(find_light_at(&b, GridPos { x: 4, y: 0 }).map(|l| l.id), Some(5));
    assert_eq!(find_light_at(&b, GridPos { x: 4, y: 1 }), None);
}

#[test]
fn a_queued_wave_queues_the_powers_it_reaches() {
    let b = board();
    // The RayH at (1,0) fires; its wave takes lights 1, 2 and 3.
    let w = settle_queued_wave(&vec![act(1, 0, LightKind::RayH)], &vec![1, 2, 3, 3], &b);
    assert_eq!(sorted(w.remove.clone()), vec![1, 2, 3]);
    assert_eq!(w.new_powers, vec![3]);
    assert_eq!(w.queued, vec![act(2, 0, LightKind::Supernova)]);
    assert_eq!(w.super_combo, None);
}

#[test]
fn three_reached_powers_set_off_a_super_combo() {
    let b = board();
    let w = settle_queued_wave(&vec![act(0, 0, LightKind::Normal)], &vec![2, 3, 4, 6], &b);
    assert_eq!(sorted(w.new_powers.clone()), vec![2, 3, 4, 6]);
    assert!(w.queued.is_empty());
    assert_eq!(w.super_combo.map(|k| k.len()), Some(4));
    assert_eq!(sorted(w.remove), vec![1, 2, 3, 4, 5, 6]);
}

#[test]
fn a_match_plan_applies_upgrades_and_replaced_hits() {
    let b = board();
    // Lights 1 and 5 match; light 5 was also due an upgrade, light 1's neighbour 2 is upgraded.
    let plan = plan_match(
        &vec![1, 5],
        &vec![(5, LightKind::RayV), (2, LightKind::Cross)],
        &vec![(GridPos { x: 2, y: 0 }, 3), (GridPos { x: 2, y: 0 }, 4)],
        &b,
        Some(LightColor::Green),
    );
    assert_eq!(plan.upgrades, vec![(2, LightKind::Cross)]);
    assert_eq!(plan.lights[1].kind, LightKind::Cross);
    // Light 3 is the replaced power's own cell: only light 4 is a hit.
    assert_eq!(sorted(plan.remove.clone()), vec![1, 4, 5]);
    assert_eq!(plan.powers, vec![4]);
    assert_eq!(
        plan.activations,
        vec![PowerActivation { pos: GridPos { x: 3, y: 0 }, kind: LightKind::Cross, partner_color: Some(LightColor::Green) }]
    );
    assert_eq!(plan.super_combo, None);

    let wave = absorb_wave(&plan.remove, &plan.activations, &vec![4, 5, 6, 3], &plan.lights);
    assert_eq!(sorted(wave.remove), vec![1, 3, 4, 5, 6]);
    assert_eq!(sorted(wave.new_powers), vec![3, 6]);
    assert_eq!(wave.queued.len(), 2);
    assert!(wave.queued.iter().all(|a| a.partner_color.is_none()));
}

#[test]
fn a_match_with_three_powers_clears_the_board() {
    let b = board();
    let plan = plan_match(&vec![2, 3, 4], &vec![], &vec![], &b, None);
    assert_eq!(plan.powers.len(), 3);
    assert_eq!(plan.super_combo, Some(vec![LightKind::RayH, LightKind::Supernova, LightKind::Cross]));
    assert_eq!(sorted(plan.remove), vec![1, 2, 3, 4, 5, 6]);
}

#[test]
fn removed_lights_read_the_board() {
    let b = board();
    let r = removed_lights(&vec![5, 42, 1], &b);
    assert_eq!(r.len(), 2);
    assert_eq!(r[0].color, LightColor::Yellow);
    assert_eq!(r[1].pos, GridPos { x: 0, y: 0 });
}

#[test]
fn a_power_swap_queues_the_other_powers_it_hits() {
    let b = board();
    let (ids, acts) = combo_swap_queue(&vec![2, 3, 4, 5, 6], 2, 6, &b);
    assert_eq!(ids, vec![3, 4]);
    assert_eq!(acts, vec![act(2, 0, LightKind::Supernova), act(3, 0, LightKind::Cross)]);
    let (a, c) = swap_pair_activations(
        GridPos { x: 5, y: 0 },
        LightKind::Starburst,
        GridPos { x: 1, y: 0 },
        LightKind::RayH,
        &b,
    );
    assert_eq!(a.partner_color, Some(LightColor::Red));
    assert_eq!(c.partner_color, None);
}

#[test]
fn stasis_covers_go_with_their_lights() {
    let covers = vec![(10, GridPos { x: 1, y: 1 }), (11, GridPos { x: 2, y: 2 }), (12, GridPos { x: 3, y: 3 })];
    assert_eq!(orphan_covers(&covers, &vec![GridPos { x: 2, y: 2 }]), vec![10, 12]);
    assert_eq!(orphan_covers(&covers, &vec![]), vec![10, 11, 12]);
    assert_eq!(shadows_after_stasis(5, 2), 3);
    assert_eq!(shadows_after_stasis(1, 2), 0);
}

#[test]
fn a_swap_reads_its_pieces_from_the_board() {
    let b = board();
    let p = swap_pieces(2, GridPos { x: 9, y: 9 }, Some(3), GridPos { x: 9, y: 9 }, &b);
    assert!(!p.spark_swap);
    assert_eq!((p.a_pos, p.a_kind), (GridPos { x: 1, y: 0 }, LightKind::RayH));
    assert_eq!((p.b_pos, p.b_kind), (GridPos { x: 2, y: 0 }, LightKind::Supernova));
    // A spark is not a light: it counts as a plain light on its recorded cell.
    let p = swap_pieces(2, GridPos { x: 1, y: 0 }, Some(77), GridPos { x: 1, y: 1 }, &b);
    assert!(p.spark_swap);
    assert_eq!((p.b_pos, p.b_kind), (GridPos { x: 1, y: 1 }, LightKind::Normal));
    let p = swap_pieces(2, GridPos { x: 1, y: 0 }, None, GridPos { x: 0, y: 0 }, &b);
    assert!(!p.spark_swap);
}
