use lightcore::grid::GridPos;
use lightcore::light::{LightColor, LightKind};
use lightcore::rewards::{apply_removal_rewards, Economy, Removed, StatsBook};
use lightcore::run::{BoonKind, RunState};

fn economy() -> Economy {
    Economy { score: 10, reserve: 5, collected_cores: [0; 5], stats: StatsBook::default(), moves: 7 }
}

fn light(x: i32, color: LightColor, kind: LightKind) -> Removed {
    Removed { pos: GridPos { x, y: 0 }, color, kind }
}

#[test]
fn wave_scores_each_solid_light_at_the_cascade_depth() {
    let mut e = economy();
    let mut run = RunState::default();
    let removed = vec![
        light(0, LightColor::Red, LightKind::Normal),
        light(1, LightColor::Red, LightKind::RayH),
        light(2, LightColor::Blue, LightKind::Normal),
        light(3, LightColor::Green, LightKind::Hollow),
    ];
    let (points, drained) = apply_removal_rewards(&removed, 2, false, 0, &mut e, &mut run);
    assert_eq!(points, 6);
    assert!(drained.is_empty());
    assert_eq!(e.score, 16);
    assert_eq!(e.reserve, 11);
    assert_eq!(e.collected_cores, [4, 0, 2, 0, 0]);
    assert_eq!(e.stats.reds, 4);
    assert_eq!(e.stats.blues, 2);
    assert_eq!(e.stats.greens, 0);
    assert_eq!(e.stats.lightkinds, 2);
    assert_eq!(e.stats.max_cascade, 2);
    assert_eq!(e.stats.total_chains, 1);
    assert_eq!(e.moves, 7);
}

#[test]
fn run_boons_add_score_reserve_and_moves() {
    let mut e = economy();
    let mut run = RunState::default();
    run.buy(BoonKind::RedValue);
    run.buy(BoonKind::GreenReserve);
    run.buy(BoonKind::BlueMoves);
    let removed = vec![
        light(0, LightColor::Red, LightKind::Normal),
        light(1, LightColor::Green, LightKind::Normal),
        light(2, LightColor::Blue, LightKind::Normal),
        light(3, LightColor::Blue, LightKind::Normal),
        light(4, LightColor::Blue, LightKind::Normal),
    ];
    // cascade 2: 5 lights -> 10 points; red bonus 1*2*1*2 = 4; power bonus 12; green bonus 1*2*1 = 2;
    // blues 3*2 = 6 -> one move at threshold 6.
    let (points, _) = apply_removal_rewards(&removed, 2, false, 12, &mut e, &mut run);
    assert_eq!(points, 26);
    assert_eq!(e.score, 36);
    assert_eq!(e.reserve, 17);
    assert_eq!(e.moves, 8);
}

#[test]
fn hollow_match_drains_the_score() {
    let mut e = economy();
    let mut run = RunState::default();
    let removed = vec![
        light(0, LightColor::Red, LightKind::Normal),
        light(5, LightColor::Purple, LightKind::Hollow),
    ];
    let (points, drained) = apply_removal_rewards(&removed, 1, true, 0, &mut e, &mut run);
    assert_eq!(points, 0);
    assert_eq!(drained, vec![GridPos { x: 5, y: 0 }]);
    assert_eq!(e.score, 0);
    assert_eq!(e.reserve, 5);
    assert_eq!(e.collected_cores, [1, 0, 0, 0, 0]);
    assert_eq!(e.stats.total_chains, 0);
}

#[test]
fn unlimited_moves_stay_unlimited() {
    let mut e = economy();
    e.moves = u32::MAX;
    let mut run = RunState::default();
    run.buy(BoonKind::BlueMoves);
    let removed = vec![light(0, LightColor::Blue, LightKind::Normal)];
    apply_removal_rewards(&removed, 6, false, 0, &mut e, &mut run);
    assert_eq!(e.moves, u32::MAX);
}

#[test]
fn score_shards_split_the_points_exactly() {
    assert_eq!(lightcore::rewards::shard_points(0, 3), Vec::<u32>::new());
    assert_eq!(lightcore::rewards::shard_points(10, 0), Vec::<u32>::new());
    // Three lights, two shards each: 10 = 2 + 2 + 2 + 2 + 1 + 1.
    assert_eq!(lightcore::rewards::shard_points(10, 3), vec![2, 2, 2, 2, 1, 1]);
    // Past 24 lights each light flies one shard.
    let many = lightcore::rewards::shard_points(100, 30);
    assert_eq!(many.len(), 30);
    assert_eq!(many.iter().sum::<u32>(), 100);
    assert_eq!(many[0], 4);
    assert_eq!(many[29], 3);
    let edge = lightcore::rewards::shard_points(7, 24);
    assert_eq!(edge.len(), 48);
    assert_eq!(edge.iter().sum::<u32>(), 7);
}
