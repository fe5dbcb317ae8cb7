use lightcore::light::LightColor;
use lightcore::run::{offer_picks, offer_salt, BoonKind, RunState};

#[test]
fn boons_scale_until_max_level() {
    let mut run = RunState::default();
    assert_eq!(run.level(BoonKind::RedValue), 0);
    assert!(run.buy(BoonKind::RedValue));
    assert!(run.buy(BoonKind::RedValue));
    assert!(run.buy(BoonKind::RedValue));
    assert!(!run.buy(BoonKind::RedValue));
    assert_eq!(run.level(BoonKind::RedValue), 3);
    assert_eq!(run.boon_cost(BoonKind::RedValue), None);
}

#[test]
fn blue_boon_converts_collected_blues_into_moves() {
    let mut run = RunState::default();
    run.buy(BoonKind::BlueMoves);

    assert_eq!(run.blue_move_bonus(5), 0);
    assert_eq!(run.blue_move_bonus(1), 1);
}

#[test]
fn run_progress_round_trips_through_save_text() {
    let mut run = RunState::default();
    run.start_new();
    run.depth = 4;
    run.grant(BoonKind::RedValue);

    let (decoded, reserve) = RunState::decode(&run.encode(123)).unwrap();

    assert!(decoded.active);
    assert_eq!(decoded.depth, 4);
    assert_eq!(decoded.level(BoonKind::RedValue), 1);
    assert_eq!(reserve, 123);
}

#[test]
fn a_run_save_reads_back_field_by_field() {
    let raw = "lightcore-run-v2\n1\n42\n5\n2\n77\n1\n1,0,3,2,0,1";
    let (run, reserve) = RunState::decode(raw).unwrap();
    assert!(run.active);
    assert_eq!(run.seed, 42);
    assert_eq!(run.depth, 5);
    assert_eq!(run.lives, 1);
    assert_eq!(reserve, 77);
    assert_eq!(run.level(BoonKind::RedValue), 1);
    assert_eq!(run.level(BoonKind::BlueMoves), 3);
    assert_eq!(run.level(BoonKind::SparkBounty), 2);
    assert_eq!(run.level(BoonKind::HollowWard), 1);
    assert_eq!(run.encode(reserve), raw);
}

#[test]
fn older_and_odd_run_saves_are_normalised() {
    // Version 1 has no lives line: two lives.
    let (run, reserve) = RunState::decode("lightcore-run-v1\n0\n9\n99\n0\n50\n7,1").unwrap();
    assert!(!run.active);
    assert_eq!(run.lives, 2);
    // Depth clamps into 1..=13; levels cap at 3; an inactive run saves no wallet.
    assert_eq!(run.depth, 13);
    assert_eq!(run.level(BoonKind::RedValue), 3);
    assert_eq!(run.level(BoonKind::GreenReserve), 1);
    assert_eq!(run.level(BoonKind::BlueMoves), 0);
    assert_eq!(reserve, 0);
    let (run, _) = RunState::decode("lightcore-run-v2\n1\n9\n0\n0\n0\n3\n0").unwrap();
    assert_eq!(run.depth, 1);
    assert_eq!(run.level(BoonKind::PowerBounty), 0);
}

#[test]
fn broken_run_saves_are_refused() {
    assert!(RunState::decode("").is_none());
    assert!(RunState::decode("lightcore-run-v3\n1\n1\n1\n0\n0\n2\n0").is_none());
    // Too few lines for version 2.
    assert!(RunState::decode("lightcore-run-v2\n1\n1\n1\n0\n0\n2").is_none());
    // A field that is not a number.
    assert!(RunState::decode("lightcore-run-v2\n1\nseed\n1\n0\n0\n2\n0").is_none());
    // A boon level that is not a number.
    assert!(RunState::decode("lightcore-run-v2\n1\n1\n1\n0\n0\n2\n0,x").is_none());
}

#[test]
fn the_saved_wallet_survives_only_an_active_run() {
    let mut run = RunState::default();
    assert_eq!(run.save_text(30), run.encode(0));
    run.start_new();
    assert_eq!(run.save_text(30), run.encode(30));
    let (back, reserve) = RunState::decode(&run.save_text(30)).unwrap();
    assert_eq!(reserve, 30);
    assert_eq!(back.seed, run.seed);
}

#[test]
fn reward_offers_draw_distinct_buyable_boons() {
    let mut run = RunState::default();
    run.start_new();
    let offer = run.reward_offer(1, 3);
    assert_eq!(offer.len(), 3);
    for (i, a) in offer.iter().enumerate() {
        assert!(run.can_buy(*a));
        for b in &offer[i + 1..] {
            assert_ne!(a, b);
        }
    }
    // The draw is seeded: the same run and depth offer the same boons.
    assert_eq!(run.reward_offer(1, 3), offer);
    // Boons at their top level are never offered; the offer shrinks to what is left.
    for boon in [BoonKind::RedValue, BoonKind::GreenReserve, BoonKind::BlueMoves, BoonKind::SparkBounty] {
        for _ in 0..3 {
            run.grant(boon);
        }
    }
    let offer = run.reward_offer(2, 3);
    assert_eq!(offer.len(), 2);
    assert!(offer.contains(&BoonKind::PowerBounty));
    assert!(offer.contains(&BoonKind::HollowWard));
}

#[test]
fn boon_bonuses_follow_their_levels() {
    let mut run = RunState::default();
    assert_eq!(BoonKind::SparkBounty.cost(2), 65 + 90);
    run.grant(BoonKind::RedValue);
    run.grant(BoonKind::RedValue);
    run.grant(BoonKind::GreenReserve);
    run.grant(BoonKind::SparkBounty);
    run.grant(BoonKind::PowerBounty);
    assert_eq!(run.score_bonus_for_color(LightColor::Red, 5), 20);
    assert_eq!(run.score_bonus_for_color(LightColor::Blue, 5), 0);
    assert_eq!(run.reserve_bonus_for_color(LightColor::Green, 4), 4);
    assert_eq!(run.reserve_bonus_for_color(LightColor::Red, 4), 0);
    assert_eq!(run.spark_bonus(), 25);
    assert_eq!(run.power_bonus(3), 36);
    assert_eq!(run.boon_cost(BoonKind::RedValue), Some(70 + 90));
}

#[test]
fn lives_and_depths_move_the_run_on() {
    let mut run = RunState::default();
    assert!(run.enter_depth(3));
    assert!(run.active);
    assert_eq!(run.depth, 3);
    assert!(!run.enter_depth(4));
    run.add_life();
    assert_eq!(run.lives_left(), 3);
    assert!(run.take_life());
    assert_eq!(run.lives_left(), 2);
    run.complete_depth(4);
    assert_eq!(run.depth, 5);
    assert!(run.active);
    run.complete_depth(13);
    assert!(!run.active);
    run.abandon();
    assert!(!run.is_active());
}

#[test]
fn offer_draws_are_seeded_from_seed_and_depths() {
    let k: u64 = 0x9E37_79B9_7F4A_7C15;
    assert_eq!(offer_salt(1, 2, 3), 1 ^ 2u64.wrapping_mul(k) ^ 3);
    assert_eq!(offer_salt(0, 0, 0), 0);
    assert_eq!(offer_salt(5, 0, 5), 0);
    assert_ne!(offer_salt(5, 1, 5), offer_salt(5, 2, 5));
}

#[test]
fn each_draw_takes_a_boon_and_the_last_fills_its_place() {
    let pool = vec![BoonKind::RedValue, BoonKind::GreenReserve, BoonKind::BlueMoves, BoonKind::SparkBounty];
    // Draw 1 takes GreenReserve; SparkBounty moves to its place: [Red, Spark, Blue].
    assert_eq!(offer_picks(&pool, &vec![1, 1]), vec![BoonKind::GreenReserve, BoonKind::SparkBounty]);
    assert_eq!(offer_picks(&pool, &vec![0, 0, 0]), vec![BoonKind::RedValue, BoonKind::SparkBounty, BoonKind::BlueMoves]);
    assert_eq!(offer_picks(&pool, &vec![]), vec![]);
    assert_eq!(offer_picks(&pool, &vec![3, 2, 1, 0]), vec![BoonKind::SparkBounty, BoonKind::BlueMoves, BoonKind::GreenReserve, BoonKind::RedValue]);
}
