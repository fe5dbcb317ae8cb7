use lightcore::campaign::CampaignProgress;
use lightcore::lifecycle::{
    advance_decision, board_consumed, board_settled_outcome, fall_complete, finish_level,
    completion_note, game_over_card, game_over_run, goal_outcome_summary, keeps_reserve,
    restart_decision, spark_columns, start_match, timer_expired_outcome, CompletionNote, GameMode,
    GoalProgress, LevelGoal, LevelRewardOffer, LossKind, Phase, Restart,
};
use lightcore::campaign::CampaignUnlockResult;
use lightcore::grid::GridPos;
use lightcore::light::LightKind;
use lightcore::lifecycle::{chain_check, reset_for_replay, MatchCounters};
use lightcore::shop::{ShopItem, SpecialMoveInventory};
use lightcore::swap::SwapData;
use lightcore::wave::PowerActivation;
use lightcore::rewards::StatsBook;
use lightcore::light::LightColor;
use lightcore::run::{BoonKind, RunState};

fn progress() -> GoalProgress {
    GoalProgress { score: 120, sparks_collected: 1, sparks_total: 3, shadows_left: 2, collected_cores: [0, 4, 9, 0, 0] }
}

#[test]
fn settled_board_wins_loses_or_goes_on() {
    let p = progress();
    assert_eq!(board_settled_outcome(LevelGoal::Score(100), &p, 0), Phase::LevelComplete);
    assert_eq!(board_settled_outcome(LevelGoal::Score(200), &p, 0), Phase::GameOver);
    assert_eq!(board_settled_outcome(LevelGoal::Score(200), &p, 3), Phase::Playing);
    assert_eq!(board_settled_outcome(LevelGoal::Sparks, &p, 3), Phase::Playing);
    assert_eq!(board_settled_outcome(LevelGoal::ClearShadow, &p, 0), Phase::GameOver);
    assert_eq!(
        board_settled_outcome(LevelGoal::CollectColor { color: LightColor::Blue, target: 9 }, &p, 1),
        Phase::LevelComplete
    );
}

#[test]
fn expired_clock_decides_timed_levels_only() {
    let p = progress();
    assert_eq!(timer_expired_outcome(LevelGoal::TimedScore { target: 100 }, &p), Some(Phase::LevelComplete));
    assert_eq!(timer_expired_outcome(LevelGoal::TimedScore { target: 500 }, &p), Some(Phase::GameOver));
    assert_eq!(
        timer_expired_outcome(LevelGoal::TimedCollectColor { color: LightColor::Green, target: 10 }, &p),
        Some(Phase::GameOver)
    );
    assert_eq!(timer_expired_outcome(LevelGoal::Score(1), &p), None);
}

#[test]
fn loss_summary_says_how_far_the_player_fell_short() {
    let p = progress();
    assert_eq!(goal_outcome_summary(LevelGoal::Score(200), &p), "Faltaron 80 lightcores");
    assert_eq!(goal_outcome_summary(LevelGoal::Score(100), &p), "Faltaron 0 lightcores");
    assert_eq!(goal_outcome_summary(LevelGoal::Sparks, &p), "Faltaron 2 chispas");
    assert_eq!(goal_outcome_summary(LevelGoal::ClearShadow, &p), "Quedaron 2 sombras");
    assert_eq!(
        goal_outcome_summary(LevelGoal::TimedScore { target: 130 }, &p),
        "Faltaron 10 lightcores antes del reloj"
    );
    assert_eq!(
        goal_outcome_summary(LevelGoal::CollectColor { color: LightColor::Blue, target: 10 }, &p),
        "Faltaron 1 cores azules"
    );
    assert_eq!(
        goal_outcome_summary(LevelGoal::TimedCollectColor { color: LightColor::Red, target: 3 }, &p),
        "Faltaron 3 cores rojos antes del reloj"
    );
}

#[test]
fn sparks_spread_over_the_board() {
    assert_eq!(spark_columns(0), Vec::<i32>::new());
    assert_eq!(spark_columns(1), vec![4]);
    assert_eq!(spark_columns(3), vec![2, 4, 6]);
    assert_eq!(spark_columns(9), vec![0, 2, 4, 6, 7]);
}

#[test]
fn restart_spends_a_run_life() {
    let mut run = RunState::default();
    run.start_new();
    assert_eq!(restart_decision(GameMode::Run(3), &mut run), Restart::Replay);
    assert_eq!(run.lives, 1);
    assert_eq!(restart_decision(GameMode::Run(3), &mut run), Restart::Replay);
    assert_eq!(restart_decision(GameMode::Run(3), &mut run), Restart::ToMenu);
    assert_eq!(run.lives, 0);
    assert_eq!(restart_decision(GameMode::Sandbox, &mut run), Restart::ToMenu);
    assert_eq!(restart_decision(GameMode::Classic(2), &mut run), Restart::Replay);
}

#[test]
fn advancing_goes_back_to_the_menu_except_in_benches() {
    assert_eq!(advance_decision(GameMode::Classic(1)), Some(Phase::LevelMenu));
    assert_eq!(advance_decision(GameMode::ConsumeAll), Some(Phase::LevelMenu));
    assert_eq!(advance_decision(GameMode::Debug(2)), None);
    assert_eq!(advance_decision(GameMode::TeleportTest), None);
}

#[test]
fn game_over_ends_a_run_without_lives() {
    let mut run = RunState::default();
    run.start_new();
    assert_eq!(game_over_run(GameMode::Run(1), &mut run), LossKind::CanRetry);
    assert!(run.active);
    run.lives = 0;
    assert_eq!(game_over_run(GameMode::Run(1), &mut run), LossKind::RunEnded);
    assert!(!run.active);
    assert!(!keeps_reserve(GameMode::Run(1), &run));
    assert_eq!(game_over_run(GameMode::Run(1), &mut run), LossKind::Over);
    assert_eq!(game_over_run(GameMode::Classic(3), &mut run), LossKind::Over);
}

#[test]
fn game_over_card_names_the_loss() {
    let ended = game_over_card(LossKind::RunEnded, 40, "Faltaron 60 lightcores", 0);
    assert_eq!(ended.title, "Run Terminado");
    assert_eq!(
        ended.details,
        "Lightcores capturados: 40\nFaltaron 60 lightcores\n\u{a1}Te quedaste sin vidas!\nSe perdieron los boons y el reserve acumulados."
    );
    assert_eq!(ended.prompt, "[Click/Tap o Espacio] para volver al mapa");
    let retry = game_over_card(LossKind::CanRetry, 7, "Quedaron 2 sombras", 1);
    assert_eq!(retry.title, "Nivel Fallido");
    assert_eq!(
        retry.details,
        "Lightcores capturados: 7\nQuedaron 2 sombras\nTe quedan 1 vidas de reserva.\nPuedes reintentar este nivel."
    );
    assert_eq!(retry.prompt, "[Click/Tap o Espacio] para reintentar (Cuesta 1 vida)");
    let over = game_over_card(LossKind::Over, 0, "Faltaron 3 chispas", 2);
    assert_eq!(over.title, "Fin de Partida");
    assert_eq!(over.details, "Lightcores capturados: 0\nFaltaron 3 chispas");
    assert_eq!(over.prompt, "[Click/Tap o Espacio] para reiniciar");
}

#[test]
fn completion_note_prefers_the_unlock() {
    assert_eq!(
        completion_note(CampaignUnlockResult { new_best: true, unlocked_next: Some(4) }),
        CompletionNote::Unlocked(4)
    );
    assert_eq!(
        completion_note(CampaignUnlockResult { new_best: true, unlocked_next: None }),
        CompletionNote::NewBest
    );
    assert_eq!(
        completion_note(CampaignUnlockResult { new_best: false, unlocked_next: None }),
        CompletionNote::AlreadyCompleted
    );
}

#[test]
fn a_match_keeps_the_wallet_only_within_a_run() {
    let mut run = RunState::default();
    let (mut reserve, mut spent) = (50u32, 10u32);
    assert!(start_match(GameMode::Run(1), &mut run, &mut reserve, &mut spent));
    assert_eq!((reserve, spent), (0, 0));
    assert!(run.active);
    assert_eq!(run.depth, 1);
    reserve = 30;
    spent = 5;
    assert!(!start_match(GameMode::Run(2), &mut run, &mut reserve, &mut spent));
    assert_eq!((reserve, spent), (30, 5));
    assert_eq!(run.depth, 2);
    assert!(!start_match(GameMode::Classic(2), &mut run, &mut reserve, &mut spent));
    assert_eq!((reserve, spent), (0, 0));
    assert_eq!(run.depth, 2);
}

#[test]
fn consumed_board_wins_only_the_clearing_sandbox() {
    assert!(board_consumed(GameMode::ConsumeAll, 0));
    assert!(!board_consumed(GameMode::ConsumeAll, 1));
    assert!(!board_consumed(GameMode::Sandbox, 0));
}

#[test]
fn reward_offer_buys_each_offered_boon_once() {
    let mut offer = LevelRewardOffer::new();
    assert!(!offer.active());
    offer.reset(vec![BoonKind::RedValue, BoonKind::HollowWard]);
    assert!(offer.active());
    let mut run = RunState::default();
    let mut reserve: u32 = 100;
    let mut spent: u32 = 0;
    assert!(!offer.pick(BoonKind::BlueMoves, &mut run, &mut reserve, &mut spent));
    assert!(offer.pick(BoonKind::RedValue, &mut run, &mut reserve, &mut spent));
    assert_eq!(reserve, 30);
    assert_eq!(spent, 70);
    assert_eq!(run.level(BoonKind::RedValue), 1);
    assert!(!offer.pick(BoonKind::RedValue, &mut run, &mut reserve, &mut spent));
    assert!(!offer.pick(BoonKind::HollowWard, &mut run, &mut reserve, &mut spent));
}

#[test]
fn finishing_a_run_depth_offers_three_boons() {
    let mut progress = CampaignProgress::default();
    let mut run = RunState::default();
    run.start_new();
    let finish = finish_level(GameMode::Run(2), 2, 300, &mut progress, &mut run);
    assert_eq!(finish.offer.len(), 3);
    assert_eq!(run.depth, 3);
    assert!(run.active);
    assert_eq!(progress.best_score(2), 300);
    let last = finish_level(GameMode::Run(13), 13, 10, &mut progress, &mut run);
    assert!(last.offer.is_empty());
    assert!(!run.active);
    let classic = finish_level(GameMode::Classic(1), 1, 50, &mut progress, &mut run);
    assert!(classic.offer.is_empty());
    assert_eq!(classic.unlock.unwrap().unlocked_next, Some(2));
}

#[test]
fn finishing_the_last_depth_ends_the_run_past_it() {
    let mut progress = CampaignProgress::default();
    let mut run = RunState::default();
    run.active = true;
    run.depth = 13;
    let before = run.clone();
    let finish = finish_level(GameMode::Run(13), 13, 500, &mut progress, &mut run);
    assert_eq!(progress.best_score(13), 500);
    assert!(!run.active);
    assert_eq!(run.depth, 14);
    assert_eq!((run.seed, run.lives), (before.seed, before.lives));
    assert!(finish.offer.is_empty());
    assert_eq!(finish.unlock.unwrap().unlocked_next, None);
}

#[test]
fn the_board_clearing_sandbox_records_nothing() {
    let mut progress = CampaignProgress::default();
    let mut run = RunState::default();
    let finish = finish_level(GameMode::ConsumeAll, 1, 500, &mut progress, &mut run);
    assert!(finish.unlock.is_none());
    assert!(finish.offer.is_empty());
    assert_eq!(progress.best_score(1), 0);
    assert!(!progress.is_unlocked(2));
}

#[test]
fn rescued_sparks_pay_the_run_bonus() {
    let mut run = RunState::default();
    run.buy(BoonKind::SparkBounty);
    let (mut collected, mut score, mut displayed, mut reserve) = (0u32, 10u32, 10u32, 0u32);
    let r = fall_complete(GameMode::Classic(2), 10, 2, &run, &mut collected, &mut score, &mut displayed, &mut reserve).unwrap();
    assert_eq!(r.rescued, 2);
    assert_eq!(r.next, None);
    assert_eq!((collected, score, displayed, reserve), (2, 60, 60, 50));
    let r = fall_complete(GameMode::Classic(2), 10, 0, &run, &mut collected, &mut score, &mut displayed, &mut reserve).unwrap();
    assert_eq!(r.next, Some(Phase::Spawning));
    assert!(fall_complete(GameMode::ConsumeAll, 0, 1, &run, &mut collected, &mut score, &mut displayed, &mut reserve).is_none());
}

fn counters() -> MatchCounters {
    MatchCounters {
        score: 90,
        displayed_score: 80,
        reserve: 40,
        spent: 12,
        moves: 3,
        cascade: 4,
        sparks_collected: 2,
        shadows_left: 5,
        collected_cores: [1, 2, 3, 4, 5],
        displayed_cores: [1, 1, 1, 1, 1],
        stats: StatsBook { reds: 3, ..StatsBook::default() },
        pending: Some(SwapData { a: 1, b: Some(2), a_pos: GridPos { x: 0, y: 0 }, b_pos: GridPos { x: 1, y: 0 }, free: false }),
        reverting: vec![1],
        settled: true,
        queue: vec![PowerActivation { pos: GridPos { x: 3, y: 3 }, kind: LightKind::RayH, partner_color: None }],
        super_combo: vec![LightKind::Cross],
        popup_open: true,
        special_moves: {
            let mut inv = SpecialMoveInventory::default();
            inv.add(ShopItem::Swap);
            inv
        },
    }
}

#[test]
fn a_replay_restarts_the_counters_but_a_live_run_keeps_its_wallet() {
    let mut run = RunState::default();
    run.start_new();
    let mut c = counters();
    reset_for_replay(&mut c, 25, GameMode::Run(2), &run);
    assert_eq!((c.score, c.displayed_score, c.moves, c.cascade), (0, 0, 25, 0));
    assert_eq!((c.reserve, c.spent), (40, 12));
    assert_eq!(c.collected_cores, [0; 5]);
    assert_eq!(c.stats, StatsBook::default());
    assert!(c.pending.is_none() && c.reverting.is_empty() && !c.settled && !c.popup_open);
    assert!(c.queue.is_empty() && c.super_combo.is_empty());
    assert_eq!(c.special_moves.count(ShopItem::Swap), 0);
    let mut c = counters();
    reset_for_replay(&mut c, 25, GameMode::Classic(2), &run);
    assert_eq!((c.reserve, c.spent, c.sparks_collected, c.shadows_left), (0, 0, 0, 0));
}

#[test]
fn a_chain_check_goes_one_deeper_and_picks_the_next_phase() {
    // Queued powers fire first.
    let mut c = counters();
    let (phase, fired) = chain_check(&mut c, false, LevelGoal::Score(1000), 0);
    assert_eq!(c.cascade, 5);
    assert_eq!(phase, Phase::Popping);
    assert_eq!(fired.len(), 1);
    assert!(c.queue.is_empty());
    // A match on the board pops.
    let (phase, fired) = chain_check(&mut c, true, LevelGoal::Score(1000), 0);
    assert_eq!((c.cascade, phase, fired.len()), (6, Phase::Popping, 0));
    // A settled board: won, lost or play on.
    assert_eq!(chain_check(&mut c, false, LevelGoal::Score(90), 0).0, Phase::LevelComplete);
    assert_eq!(chain_check(&mut c, false, LevelGoal::Score(1000), 0).0, Phase::Playing);
    c.moves = 0;
    assert_eq!(chain_check(&mut c, false, LevelGoal::Sparks, 3).0, Phase::GameOver);
    assert_eq!(chain_check(&mut c, false, LevelGoal::Sparks, 2).0, Phase::LevelComplete);
    assert_eq!(c.cascade, 10);
    assert_eq!((c.score, c.moves), (90, 0));
}
