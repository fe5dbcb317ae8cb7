//! The flow of a match: when a level is won or lost, what a restart or an advance does, the
//! reward offer after a level, sparks reaching their exits, and the summary of a lost level.

use vstd::prelude::*;

use crate::campaign::{record_result_spec, record_score_spec, CampaignProgress, CampaignUnlockResult};
use crate::grid::GRID_W;
use crate::light::{LightColor, LightKind};
use crate::rewards::StatsBook;
use crate::shop::SpecialMoveInventory;
use crate::swap::SwapData;
use crate::wave::PowerActivation;
use crate::run::{
    completed_depth_spec, draws_fit, level_spec, picks, purchasable, BoonKind, RunState, RunView,
    MAX_BOON_LEVEL, RUN_LEVELS,
};
use crate::text::{decimal, push_decimal, push_str};

verus! {

/// Which game the player picked.
#[derive(Clone, Copy, PartialEq, Eq, Debug, Structural)]
pub enum GameMode {
    /// A campaign level.
    Classic(u32),
    /// A depth of a run.
    Run(u32),
    /// The board-clearing sandbox.
    ConsumeAll,
    /// The combo test bench.
    Sandbox,
    /// One isolated combo scenario.
    Debug(u8),
    /// The two-board fall-route test.
    TeleportTest,
}

impl GameMode {
    /// Whether the mode is an unbounded sandbox (no win or loss but a cleared board).
    pub open spec fn is_sandbox_spec(self) -> bool {
        self is ConsumeAll || self is Sandbox
    }

    /// Whether the mode has infinite moves and no win or loss (`ConsumeAll`, `Sandbox`).
    pub fn is_sandbox(self) -> (r: bool)
        ensures
            r == self.is_sandbox_spec(),
    {
        match self {
            GameMode::ConsumeAll | GameMode::Sandbox => true,
            _ => false,
        }
    }

    /// Whether the mode is a run.
    pub fn is_run(self) -> (r: bool)
        ensures
            r == (self is Run),
    {
        match self {
            GameMode::Run(_) => true,
            _ => false,
        }
    }
}

/// What a level asks of the player.
#[derive(Clone, Copy, PartialEq, Eq, Debug, Structural)]
pub enum LevelGoal {
    /// Reach the score.
    Score(u32),
    /// Bring every spark to an exit.
    Sparks,
    /// Clear every shadow.
    ClearShadow,
    /// Collect `target` cores of `color`.
    CollectColor { color: LightColor, target: u32 },
    /// Reach the score before the clock runs out.
    TimedScore { target: u32 },
    /// Collect `target` cores of `color` before the clock runs out.
    TimedCollectColor { color: LightColor, target: u32 },
}

/// The progress a goal is measured against.
#[derive(Clone, Copy, Debug)]
pub struct GoalProgress {
    pub score: u32,
    pub sparks_collected: u32,
    pub sparks_total: u32,
    pub shadows_left: u32,
    /// Collected cores per color, in `LightColor::index` order.
    pub collected_cores: [u32; 5],
}

/// Whether `goal` is met by `p`.
pub open spec fn goal_met(goal: LevelGoal, p: GoalProgress) -> bool {
    match goal {
        LevelGoal::Score(target) => p.score >= target,
        LevelGoal::Sparks => p.sparks_collected >= p.sparks_total,
        LevelGoal::ClearShadow => p.shadows_left == 0,
        LevelGoal::CollectColor { color, target } => p.collected_cores@[color.index_spec()] >= target,
        LevelGoal::TimedScore { target } => p.score >= target,
        LevelGoal::TimedCollectColor { color, target } => p.collected_cores@[color.index_spec()] >= target,
    }
}

/// Whether `goal` is met by `p`.
pub fn is_goal_met(goal: LevelGoal, p: &GoalProgress) -> (r: bool)
    ensures
        r == goal_met(goal, *p),
{
    match goal {
        LevelGoal::Score(target) => p.score >= target,
        LevelGoal::Sparks => p.sparks_collected >= p.sparks_total,
        LevelGoal::ClearShadow => p.shadows_left == 0,
        LevelGoal::CollectColor { color, target } => p.collected_cores[color.index()] >= target,
        LevelGoal::TimedScore { target } => p.score >= target,
        LevelGoal::TimedCollectColor { color, target } => p.collected_cores[color.index()] >= target,
    }
}

/// Whether the level runs against a clock.
pub fn is_timed(goal: LevelGoal) -> (r: bool)
    ensures
        r == (goal is TimedScore || goal is TimedCollectColor),
{
    match goal {
        LevelGoal::TimedScore { .. } | LevelGoal::TimedCollectColor { .. } => true,
        _ => false,
    }
}

/// Where the match goes next.
#[derive(Clone, Copy, PartialEq, Eq, Debug, Structural)]
pub enum Phase {
    Playing,
    /// Matched lights are popping.
    Popping,
    LevelComplete,
    GameOver,
    LevelMenu,
    Spawning,
    SwapAnimating,
}

/// After a settled board with no match left: the level is won when its goal is met, lost when no
/// move is left, and play goes on otherwise.
pub fn board_settled_outcome(goal: LevelGoal, p: &GoalProgress, moves_left: u32) -> (r: Phase)
    ensures
        r == if goal_met(goal, *p) {
            Phase::LevelComplete
        } else if moves_left == 0 {
            Phase::GameOver
        } else {
            Phase::Playing
        },
{
    if is_goal_met(goal, p) {
        Phase::LevelComplete
    } else if moves_left == 0 {
        Phase::GameOver
    } else {
        Phase::Playing
    }
}

/// When the level clock has run out: a timed level is won if its goal is met and lost
/// otherwise; any other level is unaffected.
pub fn timer_expired_outcome(goal: LevelGoal, p: &GoalProgress) -> (r: Option<Phase>)
    ensures
        r == if goal is TimedScore || goal is TimedCollectColor {
            Some(if goal_met(goal, *p) { Phase::LevelComplete } else { Phase::GameOver })
        } else {
            None::<Phase>
        },
{
    if is_timed(goal) {
        if is_goal_met(goal, p) {
            Some(Phase::LevelComplete)
        } else {
            Some(Phase::GameOver)
        }
    } else {
        None
    }
}

/// On entering the fall phase: the board-clearing sandbox is won when no light is left.
pub fn board_consumed(mode: GameMode, lights_left: usize) -> (r: bool)
    ensures
        r == (mode == GameMode::ConsumeAll && lights_left == 0),
{
    mode == GameMode::ConsumeAll && lights_left == 0
}

/// The columns the sparks of a level start in.
pub open spec fn spark_columns_spec(count: u32) -> Seq<i32> {
    if count == 0 {
        seq![]
    } else if count == 1 {
        seq![4i32]
    } else if count == 2 {
        seq![3i32, 5]
    } else if count == 3 {
        seq![2i32, 4, 6]
    } else if count == 4 {
        seq![1i32, 3, 5, 7]
    } else {
        seq![0i32, 2, 4, 6, 7]
    }
}

/// The columns the sparks of a level start in: spread evenly, at most five (the last in the
/// board's last column).
pub fn spark_columns(count: u32) -> (r: Vec<i32>)
    ensures
        r@ == spark_columns_spec(count),
{
    let r = if count == 0 {
        vec![]
    } else if count == 1 {
        vec![4]
    } else if count == 2 {
        vec![3, 5]
    } else if count == 3 {
        vec![2, 4, 6]
    } else if count == 4 {
        vec![1, 3, 5, 7]
    } else {
        vec![0, 2, 4, 6, GRID_W - 1]
    };
    assert(r@ =~= spark_columns_spec(count));
    r
}

/// The note under a won level's score.
#[derive(Clone, Copy, PartialEq, Eq, Debug, Structural)]
pub enum CompletionNote {
    /// This first completion unlocked the level numbered so.
    Unlocked(u32),
    /// The score beat the level's best.
    NewBest,
    /// The level was already completed, and its best stands.
    AlreadyCompleted,
}

/// The note for a recorded win: an unlock first, then a new best.
pub fn completion_note(unlock: CampaignUnlockResult) -> (r: CompletionNote)
    ensures
        r == match unlock.unlocked_next {
            Some(n) => CompletionNote::Unlocked(n),
            None => if unlock.new_best {
                CompletionNote::NewBest
            } else {
                CompletionNote::AlreadyCompleted
            },
        },
{
    match unlock.unlocked_next {
        Some(n) => CompletionNote::Unlocked(n),
        None => if unlock.new_best {
            CompletionNote::NewBest
        } else {
            CompletionNote::AlreadyCompleted
        },
    }
}

/// What a confirm press on the game-over screen does.
#[derive(Clone, Copy, PartialEq, Eq, Debug, Structural)]
pub enum Restart {
    /// Go back to the level menu.
    ToMenu,
    /// Replay the level.
    Replay,
}

/// A confirm press on the game-over screen: a sandbox goes back to the menu; a run replays the
/// level for one of its lives, or goes back to the menu when none is left; anything else
/// replays.
pub fn restart_decision(mode: GameMode, run: &mut RunState) -> (r: Restart)
    ensures
        mode.is_sandbox_spec() ==> r == Restart::ToMenu && final(run)@ == old(run)@,
        !mode.is_sandbox_spec() && mode is Run ==> if old(run)@.lives > 0 {
            r == Restart::Replay && final(run)@ == (RunView { lives: (old(run)@.lives - 1) as u32, ..old(run)@ })
        } else {
            r == Restart::ToMenu && final(run)@ == old(run)@
        },
        !mode.is_sandbox_spec() && !(mode is Run) ==> r == Restart::Replay && final(run)@ == old(run)@,
        old(run).wf() ==> final(run).wf(),
{
    if mode.is_sandbox() {
        return Restart::ToMenu;
    }
    if mode.is_run() {
        if run.take_life() {
            Restart::Replay
        } else {
            Restart::ToMenu
        }
    } else {
        Restart::Replay
    }
}

/// A confirm press on the level-complete screen goes back to the level menu, except in the
/// debug and fall-route benches.
pub fn advance_decision(mode: GameMode) -> (r: Option<Phase>)
    ensures
        r == if mode.is_sandbox_spec() || mode is Classic || mode is Run {
            Some(Phase::LevelMenu)
        } else {
            None::<Phase>
        },
{
    if mode.is_sandbox() || matches!(mode, GameMode::Classic(_) | GameMode::Run(_)) {
        Some(Phase::LevelMenu)
    } else {
        None
    }
}

/// How a lost level ends.
#[derive(Clone, Copy, PartialEq, Eq, Debug, Structural)]
pub enum LossKind {
    /// A run lost its last life and is over.
    RunEnded,
    /// A run with a life left: the level can be retried.
    CanRetry,
    /// Any other loss.
    Over,
}

/// On a lost level: an active run with a life left can retry; an active run with none left ends.
pub fn game_over_run(mode: GameMode, run: &mut RunState) -> (r: LossKind)
    ensures
        r == if mode is Run && old(run)@.active {
            if old(run)@.lives > 0 {
                LossKind::CanRetry
            } else {
                LossKind::RunEnded
            }
        } else {
            LossKind::Over
        },
        r == LossKind::RunEnded ==> final(run)@ == (RunView { active: false, ..old(run)@ }),
        r != LossKind::RunEnded ==> final(run)@ == old(run)@,
        old(run).wf() ==> final(run).wf(),
{
    if mode.is_run() && run.is_active() {
        if run.lives_left() > 0 {
            LossKind::CanRetry
        } else {
            run.end();
            LossKind::RunEnded
        }
    } else {
        LossKind::Over
    }
}

/// The game-over card: its title, its details and the prompt under them.
pub struct GameOverCard {
    pub title: String,
    pub details: String,
    pub prompt: String,
}

/// The first lines of the game-over details: the score captured and the loss summary.
pub open spec fn loss_head(score: u32, outcome: Seq<char>) -> Seq<char> {
    "Lightcores capturados: "@ + decimal(score as nat) + "\n"@ + outcome
}

/// The game-over card's (title, details, prompt) for a loss of kind `kind`, with `score`
/// captured, the loss summary `outcome`, and `lives` left in the run.
pub open spec fn game_over_card_spec(kind: LossKind, score: u32, outcome: Seq<char>, lives: u32) -> (
    Seq<char>,
    Seq<char>,
    Seq<char>,
) {
    match kind {
        LossKind::RunEnded => (
            "Run Terminado"@,
            loss_head(score, outcome) + "\n\u{a1}Te quedaste sin vidas!\nSe perdieron los boons y el reserve acumulados."@,
            "[Click/Tap o Espacio] para volver al mapa"@,
        ),
        LossKind::CanRetry => (
            "Nivel Fallido"@,
            loss_head(score, outcome) + "\nTe quedan "@ + decimal(lives as nat)
                + " vidas de reserva.\nPuedes reintentar este nivel."@,
            "[Click/Tap o Espacio] para reintentar (Cuesta 1 vida)"@,
        ),
        LossKind::Over => ("Fin de Partida"@, loss_head(score, outcome), "[Click/Tap o Espacio] para reiniciar"@),
    }
}

/// A string holding `lit`.
fn text_of(lit: &str) -> (r: String)
    ensures
        r@ == lit@,
{
    let mut s = String::new();
    push_str(&mut s, lit);
    proof {
        assert(s@ =~= lit@);
    }
    s
}

/// The game-over card for a loss of kind `kind`, with `score` captured, the loss summary
/// `outcome`, and `lives` left in the run.
pub fn game_over_card(kind: LossKind, score: u32, outcome: &str, lives: u32) -> (r: GameOverCard)
    ensures
        (r.title@, r.details@, r.prompt@) == game_over_card_spec(kind, score, outcome@, lives),
{
    let mut details = String::new();
    push_str(&mut details, "Lightcores capturados: ");
    push_decimal(&mut details, score as u64);
    push_str(&mut details, "\n");
    push_str(&mut details, outcome);
    assert(details@ =~= loss_head(score, outcome@));
    match kind {
        LossKind::RunEnded => {
            push_str(&mut details, "\n\u{a1}Te quedaste sin vidas!\nSe perdieron los boons y el reserve acumulados.");
            GameOverCard {
                title: text_of("Run Terminado"),
                details,
                prompt: text_of("[Click/Tap o Espacio] para volver al mapa"),
            }
        },
        LossKind::CanRetry => {
            push_str(&mut details, "\nTe quedan ");
            push_decimal(&mut details, lives as u64);
            push_str(&mut details, " vidas de reserva.\nPuedes reintentar este nivel.");
            GameOverCard {
                title: text_of("Nivel Fallido"),
                details,
                prompt: text_of("[Click/Tap o Espacio] para reintentar (Cuesta 1 vida)"),
            }
        },
        LossKind::Over => GameOverCard {
            title: text_of("Fin de Partida"),
            details,
            prompt: text_of("[Click/Tap o Espacio] para reiniciar"),
        },
    }
}

/// Setting up a match: a run depth is entered (starting a new run when none is active); the
/// booster wallet (`reserve`, and the `spent` total) is emptied, except when a run goes on to
/// its next depth. Returns whether a new run was started.
pub fn start_match(mode: GameMode, run: &mut RunState, reserve: &mut u32, spent: &mut u32) -> (new_run: bool)
    requires
        old(run).wf(),
    ensures
        final(run).wf(),
        new_run == (mode is Run && !old(run)@.active),
        mode is Run ==> final(run)@.active && final(run)@.depth == (if mode->Run_0 < 1 {
            1
        } else {
            mode->Run_0
        }) && final(run)@.blue_meter == 0,
        mode is Run && new_run ==> final(run)@.lives == 2 && final(run)@.boons == crate::run::no_boons(),
        mode is Run && !new_run ==> final(run)@.lives == old(run)@.lives && final(run)@.boons == old(
            run,
        )@.boons && final(run)@.seed == old(run)@.seed,
        !(mode is Run) ==> final(run)@ == old(run)@,
        mode is Run && !new_run ==> *final(reserve) == *old(reserve) && *final(spent) == *old(spent),
        !(mode is Run && !new_run) ==> *final(reserve) == 0 && *final(spent) == 0,
{
    match mode {
        GameMode::Run(depth) => {
            let new_run = run.enter_depth(depth);
            if new_run {
                *reserve = 0;
                *spent = 0;
            }
            new_run
        },
        _ => {
            *reserve = 0;
            *spent = 0;
            false
        },
    }
}

/// Whether replaying or leaving a level keeps the booster wallet: only while a run is active.
pub fn keeps_reserve(mode: GameMode, run: &RunState) -> (r: bool)
    ensures
        r == (mode is Run && run@.active),
{
    mode.is_run() && run.is_active()
}

/// The counters of a match that a replay starts afresh.
pub struct MatchCounters {
    pub score: u32,
    pub displayed_score: u32,
    /// The booster wallet.
    pub reserve: u32,
    pub spent: u32,
    pub moves: u32,
    pub cascade: u32,
    pub sparks_collected: u32,
    pub shadows_left: u32,
    /// Collected cores per color, in `LightColor::index` order.
    pub collected_cores: [u32; 5],
    pub displayed_cores: [u32; 5],
    pub stats: StatsBook,
    /// The swap waiting to be resolved.
    pub pending: Option<SwapData>,
    /// The pieces animating back from a failed swap.
    pub reverting: Vec<u64>,
    /// Whether the board has settled.
    pub settled: bool,
    /// The powers queued to fire.
    pub queue: Vec<PowerActivation>,
    /// The kinds of a pending super combo.
    pub super_combo: Vec<LightKind>,
    /// Whether the statistics popup is open.
    pub popup_open: bool,
    /// The owned special moves.
    pub special_moves: SpecialMoveInventory,
}

/// Resets the counters for a replay of a level with `total_moves` moves: everything restarts
/// at zero with the level's moves, except that the booster wallet (`reserve` and `spent`)
/// survives while a run is active; no swap is pending or reverting, the board is not settled,
/// no power is queued, no super combo is pending, the statistics popup is closed and no special
/// move is owned.
pub fn reset_for_replay(c: &mut MatchCounters, total_moves: u32, mode: GameMode, run: &RunState)
    ensures
        final(c).score == 0 && final(c).displayed_score == 0,
        final(c).moves == total_moves,
        final(c).cascade == 0 && final(c).sparks_collected == 0 && final(c).shadows_left == 0,
        forall|i: int| 0 <= i < 5 ==> #[trigger] final(c).collected_cores@[i] == 0 && final(c).displayed_cores@[i] == 0,
        final(c).stats == (StatsBook {
            reds: 0,
            greens: 0,
            blues: 0,
            yellows: 0,
            purples: 0,
            lightkinds: 0,
            max_cascade: 0,
            total_chains: 0,
        }),
        mode is Run && run@.active ==> final(c).reserve == old(c).reserve && final(c).spent == old(c).spent,
        !(mode is Run && run@.active) ==> final(c).reserve == 0 && final(c).spent == 0,
        final(c).pending is None && final(c).reverting@.len() == 0 && !final(c).settled,
        final(c).queue@.len() == 0 && final(c).super_combo@.len() == 0 && !final(c).popup_open,
        final(c).special_moves@ == seq![0u32, 0u32, 0u32],
{
    c.score = 0;
    c.displayed_score = 0;
    if !keeps_reserve(mode, run) {
        c.reserve = 0;
        c.spent = 0;
    }
    c.moves = total_moves;
    c.cascade = 0;
    c.sparks_collected = 0;
    c.shadows_left = 0;
    c.collected_cores = [0u32; 5];
    c.displayed_cores = [0u32; 5];
    c.stats = StatsBook::default();
    c.pending = None;
    c.reverting.clear();
    c.settled = false;
    c.queue.clear();
    c.super_combo.clear();
    c.popup_open = false;
    c.special_moves.clear();
}

/// A chain check on a settled board: the cascade depth goes one deeper. Queued powers fire
/// first (they are handed back, the queue is emptied, and the lights pop); otherwise a match
/// found on the board (`matches_found`) pops; otherwise the level is won when its goal is met
/// (with `sparks_total` sparks to rescue), lost when no move is left, and play goes on.
pub fn chain_check(c: &mut MatchCounters, matches_found: bool, goal: LevelGoal, sparks_total: u32) -> (r: (
    Phase,
    Vec<PowerActivation>,
))
    requires
        old(c).cascade < u32::MAX,
    ensures
        final(c).cascade == old(c).cascade + 1,
        old(c).queue@.len() > 0 ==> r.0 == Phase::Popping && r.1@ == old(c).queue@ && final(c).queue@.len() == 0,
        old(c).queue@.len() == 0 ==> r.1@.len() == 0 && final(c).queue@.len() == 0 && r.0 == if matches_found {
            Phase::Popping
        } else if goal_met(
            goal,
            GoalProgress {
                score: old(c).score,
                sparks_collected: old(c).sparks_collected,
                sparks_total,
                shadows_left: old(c).shadows_left,
                collected_cores: old(c).collected_cores,
            },
        ) {
            Phase::LevelComplete
        } else if old(c).moves == 0 {
            Phase::GameOver
        } else {
            Phase::Playing
        },
        final(c).score == old(c).score && final(c).reserve == old(c).reserve && final(c).moves == old(c).moves,
        final(c).sparks_collected == old(c).sparks_collected && final(c).shadows_left == old(c).shadows_left,
        final(c).collected_cores == old(c).collected_cores,
{
    c.cascade = c.cascade + 1;
    if c.queue.len() > 0 {
        let mut drained: Vec<PowerActivation> = Vec::new();
        std::mem::swap(&mut drained, &mut c.queue);
        return (Phase::Popping, drained);
    }
    if matches_found {
        return (Phase::Popping, Vec::new());
    }
    let p = GoalProgress {
        score: c.score,
        sparks_collected: c.sparks_collected,
        sparks_total,
        shadows_left: c.shadows_left,
        collected_cores: c.collected_cores,
    };
    (board_settled_outcome(goal, &p, c.moves), Vec::new())
}

/// The boons offered after a level, and those bought from the offer.
pub struct LevelRewardOffer {
    offered: Vec<BoonKind>,
    purchased: Vec<BoonKind>,
}

impl LevelRewardOffer {
    /// The offered boons.
    pub closed spec fn offered_spec(&self) -> Seq<BoonKind> {
        self.offered@
    }

    /// The boons bought from the offer.
    pub closed spec fn purchased_spec(&self) -> Seq<BoonKind> {
        self.purchased@
    }

    /// No offer.
    pub fn new() -> (r: LevelRewardOffer)
        ensures
            r.offered_spec() == Seq::<BoonKind>::empty(),
            r.purchased_spec() == Seq::<BoonKind>::empty(),
    {
        LevelRewardOffer { offered: Vec::new(), purchased: Vec::new() }
    }

    /// Replaces the offer with `offered`, nothing bought yet.
    pub fn reset(&mut self, offered: Vec<BoonKind>)
        ensures
            final(self).offered_spec() == offered@,
            final(self).purchased_spec() == Seq::<BoonKind>::empty(),
    {
        self.offered = offered;
        self.purchased.clear();
    }

    /// Whether there is an offer.
    pub fn active(&self) -> (r: bool)
        ensures
            r == (self.offered_spec().len() > 0),
    {
        self.offered.len() > 0
    }

    /// Picks `boon` from the offer: it is bought when offered, not bought yet, below its top
    /// level and affordable; the price leaves the reserve and adds to the spent total. Returns
    /// whether it was bought.
    pub fn pick(&mut self, boon: BoonKind, run: &mut RunState, reserve: &mut u32, spent: &mut u32) -> (r: bool)
        requires
            old(run).wf(),
            *old(spent) + old(run).boon_cost_spec(boon) <= u32::MAX,
        ensures
            r == (old(self).offered_spec().len() > 0 && old(self).offered_spec().contains(boon)
                && !old(self).purchased_spec().contains(boon) && level_spec(old(run)@, boon) < MAX_BOON_LEVEL
                && *old(reserve) >= old(run).boon_cost_spec(boon)),
            r ==> {
                &&& final(self).offered_spec() == old(self).offered_spec()
                &&& final(self).purchased_spec() == old(self).purchased_spec().push(boon)
                &&& final(run)@ == (RunView {
                    boons: old(run)@.boons.update(boon.index_spec(), (level_spec(old(run)@, boon) + 1) as u8),
                    ..old(run)@
                })
                &&& *final(reserve) == *old(reserve) - old(run).boon_cost_spec(boon)
                &&& *final(spent) == *old(spent) + old(run).boon_cost_spec(boon)
            },
            !r ==> final(self).offered_spec() == old(self).offered_spec() && final(self).purchased_spec()
                == old(self).purchased_spec() && final(run)@ == old(run)@ && *final(reserve) == *old(reserve)
                && *final(spent) == *old(spent),
            final(run).wf(),
    {
        if !self.active() {
            return false;
        }
        if !contains_boon(&self.offered, boon) {
            return false;
        }
        if contains_boon(&self.purchased, boon) {
            return false;
        }
        let cost = match run.boon_cost(boon) {
            Some(c) => c,
            None => {
                return false;
            },
        };
        if *reserve < cost || !run.buy(boon) {
            return false;
        }
        *reserve = *reserve - cost;
        *spent = *spent + cost;
        self.purchased.push(boon);
        true
    }
}

/// Whether `v` holds `b`.
fn contains_boon(v: &Vec<BoonKind>, b: BoonKind) -> (r: bool)
    ensures
        r == v@.contains(b),
{
    let mut i: usize = 0;
    while i < v.len()
        invariant
            i <= v.len(),
            forall|j: int| 0 <= j < i ==> v@[j] != b,
        decreases v.len() - i,
    {
        if v[i] == b {
            assert(v@[i as int] == b);
            return true;
        }
        i = i + 1;
    }
    false
}

/// What finishing a level records.
pub struct LevelFinish {
    /// The campaign result of the level (none in the board-clearing sandbox).
    pub unlock: Option<CampaignUnlockResult>,
    /// The boons offered after a run depth (empty otherwise).
    pub offer: Vec<BoonKind>,
}

/// A won level: outside the board-clearing sandbox the score is recorded in the campaign; in a
/// run the depth counts as cleared and, below the last depth, up to three boons are offered,
/// drawn from those the run can still buy. The board-clearing sandbox records nothing.
pub fn finish_level(
    mode: GameMode,
    level: u32,
    score: u32,
    progress: &mut CampaignProgress,
    run: &mut RunState,
) -> (r: LevelFinish)
    requires
        old(run).wf(),
    ensures
        mode == GameMode::ConsumeAll ==> r.unlock is None && final(progress)@ == old(progress)@,
        mode != GameMode::ConsumeAll ==> r.unlock == Some(record_result_spec(old(progress)@, level, score))
            && final(progress)@ == record_score_spec(old(progress)@, level, score),
        mode is Run ==> final(run)@ == completed_depth_spec(old(run)@, level),
        !(mode is Run) ==> final(run)@ == old(run)@,
        final(run).wf(),
        !(mode is Run && level < RUN_LEVELS) ==> r.offer@.len() == 0,
        mode is Run && level < RUN_LEVELS ==> exists|d: Seq<usize>|
            d.len() == (if 3 < purchasable(final(run)@).len() {
                3
            } else {
                purchasable(final(run)@).len() as int
            }) && draws_fit(purchasable(final(run)@).len(), d) && r.offer@ == #[trigger] picks(
                purchasable(final(run)@),
                d,
            ),
        forall|i: int| 0 <= i < r.offer@.len() ==> level_spec(final(run)@, #[trigger] r.offer@[i]) < MAX_BOON_LEVEL,
        r.offer@.no_duplicates(),
{
    if mode == GameMode::ConsumeAll {
        return LevelFinish { unlock: None, offer: Vec::new() };
    }
    let unlock = progress.record_score(level, score);
    let mut offer: Vec<BoonKind> = Vec::new();
    if mode.is_run() {
        run.complete_depth(level);
        if level < RUN_LEVELS {
            offer = run.reward_offer(level, 3);
            proof {
                assert forall|i: int| 0 <= i < offer@.len() implies level_spec(run@, #[trigger] offer@[i]) < MAX_BOON_LEVEL by {
                    let p = purchasable(run@);
                    assert(p.contains(offer@[i]));
                    let j = choose|j: int| 0 <= j < p.len() && p[j] == offer@[i];
                    crate::run::lemma_purchasable_buyable(run@, j);
                }
            }
        }
    }
    LevelFinish { unlock: Some(unlock), offer }
}

/// The color's name, plural, as the loss summary writes it.
pub open spec fn color_plural(c: LightColor) -> Seq<char> {
    match c {
        LightColor::Red => "rojos"@,
        LightColor::Green => "verdes"@,
        LightColor::Blue => "azules"@,
        LightColor::Yellow => "amarillos"@,
        LightColor::Purple => "morados"@,
    }
}

/// `a - b`, or 0 when `b` is larger.
pub open spec fn short_by(a: u32, b: u32) -> nat {
    if a > b {
        (a - b) as nat
    } else {
        0
    }
}

/// The loss summary: how far the player fell short of the goal.
pub open spec fn outcome_summary_spec(goal: LevelGoal, p: GoalProgress) -> Seq<char> {
    match goal {
        LevelGoal::Score(target) => "Faltaron "@ + decimal(short_by(target, p.score)) + " lightcores"@,
        LevelGoal::Sparks => "Faltaron "@ + decimal(short_by(p.sparks_total, p.sparks_collected)) + " chispas"@,
        LevelGoal::ClearShadow => "Quedaron "@ + decimal(p.shadows_left as nat) + " sombras"@,
        LevelGoal::TimedScore { target } => "Faltaron "@ + decimal(short_by(target, p.score))
            + " lightcores antes del reloj"@,
        LevelGoal::CollectColor { color, target } => "Faltaron "@ + decimal(
            short_by(target, p.collected_cores@[color.index_spec()]),
        ) + " cores "@ + color_plural(color),
        LevelGoal::TimedCollectColor { color, target } => "Faltaron "@ + decimal(
            short_by(target, p.collected_cores@[color.index_spec()]),
        ) + " cores "@ + color_plural(color) + " antes del reloj"@,
    }
}

/// Appends the plural color name.
fn push_color_plural(out: &mut String, c: LightColor)
    ensures
        final(out)@ == old(out)@ + color_plural(c),
{
    match c {
        LightColor::Red => push_str(out, "rojos"),
        LightColor::Green => push_str(out, "verdes"),
        LightColor::Blue => push_str(out, "azules"),
        LightColor::Yellow => push_str(out, "amarillos"),
        LightColor::Purple => push_str(out, "morados"),
    }
}

/// The loss summary: how far the player fell short of the goal.
pub fn goal_outcome_summary(goal: LevelGoal, p: &GoalProgress) -> (r: String)
    ensures
        r@ == outcome_summary_spec(goal, *p),
{
    let mut out = String::new();
    match goal {
        LevelGoal::Score(target) => {
            push_str(&mut out, "Faltaron ");
            push_decimal(&mut out, target.saturating_sub(p.score) as u64);
            push_str(&mut out, " lightcores");
        },
        LevelGoal::Sparks => {
            push_str(&mut out, "Faltaron ");
            push_decimal(&mut out, p.sparks_total.saturating_sub(p.sparks_collected) as u64);
            push_str(&mut out, " chispas");
        },
        LevelGoal::ClearShadow => {
            push_str(&mut out, "Quedaron ");
            push_decimal(&mut out, p.shadows_left as u64);
            push_str(&mut out, " sombras");
        },
        LevelGoal::TimedScore { target } => {
            push_str(&mut out, "Faltaron ");
            push_decimal(&mut out, target.saturating_sub(p.score) as u64);
            push_str(&mut out, " lightcores antes del reloj");
        },
        LevelGoal::CollectColor { color, target } => {
            let current = p.collected_cores[color.index()];
            push_str(&mut out, "Faltaron ");
            push_decimal(&mut out, target.saturating_sub(current) as u64);
            push_str(&mut out, " cores ");
            push_color_plural(&mut out, color);
        },
        LevelGoal::TimedCollectColor { color, target } => {
            let current = p.collected_cores[color.index()];
            push_str(&mut out, "Faltaron ");
            push_decimal(&mut out, target.saturating_sub(current) as u64);
            push_str(&mut out, " cores ");
            push_color_plural(&mut out, color);
            push_str(&mut out, " antes del reloj");
        },
    }
    assert(out@ =~= outcome_summary_spec(goal, *p));
    out
}

/// What the end of a fall does with the sparks that reached an exit.
#[derive(Clone, Copy, PartialEq, Eq, Debug, Structural)]
pub struct SparkRescue {
    /// How many sparks were rescued (removed from the board).
    pub rescued: u32,
    /// The bonus each rescue added to the score, the displayed score and the reserve.
    pub bonus_each: u32,
    /// Where the match goes: keep falling (`None`, holes were left) or on to refilling.
    pub next: Option<Phase>,
}

/// The end of a fall: in the board-clearing sandbox with no light left nothing happens (the
/// level is already won); otherwise every spark on an exit is rescued, each adding the run's
/// spark bonus to the collected count, the score, the displayed score and the reserve, and the
/// fall goes on when any was rescued (to fill the holes) or else refilling starts.
pub fn fall_complete(
    mode: GameMode,
    lights_left: usize,
    sparks_on_exits: u32,
    run: &RunState,
    collected: &mut u32,
    score: &mut u32,
    displayed: &mut u32,
    reserve: &mut u32,
) -> (r: Option<SparkRescue>)
    requires
        run.wf(),
        *old(collected) + sparks_on_exits <= u32::MAX,
        *old(score) + sparks_on_exits * (level_spec(run@, BoonKind::SparkBounty) * 25) <= u32::MAX,
        *old(displayed) + sparks_on_exits * (level_spec(run@, BoonKind::SparkBounty) * 25) <= u32::MAX,
        *old(reserve) + sparks_on_exits * (level_spec(run@, BoonKind::SparkBounty) * 25) <= u32::MAX,
    ensures
        mode == GameMode::ConsumeAll && lights_left == 0 ==> r is None && *final(collected) == *old(collected)
            && *final(score) == *old(score) && *final(displayed) == *old(displayed) && *final(reserve)
            == *old(reserve),
        !(mode == GameMode::ConsumeAll && lights_left == 0) ==> {
            let bonus = level_spec(run@, BoonKind::SparkBounty) * 25;
            &&& r == Some(SparkRescue {
                rescued: sparks_on_exits,
                bonus_each: bonus as u32,
                next: if sparks_on_exits > 0 { None } else { Some(Phase::Spawning) },
            })
            &&& *final(collected) == *old(collected) + sparks_on_exits
            &&& *final(score) == *old(score) + sparks_on_exits * bonus
            &&& *final(displayed) == *old(displayed) + sparks_on_exits * bonus
            &&& *final(reserve) == *old(reserve) + sparks_on_exits * bonus
        },
{
    if mode == GameMode::ConsumeAll && lights_left == 0 {
        return None;
    }
    let bonus = run.spark_bonus();
    let mut i: u32 = 0;
    while i < sparks_on_exits
        invariant
            i <= sparks_on_exits,
            bonus == level_spec(run@, BoonKind::SparkBounty) * 25,
            *collected == *old(collected) + i,
            *score == *old(score) + i * bonus,
            *displayed == *old(displayed) + i * bonus,
            *reserve == *old(reserve) + i * bonus,
            *old(collected) + sparks_on_exits <= u32::MAX,
            *old(score) + sparks_on_exits * bonus <= u32::MAX,
            *old(displayed) + sparks_on_exits * bonus <= u32::MAX,
            *old(reserve) + sparks_on_exits * bonus <= u32::MAX,
        decreases sparks_on_exits - i,
    {
        proof {
            assert((i + 1) * bonus <= sparks_on_exits * bonus) by (nonlinear_arith)
                requires
                    i < sparks_on_exits,
                    bonus >= 0,
            ;
            assert((i + 1) * bonus == i * bonus + bonus) by (nonlinear_arith);
        }
        *collected = *collected + 1;
        *score = *score + bonus;
        *displayed = *displayed + bonus;
        *reserve = *reserve + bonus;
        i = i + 1;
    }
    Some(SparkRescue {
        rescued: sparks_on_exits,
        bonus_each: bonus,
        next: if sparks_on_exits > 0 { None } else { Some(Phase::Spawning) },
    })
}

/// Law: a color goal counts the cores of its color and nothing else: a collect goal, timed or
/// not, is met exactly when the cores collected of its color reach the target, whatever the
/// score, the sparks, the shadows or the other colors' cores.
pub proof fn lemma_color_goal_counts_its_cores(color: LightColor, target: u32, p: GoalProgress, q: GoalProgress)
    requires
        p.collected_cores@[color.index_spec()] == q.collected_cores@[color.index_spec()],
    ensures
        goal_met(LevelGoal::CollectColor { color, target }, p) <==> p.collected_cores@[color.index_spec()] >= target,
        goal_met(LevelGoal::TimedCollectColor { color, target }, p) <==> p.collected_cores@[color.index_spec()]
            >= target,
        goal_met(LevelGoal::CollectColor { color, target }, p) == goal_met(LevelGoal::CollectColor { color, target }, q),
        goal_met(LevelGoal::TimedCollectColor { color, target }, p) == goal_met(
            LevelGoal::TimedCollectColor { color, target },
            q,
        ),
{
}

/// Law: a score goal, timed or not, is met exactly when the score reaches the target; a spark
/// goal when every spark is collected; a shadow goal when no shadow is left.
pub proof fn lemma_other_goals(target: u32, p: GoalProgress)
    ensures
        goal_met(LevelGoal::Score(target), p) <==> p.score >= target,
        goal_met(LevelGoal::TimedScore { target }, p) <==> p.score >= target,
        goal_met(LevelGoal::Sparks, p) <==> p.sparks_collected >= p.sparks_total,
        goal_met(LevelGoal::ClearShadow, p) <==> p.shadows_left == 0,
{
}

/// Law: the spark start columns are distinct columns of the board, one per spark up to five.
/// Up to four sparks stand two columns apart, centred on column 4 (opposite columns add up to
/// 8); five or more sparks take five columns from the first column to the last.
pub proof fn lemma_spark_columns_spread(count: u32)
    ensures
        ({
            let c = spark_columns_spec(count);
            &&& c.len() == if count < 5 { count as int } else { 5 }
            &&& forall|i: int, j: int| 0 <= i < j < c.len() ==> c[i] < c[j]
            &&& forall|i: int| 0 <= i < c.len() ==> 0 <= #[trigger] c[i] < GRID_W
            &&& count <= 4 ==> forall|i: int| 0 <= i < c.len() ==> #[trigger] c[i] + c[c.len() - 1 - i] == 8
            &&& count <= 4 ==> forall|i: int| 0 <= i < c.len() - 1 ==> #[trigger] c[i + 1] == c[i] + 2
            &&& count >= 5 ==> c[0] == 0 && c[4] == GRID_W - 1
        }),
{
}

} // verus!
