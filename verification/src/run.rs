//! Roguelike runs: depth, lives, the boons bought along the way and what they pay out, the
//! boons offered after a level, and the `run.txt` save text.

use vstd::prelude::*;

use rand::rngs::StdRng;
use rand::{Rng, SeedableRng};

use crate::light::LightColor;
use crate::text::{
    chars_of, decimal, field_ranges, joined, lemma_decimal_plain,
    lemma_lines_of_joined, lemma_parse_decimal, lemma_split_of_joined, line_ranges, lines,
    parse_uint, parse_unsigned, plain_line, push_char, push_decimal, push_str, range_is,
    split_char,
};

verus! {

/// Number of depths in a run.
pub const RUN_LEVELS: u32 = 13;

/// Highest level a boon can reach.
pub const MAX_BOON_LEVEL: u8 = 3;

/// Default seed of a run that was never started.
pub const DEFAULT_SEED: u64 = 0xC0DE_51A7_5EED;

/// The boons a run can buy, each with up to `MAX_BOON_LEVEL` levels.
#[derive(Clone, Copy, PartialEq, Eq, Debug, Structural)]
pub enum BoonKind {
    RedValue,
    GreenReserve,
    BlueMoves,
    SparkBounty,
    PowerBounty,
    HollowWard,
}

/// The boon in position `i` of the boon list.
pub open spec fn boon_at(i: int) -> BoonKind {
    if i == 0 {
        BoonKind::RedValue
    } else if i == 1 {
        BoonKind::GreenReserve
    } else if i == 2 {
        BoonKind::BlueMoves
    } else if i == 3 {
        BoonKind::SparkBounty
    } else if i == 4 {
        BoonKind::PowerBounty
    } else {
        BoonKind::HollowWard
    }
}

impl BoonKind {
    /// Position of the boon in the boon list.
    pub open spec fn index_spec(self) -> int {
        match self {
            BoonKind::RedValue => 0,
            BoonKind::GreenReserve => 1,
            BoonKind::BlueMoves => 2,
            BoonKind::SparkBounty => 3,
            BoonKind::PowerBounty => 4,
            BoonKind::HollowWard => 5,
        }
    }

    /// Price of the first level of the boon.
    pub open spec fn base_cost(self) -> u32 {
        match self {
            BoonKind::RedValue => 70,
            BoonKind::GreenReserve => 60,
            BoonKind::BlueMoves => 80,
            BoonKind::SparkBounty => 65,
            BoonKind::PowerBounty => 75,
            BoonKind::HollowWard => 70,
        }
    }

    /// Position of the boon in the boon list.
    pub fn index(self) -> (r: usize)
        ensures
            r == self.index_spec(),
            r < 6,
            boon_at(r as int) == self,
    {
        match self {
            BoonKind::RedValue => 0,
            BoonKind::GreenReserve => 1,
            BoonKind::BlueMoves => 2,
            BoonKind::SparkBounty => 3,
            BoonKind::PowerBounty => 4,
            BoonKind::HollowWard => 5,
        }
    }

    /// The boon in position `i` of the boon list.
    pub fn from_index(i: usize) -> (r: BoonKind)
        requires
            i < 6,
        ensures
            r == boon_at(i as int),
            r.index_spec() == i,
    {
        if i == 0 {
            BoonKind::RedValue
        } else if i == 1 {
            BoonKind::GreenReserve
        } else if i == 2 {
            BoonKind::BlueMoves
        } else if i == 3 {
            BoonKind::SparkBounty
        } else if i == 4 {
            BoonKind::PowerBounty
        } else {
            BoonKind::HollowWard
        }
    }

    /// Price of the boon's next level when it stands at `level`: the base price plus 45 per
    /// level already owned.
    pub fn cost(self, level: u8) -> (r: u32)
        ensures
            r == self.base_cost() + level * 45,
    {
        let base: u32 = match self {
            BoonKind::RedValue => 70,
            BoonKind::GreenReserve => 60,
            BoonKind::BlueMoves => 80,
            BoonKind::SparkBounty => 65,
            BoonKind::PowerBounty => 75,
            BoonKind::HollowWard => 70,
        };
        base + level as u32 * 45
    }
}

/// The mathematical content of a run.
pub ghost struct RunView {
    pub active: bool,
    pub seed: u64,
    pub depth: u32,
    pub lives: u32,
    /// The level of each boon, in boon-list order.
    pub boons: Seq<u8>,
    /// Blue lights collected towards the next bonus move.
    pub blue_meter: u32,
}

/// State of the current run.
#[derive(Clone, Copy)]
pub struct RunState {
    pub active: bool,
    pub seed: u64,
    pub depth: u32,
    pub lives: u32,
    /// The level of each boon, in boon-list order.
    pub boons: [u8; 6],
    /// Blue lights collected towards the next bonus move.
    pub blue_meter: u32,
}

impl View for RunState {
    type V = RunView;

    open spec fn view(&self) -> RunView {
        RunView {
            active: self.active,
            seed: self.seed,
            depth: self.depth,
            lives: self.lives,
            boons: self.boons@,
            blue_meter: self.blue_meter,
        }
    }
}

impl Default for RunState {
    /// A run that was never started: inactive, depth 1, two lives, no boons.
    fn default() -> (r: RunState)
        ensures
            r@ == (RunView {
                active: false,
                seed: DEFAULT_SEED,
                depth: 1,
                lives: 2,
                boons: no_boons(),
                blue_meter: 0,
            }),
    {
        RunState::new()
    }
}

/// Six boon levels, none above `MAX_BOON_LEVEL`.
pub open spec fn boons_wf(boons: Seq<u8>) -> bool {
    &&& boons.len() == 6
    &&& forall|i: int| 0 <= i < 6 ==> #[trigger] boons[i] <= MAX_BOON_LEVEL
}

/// The level of `boon` in the run `r`.
pub open spec fn level_spec(r: RunView, boon: BoonKind) -> u8 {
    r.boons[boon.index_spec()]
}

/// Bonus moves needed blue lights per move at BlueMoves level `level`: 7 minus the level,
/// never below 3.
pub open spec fn blue_threshold(level: nat) -> nat {
    if level >= 7 || 7 - level < 3 {
        3
    } else {
        (7 - level) as nat
    }
}

/// `(6 boons at level 0)`.
pub open spec fn no_boons() -> Seq<u8> {
    Seq::new(6, |i: int| 0u8)
}

/// A fresh random seed (`rand::random::<u64>()`); nothing is known of its value.
#[verifier::external_body]
fn random_seed() -> u64 {
    rand::random::<u64>()
}

/// The `rand` generator type that reward offers draw from.
#[verifier::external_type_specification]
#[verifier::external_body]
pub struct ExStdRng(StdRng);

/// `StdRng::seed_from_u64`: a generator seeded from `salt`.
#[verifier::external_body]
fn seeded_rng(salt: u64) -> StdRng {
    StdRng::seed_from_u64(salt)
}

/// `Rng::random_range(0..len)`: an index below `len`, drawn from `rng`.
#[verifier::external_body]
fn random_index(rng: &mut StdRng, len: usize) -> (r: usize)
    requires
        len > 0,
    ensures
        r < len,
{
    rng.random_range(0..len)
}

/// The boons that `r` can still buy, in boon-list order.
pub open spec fn purchasable(r: RunView) -> Seq<BoonKind> {
    Seq::new(6, |i: int| boon_at(i)).filter(buyable(r))
}

/// Every boon offered by `purchasable` is below the top level.
pub proof fn lemma_purchasable_buyable(r: RunView, j: int)
    requires
        0 <= j < purchasable(r).len(),
    ensures
        level_spec(r, purchasable(r)[j]) < MAX_BOON_LEVEL,
{
    Seq::new(6, |i: int| boon_at(i)).lemma_filter_pred(buyable(r), j);
}

/// Whether a boon is below the top level in the run `r`.
pub open spec fn buyable(r: RunView) -> spec_fn(BoonKind) -> bool {
    |b: BoonKind| level_spec(r, b) < MAX_BOON_LEVEL
}

impl RunState {
    /// The price of `boon`'s next level.
    pub open spec fn boon_cost_spec(&self, boon: BoonKind) -> u32 {
        (boon.base_cost() + level_spec(self@, boon) * 45) as u32
    }

    /// Every boon level is at most `MAX_BOON_LEVEL`.
    pub open spec fn wf(&self) -> bool {
        boons_wf(self@.boons)
    }

    /// A run that was never started: inactive, depth 1, two lives, no boons.
    pub fn new() -> (r: RunState)
        ensures
            r@ == (RunView {
                active: false,
                seed: DEFAULT_SEED,
                depth: 1,
                lives: 2,
                boons: no_boons(),
                blue_meter: 0,
            }),
            r.wf(),
    {
        let r = RunState {
            active: false,
            seed: DEFAULT_SEED,
            depth: 1,
            lives: 2,
            boons: [0u8; 6],
            blue_meter: 0,
        };
        assert(r@.boons =~= no_boons());
        r
    }

    /// Starts a new run with a fresh random seed: active, depth 1, two lives, no boons.
    pub fn start_new(&mut self)
        ensures
            final(self)@ == (RunView {
                active: true,
                seed: final(self)@.seed,
                depth: 1,
                lives: 2,
                boons: no_boons(),
                blue_meter: 0,
            }),
            final(self).wf(),
    {
        self.active = true;
        self.seed = random_seed();
        self.depth = 1;
        self.lives = 2;
        self.boons = [0u8; 6];
        self.blue_meter = 0;
        assert(self@.boons =~= no_boons());
    }

    /// Gives up the run: inactive, depth 1, two lives, no boons; the seed is kept.
    pub fn abandon(&mut self)
        ensures
            final(self)@ == (RunView {
                active: false,
                seed: old(self)@.seed,
                depth: 1,
                lives: 2,
                boons: no_boons(),
                blue_meter: 0,
            }),
            final(self).wf(),
    {
        self.active = false;
        self.depth = 1;
        self.lives = 2;
        self.boons = [0u8; 6];
        self.blue_meter = 0;
        assert(self@.boons =~= no_boons());
    }

    /// Enters `depth` (at least 1), starting a new run only when none is active; the blue
    /// meter restarts. Returns whether a new run was started.
    pub fn enter_depth(&mut self, depth: u32) -> (r: bool)
        requires
            old(self).wf(),
        ensures
            r == !old(self)@.active,
            final(self).wf(),
            final(self)@.active,
            final(self)@.depth == if depth < 1 { 1 } else { depth },
            final(self)@.blue_meter == 0,
            r ==> final(self)@.lives == 2 && final(self)@.boons == no_boons(),
            !r ==> final(self)@.lives == old(self)@.lives && final(self)@.boons == old(self)@.boons
                && final(self)@.seed == old(self)@.seed,
    {
        let starting_new = !self.active;
        if starting_new {
            self.start_new();
        }
        self.depth = if depth < 1 { 1 } else { depth };
        self.blue_meter = 0;
        starting_new
    }

    /// Records that `depth` was cleared: an active run moves on to at least the next depth, and
    /// ends after the last one. An inactive run is left as it is.
    pub fn complete_depth(&mut self, depth: u32)
        ensures
            old(self)@.active ==> final(self)@ == (RunView {
                depth: if old(self)@.depth >= depth + 1 {
                    old(self)@.depth
                } else if depth == u32::MAX {
                    u32::MAX
                } else {
                    (depth + 1) as u32
                },
                active: depth < RUN_LEVELS,
                ..old(self)@
            }),
            !old(self)@.active ==> final(self)@ == old(self)@,
            final(self)@ == completed_depth_spec(old(self)@, depth),
            old(self).wf() ==> final(self).wf(),
    {
        if self.active {
            let next = depth.saturating_add(1);
            self.depth = if self.depth >= next { self.depth } else { next };
            if depth >= RUN_LEVELS {
                self.active = false;
            }
        }
    }

    /// Whether the run is under way.
    pub fn is_active(&self) -> (r: bool)
        ensures
            r == self@.active,
    {
        self.active
    }

    /// The lives left.
    pub fn lives_left(&self) -> (r: u32)
        ensures
            r == self@.lives,
    {
        self.lives
    }

    /// Gives the run one more life.
    pub fn add_life(&mut self)
        requires
            old(self)@.lives < u32::MAX,
        ensures
            final(self)@ == (RunView { lives: (old(self)@.lives + 1) as u32, ..old(self)@ }),
            old(self).wf() ==> final(self).wf(),
    {
        self.lives = self.lives + 1;
    }

    /// Uses up one life when there is one; says whether there was.
    pub fn take_life(&mut self) -> (r: bool)
        ensures
            r == (old(self)@.lives > 0),
            r ==> final(self)@ == (RunView { lives: (old(self)@.lives - 1) as u32, ..old(self)@ }),
            !r ==> final(self)@ == old(self)@,
            old(self).wf() ==> final(self).wf(),
    {
        if self.lives > 0 {
            self.lives = self.lives - 1;
            true
        } else {
            false
        }
    }

    /// Ends the run (it is no longer active); nothing else changes.
    pub fn end(&mut self)
        ensures
            final(self)@ == (RunView { active: false, ..old(self)@ }),
            old(self).wf() ==> final(self).wf(),
    {
        self.active = false;
    }

    /// The level of `boon`.
    pub fn level(&self, boon: BoonKind) -> (r: u8)
        ensures
            r == level_spec(self@, boon),
    {
        self.boons[boon.index()]
    }

    /// Whether `boon` can still be bought (it is below the top level).
    pub fn can_buy(&self, boon: BoonKind) -> (r: bool)
        ensures
            r == (level_spec(self@, boon) < MAX_BOON_LEVEL),
    {
        self.level(boon) < MAX_BOON_LEVEL
    }

    /// The price of `boon`'s next level, or `None` when it is at the top level.
    pub fn boon_cost(&self, boon: BoonKind) -> (r: Option<u32>)
        ensures
            level_spec(self@, boon) < MAX_BOON_LEVEL ==> r == Some(
                (boon.base_cost() + level_spec(self@, boon) * 45) as u32,
            ),
            level_spec(self@, boon) >= MAX_BOON_LEVEL ==> r is None,
    {
        if self.can_buy(boon) {
            Some(boon.cost(self.level(boon)))
        } else {
            None
        }
    }

    /// Buys one level of `boon`; see `grant`.
    pub fn buy(&mut self, boon: BoonKind) -> (r: bool)
        requires
            old(self).wf(),
        ensures
            r == (level_spec(old(self)@, boon) < MAX_BOON_LEVEL),
            r ==> final(self)@ == (RunView {
                boons: old(self)@.boons.update(
                    boon.index_spec(),
                    (level_spec(old(self)@, boon) + 1) as u8,
                ),
                ..old(self)@
            }),
            !r ==> final(self)@ == old(self)@,
            final(self).wf(),
    {
        self.grant(boon)
    }

    /// Raises `boon` one level unless it is already at the top level; says whether it did.
    pub fn grant(&mut self, boon: BoonKind) -> (r: bool)
        requires
            old(self).wf(),
        ensures
            r == (level_spec(old(self)@, boon) < MAX_BOON_LEVEL),
            r ==> final(self)@ == (RunView {
                boons: old(self)@.boons.update(
                    boon.index_spec(),
                    (level_spec(old(self)@, boon) + 1) as u8,
                ),
                ..old(self)@
            }),
            !r ==> final(self)@ == old(self)@,
            final(self).wf(),
    {
        if !self.can_buy(boon) {
            return false;
        }
        let i = boon.index();
        self.boons[i] = self.boons[i] + 1;
        proof {
            assert(self@.boons =~= old(self)@.boons.update(
                boon.index_spec(),
                (level_spec(old(self)@, boon) + 1) as u8,
            ));
        }
        true
    }

    /// Up to `count` distinct boons, drawn at random (seeded from the run's seed, the cleared
    /// depth and the current depth) from those that can still be bought.
    pub fn reward_offer(&self, completed_depth: u32, count: usize) -> (r: Vec<BoonKind>)
        ensures
            r.len() == if count < purchasable(self@).len() {
                count as int
            } else {
                purchasable(self@).len() as int
            },
            r@.no_duplicates(),
            forall|i: int| 0 <= i < r.len() ==> purchasable(self@).contains(#[trigger] r@[i]),
            exists|d: Seq<usize>|
                d.len() == r.len() && draws_fit(purchasable(self@).len(), d) && r@ == #[trigger] picks(
                    purchasable(self@),
                    d,
                ),
    {
        let ghost pool_all = purchasable(self@);
        let ghost all = Seq::new(6, |i: int| boon_at(i));
        let mut pool: Vec<BoonKind> = Vec::new();
        let mut k: usize = 0;
        while k < 6
            invariant
                k <= 6,
                all == Seq::new(6, |i: int| boon_at(i)),
                pool@ == all.take(k as int).filter(buyable(self@)),
                pool@.no_duplicates(),
                forall|j: int| 0 <= j < pool.len() ==> (#[trigger] pool@[j]).index_spec() < k,
            decreases 6 - k,
        {
            let b = BoonKind::from_index(k);
            proof {
                assert(all.take(k + 1).drop_last() =~= all.take(k as int));
                assert(all.take(k + 1).last() == b);
            }
            let ghost old_pool = pool@;
            proof {
                assert(all.take(k as int).push(b) =~= all.take(k + 1));
                all.take(k as int).lemma_filter_push(b, buyable(self@));
                assert(all.take(k + 1).filter(buyable(self@)) == (if buyable(self@)(b) {
                    all.take(k as int).filter(buyable(self@)).push(b)
                } else {
                    all.take(k as int).filter(buyable(self@))
                }));
            }
            if self.can_buy(b) {
                pool.push(b);
                proof {
                    assert forall|i: int, j: int| 0 <= i < pool.len() && 0 <= j < pool.len() && i != j
                        implies pool@[i] != pool@[j] by {
                        if i == old_pool.len() {
                            assert(pool@[j].index_spec() < k);
                        } else if j == old_pool.len() {
                            assert(pool@[i].index_spec() < k);
                        }
                    }
                }
            }
            k = k + 1;
        }
        proof {
            assert(all.take(6) =~= all);
            assert(pool@ == pool_all);
        }
        let salt = offer_salt(self.seed, completed_depth, self.depth);
        let mut rng = seeded_rng(salt);
        let mut draws: Vec<usize> = Vec::new();
        let n_draws: usize = if count < pool.len() { count } else { pool.len() };
        while draws.len() < n_draws
            invariant
                n_draws <= pool.len(),
                draws.len() <= n_draws,
                draws_fit(pool.len() as nat, draws@),
            decreases n_draws - draws.len(),
        {
            let k = draws.len();
            let idx = random_index(&mut rng, pool.len() - k);
            draws.push(idx);
            proof {
                assert forall|j: int| 0 <= j < draws@.len() implies #[trigger] draws@[j] < pool.len() - j by {
                    if j < k {
                        assert(draws@[j] == draws@.drop_last()[j]);
                    }
                }
            }
        }
        let offers = offer_picks(&pool, &draws);
        proof {
            lemma_picks(pool@, draws@);
            assert forall|i: int| 0 <= i < offers.len() implies pool_all.contains(#[trigger] offers@[i]) by {
                assert(offers@.contains(offers@[i]));
            }
        }
        offers
    }

    /// Extra score for collecting `count` lights of `color`: two per Red light per RedValue level.
    pub fn score_bonus_for_color(&self, color: LightColor, count: u32) -> (r: u32)
        requires
            color == LightColor::Red ==> count * level_spec(self@, BoonKind::RedValue) * 2
                <= u32::MAX,
        ensures
            r == if color == LightColor::Red {
                count * level_spec(self@, BoonKind::RedValue) * 2
            } else {
                0
            },
    {
        match color {
            LightColor::Red => count * self.level(BoonKind::RedValue) as u32 * 2,
            _ => 0,
        }
    }

    /// Extra reserve for collecting `count` lights of `color`: one per Green light per
    /// GreenReserve level.
    pub fn reserve_bonus_for_color(&self, color: LightColor, count: u32) -> (r: u32)
        requires
            color == LightColor::Green ==> count * level_spec(self@, BoonKind::GreenReserve)
                <= u32::MAX,
        ensures
            r == if color == LightColor::Green {
                count * level_spec(self@, BoonKind::GreenReserve)
            } else {
                0
            },
    {
        match color {
            LightColor::Green => count * self.level(BoonKind::GreenReserve) as u32,
            _ => 0,
        }
    }

    /// Turns `blue_count` collected Blue lights into bonus moves: with the BlueMoves boon the
    /// blues add to a meter, and every `blue_threshold(level)` of them is one move; the rest
    /// stays on the meter. Without the boon nothing happens.
    pub fn blue_move_bonus(&mut self, blue_count: u32) -> (r: u32)
        requires
            old(self).wf(),
            level_spec(old(self)@, BoonKind::BlueMoves) > 0 ==> old(self)@.blue_meter + blue_count
                <= u32::MAX,
        ensures
            final(self).wf(),
            level_spec(old(self)@, BoonKind::BlueMoves) == 0 ==> r == 0 && final(self)@ == old(
                self,
            )@,
            level_spec(old(self)@, BoonKind::BlueMoves) > 0 ==> {
                let total = old(self)@.blue_meter + blue_count;
                let th = blue_threshold(level_spec(old(self)@, BoonKind::BlueMoves) as nat) as int;
                &&& r == total / th
                &&& final(self)@ == (RunView { blue_meter: (total % th) as u32, ..old(self)@ })
            },
    {
        let level = self.level(BoonKind::BlueMoves) as u32;
        if level == 0 {
            return 0;
        }
        self.blue_meter = self.blue_meter + blue_count;
        let th = 7u32.saturating_sub(level);
        let threshold = if th < 3 { 3 } else { th };
        let moves = self.blue_meter / threshold;
        self.blue_meter = self.blue_meter % threshold;
        moves
    }

    /// Score for each spark rescued: 25 per SparkBounty level.
    pub fn spark_bonus(&self) -> (r: u32)
        requires
            self.wf(),
        ensures
            r == level_spec(self@, BoonKind::SparkBounty) * 25,
    {
        self.level(BoonKind::SparkBounty) as u32 * 25
    }

    /// Score for `created` power lights forged: 12 per light per PowerBounty level.
    pub fn power_bonus(&self, created: u32) -> (r: u32)
        requires
            created * level_spec(self@, BoonKind::PowerBounty) * 12 <= u32::MAX,
        ensures
            r == created * level_spec(self@, BoonKind::PowerBounty) * 12,
    {
        created * self.level(BoonKind::PowerBounty) as u32 * 12
    }

    /// The save text of the run, with `reserve` as the saved wallet.
    pub fn encode(&self, reserve: u32) -> (r: String)
        ensures
            r@ == encode_run_spec(self@, reserve),
    {
        let ghost f = run_fields(self@, reserve);
        let ghost ver = "lightcore-run-v2"@;
        let mut out = String::new();
        push_str(&mut out, "lightcore-run-v2");
        assert(out@ =~= ver + joined(f.take(0), '\n'));
        push_char(&mut out, '\n');
        push_char(&mut out, if self.active { '1' } else { '0' });
        proof { lemma_joined_step(ver, f, 0); assert(out@ =~= ver + joined(f.take(1), '\n')); }
        push_char(&mut out, '\n');
        push_decimal(&mut out, self.seed);
        proof { lemma_joined_step(ver, f, 1); assert(out@ =~= ver + joined(f.take(2), '\n')); }
        push_char(&mut out, '\n');
        push_decimal(&mut out, self.depth as u64);
        proof { lemma_joined_step(ver, f, 2); assert(out@ =~= ver + joined(f.take(3), '\n')); }
        push_char(&mut out, '\n');
        push_decimal(&mut out, self.blue_meter as u64);
        proof { lemma_joined_step(ver, f, 3); assert(out@ =~= ver + joined(f.take(4), '\n')); }
        push_char(&mut out, '\n');
        push_decimal(&mut out, reserve as u64);
        proof { lemma_joined_step(ver, f, 4); assert(out@ =~= ver + joined(f.take(5), '\n')); }
        push_char(&mut out, '\n');
        push_decimal(&mut out, self.lives as u64);
        proof { lemma_joined_step(ver, f, 5); assert(out@ =~= ver + joined(f.take(6), '\n')); }
        push_char(&mut out, '\n');
        let ghost head = out@;
        push_decimal(&mut out, self.boons[0] as u64);
        let mut i: usize = 1;
        while i < 6
            invariant
                1 <= i <= 6,
                head + decimal(self@.boons[0] as nat) + joined(
                    self@.boons.subrange(1, i as int).map_values(|v: u8| decimal(v as nat)),
                    ',',
                ) == out@,
            decreases 6 - i,
        {
            proof {
                let ds = self@.boons.subrange(1, i as int).map_values(|v: u8| decimal(v as nat));
                crate::text::lemma_joined_push(ds, decimal(self@.boons[i as int] as nat), ',');
                assert(ds.push(decimal(self@.boons[i as int] as nat)) =~= self@.boons.subrange(1, i + 1).map_values(|v: u8| decimal(v as nat)));
            }
            push_char(&mut out, ',');
            push_decimal(&mut out, self.boons[i] as u64);
            i = i + 1;
        }
        proof {
            assert(self@.boons.subrange(1, 6) =~= self@.boons.drop_first());
            assert(out@ =~= head + boons_line(self@.boons));
            lemma_joined_step(ver, f, 6);
            assert(f.take(7) =~= f);
            assert(out@ =~= ver + joined(f, '\n'));
        }
        out
    }

    /// The text saved for the run between sessions: the wallet `reserve` is kept only while
    /// the run is active.
    pub fn save_text(&self, reserve: u32) -> (r: String)
        ensures
            r@ == encode_run_spec(self@, if self@.active { reserve } else { 0 }),
    {
        self.encode(if self.active { reserve } else { 0 })
    }

    /// Reads a run save text back, with the saved wallet (0 for an inactive run); `None` when
    /// it is not a run save or a field does not read back.
    pub fn decode(raw: &str) -> (r: Option<(RunState, u32)>)
        ensures
            r matches Some((s, res)) ==> decode_run_spec(raw@) == Some((s@, res)) && s.wf(),
            r is None ==> decode_run_spec(raw@) is None,
    {
        let t = chars_of(raw);
        let lr = line_ranges(&t);
        let ghost ls = lines(raw@);
        let n = lr.len();
        if n == 0 {
            return None;
        }
        let is_v2 = range_is(&t, lr[0].0, lr[0].1, "lightcore-run-v2");
        let is_v1 = range_is(&t, lr[0].0, lr[0].1, "lightcore-run-v1");
        if !is_v1 && !is_v2 {
            return None;
        }
        let needed: usize = if is_v2 { 8 } else { 7 };
        if n < needed {
            return None;
        }
        proof {
            assert(ls[0] == t@.subrange(lr[0].0 as int, lr[0].1 as int));
            assert(ls[1] == t@.subrange(lr[1].0 as int, lr[1].1 as int));
            assert(ls[2] == t@.subrange(lr[2].0 as int, lr[2].1 as int));
            assert(ls[3] == t@.subrange(lr[3].0 as int, lr[3].1 as int));
            assert(ls[4] == t@.subrange(lr[4].0 as int, lr[4].1 as int));
            assert(ls[5] == t@.subrange(lr[5].0 as int, lr[5].1 as int));
            assert(ls[6] == t@.subrange(lr[6].0 as int, lr[6].1 as int));
            if is_v2 {
                assert(ls[7] == t@.subrange(lr[7].0 as int, lr[7].1 as int));
            }
            reveal_strlit("1");
            assert("1"@ =~= seq!['1']);
        }
        let active = range_is(&t, lr[1].0, lr[1].1, "1");
        let seed = match parse_uint(&t, lr[2].0, lr[2].1, 0xffff_ffff_ffff_ffff) {
            Some(v) => v,
            None => { return None; },
        };
        let depth_raw = match parse_uint(&t, lr[3].0, lr[3].1, 0xffff_ffff) {
            Some(v) => v as u32,
            None => { return None; },
        };
        let depth = if depth_raw < 1 { 1 } else if depth_raw > RUN_LEVELS { RUN_LEVELS } else { depth_raw };
        let blue_meter = match parse_uint(&t, lr[4].0, lr[4].1, 0xffff_ffff) {
            Some(v) => v as u32,
            None => { return None; },
        };
        let reserve = match parse_uint(&t, lr[5].0, lr[5].1, 0xffff_ffff) {
            Some(v) => v as u32,
            None => { return None; },
        };
        let (lives, boons_line) = if is_v2 {
            match parse_uint(&t, lr[6].0, lr[6].1, 0xffff_ffff) {
                Some(v) => (v as u32, lr[7]),
                None => { return None; },
            }
        } else {
            (2u32, lr[6])
        };
        let boons = match decode_boons_in(&t, boons_line.0, boons_line.1) {
            Some(b) => b,
            None => { return None; },
        };
        let s = RunState { active, seed, depth, lives, boons, blue_meter };
        proof {
            assert(s@ == (decode_run_spec(raw@)->0).0);
        }
        Some((s, if active { reserve } else { 0 }))
    }
}

/// Reads the boon levels from the comma-separated fields of `t[start..end]`.
fn decode_boons_in(t: &Vec<char>, start: usize, end: usize) -> (r: Option<[u8; 6]>)
    requires
        start <= end <= t.len(),
    ensures
        r matches Some(b) ==> decode_boons(split_char(t@.subrange(start as int, end as int), ','))
            == Some(b@) && boons_wf(b@),
        r is None ==> decode_boons(split_char(t@.subrange(start as int, end as int), ',')) is None,
{
    let fields = field_ranges(t, start, end, ',');
    let ghost fs = split_char(t@.subrange(start as int, end as int), ',');
    let k: usize = if fields.len() < 6 { fields.len() } else { 6 };
    let mut boons = [0u8; 6];
    let mut i: usize = 0;
    while i < k
        invariant
            k <= 6,
            start <= end <= t.len(),
            fs == split_char(t@.subrange(start as int, end as int), ','),
            k <= fields.len(),
            k == (if fs.len() < 6 { fs.len() as int } else { 6int }),
            fields.len() == fs.len(),
            forall|j: int| #![trigger fields[j]] 0 <= j < fields.len() ==> fields[j].0 <= fields[j].1
                <= t.len() && t@.subrange(fields[j].0 as int, fields[j].1 as int) == fs[j],
            i <= k,
            forall|j: int| 0 <= j < i ==> (#[trigger] parse_unsigned(fs[j], 255)) is Some,
            forall|j: int|
                0 <= j < 6 ==> #[trigger] boons@[j] == (if j < i {
                    min_level(parse_unsigned(fs[j], 255)->0)
                } else {
                    0u8
                }),
        decreases k - i,
    {
        let (a, b) = fields[i];
        proof {
            assert(t@.subrange(fields[i as int].0 as int, fields[i as int].1 as int) == fs[i as int]);
        }
        let v = match parse_uint(t, a, b, 255) {
            Some(v) => v as u8,
            None => {
                proof {
                    assert(parse_unsigned(fs[i as int], 255) is None);
                }
                return None;
            },
        };
        boons[i] = if v > MAX_BOON_LEVEL { MAX_BOON_LEVEL } else { v };
        i = i + 1;
    }
    proof {
        assert(boons@ =~= decode_boons(fs)->0);
    }
    Some(boons)
}

/// The boon levels a boons line's fields hold: the first six fields (fewer if there are fewer)
/// must each read as a `u8`, and are capped at the top level; missing levels are 0.
pub open spec fn decode_boons(fs: Seq<Seq<char>>) -> Option<Seq<u8>> {
    let k = if fs.len() < 6 { fs.len() as int } else { 6int };
    if forall|j: int| 0 <= j < k ==> (#[trigger] parse_unsigned(fs[j], 255)) is Some {
        Some(
            Seq::new(
                6,
                |j: int|
                    if j < k {
                        min_level(parse_unsigned(fs[j], 255)->0)
                    } else {
                        0u8
                    },
            ),
        )
    } else {
        None
    }
}

/// A parsed boon level capped at `MAX_BOON_LEVEL`.
pub open spec fn min_level(v: nat) -> u8 {
    if v > MAX_BOON_LEVEL {
        MAX_BOON_LEVEL
    } else {
        v as u8
    }
}

/// The line of a boolean flag: `1` or `0`.
pub open spec fn flag_line(b: bool) -> Seq<char> {
    if b {
        seq!['1']
    } else {
        seq!['0']
    }
}

/// The boons line: each level in decimal, separated by commas.
pub open spec fn boons_line(b: Seq<u8>) -> Seq<char> {
    decimal(b[0] as nat) + joined(b.drop_first().map_values(|v: u8| decimal(v as nat)), ',')
}

/// The save text of run `r` with wallet `reserve`: the version line, then the active flag,
/// seed, depth, blue meter, reserve, lives and boon levels, one per line.
pub open spec fn encode_run_spec(r: RunView, reserve: u32) -> Seq<char> {
    "lightcore-run-v2"@ + joined(run_fields(r, reserve), '\n')
}

/// Writing one more line after a first line and joined lines.
proof fn lemma_joined_step(ver: Seq<char>, f: Seq<Seq<char>>, k: int)
    requires
        0 <= k < f.len(),
    ensures
        ver + joined(f.take(k + 1), '\n') == ver + joined(f.take(k), '\n') + seq!['\n'] + f[k],
{
    assert(f.take(k).push(f[k]) =~= f.take(k + 1));
    crate::text::lemma_joined_push(f.take(k), f[k], '\n');
    assert(ver + joined(f.take(k + 1), '\n') =~= ver + joined(f.take(k), '\n') + seq!['\n'] + f[k]);
}

/// `d` clamped into the run's depths `1..=RUN_LEVELS`.
pub open spec fn clamp_depth(d: nat) -> u32 {
    if d < 1 {
        1
    } else if d > RUN_LEVELS {
        RUN_LEVELS
    } else {
        d as u32
    }
}

/// The run and wallet that a save text holds, or `None`: the first line must name version 1 or
/// 2; then come the active flag (active when exactly `1`), the seed, the depth (clamped into
/// `1..=13`), the blue meter, the reserve, in version 2 the lives (2 in version 1), and a line of
/// comma-separated boon levels, of which the first six are read and capped at 3. The wallet
/// reads back as 0 for an inactive run.
pub open spec fn decode_run_spec(raw: Seq<char>) -> Option<(RunView, u32)> {
    let ls = lines(raw);
    if ls.len() == 0 || (ls[0] != "lightcore-run-v1"@ && ls[0] != "lightcore-run-v2"@) {
        None
    } else {
        let v2 = ls[0] == "lightcore-run-v2"@;
        if ls.len() < (if v2 { 8int } else { 7int }) {
            None
        } else {
            let lives = if v2 { parse_unsigned(ls[6], u32::MAX as nat) } else { Some(2nat) };
            let boons = decode_boons(split_char(if v2 { ls[7] } else { ls[6] }, ','));
            match (
                parse_unsigned(ls[2], u64::MAX as nat),
                parse_unsigned(ls[3], u32::MAX as nat),
                parse_unsigned(ls[4], u32::MAX as nat),
                parse_unsigned(ls[5], u32::MAX as nat),
                lives,
                boons,
            ) {
                (Some(seed), Some(depth), Some(meter), Some(reserve), Some(lives), Some(boons)) => {
                    let active = ls[1] == seq!['1'];
                    Some(
                        (
                            RunView {
                                active,
                                seed: seed as u64,
                                depth: clamp_depth(depth),
                                lives: lives as u32,
                                boons,
                                blue_meter: meter as u32,
                            },
                            if active { reserve as u32 } else { 0u32 },
                        ),
                    )
                },
                _ => None,
            }
        }
    }
}

/// The run `r` after clearing `depth`: an active run moves on to the larger of its depth and
/// `depth + 1` (saturating), and stays active only while `depth` is below `RUN_LEVELS`; every
/// other field is kept. An inactive run is left as it is.
pub open spec fn completed_depth_spec(r: RunView, depth: u32) -> RunView {
    if r.active {
        RunView {
            depth: if r.depth >= depth + 1 {
                r.depth
            } else if depth == u32::MAX {
                u32::MAX
            } else {
                (depth + 1) as u32
            },
            active: depth < RUN_LEVELS,
            ..r
        }
    } else {
        r
    }
}

/// The seed of a reward offer's draws: the run's seed mixed with the cleared depth (spread by
/// a wrapping multiplication with 0x9E37_79B9_7F4A_7C15) and the current depth.
pub open spec fn offer_salt_spec(seed: u64, completed_depth: u32, depth: u32) -> u64 {
    seed ^ (((completed_depth as nat) * 0x9E37_79B9_7F4A_7C15nat) % 0x1_0000_0000_0000_0000nat) as u64
        ^ (depth as u64)
}

/// The seed of a reward offer's draws for a run with seed `seed` at depth `depth` that cleared
/// `completed_depth`.
pub fn offer_salt(seed: u64, completed_depth: u32, depth: u32) -> (r: u64)
    ensures
        r == offer_salt_spec(seed, completed_depth, depth),
{
    seed ^ (completed_depth as u64).wrapping_mul(0x9E37_79B9_7F4A_7C15) ^ depth as u64
}

/// `pool` without its element at `i`, which the last element replaces (what `Vec::swap_remove`
/// leaves).
pub open spec fn swap_removed(pool: Seq<BoonKind>, i: int) -> Seq<BoonKind> {
    pool.update(i, pool.last()).drop_last()
}

/// What is left of `pool` after the draws `d`.
pub open spec fn pool_after(pool: Seq<BoonKind>, d: Seq<usize>) -> Seq<BoonKind>
    decreases d.len(),
{
    if d.len() == 0 {
        pool
    } else {
        swap_removed(pool_after(pool, d.drop_last()), d.last() as int)
    }
}

/// The boons the draws `d` pick from `pool`, in order: each draw takes the boon at its index in
/// what is left, and the last boon left takes that place.
pub open spec fn picks(pool: Seq<BoonKind>, d: Seq<usize>) -> Seq<BoonKind>
    decreases d.len(),
{
    if d.len() == 0 {
        Seq::empty()
    } else {
        picks(pool, d.drop_last()).push(pool_after(pool, d.drop_last())[d.last() as int])
    }
}

/// Each draw of `d` is an index into what is left of a pool of `n` at its turn.
pub open spec fn draws_fit(n: nat, d: Seq<usize>) -> bool {
    &&& d.len() <= n
    &&& forall|k: int| 0 <= k < d.len() ==> #[trigger] d[k] < n - k
}

/// The picks of fitting draws from a pool without repeats: as many as draws, none twice, and
/// together with what is left exactly the pool.
proof fn lemma_picks(pool: Seq<BoonKind>, d: Seq<usize>)
    requires
        pool.no_duplicates(),
        draws_fit(pool.len(), d),
    ensures
        picks(pool, d).len() == d.len(),
        pool_after(pool, d).len() == pool.len() - d.len(),
        pool_after(pool, d).no_duplicates(),
        picks(pool, d).no_duplicates(),
        forall|x: BoonKind|
            #[trigger] pool.contains(x) <==> (picks(pool, d).contains(x) || pool_after(pool, d).contains(x)),
        forall|x: BoonKind| !(#[trigger] picks(pool, d).contains(x) && pool_after(pool, d).contains(x)),
    decreases d.len(),
{
    if d.len() > 0 {
        let d0 = d.drop_last();
        assert forall|k: int| 0 <= k < d0.len() implies #[trigger] d0[k] < pool.len() - k by {
            assert(d0[k] == d[k]);
        }
        lemma_picks(pool, d0);
        let left = pool_after(pool, d0);
        let i = d.last() as int;
        assert(d.last() == d[d.len() - 1]);
        let b = left[i];
        let old_picks = picks(pool, d0);
        lemma_swap_remove(left, i, pool_after(pool, d));
        assert(left.contains(b));
        assert(!old_picks.contains(b));
        let np = picks(pool, d);
        assert(np == old_picks.push(b));
        assert forall|x: BoonKind| #[trigger] pool.contains(x) <==> (np.contains(x) || pool_after(pool, d).contains(x)) by {
            if old_picks.contains(x) {
                let j = choose|j: int| 0 <= j < old_picks.len() && old_picks[j] == x;
                assert(np[j] == x);
            }
            if np.contains(x) && x != b {
                let j = choose|j: int| 0 <= j < np.len() && np[j] == x;
                assert(old_picks[j] == x);
            }
            assert(np[np.len() - 1] == b);
        }
        assert forall|x: BoonKind| !(#[trigger] np.contains(x) && pool_after(pool, d).contains(x)) by {
            if np.contains(x) && pool_after(pool, d).contains(x) {
                assert(left.contains(x) && x != b);
                let j = choose|j: int| 0 <= j < np.len() && np[j] == x;
                assert(old_picks[j] == x);
                assert(old_picks.contains(x));
            }
        }
        assert forall|p: int, q: int| 0 <= p < np.len() && 0 <= q < np.len() && p != q implies np[p] != np[q] by {
            if p < old_picks.len() && q < old_picks.len() {
            } else if p < old_picks.len() {
                assert(old_picks.contains(np[p]));
            } else {
                assert(old_picks.contains(np[q]));
            }
        }
    }
}

/// The boons that the draws `draws` pick from `pool`: each draw takes the boon at its index in
/// what is left of the pool, and the last boon left takes that place.
pub fn offer_picks(pool: &Vec<BoonKind>, draws: &Vec<usize>) -> (r: Vec<BoonKind>)
    requires
        draws_fit(pool@.len(), draws@),
    ensures
        r@ == picks(pool@, draws@),
{
    let mut left: Vec<BoonKind> = Vec::new();
    let mut i: usize = 0;
    while i < pool.len()
        invariant
            i <= pool.len(),
            left@ == pool@.take(i as int),
        decreases pool.len() - i,
    {
        left.push(pool[i]);
        assert(left@ =~= pool@.take(i as int + 1));
        i += 1;
    }
    assert(left@ =~= pool@);
    let mut out: Vec<BoonKind> = Vec::new();
    let mut k: usize = 0;
    while k < draws.len()
        invariant
            k <= draws.len(),
            draws_fit(pool@.len(), draws@),
            left@ == pool_after(pool@, draws@.take(k as int)),
            out@ == picks(pool@, draws@.take(k as int)),
            left.len() == pool.len() - k,
        decreases draws.len() - k,
    {
        let idx = draws[k];
        assert(draws@.take(k as int + 1).drop_last() =~= draws@.take(k as int));
        assert(draws@.take(k as int + 1).last() == idx);
        assert(idx < pool@.len() - k);
        let b = left.swap_remove(idx);
        out.push(b);
        k += 1;
    }
    assert(draws@.take(k as int) =~= draws@);
    out
}

/// What `Vec::swap_remove` leaves: the other elements, and no duplicate appears.
proof fn lemma_swap_remove(old_s: Seq<BoonKind>, idx: int, new_s: Seq<BoonKind>)
    requires
        0 <= idx < old_s.len(),
        old_s.no_duplicates(),
        new_s == old_s.update(idx, old_s.last()).drop_last(),
    ensures
        new_s.len() == old_s.len() - 1,
        new_s.no_duplicates(),
        forall|x: BoonKind| #[trigger] new_s.contains(x) <==> (old_s.contains(x) && x != old_s[idx]),
{
    let last = old_s.len() - 1;
    assert forall|x: BoonKind| #[trigger] new_s.contains(x) <==> (old_s.contains(x) && x != old_s[idx]) by {
        if new_s.contains(x) {
            let j = choose|j: int| 0 <= j < new_s.len() && new_s[j] == x;
            if j == idx {
                assert(old_s[last] == x);
            } else {
                assert(old_s[j] == x);
            }
        }
        if old_s.contains(x) && x != old_s[idx] {
            let j = choose|j: int| 0 <= j < old_s.len() && old_s[j] == x;
            if j == last {
                assert(new_s[idx] == x);
            } else {
                assert(new_s[j] == x);
            }
        }
    }
}

/// The lines a run save text is made of, after its version line.
pub open spec fn run_fields(r: RunView, reserve: u32) -> Seq<Seq<char>> {
    seq![
        flag_line(r.active),
        decimal(r.seed as nat),
        decimal(r.depth as nat),
        decimal(r.blue_meter as nat),
        decimal(reserve as nat),
        decimal(r.lives as nat),
        boons_line(r.boons),
    ]
}

/// The boons line of six levels within the top level is a plain line that reads back as them.
proof fn lemma_boons_line(b: Seq<u8>)
    requires
        boons_wf(b),
    ensures
        plain_line(boons_line(b)),
        decode_boons(split_char(boons_line(b), ',')) == Some(b),
{
    let ds = b.drop_first().map_values(|v: u8| decimal(v as nat));
    lemma_decimal_plain(b[0] as nat);
    assert forall|k: int| 0 <= k < ds.len() implies #[trigger] ds[k].len() > 0 && ds[k].last() != '\r'
        && (forall|i: int| 0 <= i < ds[k].len() ==> ds[k][i] != ',' && ds[k][i] != '\n') by {
        lemma_decimal_plain(b[k + 1] as nat);
    }
    let b0 = decimal(b[0] as nat);
    let l = boons_line(b);
    assert forall|j: int| 0 <= j < l.len() implies l[j] != '\n' by {
        lemma_joined_no(ds, ',', '\n');
        if j >= b0.len() {
            assert(l[j] == joined(ds, ',')[j - b0.len()]);
        }
    }
    lemma_joined_last(b0, ds, ',');
    lemma_split_of_joined(b0, ds, ',');
    let fs = split_char(l, ',');
    assert(fs == seq![b0] + ds);
    assert forall|j: int| 0 <= j < 6 implies (#[trigger] parse_unsigned(fs[j], 255)) == Some(b[j] as nat) by {
        lemma_parse_decimal(b[j] as nat, 255);
        if j > 0 {
            assert(fs[j] == ds[j - 1]);
        }
    }
    assert(decode_boons(fs)->0 =~= b);
}

/// Law: a run save text reads back as the run it was written from, with the wallet it was
/// written with (0 when the run is inactive), for any run whose boons are within the top level
/// and whose depth is one of the run's depths.
pub proof fn lemma_run_round_trip(r: RunView, reserve: u32)
    requires
        boons_wf(r.boons),
        1 <= r.depth <= RUN_LEVELS,
    ensures
        decode_run_spec(encode_run_spec(r, reserve)) == Some(
            (r, if r.active { reserve } else { 0u32 }),
        ),
{
    reveal_strlit("lightcore-run-v2");
    reveal_strlit("lightcore-run-v1");
    let ver = "lightcore-run-v2"@;
    let fields = run_fields(r, reserve);
    lemma_decimal_plain(r.seed as nat);
    lemma_decimal_plain(r.depth as nat);
    lemma_decimal_plain(r.blue_meter as nat);
    lemma_decimal_plain(reserve as nat);
    lemma_decimal_plain(r.lives as nat);
    lemma_boons_line(r.boons);
    assert forall|i: int| 0 <= i < fields.len() implies plain_line(#[trigger] fields[i]) by {
    }
    lemma_lines_of_joined(ver, fields);
    let ls = lines(encode_run_spec(r, reserve));
    assert(ls == seq![ver] + fields);
    assert(ls[7] == boons_line(r.boons));
    lemma_parse_decimal(r.seed as nat, u64::MAX as nat);
    lemma_parse_decimal(r.depth as nat, u32::MAX as nat);
    lemma_parse_decimal(r.blue_meter as nat, u32::MAX as nat);
    lemma_parse_decimal(reserve as nat, u32::MAX as nat);
    lemma_parse_decimal(r.lives as nat, u32::MAX as nat);
    assert(seq!['0'][0] != seq!['1'][0]);
    assert((flag_line(r.active) == seq!['1']) == r.active);
}

/// A joined text of pieces without `c2`, separated by `sep != c2`, has no `c2`.
proof fn lemma_joined_no(ls: Seq<Seq<char>>, sep: char, c2: char)
    requires
        sep != c2,
        forall|k: int, i: int| 0 <= k < ls.len() && 0 <= i < ls[k].len() ==> #[trigger] ls[k][i] != c2,
    ensures
        forall|i: int| 0 <= i < joined(ls, sep).len() ==> joined(ls, sep)[i] != c2,
    decreases ls.len(),
{
    if ls.len() > 0 {
        assert forall|k: int, i: int| 0 <= k < ls.drop_first().len() && 0 <= i < ls.drop_first()[k].len()
            implies #[trigger] ls.drop_first()[k][i] != c2 by {
            assert(ls.drop_first()[k] == ls[k + 1]);
        }
        lemma_joined_no(ls.drop_first(), sep, c2);
        let j = joined(ls, sep);
        let rest = joined(ls.drop_first(), sep);
        assert(j == seq![sep] + ls[0] + rest);
        assert forall|i: int| 0 <= i < j.len() implies j[i] != c2 by {
            if i == 0 {
            } else if i < 1 + ls[0].len() {
                assert(j[i] == ls[0][i - 1]);
            } else {
                assert(j[i] == rest[i - 1 - ls[0].len()]);
            }
        }
    }
}

/// The last character of `a + joined(ls, sep)` is a digit-like last character of its last
/// piece: it is not `\r` when no piece (nor `a`) ends in `\r` and all are non-empty.
proof fn lemma_joined_last(a: Seq<char>, ls: Seq<Seq<char>>, sep: char)
    requires
        a.len() > 0,
        a.last() != '\r',
        sep != '\r',
        forall|k: int| 0 <= k < ls.len() ==> #[trigger] ls[k].len() > 0 && ls[k].last() != '\r',
    ensures
        (a + joined(ls, sep)).len() > 0,
        (a + joined(ls, sep)).last() != '\r',
    decreases ls.len(),
{
    if ls.len() > 0 {
        assert forall|k: int| 0 <= k < ls.drop_first().len() implies #[trigger] ls.drop_first()[k].len() > 0
            && ls.drop_first()[k].last() != '\r' by {
            assert(ls.drop_first()[k] == ls[k + 1]);
        }
        assert(ls[0].len() > 0 && ls[0].last() != '\r');
        lemma_joined_last(ls[0], ls.drop_first(), sep);
        assert(a + joined(ls, sep) =~= a + seq![sep] + (ls[0] + joined(ls.drop_first(), sep)));
    }
}

} // verus!
