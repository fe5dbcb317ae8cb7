//! What a removal wave pays: base points, the run's per-color bonuses, the booster reserve,
//! collected-core tallies and statistics, bonus moves from Blue lights, and the score drain
//! when a hollow light is matched.

use vstd::prelude::*;

use crate::grid::GridPos;
use crate::light::{LightColor, LightKind};
use crate::run::{blue_threshold, level_spec, BoonKind, RunState, RunView};

verus! {

/// One light removed by the wave.
#[derive(Clone, Copy, PartialEq, Eq, Debug, Structural)]
pub struct Removed {
    pub pos: GridPos,
    pub color: LightColor,
    pub kind: LightKind,
}

/// Per-match statistics.
#[derive(Clone, Copy, PartialEq, Eq, Debug, Structural)]
pub struct StatsBook {
    pub reds: u32,
    pub greens: u32,
    pub blues: u32,
    pub yellows: u32,
    pub purples: u32,
    pub lightkinds: u32,
    pub max_cascade: u32,
    pub total_chains: u32,
}

impl Default for StatsBook {
    /// All statistics at zero.
    fn default() -> (r: StatsBook)
        ensures
            r == (StatsBook {
                reds: 0,
                greens: 0,
                blues: 0,
                yellows: 0,
                purples: 0,
                lightkinds: 0,
                max_cascade: 0,
                total_chains: 0,
            }),
    {
        StatsBook {
            reds: 0,
            greens: 0,
            blues: 0,
            yellows: 0,
            purples: 0,
            lightkinds: 0,
            max_cascade: 0,
            total_chains: 0,
        }
    }
}

/// The match's counters that a removal wave changes.
#[derive(Clone, Copy, Debug)]
pub struct Economy {
    pub score: u32,
    pub reserve: u32,
    /// Cores collected per color, in `LightColor::index` order.
    pub collected_cores: [u32; 5],
    pub stats: StatsBook,
    pub moves: u32,
}

/// How many of the removed lights are not hollow and have color `c`.
pub open spec fn color_count(rs: Seq<Removed>, c: LightColor) -> nat
    decreases rs.len(),
{
    if rs.len() == 0 {
        0
    } else {
        color_count(rs.drop_last(), c) + if !rs.last().kind.is_hollow_spec() && rs.last().color
            == c {
            1nat
        } else {
            0nat
        }
    }
}

/// How many of the removed lights are not hollow.
pub open spec fn solid_count(rs: Seq<Removed>) -> nat
    decreases rs.len(),
{
    if rs.len() == 0 {
        0
    } else {
        solid_count(rs.drop_last()) + if !rs.last().kind.is_hollow_spec() {
            1nat
        } else {
            0nat
        }
    }
}

/// How many of the removed lights are power lights.
pub open spec fn power_count(rs: Seq<Removed>) -> nat
    decreases rs.len(),
{
    if rs.len() == 0 {
        0
    } else {
        power_count(rs.drop_last()) + if rs.last().kind.is_power_spec() {
            1nat
        } else {
            0nat
        }
    }
}

/// The cells of the removed hollow lights, in order.
pub open spec fn hollow_cells(rs: Seq<Removed>) -> Seq<GridPos>
    decreases rs.len(),
{
    if rs.len() == 0 {
        Seq::empty()
    } else if rs.last().kind.is_hollow_spec() {
        hollow_cells(rs.drop_last()).push(rs.last().pos)
    } else {
        hollow_cells(rs.drop_last())
    }
}

/// The color in slot `i` of a five-entry tally.
pub open spec fn color_at(i: int) -> LightColor {
    if i == 0 {
        LightColor::Red
    } else if i == 1 {
        LightColor::Green
    } else if i == 2 {
        LightColor::Blue
    } else if i == 3 {
        LightColor::Yellow
    } else {
        LightColor::Purple
    }
}

/// Base points of the wave: each non-hollow light is worth the cascade depth.
pub open spec fn wave_points(rs: Seq<Removed>, cascade: u32) -> int {
    solid_count(rs) * cascade
}

/// The run's score bonus for the wave: the forged-power bonus plus two per Red light per cascade
/// step per RedValue level.
pub open spec fn wave_score_bonus(rs: Seq<Removed>, cascade: u32, power_bonus: u32, run: RunView) -> int {
    power_bonus + color_count(rs, LightColor::Red) * (cascade * level_spec(run, BoonKind::RedValue) * 2)
}

/// The run's reserve bonus for the wave: one per Green light per cascade step per GreenReserve
/// level.
pub open spec fn wave_reserve_bonus(rs: Seq<Removed>, cascade: u32, run: RunView) -> int {
    color_count(rs, LightColor::Green) * (cascade * level_spec(run, BoonKind::GreenReserve))
}

/// Whether the wave's counters all fit in `u32`.
pub open spec fn rewards_fit(
    rs: Seq<Removed>,
    cascade: u32,
    score_reset: bool,
    power_bonus: u32,
    e: Economy,
    run: RunView,
) -> bool {
    &&& forall|i: int| 0 <= i < 5 ==> #[trigger] e.collected_cores[i] + color_count(rs, color_at(i)) * cascade <= u32::MAX
    &&& e.stats.reds + color_count(rs, LightColor::Red) * cascade <= u32::MAX
    &&& e.stats.greens + color_count(rs, LightColor::Green) * cascade <= u32::MAX
    &&& e.stats.blues + color_count(rs, LightColor::Blue) * cascade <= u32::MAX
    &&& e.stats.yellows + color_count(rs, LightColor::Yellow) * cascade <= u32::MAX
    &&& e.stats.purples + color_count(rs, LightColor::Purple) * cascade <= u32::MAX
    &&& e.stats.lightkinds + power_count(rs) * cascade <= u32::MAX
    &&& e.stats.total_chains < u32::MAX
    &&& cascade * level_spec(run, BoonKind::RedValue) * 2 <= u32::MAX
    &&& cascade * level_spec(run, BoonKind::GreenReserve) <= u32::MAX
    &&& !score_reset ==> e.score + wave_points(rs, cascade) + wave_score_bonus(rs, cascade, power_bonus, run) <= u32::MAX
    &&& !score_reset ==> e.reserve + wave_points(rs, cascade) + wave_reserve_bonus(rs, cascade, run) <= u32::MAX
    &&& level_spec(run, BoonKind::BlueMoves) > 0 ==> run.blue_meter + color_count(rs, LightColor::Blue) * cascade <= u32::MAX
}

/// Applies a removal wave's economy: base points and run bonuses go to the score and the
/// reserve (or, when a hollow light triggered `score_reset`, the score is drained to 0 and
/// nothing is added); every non-hollow light adds the cascade depth to its color's collected
/// cores and statistics; Blue lights feed the run's bonus-move meter, whose moves are added
/// unless moves are unlimited (`u32::MAX`). Returns the points to report for the wave (0 on a
/// drain) and, on a drain, the cells of the hollow lights the drain flows from.
pub fn apply_removal_rewards(
    removed: &Vec<Removed>,
    cascade: u32,
    score_reset: bool,
    power_bonus: u32,
    economy: &mut Economy,
    run: &mut RunState,
) -> (r: (u32, Vec<GridPos>))
    requires
        old(run).wf(),
        rewards_fit(removed@, cascade, score_reset, power_bonus, *old(economy), old(run)@),
    ensures
        final(run).wf(),
        r.0 == if score_reset {
            0
        } else {
            wave_points(removed@, cascade) + wave_score_bonus(removed@, cascade, power_bonus, old(run)@)
        },
        r.1@ == if score_reset { hollow_cells(removed@) } else { Seq::<GridPos>::empty() },
        final(economy).score == if score_reset {
            0
        } else {
            old(economy).score + wave_points(removed@, cascade) + wave_score_bonus(removed@, cascade, power_bonus, old(run)@)
        },
        final(economy).reserve == if score_reset {
            old(economy).reserve as int
        } else {
            old(economy).reserve + wave_points(removed@, cascade) + wave_reserve_bonus(removed@, cascade, old(run)@)
        },
        forall|i: int| 0 <= i < 5 ==> #[trigger] final(economy).collected_cores[i] == old(economy).collected_cores[i]
            + color_count(removed@, color_at(i)) * cascade,
        final(economy).stats.reds == old(economy).stats.reds + color_count(removed@, LightColor::Red) * cascade,
        final(economy).stats.greens == old(economy).stats.greens + color_count(removed@, LightColor::Green) * cascade,
        final(economy).stats.blues == old(economy).stats.blues + color_count(removed@, LightColor::Blue) * cascade,
        final(economy).stats.yellows == old(economy).stats.yellows + color_count(removed@, LightColor::Yellow) * cascade,
        final(economy).stats.purples == old(economy).stats.purples + color_count(removed@, LightColor::Purple) * cascade,
        final(economy).stats.lightkinds == old(economy).stats.lightkinds + power_count(removed@) * cascade,
        final(economy).stats.max_cascade == if old(economy).stats.max_cascade >= cascade {
            old(economy).stats.max_cascade
        } else {
            cascade
        },
        final(economy).stats.total_chains == old(economy).stats.total_chains + if cascade >= 2 { 1int } else { 0int },
        ({
            let blues = color_count(removed@, LightColor::Blue) * cascade;
            let level = level_spec(old(run)@, BoonKind::BlueMoves);
            let moves = if level == 0 { 0 } else { (old(run)@.blue_meter + blues) / (blue_threshold(level as nat) as int) };
            &&& level == 0 ==> final(run)@ == old(run)@
            &&& level > 0 ==> final(run)@ == (RunView {
                blue_meter: ((old(run)@.blue_meter + blues) % (blue_threshold(level as nat) as int)) as u32,
                ..old(run)@
            })
            &&& final(economy).moves == if moves > 0 && old(economy).moves != u32::MAX {
                if old(economy).moves + moves > u32::MAX { u32::MAX as int } else { old(economy).moves + moves }
            } else {
                old(economy).moves as int
            }
        }),
{
    let mut counts: [u64; 5] = [0; 5];
    let mut solid: u64 = 0;
    let mut powers: u64 = 0;
    let mut hollows: Vec<GridPos> = Vec::new();
    let mut i: usize = 0;
    while i < removed.len()
        invariant
            i <= removed.len(),
            solid == solid_count(removed@.take(i as int)),
            powers == power_count(removed@.take(i as int)),
            forall|k: int| 0 <= k < 5 ==> #[trigger] counts[k] == color_count(removed@.take(i as int), color_at(k)),
            hollows@ == hollow_cells(removed@.take(i as int)),
            solid <= i,
            powers <= i,
            forall|k: int| 0 <= k < 5 ==> #[trigger] counts[k] <= i,
        decreases removed.len() - i,
    {
        let item = removed[i];
        proof {
            assert(removed@.take(i + 1).drop_last() =~= removed@.take(i as int));
            assert(removed@.take(i + 1).last() == item);
        }
        if item.kind.is_power() {
            powers = powers + 1;
        }
        if item.kind.is_hollow() {
            hollows.push(item.pos);
        } else {
            solid = solid + 1;
            let c = item.color.index();
            counts[c] = counts[c] + 1;
        }
        proof {
            assert forall|k: int| 0 <= k < 5 implies #[trigger] counts[k] == color_count(removed@.take(i + 1), color_at(k)) by {
                assert(item.color == color_at(item.color.index_spec()));
            }
        }
        i = i + 1;
    }
    proof {
        assert(removed@.take(removed.len() as int) =~= removed@);
        assert(color_at(0) == LightColor::Red);
        assert(color_at(1) == LightColor::Green);
        assert(color_at(2) == LightColor::Blue);
        assert(color_at(3) == LightColor::Yellow);
        assert(color_at(4) == LightColor::Purple);
        assert(counts[0] * cascade <= u32::MAX);
        assert(counts[1] * cascade <= u32::MAX);
        assert(counts[2] * cascade <= u32::MAX);
        assert(counts[3] * cascade <= u32::MAX);
        assert(counts[4] * cascade <= u32::MAX);
    }
    let c64 = cascade as u64;
    let points: u64 = if score_reset { 0 } else { solid * c64 };
    let red_level = run.level(BoonKind::RedValue) as u64;
    let green_level = run.level(BoonKind::GreenReserve) as u64;
    let mut score_bonus: u64 = 0;
    let mut reserve_bonus: u64 = 0;
    if !score_reset {
        proof {
            assert(solid * cascade >= 0) by (nonlinear_arith);
        }
        score_bonus = power_bonus as u64 + counts[0] * (c64 * red_level * 2);
        reserve_bonus = counts[1] * (c64 * green_level);
    }
    economy.collected_cores[0] = economy.collected_cores[0] + (counts[0] * c64) as u32;
    economy.collected_cores[1] = economy.collected_cores[1] + (counts[1] * c64) as u32;
    economy.collected_cores[2] = economy.collected_cores[2] + (counts[2] * c64) as u32;
    economy.collected_cores[3] = economy.collected_cores[3] + (counts[3] * c64) as u32;
    economy.collected_cores[4] = economy.collected_cores[4] + (counts[4] * c64) as u32;
    economy.stats.reds = economy.stats.reds + (counts[0] * c64) as u32;
    economy.stats.greens = economy.stats.greens + (counts[1] * c64) as u32;
    economy.stats.blues = economy.stats.blues + (counts[2] * c64) as u32;
    economy.stats.yellows = economy.stats.yellows + (counts[3] * c64) as u32;
    economy.stats.purples = economy.stats.purples + (counts[4] * c64) as u32;
    proof {
        assert(powers * cascade <= u32::MAX);
    }
    economy.stats.lightkinds = economy.stats.lightkinds + (powers * c64) as u32;
    let drained: Vec<GridPos>;
    if score_reset {
        economy.score = 0;
        drained = hollows;
    } else {
        economy.score = (economy.score as u64 + points + score_bonus) as u32;
        economy.reserve = (economy.reserve as u64 + points + reserve_bonus) as u32;
        drained = Vec::new();
    }
    if economy.stats.max_cascade < cascade {
        economy.stats.max_cascade = cascade;
    }
    if cascade >= 2 {
        economy.stats.total_chains = economy.stats.total_chains + 1;
    }
    let blue_total = (counts[2] * c64) as u32;
    let move_bonus = run.blue_move_bonus(blue_total);
    if move_bonus > 0 && economy.moves != u32::MAX {
        economy.moves = economy.moves.saturating_add(move_bonus);
    }
    let reported: u32 = if score_reset { 0 } else { (points + score_bonus) as u32 };
    (reported, drained)
}

/// Shards flown to the score per popped light, while the wave stays within the shard limit.
pub const SHARDS_PER_POP: usize = 2;

/// The most shards a wave flies with two per light; past it, each light flies one.
pub const MAX_TOTAL_SHARDS: usize = 48;

/// The number of shards a wave of `pops` popped lights flies.
pub open spec fn shard_count(pops: nat) -> nat {
    if pops * 2 <= 48 {
        pops * 2
    } else {
        pops
    }
}

/// The points shard `i` of `n` carries when `points` are split: an equal share, and one more
/// for each of the first `points % n` shards.
pub open spec fn shard_share(points: nat, n: nat, i: int) -> nat {
    points / n + if i < points % n {
        1nat
    } else {
        0nat
    }
}

/// The sum of `s`.
pub open spec fn total(s: Seq<u32>) -> int
    decreases s.len(),
{
    if s.len() == 0 {
        0
    } else {
        total(s.drop_last()) + s.last()
    }
}

/// The points each score shard of a wave carries: none when the wave pays nothing or pops no
/// light; otherwise the points are split over the wave's shards (two per light, or one per
/// light past the shard limit), the first shards carrying the remainder.
pub fn shard_points(points: u32, pops: usize) -> (r: Vec<u32>)
    requires
        pops <= u32::MAX,
    ensures
        points == 0 || pops == 0 ==> r@.len() == 0,
        points > 0 && pops > 0 ==> r@.len() == shard_count(pops as nat) && forall|i: int|
            0 <= i < r@.len() ==> #[trigger] r@[i] == shard_share(points as nat, shard_count(pops as nat), i),
{
    let mut out: Vec<u32> = Vec::new();
    if points == 0 || pops == 0 {
        return out;
    }
    let per_pop: usize = if pops <= MAX_TOTAL_SHARDS / SHARDS_PER_POP { SHARDS_PER_POP } else { 1 };
    let n: u32 = if per_pop == 2 { (pops * 2) as u32 } else { pops as u32 };
    assert(n as nat == shard_count(pops as nat));
    let base = points / n;
    let rem = points % n;
    let mut i: u32 = 0;
    while i < n
        invariant
            i <= n,
            n > 0,
            base == points / n,
            rem == points % n,
            out@.len() == i,
            forall|j: int| 0 <= j < i ==> #[trigger] out@[j] == shard_share(points as nat, n as nat, j),
        decreases n - i,
    {
        assert(base as int * n <= points) by (nonlinear_arith)
            requires
                base == points / n,
                n > 0,
        ;
        assert(base as int * n + rem == points) by (nonlinear_arith)
            requires
                base == points / n,
                rem == points % n,
                n > 0,
        ;
        let extra: u32 = if i < rem { 1 } else { 0 };
        assert(base + extra <= u32::MAX) by (nonlinear_arith)
            requires
                base as int * n <= points,
                n > 0,
                extra <= 1,
                extra == 1 ==> rem > 0,
                base as int * n + rem == points,
                points <= u32::MAX,
        ;
        out.push(base + extra);
        i += 1;
    }
    out
}

/// The shares of the first `k` shards add up to `k` equal shares plus the remainder they carry.
proof fn lemma_shares_prefix(points: nat, n: nat, s: Seq<u32>, k: int)
    requires
        n > 0,
        0 <= k <= s.len(),
        forall|i: int| 0 <= i < s.len() ==> #[trigger] s[i] == shard_share(points, n, i),
    ensures
        total(s.take(k)) == k * (points / n) + if k < points % n { k } else { (points % n) as int },
    decreases k,
{
    if k > 0 {
        lemma_shares_prefix(points, n, s, k - 1);
        assert(s.take(k).drop_last() =~= s.take(k - 1));
        assert(s.take(k).last() == s[k - 1]);
        let b = points / n;
        assert(k * b == (k - 1) * b + b) by (nonlinear_arith);
        assert(total(s.take(k)) == total(s.take(k - 1)) + s[k - 1]);
        assert(s[k - 1] == b + if k - 1 < points % n { 1nat } else { 0nat });
        let r = points % n;
        if k < r {
            assert(total(s.take(k)) == (k - 1) * b + (k - 1) + b + 1);
        } else if k - 1 < r {
            assert(r == k);
            assert(total(s.take(k)) == (k - 1) * b + (k - 1) + b + 1);
        } else {
            assert(total(s.take(k)) == (k - 1) * b + r + b);
        }
    } else {
        assert(s.take(0).len() == 0);
    }
}

/// Law: a wave's score shards carry exactly the wave's points between them.
pub proof fn lemma_shards_carry_all_points(points: u32, pops: nat, s: Seq<u32>)
    requires
        points > 0,
        pops > 0,
        s.len() == shard_count(pops),
        forall|i: int| 0 <= i < s.len() ==> #[trigger] s[i] == shard_share(points as nat, shard_count(pops), i),
    ensures
        total(s) == points,
{
    let n = shard_count(pops);
    let p = points as nat;
    lemma_shares_prefix(p, n, s, n as int);
    assert(s.take(n as int) =~= s);
    assert(p % n < n && n * (p / n) + p % n == p) by (nonlinear_arith)
        requires
            n > 0,
    ;
}

} // verus!
