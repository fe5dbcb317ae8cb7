//! Campaign progress: the best score and completion of each of the 13 campaign levels, which
//! levels are unlocked, and the `campaign.txt` save text.

use vstd::prelude::*;

use crate::text::{
    chars_of, decimal, find_in, lemma_decimal, lemma_decimal_has_no, lemma_lines_of_joined,
    lemma_joined_push, lemma_parse_decimal, lemma_split_once_at, lines, joined,
    next_line, parse_uint, parse_unsigned, plain_line, push_char, push_decimal, push_str, range_is,
    split_once,
};

verus! {

/// Number of levels on the campaign map.
pub const CAMPAIGN_LEVELS: usize = 13;

/// The first line of the save text this version writes.
pub open spec fn save_version() -> Seq<char> {
    "lightcore-progress-v2"@
}

/// The first line of the older save text, which held 9 levels.
pub open spec fn save_version_v1() -> Seq<char> {
    "lightcore-progress-v1"@
}

/// One level's saved result.
#[derive(Clone, Copy, PartialEq, Eq, Debug, Structural)]
pub struct CampaignRecord {
    pub best_score: u32,
    pub completed: bool,
}

/// The record of a level never played.
pub open spec fn empty_record() -> CampaignRecord {
    CampaignRecord { best_score: 0, completed: false }
}

impl Default for CampaignRecord {
    fn default() -> (r: Self)
        ensures
            r == empty_record(),
    {
        CampaignRecord { best_score: 0, completed: false }
    }
}

/// What recording a finished level changed.
#[derive(Clone, Copy, PartialEq, Eq, Debug, Structural)]
pub struct CampaignUnlockResult {
    /// The score beat the level's previous best.
    pub new_best: bool,
    /// The level that this first completion unlocked, if any.
    pub unlocked_next: Option<u32>,
}

/// The position on the campaign map of the level numbered `level` (levels are numbered 1 to 13
/// in map order).
pub open spec fn level_index_spec(level: u32) -> Option<int> {
    if 1 <= level <= CAMPAIGN_LEVELS {
        Some(level - 1)
    } else {
        None
    }
}

/// The position on the campaign map of the level numbered `level`, or `None` for a level that
/// is not on the map.
pub fn level_index(level: u32) -> (r: Option<usize>)
    ensures
        r matches Some(i) ==> level_index_spec(level) == Some(i as int),
        r is None ==> level_index_spec(level) is None,
{
    if 1 <= level && level <= 13 {
        Some((level - 1) as usize)
    } else {
        None
    }
}

/// The best score kept for `level` in the records `p`.
pub open spec fn best_score_spec(p: Seq<CampaignRecord>, level: u32) -> u32 {
    match level_index_spec(level) {
        Some(i) => p[i].best_score,
        None => 0,
    }
}

/// Whether `level` can be played given the records `p`: the first level always, any other once
/// the level before it is completed.
pub open spec fn is_unlocked_spec(p: Seq<CampaignRecord>, level: u32) -> bool {
    match level_index_spec(level) {
        Some(i) => i == 0 || p[i - 1].completed,
        None => false,
    }
}

/// The records after finishing `level` with `score`: the best score is raised to `score` when
/// that is higher, and the level is marked completed.
pub open spec fn record_score_spec(p: Seq<CampaignRecord>, level: u32, score: u32) -> Seq<
    CampaignRecord,
> {
    match level_index_spec(level) {
        Some(i) => p.update(
            i,
            CampaignRecord {
                best_score: if score > p[i].best_score { score } else { p[i].best_score },
                completed: true,
            },
        ),
        None => p,
    }
}

/// What recording `level` with `score` over the records `p` reports: whether the score beats
/// the level's best, and the level that this first completion unlocks (none after the last
/// level, and none for a level already completed or not on the map).
pub open spec fn record_result_spec(p: Seq<CampaignRecord>, level: u32, score: u32) -> CampaignUnlockResult {
    CampaignUnlockResult {
        new_best: level_index_spec(level) is Some && score > best_score_spec(p, level),
        unlocked_next: match level_index_spec(level) {
            Some(i) => if i + 1 < CAMPAIGN_LEVELS && !p[i].completed {
                Some((level + 1) as u32)
            } else {
                None
            },
            None => None,
        },
    }
}

/// The save-text line of one record: `best_score,1` or `best_score,0`.
pub open spec fn record_line(r: CampaignRecord) -> Seq<char> {
    decimal(r.best_score as nat) + seq![','] + (if r.completed { seq!['1'] } else { seq!['0'] })
}

/// The save text of the records `p`: the version line, then one line per record.
pub open spec fn encode_spec(p: Seq<CampaignRecord>) -> Seq<char> {
    save_version() + joined(p.map_values(|r: CampaignRecord| record_line(r)), '\n')
}

/// A save-text record line read back: `score,completed`, the score a `u32` as `str::parse`
/// reads it, completed when the text after the comma is exactly `1`.
pub open spec fn parse_record(l: Seq<char>) -> Option<CampaignRecord> {
    match split_once(l, ',') {
        Some((score, completed)) => match parse_unsigned(score, u32::MAX as nat) {
            Some(v) => Some(CampaignRecord { best_score: v as u32, completed: completed == seq!['1'] }),
            None => None,
        },
        None => None,
    }
}

/// How many record lines a save with first line `ver` may hold.
pub open spec fn max_record_lines(ver: Seq<char>) -> nat {
    if ver == save_version() {
        13
    } else {
        9
    }
}

/// The records a save text holds, or `None` when it is not a campaign save: the first line must
/// name version 1 or 2; then up to 9 (version 1) or 13 (version 2) lines follow, each a record
/// that must read back; levels without a line keep an empty record.
pub open spec fn decode_spec(raw: Seq<char>) -> Option<Seq<CampaignRecord>> {
    let ls = lines(raw);
    if ls.len() == 0 || (ls[0] != save_version_v1() && ls[0] != save_version()) {
        None
    } else {
        let max = max_record_lines(ls[0]);
        let n = if max < ls.len() - 1 { max as int } else { ls.len() - 1 };
        if forall|i: int| 0 <= i < n ==> (#[trigger] parse_record(ls[i + 1])) is Some {
            Some(
                Seq::new(
                    CAMPAIGN_LEVELS as nat,
                    |i: int|
                        if i < n {
                            parse_record(ls[i + 1])->0
                        } else {
                            empty_record()
                        },
                ),
            )
        } else {
            None
        }
    }
}

/// Best score and completion of every campaign level.
#[derive(Clone, Copy)]
pub struct CampaignProgress {
    best_scores: [CampaignRecord; CAMPAIGN_LEVELS],
}

impl View for CampaignProgress {
    type V = Seq<CampaignRecord>;

    closed spec fn view(&self) -> Seq<CampaignRecord> {
        self.best_scores@
    }
}

impl Default for CampaignProgress {
    fn default() -> (r: Self)
        ensures
            r@ == Seq::new(CAMPAIGN_LEVELS as nat, |i: int| empty_record()),
    {
        let r = CampaignProgress { best_scores: [CampaignRecord { best_score: 0, completed: false }; CAMPAIGN_LEVELS] };
        assert(r@ =~= Seq::new(CAMPAIGN_LEVELS as nat, |i: int| empty_record()));
        r
    }
}

impl CampaignProgress {
    /// The best score recorded for `level` (0 for a level not on the map).
    pub fn best_score(&self, level: u32) -> (r: u32)
        ensures
            r == best_score_spec(self@, level),
    {
        match level_index(level) {
            Some(idx) => self.best_scores[idx].best_score,
            None => 0,
        }
    }

    /// Whether `level` can be played: the first level always, any other once the level before
    /// it is completed; a level not on the map never.
    pub fn is_unlocked(&self, level: u32) -> (r: bool)
        ensures
            r == is_unlocked_spec(self@, level),
    {
        match level_index(level) {
            Some(idx) => idx == 0 || self.best_scores[idx - 1].completed,
            None => false,
        }
    }

    /// Records a finished `level` with `score`. Says whether the score is a new best and which
    /// level this first completion unlocked.
    pub fn record_score(&mut self, level: u32, score: u32) -> (r: CampaignUnlockResult)
        ensures
            final(self)@ == record_score_spec(old(self)@, level, score),
            r.new_best == (level_index_spec(level) is Some && score > best_score_spec(
                old(self)@,
                level,
            )),
            r.unlocked_next == (match level_index_spec(level) {
                Some(i) => if i + 1 < CAMPAIGN_LEVELS && !old(self)@[i].completed {
                    Some((level + 1) as u32)
                } else {
                    None
                },
                None => None,
            }),
            r == record_result_spec(old(self)@, level, score),
    {
        let idx = match level_index(level) {
            Some(idx) => idx,
            None => {
                return CampaignUnlockResult { new_best: false, unlocked_next: None };
            },
        };
        let old_best = self.best_scores[idx].best_score;
        let was_completed = self.best_scores[idx].completed;
        let best = if score > old_best { score } else { old_best };
        self.best_scores[idx] = CampaignRecord { best_score: best, completed: true };
        let unlocked_next = if idx + 1 < CAMPAIGN_LEVELS && !was_completed {
            Some(level + 1)
        } else {
            None
        };
        proof {
            assert(self@ =~= record_score_spec(old(self)@, level, score));
        }
        CampaignUnlockResult { new_best: score > old_best, unlocked_next }
    }

    /// The save text: the version line, then one `best_score,completed` line per level.
    pub fn encode(&self) -> (r: String)
        ensures
            r@ == encode_spec(self@),
    {
        let mut out = String::new();
        push_str(&mut out, "lightcore-progress-v2");
        let ghost rl = self@.map_values(|r: CampaignRecord| record_line(r));
        let mut i: usize = 0;
        while i < CAMPAIGN_LEVELS
            invariant
                i <= CAMPAIGN_LEVELS,
                rl == self@.map_values(|r: CampaignRecord| record_line(r)),
                self@.len() == CAMPAIGN_LEVELS,
                out@ == save_version() + joined(rl.take(i as int), '\n'),
            decreases CAMPAIGN_LEVELS - i,
        {
            let record = self.best_scores[i];
            proof {
                lemma_joined_push(rl.take(i as int), rl[i as int], '\n');
                assert(rl.take(i as int).push(rl[i as int]) =~= rl.take(i + 1));
            }
            push_char(&mut out, '\n');
            push_decimal(&mut out, record.best_score as u64);
            push_char(&mut out, ',');
            if record.completed {
                push_char(&mut out, '1');
            } else {
                push_char(&mut out, '0');
            }
            i = i + 1;
            proof {
                assert(out@ =~= save_version() + joined(rl.take(i as int), '\n'));
            }
        }
        assert(rl.take(CAMPAIGN_LEVELS as int) =~= rl);
        out
    }

    /// Reads a save text back; `None` when it is not a campaign save or a record line does not
    /// read back.
    pub fn decode(raw: &str) -> (r: Option<CampaignProgress>)
        ensures
            r matches Some(p) ==> decode_spec(raw@) == Some(p@),
            r is None ==> decode_spec(raw@) is None,
    {
        let t = chars_of(raw);
        let ghost ls = lines(t@);
        assert(t@.skip(0) =~= t@);
        if t.len() == 0 {
            return None;
        }
        let (ver_end, mut pos) = next_line(&t, 0);
        let is_v2 = range_is(&t, 0, ver_end, "lightcore-progress-v2");
        let is_v1 = range_is(&t, 0, ver_end, "lightcore-progress-v1");
        if !is_v1 && !is_v2 {
            return None;
        }
        let max_lines: usize = if is_v2 { 13 } else { 9 };
        let mut progress = CampaignProgress::default();
        let mut idx: usize = 0;
        assert(ls.skip(1) =~= lines(t@.skip(pos as int)));
        while idx < max_lines && pos < t.len()
            invariant
                ls == lines(t@),
                t@ == raw@,
                ls.len() > 0,
                ver_end <= t.len(),
                idx + 1 <= ls.len(),
                ls[0] == t@.subrange(0, ver_end as int),
                max_lines == max_record_lines(ls[0]),
                max_lines <= CAMPAIGN_LEVELS,
                idx <= max_lines,
                pos <= t.len(),
                progress@.len() == CAMPAIGN_LEVELS,
                lines(t@.skip(pos as int)) == ls.skip(idx + 1),
                forall|j: int| 0 <= j < idx ==> (#[trigger] parse_record(ls[j + 1])) is Some,
                forall|j: int|
                    0 <= j < CAMPAIGN_LEVELS ==> #[trigger] progress@[j] == if j < idx {
                        parse_record(ls[j + 1])->0
                    } else {
                        empty_record()
                    },
            decreases max_lines - idx,
        {
            let (end, next) = next_line(&t, pos);
            let ghost l = t@.subrange(pos as int, end as int);
            proof {
                assert(ls.skip(idx + 1).len() > 0);
                assert(ls.skip(idx + 1)[0] == ls[idx + 1]);
                assert(l == ls[idx + 1]);
                assert(ls.skip(idx + 2) =~= ls.skip(idx + 1).drop_first());
                assert(lines(t@.skip(next as int)) =~= (seq![l] + lines(t@.skip(next as int))).drop_first());
            }
            let comma = find_in(&t, pos, end, ',');
            if comma == end {
                proof {
                    assert(split_once(l, ',') is None);
                    assert(parse_record(ls[idx + 1]) is None);
                }
                return None;
            }
            proof {
                assert(t@.subrange(pos as int, comma as int) =~= l.take(comma - pos));
                assert(t@.subrange(comma + 1, end as int) =~= l.skip(comma - pos + 1));
            }
            let score = match parse_uint(&t, pos, comma, 0xffff_ffff) {
                Some(v) => v as u32,
                None => {
                    proof {
                        assert(parse_record(ls[idx + 1]) is None);
                    }
                    return None;
                },
            };
            let completed = range_is(&t, comma + 1, end, "1");
            proof {
                reveal_strlit("1");
                assert("1"@ =~= seq!['1']);
            }
            progress.best_scores[idx] = CampaignRecord { best_score: score, completed };
            idx = idx + 1;
            pos = next;
        }
        proof {
            if pos == t.len() {
                assert(t@.skip(pos as int) =~= Seq::<char>::empty());
                assert(ls.skip(idx + 1).len() == 0);
            }
            reveal_strlit("lightcore-progress-v2");
            reveal_strlit("lightcore-progress-v1");
            let n = if max_lines < ls.len() - 1 { max_lines as int } else { ls.len() - 1 };
            assert(n == idx);
            assert(progress@ =~= decode_spec(raw@)->0);
        }
        Some(progress)
    }
}

/// A record line reads back as the record it was written from.
proof fn lemma_record_line(r: CampaignRecord)
    ensures
        plain_line(record_line(r)),
        parse_record(record_line(r)) == Some(r),
{
    let d = decimal(r.best_score as nat);
    let tail = if r.completed { seq!['1'] } else { seq!['0'] };
    lemma_decimal(r.best_score as nat);
    lemma_decimal_has_no(r.best_score as nat, ',');
    lemma_decimal_has_no(r.best_score as nat, '\n');
    lemma_split_once_at(d, ',', tail);
    lemma_parse_decimal(r.best_score as nat, u32::MAX as nat);
    let l = record_line(r);
    assert(l == d + seq![','] + tail);
    assert(split_once(l, ',') == Some((d, tail)));
    assert(parse_unsigned(d, u32::MAX as nat) == Some(r.best_score as nat));
    assert(seq!['0'][0] != seq!['1'][0]);
    assert((tail == seq!['1']) == r.completed);
    assert forall|i: int| 0 <= i < l.len() implies l[i] != '\n' by {
        if i < d.len() {
            assert(l[i] == d[i]);
        }
    }
}

/// A progress always holds one record per campaign level.
pub proof fn lemma_progress_len(p: CampaignProgress)
    ensures
        p@.len() == CAMPAIGN_LEVELS,
{
}

/// Law: a campaign save text reads back as exactly the progress it was written from.
pub proof fn lemma_campaign_round_trip(p: CampaignProgress)
    ensures
        decode_spec(encode_spec(p@)) == Some(p@),
{
    let p = p@;
    let rl = p.map_values(|r: CampaignRecord| record_line(r));
    reveal_strlit("lightcore-progress-v2");
    reveal_strlit("lightcore-progress-v1");
    assert forall|i: int| 0 <= i < rl.len() implies plain_line(#[trigger] rl[i]) by {
        lemma_record_line(p[i]);
    }
    lemma_lines_of_joined(save_version(), rl);
    let ls = lines(encode_spec(p));
    assert(ls == seq![save_version()] + rl);
    assert(ls[0] == save_version());
    assert forall|i: int| 0 <= i < 13 implies (#[trigger] parse_record(ls[i + 1])) == Some(p[i]) by {
        assert(ls[i + 1] == rl[i]);
        lemma_record_line(p[i]);
    }
    assert(decode_spec(encode_spec(p))->0 =~= p);
}

/// Law: finishing a level marks it completed, which unlocks the level after it.
pub proof fn lemma_record_unlocks_next(p: CampaignProgress, level: u32, score: u32)
    requires
        1 <= level < CAMPAIGN_LEVELS,
    ensures
        is_unlocked_spec(record_score_spec(p@, level, score), (level + 1) as u32),
{
}

/// Law: recording a score never lowers a level's best score, never un-completes a level and
/// never locks an unlocked level, and the best score afterwards is at least the recorded one.
pub proof fn lemma_record_keeps_bests(p: CampaignProgress, level: u32, score: u32, other: u32)
    ensures
        best_score_spec(record_score_spec(p@, level, score), other) >= best_score_spec(p@, other),
        is_unlocked_spec(p@, other) ==> is_unlocked_spec(record_score_spec(p@, level, score), other),
        level_index_spec(level) is Some ==> best_score_spec(record_score_spec(p@, level, score), level)
            >= score,
        forall|i: int|
            0 <= i < CAMPAIGN_LEVELS && #[trigger] p@[i].completed ==> record_score_spec(
                p@,
                level,
                score,
            )[i].completed,
{
}

} // verus!
