//! Which lights a removal wave takes: the matched lights and what the powers among them hit,
//! the powers that the wave reaches and that fire next, and the super combo that three or more
//! powers in one wave set off (it clears the whole board).
//!
//! Lights are named by id; a set of lights is a `Vec<u64>` without repeats, which the rules walk
//! in a fixed order.

use vstd::prelude::*;

use crate::grid::GridPos;
use crate::light::{LightColor, LightKind};
use crate::rewards::Removed;
use crate::swap::star_partner_color;

verus! {

broadcast use vstd::seq_lib::group_seq_properties;

/// A light on the board, as the removal logic reads it.
#[derive(Clone, Copy, PartialEq, Eq, Debug, Structural)]
pub struct BoardLight {
    pub id: u64,
    pub pos: GridPos,
    pub color: LightColor,
    pub kind: LightKind,
}

/// A power light about to fire: where it is, what it is, and the color a Starburst swapped with
/// a plain light targets.
#[derive(Clone, Copy, PartialEq, Eq, Debug, Structural)]
pub struct PowerActivation {
    pub pos: GridPos,
    pub kind: LightKind,
    pub partner_color: Option<LightColor>,
}

/// The first light of `lights` with id `id`.
pub open spec fn light_of(lights: Seq<BoardLight>, id: u64) -> Option<BoardLight>
    decreases lights.len(),
{
    if lights.len() == 0 {
        None
    } else {
        match light_of(lights.drop_last(), id) {
            Some(l) => Some(l),
            None => if lights.last().id == id {
                Some(lights.last())
            } else {
                None
            },
        }
    }
}

/// The first light of `lights` on cell `pos`.
pub open spec fn light_at(lights: Seq<BoardLight>, pos: GridPos) -> Option<BoardLight>
    decreases lights.len(),
{
    if lights.len() == 0 {
        None
    } else {
        match light_at(lights.drop_last(), pos) {
            Some(l) => Some(l),
            None => if lights.last().pos == pos {
                Some(lights.last())
            } else {
                None
            },
        }
    }
}

/// Whether `id` names a power light of `lights`.
pub open spec fn is_power_light(lights: Seq<BoardLight>, id: u64) -> bool {
    light_of(lights, id) matches Some(l) && l.kind.is_power_spec()
}

/// The activation of light `l`.
pub open spec fn activation_of(l: BoardLight, partner_color: Option<LightColor>) -> PowerActivation {
    PowerActivation { pos: l.pos, kind: l.kind, partner_color }
}

/// `s` holds exactly the ids for which `p` holds, each once.
pub open spec fn is_id_set(s: Seq<u64>, p: spec_fn(u64) -> bool) -> bool {
    &&& s.no_duplicates()
    &&& forall|e: u64| #[trigger] s.contains(e) <==> p(e)
}

/// `acts` are the activations of the lights `ids`, in the same order.
pub open spec fn activations_of(
    acts: Seq<PowerActivation>,
    ids: Seq<u64>,
    lights: Seq<BoardLight>,
    partner_color: Option<LightColor>,
) -> bool {
    &&& acts.len() == ids.len()
    &&& forall|k: int|
        0 <= k < ids.len() ==> light_of(lights, #[trigger] ids[k]) is Some && acts[k] == activation_of(
            light_of(lights, ids[k])->0,
            partner_color,
        )
}

/// `kinds` are the kinds of the lights `ids`, in the same order.
pub open spec fn kinds_of(kinds: Seq<LightKind>, ids: Seq<u64>, lights: Seq<BoardLight>) -> bool {
    &&& kinds.len() == ids.len()
    &&& forall|k: int| 0 <= k < ids.len() ==> kinds[k] == (light_of(lights, #[trigger] ids[k])->0).kind
}

proof fn lemma_light_of_step(lights: Seq<BoardLight>, i: int, id: u64)
    requires
        0 <= i < lights.len(),
    ensures
        light_of(lights.take(i + 1), id) == match light_of(lights.take(i), id) {
            Some(l) => Some(l),
            None => if lights[i].id == id {
                Some(lights[i])
            } else {
                None
            },
        },
{
    assert(lights.take(i + 1).drop_last() =~= lights.take(i));
}

proof fn lemma_light_at_step(lights: Seq<BoardLight>, i: int, pos: GridPos)
    requires
        0 <= i < lights.len(),
    ensures
        light_at(lights.take(i + 1), pos) == match light_at(lights.take(i), pos) {
            Some(l) => Some(l),
            None => if lights[i].pos == pos {
                Some(lights[i])
            } else {
                None
            },
        },
{
    assert(lights.take(i + 1).drop_last() =~= lights.take(i));
}

/// A light found by id has that id and is one of `lights`.
pub proof fn lemma_light_of_found(lights: Seq<BoardLight>, id: u64)
    ensures
        light_of(lights, id) matches Some(l) ==> l.id == id && lights.contains(l),
        light_of(lights, id) is None <==> forall|i: int| 0 <= i < lights.len() ==> lights[i].id != id,
    decreases lights.len(),
{
    if lights.len() > 0 {
        lemma_light_of_found(lights.drop_last(), id);
        if light_of(lights.drop_last(), id) is Some {
            let l = light_of(lights.drop_last(), id)->0;
            let j = choose|j: int| 0 <= j < lights.drop_last().len() && lights.drop_last()[j] == l;
            assert(lights[j] == l);
        } else {
            assert(lights[lights.len() - 1] == lights.last());
        }
        if light_of(lights, id) is None {
            assert forall|i: int| 0 <= i < lights.len() implies lights[i].id != id by {
                if i < lights.len() - 1 {
                    assert(lights.drop_last()[i] == lights[i]);
                }
            }
        }
    }
}

/// The first light with id `id`.
pub fn find_light(lights: &Vec<BoardLight>, id: u64) -> (r: Option<BoardLight>)
    ensures
        r == light_of(lights@, id),
{
    let mut found: Option<BoardLight> = None;
    let mut i: usize = 0;
    while i < lights.len()
        invariant
            i <= lights.len(),
            found == light_of(lights@.take(i as int), id),
        decreases lights.len() - i,
    {
        proof {
            lemma_light_of_step(lights@, i as int, id);
        }
        if found.is_none() && lights[i].id == id {
            found = Some(lights[i]);
        }
        i += 1;
    }
    assert(lights@.take(i as int) =~= lights@);
    found
}

/// The first light on cell `pos`.
pub fn find_light_at(lights: &Vec<BoardLight>, pos: GridPos) -> (r: Option<BoardLight>)
    ensures
        r == light_at(lights@, pos),
{
    let mut found: Option<BoardLight> = None;
    let mut i: usize = 0;
    while i < lights.len()
        invariant
            i <= lights.len(),
            found == light_at(lights@.take(i as int), pos),
        decreases lights.len() - i,
    {
        proof {
            lemma_light_at_step(lights@, i as int, pos);
        }
        if found.is_none() && lights[i].pos == pos {
            found = Some(lights[i]);
        }
        i += 1;
    }
    assert(lights@.take(i as int) =~= lights@);
    found
}

/// Whether `v` holds `id`.
pub fn has_id(v: &Vec<u64>, id: u64) -> (r: bool)
    ensures
        r == v@.contains(id),
{
    let mut i: usize = 0;
    while i < v.len()
        invariant
            i <= v.len(),
            forall|j: int| 0 <= j < i ==> v@[j] != id,
        decreases v.len() - i,
    {
        if v[i] == id {
            assert(v@[i as int] == id);
            return true;
        }
        i += 1;
    }
    false
}

/// Whether some activation of `acts` sits on `pos`.
pub fn has_activation_at(acts: &Vec<PowerActivation>, pos: GridPos) -> (r: bool)
    ensures
        r == exists|k: int| 0 <= k < acts.len() && (#[trigger] acts@[k]).pos == pos,
{
    let mut i: usize = 0;
    while i < acts.len()
        invariant
            i <= acts.len(),
            forall|j: int| 0 <= j < i ==> acts@[j].pos != pos,
        decreases acts.len() - i,
    {
        if acts[i].pos == pos {
            assert(acts@[i as int].pos == pos);
            return true;
        }
        i += 1;
    }
    false
}

/// Whether light `id` is the light on the cell of some activation of `acts`.
pub open spec fn is_activator(acts: Seq<PowerActivation>, lights: Seq<BoardLight>, id: u64) -> bool {
    exists|k: int|
        0 <= k < acts.len() && (light_at(lights, (#[trigger] acts[k]).pos) matches Some(l) && l.id == id)
}

/// The lights on the cells of `acts`, each once.
fn activator_ids(acts: &Vec<PowerActivation>, lights: &Vec<BoardLight>) -> (r: Vec<u64>)
    ensures
        is_id_set(r@, |e: u64| is_activator(acts@, lights@, e)),
{
    let mut out: Vec<u64> = Vec::new();
    let mut i: usize = 0;
    while i < acts.len()
        invariant
            i <= acts.len(),
            out@.no_duplicates(),
            forall|e: u64|
                #[trigger] out@.contains(e) <==> exists|k: int|
                    0 <= k < i && (light_at(lights@, (#[trigger] acts@[k]).pos) matches Some(l) && l.id == e),
        decreases acts.len() - i,
    {
        let host = find_light_at(lights, acts[i].pos);
        if let Some(l) = host {
            if !has_id(&out, l.id) {
                out.push(l.id);
            }
        }
        proof {
            assert forall|e: u64|
                (exists|k: int|
                    0 <= k < i + 1 && (light_at(lights@, (#[trigger] acts@[k]).pos) matches Some(l) && l.id == e))
                implies #[trigger] out@.contains(e) by {
                let k = choose|k: int|
                    0 <= k < i + 1 && (light_at(lights@, (#[trigger] acts@[k]).pos) matches Some(l) && l.id == e);
                if k < i {
                    assert(exists|k: int|
                        0 <= k < i && (light_at(lights@, (#[trigger] acts@[k]).pos) matches Some(l) && l.id == e));
                }
            }
            assert forall|e: u64| #[trigger] out@.contains(e) implies (exists|k: int|
                    0 <= k < i + 1 && (light_at(lights@, (#[trigger] acts@[k]).pos) matches Some(l) && l.id == e)) by {
                if host is Some && e == host->0.id {
                    assert(light_at(lights@, acts@[i as int].pos) matches Some(l) && l.id == e);
                } else {
                    let k = choose|k: int|
                        0 <= k < i && (light_at(lights@, (#[trigger] acts@[k]).pos) matches Some(l) && l.id == e);
                    assert(0 <= k < i + 1);
                }
            }
        }
        i += 1;
    }
    out
}

/// Adds `id` to the id set `v` unless it is there already.
fn insert_id(v: &mut Vec<u64>, id: u64)
    requires
        old(v)@.no_duplicates(),
    ensures
        final(v)@.no_duplicates(),
        forall|e: u64| #[trigger] final(v)@.contains(e) <==> old(v)@.contains(e) || e == id,
{
    if !has_id(v, id) {
        v.push(id);
    }
}

/// Adds the id of every light of `lights` to the id set `v`.
fn insert_all_lights(v: &mut Vec<u64>, lights: &Vec<BoardLight>)
    requires
        old(v)@.no_duplicates(),
    ensures
        is_id_set(final(v)@, |e: u64| old(v)@.contains(e) || light_of(lights@, e) is Some),
{
    let ghost start = v@;
    let mut j: usize = 0;
    while j < lights.len()
        invariant
            j <= lights.len(),
            is_id_set(
                v@,
                |e: u64| start.contains(e) || exists|k: int| 0 <= k < j && (#[trigger] lights@[k]).id == e,
            ),
        decreases lights.len() - j,
    {
        let id = lights[j].id;
        insert_id(v, id);
        proof {
            assert forall|e: u64|
                #[trigger] v@.contains(e) <==> start.contains(e) || exists|k: int|
                    0 <= k < j + 1 && (#[trigger] lights@[k]).id == e by {
                if exists|k: int| 0 <= k < j + 1 && (#[trigger] lights@[k]).id == e {
                    let k = choose|k: int| 0 <= k < j + 1 && (#[trigger] lights@[k]).id == e;
                    if k < j {
                        assert(exists|k: int| 0 <= k < j && (#[trigger] lights@[k]).id == e);
                    }
                }
            }
        }
        j += 1;
    }
    proof {
        assert forall|e: u64|
            (exists|k: int| 0 <= k < lights.len() && (#[trigger] lights@[k]).id == e) <==> light_of(
                lights@,
                e,
            ) is Some by {
            lemma_light_of_found(lights@, e);
            if light_of(lights@, e) is Some {
                let l = light_of(lights@, e)->0;
                let k = choose|k: int| 0 <= k < lights@.len() && lights@[k] == l;
                assert(lights@[k].id == e);
            }
        }
    }
}

/// What the queued powers of a cascade take, once their wave is known.
pub struct QueuedWave {
    /// The lights the wave removes.
    pub remove: Vec<u64>,
    /// The powers the wave reached that did not fire in it.
    pub new_powers: Vec<u64>,
    /// Those powers, queued to fire next; empty when they set off a super combo.
    pub queued: Vec<PowerActivation>,
    /// The kinds of those powers, when three or more of them set off a super combo.
    pub super_combo: Option<Vec<LightKind>>,
}

/// Whether light `e` is a power that the wave of `acts` reached without it being one of the
/// lights that fired.
pub open spec fn is_new_power(acts: Seq<PowerActivation>, lights: Seq<BoardLight>, e: u64) -> bool {
    !is_activator(acts, lights, e) && is_power_light(lights, e)
}

/// Settles the wave of the queued activations `acts`, given the lights the wave removes
/// (`wave`): the powers it reaches are queued to fire next, unless there are three or more of
/// them, which sets off a super combo that removes every light on the board.
pub fn settle_queued_wave(acts: &Vec<PowerActivation>, wave: &Vec<u64>, lights: &Vec<BoardLight>) -> (r:
    QueuedWave)
    ensures
        is_id_set(r.new_powers@, |e: u64| wave@.contains(e) && is_new_power(acts@, lights@, e)),
        r.new_powers@.len() >= 3 ==> (r.queued@.len() == 0 && (r.super_combo matches Some(k) && kinds_of(
            k@,
            r.new_powers@,
            lights@,
        ))),
        r.new_powers@.len() < 3 ==> r.super_combo is None && activations_of(
            r.queued@,
            r.new_powers@,
            lights@,
            None,
        ),
        is_id_set(
            r.remove@,
            |e: u64| wave@.contains(e) || (r.new_powers@.len() >= 3 && light_of(lights@, e) is Some),
        ),
{
    let activators = activator_ids(acts, lights);
    let mut remove: Vec<u64> = Vec::new();
    let mut new_powers: Vec<u64> = Vec::new();
    let mut queued: Vec<PowerActivation> = Vec::new();
    let mut kinds: Vec<LightKind> = Vec::new();
    let mut i: usize = 0;
    while i < wave.len()
        invariant
            i <= wave.len(),
            is_id_set(activators@, |e: u64| is_activator(acts@, lights@, e)),
            is_id_set(remove@, |e: u64| wave@.take(i as int).contains(e)),
            is_id_set(
                new_powers@,
                |e: u64| wave@.take(i as int).contains(e) && is_new_power(acts@, lights@, e),
            ),
            activations_of(queued@, new_powers@, lights@, None),
            kinds_of(kinds@, new_powers@, lights@),
        decreases wave.len() - i,
    {
        let e = wave[i];
        assert(wave@.take(i as int + 1) =~= wave@.take(i as int).push(e));
        let ghost old_powers = new_powers@;
        if !has_id(&remove, e) {
            proof {
                assert(!old_powers.contains(e));
            }
            remove.push(e);
            if !has_id(&activators, e) {
                if let Some(l) = find_light(lights, e) {
                    if l.kind.is_power() {
                        proof {
                            lemma_light_of_found(lights@, e);
                        }
                        new_powers.push(e);
                        queued.push(PowerActivation { pos: l.pos, kind: l.kind, partner_color: None });
                        kinds.push(l.kind);
                    }
                }
            }
        }
        i += 1;
    }
    assert(wave@.take(i as int) =~= wave@);
    if new_powers.len() >= 3 {
        insert_all_lights(&mut remove, lights);
        QueuedWave { remove, new_powers, queued: Vec::new(), super_combo: Some(kinds) }
    } else {
        QueuedWave { remove, new_powers, queued, super_combo: None }
    }
}

/// The kind light `l` has after the upgrades `ups` (the last upgrade of its id wins).
pub open spec fn upgraded_kind(ups: Seq<(u64, LightKind)>, l: BoardLight) -> LightKind
    decreases ups.len(),
{
    if ups.len() == 0 {
        l.kind
    } else if ups.last().0 == l.id {
        ups.last().1
    } else {
        upgraded_kind(ups.drop_last(), l)
    }
}

/// `lights` after the upgrades `ups`.
pub open spec fn upgraded(ups: Seq<(u64, LightKind)>, lights: Seq<BoardLight>) -> Seq<BoardLight> {
    lights.map_values(|l: BoardLight| BoardLight { kind: upgraded_kind(ups, l), ..l })
}

/// Whether light `e` is among the first `n` hits of `hits` (the cells of replaced powers and
/// the lights their blasts reach), a power never hitting the light on its own cell.
pub open spec fn is_hit(hits: Seq<(GridPos, u64)>, n: int, lights: Seq<BoardLight>, e: u64) -> bool {
    exists|k: int|
        0 <= k < n && (#[trigger] hits[k]).1 == e && !(light_at(lights, hits[k].0) matches Some(h) && h.id
            == e)
}

/// Whether some activation of `acts` sits on `pos`.
pub open spec fn at_activation(acts: Seq<PowerActivation>, pos: GridPos) -> bool {
    exists|k: int| 0 <= k < acts.len() && (#[trigger] acts[k]).pos == pos
}

/// Whether an upgrade applies: its light is not removed by the match.
pub open spec fn kept_upgrade(to_remove: Seq<u64>) -> spec_fn((u64, LightKind)) -> bool {
    |u: (u64, LightKind)| !to_remove.contains(u.0)
}

/// How a match resolves before its powers' wave is known.
pub struct MatchPlan {
    /// The upgrades that apply: those of lights the match does not remove.
    pub upgrades: Vec<(u64, LightKind)>,
    /// The lights after those upgrades.
    pub lights: Vec<BoardLight>,
    /// The lights removed so far.
    pub remove: Vec<u64>,
    /// The powers among the matched lights and the lights that replaced powers hit.
    pub powers: Vec<u64>,
    /// Those powers' activations.
    pub activations: Vec<PowerActivation>,
    /// Their kinds, when three or more of them set off a super combo.
    pub super_combo: Option<Vec<LightKind>>,
}

/// The kind `l` has after the upgrades `ups`.
fn upgraded_kind_of(ups: &Vec<(u64, LightKind)>, l: BoardLight) -> (r: LightKind)
    ensures
        r == upgraded_kind(ups@, l),
{
    let mut k = l.kind;
    let mut j: usize = 0;
    while j < ups.len()
        invariant
            j <= ups.len(),
            k == upgraded_kind(ups@.take(j as int), l),
        decreases ups.len() - j,
    {
        assert(ups@.take(j as int + 1).drop_last() =~= ups@.take(j as int));
        if ups[j].0 == l.id {
            k = ups[j].1;
        }
        j += 1;
    }
    assert(ups@.take(j as int) =~= ups@);
    k
}

/// Plans a match: the upgrades of lights it keeps, the matched lights (`to_remove`) with every
/// light a replaced power hits (`hits`, each a replaced power's cell and a light its blast
/// reaches), and the powers among them, which set off a super combo (the whole board goes) when
/// there are three or more. `partner_color` is what a Starburst among them targets.
pub fn plan_match(
    to_remove: &Vec<u64>,
    to_upgrade: &Vec<(u64, LightKind)>,
    hits: &Vec<(GridPos, u64)>,
    lights: &Vec<BoardLight>,
    partner_color: Option<LightColor>,
) -> (r: MatchPlan)
    ensures
        r.upgrades@ == to_upgrade@.filter(kept_upgrade(to_remove@)),
        r.lights@ == upgraded(r.upgrades@, lights@),
        is_id_set(
            r.powers@,
            |e: u64|
                (to_remove@.contains(e) || is_hit(hits@, hits@.len() as int, lights@, e)) && is_power_light(
                    r.lights@,
                    e,
                ),
        ),
        activations_of(r.activations@, r.powers@, r.lights@, partner_color),
        r.powers@.len() >= 3 ==> (r.super_combo matches Some(k) && kinds_of(k@, r.powers@, r.lights@)),
        r.powers@.len() < 3 ==> r.super_combo is None,
        is_id_set(
            r.remove@,
            |e: u64|
                to_remove@.contains(e) || is_hit(hits@, hits@.len() as int, lights@, e) || (r.powers@.len()
                    >= 3 && light_of(lights@, e) is Some),
        ),
{
    let mut upgrades: Vec<(u64, LightKind)> = Vec::new();
    let mut i: usize = 0;
    while i < to_upgrade.len()
        invariant
            i <= to_upgrade.len(),
            upgrades@ == to_upgrade@.take(i as int).filter(kept_upgrade(to_remove@)),
        decreases to_upgrade.len() - i,
    {
        assert(to_upgrade@.take(i as int + 1).drop_last() =~= to_upgrade@.take(i as int));
        let u = to_upgrade[i];
        proof {
            reveal(Seq::filter);
        }
        assert(to_upgrade@.take(i as int + 1).last() == u);
        if !has_id(to_remove, u.0) {
            upgrades.push(u);
        }
        assert(upgrades@ == to_upgrade@.take(i as int + 1).filter(kept_upgrade(to_remove@)));
        i += 1;
    }
    assert(to_upgrade@.take(i as int) =~= to_upgrade@);

    let mut new_lights: Vec<BoardLight> = Vec::new();
    let mut i: usize = 0;
    while i < lights.len()
        invariant
            i <= lights.len(),
            new_lights@ =~= upgraded(upgrades@, lights@.take(i as int)),
        decreases lights.len() - i,
    {
        let l = lights[i];
        let k = upgraded_kind_of(&upgrades, l);
        new_lights.push(BoardLight { kind: k, ..l });
        assert(new_lights@ =~= upgraded(upgrades@, lights@.take(i as int + 1)));
        i += 1;
    }
    assert(lights@.take(i as int) =~= lights@);

    let mut remove: Vec<u64> = Vec::new();
    let mut i: usize = 0;
    while i < to_remove.len()
        invariant
            i <= to_remove.len(),
            is_id_set(remove@, |e: u64| to_remove@.take(i as int).contains(e)),
        decreases to_remove.len() - i,
    {
        assert(to_remove@.take(i as int + 1) =~= to_remove@.take(i as int).push(to_remove@[i as int]));
        insert_id(&mut remove, to_remove[i]);
        i += 1;
    }
    assert(to_remove@.take(i as int) =~= to_remove@);

    let mut j: usize = 0;
    while j < hits.len()
        invariant
            j <= hits.len(),
            is_id_set(remove@, |e: u64| to_remove@.contains(e) || is_hit(hits@, j as int, lights@, e)),
        decreases hits.len() - j,
    {
        let (pos, e) = hits[j];
        let host = find_light_at(lights, pos);
        let is_host = match host {
            Some(h) => h.id == e,
            None => false,
        };
        if !is_host {
            insert_id(&mut remove, e);
        }
        proof {
            assert forall|x: u64|
                #[trigger] remove@.contains(x) <==> to_remove@.contains(x) || is_hit(hits@, j + 1, lights@, x) by {
                if is_hit(hits@, j + 1, lights@, x) {
                    let k = choose|k: int|
                        0 <= k < j + 1 && (#[trigger] hits@[k]).1 == x && !(light_at(lights@, hits@[k].0) matches Some(
                            h,
                        ) && h.id == x);
                    if k < j {
                        assert(is_hit(hits@, j as int, lights@, x));
                    }
                }
                if is_hit(hits@, j as int, lights@, x) {
                    let k = choose|k: int|
                        0 <= k < j && (#[trigger] hits@[k]).1 == x && !(light_at(lights@, hits@[k].0) matches Some(
                            h,
                        ) && h.id == x);
                    assert(0 <= k < j + 1);
                }
                if !is_host && x == e {
                    assert(hits@[j as int].1 == x);
                }
            }
        }
        j += 1;
    }

    let mut powers: Vec<u64> = Vec::new();
    let mut activations: Vec<PowerActivation> = Vec::new();
    let mut kinds: Vec<LightKind> = Vec::new();
    let mut i: usize = 0;
    while i < remove.len()
        invariant
            i <= remove.len(),
            remove@.no_duplicates(),
            is_id_set(powers@, |e: u64| remove@.take(i as int).contains(e) && is_power_light(new_lights@, e)),
            activations_of(activations@, powers@, new_lights@, partner_color),
            kinds_of(kinds@, powers@, new_lights@),
        decreases remove.len() - i,
    {
        let e = remove[i];
        assert(remove@.take(i as int + 1) =~= remove@.take(i as int).push(e));
        proof {
            assert forall|k: int| 0 <= k < i implies remove@[k] != e by {
                assert(remove@[i as int] == e);
            }
            assert(!remove@.take(i as int).contains(e));
        }
        let ghost old_powers = powers@;
        proof {
            assert(!old_powers.contains(e));
        }
        if let Some(l) = find_light(&new_lights, e) {
            if l.kind.is_power() {
                proof {
                    lemma_light_of_found(new_lights@, e);
                }
                powers.push(e);
                activations.push(PowerActivation { pos: l.pos, kind: l.kind, partner_color });
                kinds.push(l.kind);
            }
        }
        i += 1;
    }
    assert(remove@.take(i as int) =~= remove@);
    if powers.len() >= 3 {
        insert_all_lights(&mut remove, lights);
        MatchPlan { upgrades, lights: new_lights, remove, powers, activations, super_combo: Some(kinds) }
    } else {
        MatchPlan { upgrades, lights: new_lights, remove, powers, activations, super_combo: None }
    }
}

/// What the wave of a match's powers adds.
pub struct WaveAbsorbed {
    /// The lights removed, the wave's included.
    pub remove: Vec<u64>,
    /// The powers the wave reached that were neither removed already nor sitting where a
    /// power fired.
    pub new_powers: Vec<u64>,
    /// Those powers, queued to fire next.
    pub queued: Vec<PowerActivation>,
}

/// Whether `e` is a power that the wave (`wave`) of activations `acts` newly reaches: not in
/// `remove` already, and not on a cell where one of `acts` fired.
pub open spec fn is_reached_power(
    remove: Seq<u64>,
    acts: Seq<PowerActivation>,
    wave: Seq<u64>,
    lights: Seq<BoardLight>,
    e: u64,
) -> bool {
    &&& wave.contains(e)
    &&& !remove.contains(e)
    &&& is_power_light(lights, e)
    &&& !at_activation(acts, (light_of(lights, e)->0).pos)
}

/// Adds the wave (`wave`) of activations `acts` to the removed lights `remove`; the powers it
/// newly reaches are queued to fire next.
pub fn absorb_wave(remove: &Vec<u64>, acts: &Vec<PowerActivation>, wave: &Vec<u64>, lights: &Vec<BoardLight>) -> (r:
    WaveAbsorbed)
    requires
        remove@.no_duplicates(),
    ensures
        is_id_set(r.remove@, |e: u64| remove@.contains(e) || wave@.contains(e)),
        is_id_set(r.new_powers@, |e: u64| is_reached_power(remove@, acts@, wave@, lights@, e)),
        activations_of(r.queued@, r.new_powers@, lights@, None),
{
    let mut cur: Vec<u64> = Vec::new();
    let mut i: usize = 0;
    while i < remove.len()
        invariant
            i <= remove.len(),
            cur@ == remove@.take(i as int),
        decreases remove.len() - i,
    {
        cur.push(remove[i]);
        assert(cur@ =~= remove@.take(i as int + 1));
        i += 1;
    }
    assert(remove@.take(i as int) =~= remove@);

    let mut new_powers: Vec<u64> = Vec::new();
    let mut queued: Vec<PowerActivation> = Vec::new();
    let mut i: usize = 0;
    while i < wave.len()
        invariant
            i <= wave.len(),
            is_id_set(cur@, |e: u64| remove@.contains(e) || wave@.take(i as int).contains(e)),
            is_id_set(
                new_powers@,
                |e: u64| is_reached_power(remove@, acts@, wave@.take(i as int), lights@, e),
            ),
            activations_of(queued@, new_powers@, lights@, None),
        decreases wave.len() - i,
    {
        let e = wave[i];
        assert(wave@.take(i as int + 1) =~= wave@.take(i as int).push(e));
        let ghost old_powers = new_powers@;
        if !has_id(&cur, e) {
            proof {
                assert(!old_powers.contains(e));
            }
            if let Some(l) = find_light(lights, e) {
                if l.kind.is_power() && !has_activation_at(acts, l.pos) {
                    proof {
                        lemma_light_of_found(lights@, e);
                    }
                    new_powers.push(e);
                    queued.push(PowerActivation { pos: l.pos, kind: l.kind, partner_color: None });
                }
            }
            cur.push(e);
        }
        i += 1;
    }
    assert(wave@.take(i as int) =~= wave@);
    WaveAbsorbed { remove: cur, new_powers, queued }
}

/// What light `l` leaves behind for the rewards.
pub open spec fn removed_of(l: BoardLight) -> Removed {
    Removed { pos: l.pos, color: l.color, kind: l.kind }
}

/// The removed lights of `ids` that are on the board, in the order of `ids`.
pub open spec fn removed_lights_spec(ids: Seq<u64>, lights: Seq<BoardLight>) -> Seq<Removed> {
    ids.filter_map(|e: u64| match light_of(lights, e) {
        Some(l) => Some(removed_of(l)),
        None => None,
    })
}

/// The lights of `ids` that are on the board, as the rewards read them.
pub fn removed_lights(ids: &Vec<u64>, lights: &Vec<BoardLight>) -> (r: Vec<Removed>)
    ensures
        r@ == removed_lights_spec(ids@, lights@),
{
    let mut out: Vec<Removed> = Vec::new();
    let mut i: usize = 0;
    while i < ids.len()
        invariant
            i <= ids.len(),
            out@ == removed_lights_spec(ids@.take(i as int), lights@),
        decreases ids.len() - i,
    {
        assert(ids@.take(i as int + 1).drop_last() =~= ids@.take(i as int));
        if let Some(l) = find_light(lights, ids[i]) {
            out.push(Removed { pos: l.pos, color: l.color, kind: l.kind });
        }
        assert(out@ =~= removed_lights_spec(ids@.take(i as int + 1), lights@));
        i += 1;
    }
    assert(ids@.take(i as int) =~= ids@);
    out
}

/// The powers that the blast of a direct power swap (`compound`) reaches besides the two swapped
/// lights `a` and `b`, with their activations, queued to fire next.
pub fn combo_swap_queue(compound: &Vec<u64>, a: u64, b: u64, lights: &Vec<BoardLight>) -> (r: (
    Vec<u64>,
    Vec<PowerActivation>,
))
    ensures
        is_id_set(r.0@, |e: u64| compound@.contains(e) && e != a && e != b && is_power_light(lights@, e)),
        activations_of(r.1@, r.0@, lights@, None),
{
    let mut ids: Vec<u64> = Vec::new();
    let mut acts: Vec<PowerActivation> = Vec::new();
    let mut i: usize = 0;
    while i < compound.len()
        invariant
            i <= compound.len(),
            is_id_set(
                ids@,
                |e: u64| compound@.take(i as int).contains(e) && e != a && e != b && is_power_light(lights@, e),
            ),
            activations_of(acts@, ids@, lights@, None),
        decreases compound.len() - i,
    {
        let e = compound[i];
        assert(compound@.take(i as int + 1) =~= compound@.take(i as int).push(e));
        if e != a && e != b && !has_id(&ids, e) {
            if let Some(l) = find_light(lights, e) {
                if l.kind.is_power() {
                    proof {
                        lemma_light_of_found(lights@, e);
                    }
                    ids.push(e);
                    acts.push(PowerActivation { pos: l.pos, kind: l.kind, partner_color: None });
                }
            }
        }
        i += 1;
    }
    assert(compound@.take(i as int) =~= compound@);
    (ids, acts)
}

/// The activations of the two powers of a direct power swap, the light of kind `a_kind` now on
/// `a_pos` and that of kind `b_kind` on `b_pos`: a Starburst targets the color of the light on
/// the other cell.
pub fn swap_pair_activations(
    a_pos: GridPos,
    a_kind: LightKind,
    b_pos: GridPos,
    b_kind: LightKind,
    lights: &Vec<BoardLight>,
) -> (r: (PowerActivation, PowerActivation))
    ensures
        ({
            let partner = if a_kind == LightKind::Starburst {
                match light_at(lights@, b_pos) {
                    Some(l) => Some(l.color),
                    None => None,
                }
            } else if b_kind == LightKind::Starburst {
                match light_at(lights@, a_pos) {
                    Some(l) => Some(l.color),
                    None => None,
                }
            } else {
                None::<LightColor>
            };
            &&& r.0 == PowerActivation {
                pos: a_pos,
                kind: a_kind,
                partner_color: if a_kind == LightKind::Starburst { partner } else { None },
            }
            &&& r.1 == PowerActivation {
                pos: b_pos,
                kind: b_kind,
                partner_color: if b_kind == LightKind::Starburst { partner } else { None },
            }
        }),
{
    let a_color = match find_light_at(lights, a_pos) {
        Some(l) => Some(l.color),
        None => None,
    };
    let b_color = match find_light_at(lights, b_pos) {
        Some(l) => Some(l.color),
        None => None,
    };
    let partner = star_partner_color(a_kind, a_color, b_kind, b_color);
    (
        PowerActivation {
            pos: a_pos,
            kind: a_kind,
            partner_color: if a_kind == LightKind::Starburst { partner } else { None },
        },
        PowerActivation {
            pos: b_pos,
            kind: b_kind,
            partner_color: if b_kind == LightKind::Starburst { partner } else { None },
        },
    )
}

/// The stasis covers (each an id and its cell) whose cell no longer holds a stasis light.
pub fn orphan_covers(covers: &Vec<(u64, GridPos)>, stasis: &Vec<GridPos>) -> (r: Vec<u64>)
    ensures
        r@ == covers@.filter(|c: (u64, GridPos)| !stasis@.contains(c.1)).map_values(|c: (u64, GridPos)| c.0),
{
    let ghost keep = |c: (u64, GridPos)| !stasis@.contains(c.1);
    let mut out: Vec<u64> = Vec::new();
    let mut i: usize = 0;
    while i < covers.len()
        invariant
            i <= covers.len(),
            keep == (|c: (u64, GridPos)| !stasis@.contains(c.1)),
            out@ == covers@.take(i as int).filter(keep).map_values(|c: (u64, GridPos)| c.0),
        decreases covers.len() - i,
    {
        let (id, pos) = covers[i];
        proof {
            reveal(Seq::filter);
            assert(covers@.take(i as int + 1).drop_last() =~= covers@.take(i as int));
        }
        let mut found = false;
        let mut j: usize = 0;
        while j < stasis.len()
            invariant
                j <= stasis.len(),
                found == exists|k: int| 0 <= k < j && stasis@[k] == pos,
            decreases stasis.len() - j,
        {
            if stasis[j] == pos {
                found = true;
            }
            j += 1;
        }
        if !found {
            out.push(id);
        }
        assert(out@ =~= covers@.take(i as int + 1).filter(keep).map_values(|c: (u64, GridPos)| c.0));
        i += 1;
    }
    assert(covers@.take(i as int) =~= covers@);
    out
}

/// The shadows left after `removed` stasis lights were matched away: one fewer each, never
/// below 0.
pub fn shadows_after_stasis(shadows_left: u32, removed: u32) -> (r: u32)
    ensures
        r == if shadows_left >= removed { (shadows_left - removed) as u32 } else { 0u32 },
{
    shadows_left.saturating_sub(removed)
}

/// What a player's swap is made of: whether a spark (a piece that is not a light) takes part,
/// and the cell and kind of each swapped piece (a piece that is not a light counts as a plain
/// light on the cell the swap recorded).
#[derive(Clone, Copy, PartialEq, Eq, Debug, Structural)]
pub struct SwapPieces {
    pub spark_swap: bool,
    pub a_pos: GridPos,
    pub a_kind: LightKind,
    pub b_pos: GridPos,
    pub b_kind: LightKind,
}

/// The cell and kind of piece `id`, recorded on `pos`: the light's own, else a plain light on
/// `pos`.
pub open spec fn piece_of(lights: Seq<BoardLight>, id: u64, pos: GridPos) -> (GridPos, LightKind) {
    match light_of(lights, id) {
        Some(l) => (l.pos, l.kind),
        None => (pos, LightKind::Normal),
    }
}

/// Reads the swap of piece `a` (recorded on `a_pos`) with piece `b` (if any) recorded on `b_pos`.
pub fn swap_pieces(a: u64, a_pos: GridPos, b: Option<u64>, b_pos: GridPos, lights: &Vec<BoardLight>) -> (r:
    SwapPieces)
    ensures
        r.spark_swap == (light_of(lights@, a) is None || (b matches Some(id) && light_of(lights@, id) is None)),
        (r.a_pos, r.a_kind) == piece_of(lights@, a, a_pos),
        (r.b_pos, r.b_kind) == match b {
            Some(id) => piece_of(lights@, id, b_pos),
            None => (b_pos, LightKind::Normal),
        },
{
    let la = find_light(lights, a);
    let lb = match b {
        Some(id) => find_light(lights, id),
        None => None,
    };
    let b_missing = match b {
        Some(_) => lb.is_none(),
        None => false,
    };
    let (ap, ak) = match la {
        Some(l) => (l.pos, l.kind),
        None => (a_pos, LightKind::Normal),
    };
    let (bp, bk) = match lb {
        Some(l) => (l.pos, l.kind),
        None => (b_pos, LightKind::Normal),
    };
    SwapPieces { spark_swap: la.is_none() || b_missing, a_pos: ap, a_kind: ak, b_pos: bp, b_kind: bk }
}

/// Law: the removed lights are read off the board as they are: each id of `ids` that names a
/// board light gives an entry with that light's cell, color and kind (a hollow light stays
/// hollow, a power keeps its kind), and every entry is such a light of `ids`.
pub proof fn lemma_removed_lights_keep_the_board(ids: Seq<u64>, lights: Seq<BoardLight>)
    ensures
        forall|e: u64|
            #[trigger] ids.contains(e) && light_of(lights, e) is Some ==> removed_lights_spec(ids, lights).contains(
                Removed {
                    pos: (light_of(lights, e)->0).pos,
                    color: (light_of(lights, e)->0).color,
                    kind: (light_of(lights, e)->0).kind,
                },
            ),
        forall|k: int|
            0 <= k < removed_lights_spec(ids, lights).len() ==> exists|e: u64|
                ids.contains(e) && (light_of(lights, e) matches Some(l) && l.id == e && lights.contains(l) && (
                #[trigger] removed_lights_spec(ids, lights)[k]) == Removed { pos: l.pos, color: l.color, kind: l.kind }),
    decreases ids.len(),
{
    if ids.len() > 0 {
        let rest = ids.drop_last();
        let e0 = ids.last();
        lemma_removed_lights_keep_the_board(rest, lights);
        lemma_light_of_found(lights, e0);
        let r0 = removed_lights_spec(rest, lights);
        let r = removed_lights_spec(ids, lights);
        assert(ids[ids.len() - 1] == e0);
        assert forall|e: u64| #[trigger] ids.contains(e) && light_of(lights, e) is Some implies r.contains(
            Removed {
                pos: (light_of(lights, e)->0).pos,
                color: (light_of(lights, e)->0).color,
                kind: (light_of(lights, e)->0).kind,
            },
        ) by {
            let x = Removed {
                pos: (light_of(lights, e)->0).pos,
                color: (light_of(lights, e)->0).color,
                kind: (light_of(lights, e)->0).kind,
            };
            if e == e0 {
                assert(r[r.len() - 1] == x);
            } else {
                let j = choose|j: int| 0 <= j < ids.len() && ids[j] == e;
                assert(rest[j] == e);
                assert(rest.contains(e));
                assert(r0.contains(x));
                let m = choose|m: int| 0 <= m < r0.len() && r0[m] == x;
                assert(r[m] == x);
            }
        }
        assert forall|k: int| 0 <= k < r.len() implies exists|e: u64|
            ids.contains(e) && (light_of(lights, e) matches Some(l) && l.id == e && lights.contains(l) && (
            #[trigger] r[k]) == Removed { pos: l.pos, color: l.color, kind: l.kind }) by {
            if k < r0.len() {
                assert(r[k] == r0[k]);
                let e = choose|e: u64|
                    rest.contains(e) && (light_of(lights, e) matches Some(l) && l.id == e && lights.contains(l) && (
                    #[trigger] r0[k]) == Removed { pos: l.pos, color: l.color, kind: l.kind });
                let j = choose|j: int| 0 <= j < rest.len() && rest[j] == e;
                assert(ids[j] == e);
                assert(ids.contains(e));
            } else {
                assert(ids.contains(e0));
                assert(r[k] == removed_of(light_of(lights, e0)->0));
            }
        }
    }
}

} // verus!
