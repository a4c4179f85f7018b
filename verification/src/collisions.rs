//! Damage from overlapping entities and from bullets, applied in order.
//!
//! The geometry (positions, radii, the spatial hash) is floating point and
//! stays with the caller, which hands in which entities touch; what the
//! touches do to health, and who dies of them, is decided here.
use vstd::prelude::*;
use crate::rules::{
    collision_damage, grant_fits, grant_fits_check, grant_xp, granted, healed_after_grant, kill_reward,
};
use crate::tanks::{EntityId, TankRecord, Tanks};

verus! {

/// One blow: the entity index struck, the damage, and who dealt it.
pub type Blow = (usize, u32, usize);

/// `health - damage`, stopping at zero.
pub open spec fn sat_sub(health: u32, damage: u32) -> u32 {
    if health >= damage { (health - damage) as u32 } else { 0u32 }
}

/// Health after the blows land one after another.
pub open spec fn after_blows(health: Seq<u32>, blows: Seq<Blow>) -> Seq<u32>
    decreases blows.len(),
{
    if blows.len() == 0 {
        health
    } else {
        let h = after_blows(health, blows.drop_last());
        let (t, d, _s) = blows.last();
        if (t as int) < h.len() {
            h.update(t as int, sat_sub(h[t as int], d))
        } else {
            h
        }
    }
}

/// The blows that kill, in order, as (victim, dealer): a blow kills when
/// it takes a living entity to zero health.
pub open spec fn kills(health: Seq<u32>, blows: Seq<Blow>) -> Seq<(usize, usize)>
    decreases blows.len(),
{
    if blows.len() == 0 {
        Seq::empty()
    } else {
        let h = after_blows(health, blows.drop_last());
        let prev = kills(health, blows.drop_last());
        let (t, d, s) = blows.last();
        if (t as int) < h.len() && h[t as int] > 0 && sat_sub(h[t as int], d) == 0 {
            prev.push((t, s))
        } else {
            prev
        }
    }
}

/// Damage an entity deals to the other on contact, by whether each is a
/// tank: tanks bump for 2 each, a tank ramming a shape takes 1 and deals
/// 15, shapes only push each other.
pub open spec fn contact_damage(first_is_tank: bool, second_is_tank: bool) -> Option<(u32, u32)> {
    if first_is_tank && second_is_tank {
        Some((2u32, 2u32))
    } else if first_is_tank {
        Some((1u32, 15u32))
    } else if second_is_tank {
        Some((15u32, 1u32))
    } else {
        None
    }
}

/// The blows of a list of touching pairs. A pair counts once, from its
/// lower index (a pair `(a, b)` with `b <= a` is the same touch seen from
/// the other side and is passed over); the lower entity is struck first.
pub open spec fn contact_blows(is_tank: Seq<bool>, contacts: Seq<(usize, usize)>) -> Seq<Blow>
    decreases contacts.len(),
{
    if contacts.len() == 0 {
        Seq::empty()
    } else {
        let prev = contact_blows(is_tank, contacts.drop_last());
        let (a, b) = contacts.last();
        if a < b {
            match contact_damage(is_tank[a as int], is_tank[b as int]) {
                Some((da, db)) => prev.push((a, da, b)).push((b, db, a)),
                None => prev,
            }
        } else {
            prev
        }
    }
}

/// Whether every index in the contact list names an entity.
pub open spec fn contacts_in_range(n: nat, contacts: Seq<(usize, usize)>) -> bool {
    forall|k: int| 0 <= k < contacts.len() ==> (#[trigger] contacts[k]).0 < n && contacts[k].1 < n
}

proof fn lemma_after_blows_len(health: Seq<u32>, blows: Seq<Blow>)
    ensures
        after_blows(health, blows).len() == health.len(),
    decreases blows.len(),
{
    if blows.len() > 0 {
        lemma_after_blows_len(health, blows.drop_last());
    }
}

/// Lands `blow` on `health`, extending the running kill list.
fn land(health: &mut Vec<u32>, blow: Blow, killed: &mut Vec<(usize, usize)>, Ghost(start): Ghost<Seq<u32>>, Ghost(done): Ghost<Seq<Blow>>)
    requires
        blow.0 < old(health)@.len(),
        old(health)@ == after_blows(start, done),
        old(killed)@ == kills(start, done),
    ensures
        final(health)@ == after_blows(start, done.push(blow)),
        final(killed)@ == kills(start, done.push(blow)),
        final(killed)@ == old(killed)@ || final(killed)@ == old(killed)@.push((blow.0, blow.2)),
{
    let (t, d, s) = blow;
    let before = health[t];
    let left = before.saturating_sub(d);
    health.set(t, left);
    if before > 0 && left == 0 {
        killed.push((t, s));
    }
    proof {
        assert(done.push(blow).drop_last() =~= done);
    }
}

/// Applies the damage of every touching pair in `contacts`, in order, and
/// returns the entities that died of it (went from living to zero health),
/// in the order they died.
pub fn resolve_contacts(health: &mut Vec<u32>, is_tank: &Vec<bool>, contacts: &Vec<(usize, usize)>) -> (killed: Vec<usize>)
    requires
        is_tank@.len() == old(health)@.len(),
        contacts_in_range(old(health)@.len(), contacts@),
    ensures
        final(health)@ == after_blows(old(health)@, contact_blows(is_tank@, contacts@)),
        killed@ == kills(old(health)@, contact_blows(is_tank@, contacts@)).map_values(
            |k: (usize, usize)| k.0,
        ),
{
    let ghost start = health@;
    let mut pairs: Vec<(usize, usize)> = Vec::new();
    let mut i: usize = 0;
    while i < contacts.len()
        invariant
            i <= contacts@.len(),
            is_tank@.len() == start.len(),
            contacts_in_range(start.len(), contacts@),
            health@ == after_blows(start, contact_blows(is_tank@, contacts@.subrange(0, i as int))),
            pairs@ == kills(start, contact_blows(is_tank@, contacts@.subrange(0, i as int))),
        decreases contacts.len() - i,
    {
        let ghost pre = contacts@.subrange(0, i as int);
        let ghost blows = contact_blows(is_tank@, pre);
        proof {
            assert(contacts@.subrange(0, i + 1).drop_last() =~= pre);
            lemma_after_blows_len(start, blows);
        }
        let (a, b) = contacts[i];
        assert(contacts@[i as int] == (a, b));
        if a < b {
            match collision_damage(is_tank[a], is_tank[b]) {
                Some((da, db)) => {
                    land(health, (a, da, b), &mut pairs, Ghost(start), Ghost(blows));
                    proof {
                        lemma_after_blows_len(start, blows.push((a, da, b)));
                    }
                    land(health, (b, db, a), &mut pairs, Ghost(start), Ghost(blows.push((a, da, b))));
                },
                None => {},
            }
        }
        i = i + 1;
    }
    proof {
        assert(contacts@.subrange(0, contacts@.len() as int) =~= contacts@);
    }
    let mut killed: Vec<usize> = Vec::new();
    let mut j: usize = 0;
    while j < pairs.len()
        invariant
            j <= pairs@.len(),
            killed@ == pairs@.subrange(0, j as int).map_values(|k: (usize, usize)| k.0),
        decreases pairs.len() - j,
    {
        killed.push(pairs[j].0);
        j = j + 1;
        proof {
            assert(pairs@.subrange(0, j as int).map_values(|k: (usize, usize)| k.0) =~= pairs@.subrange(
                0,
                j - 1,
            ).map_values(|k: (usize, usize)| k.0).push(pairs@[j - 1].0));
        }
    }
    proof {
        assert(pairs@.subrange(0, pairs@.len() as int) =~= pairs@);
    }
    killed
}

/// The first candidate a bullet strikes: the first entity in `candidates`
/// (those it overlaps, in the order the spatial query gave them) that is
/// not the bullet's own owner.
pub open spec fn bullet_target(owner: usize, candidates: Seq<usize>) -> Option<usize>
    decreases candidates.len(),
{
    if candidates.len() == 0 {
        None
    } else if candidates[0] != owner {
        Some(candidates[0])
    } else {
        bullet_target(owner, candidates.drop_first())
    }
}

/// Picks the entity a bullet strikes among those it overlaps.
pub fn pick_target(owner: usize, candidates: &Vec<usize>) -> (target: Option<usize>)
    ensures
        target == bullet_target(owner, candidates@),
{
    let mut i: usize = 0;
    assert(candidates@.subrange(0, candidates@.len() as int) =~= candidates@);
    while i < candidates.len()
        invariant
            i <= candidates@.len(),
            bullet_target(owner, candidates@) == bullet_target(
                owner,
                candidates@.subrange(i as int, candidates@.len() as int),
            ),
        decreases candidates.len() - i,
    {
        let ghost rest = candidates@.subrange(i as int, candidates@.len() as int);
        assert(rest[0] == candidates@[i as int]);
        if candidates[i] != owner {
            return Some(candidates[i]);
        }
        assert(rest.drop_first() =~= candidates@.subrange(i + 1, candidates@.len() as int));
        i = i + 1;
    }
    None
}

/// Whether every candidate of every bullet names an entity.
pub open spec fn candidates_in_range(n: nat, candidates: Seq<Vec<usize>>) -> bool {
    forall|b: int, k: int|
        0 <= b < candidates.len() && 0 <= k < candidates[b]@.len() ==> #[trigger] candidates[b]@[k] < n
}

proof fn lemma_target_in_candidates(owner: usize, candidates: Seq<usize>)
    ensures
        bullet_target(owner, candidates) matches Some(t) ==> candidates.contains(t) && t != owner,
    decreases candidates.len(),
{
    if candidates.len() > 0 && candidates[0] == owner {
        lemma_target_in_candidates(owner, candidates.drop_first());
        if let Some(t) = bullet_target(owner, candidates) {
            let k = choose|k: int| 0 <= k < candidates.drop_first().len() && candidates.drop_first()[k] == t;
            assert(candidates[k + 1] == t);
        }
    }
}

/// What a bullet round works on: the tanks, the health of every entity
/// (by its index in the round), and the kills so far as (victim, owner).
pub struct RoundState {
    pub tanks: Map<EntityId, TankRecord>,
    pub health: Seq<u32>,
    pub kills: Seq<(usize, usize)>,
}

/// `grant_xp` crediting `gained` to the tank `owner_id` (entity `owner` of
/// the round): the tank levels up and its health heals. When the owner holds
/// no tank, or the grant would pass the machine's integers, nothing changes.
pub open spec fn credit(
    tanks: Map<EntityId, TankRecord>,
    health: Seq<u32>,
    owner_id: EntityId,
    owner: int,
    gained: u32,
) -> (Map<EntityId, TankRecord>, Seq<u32>) {
    if tanks.dom().contains(owner_id) && grant_fits(tanks[owner_id], gained, health[owner]) {
        (
            tanks.insert(owner_id, granted(tanks[owner_id], gained)),
            health.update(owner, healed_after_grant(tanks[owner_id], gained, health[owner])),
        )
    } else {
        (tanks, health)
    }
}

/// One bullet of a round. It strikes its target (the first entity it
/// overlaps that is not its owner), if any, for its damage, health stopping
/// at zero. A strike that takes a living target to zero kills it: the
/// owner is credited half the victim's experience when the victim is a
/// tank, else the victim's shape reward (if any), and the victim's tank,
/// if it had one, is removed.
pub open spec fn round_step(
    s: RoundState,
    ids: Seq<EntityId>,
    shape_reward: Seq<Option<u32>>,
    owner: usize,
    damage: u32,
    candidates: Seq<usize>,
) -> RoundState {
    match bullet_target(owner, candidates) {
        None => s,
        Some(t) => {
            let before = s.health[t as int];
            let left = sat_sub(before, damage);
            let h1 = s.health.update(t as int, left);
            if before > 0 && left == 0 {
                let victim = ids[t as int];
                let reward = if s.tanks.dom().contains(victim) {
                    Some((s.tanks[victim].xp.0 / 2) as u32)
                } else {
                    shape_reward[t as int]
                };
                let c = match reward {
                    Some(g) => credit(s.tanks, h1, ids[owner as int], owner as int, g),
                    None => (s.tanks, h1),
                };
                RoundState { tanks: c.0.remove(victim), health: c.1, kills: s.kills.push((t, owner)) }
            } else {
                RoundState { health: h1, ..s }
            }
        },
    }
}

/// The state after bullets `0..n`, one after another.
pub open spec fn round(
    s0: RoundState,
    ids: Seq<EntityId>,
    shape_reward: Seq<Option<u32>>,
    owner_of: Seq<usize>,
    damage: Seq<u32>,
    candidates: Seq<Vec<usize>>,
    n: int,
) -> RoundState
    decreases n,
{
    if n <= 0 {
        s0
    } else {
        round_step(
            round(s0, ids, shape_reward, owner_of, damage, candidates, n - 1),
            ids,
            shape_reward,
            owner_of[n - 1],
            damage[n - 1],
            candidates[n - 1]@,
        )
    }
}

/// The bullets among `i..n` that strike something, highest first.
pub open spec fn spent_from(owner_of: Seq<usize>, candidates: Seq<Vec<usize>>, i: int, n: int) -> Seq<usize>
    decreases n - i,
{
    if i >= n {
        Seq::empty()
    } else {
        let rest = spent_from(owner_of, candidates, i + 1, n);
        if bullet_target(owner_of[i], candidates[i]@) is Some {
            rest.push(i as usize)
        } else {
            rest
        }
    }
}

proof fn lemma_spent_from(owner_of: Seq<usize>, candidates: Seq<Vec<usize>>, i: int, n: int)
    requires
        0 <= i <= n,
        n <= usize::MAX,
    ensures
        forall|a: int, b: int|
            0 <= a < b < spent_from(owner_of, candidates, i, n).len() ==> #[trigger] spent_from(
                owner_of,
                candidates,
                i,
                n,
            )[a] > #[trigger] spent_from(owner_of, candidates, i, n)[b],
        forall|x: usize|
            #[trigger] spent_from(owner_of, candidates, i, n).contains(x) <==> (i <= x < n
                && bullet_target(owner_of[x as int], candidates[x as int]@) is Some),
    decreases n - i,
{
    if i < n {
        lemma_spent_from(owner_of, candidates, i + 1, n);
        let rest = spent_from(owner_of, candidates, i + 1, n);
        let all = spent_from(owner_of, candidates, i, n);
        assert forall|x: usize| #[trigger] all.contains(x) <==> (i <= x < n
            && bullet_target(owner_of[x as int], candidates[x as int]@) is Some) by {
            if all.contains(x) {
                let k = choose|k: int| 0 <= k < all.len() && all[k] == x;
                if k < rest.len() {
                    assert(rest[k] == x);
                    assert(rest.contains(x));
                }
            }
            if i <= x < n && bullet_target(owner_of[x as int], candidates[x as int]@) is Some {
                if x == i {
                    assert(all[all.len() - 1] == x);
                } else {
                    assert(rest.contains(x));
                    let k = choose|k: int| 0 <= k < rest.len() && rest[k] == x;
                    assert(all[k] == x);
                }
            }
        }
        assert forall|a: int, b: int| 0 <= a < b < all.len() implies #[trigger] all[a] > #[trigger] all[b] by {
            if b < rest.len() {
                assert(all[a] == rest[a] && all[b] == rest[b]);
            } else {
                assert(all[a] == rest[a]);
                assert(rest.contains(rest[a]));
            }
        }
    }
}

/// A bullet round, bullet by bullet (see `round_step`): each bullet
/// strikes the first entity it overlaps that is not its owner; kills credit
/// the owner through `grant_xp` and remove the victim's tank. Returns the
/// kills as (victim, owner) in order, and the bullets that struck, each
/// once, highest index first (the order to delete them in).
///
/// The round's entities are numbered `0..`: `ids` gives each one's entity
/// id, `health` its health and `shape_reward` its experience reward when it
/// is a shape; `owner_of[b]` is the entity that fired bullet `b`,
/// `damage[b]` its damage, and `candidates[b]` the entities it overlaps, in
/// the order the spatial query found them.
pub fn resolve_hits(
    tanks: &mut Tanks,
    health: &mut Vec<u32>,
    ids: &Vec<EntityId>,
    shape_reward: &Vec<Option<u32>>,
    owner_of: &Vec<usize>,
    damage: &Vec<u32>,
    candidates: &Vec<Vec<usize>>,
) -> (outcome: (Vec<(usize, usize)>, Vec<usize>))
    requires
        old(tanks).wf(),
        ids@.len() == old(health)@.len(),
        shape_reward@.len() == old(health)@.len(),
        owner_of@.len() == candidates@.len(),
        damage@.len() == candidates@.len(),
        candidates_in_range(old(health)@.len(), candidates@),
        forall|b: int| 0 <= b < owner_of@.len() ==> #[trigger] owner_of@[b] < old(health)@.len(),
    ensures
        final(tanks).wf(),
        (RoundState { tanks: final(tanks)@, health: final(health)@, kills: outcome.0@ }) == round(
            RoundState { tanks: old(tanks)@, health: old(health)@, kills: Seq::empty() },
            ids@,
            shape_reward@,
            owner_of@,
            damage@,
            candidates@,
            candidates@.len() as int,
        ),
        outcome.1@ == spent_from(owner_of@, candidates@, 0, candidates@.len() as int),
        forall|a: int, b: int|
            0 <= a < b < outcome.1@.len() ==> #[trigger] outcome.1@[a] > #[trigger] outcome.1@[b],
        forall|x: usize|
            #[trigger] outcome.1@.contains(x) <==> ((x as int) < candidates@.len()
                && bullet_target(owner_of@[x as int], candidates@[x as int]@) is Some),
{
    let ghost s0 = RoundState { tanks: tanks@, health: health@, kills: Seq::empty() };
    let mut kills: Vec<(usize, usize)> = Vec::new();
    let mut struck: Vec<bool> = Vec::new();
    let mut b: usize = 0;
    while b < candidates.len()
        invariant
            b <= candidates@.len(),
            tanks.wf(),
            ids@.len() == health@.len(),
            shape_reward@.len() == health@.len(),
            ids@.len() == s0.health.len(),
            owner_of@.len() == candidates@.len(),
            damage@.len() == candidates@.len(),
            candidates_in_range(health@.len(), candidates@),
            forall|k: int| 0 <= k < owner_of@.len() ==> #[trigger] owner_of@[k] < health@.len(),
            (RoundState { tanks: tanks@, health: health@, kills: kills@ }) == round(
                s0,
                ids@,
                shape_reward@,
                owner_of@,
                damage@,
                candidates@,
                b as int,
            ),
            struck@.len() == b,
            forall|k: int| 0 <= k < b ==> #[trigger] struck@[k] == (bullet_target(owner_of@[k], candidates@[k]@) is Some),
        decreases candidates.len() - b,
    {
        let ghost pre = RoundState { tanks: tanks@, health: health@, kills: kills@ };
        let owner = owner_of[b];
        let target = pick_target(owner, &candidates[b]);
        match target {
            None => {
                struck.push(false);
            },
            Some(t) => {
                proof {
                    lemma_target_in_candidates(owner, candidates@[b as int]@);
                    let k = choose|k: int| 0 <= k < candidates@[b as int]@.len() && candidates@[b as int]@[k] == t;
                    assert(candidates@[b as int]@[k] < health@.len());
                }
                struck.push(true);
                let before = health[t];
                let left = before.saturating_sub(damage[b]);
                health.set(t, left);
                let ghost h1 = health@;
                if before > 0 && left == 0 {
                    let victim = ids[t];
                    let reward = kill_reward(tanks, shape_reward[t], victim);
                    match reward {
                        Some(g) => {
                            let oid = ids[owner];
                            let h = health[owner];
                            if grant_fits_check(tanks, oid, g, h) {
                                let mut h2 = h;
                                grant_xp(tanks, oid, g, &mut h2);
                                health.set(owner, h2);
                                proof {
                                    if !pre.tanks.dom().contains(oid) {
                                        assert(health@ =~= h1);
                                    }
                                }
                            }
                        },
                        None => {},
                    }
                    tanks.remove(victim);
                    kills.push((t, owner));
                }
            },
        }
        proof {
            assert(struck@[b as int] == (bullet_target(owner_of@[b as int], candidates@[b as int]@) is Some));
        }
        b = b + 1;
    }
    let n = candidates.len();
    let mut spent: Vec<usize> = Vec::new();
    let mut i: usize = n;
    while i > 0
        invariant
            i <= n,
            n == candidates@.len(),
            struck@.len() == n,
            owner_of@.len() == n,
            forall|k: int| 0 <= k < n ==> #[trigger] struck@[k] == (bullet_target(owner_of@[k], candidates@[k]@) is Some),
            spent@ == spent_from(owner_of@, candidates@, i as int, n as int),
        decreases i,
    {
        i = i - 1;
        if struck[i] {
            spent.push(i);
        }
    }
    proof {
        lemma_spent_from(owner_of@, candidates@, 0, n as int);
    }
    (kills, spent)
}

/// The kill list names exactly the entities that the blows took from
/// living to zero health, each of them once.
pub proof fn law_kills_are_deaths(health: Seq<u32>, blows: Seq<Blow>, v: usize)
    requires
        forall|j: int| 0 <= j < blows.len() ==> (#[trigger] blows[j]).0 < health.len(),
        v < health.len(),
    ensures
        (exists|k: int| 0 <= k < kills(health, blows).len() && #[trigger] kills(health, blows)[k].0 == v)
            <==> (health[v as int] > 0 && after_blows(health, blows)[v as int] == 0),
        forall|a: int, b: int|
            0 <= a < b < kills(health, blows).len() ==> #[trigger] kills(health, blows)[a].0
                != #[trigger] kills(health, blows)[b].0,
{
    lemma_kill_facts(health, blows);
    if health[v as int] > 0 && after_blows(health, blows)[v as int] == 0 {
        let k = choose|k: int| 0 <= k < kills(health, blows).len() && #[trigger] kills(health, blows)[k].0 == v;
    }
}

proof fn lemma_after_blows_mono(health: Seq<u32>, blows: Seq<Blow>, i: int)
    requires
        0 <= i < health.len(),
    ensures
        after_blows(health, blows)[i] <= health[i],
        health[i] == 0 ==> after_blows(health, blows)[i] == 0,
    decreases blows.len(),
{
    if blows.len() > 0 {
        lemma_after_blows_mono(health, blows.drop_last(), i);
        lemma_after_blows_len(health, blows.drop_last());
    }
}

/// Each killed entity was alive at the start, is dead at the end, and is
/// killed once.
proof fn lemma_kill_facts(health: Seq<u32>, blows: Seq<Blow>)
    requires
        forall|j: int| 0 <= j < blows.len() ==> (#[trigger] blows[j]).0 < health.len(),
    ensures
        forall|k: int|
            0 <= k < kills(health, blows).len() ==> {
                let v = (#[trigger] kills(health, blows)[k]).0 as int;
                &&& 0 <= v < health.len()
                &&& health[v] > 0
                &&& after_blows(health, blows)[v] == 0
            },
        forall|v: usize|
            (v as int) < health.len() && health[v as int] > 0 && after_blows(health, blows)[v as int] == 0
                ==> exists|k: int| 0 <= k < kills(health, blows).len() && #[trigger] kills(health, blows)[k].0 == v,
        forall|a: int, b: int|
            0 <= a < b < kills(health, blows).len() ==> #[trigger] kills(health, blows)[a].0
                != #[trigger] kills(health, blows)[b].0,
    decreases blows.len(),
{
    if blows.len() > 0 {
        let rest = blows.drop_last();
        assert forall|j: int| 0 <= j < rest.len() implies (#[trigger] rest[j]).0 < health.len() by {
            assert(rest[j] == blows[j]);
        }
        lemma_kill_facts(health, rest);
        lemma_after_blows_len(health, rest);
        let h = after_blows(health, rest);
        let (t, d, s) = blows.last();
        assert(blows.last() == blows[blows.len() - 1]);
        assert forall|k: int| 0 <= k < kills(health, blows).len() implies {
            let v = (#[trigger] kills(health, blows)[k]).0 as int;
            &&& 0 <= v < health.len()
            &&& health[v] > 0
            &&& after_blows(health, blows)[v] == 0
        } by {
            if k < kills(health, rest).len() {
                assert(kills(health, blows)[k] == kills(health, rest)[k]);
                let v = kills(health, rest)[k].0 as int;
                assert(h[v] == 0);
                if v != t as int {
                } else {
                }
            } else {
                lemma_after_blows_mono(health, rest, t as int);
            }
        }
        assert forall|v: usize|
            (v as int) < health.len() && health[v as int] > 0 && after_blows(health, blows)[v as int] == 0
                implies exists|k: int| 0 <= k < kills(health, blows).len() && #[trigger] kills(health, blows)[k].0 == v by {
            if h[v as int] == 0 {
                let k = choose|k: int| 0 <= k < kills(health, rest).len() && #[trigger] kills(health, rest)[k].0 == v;
                assert(kills(health, blows)[k] == kills(health, rest)[k]);
            } else {
                let n = kills(health, rest).len() as int;
                assert(kills(health, blows)[n].0 == v);
            }
        }
        assert forall|a: int, b: int|
            0 <= a < b < kills(health, blows).len() implies #[trigger] kills(health, blows)[a].0
                != #[trigger] kills(health, blows)[b].0 by {
            let n = kills(health, rest).len() as int;
            if b < n {
                assert(kills(health, blows)[a] == kills(health, rest)[a]);
                assert(kills(health, blows)[b] == kills(health, rest)[b]);
            } else {
                assert(kills(health, blows)[a] == kills(health, rest)[a]);
                let va = kills(health, rest)[a].0 as int;
                assert(h[va] == 0);
            }
        }
    }
}

} // verus!
