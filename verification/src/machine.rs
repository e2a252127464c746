//! The engine itself: persistent entity sets, identity reconciliation,
//! perception and targeting queries, formation assignment, the per-unit
//! finite-state machine, and the round driver.

use vstd::multiset::Multiset;
use vstd::pervasive::unreached;
use vstd::prelude::*;

use crate::command::Command;
use crate::entities::{
    spec_can_stun, spec_is_bustable, spec_is_stunnable, spec_is_too_close, Buster, BusterState,
    Roamer,
};
use crate::geometry::{in_bounds, spec_dist, spec_in_radius, spec_throw_point, Coord};
use crate::rng::random_in_range;
use crate::{
    BASE_RELEASE_RADIUS, CAMPING_RADIUS, CAPTURE_RADIUS, LINE_OF_SIGHT_RADIUS, MAP_BOTTOM_WALL,
    MAP_RIGHT_WALL, ORIGIN_THROWING_OFFSET, OUTER_BUSTING_RADIUS, START_CAMPING_TURN, STUN_COOLDOWN,
    TURNS_UNTIL_GLOBAL_PICKS,
};

verus! {

/// Whether some tracked roamer has the given identity.
pub open spec fn roamer_id_present(s: Seq<Roamer>, id: int) -> bool {
    exists|i: int| 0 <= i < s.len() && #[trigger] s[i].entity_id == id
}

/// Whether some tracked unit has the given identity.
pub open spec fn buster_id_present(s: Seq<Buster>, id: int) -> bool {
    exists|i: int| 0 <= i < s.len() && #[trigger] s[i].entity_id == id
}

/// No two roamers share an identity.
pub open spec fn unique_roamer_ids(s: Seq<Roamer>) -> bool {
    forall|i: int, j: int|
        0 <= i < j < s.len() ==> #[trigger] s[i].entity_id != #[trigger] s[j].entity_id
}

/// No two units share an identity.
pub open spec fn unique_buster_ids(s: Seq<Buster>) -> bool {
    forall|i: int, j: int|
        0 <= i < j < s.len() ==> #[trigger] s[i].entity_id != #[trigger] s[j].entity_id
}

/// The first tracked roamer with the given identity.
pub open spec fn lookup_roamer(s: Seq<Roamer>, id: int) -> Roamer
    recommends
        roamer_id_present(s, id),
    decreases s.len(),
{
    if s.len() == 0 {
        Roamer { entity_id: 0, coords: Coord { x: 0, y: 0 }, people_trapping: 0, stamina: 0 }
    } else if s[0].entity_id == id {
        s[0]
    } else {
        lookup_roamer(s.drop_first(), id)
    }
}

/// The lookup of an identity returns the first record holding it.
pub proof fn lemma_lookup_roamer_first(s: Seq<Roamer>, id: int, i: int)
    requires
        0 <= i < s.len(),
        s[i].entity_id == id,
        forall|j: int| 0 <= j < i ==> s[j].entity_id != id,
    ensures
        lookup_roamer(s, id) == s[i],
    decreases s.len(),
{
    if i > 0 {
        lemma_lookup_roamer_first(s.drop_first(), id, i - 1);
    }
}

/// Whether roamer `g` is within sensing range of unit `b`.
pub open spec fn roamer_in_los(g: Roamer, b: Buster) -> bool {
    spec_in_radius(g.coords, b.coords, LINE_OF_SIGHT_RADIUS as int)
}

/// Whether unit `o` is within sensing range of unit `b`.
pub open spec fn opp_in_los(o: Buster, b: Buster) -> bool {
    spec_in_radius(o.coords, b.coords, LINE_OF_SIGHT_RADIUS as int)
}

/// The difficulty key a roamer is ranked by: its resistance, floored at 3
/// so that trivial roamers do not always dominate.
pub open spec fn ghost_key(g: Roamer) -> int {
    if g.stamina >= 3 {
        g.stamina as int
    } else {
        3
    }
}

/// Every coordinate of every tracked roamer is within the engine's bound.
pub open spec fn roamers_bounded(s: Seq<Roamer>) -> bool {
    forall|i: int| 0 <= i < s.len() ==> in_bounds(#[trigger] s[i].coords)
}

/// Every unit's position and destination are within the engine's bound and
/// its cooldown is non-negative.
pub open spec fn busters_ok(s: Seq<Buster>) -> bool {
    forall|i: int|
        0 <= i < s.len() ==> in_bounds(#[trigger] s[i].coords) && in_bounds(s[i].movement_target)
            && s[i].stun_timer >= 0
}

/// No controlled unit ever occupies one of the opposing-record marker
/// states.
pub open spec fn controlled_states(s: Seq<Buster>) -> bool {
    forall|i: int|
        0 <= i < s.len() ==> #[trigger] s[i].state != BusterState::NotTargetted && s[i].state
            != BusterState::DeathMarked
}

/// Both target references of a unit, where set, name an entity present in
/// the tracked sets.
pub open spec fn target_refs_ok(b: Buster, ghosts: Seq<Roamer>, bad: Seq<Buster>) -> bool {
    &&& match b.busting_target_id {
        Some(id) => roamer_id_present(ghosts, id as int),
        None => true,
    }
    &&& match b.stunning_target_id {
        Some(id) => buster_id_present(bad, id as int),
        None => true,
    }
}

/// The identities of the roamer targets of a sequence of units, in unit
/// order: the squad-wide broadcast list.
pub open spec fn targets_of(s: Seq<Buster>) -> Seq<i32>
    decreases s.len(),
{
    if s.len() == 0 {
        Seq::empty()
    } else {
        targets_of(s.drop_last()) + match s.last().busting_target_id {
            Some(id) => seq![id],
            None => Seq::empty(),
        }
    }
}

/// Every identity in the broadcast list is the roamer target of some unit.
pub proof fn lemma_targets_of_present(s: Seq<Buster>, ghosts: Seq<Roamer>, bad: Seq<Buster>)
    requires
        forall|k: int| 0 <= k < s.len() ==> target_refs_ok(#[trigger] s[k], ghosts, bad),
    ensures
        forall|k: int|
            0 <= k < targets_of(s).len() ==> roamer_id_present(
                ghosts,
                #[trigger] targets_of(s)[k] as int,
            ),
    decreases s.len(),
{
    if s.len() > 0 {
        let head = s.drop_last();
        assert(forall|k: int| 0 <= k < head.len() ==> target_refs_ok(#[trigger] head[k], ghosts, bad));
        lemma_targets_of_present(head, ghosts, bad);
        assert(target_refs_ok(s.last(), ghosts, bad));
        match s.last().busting_target_id {
            Some(id) => {
                assert(targets_of(s) == targets_of(head) + seq![id]);
                assert forall|k: int| 0 <= k < targets_of(s).len() implies roamer_id_present(
                    ghosts,
                    #[trigger] targets_of(s)[k] as int,
                ) by {
                    if k < targets_of(head).len() {
                        assert(targets_of(s)[k] == targets_of(head)[k]);
                    } else {
                        assert(targets_of(s)[k] == id);
                    }
                }
            },
            None => {
                assert(targets_of(s) =~= targets_of(head));
            },
        }
    }
}

/// The first tracked unit with the given identity.
pub open spec fn lookup_buster(s: Seq<Buster>, id: int) -> Buster
    recommends
        buster_id_present(s, id),
    decreases s.len(),
{
    if s.len() == 0 {
        Buster {
            entity_id: 0,
            coords: Coord { x: 0, y: 0 },
            state: BusterState::Idle,
            busting_target_id: None,
            stunning_target_id: None,
            movement_target: Coord { x: 0, y: 0 },
            stun_timer: 0,
            has_ghost: false,
            is_stunned: false,
        }
    } else if s[0].entity_id == id {
        s[0]
    } else {
        lookup_buster(s.drop_first(), id)
    }
}

/// The lookup of an identity returns the first record holding it.
pub proof fn lemma_lookup_buster_first(s: Seq<Buster>, id: int, i: int)
    requires
        0 <= i < s.len(),
        s[i].entity_id == id,
        forall|j: int| 0 <= j < i ==> s[j].entity_id != id,
    ensures
        lookup_buster(s, id) == s[i],
    decreases s.len(),
{
    if i > 0 {
        lemma_lookup_buster_first(s.drop_first(), id, i - 1);
    }
}

/// A looked-up roamer is one of the records and carries the identity.
pub proof fn lemma_lookup_roamer_is_elem(s: Seq<Roamer>, id: int)
    requires
        roamer_id_present(s, id),
    ensures
        exists|j: int| 0 <= j < s.len() && lookup_roamer(s, id) == s[j],
        lookup_roamer(s, id).entity_id == id,
    decreases s.len(),
{
    if s[0].entity_id == id {
        assert(lookup_roamer(s, id) == s[0]);
    } else {
        let t = s.drop_first();
        assert(roamer_id_present(t, id)) by {
            let w = choose|i: int| 0 <= i < s.len() && #[trigger] s[i].entity_id == id;
            assert(t[w - 1].entity_id == id);
        }
        lemma_lookup_roamer_is_elem(t, id);
        let j = choose|j: int| 0 <= j < t.len() && lookup_roamer(t, id) == t[j];
        assert(lookup_roamer(s, id) == s[j + 1]);
    }
}

/// A looked-up unit is one of the records and carries the identity.
pub proof fn lemma_lookup_buster_is_elem(s: Seq<Buster>, id: int)
    requires
        buster_id_present(s, id),
    ensures
        exists|j: int| 0 <= j < s.len() && lookup_buster(s, id) == s[j],
        lookup_buster(s, id).entity_id == id,
    decreases s.len(),
{
    if s[0].entity_id == id {
        assert(lookup_buster(s, id) == s[0]);
    } else {
        let t = s.drop_first();
        assert(buster_id_present(t, id)) by {
            let w = choose|i: int| 0 <= i < s.len() && #[trigger] s[i].entity_id == id;
            assert(t[w - 1].entity_id == id);
        }
        lemma_lookup_buster_is_elem(t, id);
        let j = choose|j: int| 0 <= j < t.len() && lookup_buster(t, id) == t[j];
        assert(lookup_buster(s, id) == s[j + 1]);
    }
}

/// The index of the first roamer with the given identity in a snapshot.
pub fn find_roamer_in(v: &Vec<Roamer>, id: i32) -> (r: Option<usize>)
    ensures
        match r {
            Some(i) => 0 <= i < v@.len() && v@[i as int].entity_id == id && (forall|j: int|
                0 <= j < i ==> #[trigger] v@[j].entity_id != id) && lookup_roamer(v@, id as int)
                == v@[i as int],
            None => !roamer_id_present(v@, id as int),
        },
{
    let n = v.len();
    let mut i: usize = 0;
    while i < n
        invariant
            n == v@.len(),
            i <= n,
            forall|j: int| 0 <= j < i ==> #[trigger] v@[j].entity_id != id,
        decreases n - i,
    {
        if v[i].entity_id == id {
            proof {
                lemma_lookup_roamer_first(v@, id as int, i as int);
            }
            return Some(i);
        }
        i = i + 1;
    }
    None
}

/// The index of the first unit with the given identity in a snapshot.
pub fn find_buster_in(v: &Vec<Buster>, id: i32) -> (r: Option<usize>)
    ensures
        match r {
            Some(i) => 0 <= i < v@.len() && v@[i as int].entity_id == id && (forall|j: int|
                0 <= j < i ==> #[trigger] v@[j].entity_id != id) && lookup_buster(v@, id as int)
                == v@[i as int],
            None => !buster_id_present(v@, id as int),
        },
{
    let n = v.len();
    let mut i: usize = 0;
    while i < n
        invariant
            n == v@.len(),
            i <= n,
            forall|j: int| 0 <= j < i ==> #[trigger] v@[j].entity_id != id,
        decreases n - i,
    {
        if v[i].entity_id == id {
            proof {
                lemma_lookup_buster_first(v@, id as int, i as int);
            }
            return Some(i);
        }
        i = i + 1;
    }
    None
}

/// The persisted roamers that survive reconciliation, in persisted order,
/// each already holding its freshly observed fields.  Because every mutable
/// field of a roamer is observed, the surviving record equals the observed
/// one.
pub open spec fn merge_kept_roamers(olds: Seq<Roamer>, obs: Seq<Roamer>) -> Seq<Roamer>
    decreases olds.len(),
{
    if olds.len() == 0 {
        Seq::empty()
    } else {
        let rest = merge_kept_roamers(olds.drop_last(), obs);
        if roamer_id_present(obs, olds.last().entity_id as int) {
            rest.push(lookup_roamer(obs, olds.last().entity_id as int))
        } else {
            rest
        }
    }
}

/// The observed roamers with no persisted match, in observed order: the
/// records inserted by reconciliation.
pub open spec fn merge_new_roamers(obs: Seq<Roamer>, olds: Seq<Roamer>) -> Seq<Roamer>
    decreases obs.len(),
{
    if obs.len() == 0 {
        Seq::empty()
    } else {
        let rest = merge_new_roamers(obs.drop_last(), olds);
        if roamer_id_present(olds, obs.last().entity_id as int) {
            rest
        } else {
            rest.push(obs.last())
        }
    }
}

/// The tracked roamer set after reconciling the observed snapshot:
/// surviving records first, then fresh insertions.
pub open spec fn merge_roamers(olds: Seq<Roamer>, obs: Seq<Roamer>) -> Seq<Roamer> {
    merge_kept_roamers(olds, obs) + merge_new_roamers(obs, olds)
}

/// A unit with its roamer target severed when that roamer is absent from
/// the observed snapshot.
pub open spec fn prune_busting_target(b: Buster, obs: Seq<Roamer>) -> Buster {
    match b.busting_target_id {
        Some(id) => if roamer_id_present(obs, id as int) {
            b
        } else {
            Buster { busting_target_id: None, ..b }
        },
        None => b,
    }
}

/// All controlled units with dangling roamer targets severed.
pub open spec fn prune_busting_targets(good: Seq<Buster>, obs: Seq<Roamer>) -> Seq<Buster> {
    Seq::new(good.len(), |k: int| prune_busting_target(good[k], obs))
}

/// A unit with its opponent target severed when that opponent is absent
/// from the observed snapshot.
pub open spec fn prune_stunning_target(b: Buster, obs: Seq<Buster>) -> Buster {
    match b.stunning_target_id {
        Some(id) => if buster_id_present(obs, id as int) {
            b
        } else {
            Buster { stunning_target_id: None, ..b }
        },
        None => b,
    }
}

/// All controlled units with dangling opponent targets severed.
pub open spec fn prune_stunning_targets(good: Seq<Buster>, obs: Seq<Buster>) -> Seq<Buster> {
    Seq::new(good.len(), |k: int| prune_stunning_target(good[k], obs))
}

/// A persisted unit record refreshed from an observed one: position and
/// flags are copied; identity, behavioral state, targets, destination and
/// cooldown persist.
pub open spec fn refresh_buster(old_b: Buster, obs_b: Buster) -> Buster {
    Buster {
        coords: obs_b.coords,
        has_ghost: obs_b.has_ghost,
        is_stunned: obs_b.is_stunned,
        ..old_b
    }
}

/// The controlled units after a reconciliation pass: each refreshed from
/// its observed match where one exists, untouched otherwise.  The
/// population itself never changes.
pub open spec fn refresh_good(good: Seq<Buster>, obs: Seq<Buster>) -> Seq<Buster> {
    Seq::new(
        good.len(),
        |k: int|
            if buster_id_present(obs, good[k].entity_id as int) {
                refresh_buster(good[k], lookup_buster(obs, good[k].entity_id as int))
            } else {
                good[k]
            },
    )
}

/// The persisted opposing units that survive reconciliation, refreshed in
/// place.
pub open spec fn merge_kept_busters(olds: Seq<Buster>, obs: Seq<Buster>) -> Seq<Buster>
    decreases olds.len(),
{
    if olds.len() == 0 {
        Seq::empty()
    } else {
        let rest = merge_kept_busters(olds.drop_last(), obs);
        if buster_id_present(obs, olds.last().entity_id as int) {
            rest.push(refresh_buster(olds.last(), lookup_buster(obs, olds.last().entity_id as int)))
        } else {
            rest
        }
    }
}

/// The observed opposing units with no persisted match, in observed order.
pub open spec fn merge_new_busters(obs: Seq<Buster>, olds: Seq<Buster>) -> Seq<Buster>
    decreases obs.len(),
{
    if obs.len() == 0 {
        Seq::empty()
    } else {
        let rest = merge_new_busters(obs.drop_last(), olds);
        if buster_id_present(olds, obs.last().entity_id as int) {
            rest
        } else {
            rest.push(obs.last())
        }
    }
}

/// The tracked opposing-unit set after reconciling the observed snapshot.
pub open spec fn merge_busters(olds: Seq<Buster>, obs: Seq<Buster>) -> Seq<Buster> {
    merge_kept_busters(olds, obs) + merge_new_busters(obs, olds)
}

/// Whether `x` is one of the records of `obs`.
pub open spec fn roamer_elem_of(x: Roamer, obs: Seq<Roamer>) -> bool {
    exists|j: int| 0 <= j < obs.len() && #[trigger] obs[j] == x
}

/// Identity membership across a push.
pub proof fn lemma_roamer_present_push(s: Seq<Roamer>, x: Roamer, id: int)
    ensures
        roamer_id_present(s.push(x), id) <==> (roamer_id_present(s, id) || x.entity_id == id),
{
    if roamer_id_present(s.push(x), id) {
        let i = choose|i: int| 0 <= i < s.push(x).len() && #[trigger] s.push(x)[i].entity_id == id;
        if i < s.len() {
            assert(s[i].entity_id == id);
        }
    }
    if roamer_id_present(s, id) {
        let i = choose|i: int| 0 <= i < s.len() && #[trigger] s[i].entity_id == id;
        assert(s.push(x)[i].entity_id == id);
    }
    if x.entity_id == id {
        assert(s.push(x)[s.len() as int].entity_id == id);
    }
}

/// Identity membership across a concatenation.
pub proof fn lemma_roamer_present_concat(a: Seq<Roamer>, b: Seq<Roamer>, id: int)
    ensures
        roamer_id_present(a + b, id) <==> (roamer_id_present(a, id) || roamer_id_present(b, id)),
{
    if roamer_id_present(a + b, id) {
        let i = choose|i: int| 0 <= i < (a + b).len() && #[trigger] (a + b)[i].entity_id == id;
        if i < a.len() {
            assert(a[i].entity_id == id);
        } else {
            assert(b[i - a.len()].entity_id == id);
        }
    }
    if roamer_id_present(a, id) {
        let i = choose|i: int| 0 <= i < a.len() && #[trigger] a[i].entity_id == id;
        assert((a + b)[i].entity_id == id);
    }
    if roamer_id_present(b, id) {
        let i = choose|i: int| 0 <= i < b.len() && #[trigger] b[i].entity_id == id;
        assert((a + b)[a.len() + i].entity_id == id);
    }
}

/// Pushing a fresh identity preserves uniqueness.
pub proof fn lemma_roamer_unique_push(s: Seq<Roamer>, x: Roamer)
    requires
        unique_roamer_ids(s),
        !roamer_id_present(s, x.entity_id as int),
    ensures
        unique_roamer_ids(s.push(x)),
{
    assert forall|i: int, j: int| 0 <= i < j < s.push(x).len() implies #[trigger] s.push(
        x,
    )[i].entity_id != #[trigger] s.push(x)[j].entity_id by {
        if j < s.len() {
            assert(s[i].entity_id != s[j].entity_id);
        } else {
            assert(s.push(x)[i] == s[i]);
        }
    }
}

/// The identities of the surviving roamers are those present both in the
/// persisted and in the observed set, and the surviving records are
/// observed records.
#[verifier::spinoff_prover]
pub proof fn lemma_merge_kept_roamers_facts(olds: Seq<Roamer>, obs: Seq<Roamer>)
    ensures
        forall|id: int|
            #[trigger] roamer_id_present(merge_kept_roamers(olds, obs), id) <==> (
            roamer_id_present(olds, id) && roamer_id_present(obs, id)),
        forall|i: int|
            0 <= i < merge_kept_roamers(olds, obs).len() ==> roamer_elem_of(
                #[trigger] merge_kept_roamers(olds, obs)[i],
                obs,
            ),
    decreases olds.len(),
{
    if olds.len() > 0 {
        let dl = olds.drop_last();
        let rest = merge_kept_roamers(dl, obs);
        let last_id = olds.last().entity_id as int;
        lemma_merge_kept_roamers_facts(dl, obs);
        assert forall|id: int| #[trigger] roamer_id_present(dl, id) implies roamer_id_present(
            olds,
            id,
        ) by {
            let i = choose|i: int| 0 <= i < dl.len() && #[trigger] dl[i].entity_id == id;
            assert(olds[i].entity_id == id);
        }
        assert forall|id: int|
            roamer_id_present(olds, id) && id != last_id implies #[trigger] roamer_id_present(
            dl,
            id,
        ) by {
            let i = choose|i: int| 0 <= i < olds.len() && #[trigger] olds[i].entity_id == id;
            assert(dl[i].entity_id == id);
        }
        assert(roamer_id_present(olds, last_id)) by {
            assert(olds[olds.len() - 1].entity_id == last_id);
        }
        if roamer_id_present(obs, last_id) {
            lemma_lookup_roamer_is_elem(obs, last_id);
            lemma_roamer_present_push(rest, lookup_roamer(obs, last_id), last_id);
            assert forall|id: int|
                #[trigger] roamer_id_present(merge_kept_roamers(olds, obs), id) implies (
            roamer_id_present(olds, id) && roamer_id_present(obs, id)) by {
                lemma_roamer_present_push(rest, lookup_roamer(obs, last_id), id);
            }
            assert forall|id: int|
                roamer_id_present(olds, id) && roamer_id_present(obs, id) implies #[trigger]
            roamer_id_present(merge_kept_roamers(olds, obs), id) by {
                lemma_roamer_present_push(rest, lookup_roamer(obs, last_id), id);
            }
            assert forall|i: int|
                0 <= i < merge_kept_roamers(olds, obs).len() implies roamer_elem_of(
                #[trigger] merge_kept_roamers(olds, obs)[i],
                obs,
            ) by {
                if i < rest.len() {
                    assert(roamer_elem_of(merge_kept_roamers(dl, obs)[i], obs));
                    assert(merge_kept_roamers(olds, obs)[i] == merge_kept_roamers(dl, obs)[i]);
                } else {
                    let j = choose|j: int|
                        0 <= j < obs.len() && lookup_roamer(obs, last_id) == obs[j];
                    assert(obs[j] == merge_kept_roamers(olds, obs)[i]);
                }
            }
        } else {
            assert forall|i: int|
                0 <= i < merge_kept_roamers(olds, obs).len() implies roamer_elem_of(
                #[trigger] merge_kept_roamers(olds, obs)[i],
                obs,
            ) by {
                assert(roamer_elem_of(merge_kept_roamers(dl, obs)[i], obs));
                assert(merge_kept_roamers(olds, obs)[i] == merge_kept_roamers(dl, obs)[i]);
            }
        }
    }
}

/// The identities of the inserted roamers are those observed but not
/// persisted, and the inserted records are observed records.
pub proof fn lemma_merge_new_roamers_facts(obs: Seq<Roamer>, olds: Seq<Roamer>)
    ensures
        forall|id: int|
            #[trigger] roamer_id_present(merge_new_roamers(obs, olds), id) <==> (roamer_id_present(
                obs,
                id,
            ) && !roamer_id_present(olds, id)),
        forall|i: int|
            0 <= i < merge_new_roamers(obs, olds).len() ==> exists|j: int|
                0 <= j < obs.len() && #[trigger] merge_new_roamers(obs, olds)[i] == obs[j],
    decreases obs.len(),
{
    if obs.len() > 0 {
        let dl = obs.drop_last();
        let rest = merge_new_roamers(dl, olds);
        let last_id = obs.last().entity_id as int;
        lemma_merge_new_roamers_facts(dl, olds);
        assert forall|id: int| #[trigger] roamer_id_present(dl, id) implies roamer_id_present(
            obs,
            id,
        ) by {
            let i = choose|i: int| 0 <= i < dl.len() && #[trigger] dl[i].entity_id == id;
            assert(obs[i].entity_id == id);
        }
        assert forall|id: int|
            roamer_id_present(obs, id) && id != last_id implies #[trigger] roamer_id_present(
            dl,
            id,
        ) by {
            let i = choose|i: int| 0 <= i < obs.len() && #[trigger] obs[i].entity_id == id;
            assert(dl[i].entity_id == id);
        }
        assert(roamer_id_present(obs, last_id)) by {
            assert(obs[obs.len() - 1].entity_id == last_id);
        }
        if !roamer_id_present(olds, last_id) {
            assert forall|id: int|
                #[trigger] roamer_id_present(merge_new_roamers(obs, olds), id) implies (
            roamer_id_present(obs, id) && !roamer_id_present(olds, id)) by {
                lemma_roamer_present_push(rest, obs.last(), id);
            }
            assert forall|id: int|
                roamer_id_present(obs, id) && !roamer_id_present(olds, id) implies #[trigger]
            roamer_id_present(merge_new_roamers(obs, olds), id) by {
                lemma_roamer_present_push(rest, obs.last(), id);
            }
            assert forall|i: int|
                0 <= i < merge_new_roamers(obs, olds).len() implies exists|j: int|
                0 <= j < obs.len() && #[trigger] merge_new_roamers(obs, olds)[i] == obs[j] by {
                if i < rest.len() {
                    let j = choose|j: int| 0 <= j < dl.len() && #[trigger] rest[i] == dl[j];
                    assert(merge_new_roamers(obs, olds)[i] == obs[j]);
                } else {
                    assert(merge_new_roamers(obs, olds)[i] == obs[obs.len() - 1]);
                }
            }
        } else {
            assert forall|i: int|
                0 <= i < merge_new_roamers(obs, olds).len() implies exists|j: int|
                0 <= j < obs.len() && #[trigger] merge_new_roamers(obs, olds)[i] == obs[j] by {
                let j = choose|j: int| 0 <= j < dl.len() && #[trigger] rest[i] == dl[j];
                assert(merge_new_roamers(obs, olds)[i] == obs[j]);
            }
        }
    }
}

/// The reconciled roamer set: its identities are exactly the observed
/// ones, every record is an observed record, identities stay unique, and
/// coordinates stay bounded.
pub proof fn lemma_merge_roamers_facts(olds: Seq<Roamer>, obs: Seq<Roamer>)
    requires
        unique_roamer_ids(olds),
        unique_roamer_ids(obs),
        roamers_bounded(obs),
    ensures
        forall|id: int|
            #[trigger] roamer_id_present(merge_roamers(olds, obs), id) <==> roamer_id_present(
                obs,
                id,
            ),
        unique_roamer_ids(merge_roamers(olds, obs)),
        roamers_bounded(merge_roamers(olds, obs)),
    decreases olds.len(),
{
    let kept = merge_kept_roamers(olds, obs);
    let fresh = merge_new_roamers(obs, olds);
    lemma_merge_kept_roamers_facts(olds, obs);
    lemma_merge_new_roamers_facts(obs, olds);
    assert forall|id: int|
        #[trigger] roamer_id_present(merge_roamers(olds, obs), id) <==> roamer_id_present(
        obs,
        id,
    ) by {
        lemma_roamer_present_concat(kept, fresh, id);
    }
    lemma_merge_kept_roamers_unique(olds, obs);
    lemma_merge_new_roamers_unique(obs, olds);
    assert forall|i: int, j: int|
        0 <= i < j < merge_roamers(olds, obs).len() implies #[trigger] merge_roamers(
        olds,
        obs,
    )[i].entity_id != #[trigger] merge_roamers(olds, obs)[j].entity_id by {
        if i < kept.len() && j >= kept.len() {
            let id = kept[i].entity_id as int;
            assert(roamer_id_present(kept, id)) by {
                assert(kept[i].entity_id == id);
            }
            assert(roamer_id_present(olds, id));
            if fresh[j - kept.len()].entity_id == id {
                assert(roamer_id_present(fresh, id)) by {
                    assert(fresh[j - kept.len()].entity_id == id);
                }
            }
        } else if j < kept.len() {
            assert(kept[i].entity_id != kept[j].entity_id);
        } else {
            assert(fresh[i - kept.len()].entity_id != fresh[j - kept.len()].entity_id);
        }
    }
    assert forall|i: int| 0 <= i < merge_roamers(olds, obs).len() implies in_bounds(
        #[trigger] merge_roamers(olds, obs)[i].coords,
    ) by {
        if i < kept.len() {
            assert(roamer_elem_of(merge_kept_roamers(olds, obs)[i], obs));
            let j = choose|j: int| 0 <= j < obs.len() && #[trigger] obs[j] == kept[i];
            assert(in_bounds(obs[j].coords));
        } else {
            let j = choose|j: int|
                0 <= j < obs.len() && #[trigger] fresh[i - kept.len()] == obs[j];
            assert(in_bounds(obs[j].coords));
        }
    }
}

/// Surviving roamers keep unique identities.
pub proof fn lemma_merge_kept_roamers_unique(olds: Seq<Roamer>, obs: Seq<Roamer>)
    requires
        unique_roamer_ids(olds),
    ensures
        unique_roamer_ids(merge_kept_roamers(olds, obs)),
    decreases olds.len(),
{
    if olds.len() > 0 {
        let dl = olds.drop_last();
        let rest = merge_kept_roamers(dl, obs);
        let last_id = olds.last().entity_id as int;
        assert(unique_roamer_ids(dl));
        lemma_merge_kept_roamers_unique(dl, obs);
        if roamer_id_present(obs, last_id) {
            lemma_merge_kept_roamers_facts(dl, obs);
            assert(!roamer_id_present(rest, last_id)) by {
                if roamer_id_present(rest, last_id) {
                    let i = choose|i: int|
                        0 <= i < dl.len() && #[trigger] dl[i].entity_id == last_id;
                    assert(olds[i].entity_id == olds[olds.len() - 1].entity_id);
                }
            }
            lemma_lookup_roamer_is_elem(obs, last_id);
            lemma_roamer_unique_push(rest, lookup_roamer(obs, last_id));
        }
    }
}

/// Inserted roamers keep unique identities.
pub proof fn lemma_merge_new_roamers_unique(obs: Seq<Roamer>, olds: Seq<Roamer>)
    requires
        unique_roamer_ids(obs),
    ensures
        unique_roamer_ids(merge_new_roamers(obs, olds)),
    decreases obs.len(),
{
    if obs.len() > 0 {
        let dl = obs.drop_last();
        let rest = merge_new_roamers(dl, olds);
        let last_id = obs.last().entity_id as int;
        assert(unique_roamer_ids(dl));
        lemma_merge_new_roamers_unique(dl, olds);
        if !roamer_id_present(olds, last_id) {
            lemma_merge_new_roamers_facts(dl, olds);
            assert(!roamer_id_present(rest, last_id)) by {
                if roamer_id_present(rest, last_id) {
                    let i = choose|i: int|
                        0 <= i < dl.len() && #[trigger] dl[i].entity_id == last_id;
                    assert(obs[i].entity_id == obs[obs.len() - 1].entity_id);
                }
            }
            lemma_roamer_unique_push(rest, obs.last());
        }
    }
}

/// Identity membership across a push, for unit records.
pub proof fn lemma_buster_present_push(s: Seq<Buster>, x: Buster, id: int)
    ensures
        buster_id_present(s.push(x), id) <==> (buster_id_present(s, id) || x.entity_id == id),
{
    if buster_id_present(s.push(x), id) {
        let i = choose|i: int| 0 <= i < s.push(x).len() && #[trigger] s.push(x)[i].entity_id == id;
        if i < s.len() {
            assert(s[i].entity_id == id);
        }
    }
    if buster_id_present(s, id) {
        let i = choose|i: int| 0 <= i < s.len() && #[trigger] s[i].entity_id == id;
        assert(s.push(x)[i].entity_id == id);
    }
    if x.entity_id == id {
        assert(s.push(x)[s.len() as int].entity_id == id);
    }
}

/// Identity membership across a concatenation, for unit records.
pub proof fn lemma_buster_present_concat(a: Seq<Buster>, b: Seq<Buster>, id: int)
    ensures
        buster_id_present(a + b, id) <==> (buster_id_present(a, id) || buster_id_present(b, id)),
{
    if buster_id_present(a + b, id) {
        let i = choose|i: int| 0 <= i < (a + b).len() && #[trigger] (a + b)[i].entity_id == id;
        if i < a.len() {
            assert(a[i].entity_id == id);
        } else {
            assert(b[i - a.len()].entity_id == id);
        }
    }
    if buster_id_present(a, id) {
        let i = choose|i: int| 0 <= i < a.len() && #[trigger] a[i].entity_id == id;
        assert((a + b)[i].entity_id == id);
    }
    if buster_id_present(b, id) {
        let i = choose|i: int| 0 <= i < b.len() && #[trigger] b[i].entity_id == id;
        assert((a + b)[a.len() + i].entity_id == id);
    }
}

/// Pushing a fresh identity preserves uniqueness, for unit records.
pub proof fn lemma_buster_unique_push(s: Seq<Buster>, x: Buster)
    requires
        unique_buster_ids(s),
        !buster_id_present(s, x.entity_id as int),
    ensures
        unique_buster_ids(s.push(x)),
{
    assert forall|i: int, j: int| 0 <= i < j < s.push(x).len() implies #[trigger] s.push(
        x,
    )[i].entity_id != #[trigger] s.push(x)[j].entity_id by {
        if j < s.len() {
            assert(s[i].entity_id != s[j].entity_id);
        } else {
            assert(s.push(x)[i] == s[i]);
        }
    }
}

/// The identities of surviving opposing units are those present both in
/// the persisted and in the observed set, and every surviving record is a
/// persisted record refreshed from an observed one.
pub proof fn lemma_merge_kept_busters_facts(olds: Seq<Buster>, obs: Seq<Buster>)
    ensures
        forall|id: int|
            #[trigger] buster_id_present(merge_kept_busters(olds, obs), id) <==> (
            buster_id_present(olds, id) && buster_id_present(obs, id)),
        forall|i: int|
            0 <= i < merge_kept_busters(olds, obs).len() ==> exists|jo: int, jn: int|
                0 <= jo < olds.len() && 0 <= jn < obs.len() && #[trigger] merge_kept_busters(
                    olds,
                    obs,
                )[i] == refresh_buster(olds[jo], obs[jn]),
    decreases olds.len(),
{
    if olds.len() > 0 {
        let dl = olds.drop_last();
        let rest = merge_kept_busters(dl, obs);
        let last_id = olds.last().entity_id as int;
        lemma_merge_kept_busters_facts(dl, obs);
        assert forall|id: int| #[trigger] buster_id_present(dl, id) implies buster_id_present(
            olds,
            id,
        ) by {
            let i = choose|i: int| 0 <= i < dl.len() && #[trigger] dl[i].entity_id == id;
            assert(olds[i].entity_id == id);
        }
        assert forall|id: int|
            buster_id_present(olds, id) && id != last_id implies #[trigger] buster_id_present(
            dl,
            id,
        ) by {
            let i = choose|i: int| 0 <= i < olds.len() && #[trigger] olds[i].entity_id == id;
            assert(dl[i].entity_id == id);
        }
        assert(buster_id_present(olds, last_id)) by {
            assert(olds[olds.len() - 1].entity_id == last_id);
        }
        if buster_id_present(obs, last_id) {
            lemma_lookup_buster_is_elem(obs, last_id);
            let pushed = refresh_buster(olds.last(), lookup_buster(obs, last_id));
            assert(pushed.entity_id == last_id);
            assert forall|id: int|
                #[trigger] buster_id_present(merge_kept_busters(olds, obs), id) implies (
            buster_id_present(olds, id) && buster_id_present(obs, id)) by {
                lemma_buster_present_push(rest, pushed, id);
            }
            assert forall|id: int|
                buster_id_present(olds, id) && buster_id_present(obs, id) implies #[trigger]
            buster_id_present(merge_kept_busters(olds, obs), id) by {
                lemma_buster_present_push(rest, pushed, id);
            }
            assert forall|i: int|
                0 <= i < merge_kept_busters(olds, obs).len() implies exists|jo: int, jn: int|
                0 <= jo < olds.len() && 0 <= jn < obs.len() && #[trigger] merge_kept_busters(
                    olds,
                    obs,
                )[i] == refresh_buster(olds[jo], obs[jn]) by {
                if i < rest.len() {
                    let (jo, jn) = choose|jo: int, jn: int|
                        0 <= jo < dl.len() && 0 <= jn < obs.len() && #[trigger] rest[i]
                            == refresh_buster(dl[jo], obs[jn]);
                    assert(merge_kept_busters(olds, obs)[i] == refresh_buster(olds[jo], obs[jn]));
                } else {
                    let jn = choose|jn: int|
                        0 <= jn < obs.len() && lookup_buster(obs, last_id) == obs[jn];
                    assert(merge_kept_busters(olds, obs)[i] == refresh_buster(
                        olds[olds.len() - 1],
                        obs[jn],
                    ));
                }
            }
        } else {
            assert forall|i: int|
                0 <= i < merge_kept_busters(olds, obs).len() implies exists|jo: int, jn: int|
                0 <= jo < olds.len() && 0 <= jn < obs.len() && #[trigger] merge_kept_busters(
                    olds,
                    obs,
                )[i] == refresh_buster(olds[jo], obs[jn]) by {
                let (jo, jn) = choose|jo: int, jn: int|
                    0 <= jo < dl.len() && 0 <= jn < obs.len() && #[trigger] rest[i]
                        == refresh_buster(dl[jo], obs[jn]);
                assert(merge_kept_busters(olds, obs)[i] == refresh_buster(olds[jo], obs[jn]));
            }
        }
    }
}

/// The identities of inserted opposing units are those observed but not
/// persisted, and the inserted records are observed records.
pub proof fn lemma_merge_new_busters_facts(obs: Seq<Buster>, olds: Seq<Buster>)
    ensures
        forall|id: int|
            #[trigger] buster_id_present(merge_new_busters(obs, olds), id) <==> (buster_id_present(
                obs,
                id,
            ) && !buster_id_present(olds, id)),
        forall|i: int|
            0 <= i < merge_new_busters(obs, olds).len() ==> exists|j: int|
                0 <= j < obs.len() && #[trigger] merge_new_busters(obs, olds)[i] == obs[j],
    decreases obs.len(),
{
    if obs.len() > 0 {
        let dl = obs.drop_last();
        let rest = merge_new_busters(dl, olds);
        let last_id = obs.last().entity_id as int;
        lemma_merge_new_busters_facts(dl, olds);
        assert forall|id: int| #[trigger] buster_id_present(dl, id) implies buster_id_present(
            obs,
            id,
        ) by {
            let i = choose|i: int| 0 <= i < dl.len() && #[trigger] dl[i].entity_id == id;
            assert(obs[i].entity_id == id);
        }
        assert forall|id: int|
            buster_id_present(obs, id) && id != last_id implies #[trigger] buster_id_present(
            dl,
            id,
        ) by {
            let i = choose|i: int| 0 <= i < obs.len() && #[trigger] obs[i].entity_id == id;
            assert(dl[i].entity_id == id);
        }
        assert(buster_id_present(obs, last_id)) by {
            assert(obs[obs.len() - 1].entity_id == last_id);
        }
        if !buster_id_present(olds, last_id) {
            assert forall|id: int|
                #[trigger] buster_id_present(merge_new_busters(obs, olds), id) implies (
            buster_id_present(obs, id) && !buster_id_present(olds, id)) by {
                lemma_buster_present_push(rest, obs.last(), id);
            }
            assert forall|id: int|
                buster_id_present(obs, id) && !buster_id_present(olds, id) implies #[trigger]
            buster_id_present(merge_new_busters(obs, olds), id) by {
                lemma_buster_present_push(rest, obs.last(), id);
            }
            assert forall|i: int|
                0 <= i < merge_new_busters(obs, olds).len() implies exists|j: int|
                0 <= j < obs.len() && #[trigger] merge_new_busters(obs, olds)[i] == obs[j] by {
                if i < rest.len() {
                    let j = choose|j: int| 0 <= j < dl.len() && #[trigger] rest[i] == dl[j];
                    assert(merge_new_busters(obs, olds)[i] == obs[j]);
                } else {
                    assert(merge_new_busters(obs, olds)[i] == obs[obs.len() - 1]);
                }
            }
        } else {
            assert forall|i: int|
                0 <= i < merge_new_busters(obs, olds).len() implies exists|j: int|
                0 <= j < obs.len() && #[trigger] merge_new_busters(obs, olds)[i] == obs[j] by {
                let j = choose|j: int| 0 <= j < dl.len() && #[trigger] rest[i] == dl[j];
                assert(merge_new_busters(obs, olds)[i] == obs[j]);
            }
        }
    }
}

/// Surviving opposing units keep unique identities.
pub proof fn lemma_merge_kept_busters_unique(olds: Seq<Buster>, obs: Seq<Buster>)
    requires
        unique_buster_ids(olds),
    ensures
        unique_buster_ids(merge_kept_busters(olds, obs)),
    decreases olds.len(),
{
    if olds.len() > 0 {
        let dl = olds.drop_last();
        let rest = merge_kept_busters(dl, obs);
        let last_id = olds.last().entity_id as int;
        assert(unique_buster_ids(dl));
        lemma_merge_kept_busters_unique(dl, obs);
        if buster_id_present(obs, last_id) {
            lemma_merge_kept_busters_facts(dl, obs);
            assert(!buster_id_present(rest, last_id)) by {
                if buster_id_present(rest, last_id) {
                    let i = choose|i: int|
                        0 <= i < dl.len() && #[trigger] dl[i].entity_id == last_id;
                    assert(olds[i].entity_id == olds[olds.len() - 1].entity_id);
                }
            }
            lemma_lookup_buster_is_elem(obs, last_id);
            lemma_buster_unique_push(
                rest,
                refresh_buster(olds.last(), lookup_buster(obs, last_id)),
            );
        }
    }
}

/// Inserted opposing units keep unique identities.
pub proof fn lemma_merge_new_busters_unique(obs: Seq<Buster>, olds: Seq<Buster>)
    requires
        unique_buster_ids(obs),
    ensures
        unique_buster_ids(merge_new_busters(obs, olds)),
    decreases obs.len(),
{
    if obs.len() > 0 {
        let dl = obs.drop_last();
        let rest = merge_new_busters(dl, olds);
        let last_id = obs.last().entity_id as int;
        assert(unique_buster_ids(dl));
        lemma_merge_new_busters_unique(dl, olds);
        if !buster_id_present(olds, last_id) {
            lemma_merge_new_busters_facts(dl, olds);
            assert(!buster_id_present(rest, last_id)) by {
                if buster_id_present(rest, last_id) {
                    let i = choose|i: int|
                        0 <= i < dl.len() && #[trigger] dl[i].entity_id == last_id;
                    assert(obs[i].entity_id == obs[obs.len() - 1].entity_id);
                }
            }
            lemma_buster_unique_push(rest, obs.last());
        }
    }
}

/// The reconciled opposing-unit set: its identities are exactly the
/// observed ones, identities stay unique, and every record is well-formed
/// when both inputs are.
pub proof fn lemma_merge_busters_facts(olds: Seq<Buster>, obs: Seq<Buster>)
    requires
        unique_buster_ids(olds),
        unique_buster_ids(obs),
        busters_ok(olds),
        busters_ok(obs),
    ensures
        forall|id: int|
            #[trigger] buster_id_present(merge_busters(olds, obs), id) <==> buster_id_present(
                obs,
                id,
            ),
        unique_buster_ids(merge_busters(olds, obs)),
        busters_ok(merge_busters(olds, obs)),
{
    let kept = merge_kept_busters(olds, obs);
    let fresh = merge_new_busters(obs, olds);
    lemma_merge_kept_busters_facts(olds, obs);
    lemma_merge_new_busters_facts(obs, olds);
    assert forall|id: int|
        #[trigger] buster_id_present(merge_busters(olds, obs), id) <==> buster_id_present(
        obs,
        id,
    ) by {
        lemma_buster_present_concat(kept, fresh, id);
    }
    lemma_merge_kept_busters_unique(olds, obs);
    lemma_merge_new_busters_unique(obs, olds);
    assert forall|i: int, j: int|
        0 <= i < j < merge_busters(olds, obs).len() implies #[trigger] merge_busters(
        olds,
        obs,
    )[i].entity_id != #[trigger] merge_busters(olds, obs)[j].entity_id by {
        if i < kept.len() && j >= kept.len() {
            let id = kept[i].entity_id as int;
            assert(buster_id_present(kept, id)) by {
                assert(kept[i].entity_id == id);
            }
            assert(buster_id_present(olds, id));
            if fresh[j - kept.len()].entity_id == id {
                assert(buster_id_present(fresh, id)) by {
                    assert(fresh[j - kept.len()].entity_id == id);
                }
            }
        } else if j < kept.len() {
            assert(kept[i].entity_id != kept[j].entity_id);
        } else {
            assert(fresh[i - kept.len()].entity_id != fresh[j - kept.len()].entity_id);
        }
    }
    assert forall|i: int| 0 <= i < merge_busters(olds, obs).len() implies in_bounds(
        #[trigger] merge_busters(olds, obs)[i].coords,
    ) && in_bounds(merge_busters(olds, obs)[i].movement_target) && merge_busters(
        olds,
        obs,
    )[i].stun_timer >= 0 by {
        if i < kept.len() {
            assert(exists|jo: int, jn: int|
                0 <= jo < olds.len() && 0 <= jn < obs.len() && #[trigger] merge_kept_busters(
                    olds,
                    obs,
                )[i] == refresh_buster(olds[jo], obs[jn]));
            let (jo, jn) = choose|jo: int, jn: int|
                0 <= jo < olds.len() && 0 <= jn < obs.len() && #[trigger] merge_kept_busters(
                    olds,
                    obs,
                )[i] == refresh_buster(olds[jo], obs[jn]);
            assert(0 <= jo < olds.len());
            assert(in_bounds(obs[jn].coords));
            assert(in_bounds(olds[jo].coords));
            assert(in_bounds(olds[jo].movement_target));
            assert(olds[jo].stun_timer >= 0);
            assert(kept[i] == refresh_buster(olds[jo], obs[jn]));
        } else {
            let j = choose|j: int|
                0 <= j < obs.len() && #[trigger] fresh[i - kept.len()] == obs[j];
            assert(in_bounds(obs[j].coords));
        }
    }
}

/// The anchor point of a formation: offset into the home corner for the
/// capture fan-out, into the opposite corner for camping.
pub open spec fn throw_anchor(upper_left_home: bool, is_camping: bool) -> Coord {
    if upper_left_home != is_camping {
        Coord { x: ORIGIN_THROWING_OFFSET, y: ORIGIN_THROWING_OFFSET }
    } else {
        Coord {
            x: (MAP_RIGHT_WALL - ORIGIN_THROWING_OFFSET) as i32,
            y: (MAP_BOTTOM_WALL - ORIGIN_THROWING_OFFSET) as i32,
        }
    }
}

/// Which quadrant a formation fans into.
pub open spec fn throw_down_right(upper_left_home: bool, is_camping: bool) -> bool {
    if is_camping {
        upper_left_home
    } else {
        !upper_left_home
    }
}

/// The radius of a formation.
pub open spec fn throw_radius(is_camping: bool) -> int {
    if is_camping {
        CAMPING_RADIUS as int
    } else {
        CAPTURE_RADIUS as int
    }
}

/// The pool of formation points generated for a squad of `count` units.
pub open spec fn throw_pool(upper_left_home: bool, count: nat, is_camping: bool) -> Seq<Coord> {
    Seq::new(
        count,
        |i: int|
            spec_throw_point(
                throw_anchor(upper_left_home, is_camping),
                count as int,
                i,
                throw_down_right(upper_left_home, is_camping),
                throw_radius(is_camping),
                is_camping,
            ),
    )
}

/// The index of the pool point nearest to `c`, ties broken in favor of the
/// earlier point.
pub open spec fn first_argmin(pool: Seq<Coord>, c: Coord) -> int
    recommends
        pool.len() > 0,
    decreases pool.len(),
{
    if pool.len() <= 1 {
        0
    } else {
        let rest = first_argmin(pool.drop_last(), c);
        if spec_dist(c, pool.last()) < spec_dist(c, pool[rest]) {
            pool.len() - 1
        } else {
            rest
        }
    }
}

/// The nearest-point index is a valid pool index.
pub proof fn lemma_first_argmin_in_range(pool: Seq<Coord>, c: Coord)
    requires
        pool.len() > 0,
    ensures
        0 <= first_argmin(pool, c) < pool.len(),
    decreases pool.len(),
{
    if pool.len() > 1 {
        lemma_first_argmin_in_range(pool.drop_last(), c);
    }
}

/// Greedy nearest-point matching: each unit in population order takes the
/// unassigned generated point nearest to it as its destination; a unit
/// with an exhausted pool keeps its old destination.
pub open spec fn greedy_targets(busters: Seq<Buster>, pool: Seq<Coord>) -> Seq<Buster>
    decreases busters.len(),
{
    if busters.len() == 0 {
        Seq::empty()
    } else if pool.len() == 0 {
        busters
    } else {
        let j = first_argmin(pool, busters[0].coords);
        seq![(Buster { movement_target: pool[j], ..busters[0] })] + greedy_targets(
            busters.drop_first(),
            pool.remove(j),
        )
    }
}

/// The tracked roamers, the broadcast list, the home orientation and the
/// round counter are untouched.
pub open spec fn fixed_sets(pre: StateMachine, post: StateMachine) -> bool {
    &&& post.all_ghosts == pre.all_ghosts
    &&& post.global_ping_stack == pre.global_ping_stack
    &&& post.upper_left_home == pre.upper_left_home
    &&& post.turn_count == pre.turn_count
}

/// Only controlled unit `b` changed, to `nb`; the opposing set is
/// untouched.
pub open spec fn same_but_unit(pre: StateMachine, post: StateMachine, b: int, nb: Buster) -> bool {
    &&& fixed_sets(pre, post)
    &&& post.bad_busters == pre.bad_busters
    &&& post.good_busters@ == pre.good_busters@.update(b, nb)
}

/// Controlled unit `b` claimed opposing unit `j` as its stun target and
/// moved to `new_state`: the opponent is marked as claimed, the unit
/// records the opponent's identity and drops any roamer target.
pub open spec fn claim_effect(
    pre: StateMachine,
    post: StateMachine,
    b: int,
    j: int,
    new_state: BusterState,
) -> bool {
    &&& fixed_sets(pre, post)
    &&& post.bad_busters@ == pre.bad_busters@.update(
        j,
        (Buster { state: BusterState::DeathMarked, ..pre.bad_busters@[j] }),
    )
    &&& post.good_busters@ == pre.good_busters@.update(
        b,
        (Buster {
            state: new_state,
            stunning_target_id: Some(pre.bad_busters@[j].entity_id),
            busting_target_id: None,
            ..pre.good_busters@[b]
        }),
    )
}

/// Re-establishes well-formedness after a transition that changed one
/// controlled unit and at most the behavioral states of opposing records.
#[verifier::spinoff_prover]
pub proof fn lemma_wf_after_unit_update(pre: StateMachine, post: StateMachine, b: int)
    requires
        pre.wf(),
        0 <= b < pre.good_busters@.len(),
        post.all_ghosts == pre.all_ghosts,
        post.global_ping_stack == pre.global_ping_stack,
        post.turn_count == pre.turn_count,
        post.bad_busters@.len() == pre.bad_busters@.len(),
        forall|j: int|
            0 <= j < pre.bad_busters@.len() ==> #[trigger] post.bad_busters@[j] == (Buster {
                state: post.bad_busters@[j].state,
                ..pre.bad_busters@[j]
            }),
        post.good_busters@.len() == pre.good_busters@.len(),
        forall|j: int|
            0 <= j < pre.good_busters@.len() && j != b ==> #[trigger] post.good_busters@[j]
                == pre.good_busters@[j],
        post.good_busters@[b].entity_id == pre.good_busters@[b].entity_id,
        in_bounds(post.good_busters@[b].coords),
        in_bounds(post.good_busters@[b].movement_target),
        post.good_busters@[b].stun_timer >= 0,
        post.good_busters@[b].state != BusterState::NotTargetted,
        post.good_busters@[b].state != BusterState::DeathMarked,
        target_refs_ok(post.good_busters@[b], post.all_ghosts@, post.bad_busters@),
    ensures
        post.wf(),
{
    assert forall|id: int| #[trigger] buster_id_present(pre.bad_busters@, id)
        implies buster_id_present(post.bad_busters@, id) by {
        let i = choose|i: int|
            0 <= i < pre.bad_busters@.len() && #[trigger] pre.bad_busters@[i].entity_id == id;
        assert(post.bad_busters@[i].entity_id == id);
    }
    assert forall|a: int, c: int| 0 <= a < c < post.good_busters@.len() implies #[trigger]
    post.good_busters@[a].entity_id != #[trigger] post.good_busters@[c].entity_id by {
        assert(pre.good_busters@[a].entity_id != pre.good_busters@[c].entity_id);
    }
    assert forall|a: int, c: int| 0 <= a < c < post.bad_busters@.len() implies #[trigger]
    post.bad_busters@[a].entity_id != #[trigger] post.bad_busters@[c].entity_id by {
        assert(pre.bad_busters@[a].entity_id != pre.bad_busters@[c].entity_id);
        assert(post.bad_busters@[a] == (Buster {
            state: post.bad_busters@[a].state,
            ..pre.bad_busters@[a]
        }));
        assert(post.bad_busters@[c] == (Buster {
            state: post.bad_busters@[c].state,
            ..pre.bad_busters@[c]
        }));
    }
    assert forall|j: int| 0 <= j < post.bad_busters@.len() implies in_bounds(
        #[trigger] post.bad_busters@[j].coords,
    ) && in_bounds(post.bad_busters@[j].movement_target) && post.bad_busters@[j].stun_timer
        >= 0 by {
        assert(in_bounds(pre.bad_busters@[j].coords));
        assert(in_bounds(pre.bad_busters@[j].movement_target));
        assert(pre.bad_busters@[j].stun_timer >= 0);
        assert(post.bad_busters@[j] == (Buster {
            state: post.bad_busters@[j].state,
            ..pre.bad_busters@[j]
        }));
    }
    assert forall|j: int| 0 <= j < post.good_busters@.len() implies in_bounds(
        #[trigger] post.good_busters@[j].coords,
    ) && in_bounds(post.good_busters@[j].movement_target) && post.good_busters@[j].stun_timer >= 0
        && post.good_busters@[j].state != BusterState::NotTargetted && post.good_busters@[j].state
        != BusterState::DeathMarked by {
        if j != b {
            assert(in_bounds(pre.good_busters@[j].coords));
            assert(in_bounds(pre.good_busters@[j].movement_target));
            assert(pre.good_busters@[j].stun_timer >= 0);
            assert(pre.good_busters@[j].state != BusterState::NotTargetted);
            assert(pre.good_busters@[j].state != BusterState::DeathMarked);
        }
    }
    assert forall|j: int| 0 <= j < post.good_busters@.len() implies target_refs_ok(
        #[trigger] post.good_busters@[j],
        post.all_ghosts@,
        post.bad_busters@,
    ) by {
        if j != b {
            assert(target_refs_ok(pre.good_busters@[j], pre.all_ghosts@, pre.bad_busters@));
            match post.good_busters@[j].stunning_target_id {
                Some(id) => {
                    assert(buster_id_present(pre.bad_busters@, id as int));
                },
                None => {},
            }
        }
    }
}

/// Only one controlled unit changed, and opposing records changed at most
/// in their behavioral state: the shape every single-unit transition has.
pub open spec fn transition_frame(pre: StateMachine, post: StateMachine, b: int) -> bool {
    &&& fixed_sets(pre, post)
    &&& post.good_busters@.len() == pre.good_busters@.len()
    &&& forall|j: int|
        0 <= j < pre.good_busters@.len() && j != b ==> #[trigger] post.good_busters@[j]
            == pre.good_busters@[j]
    &&& post.bad_busters@.len() == pre.bad_busters@.len()
    &&& forall|j: int|
        0 <= j < pre.bad_busters@.len() ==> #[trigger] post.bad_busters@[j] == (Buster {
            state: post.bad_busters@[j].state,
            ..pre.bad_busters@[j]
        })
}

/// The capturing-state transition: home with a held roamer, after a newly
/// appeared stunnable opponent, or back to searching when the target is
/// gone.
pub open spec fn busting_rel(pre: StateMachine, post: StateMachine, b: int) -> bool {
    let ob = pre.good_busters@[b];
    if ob.has_ghost {
        same_but_unit(pre, post, b, (Buster { state: BusterState::MovingToHome, ..ob }))
    } else if pre.any_opp_candidate(ob) {
        exists|j: int|
            #[trigger] pre.is_best_opp(ob, j) && claim_effect(
                pre,
                post,
                b,
                j,
                BusterState::MovingToAsshole,
            )
    } else {
        same_but_unit(pre, post, b, (Buster { state: BusterState::Searching, ..ob }))
    }
}

/// The stunning-state transition: a successful stun releases the claim
/// and marks the opponent as no longer claimed; an expired cooldown or a
/// vanished target falls back.
pub open spec fn stunning_rel(pre: StateMachine, post: StateMachine, b: int) -> bool {
    let ob = pre.good_busters@[b];
    if !spec_can_stun(ob) {
        same_but_unit(pre, post, b, (Buster { state: BusterState::Searching, ..ob }))
    } else {
        match ob.stunning_target_id {
            Some(id) => exists|j: int|
                {
                    &&& 0 <= j < pre.bad_busters@.len()
                    &&& #[trigger] pre.bad_busters@[j].entity_id == id
                    &&& forall|k: int| 0 <= k < j ==> pre.bad_busters@[k].entity_id != id
                    &&& fixed_sets(pre, post)
                    &&& post.bad_busters@ == pre.bad_busters@.update(
                        j,
                        (Buster { state: BusterState::NotTargetted, ..pre.bad_busters@[j] }),
                    )
                    &&& post.good_busters@ == pre.good_busters@.update(
                        b,
                        (Buster {
                            state: BusterState::Searching,
                            stunning_target_id: None,
                            ..ob
                        }),
                    )
                },
            None => same_but_unit(
                pre,
                post,
                b,
                (Buster { state: BusterState::MovingToAsshole, ..ob }),
            ),
        }
    }
}

/// The searching-state transition, in priority order: camping time forces
/// the camp move; a reached destination draws a fresh random one; a
/// stunnable opponent is claimed; a sighted roamer is targeted; a
/// broadcast roamer is stolen; otherwise nothing changes.
pub open spec fn searching_rel(pre: StateMachine, post: StateMachine, b: int) -> bool {
    let ob = pre.good_busters@[b];
    if pre.turn_count >= START_CAMPING_TURN {
        same_but_unit(pre, post, b, (Buster { state: BusterState::MovingToCamp, ..ob }))
    } else if ob.coords == ob.movement_target {
        &&& fixed_sets(pre, post)
        &&& post.bad_busters == pre.bad_busters
        &&& post.good_busters@ == pre.good_busters@.update(
            b,
            (Buster { movement_target: post.good_busters@[b].movement_target, ..ob }),
        )
        &&& 0 <= post.good_busters@[b].movement_target.x < MAP_RIGHT_WALL
        &&& 0 <= post.good_busters@[b].movement_target.y < MAP_BOTTOM_WALL
    } else if pre.any_opp_candidate(ob) {
        exists|j: int|
            #[trigger] pre.is_best_opp(ob, j) && claim_effect(
                pre,
                post,
                b,
                j,
                BusterState::MovingToAsshole,
            )
    } else if pre.any_ghost_in_los(ob) {
        exists|gi: int|
            #[trigger] pre.is_first_best_ghost(ob, gi) && same_but_unit(
                pre,
                post,
                b,
                (Buster {
                    state: BusterState::MovingToGhost,
                    busting_target_id: Some(pre.all_ghosts@[gi].entity_id),
                    ..ob
                }),
            )
    } else if pre.turn_count >= TURNS_UNTIL_GLOBAL_PICKS && pre.global_ping_stack@.len() > 0 {
        exists|k0: int|
            #[trigger] pre.is_steal_pick(ob, k0) && same_but_unit(
                pre,
                post,
                b,
                (Buster {
                    state: BusterState::MovingToGhost,
                    busting_target_id: Some(pre.global_ping_stack@[k0]),
                    ..ob
                }),
            )
    } else {
        post == pre
    }
}

/// The moving-to-roamer transition: a strictly more attractive best
/// roamer only retargets; otherwise a stunnable opponent is claimed, or
/// the unit engages its target — backing away if too close, capturing if
/// in the annulus — or falls back to searching when the target is gone.
pub open spec fn ghost_move_rel(pre: StateMachine, post: StateMachine, b: int) -> bool {
    let ob = pre.good_busters@[b];
    if exists|gi: int| #[trigger] pre.strictly_better_ghost(ob, gi) {
        exists|gi: int|
            #[trigger] pre.strictly_better_ghost(ob, gi) && same_but_unit(
                pre,
                post,
                b,
                (Buster { busting_target_id: Some(pre.all_ghosts@[gi].entity_id), ..ob }),
            )
    } else if pre.any_opp_candidate(ob) {
        exists|j: int|
            #[trigger] pre.is_best_opp(ob, j) && claim_effect(
                pre,
                post,
                b,
                j,
                BusterState::MovingToAsshole,
            )
    } else {
        match ob.busting_target_id {
            Some(id) => same_but_unit(
                pre,
                post,
                b,
                (Buster {
                    state: if spec_is_too_close(lookup_roamer(pre.all_ghosts@, id as int), ob) {
                        BusterState::MovingAwayFromGhost
                    } else {
                        BusterState::Busting
                    },
                    ..ob
                }),
            ),
            None => same_but_unit(pre, post, b, (Buster { state: BusterState::Searching, ..ob })),
        }
    }
}

/// The backing-away transition: a strictly different best roamer
/// retargets first; then a stunnable opponent is claimed, or the unit
/// returns to capturing or approaching its target, or to searching when
/// the target is gone.
pub open spec fn ghost_away_rel(pre: StateMachine, post: StateMachine, b: int) -> bool {
    let ob = pre.good_busters@[b];
    let retarget = exists|gi: int|
        #[trigger] pre.is_first_best_ghost(ob, gi) && Some(pre.all_ghosts@[gi].entity_id)
            != ob.busting_target_id;
    let ib = if retarget {
        Buster {
            busting_target_id: Some(
                pre.all_ghosts@[choose|gi: int| pre.is_first_best_ghost(ob, gi)].entity_id,
            ),
            ..ob
        }
    } else {
        ob
    };
    if pre.any_opp_candidate(ob) {
        exists|j: int|
            #[trigger] pre.is_best_opp(ob, j) && claim_effect(
                pre,
                post,
                b,
                j,
                BusterState::MovingToAsshole,
            )
    } else {
        match ib.busting_target_id {
            Some(id) => same_but_unit(
                pre,
                post,
                b,
                (Buster {
                    state: if spec_is_bustable(lookup_roamer(pre.all_ghosts@, id as int), ob) {
                        BusterState::Busting
                    } else {
                        BusterState::MovingToGhost
                    },
                    ..ib
                }),
            ),
            None => same_but_unit(pre, post, b, (Buster { state: BusterState::Searching, ..ib })),
        }
    }
}

/// The camping-state transition: the first sighted roamer is targeted; a
/// carrying opponent is claimed; a broadcast roamer is stolen; otherwise
/// the unit falls back to searching, the universal safe fallback.
pub open spec fn camping_rel(pre: StateMachine, post: StateMachine, b: int) -> bool {
    let ob = pre.good_busters@[b];
    if pre.any_ghost_in_los(ob) {
        exists|gi: int|
            {
                &&& 0 <= gi < pre.all_ghosts@.len()
                &&& roamer_in_los(#[trigger] pre.all_ghosts@[gi], ob)
                &&& forall|k: int| 0 <= k < gi ==> !roamer_in_los(pre.all_ghosts@[k], ob)
                &&& same_but_unit(
                    pre,
                    post,
                    b,
                    (Buster {
                        state: BusterState::MovingToGhost,
                        busting_target_id: Some(pre.all_ghosts@[gi].entity_id),
                        ..ob
                    }),
                )
            }
    } else if pre.any_camp_opp(ob) {
        exists|j: int|
            #[trigger] pre.camp_opp(j, ob) && (forall|k: int| 0 <= k < j ==> !pre.camp_opp(k, ob))
                && claim_effect(pre, post, b, j, BusterState::MovingToAsshole)
    } else if pre.turn_count >= TURNS_UNTIL_GLOBAL_PICKS && pre.global_ping_stack@.len() > 0 {
        exists|k0: int|
            #[trigger] pre.is_steal_pick(ob, k0) && same_but_unit(
                pre,
                post,
                b,
                (Buster {
                    state: BusterState::MovingToGhost,
                    busting_target_id: Some(pre.global_ping_stack@[k0]),
                    ..ob
                }),
            )
    } else {
        same_but_unit(pre, post, b, (Buster { state: BusterState::Searching, ..ob }))
    }
}

/// The moving-to-camp transition: settling at the camp point, else as for
/// camping.
pub open spec fn camp_move_rel(pre: StateMachine, post: StateMachine, b: int) -> bool {
    let ob = pre.good_busters@[b];
    if ob.coords == ob.movement_target {
        same_but_unit(pre, post, b, (Buster { state: BusterState::Camping, ..ob }))
    } else {
        camping_rel(pre, post, b)
    }
}

/// One transition step of unit `b`: the state-appropriate transition
/// relation, selected by the unit's current state.
pub open spec fn step_rel(pre: StateMachine, post: StateMachine, b: int) -> bool {
    let ob = pre.good_busters@[b];
    match ob.state {
        BusterState::Idle => same_but_unit(
            pre,
            post,
            b,
            (Buster { state: BusterState::Searching, ..ob }),
        ),
        BusterState::Searching => searching_rel(pre, post, b),
        BusterState::Busting => busting_rel(pre, post, b),
        BusterState::MovingToHome => same_but_unit(
            pre,
            post,
            b,
            (Buster {
                state: if ob.has_ghost {
                    BusterState::Releasing
                } else {
                    BusterState::Searching
                },
                ..ob
            }),
        ),
        BusterState::MovingAwayFromGhost => ghost_away_rel(pre, post, b),
        BusterState::MovingToAsshole => same_but_unit(
            pre,
            post,
            b,
            (Buster {
                state: if ob.stunning_target_id is Some {
                    BusterState::Stunning
                } else {
                    BusterState::Searching
                },
                ..ob
            }),
        ),
        BusterState::Stunning => stunning_rel(pre, post, b),
        BusterState::MovingToGhost => ghost_move_rel(pre, post, b),
        BusterState::Releasing => same_but_unit(
            pre,
            post,
            b,
            (Buster { state: BusterState::Searching, ..ob }),
        ),
        BusterState::Stunned => same_but_unit(
            pre,
            post,
            b,
            (Buster { state: BusterState::Searching, ..ob }),
        ),
        BusterState::MovingToCamp => camp_move_rel(pre, post, b),
        BusterState::Camping => camping_rel(pre, post, b),
        BusterState::NotTargetted => post == pre,
        BusterState::DeathMarked => post == pre,
    }
}

/// A transition chain of unit `b`: every machine state but the last was
/// due for a transition of unit `b`, and each successor came out of one
/// step of it.
pub open spec fn is_slide_trace(trace: Seq<StateMachine>, b: int) -> bool {
    &&& trace.len() >= 1
    &&& forall|i: int|
        0 <= i < trace.len() - 1 ==> (#[trigger] trace[i]).spec_should_transition(
            trace[i].good_busters@[b],
        ) && step_rel(trace[i], trace[i + 1], b)
}

/// The multiset of movement destinations of a squad.
pub open spec fn destinations_ms(s: Seq<Buster>) -> Multiset<Coord>
    decreases s.len(),
{
    if s.len() == 0 {
        Multiset::empty()
    } else {
        destinations_ms(s.drop_first()).insert(s[0].movement_target)
    }
}

/// Greedy formation assignment hands every unit a distinct generated
/// point: with exactly as many points as units, the destinations after
/// assignment are, as a multiset, exactly the generated points.
pub proof fn lemma_greedy_assignment_distinct(busters: Seq<Buster>, pool: Seq<Coord>)
    requires
        pool.len() == busters.len(),
    ensures
        destinations_ms(greedy_targets(busters, pool)) == pool.to_multiset(),
    decreases busters.len(),
{
    broadcast use vstd::seq_lib::group_to_multiset_ensures;

    if busters.len() == 0 {
        assert(greedy_targets(busters, pool) =~= Seq::<Buster>::empty());
        assert(pool.to_multiset() =~= Multiset::<Coord>::empty()) by {
            assert forall|c: Coord| pool.to_multiset().count(c) == 0 by {
                if pool.to_multiset().count(c) > 0 {
                    assert(pool.contains(c));
                }
            }
        }
    } else {
        let j = first_argmin(pool, busters[0].coords);
        lemma_first_argmin_in_range(pool, busters[0].coords);
        let u0 = Buster { movement_target: pool[j], ..busters[0] };
        let r1 = greedy_targets(busters.drop_first(), pool.remove(j));
        let r = greedy_targets(busters, pool);
        lemma_greedy_assignment_distinct(busters.drop_first(), pool.remove(j));
        assert(r == seq![u0] + r1);
        assert(r[0] == u0);
        assert(r.drop_first() =~= r1);
        assert(destinations_ms(r) == destinations_ms(r1).insert(pool[j]));
        assert(pool.remove(j).to_multiset() =~= pool.to_multiset().remove(pool[j]));
        assert(pool.contains(pool[j]));
        assert(pool.to_multiset().count(pool[j]) > 0);
        assert(pool.to_multiset().remove(pool[j]).insert(pool[j]) =~= pool.to_multiset());
    }
}

/// Round trip of reconciliation: when every tracked roamer is observed
/// again with unchanged fields and nothing new is observed, the tracked
/// set comes out identical — same records, same identities, no
/// reinsertion.
pub proof fn lemma_reconcile_round_trip(olds: Seq<Roamer>, obs: Seq<Roamer>)
    requires
        unique_roamer_ids(olds),
        unique_roamer_ids(obs),
        forall|i: int|
            0 <= i < olds.len() ==> roamer_id_present(obs, #[trigger] olds[i].entity_id as int)
                && lookup_roamer(obs, olds[i].entity_id as int) == olds[i],
        forall|i: int|
            0 <= i < obs.len() ==> roamer_id_present(olds, #[trigger] obs[i].entity_id as int),
    ensures
        merge_roamers(olds, obs) == olds,
{
    lemma_merge_kept_roamers_round_trip(olds, obs);
    lemma_merge_new_roamers_empty(obs, olds);
    assert(merge_roamers(olds, obs) =~= olds);
}

/// Helper for the round trip: the surviving records are the persisted
/// records themselves.
proof fn lemma_merge_kept_roamers_round_trip(olds: Seq<Roamer>, obs: Seq<Roamer>)
    requires
        forall|i: int|
            0 <= i < olds.len() ==> roamer_id_present(obs, #[trigger] olds[i].entity_id as int)
                && lookup_roamer(obs, olds[i].entity_id as int) == olds[i],
    ensures
        merge_kept_roamers(olds, obs) =~= olds,
    decreases olds.len(),
{
    if olds.len() > 0 {
        let dl = olds.drop_last();
        assert forall|i: int|
            0 <= i < dl.len() implies roamer_id_present(obs, #[trigger] dl[i].entity_id as int)
            && lookup_roamer(obs, dl[i].entity_id as int) == dl[i] by {
            assert(olds[i] == dl[i]);
        }
        lemma_merge_kept_roamers_round_trip(dl, obs);
        assert(olds[olds.len() - 1] == olds.last());
    }
}

/// Helper for the round trip: nothing is inserted when everything
/// observed is already tracked.
proof fn lemma_merge_new_roamers_empty(obs: Seq<Roamer>, olds: Seq<Roamer>)
    requires
        forall|i: int|
            0 <= i < obs.len() ==> roamer_id_present(olds, #[trigger] obs[i].entity_id as int),
    ensures
        merge_new_roamers(obs, olds) =~= Seq::<Roamer>::empty(),
    decreases obs.len(),
{
    if obs.len() > 0 {
        let dl = obs.drop_last();
        assert forall|i: int|
            0 <= i < dl.len() implies roamer_id_present(
            olds,
            #[trigger] dl[i].entity_id as int,
        ) by {
            assert(obs[i] == dl[i]);
        }
        lemma_merge_new_roamers_empty(dl, olds);
        assert(obs[obs.len() - 1] == obs.last());
    }
}

/// Once one unit claims an opponent as its stun target, that opponent is
/// excluded from every unit's stun-target queries for the round.
pub proof fn lemma_claimed_opponent_excluded(
    pre: StateMachine,
    post: StateMachine,
    b: int,
    j: int,
    st: BusterState,
)
    requires
        0 <= j < pre.bad_busters@.len(),
        claim_effect(pre, post, b, j, st),
    ensures
        forall|b2: Buster| !post.opp_candidate(j, b2),
        forall|b2: Buster| !post.camp_opp(j, b2),
{
    assert(post.bad_busters@[j].state == BusterState::DeathMarked);
}

/// Once the round counter reaches the camping threshold, every searching
/// unit's transition predicate fires, whatever else holds, and the
/// searching transition sends the unit toward its camp point.
pub proof fn lemma_camping_time_forces_transition(
    pre: StateMachine,
    post: StateMachine,
    b: int,
    u: Buster,
)
    requires
        pre.turn_count >= START_CAMPING_TURN,
        0 <= b < pre.good_busters@.len(),
        searching_rel(pre, post, b),
    ensures
        pre.spec_searching_test(u),
        post.good_busters@[b].state == BusterState::MovingToCamp,
{
}

/// The persistent decision engine: home-corner orientation, the three
/// tracked entity populations, the squad-wide broadcast list of targeted
/// roamer identities, and the round counter.
pub struct StateMachine {
    pub upper_left_home: bool,
    pub all_ghosts: Vec<Roamer>,
    pub good_busters: Vec<Buster>,
    pub bad_busters: Vec<Buster>,
    pub global_ping_stack: Vec<i32>,
    pub turn_count: i32,
}

impl StateMachine {
    /// Every target reference of every controlled unit names a tracked
    /// entity.
    pub open spec fn targets_valid(self) -> bool {
        forall|k: int|
            0 <= k < self.good_busters@.len() ==> target_refs_ok(
                #[trigger] self.good_busters@[k],
                self.all_ghosts@,
                self.bad_busters@,
            )
    }

    /// Every identity on the broadcast list names a tracked roamer.
    pub open spec fn ping_valid(self) -> bool {
        forall|k: int|
            0 <= k < self.global_ping_stack@.len() ==> roamer_id_present(
                self.all_ghosts@,
                #[trigger] self.global_ping_stack@[k] as int,
            )
    }

    /// Well-formedness of the tracked sets: unique identities, bounded
    /// coordinates, non-negative cooldowns and round counter, controlled
    /// units in controlled states, and no dangling target reference.
    pub open spec fn wf0(self) -> bool {
        &&& unique_roamer_ids(self.all_ghosts@)
        &&& unique_buster_ids(self.good_busters@)
        &&& unique_buster_ids(self.bad_busters@)
        &&& roamers_bounded(self.all_ghosts@)
        &&& busters_ok(self.good_busters@)
        &&& busters_ok(self.bad_busters@)
        &&& controlled_states(self.good_busters@)
        &&& self.targets_valid()
        &&& 0 <= self.turn_count
    }

    /// Full well-formedness: the tracked sets plus the broadcast list.
    pub open spec fn wf(self) -> bool {
        self.wf0() && self.ping_valid()
    }

    /// A fresh engine for the squad whose home corner is the top-left one
    /// exactly when `team_id` is zero.
    pub fn new(team_id: i32) -> (r: StateMachine)
        ensures
            r.upper_left_home == (team_id == 0),
            r.all_ghosts@.len() == 0,
            r.good_busters@.len() == 0,
            r.bad_busters@.len() == 0,
            r.global_ping_stack@.len() == 0,
            r.turn_count == 0,
            r.wf(),
    {
        StateMachine {
            upper_left_home: team_id == 0,
            all_ghosts: Vec::new(),
            good_busters: Vec::new(),
            bad_busters: Vec::new(),
            global_ping_stack: Vec::new(),
            turn_count: 0,
        }
    }

    /// The index of the first tracked roamer with the given identity.
    pub fn find_roamer_index(&self, id: i32) -> (r: Option<usize>)
        ensures
            match r {
                Some(i) => 0 <= i < self.all_ghosts@.len() && self.all_ghosts@[i as int].entity_id
                    == id && (forall|j: int|
                    0 <= j < i ==> #[trigger] self.all_ghosts@[j].entity_id != id) && lookup_roamer(
                    self.all_ghosts@,
                    id as int,
                ) == self.all_ghosts@[i as int],
                None => !roamer_id_present(self.all_ghosts@, id as int),
            },
    {
        let n = self.all_ghosts.len();
        let mut i: usize = 0;
        while i < n
            invariant
                n == self.all_ghosts@.len(),
                i <= n,
                forall|j: int| 0 <= j < i ==> #[trigger] self.all_ghosts@[j].entity_id != id,
            decreases n - i,
        {
            if self.all_ghosts[i].entity_id == id {
                proof {
                    lemma_lookup_roamer_first(self.all_ghosts@, id as int, i as int);
                }
                return Some(i);
            }
            i = i + 1;
        }
        None
    }

    /// Merges a freshly observed roamer snapshot into the tracked set:
    /// updates persisted records in place by identity, removes the ones
    /// absent from the snapshot — severing any unit's reference to them —
    /// and inserts first sightings.
    pub fn update_ghosts(&mut self, new_ghosts: Vec<Roamer>)
        requires
            old(self).wf0(),
            unique_roamer_ids(new_ghosts@),
            roamers_bounded(new_ghosts@),
        ensures
            final(self).all_ghosts@ == merge_roamers(old(self).all_ghosts@, new_ghosts@),
            final(self).good_busters@ == prune_busting_targets(old(self).good_busters@, new_ghosts@),
            final(self).bad_busters == old(self).bad_busters,
            final(self).global_ping_stack == old(self).global_ping_stack,
            final(self).upper_left_home == old(self).upper_left_home,
            final(self).turn_count == old(self).turn_count,
            final(self).wf0(),
    {
        let ghost old_good = self.good_busters@;
        let ghost old_gs = self.all_ghosts@;
        let ghost obs = new_ghosts@;
        // Sever the roamer target of every unit whose target is absent
        // from the snapshot.
        let m = self.good_busters.len();
        let mut k: usize = 0;
        while k < m
            invariant
                m == old_good.len(),
                k <= m,
                self.good_busters@.len() == m,
                self.all_ghosts@ == old_gs,
                self.bad_busters == old(self).bad_busters,
                self.global_ping_stack == old(self).global_ping_stack,
                self.upper_left_home == old(self).upper_left_home,
                self.turn_count == old(self).turn_count,
                obs == new_ghosts@,
                forall|j: int| k <= j < m ==> self.good_busters@[j] == old_good[j],
                forall|j: int|
                    0 <= j < k ==> self.good_busters@[j] == prune_busting_target(old_good[j], obs),
            decreases m - k,
        {
            let b = self.good_busters[k];
            match b.busting_target_id {
                Some(id) => {
                    if find_roamer_in(&new_ghosts, id).is_none() {
                        let mut nb = b;
                        nb.busting_target_id = None;
                        self.good_busters[k] = nb;
                    }
                },
                None => {},
            }
            k = k + 1;
        }
        proof {
            assert(self.good_busters@ =~= prune_busting_targets(old_good, obs));
        }
        // Rebuild the tracked set: survivors in persisted order, updated in
        // place, then first sightings in observed order.
        let n = self.all_ghosts.len();
        let mut merged: Vec<Roamer> = Vec::new();
        let mut i: usize = 0;
        while i < n
            invariant
                n == old_gs.len(),
                i <= n,
                self.all_ghosts@ == old_gs,
                obs == new_ghosts@,
                merged@ == merge_kept_roamers(old_gs.take(i as int), obs),
            decreases n - i,
        {
            let gid = self.all_ghosts[i].entity_id;
            proof {
                assert(old_gs.take(i + 1).drop_last() =~= old_gs.take(i as int));
                assert(old_gs.take(i + 1).last() == old_gs[i as int]);
            }
            match find_roamer_in(&new_ghosts, gid) {
                Some(j) => {
                    merged.push(new_ghosts[j]);
                },
                None => {},
            }
            i = i + 1;
        }
        proof {
            assert(old_gs.take(n as int) =~= old_gs);
        }
        let count_new = new_ghosts.len();
        let mut i2: usize = 0;
        while i2 < count_new
            invariant
                count_new == obs.len(),
                i2 <= count_new,
                self.all_ghosts@ == old_gs,
                obs == new_ghosts@,
                merged@ == merge_kept_roamers(old_gs, obs) + merge_new_roamers(
                    obs.take(i2 as int),
                    old_gs,
                ),
            decreases count_new - i2,
        {
            let g = new_ghosts[i2];
            proof {
                assert(obs.take(i2 + 1).drop_last() =~= obs.take(i2 as int));
                assert(obs.take(i2 + 1).last() == obs[i2 as int]);
            }
            match self.find_roamer_index(g.entity_id) {
                Some(_) => {
                    proof {
                        assert(roamer_id_present(old_gs, g.entity_id as int));
                    }
                },
                None => {
                    merged.push(g);
                    proof {
                        assert(merged@ =~= merge_kept_roamers(old_gs, obs) + merge_new_roamers(
                            obs.take(i2 + 1),
                            old_gs,
                        ));
                    }
                },
            }
            i2 = i2 + 1;
        }
        proof {
            assert(obs.take(count_new as int) =~= obs);
        }
        self.all_ghosts = merged;
        proof {
            lemma_merge_roamers_facts(old_gs, obs);
            assert forall|j: int| 0 <= j < self.good_busters@.len() implies in_bounds(
                #[trigger] self.good_busters@[j].coords,
            ) && in_bounds(self.good_busters@[j].movement_target) && self.good_busters@[j].stun_timer
                >= 0 && self.good_busters@[j].state != BusterState::NotTargetted
                && self.good_busters@[j].state != BusterState::DeathMarked by {
                assert(in_bounds(old(self).good_busters@[j].coords));
                assert(in_bounds(old(self).good_busters@[j].movement_target));
                assert(old(self).good_busters@[j].stun_timer >= 0);
                assert(old(self).good_busters@[j].state != BusterState::NotTargetted);
                assert(old(self).good_busters@[j].state != BusterState::DeathMarked);
                assert(old_good[j] == old(self).good_busters@[j]);
            }
            assert forall|a: int, b: int| 0 <= a < b < self.good_busters@.len() implies #[trigger]
            self.good_busters@[a].entity_id != #[trigger] self.good_busters@[b].entity_id by {
                assert(old(self).good_busters@[a].entity_id != old(self).good_busters@[b].entity_id);
                assert(self.good_busters@[a].entity_id == old(self).good_busters@[a].entity_id);
                assert(self.good_busters@[b].entity_id == old(self).good_busters@[b].entity_id);
            }
            assert forall|j: int| 0 <= j < self.good_busters@.len() implies target_refs_ok(
                #[trigger] self.good_busters@[j],
                self.all_ghosts@,
                self.bad_busters@,
            ) by {
                assert(target_refs_ok(old(self).good_busters@[j], old_gs, old(self).bad_busters@));
                assert(self.good_busters@[j] == prune_busting_target(old(self).good_busters@[j], obs));
            }
        }
    }

    /// Refreshes the controlled units from an observed snapshot: position
    /// and flags are copied onto each unit's persisted record by identity;
    /// the population itself never changes.
    pub fn update_good(&mut self, new_busters: Vec<Buster>)
        requires
            old(self).wf0(),
            unique_buster_ids(new_busters@),
            busters_ok(new_busters@),
        ensures
            final(self).good_busters@ == refresh_good(old(self).good_busters@, new_busters@),
            final(self).all_ghosts == old(self).all_ghosts,
            final(self).bad_busters == old(self).bad_busters,
            final(self).global_ping_stack == old(self).global_ping_stack,
            final(self).upper_left_home == old(self).upper_left_home,
            final(self).turn_count == old(self).turn_count,
            final(self).wf0(),
    {
        let ghost old_good = self.good_busters@;
        let ghost obs = new_busters@;
        let m = self.good_busters.len();
        let mut k: usize = 0;
        while k < m
            invariant
                m == old_good.len(),
                k <= m,
                self.good_busters@.len() == m,
                self.all_ghosts == old(self).all_ghosts,
                self.bad_busters == old(self).bad_busters,
                self.global_ping_stack == old(self).global_ping_stack,
                self.upper_left_home == old(self).upper_left_home,
                self.turn_count == old(self).turn_count,
                obs == new_busters@,
                forall|j: int| k <= j < m ==> self.good_busters@[j] == old_good[j],
                forall|j: int|
                    0 <= j < k ==> self.good_busters@[j] == refresh_good(old_good, obs)[j],
            decreases m - k,
        {
            let b = self.good_busters[k];
            match find_buster_in(&new_busters, b.entity_id) {
                Some(j) => {
                    let mut nb = b;
                    nb.transfer_buster_data(&new_busters[j]);
                    self.good_busters[k] = nb;
                    proof {
                        assert(buster_id_present(obs, b.entity_id as int)) by {
                            assert(obs[j as int].entity_id == b.entity_id);
                        }
                    }
                },
                None => {},
            }
            k = k + 1;
        }
        proof {
            assert(self.good_busters@ =~= refresh_good(old_good, obs));
            assert forall|j: int| 0 <= j < self.good_busters@.len() implies in_bounds(
                #[trigger] self.good_busters@[j].coords,
            ) && in_bounds(self.good_busters@[j].movement_target) && self.good_busters@[j].stun_timer
                >= 0 && self.good_busters@[j].state != BusterState::NotTargetted
                && self.good_busters@[j].state != BusterState::DeathMarked by {
                assert(in_bounds(old(self).good_busters@[j].coords));
                assert(in_bounds(old(self).good_busters@[j].movement_target));
                assert(old(self).good_busters@[j].stun_timer >= 0);
                assert(old(self).good_busters@[j].state != BusterState::NotTargetted);
                assert(old(self).good_busters@[j].state != BusterState::DeathMarked);
                assert(old_good[j] == old(self).good_busters@[j]);
                if buster_id_present(obs, old_good[j].entity_id as int) {
                    lemma_lookup_buster_is_elem(obs, old_good[j].entity_id as int);
                    let w = choose|w: int|
                        0 <= w < obs.len() && lookup_buster(obs, old_good[j].entity_id as int)
                            == obs[w];
                    assert(in_bounds(obs[w].coords));
                }
            }
            assert forall|a: int, b: int| 0 <= a < b < self.good_busters@.len() implies #[trigger]
            self.good_busters@[a].entity_id != #[trigger] self.good_busters@[b].entity_id by {
                assert(old(self).good_busters@[a].entity_id != old(self).good_busters@[b].entity_id);
                assert(self.good_busters@[a].entity_id == old(self).good_busters@[a].entity_id);
                assert(self.good_busters@[b].entity_id == old(self).good_busters@[b].entity_id);
            }
            assert forall|j: int| 0 <= j < self.good_busters@.len() implies target_refs_ok(
                #[trigger] self.good_busters@[j],
                self.all_ghosts@,
                self.bad_busters@,
            ) by {
                assert(target_refs_ok(old(self).good_busters@[j], old(self).all_ghosts@, old(self).bad_busters@));
                assert(old_good[j] == old(self).good_busters@[j]);
            }
        }
    }

    /// Merges a freshly observed opposing-unit snapshot into the tracked
    /// set: refreshes persisted records in place by identity, removes the
    /// ones absent from the snapshot — severing any controlled unit's stun
    /// target on them — and inserts first sightings.
    pub fn update_evil(&mut self, new_busters: Vec<Buster>)
        requires
            old(self).wf0(),
            unique_buster_ids(new_busters@),
            busters_ok(new_busters@),
        ensures
            final(self).bad_busters@ == merge_busters(old(self).bad_busters@, new_busters@),
            final(self).good_busters@ == prune_stunning_targets(
                old(self).good_busters@,
                new_busters@,
            ),
            final(self).all_ghosts == old(self).all_ghosts,
            final(self).global_ping_stack == old(self).global_ping_stack,
            final(self).upper_left_home == old(self).upper_left_home,
            final(self).turn_count == old(self).turn_count,
            final(self).wf0(),
    {
        let ghost old_good = self.good_busters@;
        let ghost old_bad = self.bad_busters@;
        let ghost obs = new_busters@;
        // Sever the stun target of every unit whose target is absent from
        // the snapshot.
        let m = self.good_busters.len();
        let mut k: usize = 0;
        while k < m
            invariant
                m == old_good.len(),
                k <= m,
                self.good_busters@.len() == m,
                self.all_ghosts == old(self).all_ghosts,
                self.bad_busters@ == old_bad,
                self.global_ping_stack == old(self).global_ping_stack,
                self.upper_left_home == old(self).upper_left_home,
                self.turn_count == old(self).turn_count,
                obs == new_busters@,
                forall|j: int| k <= j < m ==> self.good_busters@[j] == old_good[j],
                forall|j: int|
                    0 <= j < k ==> self.good_busters@[j] == prune_stunning_target(old_good[j], obs),
            decreases m - k,
        {
            let b = self.good_busters[k];
            match b.stunning_target_id {
                Some(id) => {
                    if find_buster_in(&new_busters, id).is_none() {
                        let mut nb = b;
                        nb.stunning_target_id = None;
                        self.good_busters[k] = nb;
                    }
                },
                None => {},
            }
            k = k + 1;
        }
        proof {
            assert(self.good_busters@ =~= prune_stunning_targets(old_good, obs));
        }
        // Rebuild the tracked set: survivors in persisted order, refreshed
        // in place, then first sightings in observed order.
        let n = self.bad_busters.len();
        let mut merged: Vec<Buster> = Vec::new();
        let mut i: usize = 0;
        while i < n
            invariant
                n == old_bad.len(),
                i <= n,
                self.bad_busters@ == old_bad,
                obs == new_busters@,
                merged@ == merge_kept_busters(old_bad.take(i as int), obs),
            decreases n - i,
        {
            let oid = self.bad_busters[i].entity_id;
            proof {
                assert(old_bad.take(i + 1).drop_last() =~= old_bad.take(i as int));
                assert(old_bad.take(i + 1).last() == old_bad[i as int]);
            }
            match find_buster_in(&new_busters, oid) {
                Some(j) => {
                    let mut ob = self.bad_busters[i];
                    ob.transfer_buster_data(&new_busters[j]);
                    merged.push(ob);
                },
                None => {},
            }
            i = i + 1;
        }
        proof {
            assert(old_bad.take(n as int) =~= old_bad);
        }
        let count_new = new_busters.len();
        let mut i2: usize = 0;
        while i2 < count_new
            invariant
                count_new == obs.len(),
                i2 <= count_new,
                self.bad_busters@ == old_bad,
                obs == new_busters@,
                merged@ == merge_kept_busters(old_bad, obs) + merge_new_busters(
                    obs.take(i2 as int),
                    old_bad,
                ),
            decreases count_new - i2,
        {
            let o = new_busters[i2];
            proof {
                assert(obs.take(i2 + 1).drop_last() =~= obs.take(i2 as int));
                assert(obs.take(i2 + 1).last() == obs[i2 as int]);
            }
            match self.find_bad_index(o.entity_id) {
                Some(_) => {
                    proof {
                        assert(buster_id_present(old_bad, o.entity_id as int));
                    }
                },
                None => {
                    merged.push(o);
                    proof {
                        assert(merged@ =~= merge_kept_busters(old_bad, obs) + merge_new_busters(
                            obs.take(i2 + 1),
                            old_bad,
                        ));
                    }
                },
            }
            i2 = i2 + 1;
        }
        proof {
            assert(obs.take(count_new as int) =~= obs);
        }
        self.bad_busters = merged;
        proof {
            lemma_merge_busters_facts(old_bad, obs);
            assert forall|j: int| 0 <= j < self.good_busters@.len() implies in_bounds(
                #[trigger] self.good_busters@[j].coords,
            ) && in_bounds(self.good_busters@[j].movement_target) && self.good_busters@[j].stun_timer
                >= 0 && self.good_busters@[j].state != BusterState::NotTargetted
                && self.good_busters@[j].state != BusterState::DeathMarked by {
                assert(in_bounds(old(self).good_busters@[j].coords));
                assert(in_bounds(old(self).good_busters@[j].movement_target));
                assert(old(self).good_busters@[j].stun_timer >= 0);
                assert(old(self).good_busters@[j].state != BusterState::NotTargetted);
                assert(old(self).good_busters@[j].state != BusterState::DeathMarked);
                assert(old_good[j] == old(self).good_busters@[j]);
            }
            assert forall|a: int, b: int| 0 <= a < b < self.good_busters@.len() implies #[trigger]
            self.good_busters@[a].entity_id != #[trigger] self.good_busters@[b].entity_id by {
                assert(old(self).good_busters@[a].entity_id != old(self).good_busters@[b].entity_id);
                assert(self.good_busters@[a].entity_id == old(self).good_busters@[a].entity_id);
                assert(self.good_busters@[b].entity_id == old(self).good_busters@[b].entity_id);
            }
            assert forall|j: int| 0 <= j < self.good_busters@.len() implies target_refs_ok(
                #[trigger] self.good_busters@[j],
                self.all_ghosts@,
                self.bad_busters@,
            ) by {
                assert(target_refs_ok(old(self).good_busters@[j], old(self).all_ghosts@, old_bad));
                assert(self.good_busters@[j] == prune_stunning_target(old(self).good_busters@[j], obs));
            }
        }
    }

    /// The pool of generated formation points, one per controlled unit.
    pub open spec fn spec_throw_pool(self, is_camping: bool) -> Seq<Coord> {
        throw_pool(self.upper_left_home, self.good_busters@.len(), is_camping)
    }

    /// Generates the formation points for the current squad and assigns
    /// them to the units by greedy nearest-point matching.
    pub fn throw_and_assign_coords(&mut self, is_camping: bool)
        requires
            old(self).wf0(),
            old(self).good_busters@.len() <= 1000,
        ensures
            final(self).good_busters@ == greedy_targets(
                old(self).good_busters@,
                old(self).spec_throw_pool(is_camping),
            ),
            final(self).all_ghosts == old(self).all_ghosts,
            final(self).bad_busters == old(self).bad_busters,
            final(self).global_ping_stack == old(self).global_ping_stack,
            final(self).upper_left_home == old(self).upper_left_home,
            final(self).turn_count == old(self).turn_count,
            final(self).wf0(),
            old(self).ping_valid() ==> final(self).ping_valid(),
    {
        let ghost old_good = self.good_busters@;
        let ghost pool0 = self.spec_throw_pool(is_camping);
        let num = self.good_busters.len();
        let origin = if self.upper_left_home != is_camping {
            Coord::new(ORIGIN_THROWING_OFFSET, ORIGIN_THROWING_OFFSET)
        } else {
            Coord::new(
                MAP_RIGHT_WALL - ORIGIN_THROWING_OFFSET,
                MAP_BOTTOM_WALL - ORIGIN_THROWING_OFFSET,
            )
        };
        let down_right = if is_camping {
            self.upper_left_home
        } else {
            !self.upper_left_home
        };
        let radius = if is_camping {
            CAMPING_RADIUS
        } else {
            CAPTURE_RADIUS
        };
        let mut pool: Vec<Coord> = origin.throw_coords(num, down_right, radius, is_camping);
        proof {
            assert(pool@ =~= pool0);
            assert(old_good.skip(0) =~= old_good);
            assert(self.good_busters@.take(0) =~= Seq::<Buster>::empty());
            assert(Seq::<Buster>::empty() + greedy_targets(old_good, pool0) =~= greedy_targets(
                old_good,
                pool0,
            ));
        }
        let mut k: usize = 0;
        while k < num
            invariant
                num == old_good.len(),
                k <= num,
                self.good_busters@.len() == num,
                pool@.len() == num - k,
                self.all_ghosts == old(self).all_ghosts,
                self.bad_busters == old(self).bad_busters,
                self.global_ping_stack == old(self).global_ping_stack,
                self.upper_left_home == old(self).upper_left_home,
                self.turn_count == old(self).turn_count,
                busters_ok(old_good),
                forall|i: int| 0 <= i < pool@.len() ==> in_bounds(#[trigger] pool@[i]),
                forall|j: int| k <= j < num ==> self.good_busters@[j] == old_good[j],
                forall|j: int|
                    0 <= j < k ==> #[trigger] self.good_busters@[j] == (Buster {
                        movement_target: self.good_busters@[j].movement_target,
                        ..old_good[j]
                    }) && in_bounds(self.good_busters@[j].movement_target),
                greedy_targets(old_good, pool0) == self.good_busters@.take(k as int)
                    + greedy_targets(old_good.skip(k as int), pool@),
            decreases num - k,
        {
            let c = self.good_busters[k].coords;
            let ghost pre_pool = pool@;
            proof {
                assert(in_bounds(old_good[k as int].coords));
            }
            let pn = pool.len();
            let mut best: usize = 0;
            let mut best_dist: i32 = c.distance_to(&pool[0]);
            let mut t: usize = 1;
            while t < pn
                invariant
                    pn == pool@.len(),
                    0 < pn,
                    1 <= t <= pn,
                    0 <= best < t,
                    in_bounds(c),
                    forall|i: int| 0 <= i < pool@.len() ==> in_bounds(#[trigger] pool@[i]),
                    best_dist as int == spec_dist(c, pool@[best as int]),
                    best as int == first_argmin(pool@.take(t as int), c),
                decreases pn - t,
            {
                proof {
                    assert(pool@.take(t + 1).drop_last() =~= pool@.take(t as int));
                    assert(pool@.take(t + 1).last() == pool@[t as int]);
                    lemma_first_argmin_in_range(pool@.take(t as int), c);
                    assert(pool@.take(t + 1)[best as int] == pool@[best as int]);
                }
                let d = c.distance_to(&pool[t]);
                if d < best_dist {
                    best = t;
                    best_dist = d;
                }
                t = t + 1;
            }
            proof {
                assert(pool@.take(pn as int) =~= pool@);
                assert(best as int == first_argmin(pool@, c));
            }
            let ghost pre_good = self.good_busters@;
            let chosen = pool.remove(best);
            let mut b = self.good_busters[k];
            b.movement_target.set(&chosen);
            self.good_busters[k] = b;
            proof {
                let bs = old_good.skip(k as int);
                assert(bs[0] == old_good[k as int]);
                assert(bs[0] == pre_good[k as int]);
                assert(bs.drop_first() =~= old_good.skip(k + 1));
                assert(pool@ == pre_pool.remove(best as int));
                assert(chosen == pre_pool[best as int]);
                assert(b == (Buster { movement_target: chosen, ..bs[0] }));
                assert(greedy_targets(bs, pre_pool) == seq![b] + greedy_targets(
                    old_good.skip(k + 1),
                    pool@,
                ));
                assert(self.good_busters@.take(k as int) =~= pre_good.take(k as int));
                assert(self.good_busters@.take(k + 1) =~= pre_good.take(k as int).push(b));
                assert(pre_good.take(k as int) + (seq![b] + greedy_targets(
                    old_good.skip(k + 1),
                    pool@,
                )) =~= self.good_busters@.take(k + 1) + greedy_targets(
                    old_good.skip(k + 1),
                    pool@,
                ));
            }
            k = k + 1;
        }
        proof {
            assert(old_good.skip(num as int) =~= Seq::<Buster>::empty());
            assert(self.good_busters@.take(num as int) =~= self.good_busters@);
            assert(self.good_busters@ == greedy_targets(old_good, pool0));
            assert forall|j: int| 0 <= j < self.good_busters@.len() implies in_bounds(
                #[trigger] self.good_busters@[j].coords,
            ) && in_bounds(self.good_busters@[j].movement_target) && self.good_busters@[j].stun_timer
                >= 0 && self.good_busters@[j].state != BusterState::NotTargetted
                && self.good_busters@[j].state != BusterState::DeathMarked by {
                assert(in_bounds(old(self).good_busters@[j].coords));
                assert(in_bounds(old(self).good_busters@[j].movement_target));
                assert(old(self).good_busters@[j].stun_timer >= 0);
                assert(old(self).good_busters@[j].state != BusterState::NotTargetted);
                assert(old(self).good_busters@[j].state != BusterState::DeathMarked);
                assert(old_good[j] == old(self).good_busters@[j]);
            }
            assert forall|a: int, b: int| 0 <= a < b < self.good_busters@.len() implies #[trigger]
            self.good_busters@[a].entity_id != #[trigger] self.good_busters@[b].entity_id by {
                assert(old(self).good_busters@[a].entity_id != old(
                    self,
                ).good_busters@[b].entity_id);
                assert(old_good[a] == old(self).good_busters@[a]);
                assert(old_good[b] == old(self).good_busters@[b]);
            }
            assert forall|j: int| 0 <= j < self.good_busters@.len() implies target_refs_ok(
                #[trigger] self.good_busters@[j],
                self.all_ghosts@,
                self.bad_busters@,
            ) by {
                assert(target_refs_ok(
                    old(self).good_busters@[j],
                    old(self).all_ghosts@,
                    old(self).bad_busters@,
                ));
                assert(old_good[j] == old(self).good_busters@[j]);
            }
        }
    }

    /// A roamer too resistant for the early game is only engageable once
    /// the broadcast threshold has passed; easier roamers always are.
    pub open spec fn spec_ghost_difficulty(self, g: Roamer) -> bool {
        g.stamina > 15 ==> self.turn_count >= TURNS_UNTIL_GLOBAL_PICKS
    }

    /// Some tracked roamer is within sensing range of `b`.
    pub open spec fn any_ghost_in_los(self, b: Buster) -> bool {
        exists|i: int|
            0 <= i < self.all_ghosts@.len() && roamer_in_los(#[trigger] self.all_ghosts@[i], b)
    }

    /// Some tracked roamer within sensing range of `b` also passes the
    /// difficulty gate.
    pub open spec fn any_gated_ghost_in_los(self, b: Buster) -> bool {
        exists|i: int|
            0 <= i < self.all_ghosts@.len() && roamer_in_los(#[trigger] self.all_ghosts@[i], b)
                && self.spec_ghost_difficulty(self.all_ghosts@[i])
    }

    /// Opposing unit `j` is a stun candidate for `b`: in sensing range, not
    /// already claimed by a teammate, not already incapacitated, and `b`'s
    /// cooldown permits action.
    pub open spec fn opp_candidate(self, j: int, b: Buster) -> bool {
        &&& 0 <= j < self.bad_busters@.len()
        &&& opp_in_los(self.bad_busters@[j], b)
        &&& self.bad_busters@[j].state != BusterState::DeathMarked
        &&& spec_can_stun(b)
        &&& !self.bad_busters@[j].is_stunned
    }

    /// Some opposing unit is a stun candidate for `b`.
    pub open spec fn any_opp_candidate(self, b: Buster) -> bool {
        exists|j: int| self.opp_candidate(j, b)
    }

    /// The camping variant of the stun-candidate test: it demands a carried
    /// roamer instead of ruling out incapacitated opponents.
    pub open spec fn camp_opp(self, j: int, b: Buster) -> bool {
        &&& 0 <= j < self.bad_busters@.len()
        &&& opp_in_los(self.bad_busters@[j], b)
        &&& self.bad_busters@[j].state != BusterState::DeathMarked
        &&& spec_can_stun(b)
        &&& self.bad_busters@[j].has_ghost
    }

    /// Some opposing unit passes the camping stun test for `b`.
    pub open spec fn any_camp_opp(self, b: Buster) -> bool {
        exists|j: int| self.camp_opp(j, b)
    }

    /// Index `i` is the roamer the perception query returns for `b`: in
    /// sensing range, of minimal difficulty key, and the first such.
    pub open spec fn is_first_best_ghost(self, b: Buster, i: int) -> bool {
        &&& 0 <= i < self.all_ghosts@.len()
        &&& roamer_in_los(self.all_ghosts@[i], b)
        &&& forall|j: int|
            0 <= j < self.all_ghosts@.len() && roamer_in_los(#[trigger] self.all_ghosts@[j], b)
                ==> ghost_key(self.all_ghosts@[i]) <= ghost_key(self.all_ghosts@[j])
        &&& forall|j: int|
            0 <= j < i && roamer_in_los(#[trigger] self.all_ghosts@[j], b) ==> ghost_key(
                self.all_ghosts@[j],
            ) > ghost_key(self.all_ghosts@[i])
    }

    /// Roamer `gi` is a strictly more attractive target for `b` than its
    /// current one: it is the best roamer in sensing range, it differs
    /// from the current target, and it beats the current target strictly
    /// on the difficulty key `max(resistance, 3)` (trivially so when `b`
    /// has no target).
    pub open spec fn strictly_better_ghost(self, b: Buster, gi: int) -> bool {
        &&& self.is_first_best_ghost(b, gi)
        &&& Some(self.all_ghosts@[gi].entity_id) != b.busting_target_id
        &&& match b.busting_target_id {
            Some(cur) => ghost_key(self.all_ghosts@[gi]) < ghost_key(
                lookup_roamer(self.all_ghosts@, cur as int),
            ),
            None => true,
        }
    }

    /// Index `j` is the opposing unit the targeting query returns for `b`:
    /// the first candidate carrying a roamer, else the first candidate when
    /// no candidate carries one.
    pub open spec fn is_best_opp(self, b: Buster, j: int) -> bool {
        &&& self.opp_candidate(j, b)
        &&& if self.bad_busters@[j].has_ghost {
            forall|k: int|
                0 <= k < j && #[trigger] self.opp_candidate(k, b)
                    ==> !self.bad_busters@[k].has_ghost
        } else {
            (forall|k: int| #[trigger] self.opp_candidate(k, b)
                ==> !self.bad_busters@[k].has_ghost) && (forall|k: int|
                0 <= k < j ==> !self.opp_candidate(k, b))
        }
    }

    /// Whether the roamer passes the difficulty gate this round.
    pub fn ghost_difficulty_test(&self, ghost: &Roamer) -> (r: bool)
        ensures
            r == self.spec_ghost_difficulty(*ghost),
    {
        if ghost.stamina > 15 {
            self.turn_count >= TURNS_UNTIL_GLOBAL_PICKS
        } else {
            true
        }
    }

    /// The first tracked roamer within sensing range of `buster`, if any.
    pub fn find_ghost_in_radius_of_buster(&self, buster: &Buster) -> (r: Option<usize>)
        requires
            roamers_bounded(self.all_ghosts@),
            in_bounds(buster.coords),
        ensures
            match r {
                Some(i) => 0 <= i < self.all_ghosts@.len() && roamer_in_los(
                    self.all_ghosts@[i as int],
                    *buster,
                ) && (forall|j: int|
                    0 <= j < i ==> !roamer_in_los(#[trigger] self.all_ghosts@[j], *buster)),
                None => !self.any_ghost_in_los(*buster),
            },
    {
        let n = self.all_ghosts.len();
        let mut i: usize = 0;
        while i < n
            invariant
                n == self.all_ghosts@.len(),
                i <= n,
                roamers_bounded(self.all_ghosts@),
                in_bounds(buster.coords),
                forall|j: int| 0 <= j < i ==> !roamer_in_los(#[trigger] self.all_ghosts@[j], *buster),
            decreases n - i,
        {
            if self.all_ghosts[i].coords.is_in_radius(&buster.coords, LINE_OF_SIGHT_RADIUS) {
                return Some(i);
            }
            i = i + 1;
        }
        None
    }

    /// The best roamer within sensing range of `buster`: minimal difficulty
    /// key `max(resistance, 3)`, ties broken in favor of the first found.
    pub fn find_best_ghost_in_los(&self, buster: &Buster) -> (r: Option<usize>)
        requires
            roamers_bounded(self.all_ghosts@),
            in_bounds(buster.coords),
        ensures
            match r {
                Some(i) => self.is_first_best_ghost(*buster, i as int),
                None => !self.any_ghost_in_los(*buster),
            },
    {
        let n = self.all_ghosts.len();
        let mut best: Option<usize> = None;
        let mut best_key: i32 = 0;
        let mut i: usize = 0;
        while i < n
            invariant
                n == self.all_ghosts@.len(),
                i <= n,
                roamers_bounded(self.all_ghosts@),
                in_bounds(buster.coords),
                match best {
                    None => forall|j: int|
                        0 <= j < i ==> !roamer_in_los(#[trigger] self.all_ghosts@[j], *buster),
                    Some(bi) => {
                        &&& 0 <= bi < i
                        &&& roamer_in_los(self.all_ghosts@[bi as int], *buster)
                        &&& best_key as int == ghost_key(self.all_ghosts@[bi as int])
                        &&& forall|j: int|
                            0 <= j < i && roamer_in_los(#[trigger] self.all_ghosts@[j], *buster)
                                ==> best_key as int <= ghost_key(self.all_ghosts@[j])
                        &&& forall|j: int|
                            0 <= j < bi && roamer_in_los(#[trigger] self.all_ghosts@[j], *buster)
                                ==> ghost_key(self.all_ghosts@[j]) > best_key as int
                    },
                },
            decreases n - i,
        {
            if self.all_ghosts[i].coords.is_in_radius(&buster.coords, LINE_OF_SIGHT_RADIUS) {
                let g = self.all_ghosts[i];
                let key: i32 = if g.stamina >= 3 {
                    g.stamina
                } else {
                    3
                };
                let better = match best {
                    None => true,
                    Some(_) => key < best_key,
                };
                if better {
                    best = Some(i);
                    best_key = key;
                }
            }
            i = i + 1;
        }
        best
    }

    /// The opposing unit `buster` should move to stun: prefers a candidate
    /// carrying a roamer, otherwise takes the first candidate; nothing if
    /// `buster`'s cooldown forbids action or no candidate is in range.
    pub fn find_best_asshole_in_los(&self, buster: &Buster) -> (r: Option<usize>)
        requires
            busters_ok(self.bad_busters@),
            in_bounds(buster.coords),
        ensures
            match r {
                Some(j) => self.is_best_opp(*buster, j as int),
                None => !self.any_opp_candidate(*buster),
            },
    {
        let n = self.bad_busters.len();
        let mut first_cand: Option<usize> = None;
        let mut first_carrier: Option<usize> = None;
        let mut i: usize = 0;
        while i < n
            invariant
                n == self.bad_busters@.len(),
                i <= n,
                busters_ok(self.bad_busters@),
                in_bounds(buster.coords),
                match first_cand {
                    None => forall|j: int| 0 <= j < i ==> !self.opp_candidate(j, *buster),
                    Some(c) => {
                        &&& 0 <= c < i
                        &&& self.opp_candidate(c as int, *buster)
                        &&& forall|j: int| 0 <= j < c ==> !self.opp_candidate(j, *buster)
                    },
                },
                match first_carrier {
                    None => forall|j: int|
                        0 <= j < i && #[trigger] self.opp_candidate(j, *buster)
                            ==> !self.bad_busters@[j].has_ghost,
                    Some(c) => {
                        &&& 0 <= c < i
                        &&& self.opp_candidate(c as int, *buster)
                        &&& self.bad_busters@[c as int].has_ghost
                        &&& forall|j: int|
                            0 <= j < c && #[trigger] self.opp_candidate(j, *buster)
                                ==> !self.bad_busters@[j].has_ghost
                    },
                },
            decreases n - i,
        {
            let o = self.bad_busters[i];
            let is_cand = o.coords.is_in_radius(&buster.coords, LINE_OF_SIGHT_RADIUS) && !matches!(
                o.state,
                BusterState::DeathMarked,
            ) && buster.can_stun() && !o.is_stunned;
            if is_cand {
                if first_cand.is_none() {
                    first_cand = Some(i);
                }
                if first_carrier.is_none() && o.has_ghost {
                    first_carrier = Some(i);
                }
            }
            i = i + 1;
        }
        match first_carrier {
            Some(j) => Some(j),
            None => first_cand,
        }
    }

    /// Rebuilds the squad-wide broadcast list: the roamer targets of all
    /// controlled units, in unit order.
    pub fn do_global_ping(&mut self)
        ensures
            final(self).global_ping_stack@ == targets_of(old(self).good_busters@),
            final(self).all_ghosts == old(self).all_ghosts,
            final(self).good_busters == old(self).good_busters,
            final(self).bad_busters == old(self).bad_busters,
            final(self).upper_left_home == old(self).upper_left_home,
            final(self).turn_count == old(self).turn_count,
    {
        let n = self.good_busters.len();
        let mut temp: Vec<i32> = Vec::new();
        let mut k: usize = 0;
        while k < n
            invariant
                n == self.good_busters@.len(),
                k <= n,
                temp@ == targets_of(self.good_busters@.take(k as int)),
            decreases n - k,
        {
            proof {
                assert(self.good_busters@.take(k + 1).drop_last() =~= self.good_busters@.take(
                    k as int,
                ));
                assert(self.good_busters@.take(k + 1).last() == self.good_busters@[k as int]);
            }
            match self.good_busters[k].busting_target_id {
                Some(id) => {
                    temp.push(id);
                },
                None => {
                    proof {
                        assert(temp@ =~= targets_of(self.good_busters@.take(k + 1)));
                    }
                },
            }
            k = k + 1;
        }
        proof {
            assert(self.good_busters@.take(n as int) =~= self.good_busters@);
        }
        self.global_ping_stack = temp;
    }

    /// Rounded distance from `b` to the roamer named by broadcast entry
    /// `k`.
    pub open spec fn ping_entry_dist(self, b: Buster, k: int) -> int {
        spec_dist(b.coords, lookup_roamer(self.all_ghosts@, self.global_ping_stack@[k] as int).coords)
    }

    /// Broadcast entry `k0` is the one the steal query picks for `b`:
    /// minimal distance, ties broken in favor of the first entry.
    pub open spec fn is_steal_pick(self, b: Buster, k0: int) -> bool {
        &&& 0 <= k0 < self.global_ping_stack@.len()
        &&& forall|k: int|
            0 <= k < self.global_ping_stack@.len() ==> self.ping_entry_dist(b, k0)
                <= #[trigger] self.ping_entry_dist(b, k)
        &&& forall|k: int|
            0 <= k < k0 ==> #[trigger] self.ping_entry_dist(b, k) > self.ping_entry_dist(b, k0)
    }

    /// After the broadcast threshold, the identity of the broadcast roamer
    /// closest to `buster`; nothing before the threshold or when the list
    /// is empty.
    pub fn steal_target_ghost_reference(&self, buster: &Buster) -> (r: Option<i32>)
        requires
            self.wf(),
            in_bounds(buster.coords),
        ensures
            r is Some <==> (self.turn_count >= TURNS_UNTIL_GLOBAL_PICKS
                && self.global_ping_stack@.len() > 0),
            match r {
                Some(id) => roamer_id_present(self.all_ghosts@, id as int) && exists|k0: int|
                    self.is_steal_pick(*buster, k0) && self.global_ping_stack@[k0] == id,
                None => true,
            },
    {
        if self.turn_count < TURNS_UNTIL_GLOBAL_PICKS {
            return None;
        }
        let n = self.global_ping_stack.len();
        let mut best_id: Option<i32> = None;
        let mut best_dist: i32 = i32::MAX;
        let ghost mut best_k: int = 0;
        let mut k: usize = 0;
        while k < n
            invariant
                self.wf(),
                in_bounds(buster.coords),
                n == self.global_ping_stack@.len(),
                k <= n,
                match best_id {
                    None => k == 0 && best_dist == i32::MAX,
                    Some(id) => {
                        &&& 0 <= best_k < k
                        &&& self.global_ping_stack@[best_k] == id
                        &&& best_dist as int == self.ping_entry_dist(*buster, best_k)
                        &&& roamer_id_present(self.all_ghosts@, id as int)
                        &&& forall|j: int|
                            0 <= j < k ==> best_dist as int <= #[trigger] self.ping_entry_dist(
                                *buster,
                                j,
                            )
                        &&& forall|j: int|
                            0 <= j < best_k ==> #[trigger] self.ping_entry_dist(*buster, j)
                                > best_dist as int
                    },
                },
            decreases n - k,
        {
            let id = self.global_ping_stack[k];
            let gi = match self.find_roamer_index(id) {
                Some(gi) => gi,
                None => {
                    proof {
                        assert(roamer_id_present(self.all_ghosts@, id as int));
                    }
                    unreached()
                },
            };
            let d = buster.coords.distance_to(&self.all_ghosts[gi].coords);
            proof {
                assert(lookup_roamer(self.all_ghosts@, id as int) == self.all_ghosts@[gi as int]);
                assert(d as int == self.ping_entry_dist(*buster, k as int));
            }
            if d < best_dist {
                best_id = Some(id);
                best_dist = d;
                proof {
                    best_k = k as int;
                }
            }
            k = k + 1;
        }
        proof {
            if n > 0 {
                assert(best_id is Some);
            }
            if best_id is Some {
                assert(self.is_steal_pick(*buster, best_k));
            }
        }
        best_id
    }

    /// Claims opposing unit `asshole` as the stun target of controlled unit
    /// `buster`: marks the opponent so no teammate re-targets it this
    /// round, records it on the unit, and clears the unit's roamer target.
    pub fn set_asshole_target(&mut self, asshole: usize, buster: usize)
        requires
            asshole < old(self).bad_busters@.len(),
            buster < old(self).good_busters@.len(),
        ensures
            final(self).bad_busters@ == old(self).bad_busters@.update(
                asshole as int,
                (Buster {
                    state: BusterState::DeathMarked,
                    ..old(self).bad_busters@[asshole as int]
                }),
            ),
            final(self).good_busters@ == old(self).good_busters@.update(
                buster as int,
                (Buster {
                    stunning_target_id: Some(old(self).bad_busters@[asshole as int].entity_id),
                    busting_target_id: None,
                    ..old(self).good_busters@[buster as int]
                }),
            ),
            final(self).all_ghosts == old(self).all_ghosts,
            final(self).global_ping_stack == old(self).global_ping_stack,
            final(self).upper_left_home == old(self).upper_left_home,
            final(self).turn_count == old(self).turn_count,
    {
        let target_id = self.bad_busters[asshole].entity_id;
        let mut o = self.bad_busters[asshole];
        o.state = BusterState::DeathMarked;
        self.bad_busters[asshole] = o;
        let mut b = self.good_busters[buster];
        b.stunning_target_id = Some(target_id);
        b.busting_target_id = None;
        self.good_busters[buster] = b;
    }

    /// Draws a fresh random exploration destination inside the arena for
    /// `buster`.
    pub fn set_new_buster_movement_coords(&self, buster: &mut Buster)
        ensures
            *final(buster) == (Buster {
                movement_target: final(buster).movement_target,
                ..*old(buster)
            }),
            0 <= final(buster).movement_target.x < MAP_RIGHT_WALL,
            0 <= final(buster).movement_target.y < MAP_BOTTOM_WALL,
    {
        let x = random_in_range(0, MAP_RIGHT_WALL);
        let y = random_in_range(0, MAP_BOTTOM_WALL);
        buster.movement_target = Coord::new(x, y);
    }

    /// This squad's home corner.
    pub open spec fn spec_home_coords(self) -> Coord {
        if self.upper_left_home {
            Coord { x: 0, y: 0 }
        } else {
            Coord { x: MAP_RIGHT_WALL, y: MAP_BOTTOM_WALL }
        }
    }

    /// When a searching unit transitions: a stunnable opponent or a gated
    /// roamer is in range, the unit reached its destination, the broadcast
    /// list is live past its threshold, or camping time has come.
    pub open spec fn spec_searching_test(self, b: Buster) -> bool {
        ||| self.any_opp_candidate(b)
        ||| self.any_gated_ghost_in_los(b)
        ||| b.coords == b.movement_target
        ||| (self.global_ping_stack@.len() > 0 && self.turn_count > TURNS_UNTIL_GLOBAL_PICKS)
        ||| self.turn_count >= START_CAMPING_TURN
    }

    /// When a capturing unit transitions: it holds a roamer, a stunnable
    /// opponent appeared, or its target reference is gone.
    pub open spec fn spec_busting_test(self, b: Buster) -> bool {
        self.any_opp_candidate(b) || b.busting_target_id is None
    }

    /// When a camping unit transitions: a carrying opponent or any roamer
    /// is in range, or the broadcast list is non-empty.
    pub open spec fn spec_camping_test(self, b: Buster) -> bool {
        self.any_camp_opp(b) || self.any_ghost_in_los(b) || self.global_ping_stack@.len() > 0
    }

    /// When a unit moving to camp transitions: as for camping, or it
    /// reached its camp point.
    pub open spec fn spec_camp_moving_test(self, b: Buster) -> bool {
        ||| self.any_camp_opp(b)
        ||| b.coords == b.movement_target
        ||| self.any_ghost_in_los(b)
        ||| self.global_ping_stack@.len() > 0
    }

    /// When a unit moving toward an opponent transitions: the target is in
    /// stun range, or its reference is gone.
    pub open spec fn spec_asshole_moving_test(self, b: Buster) -> bool {
        match b.stunning_target_id {
            Some(id) => spec_is_stunnable(lookup_buster(self.bad_busters@, id as int), b),
            None => true,
        }
    }

    /// When a unit backing away from its roamer transitions: it left the
    /// inner exclusion radius, or the target reference is gone.
    pub open spec fn spec_ghost_moving_away_test(self, b: Buster) -> bool {
        match b.busting_target_id {
            Some(id) => !spec_is_too_close(lookup_roamer(self.all_ghosts@, id as int), b),
            None => true,
        }
    }

    /// When a unit moving toward its roamer transitions: a stunnable
    /// opponent appeared, a strictly more attractive different roamer is
    /// in range, the target entered the outer capture radius, or its
    /// reference is gone.
    pub open spec fn spec_ghost_moving_test(self, b: Buster) -> bool {
        if self.any_opp_candidate(b) {
            true
        } else {
            match b.busting_target_id {
                Some(id) => {
                    let g = lookup_roamer(self.all_ghosts@, id as int);
                    ||| (exists|gi: int| #[trigger] self.strictly_better_ghost(b, gi))
                    ||| spec_in_radius(b.coords, g.coords, OUTER_BUSTING_RADIUS as int)
                },
                None => true,
            }
        }
    }

    /// When a stunning unit transitions: its target is incapacitated, or —
    /// with no target left — its own cooldown ran down.
    pub open spec fn spec_stunning_test(self, b: Buster) -> bool {
        match b.stunning_target_id {
            Some(id) => lookup_buster(self.bad_busters@, id as int).is_stunned,
            None => !spec_can_stun(b),
        }
    }

    /// When a homebound unit transitions: it is within release range of
    /// the home corner, or it lost its roamer.
    pub open spec fn spec_house_move_test(self, b: Buster) -> bool {
        spec_in_radius(self.spec_home_coords(), b.coords, BASE_RELEASE_RADIUS as int)
            || !b.has_ghost
    }

    /// When a releasing unit transitions: the roamer is out.
    pub open spec fn spec_release_test(self, b: Buster) -> bool {
        !b.has_ghost
    }

    /// When an incapacitated unit transitions: the flag cleared.
    pub open spec fn spec_stunned_test(self, b: Buster) -> bool {
        !b.is_stunned
    }

    /// Whether the unit's current state is due for a transition this
    /// round.
    pub open spec fn spec_should_transition(self, b: Buster) -> bool {
        match b.state {
            BusterState::Idle => true,
            BusterState::Searching => self.spec_searching_test(b),
            BusterState::Busting => self.spec_busting_test(b),
            BusterState::MovingToHome => self.spec_house_move_test(b),
            BusterState::MovingAwayFromGhost => self.spec_ghost_moving_away_test(b),
            BusterState::MovingToAsshole => self.spec_asshole_moving_test(b),
            BusterState::Stunning => self.spec_stunning_test(b),
            BusterState::MovingToGhost => self.spec_ghost_moving_test(b),
            BusterState::Releasing => self.spec_release_test(b),
            BusterState::Stunned => self.spec_stunned_test(b),
            BusterState::Camping => self.spec_camping_test(b),
            BusterState::MovingToCamp => self.spec_camp_moving_test(b),
            BusterState::NotTargetted => false,
            BusterState::DeathMarked => false,
        }
    }

    /// Whether any tracked roamer is within sensing range of `buster` and
    /// passes the difficulty gate.
    fn exists_gated_ghost_in_los(&self, buster: &Buster) -> (r: bool)
        requires
            roamers_bounded(self.all_ghosts@),
            in_bounds(buster.coords),
        ensures
            r == self.any_gated_ghost_in_los(*buster),
    {
        let n = self.all_ghosts.len();
        let mut i: usize = 0;
        while i < n
            invariant
                n == self.all_ghosts@.len(),
                i <= n,
                roamers_bounded(self.all_ghosts@),
                in_bounds(buster.coords),
                forall|j: int|
                    0 <= j < i ==> !(roamer_in_los(#[trigger] self.all_ghosts@[j], *buster)
                        && self.spec_ghost_difficulty(self.all_ghosts@[j])),
            decreases n - i,
        {
            if self.all_ghosts[i].coords.is_in_radius(&buster.coords, LINE_OF_SIGHT_RADIUS)
                && self.ghost_difficulty_test(&self.all_ghosts[i]) {
                return true;
            }
            i = i + 1;
        }
        false
    }

    /// The index of the first opposing unit passing the camping stun test
    /// for `buster`.
    pub fn find_first_camp_opp(&self, buster: &Buster) -> (r: Option<usize>)
        requires
            busters_ok(self.bad_busters@),
            in_bounds(buster.coords),
        ensures
            match r {
                Some(j) => self.camp_opp(j as int, *buster) && (forall|k: int|
                    0 <= k < j ==> !self.camp_opp(k, *buster)),
                None => !self.any_camp_opp(*buster),
            },
    {
        let n = self.bad_busters.len();
        let mut i: usize = 0;
        while i < n
            invariant
                n == self.bad_busters@.len(),
                i <= n,
                busters_ok(self.bad_busters@),
                in_bounds(buster.coords),
                forall|k: int| 0 <= k < i ==> !self.camp_opp(k, *buster),
            decreases n - i,
        {
            let o = self.bad_busters[i];
            if o.coords.is_in_radius(&buster.coords, LINE_OF_SIGHT_RADIUS) && !matches!(
                o.state,
                BusterState::DeathMarked,
            ) && buster.can_stun() && o.has_ghost {
                return Some(i);
            }
            i = i + 1;
        }
        None
    }

    /// The searching-state transition predicate.
    pub fn searching_test(&self, buster: &Buster) -> (r: bool)
        requires
            self.wf(),
            in_bounds(buster.coords),
        ensures
            r == self.spec_searching_test(*buster),
    {
        let stunnable = match self.find_best_asshole_in_los(buster) {
            Some(_) => true,
            None => false,
        };
        proof {
            if self.any_opp_candidate(*buster) {
                assert(stunnable);
            }
        }
        let ghost_in_radius = self.exists_gated_ghost_in_los(buster);
        let camping_time = self.turn_count >= START_CAMPING_TURN;
        let made_it = buster.coords.x == buster.movement_target.x && buster.coords.y
            == buster.movement_target.y;
        let asking = self.global_ping_stack.len() > 0 && self.turn_count
            > TURNS_UNTIL_GLOBAL_PICKS;
        stunnable || ghost_in_radius || made_it || asking || camping_time
    }

    /// The capturing-state transition predicate.
    pub fn busting_test(&self, buster: &Buster) -> (r: bool)
        requires
            self.wf(),
            in_bounds(buster.coords),
        ensures
            r == self.spec_busting_test(*buster),
    {
        let stunnable = match self.find_best_asshole_in_los(buster) {
            Some(_) => true,
            None => false,
        };
        proof {
            if self.any_opp_candidate(*buster) {
                assert(stunnable);
            }
        }
        stunnable || buster.busting_target_id.is_none()
    }

    /// The camping-state transition predicate.
    pub fn camping_test(&self, buster: &Buster) -> (r: bool)
        requires
            self.wf(),
            in_bounds(buster.coords),
        ensures
            r == self.spec_camping_test(*buster),
    {
        let stunnable_with_ghost = match self.find_first_camp_opp(buster) {
            Some(_) => true,
            None => false,
        };
        let ghost_in_radius = match self.find_ghost_in_radius_of_buster(buster) {
            Some(_) => true,
            None => false,
        };
        let asking = self.global_ping_stack.len() > 0;
        stunnable_with_ghost || ghost_in_radius || asking
    }

    /// The moving-to-camp transition predicate.
    pub fn camp_moving_test(&self, buster: &Buster) -> (r: bool)
        requires
            self.wf(),
            in_bounds(buster.coords),
        ensures
            r == self.spec_camp_moving_test(*buster),
    {
        let stunnable_with_ghost = match self.find_first_camp_opp(buster) {
            Some(_) => true,
            None => false,
        };
        let ghost_in_radius = match self.find_ghost_in_radius_of_buster(buster) {
            Some(_) => true,
            None => false,
        };
        let made_it = buster.coords.x == buster.movement_target.x && buster.coords.y
            == buster.movement_target.y;
        let asking = self.global_ping_stack.len() > 0;
        stunnable_with_ghost || made_it || ghost_in_radius || asking
    }

    /// The incapacitated-state transition predicate.
    pub fn stunned_test(&self, buster: &Buster) -> (r: bool)
        ensures
            r == self.spec_stunned_test(*buster),
    {
        !buster.is_stunned
    }

    /// The moving-to-opponent transition predicate.
    pub fn asshole_moving_test(&self, buster: &Buster) -> (r: bool)
        requires
            self.wf(),
            in_bounds(buster.coords),
            target_refs_ok(*buster, self.all_ghosts@, self.bad_busters@),
        ensures
            r == self.spec_asshole_moving_test(*buster),
    {
        match buster.stunning_target_id {
            Some(id) => match self.find_bad_index(id) {
                Some(j) => {
                    proof {
                        lemma_lookup_buster_first(self.bad_busters@, id as int, j as int);
                    }
                    self.bad_busters[j].is_stunnable(buster)
                },
                None => unreached(),
            },
            None => true,
        }
    }

    /// The backing-away transition predicate.
    pub fn ghost_moving_away_test(&self, buster: &Buster) -> (r: bool)
        requires
            self.wf(),
            in_bounds(buster.coords),
            target_refs_ok(*buster, self.all_ghosts@, self.bad_busters@),
        ensures
            r == self.spec_ghost_moving_away_test(*buster),
    {
        match buster.busting_target_id {
            Some(id) => match self.find_roamer_index(id) {
                Some(j) => !self.all_ghosts[j].is_too_close(buster),
                None => unreached(),
            },
            None => true,
        }
    }

    /// The moving-to-roamer transition predicate.
    pub fn ghost_moving_test(&self, buster: &Buster) -> (r: bool)
        requires
            self.wf(),
            in_bounds(buster.coords),
            target_refs_ok(*buster, self.all_ghosts@, self.bad_busters@),
        ensures
            r == self.spec_ghost_moving_test(*buster),
    {
        match self.find_best_asshole_in_los(buster) {
            Some(_) => true,
            None => {
                proof {
                    if self.any_opp_candidate(*buster) {
                        assert(false);
                    }
                }
                match buster.busting_target_id {
                    Some(id) => {
                        let j = match self.find_roamer_index(id) {
                            Some(j) => j,
                            None => unreached(),
                        };
                        let g = self.all_ghosts[j];
                        let gk: i32 = if g.stamina >= 3 {
                            g.stamina
                        } else {
                            3
                        };
                        let best = self.find_best_ghost_in_los(buster);
                        let better = match best {
                            Some(bi) => {
                                let bg = self.all_ghosts[bi];
                                let bk: i32 = if bg.stamina >= 3 {
                                    bg.stamina
                                } else {
                                    3
                                };
                                bg.entity_id != id && bk < gk
                            },
                            None => false,
                        };
                        proof {
                            match best {
                                Some(bi) => {
                                    if better {
                                        assert(self.strictly_better_ghost(*buster, bi as int));
                                    } else {
                                        self.lemma_first_best_ghost_unique(*buster);
                                        assert forall|gi: int|
                                            !(#[trigger] self.strictly_better_ghost(
                                                *buster,
                                                gi,
                                            )) by {
                                            if self.strictly_better_ghost(*buster, gi) {
                                                assert(self.is_first_best_ghost(*buster, gi));
                                                assert(self.is_first_best_ghost(
                                                    *buster,
                                                    bi as int,
                                                ));
                                                assert(gi == bi as int);
                                            }
                                        }
                                    }
                                },
                                None => {
                                    assert forall|gi: int|
                                        !(#[trigger] self.strictly_better_ghost(*buster, gi)) by {
                                        if self.strictly_better_ghost(*buster, gi) {
                                            assert(self.is_first_best_ghost(*buster, gi));
                                            assert(roamer_in_los(self.all_ghosts@[gi], *buster));
                                        }
                                    }
                                },
                            }
                        }
                        better || buster.coords.is_in_radius(&g.coords, OUTER_BUSTING_RADIUS)
                    },
                    None => true,
                }
            },
        }
    }

    /// The stunning-state transition predicate.
    pub fn stunning_test(&self, buster: &Buster) -> (r: bool)
        requires
            self.wf(),
            in_bounds(buster.coords),
            target_refs_ok(*buster, self.all_ghosts@, self.bad_busters@),
        ensures
            r == self.spec_stunning_test(*buster),
    {
        match buster.stunning_target_id {
            Some(id) => match self.find_bad_index(id) {
                Some(j) => {
                    proof {
                        lemma_lookup_buster_first(self.bad_busters@, id as int, j as int);
                    }
                    self.bad_busters[j].is_stunned
                },
                None => unreached(),
            },
            None => !buster.can_stun(),
        }
    }

    /// The homebound transition predicate.
    pub fn house_move_test(&self, buster: &Buster) -> (r: bool)
        requires
            in_bounds(buster.coords),
        ensures
            r == self.spec_house_move_test(*buster),
    {
        let house_coords = if self.upper_left_home {
            Coord::new(0, 0)
        } else {
            Coord::new(MAP_RIGHT_WALL, MAP_BOTTOM_WALL)
        };
        house_coords.is_in_radius(&buster.coords, BASE_RELEASE_RADIUS) || !buster.has_ghost
    }

    /// The releasing-state transition predicate.
    pub fn release_test(&self, buster: &Buster) -> (r: bool)
        ensures
            r == self.spec_release_test(*buster),
    {
        !buster.has_ghost
    }

    /// Whether the unit's current state is due for a transition.
    pub fn should_transition(&self, buster: &Buster) -> (r: bool)
        requires
            self.wf(),
            in_bounds(buster.coords),
            target_refs_ok(*buster, self.all_ghosts@, self.bad_busters@),
        ensures
            r == self.spec_should_transition(*buster),
    {
        match buster.state {
            BusterState::Idle => true,
            BusterState::Searching => self.searching_test(buster),
            BusterState::Busting => self.busting_test(buster),
            BusterState::MovingToHome => self.house_move_test(buster),
            BusterState::MovingAwayFromGhost => self.ghost_moving_away_test(buster),
            BusterState::MovingToAsshole => self.asshole_moving_test(buster),
            BusterState::Stunning => self.stunning_test(buster),
            BusterState::MovingToGhost => self.ghost_moving_test(buster),
            BusterState::Releasing => self.release_test(buster),
            BusterState::Stunned => self.stunned_test(buster),
            BusterState::Camping => self.camping_test(buster),
            BusterState::MovingToCamp => self.camp_moving_test(buster),
            BusterState::NotTargetted => false,
            BusterState::DeathMarked => false,
        }
    }

    /// Two indices both satisfying the best-roamer characterization are
    /// equal.
    pub proof fn lemma_first_best_ghost_unique(self, b: Buster)
        ensures
            forall|i1: int, i2: int|
                #[trigger] self.is_first_best_ghost(b, i1) && #[trigger] self.is_first_best_ghost(
                    b,
                    i2,
                ) ==> i1 == i2,
    {
        assert forall|i1: int, i2: int|
            #[trigger] self.is_first_best_ghost(b, i1) && #[trigger] self.is_first_best_ghost(
                b,
                i2,
            ) implies i1 == i2 by {
            if i1 < i2 {
                assert(ghost_key(self.all_ghosts@[i1]) > ghost_key(self.all_ghosts@[i2]));
                assert(ghost_key(self.all_ghosts@[i2]) >= ghost_key(self.all_ghosts@[i1]));
            }
            if i2 < i1 {
                assert(ghost_key(self.all_ghosts@[i2]) > ghost_key(self.all_ghosts@[i1]));
                assert(ghost_key(self.all_ghosts@[i1]) >= ghost_key(self.all_ghosts@[i2]));
            }
        }
    }

    /// The first-round bootstrap transition: into searching.
    pub fn do_idle_transition(&mut self, b: usize)
        requires
            old(self).wf(),
            b < old(self).good_busters@.len(),
        ensures
            final(self).wf(),
            transition_frame(*old(self), *final(self), b as int),
            same_but_unit(
                *old(self),
                *final(self),
                b as int,
                (Buster { state: BusterState::Searching, ..old(self).good_busters@[b as int] }),
            ),
    {
        let mut u = self.good_busters[b];
        u.state = BusterState::Searching;
        self.good_busters[b] = u;
        proof {
            lemma_wf_after_unit_update(*old(self), *self, b as int);
        }
    }

    /// The releasing transition: the roamer is out, back to searching.
    pub fn do_release_transition(&mut self, b: usize)
        requires
            old(self).wf(),
            b < old(self).good_busters@.len(),
        ensures
            final(self).wf(),
            transition_frame(*old(self), *final(self), b as int),
            same_but_unit(
                *old(self),
                *final(self),
                b as int,
                (Buster { state: BusterState::Searching, ..old(self).good_busters@[b as int] }),
            ),
    {
        let mut u = self.good_busters[b];
        u.state = BusterState::Searching;
        self.good_busters[b] = u;
        proof {
            lemma_wf_after_unit_update(*old(self), *self, b as int);
        }
    }

    /// The homebound transition: release a held roamer at the base, or
    /// fall back to searching if it was lost.
    pub fn do_home_move_transition(&mut self, b: usize)
        requires
            old(self).wf(),
            b < old(self).good_busters@.len(),
        ensures
            final(self).wf(),
            transition_frame(*old(self), *final(self), b as int),
            same_but_unit(
                *old(self),
                *final(self),
                b as int,
                (Buster {
                    state: if old(self).good_busters@[b as int].has_ghost {
                        BusterState::Releasing
                    } else {
                        BusterState::Searching
                    },
                    ..old(self).good_busters@[b as int]
                }),
            ),
    {
        let mut u = self.good_busters[b];
        u.state = if u.has_ghost {
            BusterState::Releasing
        } else {
            BusterState::Searching
        };
        self.good_busters[b] = u;
        proof {
            lemma_wf_after_unit_update(*old(self), *self, b as int);
        }
    }

    /// The moving-to-opponent transition: close enough to stun, or the
    /// target is gone.
    pub fn do_asshole_move_transition(&mut self, b: usize)
        requires
            old(self).wf(),
            b < old(self).good_busters@.len(),
        ensures
            final(self).wf(),
            transition_frame(*old(self), *final(self), b as int),
            same_but_unit(
                *old(self),
                *final(self),
                b as int,
                (Buster {
                    state: if old(self).good_busters@[b as int].stunning_target_id is Some {
                        BusterState::Stunning
                    } else {
                        BusterState::Searching
                    },
                    ..old(self).good_busters@[b as int]
                }),
            ),
    {
        let mut u = self.good_busters[b];
        u.state = if u.stunning_target_id.is_some() {
            BusterState::Stunning
        } else {
            BusterState::Searching
        };
        self.good_busters[b] = u;
        proof {
            lemma_wf_after_unit_update(*old(self), *self, b as int);
        }
    }

    /// The capturing transition.
    pub fn do_busting_transition(&mut self, b: usize)
        requires
            old(self).wf(),
            b < old(self).good_busters@.len(),
        ensures
            final(self).wf(),
            transition_frame(*old(self), *final(self), b as int),
            busting_rel(*old(self), *final(self), b as int),
    {
        let ob = self.good_busters[b];
        if ob.has_ghost {
            let mut u = ob;
            u.state = BusterState::MovingToHome;
            self.good_busters[b] = u;
            proof {
                lemma_wf_after_unit_update(*old(self), *self, b as int);
            }
        } else {
            match self.find_best_asshole_in_los(&ob) {
                Some(j) => {
                    self.claim_and_move(j, b);
                },
                None => {
                    let mut u = ob;
                    u.state = BusterState::Searching;
                    self.good_busters[b] = u;
                    proof {
                        lemma_wf_after_unit_update(*old(self), *self, b as int);
                    }
                },
            }
        }
    }

    /// Claims opposing unit `j` for controlled unit `b` and sends the unit
    /// after it.
    fn claim_and_move(&mut self, j: usize, b: usize)
        requires
            old(self).wf(),
            b < old(self).good_busters@.len(),
            j < old(self).bad_busters@.len(),
        ensures
            final(self).wf(),
            transition_frame(*old(self), *final(self), b as int),
            claim_effect(*old(self), *final(self), b as int, j as int, BusterState::MovingToAsshole),
    {
        let mut u = self.good_busters[b];
        u.state = BusterState::MovingToAsshole;
        self.good_busters[b] = u;
        self.set_asshole_target(j, b);
        proof {
            assert(self.good_busters@ =~= old(self).good_busters@.update(
                b as int,
                (Buster {
                    state: BusterState::MovingToAsshole,
                    stunning_target_id: Some(old(self).bad_busters@[j as int].entity_id),
                    busting_target_id: None,
                    ..old(self).good_busters@[b as int]
                }),
            ));
            assert(buster_id_present(
                self.bad_busters@,
                old(self).bad_busters@[j as int].entity_id as int,
            )) by {
                assert(self.bad_busters@[j as int].entity_id == old(
                    self,
                ).bad_busters@[j as int].entity_id);
            }
            lemma_wf_after_unit_update(*old(self), *self, b as int);
        }
    }

    /// The stunning transition.
    pub fn do_stunning_transition(&mut self, b: usize)
        requires
            old(self).wf(),
            b < old(self).good_busters@.len(),
        ensures
            final(self).wf(),
            transition_frame(*old(self), *final(self), b as int),
            stunning_rel(*old(self), *final(self), b as int),
    {
        let ob = self.good_busters[b];
        if !ob.can_stun() {
            let mut u = ob;
            u.state = BusterState::Searching;
            self.good_busters[b] = u;
            proof {
                lemma_wf_after_unit_update(*old(self), *self, b as int);
            }
        } else {
            match ob.stunning_target_id {
                Some(id) => {
                    proof {
                        assert(target_refs_ok(
                            old(self).good_busters@[b as int],
                            old(self).all_ghosts@,
                            old(self).bad_busters@,
                        ));
                    }
                    let j = match self.find_bad_index(id) {
                        Some(j) => j,
                        None => unreached(),
                    };
                    let mut o = self.bad_busters[j];
                    o.state = BusterState::NotTargetted;
                    self.bad_busters[j] = o;
                    let mut u = ob;
                    u.state = BusterState::Searching;
                    u.stunning_target_id = None;
                    self.good_busters[b] = u;
                    proof {
                        lemma_wf_after_unit_update(*old(self), *self, b as int);
                    }
                },
                None => {
                    let mut u = ob;
                    u.state = BusterState::MovingToAsshole;
                    self.good_busters[b] = u;
                    proof {
                        lemma_wf_after_unit_update(*old(self), *self, b as int);
                    }
                },
            }
        }
    }

    /// The searching transition.
    pub fn do_searching_transition(&mut self, b: usize)
        requires
            old(self).wf(),
            b < old(self).good_busters@.len(),
        ensures
            final(self).wf(),
            transition_frame(*old(self), *final(self), b as int),
            searching_rel(*old(self), *final(self), b as int),
    {
        let ob = self.good_busters[b];
        if self.turn_count >= START_CAMPING_TURN {
            let mut u = ob;
            u.state = BusterState::MovingToCamp;
            self.good_busters[b] = u;
            proof {
                lemma_wf_after_unit_update(*old(self), *self, b as int);
            }
        } else if ob.coords.x == ob.movement_target.x && ob.coords.y == ob.movement_target.y {
            let mut u = ob;
            self.set_new_buster_movement_coords(&mut u);
            self.good_busters[b] = u;
            proof {
                assert(ob.coords == ob.movement_target);
                lemma_wf_after_unit_update(*old(self), *self, b as int);
            }
        } else {
            proof {
                assert(ob.coords != ob.movement_target);
            }
            match self.find_best_asshole_in_los(&ob) {
                Some(j) => {
                    self.claim_and_move(j, b);
                },
                None => {
                    match self.find_ghost_in_radius_of_buster(&ob) {
                        Some(_) => {
                            let gi = match self.find_best_ghost_in_los(&ob) {
                                Some(gi) => gi,
                                None => unreached(),
                            };
                            let mut u = ob;
                            u.state = BusterState::MovingToGhost;
                            u.busting_target_id = Some(self.all_ghosts[gi].entity_id);
                            self.good_busters[b] = u;
                            proof {
                                assert(roamer_id_present(
                                    self.all_ghosts@,
                                    self.all_ghosts@[gi as int].entity_id as int,
                                )) by {
                                    assert(self.all_ghosts@[gi as int].entity_id
                                        == self.all_ghosts@[gi as int].entity_id);
                                }
                                lemma_wf_after_unit_update(*old(self), *self, b as int);
                            }
                        },
                        None => {
                            match self.steal_target_ghost_reference(&ob) {
                                Some(id) => {
                                    let mut u = ob;
                                    u.state = BusterState::MovingToGhost;
                                    u.busting_target_id = Some(id);
                                    self.good_busters[b] = u;
                                    proof {
                                        lemma_wf_after_unit_update(*old(self), *self, b as int);
                                    }
                                },
                                None => {
                                    proof {
                                        assert(*self == *old(self));
                                    }
                                },
                            }
                        },
                    }
                },
            }
        }
    }

    /// The moving-to-roamer transition.
    pub fn do_ghost_move_transition(&mut self, b: usize)
        requires
            old(self).wf(),
            b < old(self).good_busters@.len(),
        ensures
            final(self).wf(),
            transition_frame(*old(self), *final(self), b as int),
            ghost_move_rel(*old(self), *final(self), b as int),
    {
        let ob = self.good_busters[b];
        proof {
            assert(target_refs_ok(
                old(self).good_busters@[b as int],
                old(self).all_ghosts@,
                old(self).bad_busters@,
            ));
        }
        match self.find_best_ghost_in_los(&ob) {
            Some(gi) => {
                let bg = self.all_ghosts[gi];
                let bid = bg.entity_id;
                let preferable = match ob.busting_target_id {
                    Some(cur) => {
                        if cur == bid {
                            false
                        } else {
                            let cj = match self.find_roamer_index(cur) {
                                Some(cj) => cj,
                                None => unreached(),
                            };
                            let cg = self.all_ghosts[cj];
                            let bk: i32 = if bg.stamina >= 3 {
                                bg.stamina
                            } else {
                                3
                            };
                            let ck: i32 = if cg.stamina >= 3 {
                                cg.stamina
                            } else {
                                3
                            };
                            bk < ck
                        }
                    },
                    None => true,
                };
                if preferable {
                    let mut u = ob;
                    u.busting_target_id = Some(bid);
                    self.good_busters[b] = u;
                    proof {
                        assert(roamer_id_present(self.all_ghosts@, bid as int)) by {
                            assert(self.all_ghosts@[gi as int].entity_id == bid);
                        }
                        assert(old(self).strictly_better_ghost(ob, gi as int));
                        lemma_wf_after_unit_update(*old(self), *self, b as int);
                    }
                    return ;
                }
                proof {
                    self.lemma_first_best_ghost_unique(ob);
                    assert forall|g2: int| !(#[trigger] self.strictly_better_ghost(ob, g2)) by {
                        if self.strictly_better_ghost(ob, g2) {
                            assert(self.is_first_best_ghost(ob, g2));
                            assert(self.is_first_best_ghost(ob, gi as int));
                            assert(g2 == gi as int);
                        }
                    }
                }
                self.ghost_move_engage(b);
            },
            None => {
                proof {
                    assert forall|g2: int| !(#[trigger] self.strictly_better_ghost(ob, g2)) by {
                        if self.strictly_better_ghost(ob, g2) {
                            assert(self.is_first_best_ghost(ob, g2));
                            assert(roamer_in_los(self.all_ghosts@[g2], ob));
                        }
                    }
                }
                self.ghost_move_engage(b);
            },
        }
    }

    /// The second half of the moving-to-roamer transition, once no
    /// retargeting is due: claim a stunnable opponent, or engage the
    /// current target, or fall back to searching.
    fn ghost_move_engage(&mut self, b: usize)
        requires
            old(self).wf(),
            b < old(self).good_busters@.len(),
        ensures
            final(self).wf(),
            transition_frame(*old(self), *final(self), b as int),
            ({
                let pre = *old(self);
                let post = *final(self);
                let ob = pre.good_busters@[b as int];
                if pre.any_opp_candidate(ob) {
                    exists|j: int|
                        #[trigger] pre.is_best_opp(ob, j) && claim_effect(
                            pre,
                            post,
                            b as int,
                            j,
                            BusterState::MovingToAsshole,
                        )
                } else {
                    match ob.busting_target_id {
                        Some(id) => same_but_unit(
                            pre,
                            post,
                            b as int,
                            (Buster {
                                state: if spec_is_too_close(
                                    lookup_roamer(pre.all_ghosts@, id as int),
                                    ob,
                                ) {
                                    BusterState::MovingAwayFromGhost
                                } else {
                                    BusterState::Busting
                                },
                                ..ob
                            }),
                        ),
                        None => same_but_unit(
                            pre,
                            post,
                            b as int,
                            (Buster { state: BusterState::Searching, ..ob }),
                        ),
                    }
                }
            }),
    {
        let ob = self.good_busters[b];
        match self.find_best_asshole_in_los(&ob) {
            Some(j) => {
                self.claim_and_move(j, b);
            },
            None => {
                match ob.busting_target_id {
                    Some(id) => {
                        proof {
                            assert(target_refs_ok(
                                old(self).good_busters@[b as int],
                                old(self).all_ghosts@,
                                old(self).bad_busters@,
                            ));
                        }
                        let j = match self.find_roamer_index(id) {
                            Some(j) => j,
                            None => unreached(),
                        };
                        let g = self.all_ghosts[j];
                        let mut u = ob;
                        u.state = if g.is_too_close(&ob) {
                            BusterState::MovingAwayFromGhost
                        } else {
                            BusterState::Busting
                        };
                        self.good_busters[b] = u;
                        proof {
                            lemma_wf_after_unit_update(*old(self), *self, b as int);
                        }
                    },
                    None => {
                        let mut u = ob;
                        u.state = BusterState::Searching;
                        self.good_busters[b] = u;
                        proof {
                            lemma_wf_after_unit_update(*old(self), *self, b as int);
                        }
                    },
                }
            },
        }
    }

    /// The backing-away transition.
    pub fn do_ghost_away_move_transition(&mut self, b: usize)
        requires
            old(self).wf(),
            b < old(self).good_busters@.len(),
        ensures
            final(self).wf(),
            transition_frame(*old(self), *final(self), b as int),
            ghost_away_rel(*old(self), *final(self), b as int),
    {
        let ob = self.good_busters[b];
        let opp = self.find_best_asshole_in_los(&ob);
        let mut cur = ob;
        match self.find_best_ghost_in_los(&ob) {
            Some(gi) => {
                let bid = self.all_ghosts[gi].entity_id;
                let differs = match ob.busting_target_id {
                    Some(c) => c != bid,
                    None => true,
                };
                if differs {
                    cur.busting_target_id = Some(bid);
                    self.good_busters[b] = cur;
                    proof {
                        assert(roamer_id_present(self.all_ghosts@, bid as int)) by {
                            assert(self.all_ghosts@[gi as int].entity_id == bid);
                        }
                        assert(target_refs_ok(
                            old(self).good_busters@[b as int],
                            old(self).all_ghosts@,
                            old(self).bad_busters@,
                        ));
                        lemma_wf_after_unit_update(*old(self), *self, b as int);
                        self.lemma_first_best_ghost_unique(ob);
                        assert(self.is_first_best_ghost(ob, gi as int));
                        assert(exists|g2: int| self.is_first_best_ghost(ob, g2));
                        let w = choose|g2: int| self.is_first_best_ghost(ob, g2);
                        assert(self.is_first_best_ghost(ob, w));
                        assert(w == gi as int);
                    }
                } else {
                    proof {
                        self.lemma_first_best_ghost_unique(ob);
                        assert(self.is_first_best_ghost(ob, gi as int));
                        assert(!(exists|g2: int|
                            #[trigger] self.is_first_best_ghost(ob, g2) && Some(
                                self.all_ghosts@[g2].entity_id,
                            ) != ob.busting_target_id));
                    }
                }
            },
            None => {
                proof {
                    assert forall|g2: int| !(#[trigger] self.is_first_best_ghost(ob, g2)) by {
                        if self.is_first_best_ghost(ob, g2) {
                            assert(roamer_in_los(self.all_ghosts@[g2], ob));
                        }
                    }
                }
            },
        }
        proof {
            assert(target_refs_ok(
                old(self).good_busters@[b as int],
                old(self).all_ghosts@,
                old(self).bad_busters@,
            ));
        }
        match opp {
            Some(j) => {
                self.claim_and_move(j, b);
                proof {
                    assert(self.good_busters@ =~= old(self).good_busters@.update(
                        b as int,
                        (Buster {
                            state: BusterState::MovingToAsshole,
                            stunning_target_id: Some(old(self).bad_busters@[j as int].entity_id),
                            busting_target_id: None,
                            ..old(self).good_busters@[b as int]
                        }),
                    ));
                    assert(claim_effect(
                        *old(self),
                        *self,
                        b as int,
                        j as int,
                        BusterState::MovingToAsshole,
                    ));
                }
            },
            None => {
                let target = self.good_busters[b].busting_target_id;
                match target {
                    Some(id) => {
                        let j = match self.find_roamer_index(id) {
                            Some(j) => j,
                            None => unreached(),
                        };
                        let g = self.all_ghosts[j];
                        let mut u = self.good_busters[b];
                        u.state = if g.is_bustable(&ob) {
                            BusterState::Busting
                        } else {
                            BusterState::MovingToGhost
                        };
                        self.good_busters[b] = u;
                        proof {
                            assert(self.good_busters@ =~= old(self).good_busters@.update(
                                b as int,
                                u,
                            ));
                            lemma_wf_after_unit_update(*old(self), *self, b as int);
                        }
                    },
                    None => {
                        let mut u = self.good_busters[b];
                        u.state = BusterState::Searching;
                        self.good_busters[b] = u;
                        proof {
                            assert(self.good_busters@ =~= old(self).good_busters@.update(
                                b as int,
                                u,
                            ));
                            lemma_wf_after_unit_update(*old(self), *self, b as int);
                        }
                    },
                }
            },
        }
    }

    /// The camping transition.
    pub fn do_camping_transition(&mut self, b: usize)
        requires
            old(self).wf(),
            b < old(self).good_busters@.len(),
        ensures
            final(self).wf(),
            transition_frame(*old(self), *final(self), b as int),
            camping_rel(*old(self), *final(self), b as int),
    {
        let ob = self.good_busters[b];
        match self.find_ghost_in_radius_of_buster(&ob) {
            Some(gi) => {
                let mut u = ob;
                u.state = BusterState::MovingToGhost;
                u.busting_target_id = Some(self.all_ghosts[gi].entity_id);
                self.good_busters[b] = u;
                proof {
                    assert(roamer_id_present(
                        self.all_ghosts@,
                        self.all_ghosts@[gi as int].entity_id as int,
                    )) by {
                        assert(self.all_ghosts@[gi as int].entity_id == self.all_ghosts@[gi as int].entity_id);
                    }
                    lemma_wf_after_unit_update(*old(self), *self, b as int);
                }
            },
            None => {
                match self.find_first_camp_opp(&ob) {
                    Some(j) => {
                        self.claim_and_move(j, b);
                    },
                    None => {
                        match self.steal_target_ghost_reference(&ob) {
                            Some(id) => {
                                let mut u = ob;
                                u.state = BusterState::MovingToGhost;
                                u.busting_target_id = Some(id);
                                self.good_busters[b] = u;
                                proof {
                                    lemma_wf_after_unit_update(*old(self), *self, b as int);
                                }
                            },
                            None => {
                                let mut u = ob;
                                u.state = BusterState::Searching;
                                self.good_busters[b] = u;
                                proof {
                                    lemma_wf_after_unit_update(*old(self), *self, b as int);
                                }
                            },
                        }
                    },
                }
            },
        }
    }

    /// The moving-to-camp transition.
    pub fn do_camp_move_transition(&mut self, b: usize)
        requires
            old(self).wf(),
            b < old(self).good_busters@.len(),
        ensures
            final(self).wf(),
            transition_frame(*old(self), *final(self), b as int),
            camp_move_rel(*old(self), *final(self), b as int),
    {
        let ob = self.good_busters[b];
        if ob.coords.x == ob.movement_target.x && ob.coords.y == ob.movement_target.y {
            let mut u = ob;
            u.state = BusterState::Camping;
            self.good_busters[b] = u;
            proof {
                assert(ob.coords == ob.movement_target);
                lemma_wf_after_unit_update(*old(self), *self, b as int);
            }
        } else {
            proof {
                assert(ob.coords != ob.movement_target);
            }
            self.do_camping_transition(b);
        }
    }

    /// Executes the transition due for the unit's current state.
    pub fn do_transition(&mut self, b: usize)
        requires
            old(self).wf(),
            b < old(self).good_busters@.len(),
        ensures
            final(self).wf(),
            transition_frame(*old(self), *final(self), b as int),
            step_rel(*old(self), *final(self), b as int),
    {
        let state = self.good_busters[b].state;
        match state {
            BusterState::Idle => self.do_idle_transition(b),
            BusterState::Searching => self.do_searching_transition(b),
            BusterState::Busting => self.do_busting_transition(b),
            BusterState::MovingToHome => self.do_home_move_transition(b),
            BusterState::MovingAwayFromGhost => self.do_ghost_away_move_transition(b),
            BusterState::MovingToAsshole => self.do_asshole_move_transition(b),
            BusterState::Stunning => self.do_stunning_transition(b),
            BusterState::MovingToGhost => self.do_ghost_move_transition(b),
            BusterState::Releasing => self.do_release_transition(b),
            BusterState::Stunned => self.do_idle_transition(b),
            BusterState::MovingToCamp => self.do_camp_move_transition(b),
            BusterState::Camping => self.do_camping_transition(b),
            BusterState::NotTargetted => {},
            BusterState::DeathMarked => {},
        }
    }

    /// The command a unit's terminal state translates into.  States whose
    /// command needs a target it does not hold fall back to the searching
    /// move, the universal safe fallback.
    pub open spec fn spec_do_state_cmd(m: StateMachine, b: int) -> Command {
        let u = m.good_busters@[b];
        let fallback = Command::Move { x: u.movement_target.x, y: u.movement_target.y };
        match u.state {
            BusterState::Busting => match u.busting_target_id {
                Some(id) => Command::Bust { id },
                None => fallback,
            },
            BusterState::Stunning => match u.stunning_target_id {
                Some(id) => Command::Stun { id },
                None => fallback,
            },
            BusterState::MovingToGhost => match u.busting_target_id {
                Some(id) => {
                    let g = lookup_roamer(m.all_ghosts@, id as int);
                    Command::Move { x: g.coords.x, y: g.coords.y }
                },
                None => fallback,
            },
            BusterState::MovingToAsshole => match u.stunning_target_id {
                Some(id) => {
                    let o = lookup_buster(m.bad_busters@, id as int);
                    Command::Move { x: o.coords.x, y: o.coords.y }
                },
                None => fallback,
            },
            BusterState::MovingAwayFromGhost => match u.busting_target_id {
                Some(id) => {
                    let g = lookup_roamer(m.all_ghosts@, id as int);
                    if spec_dist(u.coords, g.coords) < 300 {
                        Command::Move { x: 0, y: 0 }
                    } else {
                        Command::Move {
                            x: (u.coords.x - (g.coords.x - u.coords.x)) as i32,
                            y: (u.coords.y - (g.coords.y - u.coords.y)) as i32,
                        }
                    }
                },
                None => fallback,
            },
            BusterState::MovingToHome => Command::Move {
                x: m.spec_home_coords().x,
                y: m.spec_home_coords().y,
            },
            BusterState::Releasing => Command::Release,
            _ => fallback,
        }
    }

    /// The searching move: toward the unit's current destination.
    pub fn do_searching(&self, buster: &Buster) -> (r: Command)
        ensures
            r == (Command::Move { x: buster.movement_target.x, y: buster.movement_target.y }),
    {
        Command::Move { x: buster.movement_target.x, y: buster.movement_target.y }
    }

    /// The capture command for the unit's targeted roamer.
    pub fn do_bust(&self, buster: &Buster) -> (r: Command)
        requires
            buster.busting_target_id is Some,
        ensures
            buster.busting_target_id matches Some(id) ==> r == (Command::Bust { id }),
    {
        match buster.busting_target_id {
            Some(id) => Command::Bust { id },
            None => unreached(),
        }
    }

    /// The incapacitation command for the unit's claimed opponent; resets
    /// the unit's own cooldown to its full value.
    pub fn do_stun(&self, buster: &mut Buster) -> (r: Command)
        requires
            old(buster).stunning_target_id is Some,
        ensures
            *final(buster) == (Buster { stun_timer: STUN_COOLDOWN, ..*old(buster) }),
            old(buster).stunning_target_id matches Some(id) ==> r == (Command::Stun { id }),
    {
        buster.stun_timer = STUN_COOLDOWN;
        match buster.stunning_target_id {
            Some(id) => Command::Stun { id },
            None => unreached(),
        }
    }

    /// The move that backs the unit away from its targeted roamer: toward
    /// the point reflected away from the roamer through the unit's own
    /// position, or to the arena origin when the reflection point falls
    /// within a small dead zone of the unit — which happens exactly when
    /// the unit is within rounded distance 300 of its target, since the
    /// reflection lies at the unit-to-target distance from the unit.
    pub fn do_away_ghost_move(&self, buster: &Buster) -> (r: Command)
        requires
            self.wf(),
            in_bounds(buster.coords),
            match buster.busting_target_id {
                Some(id) => roamer_id_present(self.all_ghosts@, id as int),
                None => false,
            },
        ensures
            buster.busting_target_id matches Some(id) ==> r == ({
                let g = lookup_roamer(self.all_ghosts@, id as int);
                if spec_dist(buster.coords, g.coords) < 300 {
                    Command::Move { x: 0, y: 0 }
                } else {
                    Command::Move {
                        x: (buster.coords.x - (g.coords.x - buster.coords.x)) as i32,
                        y: (buster.coords.y - (g.coords.y - buster.coords.y)) as i32,
                    }
                }
            }),
    {
        let id = match buster.busting_target_id {
            Some(id) => id,
            None => unreached(),
        };
        let j = match self.find_roamer_index(id) {
            Some(j) => j,
            None => unreached(),
        };
        let g = self.all_ghosts[j];
        proof {
            assert(in_bounds(self.all_ghosts@[j as int].coords));
        }
        let dx = g.coords.x - buster.coords.x;
        let dy = g.coords.y - buster.coords.y;
        if buster.coords.distance_to(&g.coords) < 300 {
            Command::Move { x: 0, y: 0 }
        } else {
            Command::Move { x: buster.coords.x - dx, y: buster.coords.y - dy }
        }
    }

    /// The move toward the unit's targeted roamer.
    pub fn do_to_ghost_move(&self, buster: &Buster) -> (r: Command)
        requires
            self.wf(),
            match buster.busting_target_id {
                Some(id) => roamer_id_present(self.all_ghosts@, id as int),
                None => false,
            },
        ensures
            buster.busting_target_id matches Some(id) ==> r == ({
                let g = lookup_roamer(self.all_ghosts@, id as int);
                Command::Move { x: g.coords.x, y: g.coords.y }
            }),
    {
        let id = match buster.busting_target_id {
            Some(id) => id,
            None => unreached(),
        };
        let j = match self.find_roamer_index(id) {
            Some(j) => j,
            None => unreached(),
        };
        let g = self.all_ghosts[j];
        Command::Move { x: g.coords.x, y: g.coords.y }
    }

    /// The move toward the unit's claimed opponent.
    pub fn do_to_asshole_move(&self, buster: &Buster) -> (r: Command)
        requires
            self.wf(),
            match buster.stunning_target_id {
                Some(id) => buster_id_present(self.bad_busters@, id as int),
                None => false,
            },
        ensures
            buster.stunning_target_id matches Some(id) ==> r == ({
                let o = lookup_buster(self.bad_busters@, id as int);
                Command::Move { x: o.coords.x, y: o.coords.y }
            }),
    {
        let id = match buster.stunning_target_id {
            Some(id) => id,
            None => unreached(),
        };
        let j = match self.find_bad_index(id) {
            Some(j) => j,
            None => unreached(),
        };
        proof {
            lemma_lookup_buster_first(self.bad_busters@, id as int, j as int);
        }
        let o = self.bad_busters[j];
        Command::Move { x: o.coords.x, y: o.coords.y }
    }

    /// The move toward this squad's home corner.
    pub fn do_go_home(&self) -> (r: Command)
        ensures
            r == (Command::Move { x: self.spec_home_coords().x, y: self.spec_home_coords().y }),
    {
        if self.upper_left_home {
            Command::Move { x: 0, y: 0 }
        } else {
            Command::Move { x: MAP_RIGHT_WALL, y: MAP_BOTTOM_WALL }
        }
    }

    /// The release command for the held roamer.
    pub fn do_release(&self) -> (r: Command)
        ensures
            r == Command::Release,
    {
        Command::Release
    }

    /// Translates the unit's terminal state into this round's command; a
    /// stun action also resets the unit's cooldown.
    pub fn do_state(&mut self, b: usize) -> (r: Command)
        requires
            old(self).wf(),
            b < old(self).good_busters@.len(),
        ensures
            final(self).wf(),
            r == Self::spec_do_state_cmd(*old(self), b as int),
            if old(self).good_busters@[b as int].state == BusterState::Stunning && old(
                self,
            ).good_busters@[b as int].stunning_target_id is Some {
                fixed_sets(*old(self), *final(self)) && final(self).bad_busters == old(
                    self,
                ).bad_busters && final(self).good_busters@ == old(self).good_busters@.update(
                    b as int,
                    (Buster {
                        stun_timer: STUN_COOLDOWN,
                        ..old(self).good_busters@[b as int]
                    }),
                )
            } else {
                *final(self) == *old(self)
            },
    {
        let u = self.good_busters[b];
        proof {
            assert(target_refs_ok(
                old(self).good_busters@[b as int],
                old(self).all_ghosts@,
                old(self).bad_busters@,
            ));
            assert(in_bounds(old(self).good_busters@[b as int].coords));
        }
        match u.state {
            BusterState::Busting => match u.busting_target_id {
                Some(_) => self.do_bust(&u),
                None => self.do_searching(&u),
            },
            BusterState::Stunning => match u.stunning_target_id {
                Some(_) => {
                    let mut nu = u;
                    let cmd = self.do_stun(&mut nu);
                    self.good_busters[b] = nu;
                    proof {
                        lemma_wf_after_unit_update(*old(self), *self, b as int);
                    }
                    cmd
                },
                None => self.do_searching(&u),
            },
            BusterState::MovingToGhost => match u.busting_target_id {
                Some(_) => self.do_to_ghost_move(&u),
                None => self.do_searching(&u),
            },
            BusterState::MovingToAsshole => match u.stunning_target_id {
                Some(_) => self.do_to_asshole_move(&u),
                None => self.do_searching(&u),
            },
            BusterState::MovingAwayFromGhost => match u.busting_target_id {
                Some(_) => self.do_away_ghost_move(&u),
                None => self.do_searching(&u),
            },
            BusterState::MovingToHome => self.do_go_home(),
            BusterState::Releasing => self.do_release(),
            _ => self.do_searching(&u),
        }
    }

    /// Frame composition across consecutive transitions of the same unit.
    pub proof fn lemma_transition_frame_trans(m1: StateMachine, m2: StateMachine, m3: StateMachine, b: int)
        requires
            transition_frame(m1, m2, b),
            transition_frame(m2, m3, b),
        ensures
            transition_frame(m1, m3, b),
    {
        assert forall|j: int|
            0 <= j < m1.bad_busters@.len() implies #[trigger] m3.bad_busters@[j] == (Buster {
            state: m3.bad_busters@[j].state,
            ..m1.bad_busters@[j]
        }) by {
            assert(m2.bad_busters@[j] == (Buster { state: m2.bad_busters@[j].state, ..m1.bad_busters@[j] }));
            assert(m3.bad_busters@[j] == (Buster { state: m3.bad_busters@[j].state, ..m2.bad_busters@[j] }));
        }
    }

    /// Runs the unit's transition loop until its state is stable for this
    /// round, capped defensively at the number of states so an accidental
    /// transition cycle cannot spin forever.
    pub fn state_slide(&mut self, b: usize)
        requires
            old(self).wf(),
            b < old(self).good_busters@.len(),
        ensures
            final(self).wf(),
            transition_frame(*old(self), *final(self), b as int),
            exists|trace: Seq<StateMachine>|
                {
                    &&& #[trigger] is_slide_trace(trace, b as int)
                    &&& trace.first() == *old(self)
                    &&& trace.last() == *final(self)
                    &&& trace.len() <= 15
                    &&& (trace.len() == 15 || !final(self).spec_should_transition(
                        final(self).good_busters@[b as int],
                    ))
                },
    {
        let mut fuel: usize = 14;
        let ghost mut trace: Seq<StateMachine> = seq![*old(self)];
        while fuel > 0
            invariant
                self.wf(),
                b < self.good_busters@.len(),
                transition_frame(*old(self), *self, b as int),
                trace.len() + fuel == 15,
                is_slide_trace(trace, b as int),
                trace.first() == *old(self),
                trace.last() == *self,
            decreases fuel,
        {
            let u = self.good_busters[b];
            proof {
                assert(target_refs_ok(u, self.all_ghosts@, self.bad_busters@));
            }
            if self.should_transition(&u) {
                let ghost mid = *self;
                self.do_transition(b);
                proof {
                    Self::lemma_transition_frame_trans(*old(self), mid, *self, b as int);
                    let prev = trace;
                    trace = trace.push(*self);
                    assert forall|i: int|
                        0 <= i < trace.len() - 1 implies (#[trigger] trace[i]).spec_should_transition(
                        trace[i].good_busters@[b as int],
                    ) && step_rel(trace[i], trace[i + 1], b as int) by {
                        if i < prev.len() - 1 {
                            assert(trace[i] == prev[i] && trace[i + 1] == prev[i + 1]);
                            assert(prev[i].spec_should_transition(prev[i].good_busters@[b as int])
                                && step_rel(prev[i], prev[i + 1], b as int));
                        } else {
                            assert(trace[i] == mid && trace[i + 1] == *self);
                        }
                    }
                }
                fuel = fuel - 1;
            } else {
                proof {
                    assert(is_slide_trace(trace, b as int) && trace.first() == *old(self)
                        && trace.last() == *self && trace.len() <= 15 && (trace.len() == 15
                        || !self.spec_should_transition(self.good_busters@[b as int])));
                }
                return ;
            }
        }
        proof {
            assert(trace.len() == 15);
            assert(is_slide_trace(trace, b as int) && trace.first() == *old(self) && trace.last()
                == *self);
        }
    }

    /// One controlled unit's round: force the incapacitated state if the
    /// unit is stunned, otherwise stabilize its state machine; advance its
    /// cooldown; and emit the command for its terminal state.
    pub fn player_tick(&mut self, player_ind: usize) -> (r: Command)
        requires
            old(self).wf(),
            player_ind < old(self).good_busters@.len(),
        ensures
            final(self).wf(),
            transition_frame(*old(self), *final(self), player_ind as int),
            r == Self::spec_do_state_cmd(*final(self), player_ind as int),
            old(self).good_busters@[player_ind as int].is_stunned ==> (final(self)
                .good_busters@[player_ind as int].state == BusterState::Stunned && r == (Command::Move {
                x: old(self).good_busters@[player_ind as int].movement_target.x,
                y: old(self).good_busters@[player_ind as int].movement_target.y,
            })),
            ({
                let u = final(self).good_busters@[player_ind as int];
                &&& (u.state == BusterState::Busting ==> (u.busting_target_id matches Some(id)
                    ==> r == (Command::Bust { id })))
                &&& (u.state == BusterState::Stunning ==> (u.stunning_target_id matches Some(id)
                    ==> r == (Command::Stun { id }) && u.stun_timer == STUN_COOLDOWN))
            }),
            ({
                let pre = *old(self);
                let post = *final(self);
                let bi = player_ind as int;
                exists|mid: StateMachine|
                    {
                        &&& #[trigger] mid.wf()
                        &&& if pre.good_busters@[bi].is_stunned {
                            fixed_sets(pre, mid) && mid.bad_busters == pre.bad_busters
                                && mid.good_busters@ == pre.good_busters@.update(
                                bi,
                                (Buster {
                                    state: BusterState::Stunned,
                                    ..pre.good_busters@[bi]
                                }),
                            )
                        } else {
                            exists|trace: Seq<StateMachine>|
                                {
                                    &&& #[trigger] is_slide_trace(trace, bi)
                                    &&& trace.first() == pre
                                    &&& trace.last() == mid
                                    &&& trace.len() <= 15
                                    &&& (trace.len() == 15 || !mid.spec_should_transition(
                                        mid.good_busters@[bi],
                                    ))
                                }
                        }
                        &&& ({
                            let ticked = (Buster {
                                stun_timer: if mid.good_busters@[bi].stun_timer > 0 {
                                    (mid.good_busters@[bi].stun_timer - 1) as i32
                                } else {
                                    0
                                },
                                ..mid.good_busters@[bi]
                            });
                            let stun_reset = ticked.state == BusterState::Stunning
                                && ticked.stunning_target_id is Some;
                            &&& fixed_sets(mid, post)
                            &&& post.bad_busters == mid.bad_busters
                            &&& post.good_busters@ == mid.good_busters@.update(
                                bi,
                                (Buster {
                                    stun_timer: if stun_reset {
                                        STUN_COOLDOWN
                                    } else {
                                        ticked.stun_timer
                                    },
                                    ..ticked
                                }),
                            )
                        })
                    }
            }),
    {
        let b = player_ind;
        let stunned = self.good_busters[b].is_stunned;
        if stunned {
            let mut u = self.good_busters[b];
            u.state = BusterState::Stunned;
            self.good_busters[b] = u;
            proof {
                assert(target_refs_ok(
                    old(self).good_busters@[b as int],
                    old(self).all_ghosts@,
                    old(self).bad_busters@,
                ));
                lemma_wf_after_unit_update(*old(self), *self, b as int);
            }
        } else {
            self.state_slide(b);
        }
        let ghost m1 = *self;
        let mut u = self.good_busters[b];
        proof {
            assert(in_bounds(m1.good_busters@[b as int].coords));
            assert(m1.good_busters@[b as int].stun_timer >= 0);
        }
        u.tick();
        self.good_busters[b] = u;
        proof {
            assert(target_refs_ok(m1.good_busters@[b as int], m1.all_ghosts@, m1.bad_busters@));
            lemma_wf_after_unit_update(m1, *self, b as int);
            Self::lemma_transition_frame_trans(*old(self), m1, *self, b as int);
        }
        let ghost m2 = *self;
        let r = self.do_state(b);
        proof {
            if !(m2.good_busters@[b as int].state == BusterState::Stunning
                && m2.good_busters@[b as int].stunning_target_id is Some) {
                assert(*self == m2);
            }
            Self::lemma_transition_frame_trans(*old(self), m2, *self, b as int);
            assert(Self::spec_do_state_cmd(m2, b as int) == Self::spec_do_state_cmd(
                *self,
                b as int,
            ));
            let bi = b as int;
            let ticked = (Buster {
                stun_timer: if m1.good_busters@[bi].stun_timer > 0 {
                    (m1.good_busters@[bi].stun_timer - 1) as i32
                } else {
                    0
                },
                ..m1.good_busters@[bi]
            });
            assert(u == ticked);
            assert(m2.good_busters@ == m1.good_busters@.update(bi, ticked));
            let stun_reset = ticked.state == BusterState::Stunning
                && ticked.stunning_target_id is Some;
            if stun_reset {
                assert(self.good_busters@ =~= m1.good_busters@.update(
                    bi,
                    (Buster { stun_timer: STUN_COOLDOWN, ..ticked }),
                ));
            } else {
                assert((Buster { stun_timer: ticked.stun_timer, ..ticked }) == ticked);
            }
            if old(self).good_busters@[bi].is_stunned {
                assert(m1.good_busters@ =~= old(self).good_busters@.update(
                    bi,
                    (Buster {
                        state: BusterState::Stunned,
                        ..old(self).good_busters@[bi]
                    }),
                ));
            }
            assert(m1.wf());
        }
        r
    }

    /// Advances the persistent state by one round: reconciles all three
    /// entity populations with the observed snapshot — adopting the squads
    /// wholesale and running the capture fan-out on the very first round —
    /// rebuilds the broadcast list, advances the round counter, and lays
    /// out the camping perimeter when the camping round is reached.
    pub fn update_tick(
        &mut self,
        new_ghosts: Vec<Roamer>,
        new_good: Vec<Buster>,
        new_evil: Vec<Buster>,
    )
        requires
            old(self).wf(),
            old(self).turn_count < 1_000_000_000,
            old(self).good_busters@.len() <= 1000,
            unique_roamer_ids(new_ghosts@),
            roamers_bounded(new_ghosts@),
            unique_buster_ids(new_good@),
            busters_ok(new_good@),
            new_good@.len() <= 1000,
            unique_buster_ids(new_evil@),
            busters_ok(new_evil@),
            old(self).good_busters@.len() == 0 ==> controlled_states(new_good@) && (forall|k: int|
                0 <= k < new_good@.len() ==> (#[trigger] new_good@[k].busting_target_id is None
                    && new_good@[k].stunning_target_id is None)),
        ensures
            final(self).wf(),
            final(self).upper_left_home == old(self).upper_left_home,
            final(self).turn_count == old(self).turn_count + 1,
            final(self).all_ghosts@ == merge_roamers(old(self).all_ghosts@, new_ghosts@),
            ({
                let uph = old(self).upper_left_home;
                let camp_now = old(self).turn_count + 1 == START_CAMPING_TURN;
                if old(self).good_busters@.len() == 0 {
                    let adopted = greedy_targets(
                        new_good@,
                        throw_pool(uph, new_good@.len(), false),
                    );
                    &&& final(self).bad_busters@ == new_evil@
                    &&& final(self).global_ping_stack@ == targets_of(adopted)
                    &&& final(self).good_busters@ == (if camp_now {
                        greedy_targets(adopted, throw_pool(uph, adopted.len(), true))
                    } else {
                        adopted
                    })
                } else {
                    let refreshed = prune_stunning_targets(
                        refresh_good(
                            prune_busting_targets(old(self).good_busters@, new_ghosts@),
                            new_good@,
                        ),
                        new_evil@,
                    );
                    &&& final(self).bad_busters@ == merge_busters(
                        old(self).bad_busters@,
                        new_evil@,
                    )
                    &&& final(self).global_ping_stack@ == targets_of(refreshed)
                    &&& final(self).good_busters@ == (if camp_now {
                        greedy_targets(refreshed, throw_pool(uph, refreshed.len(), true))
                    } else {
                        refreshed
                    })
                }
            }),
    {
        let was_empty: bool = self.good_busters.len() == 0;
        self.update_ghosts(new_ghosts);
        if was_empty {
            self.good_busters = new_good;
            proof {
                assert(prune_busting_targets(old(self).good_busters@, new_ghosts@)
                    =~= Seq::<Buster>::empty());
                assert(self.wf0());
            }
            self.throw_and_assign_coords(false);
            self.bad_busters = new_evil;
            proof {
                assert forall|j: int| 0 <= j < self.good_busters@.len() implies target_refs_ok(
                    #[trigger] self.good_busters@[j],
                    self.all_ghosts@,
                    self.bad_busters@,
                ) by {
                    assert(self.good_busters@[j].busting_target_id is None
                        && self.good_busters@[j].stunning_target_id is None) by {
                        let pool = throw_pool(
                            old(self).upper_left_home,
                            new_good@.len(),
                            false,
                        );
                        Self::lemma_greedy_keeps_targets(new_good@, pool);
                    }
                }
                assert(self.wf0());
            }
        } else {
            self.update_good(new_good);
            self.update_evil(new_evil);
        }
        let ghost pinged_good = self.good_busters@;
        self.do_global_ping();
        proof {
            lemma_targets_of_present(pinged_good, self.all_ghosts@, self.bad_busters@);
            assert(self.wf());
        }
        self.turn_count = self.turn_count + 1;
        proof {
            if was_empty {
                Self::lemma_greedy_keeps_targets(
                    new_good@,
                    throw_pool(old(self).upper_left_home, new_good@.len(), false),
                );
            }
            assert(self.good_busters@.len() <= 1000);
        }
        if self.turn_count == START_CAMPING_TURN {
            self.throw_and_assign_coords(true);
        }
    }

    /// Greedy assignment changes only movement destinations: every unit's
    /// target references survive it untouched.
    pub proof fn lemma_greedy_keeps_targets(busters: Seq<Buster>, pool: Seq<Coord>)
        ensures
            greedy_targets(busters, pool).len() == busters.len(),
            forall|k: int|
                0 <= k < busters.len() ==> (#[trigger] greedy_targets(busters, pool)[k]
                    == (Buster {
                    movement_target: greedy_targets(busters, pool)[k].movement_target,
                    ..busters[k]
                })),
        decreases busters.len(),
    {
        if busters.len() > 0 && pool.len() > 0 {
            let j = first_argmin(pool, busters[0].coords);
            lemma_first_argmin_in_range(pool, busters[0].coords);
            Self::lemma_greedy_keeps_targets(busters.drop_first(), pool.remove(j));
            assert forall|k: int|
                0 <= k < busters.len() implies (#[trigger] greedy_targets(busters, pool)[k]
                == (Buster {
                movement_target: greedy_targets(busters, pool)[k].movement_target,
                ..busters[k]
            })) by {
                if k > 0 {
                    assert(greedy_targets(busters, pool)[k] == greedy_targets(
                        busters.drop_first(),
                        pool.remove(j),
                    )[k - 1]);
                    assert(busters.drop_first()[k - 1] == busters[k]);
                }
            }
        }
    }

    /// The index of the first tracked opposing unit with the given
    /// identity.
    pub fn find_bad_index(&self, id: i32) -> (r: Option<usize>)
        ensures
            match r {
                Some(i) => 0 <= i < self.bad_busters@.len() && self.bad_busters@[i as int].entity_id
                    == id && (forall|j: int|
                    0 <= j < i ==> #[trigger] self.bad_busters@[j].entity_id != id),
                None => !buster_id_present(self.bad_busters@, id as int),
            },
    {
        let n = self.bad_busters.len();
        let mut i: usize = 0;
        while i < n
            invariant
                n == self.bad_busters@.len(),
                i <= n,
                forall|j: int| 0 <= j < i ==> #[trigger] self.bad_busters@[j].entity_id != id,
            decreases n - i,
        {
            if self.bad_busters[i].entity_id == id {
                return Some(i);
            }
            i = i + 1;
        }
        None
    }
}

} // verus!
