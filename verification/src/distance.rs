//! Distance to the targets over a directed graph.
//!
//! The distance of a node is the least number of edges on a path from it to
//! a target; a target has distance zero, and a node from which no target can
//! be reached has none. Scores are distances cut off below [`UNDEF_SCORE`],
//! which stands for "no distance".

use std::collections::HashMap;
use vstd::prelude::*;
use vstd::std_specs::hash::*;

verus! {

/// Score of a target.
pub const TARGET_SCORE: u32 = 0;

/// Score of a node from which no target is reached.
pub const UNDEF_SCORE: u32 = 0xffff_ffff;

/// Longest path that still counts: one less than [`UNDEF_SCORE`].
pub const MAX_HOPS: u32 = 0xffff_fffe;

/// Whether a target is reached from `x` over at most `k` edges.
pub open spec fn reaches_within(edges: Set<(u32, u32)>, targets: Set<u32>, x: u32, k: nat) -> bool
    decreases k,
{
    targets.contains(x) || (k > 0 && exists|y: u32| #[trigger]
        edges.contains((x, y)) && reaches_within(edges, targets, y, (k - 1) as nat))
}

/// Whether `d` is the length of a shortest path from `x` to a target.
pub open spec fn is_hops(edges: Set<(u32, u32)>, targets: Set<u32>, x: u32, d: nat) -> bool {
    reaches_within(edges, targets, x, d) && (d > 0 ==> !reaches_within(
        edges,
        targets,
        x,
        (d - 1) as nat,
    ))
}

/// The length of a shortest path from `x` to a target, if there is one.
pub open spec fn least_hops(edges: Set<(u32, u32)>, targets: Set<u32>, x: u32) -> nat {
    choose|d: nat| is_hops(edges, targets, x, d)
}

/// The score of `x`: its distance to the nearest target, or [`UNDEF_SCORE`]
/// if no target is within [`MAX_HOPS`] edges.
pub open spec fn score_of(edges: Set<(u32, u32)>, targets: Set<u32>, x: u32) -> u32 {
    if reaches_within(edges, targets, x, MAX_HOPS as nat) {
        least_hops(edges, targets, x) as u32
    } else {
        UNDEF_SCORE
    }
}

/// A table of distances that holds exactly the nodes that have a score, each
/// with its distance.
pub open spec fn distances_match(
    dist: Map<u32, u32>,
    edges: Set<(u32, u32)>,
    targets: Set<u32>,
) -> bool {
    level_holds(dist, edges, targets, MAX_HOPS as nat)
}

/// A table of distances that is complete up to paths of `level` edges.
pub open spec fn level_holds(
    dist: Map<u32, u32>,
    edges: Set<(u32, u32)>,
    targets: Set<u32>,
    level: nat,
) -> bool {
    &&& forall|x: u32| #[trigger]
        dist.contains_key(x) <==> reaches_within(edges, targets, x, level)
    &&& forall|x: u32| #[trigger]
        dist.contains_key(x) ==> is_hops(edges, targets, x, dist[x] as nat)
}

/// A longer path allowance reaches at least as much.
pub proof fn lemma_reach_mono(edges: Set<(u32, u32)>, targets: Set<u32>, x: u32, k1: nat, k2: nat)
    requires
        k1 <= k2,
        reaches_within(edges, targets, x, k1),
    ensures
        reaches_within(edges, targets, x, k2),
    decreases k1,
{
    if !targets.contains(x) {
        let y = choose|y: u32| #[trigger]
            edges.contains((x, y)) && reaches_within(edges, targets, y, (k1 - 1) as nat);
        lemma_reach_mono(edges, targets, y, (k1 - 1) as nat, (k2 - 1) as nat);
    }
}

/// A shortest path is no longer than any path.
pub proof fn lemma_hops_least(edges: Set<(u32, u32)>, targets: Set<u32>, x: u32, d: nat, k: nat)
    requires
        is_hops(edges, targets, x, d),
        reaches_within(edges, targets, x, k),
    ensures
        d <= k,
{
    if k < d {
        lemma_reach_mono(edges, targets, x, k, (d - 1) as nat);
    }
}

/// Where a target is reached at all, there is a shortest path.
pub proof fn lemma_least_exists(edges: Set<(u32, u32)>, targets: Set<u32>, x: u32, k: nat)
    requires
        reaches_within(edges, targets, x, k),
    ensures
        is_hops(edges, targets, x, least_hops(edges, targets, x)),
        least_hops(edges, targets, x) <= k,
    decreases k,
{
    if k > 0 && reaches_within(edges, targets, x, (k - 1) as nat) {
        lemma_least_exists(edges, targets, x, (k - 1) as nat);
    } else {
        assert(is_hops(edges, targets, x, k));
        lemma_hops_least(edges, targets, x, least_hops(edges, targets, x), k);
    }
}

/// The score of a node is its shortest distance, wherever it has one below the cut-off.
pub proof fn lemma_score_is_hops(edges: Set<(u32, u32)>, targets: Set<u32>, x: u32, d: nat)
    requires
        is_hops(edges, targets, x, d),
        d <= MAX_HOPS,
    ensures
        score_of(edges, targets, x) == d,
{
    lemma_reach_mono(edges, targets, x, d, MAX_HOPS as nat);
    lemma_least_exists(edges, targets, x, d);
    lemma_hops_least(edges, targets, x, d, least_hops(edges, targets, x));
}

/// Targets, and only they, have score zero.
pub proof fn lemma_target_score(edges: Set<(u32, u32)>, targets: Set<u32>, x: u32)
    ensures
        targets.contains(x) <==> score_of(edges, targets, x) == TARGET_SCORE,
{
    if targets.contains(x) {
        lemma_score_is_hops(edges, targets, x, 0);
    } else if reaches_within(edges, targets, x, MAX_HOPS as nat) {
        lemma_least_exists(edges, targets, x, MAX_HOPS as nat);
    }
}

/// More edges and more targets reach at least as much.
pub proof fn lemma_reach_grows(
    edges: Set<(u32, u32)>,
    targets: Set<u32>,
    more_edges: Set<(u32, u32)>,
    more_targets: Set<u32>,
    x: u32,
    k: nat,
)
    requires
        edges.subset_of(more_edges),
        targets.subset_of(more_targets),
        reaches_within(edges, targets, x, k),
    ensures
        reaches_within(more_edges, more_targets, x, k),
    decreases k,
{
    if !targets.contains(x) {
        let y = choose|y: u32| #[trigger]
            edges.contains((x, y)) && reaches_within(edges, targets, y, (k - 1) as nat);
        lemma_reach_grows(edges, targets, more_edges, more_targets, y, (k - 1) as nat);
        assert(more_edges.contains((x, y)));
    }
}

/// Distance monotonicity: with more edges and more targets no score rises;
/// read the other way, taking edges or targets away lowers no score.
pub proof fn lemma_score_monotone(
    edges: Set<(u32, u32)>,
    targets: Set<u32>,
    more_edges: Set<(u32, u32)>,
    more_targets: Set<u32>,
    x: u32,
)
    requires
        edges.subset_of(more_edges),
        targets.subset_of(more_targets),
    ensures
        score_of(more_edges, more_targets, x) <= score_of(edges, targets, x),
{
    if reaches_within(edges, targets, x, MAX_HOPS as nat) {
        lemma_least_exists(edges, targets, x, MAX_HOPS as nat);
        let d = least_hops(edges, targets, x);
        lemma_reach_grows(edges, targets, more_edges, more_targets, x, d);
        lemma_reach_mono(more_edges, more_targets, x, d, MAX_HOPS as nat);
        lemma_least_exists(more_edges, more_targets, x, d);
    }
}

/// Once one more edge reaches nothing new, no number of edges does.
proof fn lemma_stable(edges: Set<(u32, u32)>, targets: Set<u32>, level: nat, x: u32, k: nat)
    requires
        forall|z: u32| #[trigger]
            reaches_within(edges, targets, z, level + 1) ==> reaches_within(
                edges,
                targets,
                z,
                level,
            ),
        reaches_within(edges, targets, x, k),
    ensures
        reaches_within(edges, targets, x, level),
    decreases k,
{
    if targets.contains(x) {
    } else {
        let y = choose|y: u32| #[trigger]
            edges.contains((x, y)) && reaches_within(edges, targets, y, (k - 1) as nat);
        lemma_stable(edges, targets, level, y, (k - 1) as nat);
        assert(reaches_within(edges, targets, x, level + 1));
    }
}

/// What a table of distances says of a node: its distance, or
/// [`UNDEF_SCORE`] if the table does not hold it.
pub open spec fn lookup(dist: Map<u32, u32>, x: u32) -> u32 {
    if dist.contains_key(x) {
        dist[x]
    } else {
        UNDEF_SCORE
    }
}

/// A matching table gives every node its score.
pub proof fn lemma_lookup_is_score(
    dist: Map<u32, u32>,
    edges: Set<(u32, u32)>,
    targets: Set<u32>,
    x: u32,
)
    requires
        distances_match(dist, edges, targets),
    ensures
        lookup(dist, x) == score_of(edges, targets, x),
{
    if dist.contains_key(x) {
        lemma_hops_least(edges, targets, x, dist[x] as nat, MAX_HOPS as nat);
        lemma_score_is_hops(edges, targets, x, dist[x] as nat);
    }
}

/// One round of the search: every node with an edge to a node at distance
/// `level` that has no distance yet gets distance `level + 1`.
fn relax(
    edges: &Vec<(u32, u32)>,
    dist: &mut HashMap<u32, u32>,
    level: u32,
    Ghost(targets): Ghost<Set<u32>>,
) -> (changed: bool)
    requires
        level < MAX_HOPS,
        level_holds(old(dist)@, edges@.to_set(), targets, level as nat),
    ensures
        level_holds(final(dist)@, edges@.to_set(), targets, (level + 1) as nat),
        !changed ==> final(dist)@ == old(dist)@,
{
    broadcast use group_hash_axioms;

    let ghost es = edges@.to_set();
    let ghost before = dist@;
    let mut changed = false;
    let mut j: usize = 0;
    while j < edges.len()
        invariant
            j <= edges.len(),
            level < MAX_HOPS,
            es == edges@.to_set(),
            level_holds(before, es, targets, level as nat),
            forall|x: u32| #[trigger]
                before.contains_key(x) ==> dist@.contains_key(x) && dist@[x] == before[x],
            forall|x: u32| #[trigger]
                dist@.contains_key(x) && !before.contains_key(x) ==> dist@[x] == level + 1
                    && is_hops(es, targets, x, (level + 1) as nat),
            forall|i: int|
                0 <= i < j && before.contains_key((#[trigger] edges@[i]).1) && before[edges@[i].1]
                    == level ==> dist@.contains_key(edges@[i].0),
            !changed ==> dist@ == before,
        decreases edges.len() - j,
    {
        let (u, v) = edges[j];
        assert(es.contains((u, v))) by {
            assert(edges@[j as int] == (u, v));
        }
        let reached = match dist.get(&v) {
            Some(d) => *d == level,
            None => false,
        };
        assert(reached <==> before.contains_key(v) && before[v] == level);
        if reached && !dist.contains_key(&u) {
            proof {
                assert(is_hops(es, targets, v, level as nat));
                assert(reaches_within(es, targets, u, (level + 1) as nat));
                assert(!before.contains_key(u));
                assert(!reaches_within(es, targets, u, level as nat));
            }
            dist.insert(u, level + 1);
            changed = true;
        }
        j += 1;
    }
    proof {
        let after = dist@;
        assert forall|x: u32| #[trigger]
            after.contains_key(x) <==> reaches_within(es, targets, x, (level + 1) as nat) by {
            if after.contains_key(x) {
                if before.contains_key(x) {
                    lemma_reach_mono(es, targets, x, level as nat, (level + 1) as nat);
                }
            }
            if reaches_within(es, targets, x, (level + 1) as nat) && !after.contains_key(x) {
                assert(!before.contains_key(x));
                assert(!reaches_within(es, targets, x, level as nat));
                if targets.contains(x) {
                    lemma_reach_mono(es, targets, x, 0, level as nat);
                }
                let y = choose|y: u32| #[trigger]
                    es.contains((x, y)) && reaches_within(es, targets, y, level as nat);
                assert(before.contains_key(y));
                lemma_hops_least(es, targets, y, before[y] as nat, level as nat);
                if before[y] < level {
                    lemma_reach_mono(es, targets, y, before[y] as nat, (level - 1) as nat);
                    assert(reaches_within(es, targets, x, level as nat));
                }
                let i = choose|i: int| 0 <= i < edges@.len() && edges@[i] == (x, y);
                assert(before.contains_key(edges@[i].1));
                assert(after.contains_key(edges@[i].0));
            }
        }
        assert forall|x: u32| #[trigger]
            after.contains_key(x) implies is_hops(es, targets, x, after[x] as nat) by {
            if before.contains_key(x) {
                assert(after[x] == before[x]);
            }
        }
    }
    changed
}

/// The distance of every node that has a score.
pub fn distances(edges: &Vec<(u32, u32)>, targets: &Vec<u32>) -> (dist: HashMap<u32, u32>)
    ensures
        distances_match(dist@, edges@.to_set(), targets@.to_set()),
{
    broadcast use group_hash_axioms;

    let ghost es = edges@.to_set();
    let ghost ts = targets@.to_set();
    let mut dist: HashMap<u32, u32> = HashMap::new();
    let mut t: usize = 0;
    while t < targets.len()
        invariant
            t <= targets.len(),
            forall|x: u32| #[trigger]
                dist@.contains_key(x) <==> exists|i: int| 0 <= i < t && targets@[i] == x,
            forall|x: u32| #[trigger] dist@.contains_key(x) ==> dist@[x] == 0,
        decreases targets.len() - t,
    {
        let ghost prev = dist@;
        let target = targets[t];
        dist.insert(target, 0);
        proof {
            assert forall|x: u32| #[trigger]
                dist@.contains_key(x) <==> exists|i: int| 0 <= i < t + 1 && targets@[i] == x by {
                if dist@.contains_key(x) {
                    if x == target {
                        assert(targets@[t as int] == x);
                    } else {
                        assert(prev.contains_key(x));
                        let i = choose|i: int| 0 <= i < t && targets@[i] == x;
                        assert(0 <= i < t + 1 && targets@[i] == x);
                    }
                }
                if exists|i: int| 0 <= i < t + 1 && targets@[i] == x {
                    let i = choose|i: int| 0 <= i < t + 1 && targets@[i] == x;
                    if i < t {
                        assert(prev.contains_key(x));
                    }
                }
            }
        }
        t += 1;
    }
    proof {
        assert forall|x: u32| #[trigger]
            dist@.contains_key(x) <==> reaches_within(es, ts, x, 0) by {
            if dist@.contains_key(x) {
                let i = choose|i: int| 0 <= i < t && targets@[i] == x;
                assert(targets@.contains(x));
            }
            if ts.contains(x) {
                let i = choose|i: int| 0 <= i < targets@.len() && targets@[i] == x;
                assert(0 <= i < t && targets@[i] == x);
            }
        }
    }
    let mut level: u32 = 0;
    let mut stable = false;
    while !stable && level < MAX_HOPS
        invariant
            level <= MAX_HOPS,
            es == edges@.to_set(),
            level_holds(dist@, es, ts, level as nat),
            stable ==> forall|z: u32| #[trigger]
                reaches_within(es, ts, z, (level + 1) as nat) ==> reaches_within(es, ts, z, level as nat),
        decreases MAX_HOPS - level + (if stable { 0int } else { 1int }),
    {
        let ghost before = dist@;
        let changed = relax(edges, &mut dist, level, Ghost(ts));
        if changed {
            level += 1;
        } else {
            proof {
                assert forall|z: u32| #[trigger]
                    reaches_within(es, ts, z, (level + 1) as nat) implies reaches_within(
                    es,
                    ts,
                    z,
                    level as nat,
                ) by {
                    assert(dist@.contains_key(z));
                }
            }
            stable = true;
        }
    }
    proof {
        if stable {
            assert forall|x: u32| #[trigger]
                dist@.contains_key(x) <==> reaches_within(es, ts, x, MAX_HOPS as nat) by {
                if dist@.contains_key(x) {
                    lemma_reach_mono(es, ts, x, level as nat, MAX_HOPS as nat);
                }
                if reaches_within(es, ts, x, MAX_HOPS as nat) {
                    lemma_stable(es, ts, level as nat, x, MAX_HOPS as nat);
                }
            }
        }
    }
    dist
}

} // verus!
