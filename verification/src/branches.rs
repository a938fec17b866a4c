//! Branch bitmaps.
//!
//! A run leaves a trace: for every edge (by its hash) the number of times
//! it was taken, as one byte. Hit counts fall into buckets, one bit each. For
//! each kind of outcome the fuzzer keeps a map of what was not seen yet: a
//! byte per edge, all bits set at first, in which the bit of a bucket is
//! cleared once a run took the edge that often.

use crate::status::StatusType;
use vstd::prelude::*;

verus! {

/// Number of edges a bitmap has room for.
pub const BRANCHES_SIZE: usize = 0x10_0000;

/// The bucket, as one bit, of a hit count; no bit for zero.
pub open spec fn hit_bucket(count: u8) -> u8 {
    if count == 0 {
        0
    } else if count == 1 {
        1
    } else if count == 2 {
        2
    } else if count == 3 {
        4
    } else if count <= 7 {
        8
    } else if count <= 15 {
        16
    } else if count <= 31 {
        32
    } else if count <= 127 {
        64
    } else {
        128
    }
}

/// Executable form of [`hit_bucket`].
pub fn bucket(count: u8) -> (r: u8)
    ensures
        r == hit_bucket(count),
{
    if count == 0 {
        0
    } else if count == 1 {
        1
    } else if count == 2 {
        2
    } else if count == 3 {
        4
    } else if count <= 7 {
        8
    } else if count <= 15 {
        16
    } else if count <= 31 {
        32
    } else if count <= 127 {
        64
    } else {
        128
    }
}

/// Whether the hit count `count` of an edge is news to the map byte `unseen`.
pub open spec fn is_news(unseen: u8, count: u8) -> bool {
    unseen & hit_bucket(count) != 0
}

/// The map byte after a run took the edge `count` times.
pub open spec fn marked(unseen: u8, count: u8) -> u8 {
    unseen & !hit_bucket(count)
}

/// The map after the trace of a run was merged into it.
pub open spec fn merged(map: Seq<u8>, trace: Seq<u8>) -> Seq<u8> {
    Seq::new(
        map.len(),
        |i: int|
            if i < trace.len() {
                marked(map[i], trace[i])
            } else {
                map[i]
            },
    )
}

/// Whether the trace holds a bucket that the map has not seen.
pub open spec fn has_new_path(map: Seq<u8>, trace: Seq<u8>) -> bool {
    exists|i: int| 0 <= i < map.len() && i < trace.len() && is_news(map[i], #[trigger] trace[i])
}

/// Whether the trace takes an edge that the map has never seen taken.
pub open spec fn has_new_edge(map: Seq<u8>, trace: Seq<u8>) -> bool {
    exists|i: int| 0 <= i < map.len() && i < trace.len() && (#[trigger] trace[i]) != 0 && map[i] == 255
}

/// Number of edges taken among the first `n` of the trace.
pub open spec fn edges_taken(trace: Seq<u8>, n: nat) -> nat
    decreases n,
{
    if n == 0 {
        0
    } else {
        edges_taken(trace, (n - 1) as nat) + if trace[n - 1] != 0 {
            1nat
        } else {
            0nat
        }
    }
}

/// What `is_news` and `marked` mean bit by bit.
proof fn lemma_bits(unseen: u8, b: u8)
    ensures
        (unseen & !b) & b == 0,
        (unseen & !b) & !b == unseen & !b,
        unseen & b == 0 ==> unseen & !b == unseen,
        unseen == 255 && b != 0 ==> unseen & b != 0,
        (unseen & !b) & !unseen == 0,
{
    assert((unseen & !b) & b == 0) by (bit_vector);
    assert((unseen & !b) & !b == unseen & !b) by (bit_vector);
    assert(unseen & b == 0 ==> unseen & !b == unseen) by (bit_vector);
    assert(unseen == 255 && b != 0 ==> unseen & b != 0) by (bit_vector);
    assert((unseen & !b) & !unseen == 0) by (bit_vector);
}

/// Once a trace is merged into a map, the same trace is no news to it: it
/// holds no new path and no new edge, and merging it again changes nothing.
pub proof fn lemma_replay_finds_nothing(map: Seq<u8>, trace: Seq<u8>)
    ensures
        !has_new_path(merged(map, trace), trace),
        !has_new_edge(merged(map, trace), trace),
        merged(merged(map, trace), trace) == merged(map, trace),
{
    let after = merged(map, trace);
    assert forall|i: int| 0 <= i < after.len() && i < trace.len() implies !is_news(
        after[i],
        #[trigger] trace[i],
    ) && !(trace[i] != 0 && after[i] == 255) && marked(after[i], trace[i]) == after[i] by {
        lemma_bits(map[i], hit_bucket(trace[i]));
        lemma_bits(after[i], hit_bucket(trace[i]));
    }
    assert(merged(after, trace) =~= after);
}

/// A map only ever loses bits: what was seen stays seen.
pub proof fn lemma_merge_only_clears(map: Seq<u8>, trace: Seq<u8>, i: int)
    requires
        0 <= i < map.len(),
    ensures
        merged(map, trace).len() == map.len(),
        merged(map, trace)[i] & !map[i] == 0,
{
    if i < trace.len() {
        lemma_bits(map[i], hit_bucket(trace[i]));
    } else {
        let m = map[i];
        assert(m & !m == 0) by (bit_vector);
    }
}

/// A map without news for a trace is left as it is by merging the trace.
pub proof fn lemma_no_news_no_change(map: Seq<u8>, trace: Seq<u8>)
    requires
        !has_new_path(map, trace),
    ensures
        merged(map, trace) == map,
{
    assert forall|i: int| 0 <= i < map.len() implies merged(map, trace)[i] == map[i] by {
        if i < trace.len() {
            assert(!is_news(map[i], trace[i]));
            lemma_bits(map[i], hit_bucket(trace[i]));
        }
    }
    assert(merged(map, trace) =~= map);
}

/// Merges the trace of a run into a map. Returns whether the trace held a
/// new path, whether it held a new edge, and how many edges it took.
pub fn merge_trace(map: &mut Vec<u8>, trace: &Vec<u8>) -> (r: (bool, bool, usize))
    ensures
        final(map)@ == merged(old(map)@, trace@),
        r.0 == has_new_path(old(map)@, trace@),
        r.1 == has_new_edge(old(map)@, trace@),
        r.2 == edges_taken(trace@, trace@.len()),
{
    let ghost before = map@;
    let mut new_path = false;
    let mut new_edge = false;
    let mut edges: usize = 0;
    let mut i: usize = 0;
    while i < trace.len()
        invariant
            i <= trace.len(),
            map@.len() == before.len(),
            forall|j: int| 0 <= j < map@.len() ==> map@[j] == if j < i {
                marked(before[j], trace@[j])
            } else {
                before[j]
            },
            new_path <==> exists|j: int|
                0 <= j < before.len() && j < i && is_news(before[j], #[trigger] trace@[j]),
            new_edge <==> exists|j: int|
                0 <= j < before.len() && j < i && (#[trigger] trace@[j]) != 0 && before[j] == 255,
            edges == edges_taken(trace@, i as nat),
            edges <= i,
        decreases trace.len() - i,
    {
        let count = trace[i];
        if count != 0 {
            edges += 1;
        }
        if i < map.len() {
            let unseen = map[i];
            let bit = bucket(count);
            if count != 0 && unseen == 255 {
                new_edge = true;
            }
            if unseen & bit != 0 {
                new_path = true;
            }
            map[i] = unseen & !bit;
        }
        i += 1;
    }
    proof {
        assert(map@ =~= merged(before, trace@));
    }
    (new_path, new_edge, edges)
}

/// The maps of what was not seen yet, one for each kind of outcome.
pub struct GlobalBranches {
    pub virgin_branches: Vec<u8>,
    pub tmouts_branches: Vec<u8>,
    pub crashes_branches: Vec<u8>,
}

/// The maps as mathematical values.
pub struct GlobalBranchesView {
    pub virgin_branches: Seq<u8>,
    pub tmouts_branches: Seq<u8>,
    pub crashes_branches: Seq<u8>,
}

impl View for GlobalBranches {
    type V = GlobalBranchesView;

    open spec fn view(&self) -> GlobalBranchesView {
        GlobalBranchesView {
            virgin_branches: self.virgin_branches@,
            tmouts_branches: self.tmouts_branches@,
            crashes_branches: self.crashes_branches@,
        }
    }
}

impl GlobalBranchesView {
    /// The map that runs of this status are held against, if any.
    pub open spec fn map_of(self, status: StatusType) -> Option<Seq<u8>> {
        match status {
            StatusType::Normal => Some(self.virgin_branches),
            StatusType::Timeout => Some(self.tmouts_branches),
            StatusType::Crash => Some(self.crashes_branches),
            _ => None,
        }
    }

    /// The maps after the trace of a run of this status was merged.
    pub open spec fn after(self, trace: Seq<u8>, status: StatusType) -> GlobalBranchesView {
        match status {
            StatusType::Normal => GlobalBranchesView {
                virgin_branches: merged(self.virgin_branches, trace),
                ..self
            },
            StatusType::Timeout => GlobalBranchesView {
                tmouts_branches: merged(self.tmouts_branches, trace),
                ..self
            },
            StatusType::Crash => GlobalBranchesView {
                crashes_branches: merged(self.crashes_branches, trace),
                ..self
            },
            _ => self,
        }
    }

    /// What a run of this status with this trace is found to hold: whether
    /// a new path, whether a new edge, and how many edges. Runs that are not
    /// filed hold nothing.
    pub open spec fn news(self, trace: Seq<u8>, status: StatusType) -> (bool, bool, nat) {
        match self.map_of(status) {
            Some(map) => (
                has_new_path(map, trace),
                has_new_edge(map, trace),
                edges_taken(trace, trace.len()),
            ),
            None => (false, false, 0),
        }
    }
}

/// A map of `size` edges of which nothing was seen.
fn unseen_map(size: usize) -> (r: Vec<u8>)
    ensures
        r@ == Seq::new(size as nat, |i: int| 255u8),
{
    let mut map: Vec<u8> = Vec::new();
    let mut i: usize = 0;
    while i < size
        invariant
            i <= size,
            map@ == Seq::new(i as nat, |j: int| 255u8),
        decreases size - i,
    {
        map.push(255);
        assert(map@ =~= Seq::new((i + 1) as nat, |j: int| 255u8));
        i += 1;
    }
    map
}

impl GlobalBranches {
    /// Maps of `size` edges each, of which nothing was seen.
    pub fn new(size: usize) -> (r: Self)
        ensures
            r@.virgin_branches == Seq::new(size as nat, |i: int| 255u8),
            r@.tmouts_branches == Seq::new(size as nat, |i: int| 255u8),
            r@.crashes_branches == Seq::new(size as nat, |i: int| 255u8),
    {
        GlobalBranches {
            virgin_branches: unseen_map(size),
            tmouts_branches: unseen_map(size),
            crashes_branches: unseen_map(size),
        }
    }

    /// Holds the trace of a run against the map of its status and merges
    /// it. Returns whether the run found a new path, whether a new edge, and
    /// how many edges it took; a run that is not filed finds nothing.
    pub fn has_new(&mut self, trace: &Vec<u8>, status: StatusType) -> (r: (bool, bool, usize))
        ensures
            final(self)@ == old(self)@.after(trace@, status),
            (r.0, r.1, r.2 as nat) == old(self)@.news(trace@, status),
    {
        match status {
            StatusType::Normal => merge_trace(&mut self.virgin_branches, trace),
            StatusType::Timeout => merge_trace(&mut self.tmouts_branches, trace),
            StatusType::Crash => merge_trace(&mut self.crashes_branches, trace),
            _ => (false, false, 0),
        }
    }
}

/// A run whose coverage was merged finds nothing when it is replayed: with
/// the same trace and status it holds no new path and no new edge, and the
/// maps stay as they are.
pub proof fn lemma_replay_has_no_new_path(maps: GlobalBranchesView, trace: Seq<u8>, status: StatusType)
    ensures
        !maps.after(trace, status).news(trace, status).0,
        !maps.after(trace, status).news(trace, status).1,
        maps.after(trace, status).after(trace, status) == maps.after(trace, status),
{
    match maps.map_of(status) {
        Some(map) => {
            lemma_replay_finds_nothing(map, trace);
        },
        None => {},
    }
}

} // verus!
