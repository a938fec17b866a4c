//! The depot: the queue of conditions that await solving, the counters of
//! saved inputs, and the control-flow graph by which conditions are ranked.
//!
//! A condition is queued under its identity, so the queue never holds two
//! conditions with the same site, context and order.

use crate::cfg::CfgView;
use crate::cfg::ControlFlowGraph;
use crate::cond_stmt::op_class;
use crate::cond_stmt::op_class_of;
use crate::cond_stmt::CondKey;
use crate::cond_stmt::CondState;
use crate::cond_stmt::CondStmt;
use crate::cond_stmt::views;
use crate::cond_stmt::CondStmtView;
use crate::cond_stmt::OpClass;
use crate::defs::PREFER_FAST_COND;
use crate::qpriority::rank_le;
use crate::qpriority::QPriority;
use crate::queue::queue_change_priority;
use crate::queue::queue_entries;
use crate::queue::queue_get_priority;
use crate::queue::queue_new;
use crate::queue::queue_peek;
use crate::queue::queue_push;
use crate::queue::CondQueue;
use crate::seqs::lemma_push_contains;
use crate::seqs::lemma_push_distinct;
use crate::status::StatusType;
use crate::text::concat;
use crate::text::decimal;
use crate::text::decimal_string;
use crate::text::join_path;
use crate::text::joined;
use std::collections::HashMap;
use vstd::prelude::*;
use vstd::std_specs::hash::*;
use vstd::string::*;

verus! {

/// The directory a saved input is filed in.
#[derive(Clone, Copy, Debug, PartialEq, Eq, Structural)]
pub enum Bucket {
    /// Inputs that ran normally and found a new path.
    Queue,
    /// Inputs that timed out.
    Hangs,
    /// Inputs that crashed the target.
    Crashes,
}

/// The bucket inputs of a status are filed in, if any.
pub open spec fn bucket_of(status: StatusType) -> Option<Bucket> {
    match status {
        StatusType::Normal => Some(Bucket::Queue),
        StatusType::Timeout => Some(Bucket::Hangs),
        StatusType::Crash => Some(Bucket::Crashes),
        _ => None,
    }
}

/// The directories of the depot.
#[derive(Debug)]
pub struct DepotDir {
    /// Accepted inputs.
    pub inputs_dir: String,
    /// Inputs that timed out.
    pub hangs_dir: String,
    /// Inputs that crashed the target.
    pub crashes_dir: String,
    /// The seeds the user gave.
    pub seeds_dir: String,
}

/// The directories of the depot as a mathematical value.
pub struct DepotDirView {
    pub inputs_dir: Seq<char>,
    pub hangs_dir: Seq<char>,
    pub crashes_dir: Seq<char>,
    pub seeds_dir: Seq<char>,
}

impl View for DepotDir {
    type V = DepotDirView;

    open spec fn view(&self) -> DepotDirView {
        DepotDirView {
            inputs_dir: self.inputs_dir@,
            hangs_dir: self.hangs_dir@,
            crashes_dir: self.crashes_dir@,
            seeds_dir: self.seeds_dir@,
        }
    }
}

impl DepotDirView {
    /// The directories under `out_dir`: `queue`, `hangs` and `crashes`.
    pub open spec fn under(seeds_dir: Seq<char>, out_dir: Seq<char>) -> DepotDirView {
        DepotDirView {
            inputs_dir: joined(out_dir, "queue"@),
            hangs_dir: joined(out_dir, "hangs"@),
            crashes_dir: joined(out_dir, "crashes"@),
            seeds_dir,
        }
    }

    /// The directory of a bucket.
    pub open spec fn dir_of(self, bucket: Bucket) -> Seq<char> {
        match bucket {
            Bucket::Queue => self.inputs_dir,
            Bucket::Hangs => self.hangs_dir,
            Bucket::Crashes => self.crashes_dir,
        }
    }
}

/// The name of the file that holds input `id` in `dir`: `id_` and the number.
pub open spec fn file_name(dir: Seq<char>, id: usize) -> Seq<char> {
    joined(dir, "id_"@ + decimal(id as nat))
}

/// Executable form of [`file_name`].
pub fn get_file_name(dir: &str, id: usize) -> (r: String)
    ensures
        r@ == file_name(dir@, id),
{
    let number = decimal_string(id);
    let name = concat("id_", number.as_str());
    join_path(dir, name.as_str())
}

impl DepotDir {
    /// The directories of a depot under `out_dir`, with the seeds in `seeds_dir`.
    pub fn new(seeds_dir: String, out_dir: &str) -> (r: Self)
        ensures
            r@ == DepotDirView::under(seeds_dir@, out_dir@),
    {
        DepotDir {
            inputs_dir: join_path(out_dir, "queue"),
            hangs_dir: join_path(out_dir, "hangs"),
            crashes_dir: join_path(out_dir, "crashes"),
            seeds_dir,
        }
    }

    /// The file that holds input `id` of a bucket.
    pub fn path_of(&self, bucket: Bucket, id: usize) -> (r: String)
        ensures
            r@ == file_name(self@.dir_of(bucket), id),
    {
        match bucket {
            Bucket::Queue => get_file_name(self.inputs_dir.as_str(), id),
            Bucket::Hangs => get_file_name(self.hangs_dir.as_str(), id),
            Bucket::Crashes => get_file_name(self.crashes_dir.as_str(), id),
        }
    }
}

/// `rand::random::<u64>()`, taken as a `usize`.
///
/// Trusted: it returns; nothing is claimed of the number.
#[verifier::external_body]
fn random_usize() -> usize {
    rand::random::<u64>() as usize
}

/// The index that the number `raw` picks among `count` inputs.
pub fn pick_index(raw: usize, count: usize) -> (r: usize)
    requires
        count > 0,
    ensures
        r == raw % count,
        r < count,
{
    raw % count
}

/// The number that follows `n` in a counter that wraps round.
pub open spec fn next_id(n: usize) -> usize {
    if n == usize::MAX {
        0
    } else {
        (n + 1) as usize
    }
}

/// The depot as a mathematical value.
pub struct DepotView {
    /// The queued conditions by identity, each with its priority.
    pub entries: Map<CondKey, (CondStmtView, QPriority)>,
    /// The identities of the queued conditions, in the order in which they
    /// were queued.
    pub keys: Seq<CondKey>,
    /// Number of inputs saved to the queue so far.
    pub num_inputs: usize,
    /// Number of inputs saved as hangs so far.
    pub num_hangs: usize,
    /// Number of inputs saved as crashes so far.
    pub num_crashes: usize,
    /// The control-flow graph.
    pub cfg: CfgView,
    /// Where saved inputs are filed.
    pub dirs: DepotDirView,
}

/// Whether an entry is an exploration condition that is not done.
pub open spec fn awaits_exploration(cond: CondStmtView) -> bool {
    op_class_of(cond.base.op) == OpClass::Explore && !cond.is_done()
}

/// Number of exploration conditions that are not done among the entries
/// under `keys`.
pub open spec fn count_unsolved(keys: Seq<CondKey>, entries: Map<CondKey, (CondStmtView, QPriority)>) -> nat
    decreases keys.len(),
{
    if keys.len() == 0 {
        0
    } else {
        count_unsolved(keys.drop_last(), entries) + if awaits_exploration(entries[keys.last()].0) {
            1nat
        } else {
            0nat
        }
    }
}

impl DepotView {
    /// The identities listed are those of the entries, each once.
    pub open spec fn listed(self) -> bool {
        &&& self.keys.no_duplicates()
        &&& forall|k: CondKey| #[trigger] self.keys.contains(k) <==> self.entries.contains_key(k)
    }

    /// Number of queued exploration conditions that are not done.
    pub open spec fn unsolved(self) -> nat {
        count_unsolved(self.keys, self.entries)
    }

    /// The depot with `entry` under `k`, in place of the entry under `k`
    /// if there is one, as a new entry otherwise.
    pub open spec fn with_entry(self, k: CondKey, entry: (CondStmtView, QPriority)) -> DepotView {
        DepotView {
            entries: self.entries.insert(k, entry),
            keys: if self.entries.contains_key(k) {
                self.keys
            } else {
                self.keys.push(k)
            },
            ..self
        }
    }

    /// Whether the entry under `k` is among the most urgent of the queue.
    pub open spec fn is_top(self, k: CondKey) -> bool {
        &&& self.entries.contains_key(k)
        &&& forall|other: CondKey| #[trigger]
            self.entries.contains_key(other) ==> self.entries[k].1.precedes(self.entries[other].1)
    }

    /// The depot after the entry under `k` was handed out once more: its
    /// priority is demoted by the class of its operator.
    pub open spec fn demote(self, k: CondKey) -> DepotView {
        let (cond, priority) = self.entries[k];
        DepotView { entries: self.entries.insert(k, (cond, priority.demoted(cond.base.op))), ..self }
    }

    /// Every priority is the sentinel or that of a live entry.
    pub open spec fn ranked(self) -> bool {
        forall|k: CondKey| #[trigger]
            self.entries.contains_key(k) ==> self.entries[k].1.live()
                || self.entries[k].1.done_spec()
    }

    /// Every entry is done exactly when its priority is the sentinel.
    pub open spec fn done_agrees(self) -> bool {
        forall|k: CondKey| #[trigger]
            self.entries.contains_key(k) ==> (self.entries[k].0.is_done()
                <==> self.entries[k].1.done_spec())
    }

    /// Whether adding `c` finds its branch explored from both sides: `c` is
    /// desirable, a condition of its identity is queued and not done, and
    /// that one was observed with the other outcome.
    pub open spec fn explores(self, c: CondStmtView) -> bool {
        &&& c.is_desirable
        &&& self.entries.contains_key(c.key())
        &&& !self.entries[c.key()].0.is_done()
        &&& self.entries[c.key()].0.base.condition != c.base.condition
    }

    /// Whether adding `c` replaces the queued condition of its identity:
    /// that one is not done, was observed with the same outcome, and is slower.
    pub open spec fn prefers(self, c: CondStmtView) -> bool {
        &&& PREFER_FAST_COND
        &&& c.is_desirable
        &&& self.entries.contains_key(c.key())
        &&& !self.entries[c.key()].0.is_done()
        &&& self.entries[c.key()].0.base.condition == c.base.condition
        &&& self.entries[c.key()].0.speed > c.speed
    }

    /// The depot after `c` was added.
    ///
    /// A condition that is not desirable changes nothing. One whose identity
    /// is not queued enters the queue, ranked by its distance. Where its
    /// identity is queued and that entry is not done: if the two were
    /// observed with different outcomes the entry becomes done and its
    /// priority the sentinel; otherwise, if the new one is faster, it takes
    /// the entry's place, ranked by its distance and the class of the
    /// operator stored so far.
    pub open spec fn added(self, c: CondStmtView) -> DepotView {
        let k = c.key();
        let distance = self.cfg.score_inp(c.base.site, c.variables);
        if !c.is_desirable {
            self
        } else if !self.entries.contains_key(k) {
            self.with_entry(k, (c, QPriority::initial(c.base.op, distance)))
        } else if self.explores(c) {
            self.with_entry(
                k,
                (CondStmtView { state: CondState::Done, ..self.entries[k].0 }, QPriority::done_value()),
            )
        } else if self.prefers(c) {
            self.with_entry(k, (c, QPriority::initial(self.entries[k].0.base.op, distance)))
        } else {
            self
        }
    }

    /// The identities that adding `conds` queues anew: those of the
    /// desirable conditions among them that no entry stands under yet.
    pub open spec fn new_identities(self, conds: Seq<CondStmtView>) -> Set<CondKey> {
        Set::new(
            |k: CondKey|
                !self.entries.contains_key(k) && exists|i: int|
                    0 <= i < conds.len() && (#[trigger] conds[i]).is_desirable && conds[i].key() == k,
        )
    }

    /// The depot after all of `conds` were added, in order.
    pub open spec fn added_all(self, conds: Seq<CondStmtView>) -> DepotView
        decreases conds.len(),
    {
        if conds.len() == 0 {
            self
        } else {
            self.added_all(conds.drop_last()).added(conds.last())
        }
    }

    /// The rows that adding all of `conds`, in order, appends to the
    /// branch-coverage ledger: for each condition that finds its branch
    /// explored from both sides, the site and function of the condition
    /// whose run was tracked, then those of the entry that became done.
    pub open spec fn explored_rows(self, conds: Seq<CondStmtView>, origin: (u32, u32)) -> Seq<
        (u32, u32, u32, u32),
    >
        decreases conds.len(),
    {
        if conds.len() == 0 {
            Seq::empty()
        } else {
            let before = self.added_all(conds.drop_last());
            let rows = self.explored_rows(conds.drop_last(), origin);
            let c = conds.last();
            if before.explores(c) {
                rows.push(
                    (
                        origin.0,
                        origin.1,
                        before.entries[c.key()].0.base.site,
                        before.entries[c.key()].0.base.func,
                    ),
                )
            } else {
                rows
            }
        }
    }

    /// The depot after the entry of `c`'s identity was updated.
    ///
    /// Where the identity is queued, `c` takes the entry's place and the
    /// priority gets the site's present score as its distance, or becomes
    /// the sentinel if `c` is discarded (a sentinel stays in any case). A
    /// discarded condition also takes its site out of the targets, whether
    /// or not it is queued.
    pub open spec fn updated(self, c: CondStmtView) -> DepotView {
        let k = c.key();
        let entries = if self.entries.contains_key(k) {
            let priority = if c.is_discarded() {
                QPriority::done_value()
            } else {
                self.entries[k].1.with_distance(self.cfg.score(c.base.site))
            };
            self.entries.insert(k, (c, priority))
        } else {
            self.entries
        };
        let cfg = if c.is_discarded() {
            CfgView { targets: self.cfg.targets.remove(c.base.site), ..self.cfg }
        } else {
            self.cfg
        };
        DepotView { entries, cfg, ..self }
    }

    /// The depot after an input of this status was saved.
    pub open spec fn saved(self, status: StatusType) -> DepotView {
        match status {
            StatusType::Normal => DepotView { num_inputs: next_id(self.num_inputs), ..self },
            StatusType::Timeout => DepotView { num_hangs: next_id(self.num_hangs), ..self },
            StatusType::Crash => DepotView { num_crashes: next_id(self.num_crashes), ..self },
            _ => self,
        }
    }

    /// The id an input of this status is saved under.
    pub open spec fn save_id(self, status: StatusType) -> usize {
        match status {
            StatusType::Normal => self.num_inputs,
            StatusType::Timeout => self.num_hangs,
            StatusType::Crash => self.num_crashes,
            _ => 0,
        }
    }
}

/// The corpus counters, the queue of conditions and the control-flow graph.
pub struct Depot {
    queue: CondQueue,
    conds: HashMap<u128, CondStmt>,
    keys: Vec<CondKey>,
    num_inputs: usize,
    num_hangs: usize,
    num_crashes: usize,
    cfg: ControlFlowGraph,
    dirs: DepotDir,
}

impl View for Depot {
    type V = DepotView;

    closed spec fn view(&self) -> DepotView {
        DepotView {
            entries: Map::new(
                |k: CondKey| self.conds@.contains_key(k.packed()),
                |k: CondKey|
                    (
                        self.conds@[k.packed()]@,
                        QPriority::of_rank(queue_entries(self.queue)[k.packed()]),
                    ),
            ),
            keys: self.keys@,
            num_inputs: self.num_inputs,
            num_hangs: self.num_hangs,
            num_crashes: self.num_crashes,
            cfg: self.cfg@,
            dirs: self.dirs@,
        }
    }
}

/// The order of ranks is the order of priorities turned round.
proof fn lemma_of_rank_reverses(a: (u32, u8, u32), b: (u32, u8, u32))
    ensures
        rank_le(a, b) <==> QPriority::of_rank(b).precedes(QPriority::of_rank(a)),
{
}

impl Depot {
    /// The invariant of the representation: the graph is well-formed, and
    /// the queue holds exactly the stored conditions, each under its own
    /// identity.
    pub closed spec fn wf(&self) -> bool {
        &&& self.cfg.wf()
        &&& forall|p: u128| #[trigger]
            self.conds@.contains_key(p) <==> queue_entries(self.queue).contains_key(p)
        &&& forall|p: u128| #[trigger]
            self.conds@.contains_key(p) ==> self.conds@[p]@.key().packed() == p
        &&& self.keys@.no_duplicates()
        &&& forall|k: CondKey| #[trigger]
            self.keys@.contains(k) <==> self.conds@.contains_key(k.packed())
        &&& forall|p: u128| #[trigger]
            queue_entries(self.queue).contains_key(p) ==> QPriority::of_rank(
                queue_entries(self.queue)[p],
            ).live() || QPriority::of_rank(queue_entries(self.queue)[p]).done_spec()
    }

    /// Every priority in the queue is the sentinel or that of a live entry.
    pub proof fn lemma_priorities_ranked(&self)
        requires
            self.wf(),
        ensures
            self@.ranked(),
    {
        assert forall|k: CondKey| #[trigger] self@.entries.contains_key(k) implies self@.entries[k].1.live()
            || self@.entries[k].1.done_spec() by {
            assert(queue_entries(self.queue).contains_key(k.packed()));
        }
    }

    /// The control-flow graph.
    pub fn cfg(&self) -> (r: &ControlFlowGraph)
        ensures
            r@ == self@.cfg,
            self.wf() ==> r.wf(),
    {
        &self.cfg
    }

    /// The control-flow graph, for changing it. The queue and the counters
    /// stay as they are; the depot is well-formed again once the graph is.
    pub fn cfg_mut(&mut self) -> (r: &mut ControlFlowGraph)
        requires
            old(self).wf(),
        ensures
            r@ == old(self)@.cfg,
            r.wf(),
            final(self)@ == (DepotView { cfg: final(r)@, ..old(self)@ }),
            final(r).wf() ==> final(self).wf(),
    {
        &mut self.cfg
    }

    /// The identities listed are those of the entries, each once.
    pub proof fn lemma_keys_listed(&self)
        requires
            self.wf(),
        ensures
            self@.listed(),
    {
    }

    /// No two entries of the queue share an identity: the condition stored
    /// under a key has that key as its site, context and order.
    pub proof fn lemma_one_entry_per_identity(&self, k: CondKey)
        requires
            self.wf(),
            self@.entries.contains_key(k),
        ensures
            self@.entries[k].0.key() == k,
    {
        let stored = self.conds@[k.packed()]@;
        stored.key().lemma_packed_injective(k);
    }

    /// A depot with an empty queue and no saved inputs, filing under
    /// `out_dir`, with the seeds in `in_dir`.
    pub fn new(in_dir: String, out_dir: &str, cfg: ControlFlowGraph) -> (r: Self)
        requires
            cfg.wf(),
        ensures
            r.wf(),
            r@ == (DepotView {
                entries: Map::empty(),
                keys: Seq::empty(),
                num_inputs: 0,
                num_hangs: 0,
                num_crashes: 0,
                cfg: cfg@,
                dirs: DepotDirView::under(in_dir@, out_dir@),
            }),
    {
        broadcast use group_hash_axioms;

        let r = Depot {
            queue: queue_new(),
            conds: HashMap::new(),
            keys: Vec::new(),
            num_inputs: 0,
            num_hangs: 0,
            num_crashes: 0,
            cfg,
            dirs: DepotDir::new(in_dir, out_dir),
        };
        assert(r@.entries =~= Map::empty());
        assert forall|k: CondKey| !(#[trigger] r.keys@.contains(k)) by {
        }
        r
    }

    /// Whether no input was saved to the queue yet.
    pub fn empty(&self) -> (r: bool)
        ensures
            r == (self@.num_inputs == 0),
    {
        self.num_inputs == 0
    }

    /// Where saved inputs are filed.
    pub fn dirs(&self) -> (r: &DepotDir)
        ensures
            r@ == self@.dirs,
    {
        &self.dirs
    }

    /// The id of one of the inputs saved to the queue, picked at random.
    pub fn next_random(&self) -> (r: usize)
        requires
            self@.num_inputs > 0,
        ensures
            r < self@.num_inputs,
    {
        pick_index(random_usize(), self.num_inputs)
    }

    /// The file that holds input `id` of the queue.
    pub fn input_path(&self, id: usize) -> (r: String)
        ensures
            r@ == file_name(self@.dirs.inputs_dir, id),
    {
        self.dirs.path_of(Bucket::Queue, id)
    }

    /// Number of inputs saved to the queue so far.
    pub fn num_inputs(&self) -> (r: usize)
        ensures
            r == self@.num_inputs,
    {
        self.num_inputs
    }

    /// Number of inputs saved as hangs so far.
    pub fn num_hangs(&self) -> (r: usize)
        ensures
            r == self@.num_hangs,
    {
        self.num_hangs
    }

    /// Number of inputs saved as crashes so far.
    pub fn num_crashes(&self) -> (r: usize)
        ensures
            r == self@.num_crashes,
    {
        self.num_crashes
    }

    /// Takes the next id of the bucket that inputs of `status` are filed
    /// in. Returns the id and the bucket; for a status that is not filed,
    /// id 0 and no bucket, and nothing changes. The caller writes the file.
    pub fn save(&mut self, status: StatusType) -> (r: (usize, Option<Bucket>))
        requires
            old(self).wf(),
        ensures
            final(self).wf(),
            r == (old(self)@.save_id(status), bucket_of(status)),
            final(self)@ == old(self)@.saved(status),
    {
        match status {
            StatusType::Normal => {
                let id = self.num_inputs;
                self.num_inputs = bump(id);
                (id, Some(Bucket::Queue))
            },
            StatusType::Timeout => {
                let id = self.num_hangs;
                self.num_hangs = bump(id);
                (id, Some(Bucket::Hangs))
            },
            StatusType::Crash => {
                let id = self.num_crashes;
                self.num_crashes = bump(id);
                (id, Some(Bucket::Crashes))
            },
            _ => (0, None),
        }
    }

    /// Puts a condition with its priority under the condition's identity.
    fn put(&mut self, cond: CondStmt, priority: QPriority)
        requires
            old(self).wf(),
            priority.live() || priority.done_spec(),
        ensures
            final(self).wf(),
            final(self)@ == old(self)@.with_entry(cond@.key(), (cond@, priority)),
    {
        broadcast use group_hash_axioms;

        let ghost before = *self;
        let ghost k = cond@.key();
        let ghost c = cond@;
        let key = cond.key();
        let item = key.pack();
        if !self.conds.contains_key(&item) {
            proof {
                lemma_push_contains(self.keys@, key);
                lemma_push_distinct(self.keys@, key);
            }
            self.keys.push(key);
        }
        self.conds.insert(item, cond);
        queue_push(&mut self.queue, item, priority.rank());
        proof {
            priority.lemma_rank_round_trip();
            assert forall|other: CondKey| #[trigger]
                self@.entries.contains_key(other) <==> before@.entries.insert(
                    k,
                    (c, priority),
                ).contains_key(other) by {
                other.lemma_packed_injective(k);
            }
            assert forall|other: CondKey| #[trigger]
                self@.entries.contains_key(other) implies self@.entries[other]
                == before@.entries.insert(k, (c, priority))[other] by {
                other.lemma_packed_injective(k);
            }
            assert(self@.entries =~= before@.entries.insert(k, (c, priority)));
            assert forall|other: CondKey| #[trigger]
                self.keys@.contains(other) <==> self.conds@.contains_key(other.packed()) by {
                other.lemma_packed_injective(k);
            }
        }
    }

    /// The queued condition of this identity with its priority, if there is one.
    pub fn get(&self, key: CondKey) -> (r: Option<(CondStmt, QPriority)>)
        requires
            self.wf(),
        ensures
            r.is_some() <==> self@.entries.contains_key(key),
            r matches Some((cond, priority)) ==> self@.entries[key] == (cond@, priority),
    {
        broadcast use group_hash_axioms;

        let item = key.pack();
        match self.conds.get(&item) {
            Some(cond) => {
                let rank = queue_get_priority(&self.queue, item);
                Some((cond.clone(), QPriority::from_rank(rank.unwrap())))
            },
            None => None,
        }
    }

    /// Number of queued exploration conditions that are not done.
    pub fn explore_num(&self) -> (r: usize)
        requires
            self.wf(),
        ensures
            r == self@.unsolved(),
    {
        broadcast use group_hash_axioms;

        let mut count: usize = 0;
        let mut i: usize = 0;
        while i < self.keys.len()
            invariant
                i <= self.keys.len(),
                self.wf(),
                count == count_unsolved(self.keys@.take(i as int), self@.entries),
                count <= i,
            decreases self.keys.len() - i,
        {
            let item = self.keys[i].pack();
            proof {
                assert(self.keys@.contains(self.keys@[i as int]));
                assert(self.keys@.take(i + 1).drop_last() =~= self.keys@.take(i as int));
            }
            match self.conds.get(&item) {
                Some(cond) => {
                    if matches!(op_class(cond.base.op), OpClass::Explore) && !cond.is_done() {
                        count += 1;
                    }
                },
                None => {},
            }
            i += 1;
        }
        assert(self.keys@.take(i as int) =~= self.keys@);
        count
    }

    /// Adds one condition; see [`DepotView::added`].
    fn add_entry(
        &mut self,
        cond: &CondStmt,
        origin: (u32, u32),
        branch_cov: &mut Vec<(u32, u32, u32, u32)>,
    )
        requires
            old(self).wf(),
        ensures
            final(self).wf(),
            final(self)@ == old(self)@.added(cond@),
            old(self)@.explores(cond@) ==> final(branch_cov)@ == old(branch_cov)@.push(
                (
                    origin.0,
                    origin.1,
                    old(self)@.entries[cond@.key()].0.base.site,
                    old(self)@.entries[cond@.key()].0.base.func,
                ),
            ),
            !old(self)@.explores(cond@) ==> final(branch_cov)@ == old(branch_cov)@,
    {
        broadcast use group_hash_axioms;

        if !cond.is_desirable {
            return ;
        }
        let distance = self.cfg.score_for_site_inp(cond.base.site, &cond.variables);
        let item = cond.key().pack();
        let ghost k = cond@.key();
        let ghost before = *self;
        match self.conds.get(&item) {
            Some(stored) => {
                proof {
                    self.lemma_one_entry_per_identity(k);
                }
                if !stored.is_done() {
                    if stored.base.condition != cond.base.condition {
                        branch_cov.push((origin.0, origin.1, stored.base.site, stored.base.func));
                        let mut done = stored.clone();
                        done.mark_as_done();
                        self.put(done, QPriority::done());
                    } else if PREFER_FAST_COND && stored.speed > cond.speed {
                        let priority = QPriority::init_distance(stored.base.op, distance);
                        self.put(cond.clone(), priority);
                    }
                }
            },
            None => {
                let priority = QPriority::init_distance(cond.base.op, distance);
                self.put(cond.clone(), priority);
            },
        }
    }

    /// Adds the conditions of a tracked run, in order; see
    /// [`DepotView::added`] for what adding one does. `origin` is the site
    /// and function of the condition whose solving led to the run; for each
    /// branch found explored from both sides a row is appended to `branch_cov`.
    ///
    /// Entries stay in agreement on being done as long as no desirable
    /// condition that comes in is done already.
    pub fn add_entries(
        &mut self,
        conds: Vec<CondStmt>,
        origin: (u32, u32),
        branch_cov: &mut Vec<(u32, u32, u32, u32)>,
    )
        requires
            old(self).wf(),
        ensures
            final(self).wf(),
            final(self)@ == old(self)@.added_all(views(conds@)),
            final(branch_cov)@ == old(branch_cov)@ + old(self)@.explored_rows(views(conds@), origin),
            final(self)@.keys.len() == old(self)@.keys.len() + old(self)@.new_identities(
                views(conds@),
            ).len(),
            forall|k: CondKey| #[trigger]
                old(self)@.entries.contains_key(k) ==> final(self)@.entries.contains_key(k),
            old(self)@.done_agrees() && (forall|i: int|
                0 <= i < conds@.len() && (#[trigger] conds@[i])@.is_desirable ==> !conds@[i]@.is_done())
                ==> final(self)@.done_agrees(),
    {
        let ghost before = self@;
        let ghost rows = branch_cov@;
        let ghost list = views(conds@);
        proof {
            self.lemma_keys_listed();
            lemma_added_all_grows(before, list);
            lemma_added_all_counts(before, list);
        }
        let mut i: usize = 0;
        while i < conds.len()
            invariant
                i <= conds.len(),
                self.wf(),
                list == views(conds@),
                self@ == before.added_all(list.take(i as int)),
                branch_cov@ == rows + before.explored_rows(list.take(i as int), origin),
                before.done_agrees() && (forall|j: int|
                    0 <= j < conds@.len() && (#[trigger] conds@[j])@.is_desirable ==> !conds@[j]@.is_done())
                    ==> self@.done_agrees(),
            decreases conds.len() - i,
        {
            let ghost now = self@;
            proof {
                assert(list.take(i + 1).drop_last() =~= list.take(i as int));
                assert(list.take(i + 1).last() == conds@[i as int]@);
                if now.done_agrees() && (conds@[i as int]@.is_desirable ==> !conds@[i as int]@.is_done()) {
                    lemma_added_keeps_agreement(now, conds@[i as int]@);
                }
            }
            self.add_entry(&conds[i], origin, branch_cov);
            i += 1;
        }
        proof {
            assert(list.take(i as int) =~= list);
        }
    }

    /// Brings the queued entry of `cond`'s identity up to date; see
    /// [`DepotView::updated`].
    ///
    /// Entries stay in agreement on being done as long as `cond` is
    /// discarded only by being done, and is done if the entry it replaces is.
    pub fn update_entry(&mut self, cond: CondStmt)
        requires
            old(self).wf(),
        ensures
            final(self).wf(),
            final(self)@ == old(self)@.updated(cond@),
            old(self)@.done_agrees() && (cond@.is_discarded() ==> cond@.is_done()) && (old(
                self,
            )@.entries.contains_key(cond@.key()) && old(self)@.entries[cond@.key()].0.is_done()
                ==> cond@.is_done()) ==> final(self)@.done_agrees(),
    {
        broadcast use group_hash_axioms;

        let ghost before = *self;
        let ghost c = cond@;
        let item = cond.key().pack();
        let discarded = cond.is_discarded();
        let site = cond.base.site;
        match queue_get_priority(&self.queue, item) {
            Some(rank) => {
                let priority = if discarded {
                    QPriority::done()
                } else {
                    QPriority::from_rank(rank).new_distance(self.cfg.score_for_site(site))
                };
                self.put(cond, priority);
            },
            None => {
                assert(self@.entries =~= before@.updated(c).entries);
            },
        }
        if discarded {
            self.cfg.remove_target(site);
        }
        proof {
            assert(self@.entries =~= before@.updated(c).entries);
            if before@.done_agrees() && (c.is_discarded() ==> c.is_done()) && (
            before@.entries.contains_key(c.key()) && before@.entries[c.key()].0.is_done()
                ==> c.is_done()) {
                before.lemma_priorities_ranked();
                lemma_updated_keeps_agreement(before@, c);
            }
        }
    }

    /// Hands out the most urgent condition that is not done, with its
    /// priority, and demotes it in the queue so that repeated requests take
    /// turns. Nothing is handed out, and nothing changes, where every entry
    /// is done or the queue is empty.
    pub fn get_entry(&mut self) -> (r: Option<(CondStmt, QPriority)>)
        requires
            old(self).wf(),
        ensures
            final(self).wf(),
            r.is_none() <==> (forall|k: CondKey| #[trigger]
                old(self)@.entries.contains_key(k) ==> old(self)@.entries[k].1.done_spec()),
            r.is_none() ==> final(self)@ == old(self)@,
            r matches Some((cond, priority)) ==> !priority.done_spec() && old(self)@.is_top(
                cond@.key(),
            ) && old(self)@.entries[cond@.key()] == (cond@, priority) && final(self)@ == old(
                self,
            )@.demote(cond@.key()),
            old(self)@.done_agrees() ==> final(self)@.done_agrees(),
    {
        broadcast use group_hash_axioms;

        let ghost before = *self;
        match queue_peek(&self.queue) {
            None => {
                proof {
                    assert forall|k: CondKey| !(#[trigger] self@.entries.contains_key(k)) by {
                        assert(!queue_entries(self.queue).contains_key(k.packed()));
                    }
                }
                None
            },
            Some((item, rank)) => {
                assert(self.conds@.contains_key(item));
                let priority = QPriority::from_rank(rank);
                proof {
                    assert forall|other: CondKey| #[trigger]
                        self@.entries.contains_key(other) implies priority.precedes(
                        self@.entries[other].1,
                    ) by {
                        assert(queue_entries(self.queue).contains_key(other.packed()));
                        lemma_of_rank_reverses(queue_entries(self.queue)[other.packed()], rank);
                    }
                }
                if priority.is_done() {
                    return None;
                }
                let stored = self.conds.get(&item);
                let cond = stored.unwrap().clone();
                let ghost k = cond@.key();
                proof {
                    assert(k.packed() == item);
                    assert(self@.entries.contains_key(k));
                }
                let demoted = priority.inc(cond.base.op);
                queue_change_priority(&mut self.queue, item, demoted.rank());
                proof {
                    demoted.lemma_rank_round_trip();
                    priority.lemma_inc_demotes(cond@.base.op);
                    assert forall|other: CondKey| #[trigger]
                        self@.entries.contains_key(other) implies self@.entries[other]
                        == before@.demote(k).entries[other] by {
                        other.lemma_packed_injective(k);
                    }
                    assert(self@.entries =~= before@.demote(k).entries);
                    if before@.done_agrees() {
                        assert forall|other: CondKey| #[trigger]
                            self@.entries.contains_key(other) implies (self@.entries[other].0.is_done()
                            <==> self@.entries[other].1.done_spec()) by {
                            assert(before@.entries.contains_key(other));
                        }
                    }
                }
                Some((cond, priority))
            },
        }
    }
}

/// What the queue holds after conditions were added: every entry that
/// was there still is, and under the identity it had; the identities added
/// are those of the desirable conditions that were not queued, each once,
/// listed behind those that were there.
pub proof fn lemma_added_all_grows(d: DepotView, conds: Seq<CondStmtView>)
    requires
        d.listed(),
    ensures
        d.added_all(conds).listed(),
        d.added_all(conds).keys.len() >= d.keys.len(),
        d.added_all(conds).keys.take(d.keys.len() as int) == d.keys,
        forall|k: CondKey| #[trigger]
            d.added_all(conds).entries.contains_key(k) <==> d.entries.contains_key(k)
                || d.new_identities(conds).contains(k),
        d.added_all(conds).cfg == d.cfg,
        d.added_all(conds).num_inputs == d.num_inputs,
        d.added_all(conds).num_hangs == d.num_hangs,
        d.added_all(conds).num_crashes == d.num_crashes,
        d.added_all(conds).dirs == d.dirs,
    decreases conds.len(),
{
    if conds.len() == 0 {
        assert(d.keys.take(d.keys.len() as int) =~= d.keys);
    } else {
        let front = conds.drop_last();
        let c = conds.last();
        let k = c.key();
        let mid = d.added_all(front);
        let after = d.added_all(conds);
        lemma_added_all_grows(d, front);
        assert forall|x: CondKey|
            d.new_identities(conds).contains(x) <==> d.new_identities(front).contains(x) || (
            c.is_desirable && x == k && !d.entries.contains_key(x)) by {
            if d.new_identities(conds).contains(x) {
                let i = choose|i: int|
                    0 <= i < conds.len() && (#[trigger] conds[i]).is_desirable && conds[i].key() == x;
                if i < front.len() {
                    assert(front[i] == conds[i]);
                }
            }
            if d.new_identities(front).contains(x) {
                let i = choose|i: int|
                    0 <= i < front.len() && (#[trigger] front[i]).is_desirable && front[i].key() == x;
                assert(conds[i] == front[i]);
            }
            if c.is_desirable && x == k {
                assert(conds[conds.len() - 1] == c);
            }
        }
        if c.is_desirable && !mid.entries.contains_key(k) {
            crate::seqs::lemma_push_contains(mid.keys, k);
            crate::seqs::lemma_push_distinct(mid.keys, k);
            assert(after.keys == mid.keys.push(k));
            assert(after.keys.take(d.keys.len() as int) =~= mid.keys.take(d.keys.len() as int));
        }
    }
}

/// Adding conditions lengthens the queue by the number of identities that
/// are new to it.
pub proof fn lemma_added_all_counts(d: DepotView, conds: Seq<CondStmtView>)
    requires
        d.listed(),
    ensures
        d.new_identities(conds).finite(),
        d.added_all(conds).keys.len() == d.keys.len() + d.new_identities(conds).len(),
{
    lemma_added_all_grows(d, conds);
    let after = d.added_all(conds);
    let n = d.keys.len() as int;
    let fresh = after.keys.skip(n);
    assert forall|i: int, j: int| 0 <= i < fresh.len() && 0 <= j < fresh.len() && i != j implies fresh[i]
        != fresh[j] by {
        assert(fresh[i] == after.keys[i + n]);
        assert(fresh[j] == after.keys[j + n]);
    }
    assert forall|k: CondKey| fresh.to_set().contains(k) <==> d.new_identities(conds).contains(
        k,
    ) by {
        if fresh.contains(k) {
            let i = choose|i: int| 0 <= i < fresh.len() && fresh[i] == k;
            assert(after.keys[i + n] == k);
            assert(after.keys.contains(k));
            if d.keys.contains(k) {
                let j = choose|j: int| 0 <= j < d.keys.len() && d.keys[j] == k;
                assert(after.keys.take(n)[j] == k);
                assert(after.keys[j] == k);
            }
        }
        if d.new_identities(conds).contains(k) {
            assert(after.keys.contains(k));
            let i = choose|i: int| 0 <= i < after.keys.len() && after.keys[i] == k;
            if i < n {
                assert(after.keys.take(n)[i] == k);
                assert(d.keys.contains(k));
            }
            assert(fresh[i - n] == k);
        }
    }
    assert(fresh.to_set() =~= d.new_identities(conds));
    fresh.unique_seq_to_set();
    vstd::seq_lib::seq_to_set_is_finite(fresh);
}

/// Conditions that are not desirable change nothing.
pub proof fn lemma_undesirable_change_nothing(d: DepotView, conds: Seq<CondStmtView>, origin: (u32, u32))
    requires
        forall|i: int| 0 <= i < conds.len() ==> !(#[trigger] conds[i]).is_desirable,
    ensures
        d.added_all(conds) == d,
        d.explored_rows(conds, origin) == Seq::<(u32, u32, u32, u32)>::empty(),
    decreases conds.len(),
{
    if conds.len() > 0 {
        let front = conds.drop_last();
        assert forall|i: int| 0 <= i < front.len() implies !(#[trigger] front[i]).is_desirable by {
            assert(front[i] == conds[i]);
        }
        lemma_undesirable_change_nothing(d, front, origin);
        assert(!conds[conds.len() - 1].is_desirable);
    }
}

/// What becomes of the entry under `k` while the first `n` of `conds` are
/// added, none of which is done when it comes in: the entry stays, keeps the
/// outcome it was observed with, and is done only with the sentinel as its
/// priority; and once the condition at `i` has come in, whose outcome is
/// the other one, the entry is done.
proof fn lemma_entry_settles(d: DepotView, conds: Seq<CondStmtView>, k: CondKey, i: int, n: int)
    requires
        0 <= n <= conds.len(),
        0 <= i < conds.len(),
        forall|j: int| 0 <= j < conds.len() && (#[trigger] conds[j]).is_desirable ==> !conds[j].is_done(),
        d.entries.contains_key(k),
        !d.entries[k].0.is_done(),
        conds[i].is_desirable,
        conds[i].key() == k,
        conds[i].base.condition != d.entries[k].0.base.condition,
    ensures
        d.added_all(conds.take(n)).entries.contains_key(k),
        d.added_all(conds.take(n)).entries[k].0.base.condition == d.entries[k].0.base.condition,
        d.added_all(conds.take(n)).entries[k].0.is_done() ==> d.added_all(conds.take(n)).entries[k].1
            == QPriority::done_value(),
        n > i ==> d.added_all(conds.take(n)).entries[k].0.is_done(),
    decreases n,
{
    if n > 0 {
        lemma_entry_settles(d, conds, k, i, n - 1);
        assert(conds.take(n).drop_last() =~= conds.take(n - 1));
        assert(conds.take(n).last() == conds[n - 1]);
        let mid = d.added_all(conds.take(n - 1));
        let c = conds[n - 1];
        assert(d.added_all(conds.take(n)) == mid.added(c));
        if n - 1 == i && !mid.entries[k].0.is_done() {
            assert(mid.explores(c));
        }
    }
}

/// A branch seen from both sides is explored: where the queue holds an
/// entry that is not done, and among the conditions added, none of which
/// is done when it comes in, a desirable one of the entry's identity was
/// observed with the other outcome, the entry is done afterwards and has
/// the sentinel as its priority. The condition stored is not replaced by
/// that one: it keeps the outcome the entry was observed with.
pub proof fn lemma_other_outcome_marks_done(d: DepotView, conds: Seq<CondStmtView>, i: int)
    requires
        0 <= i < conds.len(),
        forall|j: int| 0 <= j < conds.len() && (#[trigger] conds[j]).is_desirable ==> !conds[j].is_done(),
        conds[i].is_desirable,
        d.entries.contains_key(conds[i].key()),
        !d.entries[conds[i].key()].0.is_done(),
        conds[i].base.condition != d.entries[conds[i].key()].0.base.condition,
    ensures
        d.added_all(conds).entries.contains_key(conds[i].key()),
        d.added_all(conds).entries[conds[i].key()].0.is_done(),
        d.added_all(conds).entries[conds[i].key()].1 == QPriority::done_value(),
        d.added_all(conds).entries[conds[i].key()].0.base.condition == d.entries[conds[i].key()].0.base.condition,
        d.added_all(conds).entries[conds[i].key()].0 != conds[i],
{
    lemma_entry_settles(d, conds, conds[i].key(), i, conds.len() as int);
    assert(conds.take(conds.len() as int) =~= conds);
}

/// Adding a condition keeps the entries in agreement on being done, unless
/// the condition is desirable and done already.
pub proof fn lemma_added_keeps_agreement(d: DepotView, c: CondStmtView)
    requires
        d.done_agrees(),
        c.is_desirable ==> !c.is_done(),
    ensures
        d.added(c).done_agrees(),
{
    let after = d.added(c);
    assert forall|k: CondKey| #[trigger] after.entries.contains_key(k) implies (
    after.entries[k].0.is_done() <==> after.entries[k].1.done_spec()) by {
        if k != c.key() {
            assert(d.entries.contains_key(k));
        } else if d.entries.contains_key(k) {
        }
    }
}

/// Updating an entry keeps the entries in agreement on being done, as long
/// as the condition is discarded only by being done, and is done if the
/// entry it replaces is.
pub proof fn lemma_updated_keeps_agreement(d: DepotView, c: CondStmtView)
    requires
        d.done_agrees(),
        d.ranked(),
        c.is_discarded() ==> c.is_done(),
        d.entries.contains_key(c.key()) && d.entries[c.key()].0.is_done() ==> c.is_done(),
    ensures
        d.updated(c).done_agrees(),
{
    let after = d.updated(c);
    assert forall|k: CondKey| #[trigger] after.entries.contains_key(k) implies (
    after.entries[k].0.is_done() <==> after.entries[k].1.done_spec()) by {
        assert(d.entries.contains_key(k));
    }
}

/// The number that follows `n` in a counter that wraps round.
fn bump(n: usize) -> (r: usize)
    ensures
        r == next_id(n),
{
    if n == usize::MAX {
        0
    } else {
        n + 1
    }
}

} // verus!
