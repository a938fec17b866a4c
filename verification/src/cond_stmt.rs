//! Condition statements: one conditional branch as observed in a run.
//!
//! A condition is identified by the comparison site it stands at (called
//! `site` here), the calling context it was reached in and its order among the
//! conditions of that site and context. Everything else about it may change
//! while it is being solved.

use crate::defs::COND_AFL_OP;
use crate::defs::COND_MAX_EXPLOIT_OP;
use crate::defs::COND_MAX_EXPLORE_OP;
use crate::defs::SLOW_SPEED;
use vstd::prelude::*;

verus! {

/// A range of input bytes, `begin` inclusive to `end` exclusive, that taints a value.
#[derive(Clone, Copy, Debug, PartialEq, Eq, Structural)]
pub struct TagSeg {
    pub sign: bool,
    pub begin: u32,
    pub end: u32,
}

/// Whether every range ends no earlier than it begins.
pub open spec fn proper(offsets: Seq<TagSeg>) -> bool {
    forall|i: int| 0 <= i < offsets.len() ==> (#[trigger] offsets[i]).begin <= offsets[i].end
}

/// Whether the ranges ascend: each ends no earlier than it begins, and none
/// begins before a range that comes earlier in the list.
pub open spec fn ascending(offsets: Seq<TagSeg>) -> bool {
    &&& proper(offsets)
    &&& forall|i: int, j: int|
        0 <= i <= j < offsets.len() ==> (#[trigger] offsets[i]).begin <= (#[trigger] offsets[j]).begin
}

/// Where `seg` goes into `list`: behind the last range that begins no
/// later than it does.
pub open spec fn slot(list: Seq<TagSeg>, seg: TagSeg) -> int
    decreases list.len(),
{
    if list.len() == 0 || list.last().begin <= seg.begin {
        list.len() as int
    } else {
        slot(list.drop_last(), seg)
    }
}

/// The list with `seg` put in at its place.
pub open spec fn inserted(list: Seq<TagSeg>, seg: TagSeg) -> Seq<TagSeg> {
    list.insert(slot(list, seg), seg)
}

/// The ranges of `base` with those of `extra` put in, one after the other,
/// each at its place.
pub open spec fn merged(base: Seq<TagSeg>, extra: Seq<TagSeg>) -> Seq<TagSeg>
    decreases extra.len(),
{
    if extra.len() == 0 {
        base
    } else {
        inserted(merged(base, extra.drop_last()), extra.last())
    }
}

/// The place of a range lies in the list; every range from there on begins
/// later than it, and the one before, if there is one, does not.
pub proof fn lemma_slot(list: Seq<TagSeg>, seg: TagSeg)
    ensures
        0 <= slot(list, seg) <= list.len(),
        forall|i: int| slot(list, seg) <= i < list.len() ==> (#[trigger] list[i]).begin > seg.begin,
        slot(list, seg) > 0 ==> list[slot(list, seg) - 1].begin <= seg.begin,
    decreases list.len(),
{
    if !(list.len() == 0 || list.last().begin <= seg.begin) {
        let front = list.drop_last();
        lemma_slot(front, seg);
        assert forall|i: int| slot(list, seg) <= i < list.len() implies (#[trigger] list[i]).begin
            > seg.begin by {
            if i < front.len() {
                assert(front[i] == list[i]);
            }
        }
        if slot(list, seg) > 0 {
            assert(front[slot(list, seg) - 1] == list[slot(list, seg) - 1]);
        }
    }
}

/// Putting a range in adds that range and nothing else, and keeps a list
/// in which every range ends no earlier than it begins, or which ascends,
/// that way.
pub proof fn lemma_inserted(list: Seq<TagSeg>, seg: TagSeg)
    ensures
        inserted(list, seg).len() == list.len() + 1,
        forall|x: TagSeg| #[trigger] inserted(list, seg).contains(x) <==> list.contains(x) || x == seg,
        proper(list) && seg.begin <= seg.end ==> proper(inserted(list, seg)),
        ascending(list) && seg.begin <= seg.end ==> ascending(inserted(list, seg)),
{
    lemma_slot(list, seg);
    let p = slot(list, seg);
    let out = inserted(list, seg);
    assert(out.len() == list.len() + 1);
    assert forall|k: int| 0 <= k < out.len() implies #[trigger] out[k] == if k < p {
        list[k]
    } else if k == p {
        seg
    } else {
        list[k - 1]
    } by {
    }
    assert forall|x: TagSeg| #[trigger] out.contains(x) <==> list.contains(x) || x == seg by {
        if out.contains(x) {
            let k = choose|k: int| 0 <= k < out.len() && out[k] == x;
            if k < p {
                assert(list[k] == x);
            } else if k > p {
                assert(list[k - 1] == x);
            }
        }
        if list.contains(x) {
            let k = choose|k: int| 0 <= k < list.len() && list[k] == x;
            if k < p {
                assert(out[k] == x);
            } else {
                assert(out[k + 1] == x);
            }
        }
        if x == seg {
            assert(out[p] == x);
        }
    }
    if proper(list) && seg.begin <= seg.end {
        assert forall|k: int| 0 <= k < out.len() implies (#[trigger] out[k]).begin <= out[k].end by {
            if k < p {
                assert(list[k].begin <= list[k].end);
            } else if k > p {
                assert(list[k - 1].begin <= list[k - 1].end);
            }
        }
    }
    if ascending(list) && seg.begin <= seg.end {
        assert forall|i: int, j: int| 0 <= i <= j < out.len() implies (#[trigger] out[i]).begin <= (
        #[trigger] out[j]).begin by {
            let a = if i < p {
                i
            } else {
                i - 1
            };
            let b = if j < p {
                j
            } else {
                j - 1
            };
            if i != p && j != p {
                assert(list[a].begin <= list[b].begin);
            } else if i == p && j != p {
                assert(list[b].begin > seg.begin);
            } else if i != p && j == p {
                assert(list[a].begin <= list[p - 1].begin);
            }
        }
    }
}

/// Merging adds the ranges of `extra` and nothing else. Where every range
/// of both lists ends no earlier than it begins, the same holds of the
/// result; and where `base` ascends as well, so does the result, in
/// whatever order `extra` lists its ranges.
pub proof fn lemma_merged(base: Seq<TagSeg>, extra: Seq<TagSeg>)
    ensures
        merged(base, extra).len() == base.len() + extra.len(),
        forall|x: TagSeg| #[trigger]
            merged(base, extra).contains(x) <==> base.contains(x) || extra.contains(x),
        proper(base) && proper(extra) ==> proper(merged(base, extra)),
        ascending(base) && proper(extra) ==> ascending(merged(base, extra)),
    decreases extra.len(),
{
    if extra.len() > 0 {
        let front = extra.drop_last();
        let seg = extra.last();
        lemma_merged(base, front);
        lemma_inserted(merged(base, front), seg);
        crate::seqs::lemma_push_contains(front, seg);
        assert(front.push(seg) =~= extra);
        if proper(extra) {
            assert(extra[extra.len() - 1].begin <= extra[extra.len() - 1].end);
            assert forall|i: int| 0 <= i < front.len() implies (#[trigger] front[i]).begin
                <= front[i].end by {
                assert(front[i] == extra[i]);
            }
        }
    }
}

/// Where a condition stands in its solving.
#[derive(Clone, Copy, Debug, PartialEq, Eq, Structural)]
pub enum CondState {
    Initial,
    Exploring,
    OneByte,
    Deterministic,
    Search,
    Done,
    Timeout,
}

impl CondState {
    pub fn is_initial(&self) -> (r: bool)
        ensures
            r == (*self == CondState::Initial),
    {
        matches!(self, CondState::Initial)
    }

    pub fn is_det(&self) -> (r: bool)
        ensures
            r == (*self == CondState::Deterministic),
    {
        matches!(self, CondState::Deterministic)
    }

    pub fn is_one_byte(&self) -> (r: bool)
        ensures
            r == (*self == CondState::OneByte),
    {
        matches!(self, CondState::OneByte)
    }

    pub fn is_done(&self) -> (r: bool)
        ensures
            r == (*self == CondState::Done),
    {
        matches!(self, CondState::Done)
    }

    pub fn is_timeout(&self) -> (r: bool)
        ensures
            r == (*self == CondState::Timeout),
    {
        matches!(self, CondState::Timeout)
    }
}

/// The class of a condition's operator, by which the queue prefers
/// exploration over exploitation over havoc.
#[derive(Clone, Copy, Debug, PartialEq, Eq, Structural)]
pub enum OpClass {
    Explore,
    Exploit,
    Afl,
}

/// The class an operator code belongs to.
pub open spec fn op_class_of(op: u32) -> OpClass {
    if op <= COND_MAX_EXPLORE_OP {
        OpClass::Explore
    } else if op <= COND_MAX_EXPLOIT_OP {
        OpClass::Exploit
    } else {
        OpClass::Afl
    }
}

/// Executable form of [`op_class_of`].
pub fn op_class(op: u32) -> (r: OpClass)
    ensures
        r == op_class_of(op),
{
    if op <= COND_MAX_EXPLORE_OP {
        OpClass::Explore
    } else if op <= COND_MAX_EXPLOIT_OP {
        OpClass::Exploit
    } else {
        OpClass::Afl
    }
}

/// Puts a range into a list at its place; see [`inserted`].
pub fn insert_seg(list: &mut Vec<TagSeg>, seg: TagSeg)
    ensures
        final(list)@ == inserted(old(list)@, seg),
{
    let ghost before = list@;
    let mut p: usize = list.len();
    assert(before.take(p as int) =~= before);
    while p > 0 && list[p - 1].begin > seg.begin
        invariant
            p <= list.len(),
            list@ == before,
            slot(before, seg) == slot(before.take(p as int), seg),
        decreases p,
    {
        proof {
            assert(before.take(p as int).drop_last() =~= before.take(p - 1));
            assert(before.take(p as int).last() == before[p - 1]);
        }
        p -= 1;
    }
    proof {
        if p == 0 {
            assert(before.take(0).len() == 0);
        } else {
            assert(before.take(p as int).last() == before[p - 1]);
        }
    }
    list.insert(p, seg);
}

/// Merges the ranges of `src` into `dst`; see [`merged`].
pub fn merge_segs(dst: &mut Vec<TagSeg>, src: &Vec<TagSeg>)
    ensures
        final(dst)@ == merged(old(dst)@, src@),
{
    let ghost base = dst@;
    let mut i: usize = 0;
    while i < src.len()
        invariant
            i <= src.len(),
            dst@ == merged(base, src@.take(i as int)),
        decreases src.len() - i,
    {
        proof {
            assert(src@.take(i + 1).drop_last() =~= src@.take(i as int));
            assert(src@.take(i + 1).last() == src@[i as int]);
        }
        insert_seg(dst, src[i]);
        i += 1;
    }
    assert(src@.take(i as int) =~= src@);
}

/// The identity of a condition.
#[derive(Clone, Copy, Debug, PartialEq, Eq, Structural)]
pub struct CondKey {
    pub site: u32,
    pub context: u32,
    pub order: u32,
}

impl CondKey {
    /// The key as one number: `site`, `context` and `order` side by side,
    /// 32 bits each. Distinct keys give distinct numbers.
    pub open spec fn packed(self) -> u128 {
        (self.site as int * 0x1_0000_0000_0000_0000 + self.context as int * 0x1_0000_0000
            + self.order as int) as u128
    }

    /// Executable form of [`CondKey::packed`].
    pub fn pack(&self) -> (r: u128)
        ensures
            r == self.packed(),
    {
        (self.site as u128) * 0x1_0000_0000_0000_0000u128 + (self.context as u128)
            * 0x1_0000_0000u128 + (self.order as u128)
    }

    /// Packing loses nothing.
    pub proof fn lemma_packed_injective(self, other: CondKey)
        ensures
            self.packed() == other.packed() <==> self == other,
    {
    }
}

/// The fixed-size part of a condition, as the target reports it.
#[derive(Clone, Copy, Debug, PartialEq, Eq, Structural)]
pub struct CondStmtBase {
    /// Identifier of the comparison site.
    pub site: u32,
    /// Hash of the calling context.
    pub context: u32,
    /// Order among the conditions of this site and context.
    pub order: u32,
    /// Identifier of the enclosing function.
    pub func: u32,
    /// Operator kind.
    pub op: u32,
    /// Observed outcome: 0 or 1, or the value switched on.
    pub condition: u32,
    pub arg1: u64,
    pub arg2: u64,
    /// Indirect call site the condition was reached through; 0 if none.
    pub last_callsite: u32,
}

/// One conditional branch observed in a run, with its solving state.
#[derive(Debug)]
pub struct CondStmt {
    pub base: CondStmtBase,
    /// Ranges of input bytes the condition depends on.
    pub offsets: Vec<TagSeg>,
    /// Snapshot of the input bytes the condition depends on.
    pub variables: Vec<u8>,
    /// Microseconds per run of the input the condition was seen in.
    pub speed: u32,
    pub is_desirable: bool,
    pub is_consistent: bool,
    /// How often the condition was taken up for solving.
    pub fuzz_times: usize,
    pub state: CondState,
    pub is_target: bool,
}

/// A condition as a mathematical value.
pub struct CondStmtView {
    pub base: CondStmtBase,
    pub offsets: Seq<TagSeg>,
    pub variables: Seq<u8>,
    pub speed: u32,
    pub is_desirable: bool,
    pub is_consistent: bool,
    pub fuzz_times: usize,
    pub state: CondState,
    pub is_target: bool,
}

impl View for CondStmt {
    type V = CondStmtView;

    open spec fn view(&self) -> CondStmtView {
        CondStmtView {
            base: self.base,
            offsets: self.offsets@,
            variables: self.variables@,
            speed: self.speed,
            is_desirable: self.is_desirable,
            is_consistent: self.is_consistent,
            fuzz_times: self.fuzz_times,
            state: self.state,
            is_target: self.is_target,
        }
    }
}

/// A list of conditions as a sequence of mathematical values.
pub open spec fn views(conds: Seq<CondStmt>) -> Seq<CondStmtView> {
    conds.map_values(|c: CondStmt| c@)
}

impl CondStmtView {
    /// The identity of the condition.
    pub open spec fn key(self) -> CondKey {
        CondKey { site: self.base.site, context: self.base.context, order: self.base.order }
    }

    /// Fully explored.
    pub open spec fn is_done(self) -> bool {
        self.state == CondState::Done
    }

    /// In a terminal state: fully explored, or abandoned because it timed
    /// out or is no longer desirable.
    pub open spec fn is_discarded(self) -> bool {
        self.is_done() || self.state == CondState::Timeout || !self.is_desirable
    }

    /// The condition given up after repeated timeouts: the slowest speed,
    /// and the state `Timeout` unless the condition is done. `Done` is final.
    pub open spec fn timed_out(self) -> CondStmtView {
        CondStmtView {
            speed: SLOW_SPEED,
            state: if self.is_done() {
                CondState::Done
            } else {
                CondState::Timeout
            },
            ..self
        }
    }

    /// Every taint range ends no earlier than it begins.
    pub open spec fn offsets_proper(self) -> bool {
        proper(self.offsets)
    }

    /// The taint ranges ascend, as those of a condition read from a
    /// tracking run do.
    pub open spec fn offsets_ascending(self) -> bool {
        ascending(self.offsets)
    }
}

impl Clone for CondStmt {
    fn clone(&self) -> (r: Self)
        ensures
            r@ == self@,
    {
        let mut offsets: Vec<TagSeg> = Vec::new();
        let mut i: usize = 0;
        while i < self.offsets.len()
            invariant
                i <= self.offsets.len(),
                offsets@ == self.offsets@.subrange(0, i as int),
            decreases self.offsets.len() - i,
        {
            offsets.push(self.offsets[i]);
            i += 1;
        }
        let mut variables: Vec<u8> = Vec::new();
        let mut j: usize = 0;
        while j < self.variables.len()
            invariant
                j <= self.variables.len(),
                variables@ == self.variables@.subrange(0, j as int),
            decreases self.variables.len() - j,
        {
            variables.push(self.variables[j]);
            j += 1;
        }
        assert(offsets@ =~= self.offsets@);
        assert(variables@ =~= self.variables@);
        CondStmt {
            base: self.base,
            offsets,
            variables,
            speed: self.speed,
            is_desirable: self.is_desirable,
            is_consistent: self.is_consistent,
            fuzz_times: self.fuzz_times,
            state: self.state,
            is_target: self.is_target,
        }
    }
}

impl CondStmt {
    /// A fresh condition with every number zero, desirable and consistent.
    pub fn new() -> (r: Self)
        ensures
            r@ == CondStmt::new_view(),
    {
        CondStmt {
            base: CondStmtBase {
                site: 0,
                context: 0,
                order: 0,
                func: 0,
                op: 0,
                condition: 0,
                arg1: 0,
                arg2: 0,
                last_callsite: 0,
            },
            offsets: Vec::new(),
            variables: Vec::new(),
            speed: 0,
            is_desirable: true,
            is_consistent: true,
            fuzz_times: 0,
            state: CondState::Initial,
            is_target: false,
        }
    }

    /// The pseudo-condition that stands for havoc on saved input `id`: its
    /// site is the input's id, its first argument the number of edges the
    /// input covers.
    pub fn get_afl_cond(id: usize, speed: u32, edge_num: usize) -> (r: Self)
        ensures
            r@ == (CondStmtView {
                base: CondStmtBase {
                    op: COND_AFL_OP,
                    site: id as u32,
                    arg1: edge_num as u64,
                    ..CondStmt::new_view().base
                },
                speed,
                ..CondStmt::new_view()
            }),
    {
        let mut c = CondStmt::new();
        c.speed = speed;
        c.base.op = COND_AFL_OP;
        c.base.site = id as u32;
        c.base.arg1 = edge_num as u64;
        c
    }

    /// The value [`CondStmt::new`] returns.
    pub open spec fn new_view() -> CondStmtView {
        CondStmtView {
            base: CondStmtBase {
                site: 0,
                context: 0,
                order: 0,
                func: 0,
                op: 0,
                condition: 0,
                arg1: 0,
                arg2: 0,
                last_callsite: 0,
            },
            offsets: Seq::empty(),
            variables: Seq::empty(),
            speed: 0,
            is_desirable: true,
            is_consistent: true,
            fuzz_times: 0,
            state: CondState::Initial,
            is_target: false,
        }
    }

    /// The identity of the condition.
    pub fn key(&self) -> (k: CondKey)
        ensures
            k == self@.key(),
    {
        CondKey { site: self.base.site, context: self.base.context, order: self.base.order }
    }

    pub fn is_done(&self) -> (r: bool)
        ensures
            r == self@.is_done(),
    {
        self.state.is_done()
    }

    pub fn is_discarded(&self) -> (r: bool)
        ensures
            r == self@.is_discarded(),
    {
        self.state.is_done() || self.state.is_timeout() || !self.is_desirable
    }

    /// Whether the condition is being solved for the first time.
    pub fn is_first_time(&self) -> (r: bool)
        ensures
            r == (self@.fuzz_times == 1),
    {
        self.fuzz_times == 1
    }

    /// Moves the condition to `Done`; nothing else changes.
    pub fn mark_as_done(&mut self)
        ensures
            final(self)@ == (CondStmtView { state: CondState::Done, ..old(self)@ }),
    {
        self.state = CondState::Done;
    }

    /// Gives the condition up after repeated timeouts: its speed becomes
    /// the slowest and its state `Timeout`, unless it is done, which it stays.
    pub fn to_timeout(&mut self)
        ensures
            final(self)@ == old(self)@.timed_out(),
    {
        self.speed = SLOW_SPEED;
        if !self.state.is_done() {
            self.state = CondState::Timeout;
        }
    }

    pub fn set_target(&mut self, b: bool)
        ensures
            final(self)@ == (CondStmtView { is_target: b, ..old(self)@ }),
    {
        self.is_target = b;
    }
}

} // verus!
