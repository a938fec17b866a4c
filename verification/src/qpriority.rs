//! Priorities of queued conditions.
//!
//! A priority is a triple: the distance of the condition from the targets,
//! the class of its operator, and its age, the number of times it was handed
//! out already. Priorities are ordered by distance, then class, then age, the
//! smaller being the more urgent. A sentinel that follows every other
//! priority marks the entries that are done.

use crate::cond_stmt::op_class;
use crate::cond_stmt::op_class_of;
use crate::cond_stmt::OpClass;
use crate::defs::COND_AFL_OP;
use vstd::prelude::*;

verus! {

/// Largest age a priority that is not done can reach.
pub const MAX_AGE: u32 = 0xffff_fffe;

/// Rank of an operator class: exploration before exploitation before havoc.
pub open spec fn class_rank_of(c: OpClass) -> u8 {
    match c {
        OpClass::Explore => 0,
        OpClass::Exploit => 1,
        OpClass::Afl => 2,
    }
}

/// Executable form of [`class_rank_of`].
pub fn class_rank(c: OpClass) -> (r: u8)
    ensures
        r == class_rank_of(c),
{
    match c {
        OpClass::Explore => 0,
        OpClass::Exploit => 1,
        OpClass::Afl => 2,
    }
}

/// The priority of a queued condition.
#[derive(Clone, Copy, Debug, PartialEq, Eq, Structural)]
pub struct QPriority {
    pub distance: u32,
    pub class: u8,
    pub age: u32,
}

/// Lexicographic order on triples, as `std` orders tuples.
pub open spec fn rank_le(a: (u32, u8, u32), b: (u32, u8, u32)) -> bool {
    a.0 < b.0 || (a.0 == b.0 && (a.1 < b.1 || (a.1 == b.1 && a.2 <= b.2)))
}

impl QPriority {
    /// The sentinel of entries that are done.
    pub open spec fn done_value() -> QPriority {
        QPriority { distance: 0xffff_ffff, class: 0xff, age: 0xffff_ffff }
    }

    /// Whether `self` is the sentinel.
    pub open spec fn done_spec(self) -> bool {
        self == QPriority::done_value()
    }

    /// Whether `self` can stand for an entry that is not done: its class is
    /// that of an operator and its age below the sentinel's.
    pub open spec fn live(self) -> bool {
        self.class <= 2 && self.age <= MAX_AGE
    }

    /// `self` is handed out no later than `other`.
    pub open spec fn precedes(self, other: QPriority) -> bool {
        self.distance < other.distance || (self.distance == other.distance && (self.class
            < other.class || (self.class == other.class && self.age <= other.age)))
    }

    /// The triple by which a queue that serves its greatest item first
    /// orders this priority: each part counted down from its maximum.
    pub open spec fn rank_of(self) -> (u32, u8, u32) {
        (
            (0xffff_ffff - self.distance) as u32,
            (0xff - self.class) as u8,
            (0xffff_ffff - self.age) as u32,
        )
    }

    /// The priority a rank stands for.
    pub open spec fn of_rank(r: (u32, u8, u32)) -> QPriority {
        QPriority {
            distance: (0xffff_ffff - r.0) as u32,
            class: (0xff - r.1) as u8,
            age: (0xffff_ffff - r.2) as u32,
        }
    }

    /// The priority of a condition that enters the queue.
    pub open spec fn initial(op: u32, distance: u32) -> QPriority {
        QPriority { distance, class: class_rank_of(op_class_of(op)), age: 0 }
    }

    /// The priority after one more hand-out: two steps older for havoc, one
    /// for every other operator, up to [`MAX_AGE`]. The sentinel stays, and
    /// so does a priority that is that old already.
    pub open spec fn demoted(self, op: u32) -> QPriority {
        let step: u32 = if op == COND_AFL_OP {
            2
        } else {
            1
        };
        if self.done_spec() || self.age >= MAX_AGE {
            self
        } else if self.age >= MAX_AGE - step {
            QPriority { age: MAX_AGE, ..self }
        } else {
            QPriority { age: (self.age + step) as u32, ..self }
        }
    }

    /// The priority with its distance replaced. The sentinel stays.
    pub open spec fn with_distance(self, distance: u32) -> QPriority {
        if self.done_spec() {
            self
        } else {
            QPriority { distance, ..self }
        }
    }

    pub fn done() -> (r: Self)
        ensures
            r == QPriority::done_value(),
    {
        QPriority { distance: 0xffff_ffff, class: 0xff, age: 0xffff_ffff }
    }

    pub fn is_done(&self) -> (r: bool)
        ensures
            r == self.done_spec(),
    {
        self.distance == 0xffff_ffff && self.class == 0xff && self.age == 0xffff_ffff
    }

    pub fn init_distance(op: u32, distance: u32) -> (r: Self)
        ensures
            r == QPriority::initial(op, distance),
            r.live(),
    {
        QPriority { distance, class: class_rank(op_class(op)), age: 0 }
    }

    pub fn inc(&self, op: u32) -> (r: Self)
        ensures
            r == self.demoted(op),
    {
        let step: u32 = if op == COND_AFL_OP {
            2
        } else {
            1
        };
        if self.is_done() || self.age >= MAX_AGE {
            *self
        } else if self.age >= MAX_AGE - step {
            QPriority { distance: self.distance, class: self.class, age: MAX_AGE }
        } else {
            QPriority { distance: self.distance, class: self.class, age: self.age + step }
        }
    }

    pub fn new_distance(&self, distance: u32) -> (r: Self)
        ensures
            r == self.with_distance(distance),
    {
        if self.is_done() {
            *self
        } else {
            QPriority { distance, class: self.class, age: self.age }
        }
    }

    /// The rank under which the priority is kept in the queue.
    pub fn rank(&self) -> (r: (u32, u8, u32))
        ensures
            r == self.rank_of(),
    {
        (0xffff_ffff - self.distance, 0xff - self.class, 0xffff_ffff - self.age)
    }

    /// The priority kept under a rank.
    pub fn from_rank(r: (u32, u8, u32)) -> (p: Self)
        ensures
            p == QPriority::of_rank(r),
    {
        QPriority { distance: 0xffff_ffff - r.0, class: 0xff - r.1, age: 0xffff_ffff - r.2 }
    }

    /// Ranks and priorities correspond one to one.
    pub proof fn lemma_rank_round_trip(self)
        ensures
            QPriority::of_rank(self.rank_of()) == self,
    {
    }

    /// Ranks and priorities correspond one to one.
    pub proof fn lemma_of_rank_round_trip(r: (u32, u8, u32))
        ensures
            QPriority::of_rank(r).rank_of() == r,
    {
    }

    /// The order of ranks is the order of priorities turned round: the
    /// greatest rank belongs to the most urgent priority.
    pub proof fn lemma_rank_reverses(self, other: QPriority)
        ensures
            rank_le(self.rank_of(), other.rank_of()) <==> other.precedes(self),
    {
    }

    /// `precedes` is a total order.
    pub proof fn lemma_precedes_total_order(a: QPriority, b: QPriority, c: QPriority)
        ensures
            a.precedes(a),
            a.precedes(b) || b.precedes(a),
            a.precedes(b) && b.precedes(a) ==> a == b,
            a.precedes(b) && b.precedes(c) ==> a.precedes(c),
    {
    }

    /// The sentinel follows every priority, and no live priority is the sentinel.
    pub proof fn lemma_done_is_last(self)
        ensures
            self.precedes(QPriority::done_value()),
            self.live() ==> !self.done_spec(),
    {
    }

    /// Between two priorities, the one nearer to the targets is handed out
    /// first; at the same distance, exploration goes before exploitation.
    pub proof fn lemma_nearer_first(a: QPriority, b: QPriority)
        ensures
            a.distance < b.distance ==> a.precedes(b) && !b.precedes(a),
            a.distance == b.distance && a.class < b.class ==> a.precedes(b) && !b.precedes(a),
    {
    }

    /// Handing an entry out never makes it more urgent, keeps a live
    /// priority live, and makes it strictly less urgent until its age is at
    /// the maximum.
    pub proof fn lemma_inc_demotes(self, op: u32)
        ensures
            self.precedes(self.demoted(op)),
            self.live() ==> self.demoted(op).live(),
            self.done_spec() <==> self.demoted(op).done_spec(),
            self.live() && self.age < MAX_AGE ==> !self.demoted(op).precedes(self),
    {
    }
}

} // verus!
