//! The dynamic control-flow graph.
//!
//! Nodes are comparison sites; an edge `(u, v)` says that `v` was observed
//! right after `u` in some run. Some sites are targets. The graph grows as
//! runs are tracked, and scores every site by its distance to the nearest
//! target. Edges that stand for an indirect call carry the call site and the
//! input bytes ("magic bytes") under which the call took that edge.

use crate::cond_stmt::TagSeg;
use crate::distance::distances;
use crate::distance::distances_match;
use crate::distance::lemma_lookup_is_score;
use crate::distance::lemma_score_monotone;
use crate::distance::lemma_target_score;
use crate::distance::score_of;
use crate::distance::MAX_HOPS;
use crate::distance::TARGET_SCORE;
use crate::distance::UNDEF_SCORE;
use crate::seqs::lemma_push_contains;
use crate::seqs::lemma_push_distinct;
use crate::seqs::lemma_take_next;
use std::collections::HashMap;
use std::collections::HashSet;
use vstd::prelude::*;
use vstd::std_specs::hash::*;

verus! {

/// What an edge carries.
struct EdgeAttrs {
    indirect: bool,
    callsite: u32,
    magic: Vec<(usize, u8)>,
}

/// What an edge carries, as a mathematical value.
pub struct EdgeView {
    /// Whether the edge stands for an indirect call.
    pub indirect: bool,
    /// The call site of that call; 0 on a direct edge.
    pub callsite: u32,
    /// The input bytes, by offset, under which the call took this edge.
    pub magic: Map<usize, u8>,
}

impl EdgeView {
    /// A direct edge without magic bytes.
    pub open spec fn plain() -> EdgeView {
        EdgeView { indirect: false, callsite: 0, magic: Map::empty() }
    }
}

/// The graph as a mathematical value.
pub struct CfgView {
    /// The edges, with what each carries.
    pub edges: Map<(u32, u32), EdgeView>,
    /// The sites that are targets.
    pub targets: Set<u32>,
    /// For each indirect call site, the sites that dominate it, in the
    /// order in which they were listed.
    pub dominators: Map<u32, Seq<u32>>,
}

impl CfgView {
    /// Distance of `site` to the nearest target.
    pub open spec fn score(self, site: u32) -> u32 {
        score_of(self.edges.dom(), self.targets, site)
    }

    /// The sites that dominate `callsite`; none if the call site is unknown.
    pub open spec fn dominators_of(self, callsite: u32) -> Seq<u32> {
        if self.dominators.contains_key(callsite) {
            self.dominators[callsite]
        } else {
            Seq::empty()
        }
    }

    /// Whether `site` dominates some indirect call.
    pub open spec fn dominates_indirect_call(self, site: u32) -> bool {
        exists|k: u32| #[trigger] self.dominators.contains_key(k) && self.dominators[k].contains(site)
    }

    /// Every edge marked indirect names a call site other than 0 that has a dominator.
    pub open spec fn indirect_edges_dominated(self) -> bool {
        forall|e: (u32, u32)| #[trigger]
            self.edges.contains_key(e) && self.edges[e].indirect ==> self.edges[e].callsite != 0
                && self.dominators_of(self.edges[e].callsite).len() > 0
    }

    /// Whether `variables` carry the magic bytes of an indirect edge into
    /// `site`: the edge has magic bytes at offsets before the last variable,
    /// and at each such offset the variable is the magic byte.
    pub open spec fn magic_settled(self, site: u32, variables: Seq<u8>) -> bool {
        exists|u: u32| #[trigger]
            self.edges.contains_key((u, site)) && self.edges[(u, site)].indirect && magic_matches(
                self.edges[(u, site)].magic,
                variables,
            )
    }

    /// Distance of `site` for a condition with these variables: one more
    /// than its score where the variables already carry the magic bytes of
    /// an indirect edge into it, its score otherwise. Targets and sites
    /// without a distance keep their score.
    pub open spec fn score_inp(self, site: u32, variables: Seq<u8>) -> u32 {
        let d = self.score(site);
        if TARGET_SCORE < d < MAX_HOPS && self.magic_settled(site, variables) {
            (d + 1) as u32
        } else {
            d
        }
    }
}

/// The score for an input is the site's score or one more: downweighting
/// never brings a condition nearer.
pub proof fn lemma_score_inp_bounds(cfg: CfgView, site: u32, variables: Seq<u8>)
    ensures
        cfg.score(site) <= cfg.score_inp(site, variables) <= cfg.score(site) + 1,
        cfg.score_inp(site, Seq::empty()) == cfg.score(site),
{
}

/// Whether `variables` agree with `magic` at every offset before the last
/// variable, there being at least one such offset.
pub open spec fn magic_matches(magic: Map<usize, u8>, variables: Seq<u8>) -> bool {
    &&& exists|i: usize| #[trigger] magic.contains_key(i) && i < variables.len() - 1
    &&& forall|i: usize| #[trigger]
        magic.contains_key(i) && i < variables.len() - 1 ==> variables[i as int] == magic[i]
}

/// The map a list of `(offset, byte)` pairs stands for.
pub open spec fn magic_map(v: Seq<(usize, u8)>) -> Map<usize, u8> {
    Map::new(
        |i: usize| exists|j: int| 0 <= j < v.len() && (#[trigger] v[j]).0 == i,
        |i: usize| v[choose|j: int| 0 <= j < v.len() && (#[trigger] v[j]).0 == i].1,
    )
}

/// No offset occurs twice in the list.
pub open spec fn distinct_offsets(v: Seq<(usize, u8)>) -> bool {
    forall|a: int, b: int|
        0 <= a < v.len() && 0 <= b < v.len() && (#[trigger] v[a]).0 == (#[trigger] v[b]).0 ==> a
            == b
}

/// Whether offset `i` lies in one of the ranges.
pub open spec fn covered(offsets: Seq<TagSeg>, i: usize) -> bool {
    exists|j: int| 0 <= j < offsets.len() && (#[trigger] offsets[j]).begin <= i < offsets[j].end
}

/// The bytes of `buf` at the offsets the ranges cover, as far as `buf` goes.
pub open spec fn captured(buf: Seq<u8>, offsets: Seq<TagSeg>) -> Map<usize, u8> {
    Map::new(|i: usize| i < buf.len() && covered(offsets, i), |i: usize| buf[i as int])
}

/// The sites that the rows of `table` list for `callsite`, row after row.
pub open spec fn rows_of(table: Seq<(u32, Vec<u32>)>, callsite: u32) -> Seq<u32>
    decreases table.len(),
{
    if table.len() == 0 {
        Seq::empty()
    } else if table.last().0 == callsite {
        rows_of(table.drop_last(), callsite) + table.last().1@
    } else {
        rows_of(table.drop_last(), callsite)
    }
}

/// The dominators a table of `(call site, dominating sites)` rows stands
/// for: each call site that has a row, with the sites of all its rows.
pub open spec fn dominators_view(table: Seq<(u32, Vec<u32>)>) -> Map<u32, Seq<u32>> {
    Map::new(
        |k: u32| exists|i: int| 0 <= i < table.len() && (#[trigger] table[i]).0 == k,
        |k: u32| rows_of(table, k),
    )
}

/// A call site without a row has no sites listed.
proof fn lemma_no_rows(table: Seq<(u32, Vec<u32>)>, callsite: u32)
    requires
        forall|i: int| 0 <= i < table.len() ==> (#[trigger] table[i]).0 != callsite,
    ensures
        rows_of(table, callsite) == Seq::<u32>::empty(),
    decreases table.len(),
{
    if table.len() > 0 {
        let front = table.drop_last();
        assert forall|i: int| 0 <= i < front.len() implies (#[trigger] front[i]).0 != callsite by {
            assert(front[i] == table[i]);
        }
        lemma_no_rows(front, callsite);
        assert(table.last() == table[table.len() - 1]);
    }
}

/// A site is listed for a call site exactly when one of the call site's rows holds it.
proof fn lemma_rows_of(table: Seq<(u32, Vec<u32>)>, callsite: u32, s: u32)
    ensures
        rows_of(table, callsite).contains(s) <==> exists|a: int|
            0 <= a < table.len() && (#[trigger] table[a]).0 == callsite && table[a].1@.contains(s),
    decreases table.len(),
{
    if table.len() > 0 {
        let front = table.drop_last();
        let n = table.len() - 1;
        lemma_rows_of(front, callsite, s);
        let listed = rows_of(front, callsite);
        if rows_of(table, callsite).contains(s) {
            if listed.contains(s) {
                let a = choose|a: int|
                    0 <= a < front.len() && (#[trigger] front[a]).0 == callsite && front[a].1@.contains(s);
                assert(table[a] == front[a]);
            } else {
                let i = choose|i: int|
                    0 <= i < rows_of(table, callsite).len() && rows_of(table, callsite)[i] == s;
                assert(table.last().0 == callsite);
                if i < listed.len() {
                    assert(listed[i] == s);
                } else {
                    assert(table.last().1@[i - listed.len()] == s);
                }
                assert(table[n].1@.contains(s));
            }
        }
        if exists|a: int|
            0 <= a < table.len() && (#[trigger] table[a]).0 == callsite && table[a].1@.contains(s) {
            let a = choose|a: int|
                0 <= a < table.len() && (#[trigger] table[a]).0 == callsite && table[a].1@.contains(s);
            if a < n {
                assert(front[a] == table[a]);
                let i = choose|i: int| 0 <= i < listed.len() && listed[i] == s;
                assert(rows_of(table, callsite)[i] == s);
            } else {
                let j = choose|j: int| 0 <= j < table[a].1@.len() && table[a].1@[j] == s;
                assert(rows_of(table, callsite)[listed.len() + j] == s);
            }
        }
    }
}

/// In a list without repeated offsets, each pair is an entry of the map.
pub proof fn lemma_magic_entry(v: Seq<(usize, u8)>, a: int)
    requires
        distinct_offsets(v),
        0 <= a < v.len(),
    ensures
        magic_map(v).contains_key(v[a].0),
        magic_map(v)[v[a].0] == v[a].1,
{
    let i = v[a].0;
    let c = choose|j: int| 0 <= j < v.len() && (#[trigger] v[j]).0 == i;
    assert(c == a);
}

/// Reads out of `buf` the bytes at the offsets that `offsets` cover. Offsets
/// beyond the end of `buf` are left out; each offset is listed once.
pub fn capture(buf: &Vec<u8>, offsets: &Vec<TagSeg>) -> (r: Vec<(usize, u8)>)
    ensures
        distinct_offsets(r@),
        magic_map(r@) == captured(buf@, offsets@),
{
    broadcast use group_hash_axioms;

    let mut out: Vec<(usize, u8)> = Vec::new();
    let mut seen: HashSet<usize> = HashSet::new();
    let mut j: usize = 0;
    while j < offsets.len()
        invariant
            j <= offsets.len(),
            forall|x: usize| #[trigger]
                seen@.contains(x) <==> x < buf.len() && covered(offsets@.take(j as int), x),
            forall|k: int|
                0 <= k < out@.len() ==> seen@.contains((#[trigger] out@[k]).0) && out@[k].0
                    < buf.len() && out@[k].1 == buf@[out@[k].0 as int],
            forall|x: usize| #[trigger]
                seen@.contains(x) ==> exists|k: int| 0 <= k < out@.len() && (#[trigger] out@[k]).0 == x,
            distinct_offsets(out@),
        decreases offsets.len() - j,
    {
        let seg = offsets[j];
        let begin = seg.begin as usize;
        let end = if (seg.end as usize) < buf.len() {
            seg.end as usize
        } else {
            buf.len()
        };
        let ghost prefix = offsets@.take(j as int);
        let mut i: usize = begin;
        while i < end
            invariant
                begin <= i,
                i <= end || i == begin,
                end <= buf.len(),
                end <= seg.end,
                begin == seg.begin,
                prefix == offsets@.take(j as int),
                forall|x: usize| #[trigger]
                    seen@.contains(x) <==> x < buf.len() && (covered(prefix, x) || begin <= x < i),
                forall|k: int|
                    0 <= k < out@.len() ==> seen@.contains((#[trigger] out@[k]).0) && out@[k].0
                        < buf.len() && out@[k].1 == buf@[out@[k].0 as int],
                forall|x: usize| #[trigger]
                    seen@.contains(x) ==> exists|k: int|
                        0 <= k < out@.len() && (#[trigger] out@[k]).0 == x,
                distinct_offsets(out@),
            decreases end - i,
        {
            let ghost seen_before = seen@;
            let ghost out_before = out@;
            if seen.insert(i) {
                out.push((i, buf[i]));
                proof {
                    let n = out_before.len() as int;
                    assert(out@[n] == (i, buf@[i as int]));
                    assert forall|k: int| 0 <= k < out@.len() implies seen@.contains(
                        (#[trigger] out@[k]).0,
                    ) && out@[k].0 < buf.len() && out@[k].1 == buf@[out@[k].0 as int] by {
                        if k < n {
                            assert(out@[k] == out_before[k]);
                        }
                    }
                    assert forall|x: usize| #[trigger] seen@.contains(x) implies exists|k: int|
                        0 <= k < out@.len() && (#[trigger] out@[k]).0 == x by {
                        if x == i {
                            assert(out@[n].0 == x);
                        } else {
                            let k = choose|k: int|
                                0 <= k < out_before.len() && (#[trigger] out_before[k]).0 == x;
                            assert(out@[k].0 == x);
                        }
                    }
                    assert forall|a: int, b: int|
                        0 <= a < out@.len() && 0 <= b < out@.len() && (#[trigger] out@[a]).0 == (
                        #[trigger] out@[b]).0 implies a == b by {
                        if a < n && b < n {
                            assert(out_before[a].0 == out_before[b].0);
                        } else if a < n {
                            assert(seen_before.contains(out_before[a].0));
                        } else if b < n {
                            assert(seen_before.contains(out_before[b].0));
                        }
                    }
                }
            }
            i += 1;
        }
        proof {
            let next = offsets@.take(j + 1);
            assert forall|x: usize| #[trigger]
                seen@.contains(x) <==> x < buf.len() && covered(next, x) by {
                if x < buf.len() && (covered(prefix, x) || begin <= x < i) {
                    if covered(prefix, x) {
                        let jj = choose|jj: int|
                            0 <= jj < prefix.len() && (#[trigger] prefix[jj]).begin <= x
                                < prefix[jj].end;
                        assert(next[jj] == prefix[jj]);
                    } else {
                        assert(next[j as int] == seg);
                    }
                }
                if x < buf.len() && covered(next, x) {
                    let jj = choose|jj: int|
                        0 <= jj < next.len() && (#[trigger] next[jj]).begin <= x < next[jj].end;
                    if jj < j {
                        assert(prefix[jj] == next[jj]);
                    } else {
                        assert(next[jj] == seg);
                    }
                }
            }
        }
        j += 1;
    }
    proof {
        assert(offsets@.take(j as int) =~= offsets@);
        assert forall|x: usize| magic_map(out@).contains_key(x) <==> captured(
            buf@,
            offsets@,
        ).contains_key(x) by {
            if magic_map(out@).contains_key(x) {
                let k = choose|k: int| 0 <= k < out@.len() && (#[trigger] out@[k]).0 == x;
                assert(seen@.contains(out@[k].0));
            }
            if captured(buf@, offsets@).contains_key(x) {
                assert(seen@.contains(x));
            }
        }
        assert forall|x: usize| magic_map(out@).contains_key(x) implies magic_map(out@)[x]
            == captured(buf@, offsets@)[x] by {
            let k = choose|k: int| 0 <= k < out@.len() && (#[trigger] out@[k]).0 == x;
            lemma_magic_entry(out@, k);
        }
        assert(magic_map(out@) =~= captured(buf@, offsets@));
    }
    out
}

/// Whether the variables agree with the magic bytes at every offset before
/// the last variable, there being at least one such offset.
fn matches_magic(magic: &Vec<(usize, u8)>, variables: &Vec<u8>) -> (r: bool)
    requires
        distinct_offsets(magic@),
    ensures
        r == magic_matches(magic_map(magic@), variables@),
{
    let mut any = false;
    let mut all = true;
    let mut k: usize = 0;
    while k < magic.len()
        invariant
            k <= magic.len(),
            any <==> exists|a: int|
                0 <= a < k && (#[trigger] magic@[a]).0 < variables@.len() - 1,
            all <==> forall|a: int|
                0 <= a < k && (#[trigger] magic@[a]).0 < variables@.len() - 1 ==> variables@[magic@[a].0 as int]
                    == magic@[a].1,
        decreases magic.len() - k,
    {
        let (i, b) = magic[k];
        if variables.len() > 0 && i < variables.len() - 1 {
            any = true;
            if variables[i] != b {
                all = false;
            }
        }
        k += 1;
    }
    proof {
        let m = magic_map(magic@);
        if any {
            let a = choose|a: int| 0 <= a < k && (#[trigger] magic@[a]).0 < variables@.len() - 1;
            lemma_magic_entry(magic@, a);
        }
        if exists|i: usize| #[trigger] m.contains_key(i) && i < variables@.len() - 1 {
            let i = choose|i: usize| #[trigger] m.contains_key(i) && i < variables@.len() - 1;
            let a = choose|a: int| 0 <= a < magic@.len() && (#[trigger] magic@[a]).0 == i;
            assert(magic@[a].0 < variables@.len() - 1);
        }
        if all {
            assert forall|i: usize| #[trigger]
                m.contains_key(i) && i < variables@.len() - 1 implies variables@[i as int]
                == m[i] by {
                let a = choose|a: int| 0 <= a < magic@.len() && (#[trigger] magic@[a]).0 == i;
                lemma_magic_entry(magic@, a);
            }
        } else {
            let a = choose|a: int|
                0 <= a < k && (#[trigger] magic@[a]).0 < variables@.len() - 1 && variables@[magic@[a].0 as int]
                    != magic@[a].1;
            lemma_magic_entry(magic@, a);
        }
    }
    any && all
}

/// An edge as one number: its two sites side by side.
spec fn edge_code(e: (u32, u32)) -> u64 {
    (e.0 as int * 0x1_0000_0000 + e.1 as int) as u64
}

fn code_of(u: u32, v: u32) -> (r: u64)
    ensures
        r == edge_code((u, v)),
{
    (u as u64) * 0x1_0000_0000u64 + (v as u64)
}

/// `index` finds each edge of `pairs`, and nothing else.
spec fn indexed(pairs: Seq<(u32, u32)>, index: Map<u64, usize>) -> bool {
    &&& forall|i: int|
        0 <= i < pairs.len() ==> index.contains_key(edge_code(#[trigger] pairs[i])) && index[edge_code(
            pairs[i],
        )] == i
    &&& forall|k: u64| #[trigger]
        index.contains_key(k) ==> index[k] < pairs.len() && edge_code(pairs[index[k] as int]) == k
}

/// Every row's sites are in `sites`, and nothing else.
spec fn collects(table: Seq<(u32, Vec<u32>)>, sites: Set<u32>) -> bool {
    forall|s: u32| #[trigger]
        sites.contains(s) <==> exists|a: int|
            0 <= a < table.len() && (#[trigger] table[a]).1@.contains(s)
}

proof fn lemma_collects(table: Seq<(u32, Vec<u32>)>, sites: Set<u32>, view: CfgView)
    requires
        collects(table, sites),
        view.dominators == dominators_view(table),
    ensures
        forall|s: u32| #[trigger] sites.contains(s) <==> view.dominates_indirect_call(s),
{
    assert forall|s: u32| #[trigger] sites.contains(s) <==> view.dominates_indirect_call(s) by {
        if sites.contains(s) {
            let a = choose|a: int| 0 <= a < table.len() && (#[trigger] table[a]).1@.contains(s);
            let k = table[a].0;
            lemma_rows_of(table, k, s);
            assert(view.dominators.contains_key(k));
        }
        if view.dominates_indirect_call(s) {
            let k = choose|k: u32| #[trigger]
                view.dominators.contains_key(k) && view.dominators[k].contains(s);
            lemma_rows_of(table, k, s);
            let a = choose|a: int|
                0 <= a < table.len() && (#[trigger] table[a]).0 == k && table[a].1@.contains(s);
            assert(table[a].1@.contains(s));
        }
    }
}

spec fn attrs_view(a: EdgeAttrs) -> EdgeView {
    EdgeView { indirect: a.indirect, callsite: a.callsite, magic: magic_map(a.magic@) }
}

spec fn position(pairs: Seq<(u32, u32)>, e: (u32, u32)) -> int {
    choose|i: int| 0 <= i < pairs.len() && pairs[i] == e
}

/// Edges kept side by side with what they carry, each once, and findable.
spec fn stored(pairs: Seq<(u32, u32)>, attrs: Seq<EdgeAttrs>, index: Map<u64, usize>) -> bool {
    &&& pairs.len() == attrs.len()
    &&& pairs.no_duplicates()
    &&& indexed(pairs, index)
    &&& forall|i: int| 0 <= i < attrs.len() ==> distinct_offsets((#[trigger] attrs[i]).magic@)
}

/// Position of the edge `(u, v)` among the stored edges.
fn lookup_edge(
    pairs: &Vec<(u32, u32)>,
    attrs: &Vec<EdgeAttrs>,
    index: &HashMap<u64, usize>,
    u: u32,
    v: u32,
) -> (r: Option<usize>)
    requires
        stored(pairs@, attrs@, index@),
    ensures
        r.is_some() <==> pairs@.contains((u, v)),
        r matches Some(i) ==> i < pairs@.len() && pairs@[i as int] == (u, v) && position(
            pairs@,
            (u, v),
        ) == i,
{
    broadcast use group_hash_axioms;

    let code = code_of(u, v);
    proof {
        if pairs@.contains((u, v)) {
            let i = choose|i: int| 0 <= i < pairs@.len() && pairs@[i] == (u, v);
            assert(index@.contains_key(edge_code(pairs@[i])));
        }
        if index@.contains_key(code) {
            let i = index@[code] as int;
            assert(edge_code(pairs@[i]) == edge_code((u, v)));
            assert(pairs@[i] == (u, v));
        }
    }
    match index.get(&code) {
        Some(i) => Some(*i),
        None => None,
    }
}

/// Stores the direct edge `(u, v)` unless it is stored already. Returns
/// whether it was stored now.
fn store_edge(
    pairs: &mut Vec<(u32, u32)>,
    attrs: &mut Vec<EdgeAttrs>,
    index: &mut HashMap<u64, usize>,
    u: u32,
    v: u32,
) -> (added: bool)
    requires
        stored(old(pairs)@, old(attrs)@, old(index)@),
    ensures
        stored(final(pairs)@, final(attrs)@, final(index)@),
        added == !old(pairs)@.contains((u, v)),
        added ==> final(pairs)@ == old(pairs)@.push((u, v)) && final(attrs)@.len() == old(
            attrs,
        )@.len() + 1 && attrs_view(final(attrs)@.last()) == EdgeView::plain(),
        !added ==> final(pairs)@ == old(pairs)@ && final(attrs)@ == old(attrs)@ && final(index)@
            == old(index)@,
        forall|i: int| 0 <= i < old(attrs)@.len() ==> final(attrs)@[i] == old(attrs)@[i],
{
    broadcast use group_hash_axioms;

    if lookup_edge(pairs, attrs, index, u, v).is_some() {
        return false;
    }
    let ghost pairs_before = pairs@;
    let ghost index_before = index@;
    let code = code_of(u, v);
    index.insert(code, pairs.len());
    pairs.push((u, v));
    attrs.push(EdgeAttrs { indirect: false, callsite: 0, magic: Vec::new() });
    proof {
        assert(magic_map(Seq::<(usize, u8)>::empty()) =~= Map::<usize, u8>::empty());
        lemma_push_distinct(pairs_before, (u, v));
        assert(!index_before.contains_key(code)) by {
            if index_before.contains_key(code) {
                assert(pairs_before[index_before[code] as int] == (u, v));
                assert(pairs_before.contains((u, v)));
            }
        }
        assert forall|i: int| 0 <= i < pairs@.len() implies index@.contains_key(
            edge_code(#[trigger] pairs@[i]),
        ) && index@[edge_code(pairs@[i])] == i by {
            if i < pairs_before.len() {
                assert(pairs@[i] == pairs_before[i]);
                assert(pairs_before.contains(pairs_before[i]));
            }
        }
        assert forall|k: u64| #[trigger] index@.contains_key(k) implies index@[k] < pairs@.len()
            && edge_code(pairs@[index@[k] as int]) == k by {
            if k != code {
                assert(index_before.contains_key(k));
                assert(pairs@[index_before[k] as int] == pairs_before[index_before[k] as int]);
            }
        }
    }
    true
}

/// The sites that the rows of a table of dominators hold.
fn collect_sites(table: &Vec<(u32, Vec<u32>)>) -> (sites: HashSet<u32>)
    ensures
        collects(table@, sites@),
{
    broadcast use group_hash_axioms;

    let mut sites: HashSet<u32> = HashSet::new();
    let mut a: usize = 0;
    while a < table.len()
        invariant
            a <= table.len(),
            collects(table@.take(a as int), sites@),
        decreases table.len() - a,
    {
        let row = &table[a].1;
        let ghost start = sites@;
        let ghost prefix = table@.take(a as int);
        let mut b: usize = 0;
        while b < row.len()
            invariant
                b <= row.len(),
                forall|s: u32| #[trigger]
                    sites@.contains(s) <==> start.contains(s) || row@.take(b as int).contains(s),
            decreases row.len() - b,
        {
            proof {
                lemma_take_next(row@, b as int);
                lemma_push_contains(row@.take(b as int), row@[b as int]);
            }
            sites.insert(row[b]);
            b += 1;
        }
        proof {
            let next = table@.take(a + 1);
            assert(row@.take(b as int) =~= row@);
            assert(next[a as int].1@ == row@);
            assert forall|s: u32| #[trigger]
                sites@.contains(s) <==> exists|c: int|
                    0 <= c < next.len() && (#[trigger] next[c]).1@.contains(s) by {
                if start.contains(s) {
                    let c = choose|c: int|
                        0 <= c < prefix.len() && (#[trigger] prefix[c]).1@.contains(s);
                    assert(next[c] == prefix[c]);
                }
                if exists|c: int| 0 <= c < next.len() && (#[trigger] next[c]).1@.contains(s) {
                    let c = choose|c: int|
                        0 <= c < next.len() && (#[trigger] next[c]).1@.contains(s);
                    if c < a {
                        assert(prefix[c] == next[c]);
                    }
                }
            }
        }
        a += 1;
    }
    assert(table@.take(a as int) =~= table@);
    sites
}

/// The observed control-flow graph with its targets and dominator table.
pub struct ControlFlowGraph {
    pairs: Vec<(u32, u32)>,
    attrs: Vec<EdgeAttrs>,
    index: HashMap<u64, usize>,
    targets: Vec<u32>,
    table: Vec<(u32, Vec<u32>)>,
    dominator_sites: HashSet<u32>,
    dist: HashMap<u32, u32>,
}

impl View for ControlFlowGraph {
    type V = CfgView;

    closed spec fn view(&self) -> CfgView {
        CfgView {
            edges: Map::new(
                |e: (u32, u32)| self.pairs@.contains(e),
                |e: (u32, u32)| attrs_view(self.attrs@[position(self.pairs@, e)]),
            ),
            targets: self.targets@.to_set(),
            dominators: dominators_view(self.table@),
        }
    }
}

impl ControlFlowGraph {
    /// The invariant of the representation: every edge is held once, with
    /// its attributes; the table of distances and the set of dominating
    /// sites agree with the edges, targets and dominators.
    pub closed spec fn wf(&self) -> bool {
        &&& stored(self.pairs@, self.attrs@, self.index@)
        &&& distances_match(self.dist@, self.pairs@.to_set(), self.targets@.to_set())
        &&& forall|s: u32| #[trigger]
            self.dominator_sites@.contains(s) <==> self@.dominates_indirect_call(s)
    }

    /// The edges are those of the list.
    proof fn lemma_edge_dom(&self)
        ensures
            self@.edges.dom() =~= self.pairs@.to_set(),
    {
    }

    /// A graph with these targets, these edges, all direct, and this table
    /// of dominators. Repeated targets, edges and rows are accepted.
    pub fn new(targets: Vec<u32>, edges: Vec<(u32, u32)>, dominators: Vec<(u32, Vec<u32>)>) -> (r:
        Self)
        ensures
            r.wf(),
            r@ == (CfgView {
                edges: Map::new(|e: (u32, u32)| edges@.contains(e), |e: (u32, u32)| EdgeView::plain()),
                targets: targets@.to_set(),
                dominators: dominators_view(dominators@),
            }),
            r@.indirect_edges_dominated(),
    {
        let mut pairs: Vec<(u32, u32)> = Vec::new();
        let mut attrs: Vec<EdgeAttrs> = Vec::new();
        let mut index: HashMap<u64, usize> = HashMap::new();
        let mut i: usize = 0;
        while i < edges.len()
            invariant
                i <= edges.len(),
                stored(pairs@, attrs@, index@),
                forall|e: (u32, u32)| #[trigger]
                    pairs@.contains(e) <==> edges@.take(i as int).contains(e),
                forall|k: int|
                    0 <= k < attrs@.len() ==> attrs_view(#[trigger] attrs@[k]) == EdgeView::plain(),
            decreases edges.len() - i,
        {
            let (u, v) = edges[i];
            proof {
                lemma_take_next(edges@, i as int);
                lemma_push_contains(edges@.take(i as int), (u, v));
                lemma_push_contains(pairs@, (u, v));
            }
            store_edge(&mut pairs, &mut attrs, &mut index, u, v);
            i += 1;
        }
        let dominator_sites = collect_sites(&dominators);
        let dist = distances(&pairs, &targets);
        let r = ControlFlowGraph { pairs, attrs, index, targets, table: dominators, dominator_sites, dist };
        proof {
            assert(edges@.take(i as int) =~= edges@);
            lemma_collects(r.table@, r.dominator_sites@, r@);
            assert(r@.edges =~= Map::new(
                |e: (u32, u32)| edges@.contains(e),
                |e: (u32, u32)| EdgeView::plain(),
            ));
        }
        r
    }

    /// Distance of `site` for a condition with these variables: one more
    /// than the site's score where the variables already carry the magic
    /// bytes of an indirect edge into the site, the score otherwise.
    pub fn score_for_site_inp(&self, site: u32, variables: &Vec<u8>) -> (d: u32)
        requires
            self.wf(),
        ensures
            d == self@.score_inp(site, variables@),
    {
        let score = self.score_for_site(site);
        if score == TARGET_SCORE || score >= MAX_HOPS {
            return score;
        }
        let mut settled = false;
        let mut i: usize = 0;
        while i < self.pairs.len()
            invariant
                i <= self.pairs.len(),
                self.wf(),
                settled <==> exists|a: int|
                    0 <= a < i && (#[trigger] self.pairs@[a]).1 == site && self.attrs@[a].indirect
                        && magic_matches(magic_map(self.attrs@[a].magic@), variables@),
            decreases self.pairs.len() - i,
        {
            if self.pairs[i].1 == site && self.attrs[i].indirect {
                if matches_magic(&self.attrs[i].magic, variables) {
                    settled = true;
                }
            }
            i += 1;
        }
        proof {
            if settled {
                let a = choose|a: int|
                    0 <= a < i && (#[trigger] self.pairs@[a]).1 == site && self.attrs@[a].indirect
                        && magic_matches(magic_map(self.attrs@[a].magic@), variables@);
                let u = self.pairs@[a].0;
                assert(self.pairs@[a] == (u, site));
                assert(self.pairs@.contains((u, site)));
                assert(position(self.pairs@, (u, site)) == a);
                assert(self@.edges.contains_key((u, site)));
            }
            if self@.magic_settled(site, variables@) {
                let u = choose|u: u32| #[trigger]
                    self@.edges.contains_key((u, site)) && self@.edges[(u, site)].indirect
                        && magic_matches(self@.edges[(u, site)].magic, variables@);
                let a = position(self.pairs@, (u, site));
                assert(self.pairs@[a].1 == site);
            }
        }
        if settled {
            score + 1
        } else {
            score
        }
    }

    /// Position of the edge `(u, v)` in the list of edges.
    fn find_edge(&self, u: u32, v: u32) -> (r: Option<usize>)
        requires
            self.wf(),
        ensures
            r.is_some() <==> self@.edges.contains_key((u, v)),
            r matches Some(i) ==> i < self.pairs@.len() && self.pairs@[i as int] == (u, v)
                && position(self.pairs@, (u, v)) == i,
    {
        lookup_edge(&self.pairs, &self.attrs, &self.index, u, v)
    }

    /// Adds the edge `(u, v)`, as a direct edge, unless the graph holds it.
    /// Returns whether it was added. No score rises.
    pub fn add_edge(&mut self, u: u32, v: u32) -> (added: bool)
        requires
            old(self).wf(),
        ensures
            final(self).wf(),
            added == !old(self)@.edges.contains_key((u, v)),
            added ==> final(self)@ == (CfgView {
                edges: old(self)@.edges.insert((u, v), EdgeView::plain()),
                ..old(self)@
            }),
            !added ==> final(self)@ == old(self)@,
            forall|x: u32| #[trigger] final(self)@.score(x) <= old(self)@.score(x),
            old(self)@.indirect_edges_dominated() ==> final(self)@.indirect_edges_dominated(),
    {
        let ghost before = *self;
        if !store_edge(&mut self.pairs, &mut self.attrs, &mut self.index, u, v) {
            return false;
        }
        self.dist = distances(&self.pairs, &self.targets);
        proof {
            let n = before.pairs@.len() as int;
            lemma_push_contains(before.pairs@, (u, v));
            assert forall|e: (u32, u32)| #[trigger] self.pairs@.contains(e) implies attrs_view(
                self.attrs@[position(self.pairs@, e)],
            ) == before@.edges.insert((u, v), EdgeView::plain())[e] by {
                let i = position(self.pairs@, e);
                if e != (u, v) {
                    let j = position(before.pairs@, e);
                    assert(self.pairs@[j] == e);
                    assert(i == j);
                } else {
                    assert(self.pairs@[n] == e);
                    assert(i == n);
                    assert(self.attrs@[n] == self.attrs@.last());
                }
            }
            assert(self@.edges =~= before@.edges.insert((u, v), EdgeView::plain()));
            assert(self@.dominators == before@.dominators);
            self.lemma_edge_dom();
            assert forall|x: u32| #[trigger] self@.score(x) <= before@.score(x) by {
                lemma_score_monotone(
                    before@.edges.dom(),
                    before@.targets,
                    self@.edges.dom(),
                    self@.targets,
                    x,
                );
            }
            if before@.indirect_edges_dominated() {
                assert forall|e: (u32, u32)| #[trigger]
                    self@.edges.contains_key(e) && self@.edges[e].indirect implies self@.edges[e].callsite
                    != 0 && self@.dominators_of(self@.edges[e].callsite).len() > 0 by {
                    assert(before@.edges.contains_key(e));
                }
            }
        }
        true
    }

    /// Takes `site` out of the targets. No score falls.
    pub fn remove_target(&mut self, site: u32)
        requires
            old(self).wf(),
        ensures
            final(self).wf(),
            final(self)@ == (CfgView { targets: old(self)@.targets.remove(site), ..old(self)@ }),
            forall|x: u32| #[trigger] final(self)@.score(x) >= old(self)@.score(x),
            old(self)@.indirect_edges_dominated() ==> final(self)@.indirect_edges_dominated(),
    {
        let ghost before = *self;
        let mut kept: Vec<u32> = Vec::new();
        let mut i: usize = 0;
        while i < self.targets.len()
            invariant
                i <= self.targets.len(),
                *self == before,
                forall|x: u32| #[trigger]
                    kept@.contains(x) <==> x != site && self.targets@.take(i as int).contains(x),
            decreases self.targets.len() - i,
        {
            let t = self.targets[i];
            proof {
                lemma_take_next(self.targets@, i as int);
                lemma_push_contains(self.targets@.take(i as int), t);
                lemma_push_contains(kept@, t);
            }
            if t != site {
                kept.push(t);
            }
            i += 1;
        }
        proof {
            assert(self.targets@.take(i as int) =~= self.targets@);
            assert(kept@.to_set() =~= before@.targets.remove(site));
        }
        self.targets = kept;
        self.dist = distances(&self.pairs, &self.targets);
        proof {
            assert(self@.edges =~= before@.edges);
            assert(self@.dominators == before@.dominators);
            assert(self.attrs@ == before.attrs@);
            assert(self.index@ == before.index@);
            assert forall|x: u32| #[trigger] self@.score(x) >= before@.score(x) by {
                lemma_score_monotone(
                    self@.edges.dom(),
                    self@.targets,
                    before@.edges.dom(),
                    before@.targets,
                    x,
                );
            }
        }
    }

    /// Replacing what one edge carries replaces that edge's entry of the view.
    proof fn lemma_attrs_replaced(before: ControlFlowGraph, after: ControlFlowGraph, i: int)
        requires
            before.wf(),
            0 <= i < before.pairs@.len(),
            after.pairs@ == before.pairs@,
            after.index@ == before.index@,
            after.attrs@.len() == before.attrs@.len(),
            forall|j: int| 0 <= j < before.attrs@.len() && j != i ==> after.attrs@[j] == before.attrs@[j],
            distinct_offsets(after.attrs@[i].magic@),
            after.targets@ == before.targets@,
            after.table@ == before.table@,
            after.dominator_sites@ == before.dominator_sites@,
            after.dist@ == before.dist@,
        ensures
            after.wf(),
            after@ == (CfgView {
                edges: before@.edges.insert(before.pairs@[i], attrs_view(after.attrs@[i])),
                ..before@
            }),
    {
        let e = before.pairs@[i];
        assert(before.pairs@.contains(e));
        assert forall|x: (u32, u32)| #[trigger] after.pairs@.contains(x) implies attrs_view(
            after.attrs@[position(after.pairs@, x)],
        ) == before@.edges.insert(e, attrs_view(after.attrs@[i]))[x] by {
            let j = position(after.pairs@, x);
            if x == e {
                assert(j == i);
            }
        }
        assert(after@.edges =~= before@.edges.insert(e, attrs_view(after.attrs@[i])));
        assert(after@.dominators == before@.dominators);
        assert(after@.targets == before@.targets);
    }

    /// Marks the edge `(u, v)` as an indirect call through `callsite`. An
    /// edge the graph does not hold is not added. Scores do not change.
    pub fn set_edge_indirect(&mut self, u: u32, v: u32, callsite: u32)
        requires
            old(self).wf(),
        ensures
            final(self).wf(),
            old(self)@.edges.contains_key((u, v)) ==> final(self)@ == (CfgView {
                edges: old(self)@.edges.insert(
                    (u, v),
                    EdgeView { indirect: true, callsite, ..old(self)@.edges[(u, v)] },
                ),
                ..old(self)@
            }),
            !old(self)@.edges.contains_key((u, v)) ==> final(self)@ == old(self)@,
            forall|x: u32| #[trigger] final(self)@.score(x) == old(self)@.score(x),
            old(self)@.indirect_edges_dominated() && callsite != 0 && old(self)@.dominators_of(
                callsite,
            ).len() > 0 ==> final(self)@.indirect_edges_dominated(),
    {
        let ghost before = *self;
        match self.find_edge(u, v) {
            Some(i) => {
                self.attrs[i].indirect = true;
                self.attrs[i].callsite = callsite;
                proof {
                    Self::lemma_attrs_replaced(before, *self, i as int);
                    assert(self@.edges.dom() =~= before@.edges.dom());
                    if before@.indirect_edges_dominated() && callsite != 0 && before@.dominators_of(
                        callsite,
                    ).len() > 0 {
                        assert forall|e: (u32, u32)| #[trigger]
                            self@.edges.contains_key(e) && self@.edges[e].indirect implies self@.edges[e].callsite
                            != 0 && self@.dominators_of(self@.edges[e].callsite).len() > 0 by {
                            if e != (u, v) {
                                assert(before@.edges.contains_key(e));
                                assert(before@.edges[e] == self@.edges[e]);
                            }
                        }
                    }
                }
            },
            None => {},
        }
    }

    /// Replaces the magic bytes of the edge `(u, v)` by the bytes of `buf`
    /// at the offsets that `offsets` cover. An edge the graph does not hold
    /// is not added.
    pub fn set_magic_bytes(&mut self, u: u32, v: u32, buf: &Vec<u8>, offsets: &Vec<TagSeg>)
        requires
            old(self).wf(),
        ensures
            final(self).wf(),
            old(self)@.edges.contains_key((u, v)) ==> final(self)@ == (CfgView {
                edges: old(self)@.edges.insert(
                    (u, v),
                    EdgeView { magic: captured(buf@, offsets@), ..old(self)@.edges[(u, v)] },
                ),
                ..old(self)@
            }),
            !old(self)@.edges.contains_key((u, v)) ==> final(self)@ == old(self)@,
            old(self)@.indirect_edges_dominated() ==> final(self)@.indirect_edges_dominated(),
    {
        let ghost before = *self;
        match self.find_edge(u, v) {
            Some(i) => {
                self.attrs[i].magic = capture(buf, offsets);
                proof {
                    Self::lemma_attrs_replaced(before, *self, i as int);
                    if before@.indirect_edges_dominated() {
                        assert forall|e: (u32, u32)| #[trigger]
                            self@.edges.contains_key(e) && self@.edges[e].indirect implies self@.edges[e].callsite
                            != 0 && self@.dominators_of(self@.edges[e].callsite).len() > 0 by {
                            assert(before@.edges.contains_key(e));
                        }
                    }
                }
            },
            None => {},
        }
    }

    /// The magic bytes of the edge `(u, v)` as `(offset, byte)` pairs, each
    /// offset once; none for an edge the graph does not hold.
    pub fn get_magic_bytes(&self, u: u32, v: u32) -> (r: Vec<(usize, u8)>)
        requires
            self.wf(),
        ensures
            distinct_offsets(r@),
            self@.edges.contains_key((u, v)) ==> magic_map(r@) == self@.edges[(u, v)].magic,
            !self@.edges.contains_key((u, v)) ==> r@.len() == 0,
    {
        let mut out: Vec<(usize, u8)> = Vec::new();
        match self.find_edge(u, v) {
            Some(i) => {
                let magic = &self.attrs[i].magic;
                let mut k: usize = 0;
                while k < magic.len()
                    invariant
                        k <= magic.len(),
                        out@ == magic@.take(k as int),
                    decreases magic.len() - k,
                {
                    out.push(magic[k]);
                    assert(out@ =~= magic@.take(k + 1));
                    k += 1;
                }
                assert(out@ =~= magic@);
            },
            None => {},
        }
        out
    }

    /// The sites that dominate `callsite`, in the order in which they were
    /// listed; none if the call site is unknown.
    pub fn get_callsite_dominators(&self, callsite: u32) -> (r: Vec<u32>)
        requires
            self.wf(),
        ensures
            r@ == self@.dominators_of(callsite),
    {
        let mut out: Vec<u32> = Vec::new();
        let mut i: usize = 0;
        while i < self.table.len()
            invariant
                i <= self.table.len(),
                out@ == rows_of(self.table@.take(i as int), callsite),
            decreases self.table.len() - i,
        {
            let ghost start = out@;
            proof {
                assert(self.table@.take(i + 1).drop_last() =~= self.table@.take(i as int));
            }
            if self.table[i].0 == callsite {
                let row = &self.table[i].1;
                let mut j: usize = 0;
                while j < row.len()
                    invariant
                        j <= row.len(),
                        out@ == start + row@.take(j as int),
                    decreases row.len() - j,
                {
                    out.push(row[j]);
                    assert(out@ =~= start + row@.take(j + 1));
                    j += 1;
                }
                assert(row@.take(j as int) =~= row@);
            }
            i += 1;
        }
        proof {
            assert(self.table@.take(i as int) =~= self.table@);
            if !self@.dominators.contains_key(callsite) {
                lemma_no_rows(self.table@, callsite);
            }
        }
        out
    }

    /// Distance of `site` to the nearest target: 0 for a target,
    /// [`UNDEF_SCORE`] for a site from which no target is reached.
    pub fn score_for_site(&self, site: u32) -> (d: u32)
        requires
            self.wf(),
        ensures
            d == self@.score(site),
    {
        broadcast use group_hash_axioms;

        proof {
            self.lemma_edge_dom();
            lemma_lookup_is_score(self.dist@, self.pairs@.to_set(), self.targets@.to_set(), site);
        }
        match self.dist.get(&site) {
            Some(d) => *d,
            None => UNDEF_SCORE,
        }
    }

    /// Whether `site` is a target.
    pub fn is_target(&self, site: u32) -> (r: bool)
        requires
            self.wf(),
        ensures
            r == self@.targets.contains(site),
    {
        proof {
            lemma_target_score(self@.edges.dom(), self@.targets, site);
        }
        self.score_for_site(site) == TARGET_SCORE
    }

    /// Whether `site` dominates some indirect call.
    pub fn dominates_indirect_call(&self, site: u32) -> (r: bool)
        requires
            self.wf(),
        ensures
            r == self@.dominates_indirect_call(site),
    {
        broadcast use group_hash_axioms;

        self.dominator_sites.contains(&site)
    }
}

} // verus!
