//! What a tracked run teaches: the conditions it went through, in order,
//! become edges of the control-flow graph, and each condition reached through
//! an indirect call yields a synthetic twin that pins the input bytes which
//! steered the call.

use crate::cfg::captured;
use crate::cfg::covered;
use crate::cfg::distinct_offsets;
use crate::cfg::lemma_magic_entry;
use crate::cfg::magic_map;
use crate::cfg::CfgView;
use crate::cfg::ControlFlowGraph;
use crate::cfg::EdgeView;
use crate::cond_stmt::ascending;
use crate::cond_stmt::lemma_merged;
use crate::cond_stmt::merge_segs;
use crate::cond_stmt::merged;
use crate::cond_stmt::proper;
use crate::cond_stmt::views;
use crate::cond_stmt::CondStmt;
use crate::cond_stmt::CondStmtView;
use crate::cond_stmt::TagSeg;
use itertools::Itertools;
use std::collections::HashMap;
use vstd::prelude::*;
use vstd::std_specs::hash::*;

verus! {

/// What is known after some pairs of a tracked run were looked at.
pub struct TrackView {
    /// The graph so far.
    pub cfg: CfgView,
    /// For each dominating site seen so far, the taint ranges of its latest condition.
    pub latest: Map<u32, Seq<TagSeg>>,
    /// The synthetic conditions made so far.
    pub extra: Seq<CondStmtView>,
}

/// The taint ranges recorded for `doms`, one dominator after the other;
/// dominators not seen yet add nothing.
pub open spec fn fixed_offsets(latest: Map<u32, Seq<TagSeg>>, doms: Seq<u32>) -> Seq<TagSeg>
    decreases doms.len(),
{
    if doms.len() == 0 {
        Seq::empty()
    } else if latest.contains_key(doms.last()) {
        fixed_offsets(latest, doms.drop_last()) + latest[doms.last()]
    } else {
        fixed_offsets(latest, doms.drop_last())
    }
}

/// The variables with every slot but the last replaced by the magic byte
/// of its offset, where there is one.
pub open spec fn overwritten(variables: Seq<u8>, magic: Map<usize, u8>) -> Seq<u8> {
    Seq::new(
        variables.len(),
        |i: int|
            if i < variables.len() - 1 && magic.contains_key(i as usize) {
                magic[i as usize]
            } else {
                variables[i]
            },
    )
}

/// The graph with the direct edge `e` added, unless it holds `e` already.
pub open spec fn with_edge(cfg: CfgView, e: (u32, u32)) -> CfgView {
    if cfg.edges.contains_key(e) {
        cfg
    } else {
        CfgView { edges: cfg.edges.insert(e, EdgeView::plain()), ..cfg }
    }
}

/// What is known after the conditions `a` and `b` were seen one after the
/// other in a run on input `buf`.
///
/// The edge from `a` to `b` joins the graph. If `a` dominates an indirect
/// call, its taint ranges are recorded. If `b` was reached through an
/// indirect call, the edge is marked with the call site, its magic bytes
/// become the input bytes at the ranges recorded for the call site's
/// dominators, and a twin of `b` is made in whose ranges those are merged,
/// each at its place, and whose variables, but for the last, carry the
/// magic bytes.
pub open spec fn observe_pair(s: TrackView, a: CondStmtView, b: CondStmtView, buf: Seq<u8>) -> TrackView {
    let e = (a.base.site, b.base.site);
    let cfg = with_edge(s.cfg, e);
    let latest = if cfg.dominates_indirect_call(a.base.site) {
        s.latest.insert(a.base.site, a.offsets)
    } else {
        s.latest
    };
    if b.base.last_callsite != 0 {
        let fixed = fixed_offsets(latest, cfg.dominators_of(b.base.last_callsite));
        let magic = captured(buf, fixed);
        let marked = EdgeView { indirect: true, callsite: b.base.last_callsite, magic };
        let twin = CondStmtView {
            offsets: merged(b.offsets, fixed),
            variables: overwritten(b.variables, magic),
            ..b
        };
        TrackView {
            cfg: CfgView { edges: cfg.edges.insert(e, marked), ..cfg },
            latest,
            extra: s.extra.push(twin),
        }
    } else {
        TrackView { cfg, latest, extra: s.extra }
    }
}

/// What is known after the first `n` adjacent pairs of `conds`.
pub open spec fn observe_pairs(s: TrackView, conds: Seq<CondStmtView>, n: nat, buf: Seq<u8>) -> TrackView
    decreases n,
{
    if n == 0 {
        s
    } else {
        observe_pair(
            observe_pairs(s, conds, (n - 1) as nat, buf),
            conds[n - 1],
            conds[n as int],
            buf,
        )
    }
}

/// What is known after all adjacent pairs of `conds`, starting from `cfg`.
pub open spec fn observed(cfg: CfgView, conds: Seq<CondStmtView>, buf: Seq<u8>) -> TrackView {
    let pairs = if conds.len() == 0 {
        0nat
    } else {
        (conds.len() - 1) as nat
    };
    observe_pairs(TrackView { cfg, latest: Map::empty(), extra: Seq::empty() }, conds, pairs, buf)
}

/// The condition, flagged if its site is a target.
pub open spec fn stamped(c: CondStmtView, targets: Set<u32>) -> CondStmtView {
    if targets.contains(c.base.site) {
        CondStmtView { is_target: true, ..c }
    } else {
        c
    }
}

/// Whether each condition that was reached through an indirect call, the
/// first condition aside, names a call site that has a dominator.
pub open spec fn callsites_dominated(cfg: CfgView, conds: Seq<CondStmtView>) -> bool {
    forall|i: int|
        1 <= i < conds.len() && (#[trigger] conds[i]).base.last_callsite != 0
            ==> cfg.dominators_of(conds[i].base.last_callsite).len() > 0
}

/// Observing pairs never changes the targets or the dominators, and keeps
/// every indirect edge dominated as long as the conditions name call sites
/// that have dominators.
pub proof fn lemma_observe_pairs(s: TrackView, conds: Seq<CondStmtView>, n: nat, buf: Seq<u8>)
    requires
        n < conds.len() || n == 0,
    ensures
        observe_pairs(s, conds, n, buf).cfg.targets == s.cfg.targets,
        observe_pairs(s, conds, n, buf).cfg.dominators == s.cfg.dominators,
        s.cfg.indirect_edges_dominated() && callsites_dominated(s.cfg, conds) ==> observe_pairs(
            s,
            conds,
            n,
            buf,
        ).cfg.indirect_edges_dominated(),
    decreases n,
{
    if n > 0 {
        lemma_observe_pairs(s, conds, (n - 1) as nat, buf);
        let before = observe_pairs(s, conds, (n - 1) as nat, buf);
        let after = observe_pairs(s, conds, n, buf);
        let b = conds[n as int];
        if s.cfg.indirect_edges_dominated() && callsites_dominated(s.cfg, conds) {
            assert forall|e: (u32, u32)| #[trigger]
                after.cfg.edges.contains_key(e) && after.cfg.edges[e].indirect implies after.cfg.edges[e].callsite
                != 0 && after.cfg.dominators_of(after.cfg.edges[e].callsite).len() > 0 by {
                if e != (conds[n - 1].base.site, b.base.site) {
                    assert(before.cfg.edges.contains_key(e));
                } else if b.base.last_callsite == 0 {
                    assert(before.cfg.edges.contains_key(e));
                }
            }
        }
    }
}

/// The ranges recorded for a dominator are those of its latest condition:
/// after `n` pairs, where the condition at `j` stands at a dominating site
/// and was the first of a pair, and no later first of a pair stands at
/// that site, the ranges recorded for the site are the ranges of that condition.
pub proof fn lemma_latest_offsets(s: TrackView, conds: Seq<CondStmtView>, n: nat, buf: Seq<u8>, j: int)
    requires
        n < conds.len(),
        0 <= j < n,
        s.cfg.dominates_indirect_call(conds[j].base.site),
        forall|t: int| j < t < n ==> (#[trigger] conds[t]).base.site != conds[j].base.site,
    ensures
        observe_pairs(s, conds, n, buf).latest.contains_key(conds[j].base.site),
        observe_pairs(s, conds, n, buf).latest[conds[j].base.site] == conds[j].offsets,
    decreases n,
{
    let site = conds[j].base.site;
    let before = observe_pairs(s, conds, (n - 1) as nat, buf);
    lemma_observe_pairs(s, conds, (n - 1) as nat, buf);
    let k = choose|k: u32| #[trigger]
        s.cfg.dominators.contains_key(k) && s.cfg.dominators[k].contains(site);
    let cfg = with_edge(before.cfg, (conds[n - 1].base.site, conds[n as int].base.site));
    assert(cfg.dominators.contains_key(k) && cfg.dominators[k].contains(site));
    if j < n - 1 {
        lemma_latest_offsets(s, conds, (n - 1) as nat, buf, j);
        assert(conds[n - 1].base.site != site);
    }
}

/// Whether none of the pairs after the `n`-th, up to the `m`-th, runs over
/// the edge `e` and was reached through an indirect call.
pub open spec fn not_marked_again(conds: Seq<CondStmtView>, e: (u32, u32), n: int, m: int) -> bool {
    forall|p: int|
        n < p <= m && (conds[p - 1].base.site, (#[trigger] conds[p]).base.site) == e
            ==> conds[p].base.last_callsite == 0
}

/// One more pair loses nothing: the twins made stay where they are in the
/// list, an edge of the graph stays an edge, and an edge marked as an
/// indirect call stays marked. Unless the pair runs over the edge and was
/// reached through an indirect call, the edge carries what it carried.
proof fn lemma_pair_keeps(s: TrackView, a: CondStmtView, b: CondStmtView, buf: Seq<u8>, e: (u32, u32))
    requires
        s.cfg.edges.contains_key(e),
    ensures
        s.extra.len() <= observe_pair(s, a, b, buf).extra.len(),
        forall|t: int|
            0 <= t < s.extra.len() ==> #[trigger] observe_pair(s, a, b, buf).extra[t] == s.extra[t],
        observe_pair(s, a, b, buf).cfg.edges.contains_key(e),
        s.cfg.edges[e].indirect ==> observe_pair(s, a, b, buf).cfg.edges[e].indirect,
        !((a.base.site, b.base.site) == e && b.base.last_callsite != 0) ==> observe_pair(
            s,
            a,
            b,
            buf,
        ).cfg.edges[e] == s.cfg.edges[e],
{
}

/// What was learnt from the first `n` pairs is not lost over the pairs up
/// to `m`: the twins made stay where they are in the list, an edge of the
/// graph stays an edge, and an edge marked as an indirect call stays
/// marked. Where no later pair over the same edge was reached through an
/// indirect call, the edge carries what it carried.
pub proof fn lemma_later_pairs(
    s: TrackView,
    conds: Seq<CondStmtView>,
    n: nat,
    m: nat,
    buf: Seq<u8>,
    e: (u32, u32),
)
    requires
        n <= m,
        m < conds.len() || m == 0,
        observe_pairs(s, conds, n, buf).cfg.edges.contains_key(e),
    ensures
        observe_pairs(s, conds, n, buf).extra.len() <= observe_pairs(s, conds, m, buf).extra.len(),
        forall|t: int|
            0 <= t < observe_pairs(s, conds, n, buf).extra.len() ==> #[trigger] observe_pairs(
                s,
                conds,
                m,
                buf,
            ).extra[t] == observe_pairs(s, conds, n, buf).extra[t],
        observe_pairs(s, conds, m, buf).cfg.edges.contains_key(e),
        observe_pairs(s, conds, n, buf).cfg.edges[e].indirect ==> observe_pairs(
            s,
            conds,
            m,
            buf,
        ).cfg.edges[e].indirect,
        not_marked_again(conds, e, n as int, m as int) ==> observe_pairs(s, conds, m, buf).cfg.edges[e]
            == observe_pairs(s, conds, n, buf).cfg.edges[e],
    decreases m - n,
{
    if n < m {
        lemma_later_pairs(s, conds, n, (m - 1) as nat, buf, e);
        let first = observe_pairs(s, conds, n, buf);
        let before = observe_pairs(s, conds, (m - 1) as nat, buf);
        let after = observe_pairs(s, conds, m, buf);
        let a = conds[m - 1];
        let b = conds[m as int];
        assert(after == observe_pair(before, a, b, buf));
        lemma_pair_keeps(before, a, b, buf, e);
        assert forall|t: int| 0 <= t < first.extra.len() implies #[trigger] after.extra[t]
            == first.extra[t] by {
            assert(before.extra[t] == first.extra[t]);
        }
        if not_marked_again(conds, e, n as int, m as int) {
            assert(not_marked_again(conds, e, n as int, m - 1)) by {
                assert forall|p: int|
                    n < p <= m - 1 && (conds[p - 1].base.site, (#[trigger] conds[p]).base.site)
                        == e implies conds[p].base.last_callsite == 0 by {
                    assert(n < p <= m);
                }
            }
            if (a.base.site, b.base.site) == e {
                assert(b.base.last_callsite == 0);
            }
        }
    }
}

/// What a pair that was reached through an indirect call with one
/// dominator yields: the twin and the marking of the edge.
proof fn lemma_pair_fixes(s: TrackView, a: CondStmtView, b: CondStmtView, buf: Seq<u8>, site: u32)
    requires
        b.base.last_callsite != 0,
        s.cfg.dominators_of(b.base.last_callsite) == seq![site],
        a.base.site != site ==> s.latest.contains_key(site),
    ensures
        ({
            let fixed = if a.base.site == site {
                a.offsets
            } else {
                s.latest[site]
            };
            let r = observe_pair(s, a, b, buf);
            let e = (a.base.site, b.base.site);
            &&& r.extra.len() == s.extra.len() + 1
            &&& r.extra[s.extra.len() as int] == (CondStmtView {
                offsets: merged(b.offsets, fixed),
                variables: overwritten(b.variables, captured(buf, fixed)),
                ..b
            })
            &&& r.cfg.edges.contains_key(e)
            &&& r.cfg.edges[e] == (EdgeView {
                indirect: true,
                callsite: b.base.last_callsite,
                magic: captured(buf, fixed),
            })
        }),
{
    let callsite = b.base.last_callsite;
    let e = (a.base.site, b.base.site);
    let cfg = with_edge(s.cfg, e);
    let doms = seq![site];
    assert(doms.len() == 1);
    assert(s.cfg.dominators.contains_key(callsite));
    assert(s.cfg.dominators[callsite][0] == site);
    assert(s.cfg.dominators[callsite].contains(site));
    assert(cfg.dominates_indirect_call(site)) by {
        assert(cfg.dominators.contains_key(callsite) && cfg.dominators[callsite].contains(site));
    }
    let latest = if cfg.dominates_indirect_call(a.base.site) {
        s.latest.insert(a.base.site, a.offsets)
    } else {
        s.latest
    };
    let fixed = if a.base.site == site {
        a.offsets
    } else {
        s.latest[site]
    };
    assert(latest.contains_key(site) && latest[site] == fixed);
    assert(doms.last() == site);
    assert(doms.drop_last() =~= Seq::<u32>::empty());
    assert(fixed_offsets(latest, doms.drop_last()) =~= Seq::<TagSeg>::empty());
    assert(fixed_offsets(latest, doms) =~= fixed);
    assert(cfg.dominators_of(callsite) == doms);
}

/// The indirect-call fix-up, for a run of any length.
///
/// Let `b`, the condition at `n`, have been reached through an indirect
/// call whose call site has one dominator, and let the condition at `j` be
/// the latest before `b` that stands at the dominator's site. Then the run
/// yields a twin of `b` whose ranges are those of `b` with those of the
/// condition at `j` merged in, which cover what either covers, and whose
/// variables, but for the last, carry the input's bytes at the ranges of
/// the condition at `j`; the edge into `b` is in the graph and
/// marked as an indirect call; and unless a later pair over the same edge
/// was reached through an indirect call too, the edge carries the call
/// site and, as its magic bytes, the input's bytes at those ranges.
pub proof fn lemma_indirect_call_fixup(
    cfg: CfgView,
    conds: Seq<CondStmtView>,
    buf: Seq<u8>,
    n: int,
    j: int,
)
    requires
        1 <= n < conds.len(),
        0 <= j < n,
        conds[n].base.last_callsite != 0,
        cfg.dominators_of(conds[n].base.last_callsite) == seq![conds[j].base.site],
        forall|t: int| j < t < n ==> (#[trigger] conds[t]).base.site != conds[j].base.site,
    ensures
        ({
            let start = TrackView { cfg, latest: Map::empty(), extra: Seq::empty() };
            let end = observed(cfg, conds, buf);
            let b = conds[n];
            let e = (conds[n - 1].base.site, b.base.site);
            let fixed = conds[j].offsets;
            let at = observe_pairs(start, conds, (n - 1) as nat, buf).extra.len() as int;
            &&& at < end.extra.len()
            &&& end.extra[at] == (CondStmtView {
                offsets: merged(b.offsets, fixed),
                variables: overwritten(b.variables, captured(buf, fixed)),
                ..b
            })
            &&& end.cfg.edges.contains_key(e)
            &&& end.cfg.edges[e].indirect
            &&& not_marked_again(conds, e, n, conds.len() - 1) ==> end.cfg.edges[e] == (EdgeView {
                indirect: true,
                callsite: b.base.last_callsite,
                magic: captured(buf, fixed),
            })
            &&& forall|i: usize|
                i < buf.len() && covered(fixed, i) ==> #[trigger] captured(buf, fixed).contains_key(i)
                    && captured(buf, fixed)[i] == buf[i as int]
            &&& forall|i: usize| #[trigger]
                covered(merged(b.offsets, fixed), i) <==> covered(b.offsets, i) || covered(fixed, i)
        }),
{
    assert forall|i: usize| #[trigger]
        covered(merged(conds[n].offsets, conds[j].offsets), i) <==> covered(conds[n].offsets, i)
            || covered(conds[j].offsets, i) by {
        lemma_merged_covers(conds[n].offsets, conds[j].offsets, i);
    }
    let start = TrackView { cfg, latest: Map::empty(), extra: Seq::empty() };
    let a = conds[n - 1];
    let b = conds[n];
    let site = conds[j].base.site;
    let e = (a.base.site, b.base.site);
    let last = (conds.len() - 1) as nat;
    let before = observe_pairs(start, conds, (n - 1) as nat, buf);
    let made = observe_pairs(start, conds, n as nat, buf);
    assert(made == observe_pair(before, a, b, buf));
    lemma_observe_pairs(start, conds, (n - 1) as nat, buf);
    assert(before.cfg.dominators_of(b.base.last_callsite) == seq![site]);
    if j < n - 1 {
        assert(seq![site].len() == 1);
        assert(cfg.dominators.contains_key(b.base.last_callsite));
        assert(cfg.dominators[b.base.last_callsite][0] == site);
        assert(cfg.dominators[b.base.last_callsite].contains(site));
        assert(cfg.dominates_indirect_call(site));
        lemma_latest_offsets(start, conds, (n - 1) as nat, buf, j);
        assert(a.base.site != site);
    }
    lemma_pair_fixes(before, a, b, buf, site);
    lemma_later_pairs(start, conds, n as nat, last, buf, e);
}

/// Whether every taint range of every condition ends no earlier than it begins.
pub open spec fn all_proper(conds: Seq<CondStmtView>) -> bool {
    forall|i: int| 0 <= i < conds.len() ==> (#[trigger] conds[i]).offsets_proper()
}

/// Whether every taint range recorded for a dominator ends no earlier than it begins.
pub open spec fn latest_proper(latest: Map<u32, Seq<TagSeg>>) -> bool {
    forall|site: u32| #[trigger] latest.contains_key(site) ==> proper(latest[site])
}

/// Ranges that end no earlier than they begin stay so when collected.
proof fn lemma_fixed_proper(latest: Map<u32, Seq<TagSeg>>, doms: Seq<u32>)
    requires
        latest_proper(latest),
    ensures
        proper(fixed_offsets(latest, doms)),
    decreases doms.len(),
{
    if doms.len() > 0 {
        lemma_fixed_proper(latest, doms.drop_last());
        if latest.contains_key(doms.last()) {
            assert(proper(latest[doms.last()]));
        }
    }
}

/// Twins inherit proper taint ranges: if every range of every condition
/// of the run ends no earlier than it begins, so does every range recorded
/// and every range of a twin.
pub proof fn lemma_observe_keeps_proper(s: TrackView, conds: Seq<CondStmtView>, n: nat, buf: Seq<u8>)
    requires
        n < conds.len() || n == 0,
        all_proper(conds),
        latest_proper(s.latest),
        all_proper(s.extra),
    ensures
        latest_proper(observe_pairs(s, conds, n, buf).latest),
        all_proper(observe_pairs(s, conds, n, buf).extra),
    decreases n,
{
    if n > 0 {
        lemma_observe_keeps_proper(s, conds, (n - 1) as nat, buf);
        let before = observe_pairs(s, conds, (n - 1) as nat, buf);
        let after = observe_pairs(s, conds, n, buf);
        let a = conds[n - 1];
        let b = conds[n as int];
        assert(a.offsets_proper());
        assert(b.offsets_proper());
        assert(latest_proper(after.latest));
        if b.base.last_callsite != 0 {
            let cfg = with_edge(before.cfg, (a.base.site, b.base.site));
            lemma_fixed_proper(after.latest, cfg.dominators_of(b.base.last_callsite));
            lemma_merged(
                b.offsets,
                fixed_offsets(after.latest, cfg.dominators_of(b.base.last_callsite)),
            );
            assert forall|i: int| 0 <= i < after.extra.len() implies (#[trigger] after.extra[i]).offsets_proper() by {
                if i < before.extra.len() {
                    assert(after.extra[i] == before.extra[i]);
                }
            }
        }
    }
}

/// Whether the taint ranges of every condition ascend.
pub open spec fn all_ascending(conds: Seq<CondStmtView>) -> bool {
    forall|i: int| 0 <= i < conds.len() ==> (#[trigger] conds[i]).offsets_ascending()
}

/// Twins have ascending taint ranges: if the ranges of every condition of
/// the run ascend, so do those of every twin, into which the dominators'
/// ranges are merged.
pub proof fn lemma_observe_keeps_ascending(s: TrackView, conds: Seq<CondStmtView>, n: nat, buf: Seq<u8>)
    requires
        n < conds.len() || n == 0,
        all_ascending(conds),
        latest_proper(s.latest),
        all_ascending(s.extra),
    ensures
        latest_proper(observe_pairs(s, conds, n, buf).latest),
        all_ascending(observe_pairs(s, conds, n, buf).extra),
    decreases n,
{
    if n > 0 {
        lemma_observe_keeps_ascending(s, conds, (n - 1) as nat, buf);
        let before = observe_pairs(s, conds, (n - 1) as nat, buf);
        let after = observe_pairs(s, conds, n, buf);
        let a = conds[n - 1];
        let b = conds[n as int];
        assert(a.offsets_ascending());
        assert(b.offsets_ascending());
        assert(latest_proper(after.latest));
        if b.base.last_callsite != 0 {
            let cfg = with_edge(before.cfg, (a.base.site, b.base.site));
            lemma_fixed_proper(after.latest, cfg.dominators_of(b.base.last_callsite));
            lemma_merged(
                b.offsets,
                fixed_offsets(after.latest, cfg.dominators_of(b.base.last_callsite)),
            );
            assert forall|i: int| 0 <= i < after.extra.len() implies (#[trigger] after.extra[i]).offsets_ascending() by {
                if i < before.extra.len() {
                    assert(after.extra[i] == before.extra[i]);
                }
            }
        }
    }
}

/// The offsets that a twin's ranges cover are those that the ranges of its
/// condition cover and those that the dominators' ranges cover.
pub proof fn lemma_merged_covers(base: Seq<TagSeg>, extra: Seq<TagSeg>, i: usize)
    ensures
        covered(merged(base, extra), i) <==> covered(base, i) || covered(extra, i),
{
    lemma_merged(base, extra);
    let all = merged(base, extra);
    if covered(all, i) {
        let k = choose|k: int| 0 <= k < all.len() && (#[trigger] all[k]).begin <= i < all[k].end;
        assert(all.contains(all[k]));
        if base.contains(all[k]) {
            let m = choose|m: int| 0 <= m < base.len() && base[m] == all[k];
            assert(base[m].begin <= i < base[m].end);
        } else {
            let m = choose|m: int| 0 <= m < extra.len() && extra[m] == all[k];
            assert(extra[m].begin <= i < extra[m].end);
        }
    }
    if covered(base, i) {
        let m = choose|m: int| 0 <= m < base.len() && (#[trigger] base[m]).begin <= i < base[m].end;
        assert(base.contains(base[m]));
        assert(all.contains(base[m]));
        let k = choose|k: int| 0 <= k < all.len() && all[k] == base[m];
        assert(all[k].begin <= i < all[k].end);
    }
    if covered(extra, i) {
        let m = choose|m: int| 0 <= m < extra.len() && (#[trigger] extra[m]).begin <= i < extra[m].end;
        assert(extra.contains(extra[m]));
        assert(all.contains(extra[m]));
        let k = choose|k: int| 0 <= k < all.len() && all[k] == extra[m];
        assert(all[k].begin <= i < all[k].end);
    }
}

/// Magic bytes taken from an input are bytes of that input: wherever the
/// twin's variables were overwritten, at an offset that the ranges cover
/// and that lies before the last variable, the variable is the input's byte
/// at that offset.
pub proof fn lemma_twin_carries_input(
    variables: Seq<u8>,
    buf: Seq<u8>,
    offsets: Seq<TagSeg>,
    i: usize,
)
    requires
        captured(buf, offsets).contains_key(i),
        i < variables.len() - 1,
    ensures
        overwritten(variables, captured(buf, offsets)).len() == variables.len(),
        overwritten(variables, captured(buf, offsets))[i as int] == buf[i as int],
{
}

/// `Itertools::tuple_windows`, taken over the indices below `n`.
///
/// Trusted: the windows of width two over `0, 1, .., n - 1` are the pairs
/// `(i, i + 1)` in rising order, `n - 1` of them, and none if `n` is 0.
#[verifier::external_body]
fn index_windows(n: usize) -> (r: Vec<(usize, usize)>)
    ensures
        r@.len() == if n == 0 { 0 } else { n - 1 },
        forall|i: int| 0 <= i < r@.len() ==> (#[trigger] r@[i]).0 == i && r@[i].1 == i + 1,
{
    (0..n).tuple_windows().collect()
}

/// Appends the ranges recorded for `doms`, see [`fixed_offsets`].
fn collect_fixed(latest: &HashMap<u32, Vec<TagSeg>>, doms: &Vec<u32>) -> (r: Vec<TagSeg>)
    ensures
        r@ == fixed_offsets(latest@.map_values(|v: Vec<TagSeg>| v@), doms@),
{
    broadcast use group_hash_axioms;

    let ghost table = latest@.map_values(|v: Vec<TagSeg>| v@);
    let mut out: Vec<TagSeg> = Vec::new();
    let mut i: usize = 0;
    while i < doms.len()
        invariant
            i <= doms.len(),
            table == latest@.map_values(|v: Vec<TagSeg>| v@),
            out@ == fixed_offsets(table, doms@.take(i as int)),
        decreases doms.len() - i,
    {
        let ghost start = out@;
        proof {
            assert(doms@.take(i + 1).drop_last() =~= doms@.take(i as int));
        }
        match latest.get(&doms[i]) {
            Some(offsets) => {
                let mut j: usize = 0;
                while j < offsets.len()
                    invariant
                        j <= offsets.len(),
                        out@ == start + offsets@.take(j as int),
                    decreases offsets.len() - j,
                {
                    out.push(offsets[j]);
                    assert(out@ =~= start + offsets@.take(j + 1));
                    j += 1;
                }
                assert(offsets@.take(j as int) =~= offsets@);
            },
            None => {},
        }
        i += 1;
    }
    assert(doms@.take(i as int) =~= doms@);
    out
}

/// Replaces every variable but the last by the magic byte of its offset,
/// where there is one.
fn overwrite(variables: &mut Vec<u8>, magic: &Vec<(usize, u8)>)
    requires
        distinct_offsets(magic@),
    ensures
        final(variables)@ == overwritten(old(variables)@, magic_map(magic@)),
{
    let ghost orig = variables@;
    let len = variables.len();
    let mut k: usize = 0;
    while k < magic.len()
        invariant
            k <= magic.len(),
            distinct_offsets(magic@),
            variables@.len() == len,
            orig.len() == len,
            forall|j: int|
                0 <= j < len ==> #[trigger] variables@[j] == if j < len - 1 && (exists|a: int|
                    0 <= a < k && (#[trigger] magic@[a]).0 == j) {
                    magic_map(magic@)[j as usize]
                } else {
                    orig[j]
                },
        decreases magic.len() - k,
    {
        let (i, v) = magic[k];
        let ghost prev = variables@;
        if len > 0 && i < len - 1 {
            variables[i] = v;
        }
        proof {
            lemma_magic_entry(magic@, k as int);
            assert forall|j: int| 0 <= j < len implies #[trigger] variables@[j] == if j < len - 1
                && (exists|a: int| 0 <= a < k + 1 && (#[trigger] magic@[a]).0 == j) {
                magic_map(magic@)[j as usize]
            } else {
                orig[j]
            } by {
                if j == i {
                    assert(magic@[k as int].0 == j);
                } else {
                    if exists|a: int| 0 <= a < k + 1 && (#[trigger] magic@[a]).0 == j {
                        let a = choose|a: int| 0 <= a < k + 1 && (#[trigger] magic@[a]).0 == j;
                        assert(a < k);
                    }
                }
            }
        }
        k += 1;
    }
    proof {
        let m = magic_map(magic@);
        assert forall|j: int| 0 <= j < len implies variables@[j] == overwritten(orig, m)[j] by {
            if j < len - 1 && m.contains_key(j as usize) {
                let a = choose|a: int| 0 <= a < magic@.len() && (#[trigger] magic@[a]).0 == j as usize;
                assert(0 <= a < k && magic@[a].0 == j);
            }
        }
        assert(variables@ =~= overwritten(orig, m));
    }
}

/// A copy of the ranges.
fn copy_segs(src: &Vec<TagSeg>) -> (r: Vec<TagSeg>)
    ensures
        r@ == src@,
{
    let mut out: Vec<TagSeg> = Vec::new();
    extend_segs(&mut out, src);
    assert(out@ =~= src@);
    out
}

/// Appends copies of the ranges of `src` to `dst`.
fn extend_segs(dst: &mut Vec<TagSeg>, src: &Vec<TagSeg>)
    ensures
        final(dst)@ == old(dst)@ + src@,
{
    let ghost start = dst@;
    let mut j: usize = 0;
    while j < src.len()
        invariant
            j <= src.len(),
            dst@ == start + src@.take(j as int),
        decreases src.len() - j,
    {
        dst.push(src[j]);
        assert(dst@ =~= start + src@.take(j + 1));
        j += 1;
    }
    assert(src@.take(j as int) =~= src@);
}

/// Takes the conditions of a tracked run on input `buf` into the graph and
/// returns them with their twins.
///
/// Every pair of adjacent conditions is observed in order, see
/// [`observe_pair`]. The conditions come back in their order, each flagged
/// as a target if its site is one, followed by the twins in the order in
/// which they were made.
///
/// The taint ranges of the conditions that came in are left as they are.
/// A twin's ranges are those of its condition with those recorded for the
/// dominators merged in, each at its place by where it begins. So where the
/// ranges of every condition that comes in ascend, those of every
/// condition that comes back do.
pub fn annotate(cfg: &mut ControlFlowGraph, cond_list: Vec<CondStmt>, buf: &Vec<u8>) -> (r: Vec<
    CondStmt,
>)
    requires
        old(cfg).wf(),
    ensures
        final(cfg).wf(),
        final(cfg)@ == observed(old(cfg)@, views(cond_list@), buf@).cfg,
        views(r@) == views(cond_list@).map_values(
            |c: CondStmtView| stamped(c, final(cfg)@.targets),
        ) + observed(old(cfg)@, views(cond_list@), buf@).extra,
        final(cfg)@.targets == old(cfg)@.targets,
        final(cfg)@.dominators == old(cfg)@.dominators,
        old(cfg)@.indirect_edges_dominated() && callsites_dominated(old(cfg)@, views(cond_list@))
            ==> final(cfg)@.indirect_edges_dominated(),
        all_proper(views(cond_list@)) ==> all_proper(views(r@)),
        (forall|i: int| 0 <= i < cond_list@.len() ==> (#[trigger] views(cond_list@)[i]).offsets_ascending())
            ==> (forall|i: int| 0 <= i < r@.len() ==> (#[trigger] views(r@)[i]).offsets_ascending()),
        r@.len() >= cond_list@.len(),
        forall|i: int|
            0 <= i < cond_list@.len() ==> (#[trigger] views(r@)[i]).offsets == views(
                cond_list@,
            )[i].offsets,
{
    broadcast use group_hash_axioms;

    proof {
        let n = views(cond_list@).len();
        if all_ascending(views(cond_list@)) {
            lemma_observe_keeps_ascending(
                TrackView { cfg: cfg@, latest: Map::empty(), extra: Seq::empty() },
                views(cond_list@),
                if n == 0 {
                    0nat
                } else {
                    (n - 1) as nat
                },
                buf@,
            );
        }
        if all_proper(views(cond_list@)) {
            lemma_observe_keeps_proper(
                TrackView { cfg: cfg@, latest: Map::empty(), extra: Seq::empty() },
                views(cond_list@),
                if n == 0 {
                    0nat
                } else {
                    (n - 1) as nat
                },
                buf@,
            );
        }
        lemma_observe_pairs(
            TrackView { cfg: cfg@, latest: Map::empty(), extra: Seq::empty() },
            views(cond_list@),
            if n == 0 {
                0nat
            } else {
                (n - 1) as nat
            },
            buf@,
        );
    }

    let ghost conds = views(cond_list@);
    let ghost start = TrackView { cfg: cfg@, latest: Map::empty(), extra: Seq::empty() };
    let mut latest: HashMap<u32, Vec<TagSeg>> = HashMap::new();
    let mut extra: Vec<CondStmt> = Vec::new();
    let windows = index_windows(cond_list.len());
    assert(latest@.map_values(|v: Vec<TagSeg>| v@) =~= Map::<u32, Seq<TagSeg>>::empty());
    assert(views(extra@) =~= Seq::<CondStmtView>::empty());
    let mut w: usize = 0;
    while w < windows.len()
        invariant
            w <= windows.len(),
            cfg.wf(),
            conds == views(cond_list@),
            windows@.len() == if cond_list@.len() == 0 {
                0
            } else {
                cond_list@.len() - 1
            },
            forall|i: int|
                0 <= i < windows@.len() ==> (#[trigger] windows@[i]).0 == i && windows@[i].1 == i + 1,
            (TrackView {
                cfg: cfg@,
                latest: latest@.map_values(|v: Vec<TagSeg>| v@),
                extra: views(extra@),
            }) == observe_pairs(start, conds, w as nat, buf@),
        decreases windows.len() - w,
    {
        let (ia, ib) = windows[w];
        let a = &cond_list[ia];
        let b = &cond_list[ib];
        let u = a.base.site;
        let v = b.base.site;
        let ghost prev = TrackView {
            cfg: cfg@,
            latest: latest@.map_values(|v: Vec<TagSeg>| v@),
            extra: views(extra@),
        };
        let ghost next = observe_pair(prev, a@, b@, buf@);
        let ghost latest_before = latest@;
        let ghost extra_before = extra@;
        cfg.add_edge(u, v);
        let ghost cfg1 = cfg@;
        assert(cfg1 == with_edge(prev.cfg, (u, v)));
        if cfg.dominates_indirect_call(u) {
            latest.insert(u, copy_segs(&a.offsets));
            assert(latest@.map_values(|v: Vec<TagSeg>| v@) =~= latest_before.map_values(
                |v: Vec<TagSeg>| v@,
            ).insert(u, a@.offsets));
        }
        assert(latest@.map_values(|v: Vec<TagSeg>| v@) == next.latest);
        if b.base.last_callsite != 0 {
            let callsite = b.base.last_callsite;
            cfg.set_edge_indirect(u, v, callsite);
            let doms = cfg.get_callsite_dominators(callsite);
            let fixed = collect_fixed(&latest, &doms);
            cfg.set_magic_bytes(u, v, buf, &fixed);
            let mut twin = b.clone();
            merge_segs(&mut twin.offsets, &fixed);
            let magic = cfg.get_magic_bytes(u, v);
            overwrite(&mut twin.variables, &magic);
            proof {
                assert(cfg@.edges =~= next.cfg.edges);
                assert(twin@ == next.extra.last());
            }
            extra.push(twin);
            proof {
                assert(views(extra@) =~= views(extra_before).push(next.extra.last()));
                assert(views(extra@) =~= next.extra);
            }
        }
        proof {
            assert(conds[w as int] == a@);
            assert(conds[w + 1] == b@);
        }
        w += 1;
    }
    let ghost end = observed(old(cfg)@, conds, buf@);
    let ghost targets = cfg@.targets;
    let mut list = cond_list;
    let mut i: usize = 0;
    while i < list.len()
        invariant
            i <= list.len(),
            cfg.wf(),
            cfg@.targets == targets,
            list@.len() == conds.len(),
            forall|j: int| 0 <= j < i ==> (#[trigger] list@[j])@ == stamped(conds[j], targets),
            forall|j: int| i <= j < list@.len() ==> (#[trigger] list@[j])@ == conds[j],
        decreases list.len() - i,
    {
        if cfg.is_target(list[i].base.site) {
            list[i].is_target = true;
        }
        i += 1;
    }
    let ghost stamped_list = list@;
    list.append(&mut extra);
    proof {
        assert(views(list@) =~= conds.map_values(|c: CondStmtView| stamped(c, targets)) + end.extra);
        if all_ascending(conds) {
            assert forall|j: int| 0 <= j < views(list@).len() implies (#[trigger] views(list@)[j]).offsets_ascending() by {
                if j < conds.len() {
                    assert(conds[j].offsets_ascending());
                } else {
                    assert(end.extra[j - conds.len()].offsets_ascending());
                }
            }
        }
        if all_proper(conds) {
            assert forall|j: int| 0 <= j < views(list@).len() implies (#[trigger] views(list@)[j]).offsets_proper() by {
                if j < conds.len() {
                    assert(conds[j].offsets_proper());
                } else {
                    assert(end.extra[j - conds.len()].offsets_proper());
                }
            }
        }
    }
    list
}

} // verus!
