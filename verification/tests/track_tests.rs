use angora::cfg::ControlFlowGraph;
use angora::cond_stmt::insert_seg;
use angora::cond_stmt::merge_segs;
use angora::cond_stmt::CondState;
use angora::cond_stmt::CondStmt;
use angora::cond_stmt::TagSeg;
use angora::defs::COND_AFL_OP;
use angora::defs::SLOW_SPEED;
use angora::track::annotate;

fn seg(begin: u32, end: u32) -> TagSeg {
    TagSeg { sign: false, begin, end }
}

fn cond(site: u32, offsets: Vec<TagSeg>, variables: Vec<u8>) -> CondStmt {
    let mut c = CondStmt::new();
    c.base.site = site;
    c.offsets = offsets;
    c.variables = variables;
    c
}

fn sorted(mut v: Vec<(usize, u8)>) -> Vec<(usize, u8)> {
    v.sort();
    v
}

#[test]
fn fresh_conditions() {
    let c = CondStmt::new();
    assert_eq!(c.base.site, 0);
    assert_eq!(c.base.last_callsite, 0);
    assert!(c.offsets.is_empty());
    assert!(c.variables.is_empty());
    assert!(c.is_desirable);
    assert!(c.is_consistent);
    assert!(!c.is_target);
    assert_eq!(c.state, CondState::Initial);
    assert!(c.state.is_initial());
    assert!(!c.is_done());
    assert!(!c.is_discarded());
    assert!(!c.is_first_time());
}

#[test]
fn havoc_condition() {
    let c = CondStmt::get_afl_cond(12, 345, 67);
    assert_eq!(c.base.op, COND_AFL_OP);
    assert_eq!(c.base.site, 12);
    assert_eq!(c.base.context, 0);
    assert_eq!(c.base.order, 0);
    assert_eq!(c.base.arg1, 67);
    assert_eq!(c.speed, 345);
    assert!(c.is_desirable);
    assert_eq!(c.state, CondState::Initial);
}

#[test]
fn terminal_states() {
    let mut c = cond(1, vec![seg(0, 1)], vec![1, 2]);
    c.mark_as_done();
    assert!(c.is_done());
    assert!(c.is_discarded());
    assert!(c.state.is_done());
    assert_eq!(c.variables, vec![1, 2]);
    let mut t = cond(1, vec![], vec![]);
    t.to_timeout();
    assert!(t.state.is_timeout());
    assert_eq!(t.speed, SLOW_SPEED);
    assert!(!t.is_done());
    assert!(t.is_discarded());
    let mut u = cond(1, vec![], vec![]);
    u.is_desirable = false;
    assert!(u.is_discarded());
    let mut f = cond(1, vec![], vec![]);
    f.fuzz_times = 1;
    assert!(f.is_first_time());
    f.set_target(true);
    assert!(f.is_target);
    let copy = f.clone();
    assert_eq!(copy.base, f.base);
    assert_eq!(copy.fuzz_times, 1);
    assert!(copy.is_target);
    assert!(CondState::Deterministic.is_det());
    assert!(CondState::OneByte.is_one_byte());
}

#[test]
fn edges_are_learnt_from_adjacent_conditions() {
    let mut g = ControlFlowGraph::new(vec![30], vec![], vec![]);
    let out = annotate(
        &mut g,
        vec![cond(10, vec![], vec![]), cond(20, vec![], vec![]), cond(30, vec![], vec![]), cond(10, vec![], vec![])],
        &vec![],
    );
    assert_eq!(out.len(), 4);
    let sites: Vec<u32> = out.iter().map(|c| c.base.site).collect();
    assert_eq!(sites, vec![10, 20, 30, 10]);
    let flags: Vec<bool> = out.iter().map(|c| c.is_target).collect();
    assert_eq!(flags, vec![false, false, true, false]);
    assert_eq!(g.score_for_site(10), 2);
    assert_eq!(g.score_for_site(20), 1);
    assert!(!g.add_edge(10, 20));
    assert!(!g.add_edge(20, 30));
    assert!(!g.add_edge(30, 10));
    assert!(g.add_edge(20, 10));
}

#[test]
fn short_runs() {
    let mut g = ControlFlowGraph::new(vec![1], vec![], vec![]);
    assert!(annotate(&mut g, vec![], &vec![1, 2]).is_empty());
    let mut only = cond(1, vec![], vec![]);
    only.base.last_callsite = 9;
    let out = annotate(&mut g, vec![only], &vec![1, 2]);
    // a single condition makes no pair: no edge and no twin
    assert_eq!(out.len(), 1);
    assert!(out[0].is_target);
    assert!(g.add_edge(1, 1));
}

#[test]
fn indirect_call_fixup() {
    // call site 7 is dominated by site 100
    let mut g = ControlFlowGraph::new(vec![], vec![], vec![(7, vec![100])]);
    let buf = vec![0x10u8, 0x11, 0x12, 0x13, 0x14, 0x15];
    let d = cond(100, vec![seg(3, 5)], vec![0, 0, 0]);
    let u = cond(200, vec![seg(0, 1)], vec![9]);
    let mut v = cond(300, vec![seg(1, 2)], vec![0xa0, 0xa1, 0xa2, 0xa3, 0xa4, 0xa5]);
    v.base.last_callsite = 7;
    v.base.context = 5;
    let out = annotate(&mut g, vec![d, u, v], &buf);

    assert_eq!(out.len(), 4);
    // the conditions come back as they were
    assert_eq!(out[2].base.site, 300);
    assert_eq!(out[2].offsets, vec![seg(1, 2)]);
    assert_eq!(out[2].variables, vec![0xa0, 0xa1, 0xa2, 0xa3, 0xa4, 0xa5]);
    // the twin has the dominator's offsets too
    let twin = &out[3];
    assert_eq!(twin.base, out[2].base);
    assert_eq!(twin.offsets, vec![seg(1, 2), seg(3, 5)]);
    // and the input's bytes at offsets 3 and 4 in its variables
    assert_eq!(twin.variables, vec![0xa0, 0xa1, 0xa2, 0x13, 0x14, 0xa5]);
    // the edge carries them as magic bytes
    assert_eq!(sorted(g.get_magic_bytes(200, 300)), vec![(3, 0x13), (4, 0x14)]);
    assert!(g.get_magic_bytes(100, 200).is_empty());
}

#[test]
fn the_last_variable_is_never_overwritten() {
    let mut g = ControlFlowGraph::new(vec![], vec![], vec![(7, vec![100])]);
    let buf = vec![0x10u8, 0x11, 0x12, 0x13, 0x14];
    let d = cond(100, vec![seg(0, 5)], vec![]);
    let mut v = cond(300, vec![], vec![0xa0, 0xa1, 0xa2]);
    v.base.last_callsite = 7;
    let out = annotate(&mut g, vec![d, v], &buf);
    assert_eq!(out.len(), 3);
    assert_eq!(out[2].variables, vec![0x10, 0x11, 0xa2]);
    assert_eq!(out[2].offsets, vec![seg(0, 5)]);
    assert_eq!(sorted(g.get_magic_bytes(100, 300)).len(), 5);

    // with one variable, or none, nothing is overwritten
    let mut g = ControlFlowGraph::new(vec![], vec![], vec![(7, vec![100])]);
    let d = cond(100, vec![seg(0, 5)], vec![]);
    let mut one = cond(300, vec![], vec![0xa0]);
    one.base.last_callsite = 7;
    let mut none = cond(400, vec![], vec![]);
    none.base.last_callsite = 7;
    let out = annotate(&mut g, vec![d, one, none], &buf);
    assert_eq!(out.len(), 5);
    assert_eq!(out[3].variables, vec![0xa0]);
    assert_eq!(out[4].variables, Vec::<u8>::new());
}

#[test]
fn the_latest_offsets_of_a_dominator_count() {
    let mut g = ControlFlowGraph::new(vec![], vec![], vec![(7, vec![100, 101]), (8, vec![101])]);
    let buf: Vec<u8> = (0..16).collect();
    let first = cond(100, vec![seg(0, 1)], vec![]);
    let second = cond(100, vec![seg(2, 3)], vec![]);
    let other = cond(101, vec![seg(8, 10)], vec![]);
    let mut v = cond(300, vec![], vec![0xff; 12]);
    v.base.last_callsite = 7;
    let mut w = cond(400, vec![], vec![0xff; 12]);
    w.base.last_callsite = 8;
    let out = annotate(&mut g, vec![first, second, other, v, w], &buf);
    assert_eq!(out.len(), 7);
    // the twin of 300: dominators 100 (latest offsets) and 101, in that order
    assert_eq!(out[5].offsets, vec![seg(2, 3), seg(8, 10)]);
    let mut expected = vec![0xffu8; 12];
    expected[2] = 2;
    expected[8] = 8;
    expected[9] = 9;
    assert_eq!(out[5].variables, expected);
    // the twin of 400: dominator 101 alone
    assert_eq!(out[6].offsets, vec![seg(8, 10)]);
    assert_eq!(sorted(g.get_magic_bytes(300, 400)), vec![(8, 8), (9, 9)]);
}

#[test]
fn a_dominator_seen_later_does_not_count() {
    let mut g = ControlFlowGraph::new(vec![], vec![], vec![(7, vec![100])]);
    let buf: Vec<u8> = (0..8).collect();
    let u = cond(200, vec![], vec![]);
    let mut v = cond(300, vec![seg(6, 7)], vec![0xff; 4]);
    v.base.last_callsite = 7;
    let d = cond(100, vec![seg(0, 2)], vec![]);
    let out = annotate(&mut g, vec![u, v, d], &buf);
    assert_eq!(out.len(), 4);
    assert_eq!(out[3].offsets, vec![seg(6, 7)]);
    assert_eq!(out[3].variables, vec![0xff; 4]);
    assert!(g.get_magic_bytes(200, 300).is_empty());
}

#[test]
fn offsets_beyond_the_input_are_left_out() {
    let mut g = ControlFlowGraph::new(vec![], vec![], vec![(7, vec![100])]);
    let buf = vec![0x10u8, 0x11];
    let d = cond(100, vec![seg(1, 40)], vec![]);
    let mut v = cond(300, vec![], vec![0xff; 8]);
    v.base.last_callsite = 7;
    let out = annotate(&mut g, vec![d, v], &buf);
    assert_eq!(out[2].variables, vec![0xff, 0x11, 0xff, 0xff, 0xff, 0xff, 0xff, 0xff]);
    assert_eq!(g.get_magic_bytes(100, 300), vec![(1, 0x11)]);
}

#[test]
fn twins_are_not_stamped_again() {
    let mut g = ControlFlowGraph::new(vec![300], vec![], vec![(7, vec![100])]);
    let d = cond(100, vec![seg(0, 1)], vec![]);
    let mut v = cond(300, vec![], vec![1, 2]);
    v.base.last_callsite = 7;
    let out = annotate(&mut g, vec![d, v], &vec![5]);
    assert!(out[1].is_target);
    assert!(!out[2].is_target);
}

#[test]
fn indirect_call_fixup_in_a_long_run() {
    // call site 7 is dominated by site 100, which is met early in the run
    let mut g = ControlFlowGraph::new(vec![], vec![], vec![(7, vec![100])]);
    let buf = vec![0x10u8, 0x11, 0x12, 0x13, 0x14, 0x15];
    let d = cond(100, vec![seg(3, 5)], vec![]);
    let mut v = cond(300, vec![seg(1, 2)], vec![0xa0, 0xa1, 0xa2, 0xa3, 0xa4, 0xa5]);
    v.base.last_callsite = 7;
    let run = vec![
        cond(1, vec![seg(0, 1)], vec![]),
        d,
        cond(2, vec![], vec![]),
        cond(3, vec![], vec![]),
        cond(200, vec![], vec![]),
        v,
        cond(4, vec![], vec![]),
        cond(200, vec![], vec![]),
        cond(300, vec![], vec![]),
        cond(5, vec![], vec![]),
    ];
    let out = annotate(&mut g, run, &buf);
    assert_eq!(out.len(), 11);
    let twin = &out[10];
    assert_eq!(twin.base.site, 300);
    assert_eq!(twin.offsets, vec![seg(1, 2), seg(3, 5)]);
    assert_eq!(twin.variables, vec![0xa0, 0xa1, 0xa2, 0x13, 0x14, 0xa5]);
    // the edge was run over again, by a direct call, and keeps what it carries
    assert_eq!(sorted(g.get_magic_bytes(200, 300)), vec![(3, 0x13), (4, 0x14)]);
    assert!(!g.add_edge(200, 300));
    // the conditions that came in keep their ranges
    assert_eq!(out[0].offsets, vec![seg(0, 1)]);
    assert_eq!(out[5].offsets, vec![seg(1, 2)]);
}

#[test]
fn a_later_indirect_call_over_the_same_edge_marks_it_anew() {
    let mut g = ControlFlowGraph::new(vec![], vec![], vec![(7, vec![100])]);
    let buf = vec![0x10u8, 0x11, 0x12, 0x13];
    let mut v1 = cond(300, vec![], vec![0; 4]);
    v1.base.last_callsite = 7;
    let mut v2 = cond(300, vec![], vec![0; 4]);
    v2.base.last_callsite = 7;
    let run = vec![
        cond(100, vec![seg(0, 1)], vec![]),
        cond(200, vec![], vec![]),
        v1,
        cond(100, vec![seg(2, 3)], vec![]),
        cond(200, vec![], vec![]),
        v2,
    ];
    let out = annotate(&mut g, run, &buf);
    assert_eq!(out.len(), 8);
    assert_eq!(out[6].offsets, vec![seg(0, 1)]);
    assert_eq!(out[6].variables, vec![0x10, 0, 0, 0]);
    assert_eq!(out[7].offsets, vec![seg(2, 3)]);
    assert_eq!(out[7].variables, vec![0, 0, 0x12, 0]);
    assert_eq!(g.get_magic_bytes(200, 300), vec![(2, 0x12)]);
}

#[test]
fn ranges_are_put_in_at_their_place() {
    let mut list = vec![];
    insert_seg(&mut list, seg(5, 6));
    assert_eq!(list, vec![seg(5, 6)]);
    insert_seg(&mut list, seg(9, 9));
    insert_seg(&mut list, seg(0, 3));
    insert_seg(&mut list, seg(7, 20));
    assert_eq!(list, vec![seg(0, 3), seg(5, 6), seg(7, 20), seg(9, 9)]);
    // behind the ranges that begin where it does
    insert_seg(&mut list, seg(5, 8));
    insert_seg(&mut list, seg(0, 1));
    assert_eq!(list, vec![seg(0, 3), seg(0, 1), seg(5, 6), seg(5, 8), seg(7, 20), seg(9, 9)]);
}

#[test]
fn merging_keeps_ascending_ranges_ascending() {
    let mut base = vec![seg(2, 3), seg(4, 6), seg(10, 12)];
    merge_segs(&mut base, &vec![seg(11, 12), seg(0, 1), seg(4, 5), seg(30, 31), seg(3, 9)]);
    assert_eq!(
        base,
        vec![
            seg(0, 1),
            seg(2, 3),
            seg(3, 9),
            seg(4, 6),
            seg(4, 5),
            seg(10, 12),
            seg(11, 12),
            seg(30, 31),
        ]
    );
    let mut empty = vec![];
    merge_segs(&mut empty, &vec![seg(3, 4), seg(1, 2)]);
    assert_eq!(empty, vec![seg(1, 2), seg(3, 4)]);
    let mut same = vec![seg(1, 2)];
    merge_segs(&mut same, &vec![]);
    assert_eq!(same, vec![seg(1, 2)]);
}

#[test]
fn a_twin_has_ascending_ranges() {
    // the dominators' ranges begin before, between and behind those of the condition
    let mut g = ControlFlowGraph::new(vec![], vec![], vec![(7, vec![101, 100])]);
    let buf: Vec<u8> = (0x40..0x60).collect();
    let d0 = cond(100, vec![seg(0, 2), seg(9, 10)], vec![]);
    let d1 = cond(101, vec![seg(20, 21)], vec![]);
    let mut v = cond(300, vec![seg(4, 5), seg(12, 14)], vec![0xff; 32]);
    v.base.last_callsite = 7;
    let out = annotate(&mut g, vec![d0, d1, v], &buf);
    assert_eq!(out.len(), 4);
    assert_eq!(out[2].offsets, vec![seg(4, 5), seg(12, 14)]);
    let twin = &out[3];
    assert_eq!(
        twin.offsets,
        vec![seg(0, 2), seg(4, 5), seg(9, 10), seg(12, 14), seg(20, 21)]
    );
    for pair in twin.offsets.windows(2) {
        assert!(pair[0].begin <= pair[1].begin);
    }
    let mut expected = vec![0xffu8; 32];
    for i in [0usize, 1, 9, 20] {
        expected[i] = 0x40 + i as u8;
    }
    assert_eq!(twin.variables, expected);
    assert_eq!(sorted(g.get_magic_bytes(101, 300)), vec![(0, 0x40), (1, 0x41), (9, 0x49), (20, 0x54)]);
}
