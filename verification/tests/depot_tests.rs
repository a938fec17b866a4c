use angora::cfg::ControlFlowGraph;
use angora::cond_stmt::CondKey;
use angora::cond_stmt::CondState;
use angora::cond_stmt::CondStmt;
use angora::cond_stmt::OpClass;
use angora::cond_stmt::op_class;
use angora::defs::COND_AFL_OP;
use angora::depot::get_file_name;
use angora::depot::pick_index;
use angora::depot::Bucket;
use angora::depot::Depot;
use angora::depot::DepotDir;
use angora::distance::UNDEF_SCORE;
use angora::qpriority::QPriority;
use angora::qpriority::MAX_AGE;
use angora::status::StatusType;

fn cond(site: u32, context: u32, order: u32) -> CondStmt {
    let mut c = CondStmt::new();
    c.base.site = site;
    c.base.context = context;
    c.base.order = order;
    c.base.func = site / 10;
    c.speed = 100;
    c
}

fn depot(targets: Vec<u32>, edges: Vec<(u32, u32)>) -> Depot {
    Depot::new(
        "/work/seeds".to_string(),
        "/work/out",
        ControlFlowGraph::new(targets, edges, vec![]),
    )
}

fn drain_order(d: &mut Depot, n: usize) -> Vec<(u32, QPriority)> {
    (0..n).map(|_| d.get_entry().map(|(c, p)| (c.base.site, p)).unwrap()).collect()
}

#[test]
fn keys_pack_without_loss() {
    let k = CondKey { site: 1, context: 2, order: 3 };
    assert_eq!(k.pack(), (1u128 << 64) | (2u128 << 32) | 3);
    let m = CondKey { site: u32::MAX, context: u32::MAX, order: u32::MAX };
    assert_eq!(m.pack(), (1u128 << 96) - 1);
    assert_ne!(
        CondKey { site: 0, context: 1, order: 0 }.pack(),
        CondKey { site: 0, context: 0, order: 1 }.pack()
    );
    assert_eq!(cond(4, 5, 6).key(), CondKey { site: 4, context: 5, order: 6 });
}

#[test]
fn operator_classes() {
    assert_eq!(op_class(0), OpClass::Explore);
    assert_eq!(op_class(0x3fff), OpClass::Explore);
    assert_eq!(op_class(0x4000), OpClass::Exploit);
    assert_eq!(op_class(0x4fff), OpClass::Exploit);
    assert_eq!(op_class(0x5000), OpClass::Afl);
    assert_eq!(op_class(COND_AFL_OP), OpClass::Afl);
}

#[test]
fn priorities() {
    let p = QPriority::init_distance(32, 7);
    assert_eq!(p, QPriority { distance: 7, class: 0, age: 0 });
    assert!(!p.is_done());
    assert_eq!(QPriority::init_distance(0x4001, 7).class, 1);
    assert_eq!(QPriority::init_distance(COND_AFL_OP, 7).class, 2);
    assert_eq!(p.inc(32), QPriority { distance: 7, class: 0, age: 1 });
    assert_eq!(p.inc(COND_AFL_OP), QPriority { distance: 7, class: 0, age: 2 });
    assert_eq!(p.new_distance(3), QPriority { distance: 3, class: 0, age: 0 });
    let old = QPriority { distance: 7, class: 0, age: MAX_AGE - 1 };
    assert_eq!(old.inc(COND_AFL_OP).age, MAX_AGE);
    assert_eq!(old.inc(32).age, MAX_AGE);
    assert_eq!(old.inc(32).inc(32).age, MAX_AGE);
    let done = QPriority::done();
    assert!(done.is_done());
    assert_eq!(done.inc(32), done);
    assert_eq!(done.new_distance(0), done);
    assert_eq!(QPriority::from_rank(p.rank()), p);
    assert_eq!(QPriority::from_rank(done.rank()), done);
    assert_eq!(done.rank(), (0, 0, 0));
    assert!(p.rank() > p.inc(32).rank());
    assert!(QPriority::init_distance(32, 1).rank() > QPriority::init_distance(32, 2).rank());
    assert!(QPriority::init_distance(32, 2).rank() > QPriority::init_distance(0x4001, 2).rank());
    assert!(QPriority::init_distance(COND_AFL_OP, UNDEF_SCORE).rank() > done.rank());
}

#[test]
fn empty_depot() {
    let mut d = depot(vec![], vec![]);
    assert!(d.empty());
    assert!(d.get_entry().is_none());
    assert_eq!(d.num_inputs(), 0);
    assert_eq!(d.num_hangs(), 0);
    assert_eq!(d.num_crashes(), 0);
}

#[test]
fn save_counts_by_bucket() {
    let mut d = depot(vec![], vec![]);
    assert_eq!(d.save(StatusType::Normal), (0, Some(Bucket::Queue)));
    assert_eq!(d.save(StatusType::Normal), (1, Some(Bucket::Queue)));
    assert_eq!(d.save(StatusType::Timeout), (0, Some(Bucket::Hangs)));
    assert_eq!(d.save(StatusType::Crash), (0, Some(Bucket::Crashes)));
    assert_eq!(d.save(StatusType::Crash), (1, Some(Bucket::Crashes)));
    assert_eq!(d.save(StatusType::Normal), (2, Some(Bucket::Queue)));
    assert_eq!(d.save(StatusType::Skip), (0, None));
    assert_eq!(d.save(StatusType::Error), (0, None));
    assert!(!d.empty());
    assert_eq!((d.num_inputs(), d.num_hangs(), d.num_crashes()), (3, 1, 2));
}

#[test]
fn paths_of_saved_inputs() {
    let d = depot(vec![], vec![]);
    assert_eq!(d.dirs().inputs_dir, "/work/out/queue");
    assert_eq!(d.dirs().hangs_dir, "/work/out/hangs");
    assert_eq!(d.dirs().crashes_dir, "/work/out/crashes");
    assert_eq!(d.dirs().seeds_dir, "/work/seeds");
    assert_eq!(d.input_path(17), "/work/out/queue/id_17");
    assert_eq!(d.dirs().path_of(Bucket::Hangs, 0), "/work/out/hangs/id_0");
    assert_eq!(d.dirs().path_of(Bucket::Crashes, 3), "/work/out/crashes/id_3");
    assert_eq!(get_file_name("q", 5), "q/id_5");
    let dirs = DepotDir::new("s".to_string(), "o/");
    assert_eq!(dirs.inputs_dir, "o/queue");
}

#[test]
fn random_pick_is_in_range() {
    assert_eq!(pick_index(17, 5), 2);
    assert_eq!(pick_index(4, 5), 4);
    assert_eq!(pick_index(usize::MAX, 1), 0);
    let mut d = depot(vec![], vec![]);
    for _ in 0..3 {
        d.save(StatusType::Normal);
    }
    let mut seen = [false; 3];
    for _ in 0..200 {
        let r = d.next_random();
        assert!(r < 3);
        seen[r] = true;
    }
    assert!(seen.iter().all(|s| *s));
}

#[test]
fn nearer_conditions_come_first() {
    // 1 -> 2 -> 3 -> 4 (target)
    let mut d = depot(vec![4], vec![(1, 2), (2, 3), (3, 4)]);
    let mut ledger = vec![];
    d.add_entries(vec![cond(1, 0, 0), cond(3, 0, 0), cond(2, 0, 0), cond(9, 0, 0)], (0, 0), &mut ledger);
    assert!(ledger.is_empty());
    let (c, p) = d.get_entry().unwrap();
    assert_eq!(c.base.site, 3);
    assert_eq!(p, QPriority { distance: 1, class: 0, age: 0 });
    // handing out demotes by age only: the nearest stays first
    let (c, p) = d.get_entry().unwrap();
    assert_eq!(c.base.site, 3);
    assert_eq!(p, QPriority { distance: 1, class: 0, age: 1 });
}

#[test]
fn equal_distances_take_turns() {
    let mut d = depot(vec![4], vec![(1, 4), (2, 4), (3, 4)]);
    let mut ledger = vec![];
    d.add_entries(vec![cond(1, 0, 0), cond(2, 0, 0), cond(3, 0, 0)], (0, 0), &mut ledger);
    let sites: Vec<u32> = drain_order(&mut d, 6).iter().map(|e| e.0).collect();
    let mut first: Vec<u32> = sites[..3].to_vec();
    first.sort();
    assert_eq!(first, vec![1, 2, 3]);
    let mut second: Vec<u32> = sites[3..].to_vec();
    second.sort();
    assert_eq!(second, vec![1, 2, 3]);
    let ages: Vec<u32> = drain_order(&mut d, 3).iter().map(|e| e.1.age).collect();
    assert_eq!(ages, vec![2, 2, 2]);
}

#[test]
fn exploration_comes_before_exploitation_and_havoc() {
    let mut d = depot(vec![4], vec![(1, 4), (2, 4), (3, 4)]);
    let mut havoc = cond(1, 0, 0);
    havoc.base.op = COND_AFL_OP;
    let mut exploit = cond(2, 0, 0);
    exploit.base.op = 0x4001;
    let explore = cond(3, 0, 0);
    let mut ledger = vec![];
    d.add_entries(vec![havoc, exploit, explore], (0, 0), &mut ledger);
    let (c, p) = d.get_entry().unwrap();
    assert_eq!((c.base.site, p.class), (3, 0));
}

#[test]
fn one_entry_per_identity() {
    let mut d = depot(vec![2], vec![(1, 2)]);
    let mut ledger = vec![];
    let mut slower = cond(1, 7, 0);
    slower.speed = 500;
    slower.variables = vec![1, 2, 3];
    d.add_entries(
        vec![cond(1, 7, 0), slower, cond(1, 7, 1), cond(1, 8, 0), cond(1, 7, 0)],
        (0, 0),
        &mut ledger,
    );
    let mut keys: Vec<CondKey> = (0..9).map(|_| d.get_entry().unwrap().0.key()).collect();
    keys.sort_by_key(|k| (k.site, k.context, k.order));
    keys.dedup();
    assert_eq!(keys.len(), 3);
    // the slower observation did not replace the stored one
    let (c, _) = d.get_entry().unwrap();
    if c.key() == (CondKey { site: 1, context: 7, order: 0 }) {
        assert_eq!(c.speed, 100);
    }
}

#[test]
fn undesirable_conditions_are_not_queued() {
    let mut d = depot(vec![2], vec![(1, 2)]);
    let mut c = cond(1, 0, 0);
    c.is_desirable = false;
    let mut ledger = vec![];
    d.add_entries(vec![c], (0, 0), &mut ledger);
    assert!(d.get_entry().is_none());
}

#[test]
fn the_other_outcome_marks_the_entry_done() {
    let mut d = depot(vec![2], vec![(1, 2)]);
    let mut ledger = vec![(9, 9, 9, 9)];
    let mut taken = cond(15, 0, 0);
    taken.base.condition = 1;
    let mut not_taken = cond(15, 0, 0);
    not_taken.base.condition = 0;
    not_taken.base.func = 77;
    d.add_entries(vec![taken], (40, 4), &mut ledger);
    assert_eq!(ledger, vec![(9, 9, 9, 9)]);
    d.add_entries(vec![not_taken], (40, 4), &mut ledger);
    // the row names the origin and the stored condition's site and function
    assert_eq!(ledger, vec![(9, 9, 9, 9), (40, 4, 15, 1)]);
    let key = CondKey { site: 15, context: 0, order: 0 };
    let (c, p) = d.get(key).unwrap();
    assert_eq!(c.state, CondState::Done);
    assert!(c.is_done());
    assert_eq!(c.base.condition, 1);
    assert!(p.is_done());
    // nothing is left to hand out
    assert!(d.get_entry().is_none());
    // a done entry is not touched again
    let mut again = cond(15, 0, 0);
    again.base.condition = 0;
    d.add_entries(vec![again], (40, 4), &mut ledger);
    assert_eq!(ledger.len(), 2);
    let (c, p) = d.get(key).unwrap();
    assert!(c.is_done());
    assert_eq!(p, QPriority::done());
    assert!(d.get_entry().is_none());
    assert!(d.get(CondKey { site: 15, context: 0, order: 1 }).is_none());
}

#[test]
fn a_faster_observation_replaces_the_stored_one() {
    let mut d = depot(vec![2], vec![(1, 2)]);
    let mut ledger = vec![];
    let mut slow = cond(1, 0, 0);
    slow.speed = 900;
    slow.base.op = 0x4001;
    d.add_entries(vec![slow], (0, 0), &mut ledger);
    let (_, p) = d.get_entry().unwrap();
    assert_eq!(p, QPriority { distance: 1, class: 1, age: 0 });
    let mut fast = cond(1, 0, 0);
    fast.speed = 10;
    fast.base.arg1 = 42;
    d.add_entries(vec![fast], (0, 0), &mut ledger);
    let (c, p) = d.get_entry().unwrap();
    assert_eq!(c.speed, 10);
    assert_eq!(c.base.arg1, 42);
    // ranked anew, by the class of the operator stored before
    assert_eq!(p, QPriority { distance: 1, class: 1, age: 0 });
    assert!(ledger.is_empty());
}

#[test]
fn done_entries_are_not_handed_out() {
    let mut d = depot(vec![], vec![]);
    let mut ledger = vec![];
    let mut a = cond(1, 0, 0);
    a.base.condition = 1;
    d.add_entries(vec![a, cond(2, 0, 0)], (0, 0), &mut ledger);
    d.add_entries(vec![cond(1, 0, 0)], (0, 0), &mut ledger);
    assert_eq!(ledger.len(), 1);
    // site 2 has no distance at all, and still comes before the done entry
    for _ in 0..5 {
        let (c, p) = d.get_entry().unwrap();
        assert_eq!(c.base.site, 2);
        assert_eq!(p.distance, UNDEF_SCORE);
    }
    // once every entry is done nothing is handed out and nothing changes
    let mut last = cond(2, 0, 0);
    last.mark_as_done();
    d.update_entry(last);
    for _ in 0..3 {
        assert!(d.get_entry().is_none());
    }
    for site in [1, 2] {
        let (c, p) = d.get(CondKey { site, context: 0, order: 0 }).unwrap();
        assert!(c.is_done());
        assert_eq!(p, QPriority::done());
    }
    assert_eq!(d.explore_num(), 0);
}

#[test]
fn update_entry_follows_the_graph() {
    let mut d = depot(vec![4], vec![(1, 2), (2, 3), (3, 4)]);
    let mut ledger = vec![];
    d.add_entries(vec![cond(1, 0, 0)], (0, 0), &mut ledger);
    let (mut c, p) = d.get_entry().unwrap();
    assert_eq!(p.distance, 3);
    d.cfg_mut().add_edge(1, 4);
    c.state = CondState::Search;
    c.fuzz_times = 5;
    d.update_entry(c);
    let (c, p) = d.get_entry().unwrap();
    assert_eq!(c.state, CondState::Search);
    assert_eq!(c.fuzz_times, 5);
    assert_eq!(p, QPriority { distance: 1, class: 0, age: 1 });
}

#[test]
fn update_entry_with_a_discarded_condition() {
    let mut d = depot(vec![4, 1], vec![(1, 2), (2, 3), (3, 4)]);
    let mut ledger = vec![];
    d.add_entries(vec![cond(1, 0, 0), cond(2, 0, 0)], (0, 0), &mut ledger);
    assert!(d.cfg().is_target(1));
    let mut c = cond(1, 0, 0);
    c.mark_as_done();
    assert!(c.is_discarded());
    d.update_entry(c);
    assert!(!d.cfg().is_target(1));
    assert!(d.cfg().is_target(4));
    assert_eq!(d.cfg().score_for_site(1), 3);
    let (first, _) = d.get_entry().unwrap();
    assert_eq!(first.base.site, 2);
    // a condition that is not queued still gives up its target
    let mut t = cond(4, 0, 0);
    t.to_timeout();
    assert!(t.is_discarded());
    assert!(!t.is_done());
    d.update_entry(t);
    assert!(!d.cfg().is_target(4));
    assert_eq!(d.cfg().score_for_site(2), UNDEF_SCORE);
}

#[test]
fn unsolved_exploration_conditions_are_counted() {
    let mut d = depot(vec![2], vec![(1, 2)]);
    assert_eq!(d.explore_num(), 0);
    let mut ledger = vec![];
    let mut exploit = cond(3, 0, 0);
    exploit.base.op = 0x4001;
    let mut havoc = cond(4, 0, 0);
    havoc.base.op = COND_AFL_OP;
    d.add_entries(vec![cond(1, 0, 0), cond(1, 0, 1), cond(2, 0, 0), exploit, havoc], (0, 0), &mut ledger);
    assert_eq!(d.explore_num(), 3);
    // queuing the same identity again adds nothing
    d.add_entries(vec![cond(1, 0, 0)], (0, 0), &mut ledger);
    assert_eq!(d.explore_num(), 3);
    // the other outcome solves one
    let mut twin = cond(1, 0, 1);
    twin.base.condition = 1;
    d.add_entries(vec![twin], (0, 0), &mut ledger);
    assert_eq!(d.explore_num(), 2);
    // handing out changes nothing
    d.get_entry();
    assert_eq!(d.explore_num(), 2);
    // a timed-out condition is given up but not solved
    let mut t = cond(2, 0, 0);
    t.to_timeout();
    d.update_entry(t);
    assert_eq!(d.explore_num(), 2);
    let mut done = cond(2, 0, 0);
    done.mark_as_done();
    d.update_entry(done);
    assert_eq!(d.explore_num(), 1);
}

#[test]
fn timed_out_conditions_are_frozen() {
    let mut d = depot(vec![2], vec![(1, 2)]);
    let mut ledger = vec![];
    d.add_entries(vec![cond(1, 0, 0), cond(5, 0, 0)], (0, 0), &mut ledger);
    let mut t = cond(1, 0, 0);
    t.to_timeout();
    d.update_entry(t);
    let (c, _) = d.get_entry().unwrap();
    assert_eq!(c.base.site, 5);
}

#[test]
fn the_queue_grows_by_the_new_identities() {
    let mut d = depot(vec![2], vec![(1, 2)]);
    let mut ledger = vec![];
    d.add_entries(vec![cond(1, 0, 0), cond(5, 0, 0)], (0, 0), &mut ledger);
    let mut unwanted = cond(9, 9, 9);
    unwanted.is_desirable = false;
    // two new identities, one of them twice; one that is queued; one that is not wanted
    d.add_entries(
        vec![cond(7, 0, 0), cond(1, 0, 0), cond(7, 0, 0), unwanted, cond(7, 1, 0)],
        (0, 0),
        &mut ledger,
    );
    let queued = [(1, 0, 0), (5, 0, 0), (7, 0, 0), (7, 1, 0)];
    for (site, context, order) in queued {
        assert!(d.get(CondKey { site, context, order }).is_some());
    }
    assert!(d.get(CondKey { site: 9, context: 9, order: 9 }).is_none());
    assert_eq!(d.explore_num(), 4);
}

#[test]
fn the_other_outcome_in_a_longer_list() {
    let mut d = depot(vec![2], vec![(1, 2)]);
    let mut ledger = vec![];
    let mut stored = cond(15, 0, 0);
    stored.base.condition = 1;
    stored.speed = 500;
    d.add_entries(vec![stored], (0, 0), &mut ledger);
    let mut faster = cond(15, 0, 0);
    faster.base.condition = 1;
    faster.speed = 20;
    let mut other = cond(15, 0, 0);
    other.base.condition = 0;
    other.speed = 1;
    let mut after = cond(15, 0, 0);
    after.base.condition = 1;
    after.speed = 1;
    d.add_entries(vec![cond(3, 0, 0), faster, cond(4, 0, 0), other, after], (8, 9), &mut ledger);
    let (c, p) = d.get(CondKey { site: 15, context: 0, order: 0 }).unwrap();
    assert!(c.is_done());
    assert_eq!(p, QPriority::done());
    // the faster observation took the entry's place before it was done
    assert_eq!(c.base.condition, 1);
    assert_eq!(c.speed, 20);
    assert_eq!(ledger, vec![(8, 9, 15, 1)]);
}
