use angora::cfg::ControlFlowGraph;
use angora::command::CommandOpt;
use angora::command::Probe;
use angora::command::Request;
use angora::cond_stmt::CondState;
use angora::cond_stmt::CondStmt;
use angora::defs::COND_AFL_OP;
use angora::defs::MAX_INVARIABLE_NUM;
use angora::defs::SLOW_SPEED;
use angora::defs::TMOUT_SKIP;
use angora::defs::UNREACHABLE;
use angora::depot::Bucket;
use angora::depot::Depot;
use angora::executor::classify_exit;
use angora::executor::forksrv_env;
use angora::executor::measure_speed;
use angora::executor::should_skip_tracking;
use angora::executor::target_env;
use angora::executor::track_env;
use angora::executor::Executor;
use angora::executor::ExitOutcome;
use angora::executor::NewInput;
use angora::executor::Settled;
use angora::stats::ChartStats;
use angora::stats::LocalStats;
use angora::status::StatusType;

fn profile(enable_afl: bool) -> CommandOpt {
    let request = Request {
        mode: "llvm".to_string(),
        track_target: "/bin/track".to_string(),
        pargs: vec!["/bin/fast".to_string()],
        out_dir: "/out".to_string(),
        search_method: "gd".to_string(),
        mem_limit: 200,
        time_limit: 1,
        enable_afl,
        enable_exploitation: false,
        directed_targets_file: "t".to_string(),
        sanopt_target: None,
        directed_only: true,
    };
    let probe = Probe {
        cwd: "/".to_string(),
        llvm_libdir: "/lib".to_string(),
        uses_asan: false,
        pin_root: None,
        bin_dir: None,
    };
    CommandOpt::new(&request, &probe)
}

fn executor() -> Executor {
    Executor::new(profile(false))
}

fn cond(site: u32) -> CondStmt {
    let mut c = CondStmt::new();
    c.base.site = site;
    c.base.func = site % 4;
    c
}

#[test]
fn a_new_executor() {
    let e = executor();
    assert_eq!(e.last_f(), UNREACHABLE);
    assert!(!e.has_new_path());
    assert!(e.is_directed());
    assert_eq!(e.local_stats(), LocalStats::new());
    assert_eq!(e.cmd().out_file, "/out/tmp/cur_input");
    let mut e = e;
    e.set_directed(false);
    assert!(!e.is_directed());
}

#[test]
fn exit_classes() {
    assert_eq!(classify_exit(ExitOutcome::Exited(0), false, false), StatusType::Normal);
    assert_eq!(classify_exit(ExitOutcome::Exited(1), true, true), StatusType::Normal);
    assert_eq!(classify_exit(ExitOutcome::Exited(86), true, false), StatusType::Crash);
    assert_eq!(classify_exit(ExitOutcome::Exited(86), false, false), StatusType::Normal);
    assert_eq!(classify_exit(ExitOutcome::Exited(129), false, true), StatusType::Crash);
    assert_eq!(classify_exit(ExitOutcome::Exited(128), false, true), StatusType::Normal);
    assert_eq!(classify_exit(ExitOutcome::Exited(129), false, false), StatusType::Normal);
    assert_eq!(classify_exit(ExitOutcome::Signaled, false, false), StatusType::Crash);
    assert_eq!(classify_exit(ExitOutcome::TimedOut, true, true), StatusType::Timeout);
}

#[test]
fn slow_inputs_are_not_tracked() {
    assert!(!should_skip_tracking(false, 10, 11));
    assert!(should_skip_tracking(false, 11, 11));
    assert!(!should_skip_tracking(false, 11, 10));
    assert!(!should_skip_tracking(true, 11, 11));
    assert!(!should_skip_tracking(true, 25, 11));
    assert!(should_skip_tracking(true, 26, 11));
    assert!(!should_skip_tracking(true, 26, 10));
    assert!(!should_skip_tracking(false, 1000, 0));
}

#[test]
fn speeds() {
    assert_eq!(measure_speed(None, 3), SLOW_SPEED);
    assert_eq!(measure_speed(Some((0, 3_000)), 3), 1);
    assert_eq!(measure_speed(Some((0, 2_999)), 3), 0);
    assert_eq!(measure_speed(Some((3, 0)), 3), 1_000_000);
    assert_eq!(measure_speed(Some((1, 500_000_000)), 3), 500_000);
    assert_eq!(measure_speed(Some((u64::MAX, 999_999_999)), 1), u32::MAX);
    assert_eq!(measure_speed(Some((12_884, 901_885_000)), 3), 4_294_967_295);
}

#[test]
fn environments() {
    let env = target_env("42", "43", "$LD_LIBRARY_PATH:/lib");
    let pairs: Vec<(&str, &str)> = env.iter().map(|(k, v)| (k.as_str(), v.as_str())).collect();
    assert_eq!(
        pairs,
        vec![
            ("ASAN_OPTIONS", "abort_on_error=1:detect_leaks=0:symbolize=0:allocator_may_return_null=1"),
            (
                "MSAN_OPTIONS",
                "exit_code=86:symbolize=0:abort_on_error=1:allocator_may_return_null=1:msan_track_origins=0"
            ),
            ("ANGORA_BRANCHES_SHM_ID", "42"),
            ("ANGORA_COND_STMT_SHM_ID", "43"),
            ("LD_LIBRARY_PATH", "$LD_LIBRARY_PATH:/lib"),
        ]
    );
    let fk = forksrv_env(&env, "/out/tmp/forksrv_socket_1");
    assert_eq!(fk.len(), 7);
    assert_eq!(fk[..5], env[..]);
    assert_eq!(fk[5], ("ANGORA_ENABLE_FORKSRV".to_string(), "TRUE".to_string()));
    assert_eq!(
        fk[6],
        ("ANGORA_FORKSRV_SOCKET_PATH".to_string(), "/out/tmp/forksrv_socket_1".to_string())
    );
    let tk = track_env(&env, "/out/tmp/track_1");
    assert_eq!(tk.len(), 6);
    assert_eq!(tk[5], ("ANGORA_TRACK_OUTPUT".to_string(), "/out/tmp/track_1".to_string()));
}

#[test]
fn run_init_counts_the_run() {
    let mut e = executor();
    let mut d = Depot::new("s".to_string(), "o", ControlFlowGraph::new(vec![], vec![], vec![]));
    e.note_new_path(&mut d, StatusType::Normal, true);
    assert!(e.has_new_path());
    e.run_init();
    assert!(!e.has_new_path());
    assert_eq!(e.local_stats().num_exec, 1);
    e.run_init();
    assert_eq!(e.local_stats().num_exec, 2);
}

#[test]
fn unreached_on_the_first_run_is_inconsistent() {
    let mut e = executor();
    e.run_init();
    let mut c = cond(1);
    c.fuzz_times = 1;
    e.check_consistent(UNREACHABLE, &mut c);
    assert!(!c.is_consistent);

    let mut reached = cond(1);
    reached.fuzz_times = 1;
    e.check_consistent(5, &mut reached);
    assert!(reached.is_consistent);

    let mut seen_before = cond(1);
    seen_before.fuzz_times = 2;
    e.check_consistent(UNREACHABLE, &mut seen_before);
    assert!(seen_before.is_consistent);

    let mut exploring = cond(1);
    exploring.fuzz_times = 1;
    exploring.state = CondState::Exploring;
    e.check_consistent(UNREACHABLE, &mut exploring);
    assert!(exploring.is_consistent);

    e.run_init();
    let mut late = cond(1);
    late.fuzz_times = 1;
    e.check_consistent(UNREACHABLE, &mut late);
    assert!(late.is_consistent);
}

#[test]
fn a_satisfied_condition_is_explored() {
    let e = executor();
    let mut c = cond(1);
    let mut explored = false;
    assert!(e.check_explored(&mut c, StatusType::Normal, 0, &mut explored));
    assert!(explored);
    assert!(c.is_done());
    // a done condition is not explored again
    let mut explored = false;
    assert!(!e.check_explored(&mut c, StatusType::Normal, 0, &mut explored));
    assert!(!explored);
    // an output other than 0 explores nothing
    let mut open = cond(2);
    assert!(!e.check_explored(&mut open, StatusType::Crash, 1, &mut explored));
    assert!(!open.is_done());
    assert!(!explored);
}

#[test]
fn invariable_output_makes_a_condition_undesirable() {
    let mut e = executor();
    let mut c = cond(1);
    c.state = CondState::Search;
    // the first output differs from the initial one
    assert!(!e.check_invariable(77, &mut c));
    for _ in 0..MAX_INVARIABLE_NUM - 1 {
        assert!(!e.check_invariable(77, &mut c));
        assert!(c.is_desirable);
    }
    assert!(e.check_invariable(77, &mut c));
    assert!(!c.is_desirable);
    // and every run after that is skipped too
    assert!(e.check_invariable(77, &mut c));
    // until the output changes
    assert!(!e.check_invariable(78, &mut c));
    assert_eq!(e.last_f(), 78);
    assert!(!c.is_desirable);
}

#[test]
fn deterministic_and_one_byte_conditions_are_not_skipped() {
    for state in [CondState::Deterministic, CondState::OneByte] {
        let mut e = executor();
        let mut c = cond(1);
        c.state = state;
        for _ in 0..MAX_INVARIABLE_NUM + 3 {
            assert!(!e.check_invariable(UNREACHABLE, &mut c));
        }
        assert!(!c.is_desirable);
    }
}

#[test]
fn judge_combines_the_checks() {
    let mut e = executor();
    e.run_init();
    let mut c = cond(1);
    c.fuzz_times = 1;
    // unreached in the first run: inconsistent, nothing else
    assert_eq!(e.judge(StatusType::Normal, UNREACHABLE, &mut c), (false, false));
    assert!(!c.is_consistent);
    assert!(c.is_desirable);
    assert_eq!(e.last_f(), UNREACHABLE);
    // satisfied: explored and skipped
    let mut solved = cond(2);
    assert_eq!(e.judge(StatusType::Normal, 0, &mut solved), (true, true));
    assert!(solved.is_done());
    assert_eq!(e.last_f(), 0);
    // a done condition with output 0 is not explored again
    assert_eq!(e.judge(StatusType::Normal, 0, &mut solved), (false, false));
}

#[test]
fn judge_skips_after_an_invariable_output() {
    let mut e = executor();
    let mut c = cond(1);
    c.state = CondState::Search;
    let mut verdicts = vec![];
    for _ in 0..MAX_INVARIABLE_NUM + 1 {
        e.run_init();
        verdicts.push(e.judge(StatusType::Normal, 1234, &mut c).0);
    }
    let mut expected = vec![false; MAX_INVARIABLE_NUM];
    expected.push(true);
    assert_eq!(verdicts, expected);
    assert!(!c.is_desirable);
    let settled = e.settle(StatusType::Normal, true, &mut c);
    assert_eq!(settled, Settled { status: StatusType::Skip, rebind: false });
}

#[test]
fn repeated_timeouts_give_the_condition_up() {
    let mut e = executor();
    let mut c = cond(1);
    for _ in 0..TMOUT_SKIP - 1 {
        let s = e.check_timeout(StatusType::Timeout, &mut c);
        assert_eq!(s, Settled { status: StatusType::Timeout, rebind: false });
        assert_ne!(c.state, CondState::Timeout);
    }
    let s = e.check_timeout(StatusType::Timeout, &mut c);
    assert_eq!(s, Settled { status: StatusType::Skip, rebind: false });
    assert_eq!(c.state, CondState::Timeout);
    assert_eq!(c.speed, SLOW_SPEED);
    assert!(c.is_discarded());
    // the row starts again
    let s = e.check_timeout(StatusType::Timeout, &mut c);
    assert_eq!(s.status, StatusType::Timeout);
}

#[test]
fn a_solved_condition_stays_done_when_given_up() {
    let mut e = executor();
    let mut c = cond(1);
    for _ in 0..TMOUT_SKIP - 1 {
        e.check_timeout(StatusType::Timeout, &mut c);
    }
    // the run that solves the condition is also the time-out that gives it up
    e.run_init();
    assert_eq!(e.judge(StatusType::Timeout, 0, &mut c), (true, true));
    let s = e.settle(StatusType::Timeout, true, &mut c);
    assert_eq!(s.status, StatusType::Skip);
    assert!(c.is_done());
    assert_eq!(c.state, CondState::Done);
    assert_eq!(c.speed, SLOW_SPEED);
}

#[test]
fn another_status_ends_the_row_of_timeouts() {
    let mut e = executor();
    let mut c = cond(1);
    for _ in 0..10 {
        assert_eq!(e.check_timeout(StatusType::Timeout, &mut c).status, StatusType::Timeout);
        assert_eq!(e.check_timeout(StatusType::Timeout, &mut c).status, StatusType::Timeout);
        assert_eq!(e.check_timeout(StatusType::Normal, &mut c).status, StatusType::Normal);
    }
    assert_eq!(e.check_timeout(StatusType::Crash, &mut c).status, StatusType::Crash);
    assert_eq!(e.check_timeout(StatusType::Skip, &mut c).status, StatusType::Skip);
    assert_ne!(c.state, CondState::Timeout);
}

#[test]
fn a_failed_channel_counts_as_a_timeout_and_rebinds() {
    let mut e = executor();
    let mut c = cond(1);
    let s = e.check_timeout(StatusType::Error, &mut c);
    assert_eq!(s, Settled { status: StatusType::Timeout, rebind: true });
    let s = e.check_timeout(StatusType::Error, &mut c);
    assert_eq!(s, Settled { status: StatusType::Timeout, rebind: true });
    let s = e.check_timeout(StatusType::Error, &mut c);
    assert_eq!(s, Settled { status: StatusType::Skip, rebind: true });
    assert_eq!(c.state, CondState::Timeout);
}

#[test]
fn new_paths_are_saved_by_status() {
    let mut e = executor();
    let mut d = Depot::new("s".to_string(), "o", ControlFlowGraph::new(vec![], vec![], vec![]));
    assert_eq!(e.note_new_path(&mut d, StatusType::Normal, false), None);
    assert!(!e.has_new_path());
    assert!(d.empty());
    assert_eq!(
        e.note_new_path(&mut d, StatusType::Normal, true),
        Some(NewInput { id: 0, bucket: Some(Bucket::Queue), track: true })
    );
    assert!(e.has_new_path());
    assert_eq!(
        e.note_new_path(&mut d, StatusType::Timeout, true),
        Some(NewInput { id: 0, bucket: Some(Bucket::Hangs), track: false })
    );
    assert_eq!(
        e.note_new_path(&mut d, StatusType::Crash, true),
        Some(NewInput { id: 0, bucket: Some(Bucket::Crashes), track: false })
    );
    assert_eq!(
        e.note_new_path(&mut d, StatusType::Crash, true),
        Some(NewInput { id: 1, bucket: Some(Bucket::Crashes), track: false })
    );
    let stats = e.local_stats();
    assert_eq!((stats.num_inputs, stats.num_hangs, stats.num_crashes), (1, 1, 2));
    assert_eq!((d.num_inputs(), d.num_hangs(), d.num_crashes()), (1, 1, 2));
}

#[test]
fn unlimited_memory_run() {
    let e = executor();
    let mut d = Depot::new("s".to_string(), "o", ControlFlowGraph::new(vec![], vec![], vec![]));
    assert_eq!(e.try_unlimited_memory(&mut d, StatusType::Normal, true), (false, None));
    assert_eq!(e.try_unlimited_memory(&mut d, StatusType::Crash, false), (true, None));
    assert_eq!(
        e.try_unlimited_memory(&mut d, StatusType::Crash, true),
        (true, Some((0, Some(Bucket::Crashes))))
    );
    assert_eq!(
        e.try_unlimited_memory(&mut d, StatusType::Timeout, true),
        (true, Some((0, Some(Bucket::Hangs))))
    );
    assert!(d.empty());
}

#[test]
fn update_log_drains_the_counters() {
    let mut e = executor();
    let mut d = Depot::new("s".to_string(), "o", ControlFlowGraph::new(vec![], vec![], vec![]));
    let mut global = ChartStats::new();
    let mut c = cond(1);
    e.run_init();
    e.run_init();
    e.note_new_path(&mut d, StatusType::Normal, true);
    e.check_timeout(StatusType::Timeout, &mut c);
    e.check_invariable(5, &mut c);
    e.update_log(&mut global);
    assert_eq!(global.totals.num_exec, 2);
    assert_eq!(global.totals.num_inputs, 1);
    assert_eq!(e.local_stats(), LocalStats::new());
    assert_eq!(e.last_f(), UNREACHABLE);
    e.run_init();
    e.update_log(&mut global);
    assert_eq!(global.totals.num_exec, 3);
    // the row of time-outs started again
    assert_eq!(e.check_timeout(StatusType::Timeout, &mut c).status, StatusType::Timeout);
    assert_eq!(e.check_timeout(StatusType::Timeout, &mut c).status, StatusType::Timeout);
    assert_eq!(e.check_timeout(StatusType::Timeout, &mut c).status, StatusType::Skip);
}

#[test]
fn counters_stop_at_their_maximum() {
    let mut local = LocalStats::new();
    local.num_exec = u64::MAX - 1;
    local.count_exec();
    local.count_exec();
    assert_eq!(local.num_exec, u64::MAX);
    local.add_track_time(u64::MAX);
    local.add_track_time(1);
    assert_eq!(local.track_time, u64::MAX);
    let mut global = ChartStats::new();
    global.totals.num_exec = 5;
    global.sync_from_local(&mut local);
    assert_eq!(global.totals.num_exec, u64::MAX);
    assert_eq!(local, LocalStats::new());
    local.find_new(&StatusType::Skip);
    local.find_new(&StatusType::Error);
    assert_eq!(local, LocalStats::new());
}

#[test]
fn functions_met_together_are_counted() {
    let mut m = vec![vec![0usize; 4]; 4];
    m[1][2] = 7;
    m[3][3] = usize::MAX;
    let mut a = cond(0);
    a.base.func = 1;
    let mut b = cond(0);
    b.base.func = 2;
    let mut c = cond(0);
    c.base.func = 1;
    let mut out_of_range = cond(0);
    out_of_range.base.func = 9;
    let e = executor();
    e.get_func_and_record(&mut m, &vec![a, b, c, out_of_range]);
    assert_eq!(
        m,
        vec![
            vec![0, 0, 0, 0],
            vec![0, 1, 8, 0],
            vec![0, 1, 1, 0],
            vec![0, 0, 0, usize::MAX],
        ]
    );
    let mut d = cond(0);
    d.base.func = 3;
    e.get_func_and_record(&mut m, &vec![d]);
    assert_eq!(m[3][3], usize::MAX);
    e.get_func_and_record(&mut m, &vec![]);
    assert_eq!(m[1][2], 8);
    // a matrix with rows of different lengths
    let mut ragged = vec![vec![0usize; 1], vec![0usize; 3]];
    let mut e0 = cond(0);
    e0.base.func = 0;
    let mut e1 = cond(0);
    e1.base.func = 1;
    e.get_func_and_record(&mut ragged, &vec![e0, e1]);
    assert_eq!(ragged, vec![vec![1], vec![1, 1, 0]]);
}

#[test]
fn a_failed_tracking_run_changes_nothing() {
    let mut e = executor();
    let mut d = Depot::new("s".to_string(), "o", ControlFlowGraph::new(vec![2], vec![], vec![]));
    let mut m = vec![vec![0usize; 4]; 4];
    let mut ledger = vec![];
    for status in [StatusType::Crash, StatusType::Timeout, StatusType::Error, StatusType::Skip] {
        e.absorb_track(
            &mut d,
            status,
            vec![cond(1), cond(2)],
            &vec![1, 2, 3],
            (0, 0),
            (0, 10, 2),
            55,
            &mut m,
            &mut ledger,
        );
    }
    assert!(d.get_entry().is_none());
    assert_eq!(d.cfg().score_for_site(1), u32::MAX);
    assert_eq!(m, vec![vec![0usize; 4]; 4]);
    assert!(ledger.is_empty());
    assert_eq!(e.local_stats().track_time, 0);
}

#[test]
fn a_tracking_run_is_taken_in() {
    let mut e = Executor::new(profile(true));
    let mut d = Depot::new("s".to_string(), "o", ControlFlowGraph::new(vec![3], vec![], vec![]));
    let mut m = vec![vec![0usize; 4]; 4];
    let mut ledger = vec![];
    e.absorb_track(
        &mut d,
        StatusType::Normal,
        vec![cond(1), cond(2), cond(3)],
        &vec![1, 2, 3],
        (0, 0),
        (6, 10, 2),
        55,
        &mut m,
        &mut ledger,
    );
    assert_eq!(e.local_stats().track_time, 55);
    assert_eq!(d.cfg().score_for_site(1), 2);
    assert_eq!(d.cfg().score_for_site(2), 1);
    // functions 1, 2 and 3 were met together
    assert_eq!(m[0], vec![0, 0, 0, 0]);
    assert_eq!(m[1], vec![0, 1, 1, 1]);
    assert_eq!(m[3], vec![0, 1, 1, 1]);
    // three conditions and the havoc condition of input 6 are queued,
    // and come out nearest first
    let mut sites = vec![];
    while let Some((mut c, p)) = d.get_entry() {
        sites.push((c.base.site, c.base.op, c.is_target, p.distance));
        c.mark_as_done();
        d.update_entry(c);
    }
    assert_eq!(
        sites,
        vec![(3, 0, true, 0), (2, 0, false, 1), (1, 0, false, 2), (6, COND_AFL_OP, false, u32::MAX)]
    );
}

#[test]
fn an_empty_tracking_run_queues_nothing() {
    let mut e = Executor::new(profile(true));
    let mut d = Depot::new("s".to_string(), "o", ControlFlowGraph::new(vec![3], vec![], vec![]));
    let mut m = vec![vec![0usize; 2]; 2];
    let mut ledger = vec![];
    e.absorb_track(&mut d, StatusType::Normal, vec![], &vec![], (0, 0), (6, 10, 2), 5, &mut m, &mut ledger);
    assert!(d.get_entry().is_none());
    assert_eq!(e.local_stats().track_time, 5);
}
