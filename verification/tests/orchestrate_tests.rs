use angora::orchestrate::count_or_zero;
use angora::orchestrate::decide_main_loop;
use angora::orchestrate::get_func_num;
use angora::orchestrate::plan_cpus;
use angora::orchestrate::stats_file_text;
use angora::orchestrate::tick_sync;
use angora::orchestrate::worker_id;
use angora::orchestrate::MainLoopRound;
use angora::report::branch_cov_text;
use angora::report::func_rels_text;
use angora::orchestrate::MainLoopStep;
use angora::status::StatusType;

#[test]
fn main_loop_decisions() {
    let round = |step, last_explore_num| MainLoopRound { step, last_explore_num };
    assert_eq!(decide_main_loop(true, 0, 0), round(MainLoopStep::Continue, 0));
    assert_eq!(decide_main_loop(true, 5, 5), round(MainLoopStep::Continue, 5));
    // while a worker lives the number kept is not touched
    assert_eq!(decide_main_loop(true, 9, 5), round(MainLoopStep::Continue, 5));
    assert_eq!(decide_main_loop(false, 0, 7), round(MainLoopStep::NothingToExplore, 0));
    assert_eq!(decide_main_loop(false, 5, 5), round(MainLoopStep::Settled, 5));
    // once all have ended the number seen is kept for the next look
    assert_eq!(decide_main_loop(false, 5, 6), round(MainLoopStep::Continue, 5));
    assert_eq!(decide_main_loop(false, 5, 5).step, MainLoopStep::Settled);
}

#[test]
fn cpus_are_bound_only_if_there_are_enough() {
    assert_eq!(plan_cpus(2, &vec![4, 6, 8]), vec![Some(4), Some(6)]);
    assert_eq!(plan_cpus(3, &vec![4, 6, 8]), vec![Some(4), Some(6), Some(8)]);
    assert_eq!(plan_cpus(3, &vec![4, 6]), vec![None, None, None]);
    assert_eq!(plan_cpus(0, &vec![]), Vec::<Option<usize>>::new());
}

#[test]
fn seeds_are_synced_every_twelve_rounds() {
    let mut counter = 1;
    let mut synced = vec![];
    for round in 0..30 {
        let (due, next) = tick_sync(true, counter);
        if due {
            synced.push(round);
        }
        counter = next;
    }
    assert_eq!(synced, vec![0, 12, 24]);
    assert_eq!(tick_sync(false, 1), (false, 0));
    assert_eq!(tick_sync(false, 0), (false, 0));
    assert_eq!(tick_sync(true, 0), (true, 12));
    assert_eq!(tick_sync(true, 2), (false, 1));
}

#[test]
fn worker_ids_start_at_one() {
    assert_eq!(worker_id(0), 1);
    assert_eq!(worker_id(7), 8);
}

#[test]
fn stats_file() {
    assert_eq!(stats_file_text(4711), "fuzzer_pid : 4711");
}

#[test]
fn function_numbers() {
    assert_eq!(get_func_num(None), 0);
    assert_eq!(get_func_num(Some("128")), 128);
    assert_eq!(get_func_num(Some("128\n")), 0);
    assert_eq!(get_func_num(Some("")), 0);
    assert_eq!(get_func_num(Some("-3")), 0);
    assert_eq!(get_func_num(Some("many")), 0);
    assert_eq!(get_func_num(Some("+7")), 7);
    assert_eq!(get_func_num(Some("007")), 7);
    assert_eq!(get_func_num(Some("0")), 0);
    assert_eq!(get_func_num(Some("+")), 0);
    assert_eq!(get_func_num(Some("++7")), 0);
    assert_eq!(get_func_num(Some(" 7")), 0);
    assert_eq!(get_func_num(Some("1_000")), 0);
    assert_eq!(get_func_num(Some("18446744073709551615")), 18446744073709551615);
    assert_eq!(get_func_num(Some("18446744073709551616")), 0);
    assert_eq!(get_func_num(Some("000000000000000000000000000000012")), 12);
    assert_eq!(count_or_zero(Some(9)), 9);
    assert_eq!(count_or_zero(None), 0);
}

#[test]
fn filed_statuses() {
    assert!(StatusType::Normal.filed());
    assert!(StatusType::Timeout.filed());
    assert!(StatusType::Crash.filed());
    assert!(!StatusType::Skip.filed());
    assert!(!StatusType::Error.filed());
}

#[test]
fn function_relations_as_text() {
    assert_eq!(func_rels_text(&vec![]), ",\n");
    assert_eq!(func_rels_text(&vec![vec![7]]), ",0,\n0,7,\n");
    let m = vec![vec![0, 1, 2], vec![10, 11, 12], vec![20, 21, 4096]];
    assert_eq!(func_rels_text(&m), ",0,1,2,\n0,0,1,2,\n1,10,11,12,\n2,20,21,4096,\n");
}

#[test]
fn branch_coverage_as_text() {
    assert_eq!(branch_cov_text(&vec![]), "target cmpid, func, covered cmpid, func\n");
    assert_eq!(
        branch_cov_text(&vec![(40, 4, 15, 1), (0, 0, 4294967295, 10)]),
        "target cmpid, func, covered cmpid, func\n40,4,15,1\n0,0,4294967295,10\n"
    );
}
