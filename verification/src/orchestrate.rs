//! The decisions of the main thread, which starts the workers and waits
//! for them.

use crate::text::concat;
use crate::text::decimal;
use crate::text::decimal_string;
use crate::text::parse_usize;
use crate::text::parsed_usize;
use vstd::prelude::*;
use vstd::string::*;

verus! {

/// What the main thread does after a look at the workers.
#[derive(Clone, Copy, Debug, PartialEq, Eq, Structural)]
pub enum MainLoopStep {
    /// Go on waiting.
    Continue,
    /// Stop: the seeds held no condition to explore.
    NothingToExplore,
    /// Stop: the number of unsolved conditions has come to rest.
    Settled,
}

/// The decision of the main thread: it goes on while a worker still lives;
/// once all have ended it stops if there never was a condition to explore, or
/// if the number of unsolved exploration conditions is what it was at the
/// last look.
pub open spec fn main_loop_step(workers_alive: bool, explore_num: usize, last_explore_num: usize) -> MainLoopStep {
    if workers_alive {
        MainLoopStep::Continue
    } else if explore_num == 0 {
        MainLoopStep::NothingToExplore
    } else if explore_num == last_explore_num {
        MainLoopStep::Settled
    } else {
        MainLoopStep::Continue
    }
}

/// The number of unsolved exploration conditions that the next look is
/// held against: the number seen now once all workers have ended, the
/// number kept so far while one still lives.
pub open spec fn next_last_explore_num(workers_alive: bool, explore_num: usize, last_explore_num: usize) -> usize {
    if workers_alive {
        last_explore_num
    } else {
        explore_num
    }
}

/// What a look of the main thread at the workers comes to.
#[derive(Clone, Copy, Debug, PartialEq, Eq, Structural)]
pub struct MainLoopRound {
    /// What the main thread does now.
    pub step: MainLoopStep,
    /// The number the next look is held against.
    pub last_explore_num: usize,
}

/// One look of the main thread at the workers: what it does now, see
/// [`main_loop_step`], and the number that the next look is held against,
/// see [`next_last_explore_num`].
pub fn decide_main_loop(workers_alive: bool, explore_num: usize, last_explore_num: usize) -> (r:
    MainLoopRound)
    ensures
        r.step == main_loop_step(workers_alive, explore_num, last_explore_num),
        r.last_explore_num == next_last_explore_num(workers_alive, explore_num, last_explore_num),
{
    if workers_alive {
        MainLoopRound { step: MainLoopStep::Continue, last_explore_num }
    } else if explore_num == 0 {
        MainLoopRound { step: MainLoopStep::NothingToExplore, last_explore_num: explore_num }
    } else if explore_num == last_explore_num {
        MainLoopRound { step: MainLoopStep::Settled, last_explore_num: explore_num }
    } else {
        MainLoopRound { step: MainLoopStep::Continue, last_explore_num: explore_num }
    }
}

/// The CPU each of `num_jobs` workers is pinned to: worker `i` gets the
/// `i`-th free CPU, or none at all if there are fewer free CPUs than workers.
pub open spec fn cpu_plan(num_jobs: usize, free_cpus: Seq<usize>) -> Seq<Option<usize>> {
    Seq::new(
        num_jobs as nat,
        |i: int|
            if free_cpus.len() < num_jobs {
                None
            } else {
                Some(free_cpus[i])
            },
    )
}

/// Executable form of [`cpu_plan`].
pub fn plan_cpus(num_jobs: usize, free_cpus: &Vec<usize>) -> (r: Vec<Option<usize>>)
    ensures
        r@ == cpu_plan(num_jobs, free_cpus@),
{
    let bind = free_cpus.len() >= num_jobs;
    let mut out: Vec<Option<usize>> = Vec::new();
    let mut i: usize = 0;
    while i < num_jobs
        invariant
            i <= num_jobs,
            bind == (free_cpus@.len() >= num_jobs),
            out@ == cpu_plan(num_jobs, free_cpus@).take(i as int),
        decreases num_jobs - i,
    {
        if bind {
            out.push(Some(free_cpus[i]));
        } else {
            out.push(None);
        }
        assert(out@ =~= cpu_plan(num_jobs, free_cpus@).take(i + 1));
        i += 1;
    }
    assert(cpu_plan(num_jobs, free_cpus@).take(i as int) =~= cpu_plan(num_jobs, free_cpus@));
    out
}

/// Number of rounds of the main thread between two imports of foreign seeds.
pub const SYNC_ROUNDS: u32 = 12;

/// Whether foreign seeds are imported in a round that begins with
/// `counter` rounds to go.
pub open spec fn sync_due(sync_afl: bool, counter: u32) -> bool {
    sync_afl && counter <= 1
}

/// The rounds to go after a round that began with `counter` rounds to go.
pub open spec fn next_counter(sync_afl: bool, counter: u32) -> u32 {
    if sync_due(sync_afl, counter) {
        SYNC_ROUNDS
    } else if counter == 0 {
        0
    } else {
        (counter - 1) as u32
    }
}

/// One round of the main thread: returns whether foreign seeds are to be
/// imported now, and the rounds to go after it. Seeds are imported every
/// [`SYNC_ROUNDS`] rounds, and only if asked for.
pub fn tick_sync(sync_afl: bool, counter: u32) -> (r: (bool, u32))
    ensures
        r == (sync_due(sync_afl, counter), next_counter(sync_afl, counter)),
{
    if sync_afl && counter <= 1 {
        (true, SYNC_ROUNDS)
    } else if counter == 0 {
        (false, 0)
    } else {
        (false, counter - 1)
    }
}

/// The id of the worker that runs on thread `thread_id`: ids start at 1,
/// 0 being the main thread's.
pub fn worker_id(thread_id: usize) -> (r: usize)
    requires
        thread_id < usize::MAX,
    ensures
        r == thread_id + 1,
{
    thread_id + 1
}

/// What the statistics file holds: the line `fuzzer_pid : ` and the number.
pub fn stats_file_text(pid: usize) -> (r: String)
    ensures
        r@ == "fuzzer_pid : "@ + decimal(pid as nat),
{
    let number = decimal_string(pid);
    concat("fuzzer_pid : ", number.as_str())
}

/// The number of functions a parsed text gives: the number, or 0 if the
/// text held none.
pub fn count_or_zero(parsed: Option<usize>) -> (r: usize)
    ensures
        r == match parsed {
            Some(n) => n,
            None => 0,
        },
{
    match parsed {
        Some(n) => n,
        None => 0,
    }
}

/// The number of functions of the target, from the text of the file that
/// holds it; 0 if there is no such file or it holds no number.
pub fn get_func_num(text: Option<&str>) -> (r: usize)
    ensures
        r == match text {
            Some(t) => match parsed_usize(t@) {
                Some(n) => n,
                None => 0,
            },
            None => 0,
        },
{
    match text {
        Some(t) => count_or_zero(parse_usize(t)),
        None => 0,
    }
}

} // verus!
