//! The decisions of the executor.
//!
//! The executor runs the target, and what it sees decides what it does
//! next. Running is left to the caller; this module holds the state that
//! outlives a run and the rules by which a run is judged.

use crate::command::CommandOpt;
use crate::command::CommandOptView;
use crate::cond_stmt::CondState;
use crate::cond_stmt::CondStmt;
use crate::cond_stmt::CondStmtView;
use crate::cond_stmt::CondStmtBase;
use crate::defs::ASAN_OPTIONS_CONTENT;
use crate::defs::ASAN_OPTIONS_VAR;
use crate::defs::BRANCHES_SHM_ENV_VAR;
use crate::defs::COND_AFL_OP;
use crate::defs::COND_STMT_ENV_VAR;
use crate::defs::ENABLE_FORKSRV;
use crate::defs::FORKSRV_SOCKET_PATH_VAR;
use crate::defs::LD_LIBRARY_PATH_VAR;
use crate::defs::MAX_INVARIABLE_NUM;
use crate::defs::MSAN_OPTIONS_CONTENT;
use crate::defs::MSAN_OPTIONS_VAR;
use crate::defs::TRACK_OUTPUT_VAR;
use crate::depot::bucket_of;
use crate::depot::Bucket;
use crate::depot::Depot;
use crate::depot::DepotView;
use crate::func_rel::cells;
use crate::func_rel::record_functions;
use crate::func_rel::recorded;
use crate::track::annotate;
use crate::track::observed;
use crate::track::stamped;
use crate::cond_stmt::views;
use crate::defs::MSAN_ERROR_CODE;
use crate::defs::SLOW_SPEED;
use crate::defs::TMOUT_SKIP;
use crate::defs::UNREACHABLE;
use crate::stats::ChartStats;
use crate::stats::LocalStats;
use crate::status::StatusType;
use vstd::prelude::*;
use vstd::string::*;

verus! {

/// How a target that was run directly, without the fork server, ended.
#[derive(Clone, Copy, Debug, PartialEq, Eq, Structural)]
pub enum ExitOutcome {
    /// It exited with this code.
    Exited(i32),
    /// A signal ended it.
    Signaled,
    /// It was still running when the time limit passed, and was killed.
    TimedOut,
}

/// The status of a run that ended in `outcome`: a time-out is a time-out,
/// death by signal a crash, and so is the sanitiser's exit code where a
/// sanitiser is in use and, under Pin, any exit code above 128.
pub open spec fn status_of_exit(outcome: ExitOutcome, uses_asan: bool, pin_mode: bool) -> StatusType {
    match outcome {
        ExitOutcome::TimedOut => StatusType::Timeout,
        ExitOutcome::Signaled => StatusType::Crash,
        ExitOutcome::Exited(code) => if (uses_asan && code == MSAN_ERROR_CODE) || (pin_mode && code
            > 128) {
            StatusType::Crash
        } else {
            StatusType::Normal
        },
    }
}

/// Executable form of [`status_of_exit`].
pub fn classify_exit(outcome: ExitOutcome, uses_asan: bool, pin_mode: bool) -> (r: StatusType)
    ensures
        r == status_of_exit(outcome, uses_asan, pin_mode),
{
    match outcome {
        ExitOutcome::TimedOut => StatusType::Timeout,
        ExitOutcome::Signaled => StatusType::Crash,
        ExitOutcome::Exited(code) => {
            if (uses_asan && code == MSAN_ERROR_CODE) || (pin_mode && code > 128) {
                StatusType::Crash
            } else {
                StatusType::Normal
            }
        },
    }
}

/// Whether an input is too slow to be worth tracking: it runs more than ten
/// times slower than the average and brought no new edge, or more than
/// twenty-five times slower; the first inputs, up to id 10, are always tracked.
pub open spec fn too_slow_to_track(has_new_edge: bool, speed_ratio: usize, id: usize) -> bool {
    (!has_new_edge && speed_ratio > 10 && id > 10) || (speed_ratio > 25 && id > 10)
}

/// Executable form of [`too_slow_to_track`].
pub fn should_skip_tracking(has_new_edge: bool, speed_ratio: usize, id: usize) -> (r: bool)
    ensures
        r == too_slow_to_track(has_new_edge, speed_ratio, id),
{
    (!has_new_edge && speed_ratio > 10 && id > 10) || (speed_ratio > 25 && id > 10)
}

/// Microseconds per run when `runs` runs took `secs` seconds and
/// `subsec_nanos` nanoseconds, no more than fits the result.
pub open spec fn mean_micros(secs: u64, subsec_nanos: u32, runs: u32) -> u32 {
    let total = secs * 1_000_000 + subsec_nanos / 1_000;
    let mean = total / (runs as int);
    if mean > u32::MAX {
        u32::MAX
    } else {
        mean as u32
    }
}

/// The speed of an input: [`SLOW_SPEED`] if one of the timing runs failed,
/// else the mean time of a run.
pub open spec fn speed_of(elapsed: Option<(u64, u32)>, runs: u32) -> u32 {
    match elapsed {
        Some((secs, subsec_nanos)) => mean_micros(secs, subsec_nanos, runs),
        None => SLOW_SPEED,
    }
}

/// Executable form of [`speed_of`].
pub fn measure_speed(elapsed: Option<(u64, u32)>, runs: u32) -> (r: u32)
    requires
        runs > 0,
    ensures
        r == speed_of(elapsed, runs),
{
    match elapsed {
        Some((secs, subsec_nanos)) => {
            let total: u128 = (secs as u128) * 1_000_000u128 + ((subsec_nanos / 1_000) as u128);
            let mean: u128 = total / (runs as u128);
            if mean > 0xffff_ffffu128 {
                0xffff_ffff
            } else {
                mean as u32
            }
        },
        None => SLOW_SPEED,
    }
}

/// The conditions a tracked run on input `buf` yields, seen from the graph
/// `cfg`: the conditions it went through, flagged where their site is a
/// target, and then the twins made on the way.
pub open spec fn tracked_conds(cfg: crate::cfg::CfgView, conds: Seq<CondStmtView>, buf: Seq<u8>) -> Seq<
    CondStmtView,
> {
    let seen = observed(cfg, conds, buf);
    conds.map_values(|c: CondStmtView| stamped(c, seen.cfg.targets)) + seen.extra
}

/// The pseudo-condition that stands for havoc on saved input `id`.
pub open spec fn afl_cond(id: usize, speed: u32, edge_num: usize) -> CondStmtView {
    CondStmtView {
        base: CondStmtBase {
            op: COND_AFL_OP,
            site: id as u32,
            arg1: edge_num as u64,
            ..CondStmt::new_view().base
        },
        speed,
        ..CondStmt::new_view()
    }
}

/// The depot after a tracking run was taken in.
///
/// A tracking run that did not end normally changes nothing. Otherwise the
/// graph learns the run's edges; and if the run yielded any condition,
/// those are added to the queue, followed, where havoc is enabled, by the
/// pseudo-condition of the input.
pub open spec fn depot_after_track(
    depot: DepotView,
    track_status: StatusType,
    conds: Seq<CondStmtView>,
    buf: Seq<u8>,
    afl: Option<CondStmtView>,
) -> DepotView {
    let learnt = DepotView { cfg: observed(depot.cfg, conds, buf).cfg, ..depot };
    let list = tracked_conds(depot.cfg, conds, buf);
    if track_status != StatusType::Normal {
        depot
    } else if list.len() == 0 {
        learnt
    } else {
        match afl {
            Some(c) => learnt.added_all(list).added(c),
            None => learnt.added_all(list),
        }
    }
}

/// The rows a tracking run appends to the branch-coverage ledger.
pub open spec fn rows_after_track(
    depot: DepotView,
    track_status: StatusType,
    conds: Seq<CondStmtView>,
    buf: Seq<u8>,
    afl: Option<CondStmtView>,
    origin: (u32, u32),
) -> Seq<(u32, u32, u32, u32)> {
    let learnt = DepotView { cfg: observed(depot.cfg, conds, buf).cfg, ..depot };
    let list = tracked_conds(depot.cfg, conds, buf);
    if track_status != StatusType::Normal || list.len() == 0 {
        Seq::empty()
    } else {
        match afl {
            Some(c) => learnt.explored_rows(list, origin) + learnt.added_all(list).explored_rows(
                seq![c],
                origin,
            ),
            None => learnt.explored_rows(list, origin),
        }
    }
}

/// The environment of the target: the sanitisers' options, the ids of the
/// two shared-memory regions, and the library path.
pub open spec fn base_env(branches_id: Seq<char>, conds_id: Seq<char>, ld_library: Seq<char>) -> Seq<
    (Seq<char>, Seq<char>),
> {
    seq![
        (ASAN_OPTIONS_VAR@, ASAN_OPTIONS_CONTENT@),
        (MSAN_OPTIONS_VAR@, MSAN_OPTIONS_CONTENT@),
        (BRANCHES_SHM_ENV_VAR@, branches_id),
        (COND_STMT_ENV_VAR@, conds_id),
        (LD_LIBRARY_PATH_VAR@, ld_library),
    ]
}

/// A list of variables as a sequence of pairs of texts.
pub open spec fn env_view(env: Seq<(String, String)>) -> Seq<(Seq<char>, Seq<char>)> {
    env.map_values(|p: (String, String)| (p.0@, p.1@))
}

/// The environment of the target; see [`base_env`].
pub fn target_env(branches_id: &str, conds_id: &str, ld_library: &str) -> (r: Vec<(String, String)>)
    ensures
        env_view(r@) == base_env(branches_id@, conds_id@, ld_library@),
{
    let mut env: Vec<(String, String)> = Vec::new();
    env.push((String::from_str(ASAN_OPTIONS_VAR), String::from_str(ASAN_OPTIONS_CONTENT)));
    env.push((String::from_str(MSAN_OPTIONS_VAR), String::from_str(MSAN_OPTIONS_CONTENT)));
    env.push((String::from_str(BRANCHES_SHM_ENV_VAR), String::from_str(branches_id)));
    env.push((String::from_str(COND_STMT_ENV_VAR), String::from_str(conds_id)));
    env.push((String::from_str(LD_LIBRARY_PATH_VAR), String::from_str(ld_library)));
    assert(env_view(env@) =~= base_env(branches_id@, conds_id@, ld_library@));
    env
}

/// The view of a list with one more variable is the view of the list with
/// one more pair.
proof fn lemma_env_push(env: Seq<(String, String)>, p: (String, String))
    ensures
        env_view(env.push(p)) == env_view(env).push((p.0@, p.1@)),
{
    assert(env_view(env.push(p)) =~= env_view(env).push((p.0@, p.1@)));
}

/// The environment with one more variable.
fn with_var(env: &Vec<(String, String)>, name: &str, value: &str) -> (r: Vec<(String, String)>)
    ensures
        env_view(r@) == env_view(env@).push((name@, value@)),
{
    let mut out: Vec<(String, String)> = Vec::new();
    let mut i: usize = 0;
    while i < env.len()
        invariant
            i <= env.len(),
            env_view(out@) == env_view(env@).take(i as int),
        decreases env.len() - i,
    {
        let pair = (env[i].0.clone(), env[i].1.clone());
        proof {
            lemma_env_push(out@, pair);
        }
        out.push(pair);
        assert(env_view(out@) =~= env_view(env@).take(i + 1));
        i += 1;
    }
    assert(env_view(env@).take(i as int) =~= env_view(env@));
    let last = (String::from_str(name), String::from_str(value));
    proof {
        lemma_env_push(out@, last);
    }
    out.push(last);
    out
}

/// The environment of a target that is to serve as fork server on the
/// socket at `socket_path`: that of the target, and then the switch and the path.
pub fn forksrv_env(env: &Vec<(String, String)>, socket_path: &str) -> (r: Vec<(String, String)>)
    ensures
        env_view(r@) == env_view(env@).push((ENABLE_FORKSRV@, "TRUE"@)).push(
            (FORKSRV_SOCKET_PATH_VAR@, socket_path@),
        ),
{
    let switched = with_var(env, ENABLE_FORKSRV, "TRUE");
    with_var(&switched, FORKSRV_SOCKET_PATH_VAR, socket_path)
}

/// The environment of a tracking run that writes to `track_path`.
pub fn track_env(env: &Vec<(String, String)>, track_path: &str) -> (r: Vec<(String, String)>)
    ensures
        env_view(r@) == env_view(env@).push((TRACK_OUTPUT_VAR@, track_path@)),
{
    with_var(env, TRACK_OUTPUT_VAR, track_path)
}

/// The state of an executor between runs.
pub struct Executor {
    cmd: CommandOpt,
    tmout_cnt: usize,
    invariable_cnt: usize,
    last_f: u64,
    has_new_path: bool,
    is_directed: bool,
    local_stats: LocalStats,
}

/// The state of an executor as a mathematical value.
pub struct ExecutorView {
    pub cmd: CommandOptView,
    /// Time-outs in a row.
    pub tmout_cnt: usize,
    /// Runs in a row whose distance output was that of the run before.
    pub invariable_cnt: usize,
    /// Distance output of the last run.
    pub last_f: u64,
    /// Whether the last run found a new path.
    pub has_new_path: bool,
    pub is_directed: bool,
    pub local_stats: LocalStats,
}

impl View for Executor {
    type V = ExecutorView;

    closed spec fn view(&self) -> ExecutorView {
        ExecutorView {
            cmd: self.cmd@,
            tmout_cnt: self.tmout_cnt,
            invariable_cnt: self.invariable_cnt,
            last_f: self.last_f,
            has_new_path: self.has_new_path,
            is_directed: self.is_directed,
            local_stats: self.local_stats,
        }
    }
}

/// An input that found a new path and was given an id.
#[derive(Clone, Copy, Debug, PartialEq, Eq, Structural)]
pub struct NewInput {
    /// The id of the input in its bucket.
    pub id: usize,
    /// The bucket the input is filed in.
    pub bucket: Option<Bucket>,
    /// Whether the input goes on to be timed and tracked: only inputs that
    /// ran normally do.
    pub track: bool,
}

/// What the executor's owner has to do after a run was settled.
#[derive(Clone, Copy, Debug, PartialEq, Eq, Structural)]
pub struct Settled {
    /// The status the run is accounted as.
    pub status: StatusType,
    /// Whether the fork server is to be bound anew.
    pub rebind: bool,
}

impl ExecutorView {
    /// The pseudo-condition that is queued for a tracked input of this id,
    /// speed and number of edges, if havoc is enabled.
    pub open spec fn afl(self, input: (usize, u32, usize)) -> Option<CondStmtView> {
        if self.cmd.enable_afl {
            Some(afl_cond(input.0, input.1, input.2))
        } else {
            None
        }
    }

    /// A condition after the check for inconsistency: it is marked
    /// inconsistent if it was not reached in the very first run of a
    /// condition that is solved for the first time and still in its initial state.
    pub open spec fn consistency_checked(self, output: u64, cond: CondStmtView) -> CondStmtView {
        if output == UNREACHABLE && cond.fuzz_times == 1 && self.local_stats.num_exec == 1
            && cond.state == CondState::Initial {
            CondStmtView { is_consistent: false, ..cond }
        } else {
            cond
        }
    }

    /// The count of unchanged outputs after a run with this output.
    pub open spec fn next_invariable_cnt(self, output: u64) -> usize {
        if output != self.last_f {
            0
        } else if self.invariable_cnt == usize::MAX {
            usize::MAX
        } else {
            (self.invariable_cnt + 1) as usize
        }
    }

    /// Whether a run with this output shows the output to be invariable.
    pub open spec fn invariable(self, output: u64) -> bool {
        output == self.last_f && self.next_invariable_cnt(output) >= MAX_INVARIABLE_NUM
    }

    /// Whether a run with this output was one too many of the same: the
    /// output is invariable, and the condition is not in a state in which it
    /// is worked through regardless.
    pub open spec fn skips_invariable(self, output: u64, cond: CondStmtView) -> bool {
        self.invariable(output) && cond.state != CondState::Deterministic && cond.state
            != CondState::OneByte
    }

    /// Whether a run with this output solved the condition.
    pub open spec fn explores(output: u64, cond: CondStmtView) -> bool {
        output == 0 && !cond.is_done()
    }

    /// The condition after a run with this output was judged: done if the
    /// run solved it, no longer desirable if the output is invariable, and
    /// marked inconsistent if need be.
    pub open spec fn judged_cond(self, output: u64, cond: CondStmtView) -> CondStmtView {
        let explored = if Self::explores(output, cond) {
            CondStmtView { state: CondState::Done, ..cond }
        } else {
            cond
        };
        let weighed = if self.invariable(output) {
            CondStmtView { is_desirable: false, ..explored }
        } else {
            explored
        };
        self.consistency_checked(output, weighed)
    }

    /// The executor after a run with this output was judged.
    pub open spec fn judged(self, output: u64) -> ExecutorView {
        ExecutorView { invariable_cnt: self.next_invariable_cnt(output), last_f: output, ..self }
    }

    /// The status with a failure of the channel taken as a time-out.
    pub open spec fn promoted(status: StatusType) -> StatusType {
        if status == StatusType::Error {
            StatusType::Timeout
        } else {
            status
        }
    }

    /// Whether a run of this status is the time-out that gives the condition up.
    pub open spec fn gives_up(self, status: StatusType) -> bool {
        Self::promoted(status) == StatusType::Timeout && self.tmout_cnt + 1 >= TMOUT_SKIP
    }

    /// The count of time-outs in a row after a run of this status.
    pub open spec fn next_tmout_cnt(self, status: StatusType) -> usize {
        if Self::promoted(status) == StatusType::Timeout && !self.gives_up(status) {
            (self.tmout_cnt + 1) as usize
        } else {
            0
        }
    }

    /// What the owner has to do after a run of this status.
    pub open spec fn settled(self, status: StatusType) -> Settled {
        Settled {
            status: if self.gives_up(status) {
                StatusType::Skip
            } else {
                Self::promoted(status)
            },
            rebind: status == StatusType::Error,
        }
    }
}

/// The condition after a run with it installed was judged and settled.
pub open spec fn cond_after_run(e: ExecutorView, status: StatusType, output: u64, cond: CondStmtView) -> CondStmtView {
    let judged = e.judged_cond(output, cond);
    if e.judged(output).gives_up(status) {
        judged.timed_out()
    } else {
        judged
    }
}

/// A condition that a run solved is done after the run, also where the
/// same run is the time-out that gives the condition up; and a condition
/// that was done before the run is done after it.
pub proof fn lemma_explored_is_done(e: ExecutorView, status: StatusType, output: u64, cond: CondStmtView)
    ensures
        ExecutorView::explores(output, cond) ==> cond_after_run(e, status, output, cond).is_done(),
        cond.is_done() ==> cond_after_run(e, status, output, cond).is_done(),
{
}

/// The executor after `n` runs in a row were judged, each with output `output`.
pub open spec fn judged_times(e: ExecutorView, output: u64, n: nat) -> ExecutorView
    decreases n,
{
    if n == 0 {
        e
    } else {
        judged_times(e, output, (n - 1) as nat).judged(output)
    }
}

/// The executor after `n` runs in a row, each of status `status`, were settled.
pub open spec fn settled_times(e: ExecutorView, status: StatusType, n: nat) -> ExecutorView
    decreases n,
{
    if n == 0 {
        e
    } else {
        let before = settled_times(e, status, (n - 1) as nat);
        ExecutorView { tmout_cnt: before.next_tmout_cnt(status), ..before }
    }
}

/// An output that stays the same is found out: after [`MAX_INVARIABLE_NUM`]
/// runs in a row that gave the same output, every further run with that
/// output is flagged as invariable, which makes the condition undesirable
/// and, outside the deterministic and one-byte states, skips the run.
pub proof fn lemma_invariable_output_is_flagged(e: ExecutorView, output: u64, n: nat)
    requires
        n >= MAX_INVARIABLE_NUM,
    ensures
        judged_times(e, output, n).invariable(output),
        forall|cond: CondStmtView|
            !(#[trigger] judged_times(e, output, n).judged_cond(output, cond)).is_desirable,
        forall|cond: CondStmtView|
            cond.state != CondState::Deterministic && cond.state != CondState::OneByte
                ==> #[trigger] judged_times(e, output, n).skips_invariable(output, cond),
{
    lemma_unchanged_outputs_are_counted(e, output, n);
}

/// After `n` runs with the same output, `n` being at least one, that
/// output is the last one and at least `n - 1` runs in a row are counted.
proof fn lemma_unchanged_outputs_are_counted(e: ExecutorView, output: u64, n: nat)
    requires
        n >= 1,
    ensures
        judged_times(e, output, n).last_f == output,
        judged_times(e, output, n).invariable_cnt >= n - 1 || judged_times(
            e,
            output,
            n,
        ).invariable_cnt == usize::MAX,
    decreases n,
{
    if n > 1 {
        lemma_unchanged_outputs_are_counted(e, output, (n - 1) as nat);
    }
}

/// Time-outs in a row give a condition up: of [`TMOUT_SKIP`] runs that all
/// time out, or fail, after a run that did neither, the last one is skipped.
pub proof fn lemma_timeouts_in_a_row_give_up(e: ExecutorView, status: StatusType)
    requires
        e.tmout_cnt == 0,
        status == StatusType::Timeout || status == StatusType::Error,
    ensures
        settled_times(e, status, (TMOUT_SKIP - 1) as nat).gives_up(status),
        settled_times(e, status, (TMOUT_SKIP - 1) as nat).settled(status).status == StatusType::Skip,
        settled_times(e, status, TMOUT_SKIP as nat).tmout_cnt == 0,
{
    lemma_timeouts_are_counted(e, status, (TMOUT_SKIP - 1) as nat);
    assert(settled_times(e, status, TMOUT_SKIP as nat) == (ExecutorView {
        tmout_cnt: settled_times(e, status, (TMOUT_SKIP - 1) as nat).next_tmout_cnt(status),
        ..settled_times(e, status, (TMOUT_SKIP - 1) as nat)
    }));
}

/// Fewer than [`TMOUT_SKIP`] time-outs in a row are all counted.
proof fn lemma_timeouts_are_counted(e: ExecutorView, status: StatusType, n: nat)
    requires
        e.tmout_cnt == 0,
        status == StatusType::Timeout || status == StatusType::Error,
        n < TMOUT_SKIP,
    ensures
        settled_times(e, status, n).tmout_cnt == n,
    decreases n,
{
    if n > 0 {
        lemma_timeouts_are_counted(e, status, (n - 1) as nat);
    }
}

impl Executor {
    /// An executor that has run nothing yet.
    pub fn new(cmd: CommandOpt) -> (r: Self)
        ensures
            r@ == (ExecutorView {
                cmd: cmd@,
                tmout_cnt: 0,
                invariable_cnt: 0,
                last_f: UNREACHABLE,
                has_new_path: false,
                is_directed: cmd@.directed_only,
                local_stats: LocalStats::zero(),
            }),
    {
        let is_directed = cmd.directed_only;
        Executor {
            cmd,
            tmout_cnt: 0,
            invariable_cnt: 0,
            last_f: UNREACHABLE,
            has_new_path: false,
            is_directed,
            local_stats: LocalStats::new(),
        }
    }

    /// The command profile.
    pub fn cmd(&self) -> (r: &CommandOpt)
        ensures
            r@ == self@.cmd,
    {
        &self.cmd
    }

    pub fn last_f(&self) -> (r: u64)
        ensures
            r == self@.last_f,
    {
        self.last_f
    }

    pub fn has_new_path(&self) -> (r: bool)
        ensures
            r == self@.has_new_path,
    {
        self.has_new_path
    }

    pub fn is_directed(&self) -> (r: bool)
        ensures
            r == self@.is_directed,
    {
        self.is_directed
    }

    pub fn local_stats(&self) -> (r: LocalStats)
        ensures
            r == self@.local_stats,
    {
        self.local_stats
    }

    pub fn set_directed(&mut self, b: bool)
        ensures
            final(self)@ == (ExecutorView { is_directed: b, ..old(self)@ }),
    {
        self.is_directed = b;
    }

    /// Begins a run: no new path is found yet, and the run is counted.
    pub fn run_init(&mut self)
        ensures
            final(self)@ == (ExecutorView {
                has_new_path: false,
                local_stats: old(self)@.local_stats.ran(),
                ..old(self)@
            }),
    {
        self.has_new_path = false;
        self.local_stats.count_exec();
    }

    /// Marks a condition as inconsistent if the fast binary did not reach
    /// it in the first run of all; see [`ExecutorView::consistency_checked`].
    pub fn check_consistent(&self, output: u64, cond: &mut CondStmt)
        ensures
            final(cond)@ == self@.consistency_checked(output, old(cond)@),
    {
        if output == UNREACHABLE && cond.is_first_time() && self.local_stats.num_exec == 1
            && cond.state.is_initial() {
            cond.is_consistent = false;
        }
    }

    /// Counts runs in a row with the same output. Once there are too many
    /// the condition is no longer desirable. Returns whether the run is to be
    /// skipped; see [`ExecutorView::skips_invariable`].
    pub fn check_invariable(&mut self, output: u64, cond: &mut CondStmt) -> (skip: bool)
        ensures
            final(self)@ == old(self)@.judged(output),
            skip == old(self)@.skips_invariable(output, old(cond)@),
            final(cond)@ == if old(self)@.invariable(output) {
                CondStmtView { is_desirable: false, ..old(cond)@ }
            } else {
                old(cond)@
            },
    {
        let mut skip = false;
        if output == self.last_f {
            if self.invariable_cnt < usize::MAX {
                self.invariable_cnt += 1;
            }
            if self.invariable_cnt >= MAX_INVARIABLE_NUM {
                if cond.is_desirable {
                    cond.is_desirable = false;
                }
                if !cond.state.is_det() && !cond.state.is_one_byte() {
                    skip = true;
                }
            }
        } else {
            self.invariable_cnt = 0;
        }
        self.last_f = output;
        skip
    }

    /// Marks a condition as done if the run satisfied it. Returns whether
    /// it did, in which case `explored` is set and the run is to be skipped.
    pub fn check_explored(
        &self,
        cond: &mut CondStmt,
        _status: StatusType,
        output: u64,
        explored: &mut bool,
    ) -> (skip: bool)
        ensures
            skip == ExecutorView::explores(output, old(cond)@),
            *final(explored) == (*old(explored) || skip),
            final(cond)@ == if skip {
                CondStmtView { state: CondState::Done, ..old(cond)@ }
            } else {
                old(cond)@
            },
    {
        let mut skip = false;
        if output == 0 && !cond.is_done() {
            skip = true;
            *explored = true;
            cond.mark_as_done();
        }
        skip
    }

    /// Judges a run with a condition installed, by the distance output the
    /// target reported: whether the run solved the condition, whether the
    /// output has stopped changing, and whether the two binaries agree.
    /// Returns whether the run is to be skipped and whether it solved the condition.
    pub fn judge(&mut self, status: StatusType, output: u64, cond: &mut CondStmt) -> (r: (
        bool,
        bool,
    ))
        ensures
            final(self)@ == old(self)@.judged(output),
            final(cond)@ == old(self)@.judged_cond(output, old(cond)@),
            r.1 == ExecutorView::explores(output, old(cond)@),
            r.0 == (r.1 || old(self)@.skips_invariable(output, old(cond)@)),
    {
        let mut explored = false;
        let solved = self.check_explored(cond, status, output, &mut explored);
        let stuck = self.check_invariable(output, cond);
        self.check_consistent(output, cond);
        (solved || stuck, explored)
    }

    /// Accounts for time-outs. A failure of the channel counts as a
    /// time-out and asks for the fork server to be bound anew. After
    /// [`TMOUT_SKIP`] time-outs in a row the condition is given up and the
    /// run is skipped; any other status ends the row.
    pub fn check_timeout(&mut self, status: StatusType, cond: &mut CondStmt) -> (r: Settled)
        ensures
            r == old(self)@.settled(status),
            final(self)@ == (ExecutorView {
                tmout_cnt: old(self)@.next_tmout_cnt(status),
                ..old(self)@
            }),
            final(cond)@ == if old(self)@.gives_up(status) {
                old(cond)@.timed_out()
            } else {
                old(cond)@
            },
    {
        let rebind = matches!(status, StatusType::Error);
        let mut ret_status = status;
        if rebind {
            ret_status = StatusType::Timeout;
        }
        if matches!(ret_status, StatusType::Timeout) {
            if self.tmout_cnt < usize::MAX {
                self.tmout_cnt = self.tmout_cnt + 1;
            }
            if self.tmout_cnt >= TMOUT_SKIP {
                cond.to_timeout();
                ret_status = StatusType::Skip;
                self.tmout_cnt = 0;
            }
        } else {
            self.tmout_cnt = 0;
        }
        Settled { status: ret_status, rebind }
    }

    /// Ends a run with a condition installed: time-outs are accounted for
    /// as in [`Executor::check_timeout`], and a run that is to be skipped counts as `Skip`.
    pub fn settle(&mut self, status: StatusType, skip: bool, cond: &mut CondStmt) -> (r: Settled)
        ensures
            r == (Settled {
                status: if skip {
                    StatusType::Skip
                } else {
                    old(self)@.settled(status).status
                },
                rebind: old(self)@.settled(status).rebind,
            }),
            final(self)@ == (ExecutorView {
                tmout_cnt: old(self)@.next_tmout_cnt(status),
                ..old(self)@
            }),
            final(cond)@ == if old(self)@.gives_up(status) {
                old(cond)@.timed_out()
            } else {
                old(cond)@
            },
    {
        let settled = self.check_timeout(status, cond);
        if skip {
            Settled { status: StatusType::Skip, rebind: settled.rebind }
        } else {
            settled
        }
    }

    /// Takes note of what a run covered. If it found a new path, the find
    /// is counted and the input gets the next id of its bucket; the caller
    /// writes the file and, if the run was normal, goes on to time and track
    /// the input.
    pub fn note_new_path(&mut self, depot: &mut Depot, status: StatusType, has_new_path: bool) -> (r:
        Option<NewInput>)
        requires
            old(depot).wf(),
        ensures
            final(depot).wf(),
            r == if has_new_path {
                Some(
                    NewInput {
                        id: old(depot)@.save_id(status),
                        bucket: bucket_of(status),
                        track: status == StatusType::Normal,
                    },
                )
            } else {
                None
            },
            final(depot)@ == if has_new_path {
                old(depot)@.saved(status)
            } else {
                old(depot)@
            },
            final(self)@ == if has_new_path {
                ExecutorView {
                    has_new_path: true,
                    local_stats: old(self)@.local_stats.found(status),
                    ..old(self)@
                }
            } else {
                old(self)@
            },
    {
        if !has_new_path {
            return None;
        }
        self.has_new_path = true;
        self.local_stats.find_new(&status);
        let (id, bucket) = depot.save(status);
        Some(NewInput { id, bucket, track: matches!(status, StatusType::Normal) })
    }

    /// Judges the run that repeats a new input without a memory limit. If
    /// it does not end normally, tracking is skipped, and the input is saved
    /// as a hang or a crash if it found a new path as such. Returns whether
    /// tracking is skipped and, if the input was saved, its id and bucket.
    pub fn try_unlimited_memory(
        &self,
        depot: &mut Depot,
        unmem_status: StatusType,
        has_new_path: bool,
    ) -> (r: (bool, Option<(usize, Option<Bucket>)>))
        requires
            old(depot).wf(),
        ensures
            final(depot).wf(),
            r.0 == (unmem_status != StatusType::Normal),
            r.1 == if r.0 && has_new_path {
                Some((old(depot)@.save_id(unmem_status), bucket_of(unmem_status)))
            } else {
                None
            },
            final(depot)@ == if r.0 && has_new_path {
                old(depot)@.saved(unmem_status)
            } else {
                old(depot)@
            },
    {
        if matches!(unmem_status, StatusType::Normal) {
            return (false, None);
        }
        if has_new_path {
            (true, Some(depot.save(unmem_status)))
        } else {
            (true, None)
        }
    }

    /// Counts, for a tracked run that met `cond_list`, every pair of
    /// functions that were both met; see [`recorded`].
    pub fn get_func_and_record(&self, func_rel_map: &mut Vec<Vec<usize>>, cond_list: &Vec<CondStmt>)
        ensures
            cells(final(func_rel_map)@) == recorded(cells(old(func_rel_map)@), views(cond_list@)),
    {
        record_functions(func_rel_map, cond_list);
    }

    /// Takes in a tracking run on `buf`, which ended in `track_status` and
    /// yielded `cond_list`. `input` is the id of the saved input, its speed
    /// and the number of edges it covers.
    ///
    /// A run that did not end normally changes nothing. Otherwise the time
    /// it took is counted, the graph learns its edges, and if it yielded any
    /// condition the functions met are recorded and the conditions queued;
    /// see [`depot_after_track`].
    pub fn absorb_track(
        &mut self,
        depot: &mut Depot,
        track_status: StatusType,
        cond_list: Vec<CondStmt>,
        buf: &Vec<u8>,
        origin: (u32, u32),
        input: (usize, u32, usize),
        track_micros: u64,
        func_rel_map: &mut Vec<Vec<usize>>,
        branch_cov: &mut Vec<(u32, u32, u32, u32)>,
    )
        requires
            old(depot).wf(),
        ensures
            final(depot).wf(),
            final(depot)@ == depot_after_track(
                old(depot)@,
                track_status,
                views(cond_list@),
                buf@,
                old(self)@.afl(input),
            ),
            final(branch_cov)@ == old(branch_cov)@ + rows_after_track(
                old(depot)@,
                track_status,
                views(cond_list@),
                buf@,
                old(self)@.afl(input),
                origin,
            ),
            cells(final(func_rel_map)@) == if track_status == StatusType::Normal {
                recorded(
                    cells(old(func_rel_map)@),
                    tracked_conds(old(depot)@.cfg, views(cond_list@), buf@),
                )
            } else {
                cells(old(func_rel_map)@)
            },
            final(self)@ == if track_status == StatusType::Normal {
                ExecutorView {
                    local_stats: LocalStats {
                        track_time: crate::stats::capped_sum(
                            old(self)@.local_stats.track_time,
                            track_micros,
                        ),
                        ..old(self)@.local_stats
                    },
                    ..old(self)@
                }
            } else {
                old(self)@
            },
    {
        if !matches!(track_status, StatusType::Normal) {
            assert(branch_cov@ + Seq::<(u32, u32, u32, u32)>::empty() =~= branch_cov@);
            return ;
        }
        let ghost before = depot@;
        let ghost rows = branch_cov@;
        let ghost list = tracked_conds(before.cfg, views(cond_list@), buf@);
        let conds = annotate(depot.cfg_mut(), cond_list, buf);
        self.local_stats.add_track_time(track_micros);
        if conds.len() > 0 {
            self.get_func_and_record(func_rel_map, &conds);
            depot.add_entries(conds, origin, branch_cov);
            if self.cmd.enable_afl {
                let ghost queued = depot@;
                let mut one: Vec<CondStmt> = Vec::new();
                one.push(CondStmt::get_afl_cond(input.0, input.1, input.2));
                proof {
                    let c = afl_cond(input.0, input.1, input.2);
                    assert(views(one@) =~= seq![c]);
                    assert(seq![c].drop_last() =~= Seq::<CondStmtView>::empty());
                    assert(queued.added_all(seq![c]) == queued.added(c)) by {
                        assert(queued.added_all(seq![c].drop_last()) == queued);
                    }
                }
                depot.add_entries(one, origin, branch_cov);
                proof {
                    assert(branch_cov@ =~= rows + rows_after_track(
                        before,
                        track_status,
                        views(cond_list@),
                        buf@,
                        self@.afl(input),
                        origin,
                    ));
                }
            }
        } else {
            proof {
                assert(branch_cov@ + Seq::<(u32, u32, u32, u32)>::empty() =~= branch_cov@);
                assert(views(conds@) =~= Seq::<CondStmtView>::empty());
                crate::func_rel::lemma_nothing_met(cells(func_rel_map@));
            }
        }
    }

    /// Starts a new round of logging: the worker's counters are drained
    /// into the global ones, and the counts of time-outs and of unchanged
    /// outputs start again.
    pub fn update_log(&mut self, global_stats: &mut ChartStats)
        ensures
            final(global_stats).totals == old(global_stats).totals.plus(old(self)@.local_stats),
            final(self)@ == (ExecutorView {
                tmout_cnt: 0,
                invariable_cnt: 0,
                last_f: UNREACHABLE,
                local_stats: LocalStats::zero(),
                ..old(self)@
            }),
    {
        global_stats.sync_from_local(&mut self.local_stats);
        self.tmout_cnt = 0;
        self.invariable_cnt = 0;
        self.last_f = UNREACHABLE;
    }
}

} // verus!
