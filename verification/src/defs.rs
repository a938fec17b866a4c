//! Constants shared by the fuzzer and the instrumented target.

use vstd::prelude::*;

verus! {

/// Distance output of a condition that was not reached in a run.
pub const UNREACHABLE: u64 = 0xffff_ffff_ffff_ffff;

/// Exit code by which a sanitiser-instrumented target reports an error.
pub const MSAN_ERROR_CODE: i32 = 86;

/// Speed, in microseconds per run, assigned to inputs that are too slow to measure.
pub const SLOW_SPEED: u32 = 888888;

/// Largest operator code of an exploration condition.
pub const COND_MAX_EXPLORE_OP: u32 = 0x3fff;

/// Largest operator code of an exploitation condition.
pub const COND_MAX_EXPLOIT_OP: u32 = 0x4fff;

/// Operator code of the pseudo-condition that stands for AFL-style havoc on an input.
pub const COND_AFL_OP: u32 = 0x8001;

/// Operator code of a switch statement.
pub const COND_SW_OP: u32 = 0x00ff;

/// Number of consecutive runs with the same distance output after which a
/// condition is taken to be invariable.
pub const MAX_INVARIABLE_NUM: usize = 16;

/// Number of consecutive timeouts after which a condition is given up.
pub const TMOUT_SKIP: usize = 3;

/// Whether a faster observation of a queued condition replaces the stored one.
pub const PREFER_FAST_COND: bool = true;

/// Memory limit of tracking runs (0: unlimited).
pub const MEM_LIMIT_TRACK: u64 = 0;

/// Time limit of tracking runs, in seconds.
pub const TIME_LIMIT_TRACK: u64 = 12;

/// Environment variable that switches the target's fork server on.
pub const ENABLE_FORKSRV: &'static str = "ANGORA_ENABLE_FORKSRV";

/// Environment variable that carries the fork server's socket path.
pub const FORKSRV_SOCKET_PATH_VAR: &'static str = "ANGORA_FORKSRV_SOCKET_PATH";

/// Environment variable that carries the id of the branch bitmap region.
pub const BRANCHES_SHM_ENV_VAR: &'static str = "ANGORA_BRANCHES_SHM_ID";

/// Environment variable that carries the id of the condition slot region.
pub const COND_STMT_ENV_VAR: &'static str = "ANGORA_COND_STMT_SHM_ID";

/// Environment variable that names the file a tracking run writes to.
pub const TRACK_OUTPUT_VAR: &'static str = "ANGORA_TRACK_OUTPUT";

/// Environment variable by which the dynamic loader finds the runtime library.
pub const LD_LIBRARY_PATH_VAR: &'static str = "LD_LIBRARY_PATH";

/// Environment variable that configures the address sanitiser.
pub const ASAN_OPTIONS_VAR: &'static str = "ASAN_OPTIONS";

/// Options under which an address-sanitised target runs.
pub const ASAN_OPTIONS_CONTENT: &'static str =
    "abort_on_error=1:detect_leaks=0:symbolize=0:allocator_may_return_null=1";

/// Environment variable that configures the memory sanitiser.
pub const MSAN_OPTIONS_VAR: &'static str = "MSAN_OPTIONS";

/// Options under which a memory-sanitised target runs.
pub const MSAN_OPTIONS_CONTENT: &'static str =
    "exit_code=86:symbolize=0:abort_on_error=1:allocator_may_return_null=1:msan_track_origins=0";

/// The line that heads the branch-coverage ledger.
pub const BRANCH_COV_HEADER: &'static str = "target cmpid, func, covered cmpid, func";

} // verus!
