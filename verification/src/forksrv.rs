//! Parent side of the fork-server protocol.
//!
//! One exchange is: the parent writes a four-byte request marker, the child
//! answers with the pid of the grandchild it spawned and then with that
//! grandchild's wait status, each as a little-endian `i32` in a frame of four
//! bytes. The socket itself belongs to the caller; this module decides, from
//! what the socket gave, what to do next and how the run ended.

use crate::defs::MSAN_ERROR_CODE;
use crate::status::StatusType;
use byteorder::LittleEndian;
use byteorder::ReadBytesExt;
use vstd::prelude::*;

verus! {

/// Length in bytes of each of the two frames the child answers with.
pub const FRAME_LEN: usize = 4;

/// The number a little-endian frame of four bytes stands for.
pub open spec fn le_i32(b: Seq<u8>) -> int
    recommends
        b.len() >= 4,
{
    let u = b[0] as int + 256 * (b[1] as int) + 65536 * (b[2] as int) + 16777216 * (b[3] as int);
    if u >= 0x8000_0000 {
        u - 0x1_0000_0000
    } else {
        u
    }
}

/// Exit code held in a wait status: its second byte.
pub open spec fn wait_exit_code(status: i32) -> i32 {
    (status >> 8) & 0xff
}

/// Whether a wait status says that the process was ended by a signal: the
/// low seven bits hold a signal number, and are neither all clear (exited)
/// nor all set (stopped).
pub open spec fn wait_signaled(status: i32) -> bool {
    (((status & 0x7f) + 1) as i8) >= 2
}

/// A wait status says that a signal ended the process exactly when its low
/// seven bits are neither all clear nor all set.
pub proof fn lemma_wait_signaled(status: i32)
    ensures
        wait_signaled(status) == ((status & 0x7f) != 0 && (status & 0x7f) != 0x7f),
{
    assert((((status & 0x7f) + 1) as i8 >= 2) == ((status & 0x7f) != 0 && (status & 0x7f) != 0x7f))
        by (bit_vector);
}

/// The exit code held in a wait status lies between 0 and 255.
pub proof fn lemma_wait_exit_code(status: i32)
    ensures
        0 <= wait_exit_code(status) <= 255,
{
    assert(0 <= ((status >> 8) & 0xff) <= 255) by (bit_vector);
}

/// How a run that reported this wait status is classified.
pub open spec fn status_of_wait(status: i32, uses_asan: bool) -> StatusType {
    if wait_signaled(status) || (uses_asan && wait_exit_code(status) == MSAN_ERROR_CODE) {
        StatusType::Crash
    } else {
        StatusType::Normal
    }
}

/// `byteorder::ReadBytesExt::read_i32::<LittleEndian>` on a byte slice.
///
/// Trusted: the call fails exactly when fewer than four bytes are left, and
/// otherwise gives the first four bytes read as a little-endian `i32`.
#[verifier::external_body]
fn read_i32_le(buf: &[u8]) -> (r: Option<i32>)
    ensures
        r.is_some() <==> buf@.len() >= 4,
        r matches Some(v) ==> v as int == le_i32(buf@),
{
    let mut rdr = buf;
    rdr.read_i32::<LittleEndian>().ok()
}

/// `libc::WEXITSTATUS`.
///
/// Trusted: on Linux the macro is `(status >> 8) & 0xff`.
#[verifier::external_body]
fn wexitstatus(status: i32) -> (r: i32)
    ensures
        r == wait_exit_code(status),
{
    libc::WEXITSTATUS(status)
}

/// `libc::WIFSIGNALED`.
///
/// Trusted: on Linux the macro is `((status & 0x7f) + 1) as i8 >= 2`.
#[verifier::external_body]
fn wifsignaled(status: i32) -> (r: bool)
    ensures
        r == wait_signaled(status),
{
    libc::WIFSIGNALED(status)
}

/// The marker that asks the fork server for a new child.
pub fn request_marker() -> (m: [u8; 4])
    ensures
        m@ == seq![8u8, 8u8, 8u8, 8u8],
{
    [8, 8, 8, 8]
}

/// The sentinel that tells the fork server to exit.
pub fn shutdown_sentinel() -> (m: [u8; 2])
    ensures
        m@ == seq![0u8, 0u8],
{
    [0, 0]
}

/// Decodes a frame: a buffer of exactly four bytes holding a little-endian `i32`.
pub fn decode_frame(buf: &[u8]) -> (r: Option<i32>)
    ensures
        r.is_some() <==> buf@.len() == FRAME_LEN,
        r matches Some(v) ==> v as int == le_i32(buf@),
{
    if buf.len() != FRAME_LEN {
        return None;
    }
    read_i32_le(buf)
}

/// Classifies a wait status reported by the fork server.
pub fn classify_wait_status(status: i32, uses_asan: bool) -> (r: StatusType)
    ensures
        r == status_of_wait(status, uses_asan),
{
    let exit_code = wexitstatus(status);
    let signaled = wifsignaled(status);
    if signaled || (uses_asan && exit_code == MSAN_ERROR_CODE) {
        StatusType::Crash
    } else {
        StatusType::Normal
    }
}

/// Where an exchange with the fork server stands.
#[derive(Clone, Copy, Debug, PartialEq, Eq, Structural)]
pub enum ForkPhase {
    /// No request is under way.
    Idle,
    /// The request marker was handed out for writing.
    Requesting,
    /// The marker is written; the pid frame is awaited.
    AwaitPid,
    /// The child `pid` runs; its status frame is awaited.
    AwaitStatus { pid: i32 },
    /// The status frame timed out; `pid` is being killed and the socket drained.
    Draining { pid: i32 },
    /// The exchange ended in `status`, having read `bytes_read` bytes of answer.
    Finished { status: StatusType, bytes_read: usize },
}

/// What the socket gave in answer to the last action.
#[derive(Debug)]
pub enum ForkEvent {
    /// A run is asked for.
    Start,
    /// The request marker was written.
    Written,
    /// Writing the request marker failed.
    WriteFailed,
    /// A read returned these bytes.
    Frame(Vec<u8>),
    /// A read failed or timed out.
    ReadFailed,
    /// The timed-out child was killed and the socket drained.
    Drained,
}

/// What the owner of the socket has to do next.
#[derive(Clone, Copy, Debug, PartialEq, Eq, Structural)]
pub enum ForkAction {
    /// Write the request marker.
    WriteRequest,
    /// Read one frame of four bytes.
    ReadFrame,
    /// Send SIGKILL to `pid`, then read until a read succeeds.
    KillAndDrain { pid: i32 },
    /// The exchange is over; this is the run's status.
    Done { status: StatusType },
}

/// Spec-level image of a [`ForkEvent`], with frames as byte sequences.
pub enum ForkEventView {
    Start,
    Written,
    WriteFailed,
    Frame(Seq<u8>),
    ReadFailed,
    Drained,
}

impl View for ForkEvent {
    type V = ForkEventView;

    open spec fn view(&self) -> ForkEventView {
        match self {
            ForkEvent::Start => ForkEventView::Start,
            ForkEvent::Written => ForkEventView::Written,
            ForkEvent::WriteFailed => ForkEventView::WriteFailed,
            ForkEvent::Frame(b) => ForkEventView::Frame(b@),
            ForkEvent::ReadFailed => ForkEventView::ReadFailed,
            ForkEvent::Drained => ForkEventView::Drained,
        }
    }
}

/// The exchange ended by a failure of the channel, after `bytes_read` bytes.
pub open spec fn failed(bytes_read: usize) -> (ForkPhase, ForkAction) {
    (
        ForkPhase::Finished { status: StatusType::Error, bytes_read },
        ForkAction::Done { status: StatusType::Error },
    )
}

/// The transition relation of the protocol: the phase and action that follow
/// `event` in `phase`.
///
/// Anything that does not belong to the phase, a frame that is not four
/// bytes long and a pid that is not positive end the exchange in `Error`; a
/// failed read of the status frame leads, through killing the child, to
/// `Timeout`.
pub open spec fn next_step(phase: ForkPhase, event: ForkEventView, uses_asan: bool) -> (
    ForkPhase,
    ForkAction,
) {
    match (phase, event) {
        (ForkPhase::Idle, ForkEventView::Start) => (ForkPhase::Requesting, ForkAction::WriteRequest),
        (ForkPhase::Requesting, ForkEventView::Written) => (ForkPhase::AwaitPid, ForkAction::ReadFrame),
        (ForkPhase::AwaitPid, ForkEventView::Frame(b)) => {
            if b.len() == FRAME_LEN && le_i32(b) > 0 {
                (ForkPhase::AwaitStatus { pid: le_i32(b) as i32 }, ForkAction::ReadFrame)
            } else if b.len() == FRAME_LEN {
                failed(FRAME_LEN)
            } else {
                failed(0)
            }
        },
        (ForkPhase::AwaitStatus { pid }, ForkEventView::Frame(b)) => {
            if b.len() == FRAME_LEN {
                let status = status_of_wait(le_i32(b) as i32, uses_asan);
                (
                    ForkPhase::Finished { status, bytes_read: 8 },
                    ForkAction::Done { status },
                )
            } else {
                failed(FRAME_LEN)
            }
        },
        (ForkPhase::AwaitStatus { pid }, ForkEventView::ReadFailed) => (
            ForkPhase::Draining { pid },
            ForkAction::KillAndDrain { pid },
        ),
        (ForkPhase::Draining { pid }, ForkEventView::Drained) => (
            ForkPhase::Finished { status: StatusType::Timeout, bytes_read: FRAME_LEN },
            ForkAction::Done { status: StatusType::Timeout },
        ),
        (ForkPhase::AwaitStatus { pid }, _) => failed(FRAME_LEN),
        (ForkPhase::Draining { pid }, _) => failed(FRAME_LEN),
        (ForkPhase::Finished { status, bytes_read }, _) => failed(bytes_read),
        _ => failed(0),
    }
}

/// Advances an exchange by one event.
pub fn step(phase: ForkPhase, event: &ForkEvent, uses_asan: bool) -> (r: (ForkPhase, ForkAction))
    ensures
        r == next_step(phase, event@, uses_asan),
{
    match phase {
        ForkPhase::Idle => match event {
            ForkEvent::Start => (ForkPhase::Requesting, ForkAction::WriteRequest),
            _ => fail(0),
        },
        ForkPhase::Requesting => match event {
            ForkEvent::Written => (ForkPhase::AwaitPid, ForkAction::ReadFrame),
            _ => fail(0),
        },
        ForkPhase::AwaitPid => match event {
            ForkEvent::Frame(b) => match decode_frame(b.as_slice()) {
                Some(pid) => {
                    if pid > 0 {
                        (ForkPhase::AwaitStatus { pid }, ForkAction::ReadFrame)
                    } else {
                        fail(FRAME_LEN)
                    }
                },
                None => fail(0),
            },
            _ => fail(0),
        },
        ForkPhase::AwaitStatus { pid } => match event {
            ForkEvent::Frame(b) => match decode_frame(b.as_slice()) {
                Some(code) => {
                    let status = classify_wait_status(code, uses_asan);
                    (ForkPhase::Finished { status, bytes_read: 8 }, ForkAction::Done { status })
                },
                None => fail(FRAME_LEN),
            },
            ForkEvent::ReadFailed => (ForkPhase::Draining { pid }, ForkAction::KillAndDrain { pid }),
            _ => fail(FRAME_LEN),
        },
        ForkPhase::Draining { pid } => match event {
            ForkEvent::Drained => (
                ForkPhase::Finished { status: StatusType::Timeout, bytes_read: FRAME_LEN },
                ForkAction::Done { status: StatusType::Timeout },
            ),
            _ => fail(FRAME_LEN),
        },
        ForkPhase::Finished { status, bytes_read } => fail(bytes_read),
    }
}

/// Ends the exchange in `Error`.
fn fail(bytes_read: usize) -> (r: (ForkPhase, ForkAction))
    ensures
        r == failed(bytes_read),
{
    (
        ForkPhase::Finished { status: StatusType::Error, bytes_read },
        ForkAction::Done { status: StatusType::Error },
    )
}

/// The phase reached from `phase` after all of `events`, in order.
pub open spec fn phase_after(phase: ForkPhase, events: Seq<ForkEventView>, uses_asan: bool) -> ForkPhase
    decreases events.len(),
{
    if events.len() == 0 {
        phase
    } else {
        next_step(phase_after(phase, events.drop_last(), uses_asan), events.last(), uses_asan).0
    }
}

/// What holds of every phase an exchange can be in: a run counts as `Normal`
/// or `Crash` only when both frames, eight bytes, were read; as `Timeout`
/// only when the pid frame was read and the status frame was not; and nothing
/// but `Normal`, `Crash`, `Timeout` and `Error` ever comes out.
pub open spec fn framed(phase: ForkPhase) -> bool {
    match phase {
        ForkPhase::AwaitStatus { pid } => pid > 0,
        ForkPhase::Draining { pid } => pid > 0,
        ForkPhase::Finished { status, bytes_read } => match status {
            StatusType::Normal | StatusType::Crash => bytes_read == 8,
            StatusType::Timeout => bytes_read == FRAME_LEN,
            StatusType::Error => bytes_read <= 8,
            StatusType::Skip => false,
        },
        _ => true,
    }
}

/// Framing law: whatever the socket does after a request, the exchange ends
/// either with exactly eight bytes read and a status of `Normal` or `Crash`,
/// or in `Timeout` after the pid frame alone, or in `Error`.
pub proof fn lemma_exchange_is_framed(events: Seq<ForkEventView>, uses_asan: bool)
    ensures
        framed(phase_after(ForkPhase::Idle, events, uses_asan)),
    decreases events.len(),
{
    if events.len() > 0 {
        lemma_exchange_is_framed(events.drop_last(), uses_asan);
        let before = phase_after(ForkPhase::Idle, events.drop_last(), uses_asan);
        lemma_step_keeps_framing(before, events.last(), uses_asan);
    }
}

/// One step of the protocol keeps [`framed`].
pub proof fn lemma_step_keeps_framing(phase: ForkPhase, event: ForkEventView, uses_asan: bool)
    requires
        framed(phase),
    ensures
        framed(next_step(phase, event, uses_asan).0),
{
}

} // verus!
