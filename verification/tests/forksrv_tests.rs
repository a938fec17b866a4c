use angora::forksrv::classify_wait_status;
use angora::forksrv::decode_frame;
use angora::forksrv::request_marker;
use angora::forksrv::shutdown_sentinel;
use angora::forksrv::step;
use angora::forksrv::ForkAction;
use angora::forksrv::ForkEvent;
use angora::forksrv::ForkPhase;
use angora::status::StatusType;

fn run(events: Vec<ForkEvent>, uses_asan: bool) -> (ForkPhase, Vec<ForkAction>) {
    let mut phase = ForkPhase::Idle;
    let mut actions = vec![];
    for e in &events {
        let (next, action) = step(phase, e, uses_asan);
        phase = next;
        actions.push(action);
    }
    (phase, actions)
}

#[test]
fn markers() {
    assert_eq!(request_marker(), [8, 8, 8, 8]);
    assert_eq!(shutdown_sentinel(), [0, 0]);
}

#[test]
fn frames_are_little_endian() {
    assert_eq!(decode_frame(&[1, 0, 0, 0]), Some(1));
    assert_eq!(decode_frame(&[0x39, 0x30, 0, 0]), Some(12345));
    assert_eq!(decode_frame(&[0, 0, 0, 0x80]), Some(i32::MIN));
    assert_eq!(decode_frame(&[0xff, 0xff, 0xff, 0xff]), Some(-1));
    assert_eq!(decode_frame(&[0xff, 0xff, 0xff, 0x7f]), Some(i32::MAX));
    assert_eq!(decode_frame(&[0x78, 0x56, 0x34, 0x12]), Some(0x12345678));
}

#[test]
fn frames_of_another_length_are_refused() {
    assert_eq!(decode_frame(&[]), None);
    assert_eq!(decode_frame(&[1, 2, 3]), None);
    assert_eq!(decode_frame(&[1, 2, 3, 4, 5]), None);
}

#[test]
fn wait_status_classes() {
    // exited with code 0
    assert_eq!(classify_wait_status(0, false), StatusType::Normal);
    // exited with code 1
    assert_eq!(classify_wait_status(1 << 8, true), StatusType::Normal);
    // killed by SIGSEGV
    assert_eq!(classify_wait_status(11, false), StatusType::Crash);
    // killed by SIGKILL, core dumped
    assert_eq!(classify_wait_status(9 | 0x80, false), StatusType::Crash);
    // stopped
    assert_eq!(classify_wait_status(0x7f | (19 << 8), false), StatusType::Normal);
    assert_eq!(classify_wait_status(0x7f, false), StatusType::Normal);
    // every signal number from 1 to 126 is a crash
    for signal in 1..=126 {
        assert_eq!(classify_wait_status(signal, false), StatusType::Crash);
        assert_eq!(classify_wait_status(signal | 0x80 | (3 << 8), false), StatusType::Crash);
    }
    assert_eq!(classify_wait_status(-1, false), StatusType::Normal);
    // the sanitiser's exit code counts only where a sanitiser is in use
    assert_eq!(classify_wait_status(86 << 8, true), StatusType::Crash);
    assert_eq!(classify_wait_status(86 << 8, false), StatusType::Normal);
}

#[test]
fn normal_exchange_reads_eight_bytes() {
    let (phase, actions) = run(
        vec![
            ForkEvent::Start,
            ForkEvent::Written,
            ForkEvent::Frame(vec![0x10, 0x27, 0, 0]),
            ForkEvent::Frame(vec![0, 0, 0, 0]),
        ],
        false,
    );
    assert_eq!(
        actions,
        vec![
            ForkAction::WriteRequest,
            ForkAction::ReadFrame,
            ForkAction::ReadFrame,
            ForkAction::Done { status: StatusType::Normal },
        ]
    );
    assert_eq!(phase, ForkPhase::Finished { status: StatusType::Normal, bytes_read: 8 });
}

#[test]
fn crash_exchange() {
    let (phase, _) = run(
        vec![
            ForkEvent::Start,
            ForkEvent::Written,
            ForkEvent::Frame(vec![1, 0, 0, 0]),
            ForkEvent::Frame(vec![11, 0, 0, 0]),
        ],
        false,
    );
    assert_eq!(phase, ForkPhase::Finished { status: StatusType::Crash, bytes_read: 8 });
}

#[test]
fn status_timeout_kills_the_child() {
    let (phase, actions) = run(
        vec![
            ForkEvent::Start,
            ForkEvent::Written,
            ForkEvent::Frame(vec![0x10, 0x27, 0, 0]),
            ForkEvent::ReadFailed,
        ],
        false,
    );
    assert_eq!(actions[3], ForkAction::KillAndDrain { pid: 10000 });
    assert_eq!(phase, ForkPhase::Draining { pid: 10000 });
    let (phase, action) = step(phase, &ForkEvent::Drained, false);
    assert_eq!(action, ForkAction::Done { status: StatusType::Timeout });
    assert_eq!(phase, ForkPhase::Finished { status: StatusType::Timeout, bytes_read: 4 });
}

#[test]
fn channel_failures_are_errors() {
    let error = ForkAction::Done { status: StatusType::Error };
    let (_, a) = run(vec![ForkEvent::Start, ForkEvent::WriteFailed], false);
    assert_eq!(a[1], error);
    let (_, a) = run(vec![ForkEvent::Start, ForkEvent::Written, ForkEvent::ReadFailed], false);
    assert_eq!(a[2], error);
    // a pid that is not positive
    let (p, a) = run(
        vec![ForkEvent::Start, ForkEvent::Written, ForkEvent::Frame(vec![0, 0, 0, 0])],
        false,
    );
    assert_eq!(a[2], error);
    assert_eq!(p, ForkPhase::Finished { status: StatusType::Error, bytes_read: 4 });
    let (_, a) = run(
        vec![ForkEvent::Start, ForkEvent::Written, ForkEvent::Frame(vec![0xff, 0xff, 0xff, 0xff])],
        false,
    );
    assert_eq!(a[2], error);
    // a short frame
    let (_, a) = run(vec![ForkEvent::Start, ForkEvent::Written, ForkEvent::Frame(vec![1, 0])], false);
    assert_eq!(a[2], error);
    let (_, a) = run(
        vec![
            ForkEvent::Start,
            ForkEvent::Written,
            ForkEvent::Frame(vec![1, 0, 0, 0]),
            ForkEvent::Frame(vec![0]),
        ],
        false,
    );
    assert_eq!(a[3], error);
    // an event that does not belong
    let (_, a) = run(vec![ForkEvent::Written], false);
    assert_eq!(a[0], error);
    let (_, a) = run(vec![ForkEvent::Start, ForkEvent::Start], false);
    assert_eq!(a[1], error);
}

#[test]
fn framing_holds_for_all_short_event_sequences() {
    fn events() -> Vec<ForkEvent> {
        vec![
            ForkEvent::Start,
            ForkEvent::Written,
            ForkEvent::WriteFailed,
            ForkEvent::Frame(vec![5, 0, 0, 0]),
            ForkEvent::Frame(vec![0, 0, 0, 0]),
            ForkEvent::Frame(vec![1]),
            ForkEvent::ReadFailed,
            ForkEvent::Drained,
        ]
    }
    let n = events().len();
    for a in 0..n {
        for b in 0..n {
            for c in 0..n {
                for d in 0..n {
                    for e in 0..n {
                        let all = events();
                        let mut phase = ForkPhase::Idle;
                        for i in [a, b, c, d, e] {
                            phase = step(phase, &all[i], true).0;
                            if let ForkPhase::Finished { status, bytes_read } = phase {
                                match status {
                                    StatusType::Normal | StatusType::Crash => assert_eq!(bytes_read, 8),
                                    StatusType::Timeout => assert_eq!(bytes_read, 4),
                                    StatusType::Error => assert!(bytes_read <= 8),
                                    StatusType::Skip => panic!("a fork server never skips"),
                                }
                            }
                        }
                    }
                }
            }
        }
    }
}
