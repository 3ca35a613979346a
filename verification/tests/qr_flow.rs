use atri_login::qr::{
    decide_device_lock_result, decide_login_result, poll_delay_seconds, step, FinalizeDecision,
    LoginResult, QrCommand, QrEvent, QrSession,
};

/// Drives a scripted sequence of poll events through the state machine,
/// recording every image write, every finalize, and whether the attempt
/// was aborted.
struct Script {
    session: QrSession,
    images: Vec<Vec<u8>>,
    polls: usize,
    fetches: usize,
    finalized: Option<(Vec<u8>, Vec<u8>, Vec<u8>)>,
    aborted: bool,
}

fn run(events: Vec<QrEvent>) -> Script {
    let mut out = Script {
        session: QrSession::new(),
        images: Vec::new(),
        polls: 0,
        fetches: 0,
        finalized: None,
        aborted: false,
    };
    for ev in events {
        let (next, cmd) = step(out.session, ev);
        out.session = next;
        match cmd {
            QrCommand::WriteImageThenPoll { image } => {
                out.images.push(image);
                out.polls += 1;
            }
            QrCommand::PollAfterDelay => out.polls += 1,
            QrCommand::FetchNew => out.fetches += 1,
            QrCommand::Finalize { tmp_pwd, tmp_no_pic_sig, tgt_qr } => {
                out.finalized = Some((tmp_pwd, tmp_no_pic_sig, tgt_qr));
                return out;
            }
            QrCommand::AbortAttempt => {
                out.aborted = true;
                return out;
            }
        }
    }
    out
}

fn fetch(img: &[u8], sig: &[u8]) -> QrEvent {
    QrEvent::ImageFetch { image: img.to_vec(), sig: sig.to_vec() }
}

#[test]
fn liveness_straight_through_confirmation() {
    let confirmed = QrEvent::Confirmed {
        tmp_pwd: vec![1],
        tmp_no_pic_sig: vec![2],
        tgt_qr: vec![3],
    };
    let r = run(vec![
        fetch(b"png-bytes", b"sig-1"),
        QrEvent::WaitingForScan,
        QrEvent::WaitingForConfirm,
        confirmed,
    ]);
    // every intermediate event polled, in order, none skipped
    assert_eq!(r.polls, 3);
    assert_eq!(r.images, vec![b"png-bytes".to_vec()]);
    assert_eq!(r.session.signature, Some(b"sig-1".to_vec()));
    assert_eq!(r.finalized, Some((vec![1], vec![2], vec![3])));
    assert!(!r.aborted);
    // a plain success completes the login
    assert_eq!(decide_login_result(&LoginResult::Success), FinalizeDecision::Complete);
}

#[test]
fn timeout_recovery_writes_a_second_image() {
    let confirmed = QrEvent::Confirmed {
        tmp_pwd: vec![9],
        tmp_no_pic_sig: vec![8],
        tgt_qr: vec![7],
    };
    let r = run(vec![
        fetch(b"image-one", b"sig-1"),
        QrEvent::Timeout,
        fetch(b"image-two", b"sig-2"),
        confirmed,
    ]);
    // exactly two images written, the second overwriting the first
    assert_eq!(r.images, vec![b"image-one".to_vec(), b"image-two".to_vec()]);
    assert_eq!(r.fetches, 1);
    // polling continues against the reissued challenge's signature
    assert_eq!(r.session.signature, Some(b"sig-2".to_vec()));
    // and the attempt still completes exactly once
    assert_eq!(r.finalized, Some((vec![9], vec![8], vec![7])));
    assert!(!r.aborted);
}

#[test]
fn cancellation_aborts_without_persisting() {
    let r = run(vec![fetch(b"img", b"sig"), QrEvent::Canceled]);
    assert!(r.aborted);
    assert_eq!(r.finalized, None);
    // nothing past the abort: one image from the initial fetch, one poll
    assert_eq!(r.images.len(), 1);
    assert_eq!(r.polls, 1);
}

#[test]
fn device_lock_escalation_completes_like_success() {
    // the finalize result signals the device-lock secondary factor
    assert_eq!(
        decide_login_result(&LoginResult::DeviceLockRequired),
        FinalizeDecision::ConfirmDeviceLock
    );
    // a successful resolution is the definitive outcome
    assert_eq!(decide_device_lock_result(&LoginResult::Success), FinalizeDecision::Complete);
    // any unrecognized result shape aborts the whole process
    assert_eq!(
        decide_login_result(&LoginResult::Other),
        FinalizeDecision::FatalProtocolViolation
    );
    assert_eq!(
        decide_device_lock_result(&LoginResult::Other),
        FinalizeDecision::FatalProtocolViolation
    );
    assert_eq!(
        decide_device_lock_result(&LoginResult::DeviceLockRequired),
        FinalizeDecision::FatalProtocolViolation
    );
}

#[test]
fn waiting_states_keep_the_signature() {
    let s0 = QrSession::new();
    assert_eq!(s0.signature, None);
    let (s1, c1) = step(s0, fetch(b"i", b"sg"));
    assert_eq!(c1, QrCommand::WriteImageThenPoll { image: b"i".to_vec() });
    let (s2, c2) = step(s1, QrEvent::WaitingForScan);
    assert_eq!(c2, QrCommand::PollAfterDelay);
    let (s3, c3) = step(s2, QrEvent::WaitingForConfirm);
    assert_eq!(c3, QrCommand::PollAfterDelay);
    assert_eq!(s3.signature, Some(b"sg".to_vec()));
    let (s4, c4) = step(s3, QrEvent::Timeout);
    assert_eq!(c4, QrCommand::FetchNew);
    assert_eq!(s4.signature, Some(b"sg".to_vec()));
}

#[test]
fn poll_delay_is_five_seconds() {
    assert_eq!(poll_delay_seconds(), 5);
}
