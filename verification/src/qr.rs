//! The QR login session orchestrator: the state machine that drives an
//! interactive QR-code login to completion.
//!
//! The orchestrator decides; the caller acts. Each poll of the protocol
//! client yields a [`QrEvent`]; [`step`] turns it into the next session
//! state and a [`QrCommand`] for the caller to carry out. Once a
//! challenge is confirmed, the finalize result is classified by
//! [`decide_login_result`], and a device-lock escalation by
//! [`decide_device_lock_result`].

use vstd::prelude::*;

verus! {

/// One poll result of the protocol client's QR challenge.
#[derive(Clone, Debug, PartialEq, Eq)]
pub enum QrEvent {
    /// A new challenge is available: its image and its opaque signature.
    ImageFetch { image: Vec<u8>, sig: Vec<u8> },
    /// Not scanned yet.
    WaitingForScan,
    /// Scanned, not confirmed yet.
    WaitingForConfirm,
    /// Confirmed on the user's device: the three opaque values the
    /// finalize operation needs.
    Confirmed { tmp_pwd: Vec<u8>, tmp_no_pic_sig: Vec<u8>, tgt_qr: Vec<u8> },
    /// Canceled on the user's device.
    Canceled,
    /// The challenge expired unresolved.
    Timeout,
}

/// What the orchestrator asks the caller to do next.
#[derive(Clone, Debug, PartialEq, Eq)]
pub enum QrCommand {
    /// Overwrite the challenge image file with these bytes, render the
    /// best-effort terminal preview, then poll again after the fixed
    /// delay.
    WriteImageThenPoll { image: Vec<u8> },
    /// Nothing to do; poll again after the fixed delay.
    PollAfterDelay,
    /// Fetch a fresh challenge and feed its result back as the next
    /// event.
    FetchNew,
    /// Submit these three values to the finalize operation and classify
    /// the login result with [`decide_login_result`].
    Finalize { tmp_pwd: Vec<u8>, tmp_no_pic_sig: Vec<u8>, tgt_qr: Vec<u8> },
    /// The user canceled: abandon this login attempt and return to the
    /// command loop. Nothing is persisted.
    AbortAttempt,
}

/// The in-memory state of one QR login attempt: the signature of the
/// challenge being polled, if one has been issued.
#[derive(Clone, Debug, PartialEq, Eq)]
pub struct QrSession {
    pub signature: Option<Vec<u8>>,
}

impl QrSession {
    /// A session with no challenge issued yet.
    pub fn new() -> (r: QrSession)
        ensures
            r.signature is None,
    {
        QrSession { signature: Option::None }
    }
}

/// The transition table of the orchestrator, exactly as [`step`]
/// implements it.
pub open spec fn qr_step_spec(session: QrSession, event: QrEvent) -> (QrSession, QrCommand) {
    match event {
        QrEvent::ImageFetch { image, sig } => (
            QrSession { signature: Option::Some(sig) },
            QrCommand::WriteImageThenPoll { image },
        ),
        QrEvent::WaitingForScan => (session, QrCommand::PollAfterDelay),
        QrEvent::WaitingForConfirm => (session, QrCommand::PollAfterDelay),
        QrEvent::Confirmed { tmp_pwd, tmp_no_pic_sig, tgt_qr } => (
            session,
            QrCommand::Finalize { tmp_pwd, tmp_no_pic_sig, tgt_qr },
        ),
        QrEvent::Canceled => (session, QrCommand::AbortAttempt),
        QrEvent::Timeout => (session, QrCommand::FetchNew),
    }
}

/// One transition of the QR state machine.
///
/// A fresh challenge stores its signature and has its image written; the
/// two waiting states only poll again; a confirmation hands its values to
/// the finalize operation; a cancellation aborts the attempt; a timeout
/// reissues the challenge. No event is skipped and none is reordered:
/// every event maps to exactly one command, and only `ImageFetch`
/// changes the remembered signature.
pub fn step(session: QrSession, event: QrEvent) -> (r: (QrSession, QrCommand))
    ensures
        r == qr_step_spec(session, event),
        !(event is ImageFetch) ==> r.0 == session,
        (r.1 is AbortAttempt <==> event is Canceled),
        (r.1 is Finalize <==> event is Confirmed),
        (r.1 is FetchNew <==> event is Timeout),
{
    match event {
        QrEvent::ImageFetch { image, sig } => (
            QrSession { signature: Option::Some(sig) },
            QrCommand::WriteImageThenPoll { image },
        ),
        QrEvent::WaitingForScan => (session, QrCommand::PollAfterDelay),
        QrEvent::WaitingForConfirm => (session, QrCommand::PollAfterDelay),
        QrEvent::Confirmed { tmp_pwd, tmp_no_pic_sig, tgt_qr } => (
            session,
            QrCommand::Finalize { tmp_pwd, tmp_no_pic_sig, tgt_qr },
        ),
        QrEvent::Canceled => (session, QrCommand::AbortAttempt),
        QrEvent::Timeout => (session, QrCommand::FetchNew),
    }
}

/// The unconditional delay, in seconds, between successive polls.
pub fn poll_delay_seconds() -> (r: u64)
    ensures
        r == 5,
{
    5
}

/// The closed set of login result shapes the orchestrator can handle.
#[derive(Clone, Copy, Debug, PartialEq, Eq)]
pub enum LoginResult {
    /// The login finished successfully.
    Success,
    /// A secondary device-lock confirmation is required first.
    DeviceLockRequired,
    /// Any other shape: the orchestrator has no defined handling for it.
    Other,
}

/// What to do with a login result.
#[derive(Clone, Copy, Debug, PartialEq, Eq)]
pub enum FinalizeDecision {
    /// The login is complete: resolve the account, persist the device
    /// identity and the session token.
    Complete,
    /// Invoke the device-lock confirmation operation and classify its
    /// result with [`decide_device_lock_result`].
    ConfirmDeviceLock,
    /// A protocol-contract violation: abort the whole process, not just
    /// this attempt.
    FatalProtocolViolation,
}

/// Classifies the login result of the finalize operation: success
/// completes, a device-lock signal escalates, anything else is fatal to
/// the process.
pub fn decide_login_result(r: &LoginResult) -> (d: FinalizeDecision)
    ensures
        d is Complete <==> r is Success,
        d is ConfirmDeviceLock <==> r is DeviceLockRequired,
        d is FatalProtocolViolation <==> r is Other,
{
    match r {
        LoginResult::Success => FinalizeDecision::Complete,
        LoginResult::DeviceLockRequired => FinalizeDecision::ConfirmDeviceLock,
        LoginResult::Other => FinalizeDecision::FatalProtocolViolation,
    }
}

/// Classifies the result of the device-lock confirmation, which is the
/// definitive outcome: success completes exactly as a direct success
/// would; any other shape is a protocol-contract violation and fatal to
/// the process.
pub fn decide_device_lock_result(r: &LoginResult) -> (d: FinalizeDecision)
    ensures
        d is Complete <==> r is Success,
        !(r is Success) ==> d is FatalProtocolViolation,
        !(d is ConfirmDeviceLock),
{
    match r {
        LoginResult::Success => FinalizeDecision::Complete,
        LoginResult::DeviceLockRequired => FinalizeDecision::FatalProtocolViolation,
        LoginResult::Other => FinalizeDecision::FatalProtocolViolation,
    }
}

} // verus!
