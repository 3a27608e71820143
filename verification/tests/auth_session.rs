use bourso_dca::auth::{
    AuthPhase, AuthSession, LoginDecision, LoginOutcome, Mfa, MfaType, SubmitDecision,
    SubmitOutcome,
};

fn challenge(kind: MfaType, n: u32) -> Mfa {
    Mfa {
        otp_id: format!("otp-{}", n),
        token: format!("token-{}", n),
        mfa_type: kind,
    }
}

#[test]
fn plain_login_authenticates() {
    let mut s = AuthSession::new();
    assert!(s.needs_init());
    s.note_session_initialized();
    assert!(!s.needs_init());
    let d = s.on_login(LoginOutcome::Granted);
    assert_eq!(d, LoginDecision::Authenticated);
    assert_eq!(s.phase, AuthPhase::Authenticated);
}

#[test]
fn login_failure_is_terminal_for_the_attempt() {
    let mut s = AuthSession::new();
    s.note_session_initialized();
    let d = s.on_login(LoginOutcome::Failed);
    assert_eq!(d, LoginDecision::Rejected);
    assert_eq!(s.phase, AuthPhase::SessionInitialized);
}

#[test]
fn mfa_challenges_accumulate_across_round_trips() {
    let mut s = AuthSession::new();
    s.note_session_initialized();

    let d = s.on_login(LoginOutcome::MfaSignalled);
    assert_eq!(d, LoginDecision::ChallengeNeeded);
    assert_eq!(s.phase, AuthPhase::MfaPending);
    s.note_challenge(challenge(MfaType::Sms, 1));
    assert_eq!(s.mfas.len(), 1);

    // The next round trip submits a code and is asked for another factor.
    let d = s.on_submit(SubmitOutcome::MfaSignalled);
    assert_eq!(d, SubmitDecision::ChallengeNeeded);
    assert_eq!(s.phase, AuthPhase::MfaPending);
    s.note_challenge(challenge(MfaType::Email, 2));
    assert_eq!(s.mfas.len(), 2);
}

#[test]
fn sms_plus_email_merge_authenticates_with_a_reset() {
    let mut s = AuthSession::new();
    s.note_session_initialized();
    s.on_login(LoginOutcome::MfaSignalled);
    s.note_challenge(challenge(MfaType::Sms, 1));
    s.on_submit(SubmitOutcome::MfaSignalled);
    s.note_challenge(challenge(MfaType::Email, 2));

    // Both channels are pending: a repeated signal means the restriction
    // cleared. No third challenge is requested.
    let d = s.on_submit(SubmitOutcome::MfaSignalled);
    assert_eq!(d, SubmitDecision::AuthenticatedAfterReset);
    assert_eq!(s.phase, AuthPhase::Authenticated);
    assert_eq!(s.mfas.len(), 2);
}

#[test]
fn two_challenges_of_one_channel_do_not_merge() {
    let mut s = AuthSession::new();
    s.note_session_initialized();
    s.on_login(LoginOutcome::MfaSignalled);
    s.note_challenge(challenge(MfaType::Sms, 1));
    s.on_submit(SubmitOutcome::MfaSignalled);
    s.note_challenge(challenge(MfaType::Sms, 2));

    let d = s.on_submit(SubmitOutcome::MfaSignalled);
    assert_eq!(d, SubmitDecision::ChallengeNeeded);
    assert_eq!(s.phase, AuthPhase::MfaPending);
}

#[test]
fn granted_submission_authenticates() {
    let mut s = AuthSession::new();
    s.note_session_initialized();
    s.on_login(LoginOutcome::MfaSignalled);
    s.note_challenge(challenge(MfaType::Email, 1));
    let d = s.on_submit(SubmitOutcome::Granted);
    assert_eq!(d, SubmitDecision::Authenticated);
    assert_eq!(s.phase, AuthPhase::Authenticated);
}

#[test]
fn failed_submission_stays_pending() {
    let mut s = AuthSession::new();
    s.note_session_initialized();
    s.on_login(LoginOutcome::MfaSignalled);
    s.note_challenge(challenge(MfaType::Email, 1));
    let d = s.on_submit(SubmitOutcome::Failed);
    assert_eq!(d, SubmitDecision::Rejected);
    assert_eq!(s.phase, AuthPhase::MfaPending);
}
