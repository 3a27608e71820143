//! The login and multi-factor-challenge state machine.
//!
//! The broker performs the actual session, login and challenge calls; the
//! caller reports each outcome here as a plain value and this machine
//! decides the next step. It lives across several caller round-trips — each
//! externally triggered call may add one more pending challenge — so the
//! pending list and the phase are open to the caller and resumable.

use vstd::prelude::*;

verus! {

/// The delivery channel of a multi-factor challenge.
#[derive(Clone, Copy, Debug, PartialEq, Eq, Structural)]
pub enum MfaType {
    Sms,
    Email,
    /// Any other channel the broker may use.
    Other,
}

/// One outstanding broker-issued challenge.
#[derive(Debug, Clone)]
pub struct Mfa {
    pub otp_id: String,
    pub token: String,
    pub mfa_type: MfaType,
}

/// Mathematical value of an [`Mfa`].
pub struct MfaV {
    pub otp_id: Seq<char>,
    pub token: Seq<char>,
    pub mfa_type: MfaType,
}

impl View for Mfa {
    type V = MfaV;

    open spec fn view(&self) -> MfaV {
        MfaV { otp_id: self.otp_id@, token: self.token@, mfa_type: self.mfa_type }
    }
}

impl Mfa {
    /// A copy holding the same values.
    pub fn duplicate(&self) -> (r: Mfa)
        ensures
            r@ == self@,
    {
        Mfa {
            otp_id: self.otp_id.clone(),
            token: self.token.clone(),
            mfa_type: self.mfa_type,
        }
    }
}

/// Where the session stands.
#[derive(Clone, Copy, Debug, PartialEq, Eq, Structural)]
pub enum AuthPhase {
    /// No broker session yet.
    Anonymous,
    /// A session exists; nobody is logged in.
    SessionInitialized,
    /// Login or a code submission signalled that a challenge must be
    /// answered first.
    MfaPending,
    /// Logged in.
    Authenticated,
}

/// What the broker answered to a login call.
#[derive(Clone, Copy, Debug, PartialEq, Eq, Structural)]
pub enum LoginOutcome {
    Granted,
    /// The broker demands a multi-factor challenge first.
    MfaSignalled,
    /// Any other login failure.
    Failed,
}

/// What the broker answered to a submitted challenge code.
#[derive(Clone, Copy, Debug, PartialEq, Eq, Structural)]
pub enum SubmitOutcome {
    Granted,
    /// The broker demands yet another challenge.
    MfaSignalled,
    /// Any other submission failure.
    Failed,
}

/// What the caller must do after a login outcome.
#[derive(Clone, Copy, Debug, PartialEq, Eq, Structural)]
pub enum LoginDecision {
    /// Logged in; proceed.
    Authenticated,
    /// Request a challenge from the broker, note it here, and have the
    /// user answer it out of band.
    ChallengeNeeded,
    /// The attempt failed; surface an authentication error.
    Rejected,
}

/// What the caller must do after a submission outcome.
#[derive(Clone, Copy, Debug, PartialEq, Eq, Structural)]
pub enum SubmitDecision {
    /// Logged in; proceed.
    Authenticated,
    /// The accumulated challenges cleared the restriction: discard the
    /// broker client, start a fresh one, and proceed as authenticated.
    AuthenticatedAfterReset,
    /// Request one more challenge from the broker and note it here.
    ChallengeNeeded,
    /// The attempt failed; surface an authentication error.
    Rejected,
}

/// Both an SMS and an email challenge are pending, two or more in all: a
/// repeated challenge signal now means the verification cleared the
/// restriction.
pub open spec fn merge_ready(mfas: Seq<Mfa>) -> bool {
    &&& mfas.len() >= 2
    &&& exists|i: int| 0 <= i < mfas.len() && mfas[i].mfa_type == MfaType::Sms
    &&& exists|i: int| 0 <= i < mfas.len() && mfas[i].mfa_type == MfaType::Email
}

/// The in-memory session state: never persisted, created fresh for each
/// process, discarded on exit.
pub struct AuthSession {
    pub phase: AuthPhase,
    /// Outstanding challenges, oldest first.
    pub mfas: Vec<Mfa>,
}

impl AuthSession {
    /// A fresh, anonymous session with no pending challenges.
    pub fn new() -> (r: AuthSession)
        ensures
            r.phase == AuthPhase::Anonymous,
            r.mfas@.len() == 0,
    {
        AuthSession { phase: AuthPhase::Anonymous, mfas: Vec::new() }
    }

    /// Whether the broker session must be initialized before logging in.
    pub fn needs_init(&self) -> (r: bool)
        ensures
            r == (self.phase is Anonymous),
    {
        matches!(self.phase, AuthPhase::Anonymous)
    }

    /// Notes that the broker session was initialized.
    pub fn note_session_initialized(&mut self)
        requires
            old(self).phase is Anonymous,
        ensures
            final(self).phase == AuthPhase::SessionInitialized,
            final(self).mfas == old(self).mfas,
    {
        self.phase = AuthPhase::SessionInitialized;
    }

    /// Feeds in the broker's answer to a login call. Granting logs in; a
    /// challenge signal moves to the pending phase and asks the caller to
    /// request a challenge; any other failure changes nothing — the
    /// session merely stays out of the authenticated phase.
    pub fn on_login(&mut self, outcome: LoginOutcome) -> (d: LoginDecision)
        requires
            !(old(self).phase is Anonymous),
        ensures
            final(self).mfas == old(self).mfas,
            match outcome {
                LoginOutcome::Granted => final(self).phase == AuthPhase::Authenticated && d
                    == LoginDecision::Authenticated,
                LoginOutcome::MfaSignalled => final(self).phase == AuthPhase::MfaPending && d
                    == LoginDecision::ChallengeNeeded,
                LoginOutcome::Failed => final(self).phase == old(self).phase && d
                    == LoginDecision::Rejected,
            },
    {
        match outcome {
            LoginOutcome::Granted => {
                self.phase = AuthPhase::Authenticated;
                LoginDecision::Authenticated
            },
            LoginOutcome::MfaSignalled => {
                self.phase = AuthPhase::MfaPending;
                LoginDecision::ChallengeNeeded
            },
            LoginOutcome::Failed => LoginDecision::Rejected,
        }
    }

    /// Appends the challenge the broker issued to the pending list.
    pub fn note_challenge(&mut self, mfa: Mfa)
        requires
            old(self).phase is MfaPending,
        ensures
            final(self).phase == old(self).phase,
            final(self).mfas@ == old(self).mfas@.push(mfa),
    {
        self.mfas.push(mfa);
    }

    /// Whether the pending challenges satisfy [`merge_ready`].
    pub fn merge_is_ready(&self) -> (r: bool)
        ensures
            r == merge_ready(self.mfas@),
    {
        let mut has_sms = false;
        let mut has_email = false;
        let n = self.mfas.len();
        let mut i: usize = 0;
        while i < n
            invariant
                n == self.mfas@.len(),
                i <= n,
                has_sms == exists|k: int| 0 <= k < i && self.mfas@[k].mfa_type == MfaType::Sms,
                has_email == exists|k: int| 0 <= k < i && self.mfas@[k].mfa_type == MfaType::Email,
            decreases n - i,
        {
            match self.mfas[i].mfa_type {
                MfaType::Sms => has_sms = true,
                MfaType::Email => has_email = true,
                MfaType::Other => (),
            }
            i = i + 1;
        }
        n >= 2 && has_sms && has_email
    }

    /// Feeds in the broker's answer to a submitted challenge code.
    ///
    /// A repeated challenge signal on top of a pending list that already
    /// holds both an SMS and an email challenge (two or more entries) means
    /// the verification cleared the restriction: the caller discards the
    /// broker client, reinitializes fresh, and the session counts as
    /// authenticated — no third challenge is requested. Otherwise one more
    /// challenge is requested and the session stays pending.
    pub fn on_submit(&mut self, outcome: SubmitOutcome) -> (d: SubmitDecision)
        requires
            old(self).phase is MfaPending,
        ensures
            final(self).mfas == old(self).mfas,
            match outcome {
                SubmitOutcome::Granted => final(self).phase == AuthPhase::Authenticated && d
                    == SubmitDecision::Authenticated,
                SubmitOutcome::MfaSignalled => if merge_ready(old(self).mfas@) {
                    final(self).phase == AuthPhase::Authenticated && d
                        == SubmitDecision::AuthenticatedAfterReset
                } else {
                    final(self).phase == AuthPhase::MfaPending && d
                        == SubmitDecision::ChallengeNeeded
                },
                SubmitOutcome::Failed => final(self).phase == old(self).phase && d
                    == SubmitDecision::Rejected,
            },
    {
        match outcome {
            SubmitOutcome::Granted => {
                self.phase = AuthPhase::Authenticated;
                SubmitDecision::Authenticated
            },
            SubmitOutcome::MfaSignalled => {
                if self.merge_is_ready() {
                    self.phase = AuthPhase::Authenticated;
                    SubmitDecision::AuthenticatedAfterReset
                } else {
                    SubmitDecision::ChallengeNeeded
                }
            },
            SubmitOutcome::Failed => SubmitDecision::Rejected,
        }
    }
}

} // verus!
