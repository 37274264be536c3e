//! Decisions of the mining loop: what to do with each answer of the
//! server, and the counters that carry over from one round to the next.

use vstd::prelude::*;
use crate::auth::is_success;
use crate::auth::is_success_status;

verus! {

/// Consecutive `401` answers after which the client logs in again.
pub const AUTH_RETRY_LIMIT: u32 = 3;

/// Pause after a network error, an API error or an unreadable challenge.
pub const ERROR_RETRY_SECS: u64 = 5;

/// Pause before asking again after a `401`.
pub const AUTH_RETRY_SECS: u64 = 10;

/// Cooldown when a `429` answer does not say how long to wait.
pub const DEFAULT_COOLDOWN_SECS: u64 = 5;

/// Pause after the daily cap was reached.
pub const DAILY_CAP_SECS: u64 = 60;

/// Pause between two challenges (the server enforces it).
pub const CHALLENGE_INTERVAL_SECS: u64 = 5;

/// How many bytes of the nonce prefix are shown while mining.
pub const PREFIX_DISPLAY_BYTES: usize = 16;

/// How many bytes of a minted token's id are shown.
pub const TOKEN_DISPLAY_BYTES: usize = 8;

/// What the client does after asking for a challenge.
#[derive(Debug, Clone, Copy, PartialEq, Eq, Structural)]
pub enum ChallengeStep {
    /// The session was refused; wait and ask again (this is the
    /// `attempt`-th refusal in a row).
    RetryAuth { attempt: u32 },
    /// Too many refusals in a row: log in again.
    Relogin,
    /// The supply is exhausted: stop mining.
    SupplyExhausted,
    /// Cooling down: read how long from the answer, wait, ask again.
    Cooldown,
    /// Another error: wait and ask again.
    ApiError,
    /// A challenge came: read it and mine.
    Mine,
}

/// What the client does with the answer to a mint request.
#[derive(Debug, Clone, Copy, PartialEq, Eq, Structural)]
pub enum MintStep {
    /// A token was minted; this many were minted in this session so far.
    Minted { session_count: u64 },
    /// The server accepted the request but gave no token.
    NoToken,
    /// The daily cap was reached: wait for the reset.
    DailyCapReached,
    /// The supply is exhausted: stop mining.
    SupplyExhausted,
    /// The challenge expired: ask for a new one at once.
    ChallengeExpired,
    /// Another refusal.
    Failed,
}

/// The counters of a mining session.
#[derive(Debug, Clone, Copy, PartialEq, Eq, Structural)]
pub struct MinerState {
    /// `401` answers in a row since the last other answer or re-login.
    pub auth_failures: u32,
    /// Tokens minted in this session.
    pub minted: u64,
}

/// The state and step after a challenge answer with this status.
pub open spec fn challenge_transition(state: MinerState, status: u16) -> (MinerState, ChallengeStep) {
    if status == 401 {
        let failures = state.auth_failures + 1;
        if failures >= AUTH_RETRY_LIMIT {
            (MinerState { auth_failures: 0, ..state }, ChallengeStep::Relogin)
        } else {
            (MinerState { auth_failures: failures as u32, ..state }, ChallengeStep::RetryAuth { attempt: failures as u32 })
        }
    } else {
        let reset = MinerState { auth_failures: 0, ..state };
        if status == 410 {
            (reset, ChallengeStep::SupplyExhausted)
        } else if status == 429 {
            (reset, ChallengeStep::Cooldown)
        } else if !is_success_status(status) {
            (reset, ChallengeStep::ApiError)
        } else {
            (reset, ChallengeStep::Mine)
        }
    }
}

/// The step for an answer to a mint request.
pub open spec fn mint_step(state: MinerState, status: u16, has_token: bool, error: Option<Seq<char>>) -> MintStep {
    if is_success_status(status) {
        if has_token {
            MintStep::Minted { session_count: (state.minted + 1) as u64 }
        } else {
            MintStep::NoToken
        }
    } else {
        match error {
            Some(e) => if e == "DAILY_CAP_REACHED"@ {
                MintStep::DailyCapReached
            } else if e == "SUPPLY_EXHAUSTED"@ {
                MintStep::SupplyExhausted
            } else if e == "CHALLENGE_EXPIRED"@ {
                MintStep::ChallengeExpired
            } else {
                MintStep::Failed
            },
            None => MintStep::Failed,
        }
    }
}

/// The characters of an optional error name.
pub open spec fn error_name(error: Option<&str>) -> Option<Seq<char>> {
    match error {
        Some(e) => Some(e@),
        None => None,
    }
}

/// The state after a mint answer.
pub open spec fn mint_transition(state: MinerState, status: u16, has_token: bool, error: Option<Seq<char>>) -> MinerState {
    match mint_step(state, status, has_token, error) {
        MintStep::Minted { session_count } => MinerState { minted: session_count, ..state },
        _ => state,
    }
}

/// How long to pause after a mint step before the next challenge; `None`
/// when mining stops.
pub open spec fn pause_after_mint(step: MintStep) -> Option<u64> {
    match step {
        MintStep::SupplyExhausted => None,
        MintStep::DailyCapReached => Some(DAILY_CAP_SECS),
        MintStep::ChallengeExpired => Some(0),
        _ => Some(CHALLENGE_INTERVAL_SECS),
    }
}

impl MinerState {
    /// The counters hold their invariant: fewer than the retry limit of
    /// refusals in a row.
    pub open spec fn wf(self) -> bool {
        self.auth_failures < AUTH_RETRY_LIMIT
    }

    /// A fresh session: no refusals, nothing minted.
    pub fn new() -> (state: MinerState)
        ensures
            state.wf(),
            state.auth_failures == 0,
            state.minted == 0,
    {
        MinerState { auth_failures: 0, minted: 0 }
    }

    /// Handles the status of a challenge answer.
    pub fn on_challenge_status(&mut self, status: u16) -> (step: ChallengeStep)
        requires
            old(self).wf(),
        ensures
            final(self).wf(),
            (*final(self), step) == challenge_transition(*old(self), status),
    {
        if status == 401 {
            let failures = self.auth_failures + 1;
            if failures >= AUTH_RETRY_LIMIT {
                self.auth_failures = 0;
                ChallengeStep::Relogin
            } else {
                self.auth_failures = failures;
                ChallengeStep::RetryAuth { attempt: failures }
            }
        } else {
            self.auth_failures = 0;
            if status == 410 {
                ChallengeStep::SupplyExhausted
            } else if status == 429 {
                ChallengeStep::Cooldown
            } else if !is_success(status) {
                ChallengeStep::ApiError
            } else {
                ChallengeStep::Mine
            }
        }
    }

    /// Handles the answer to a mint request: its status, whether it carried
    /// a token, and the error name it gave.
    pub fn on_mint_reply(&mut self, status: u16, has_token: bool, error: Option<&str>) -> (step: MintStep)
        requires
            old(self).wf(),
            old(self).minted < u64::MAX,
        ensures
            final(self).wf(),
            step == mint_step(*old(self), status, has_token, error_name(error)),
            *final(self) == mint_transition(*old(self), status, has_token, error_name(error)),
    {
        let step = if is_success(status) {
            if has_token {
                self.minted = self.minted + 1;
                MintStep::Minted { session_count: self.minted }
            } else {
                MintStep::NoToken
            }
        } else {
            match error {
                Some(e) => {
                    let name = e.to_owned();
                    if name == "DAILY_CAP_REACHED".to_owned() {
                        MintStep::DailyCapReached
                    } else if name == "SUPPLY_EXHAUSTED".to_owned() {
                        MintStep::SupplyExhausted
                    } else if name == "CHALLENGE_EXPIRED".to_owned() {
                        MintStep::ChallengeExpired
                    } else {
                        MintStep::Failed
                    }
                },
                None => MintStep::Failed,
            }
        };
        step
    }
}

/// The wait after a `429`: what the answer asked for, else the default.
pub fn cooldown_secs(retry_after: Option<u64>) -> (secs: u64)
    ensures
        secs == match retry_after {
            Some(s) => s,
            None => DEFAULT_COOLDOWN_SECS,
        },
{
    match retry_after {
        Some(s) => s,
        None => DEFAULT_COOLDOWN_SECS,
    }
}

/// The pause after a mint step; `None` when mining stops.
pub fn pause_after(step: MintStep) -> (pause: Option<u64>)
    ensures
        pause == pause_after_mint(step),
{
    match step {
        MintStep::SupplyExhausted => None,
        MintStep::DailyCapReached => Some(DAILY_CAP_SECS),
        MintStep::ChallengeExpired => Some(0),
        _ => Some(CHALLENGE_INTERVAL_SECS),
    }
}

/// Any answer other than `401` clears the count of refusals; no challenge
/// answer changes the number of tokens minted; only `410` stops mining
/// (a server error such as `504` is retried); the invariant is kept.
pub proof fn lemma_challenge_answer_effects(state: MinerState, status: u16)
    requires
        state.wf(),
    ensures
        challenge_transition(state, status).0.wf(),
        challenge_transition(state, status).1 == ChallengeStep::SupplyExhausted <==> status == 410,
        500 <= status <= 599 ==> challenge_transition(state, status).1 == ChallengeStep::ApiError,
        challenge_transition(state, status).0.minted == state.minted,
        status != 401 ==> challenge_transition(state, status).0.auth_failures == 0,
{
}

/// A `401` leads to a new login exactly when it completes the run of
/// refusals allowed; before that it leads to a retry numbered by the run.
pub proof fn lemma_relogin_after_retry_limit(state: MinerState)
    requires
        state.wf(),
    ensures
        challenge_transition(state, 401).1 == ChallengeStep::Relogin
            <==> state.auth_failures + 1 == AUTH_RETRY_LIMIT,
        state.auth_failures + 1 < AUTH_RETRY_LIMIT ==> challenge_transition(state, 401).1
            == (ChallengeStep::RetryAuth { attempt: (state.auth_failures + 1) as u32 }),
{
}

/// From a fresh count, three `401` answers in a row give two retries and
/// then a new login, after which the count starts again from zero.
pub proof fn lemma_three_refusals_then_relogin(state: MinerState)
    requires
        state.auth_failures == 0,
    ensures
        ({
            let (s1, a1) = challenge_transition(state, 401);
            let (s2, a2) = challenge_transition(s1, 401);
            let (s3, a3) = challenge_transition(s2, 401);
            &&& a1 == ChallengeStep::RetryAuth { attempt: 1 }
            &&& a2 == ChallengeStep::RetryAuth { attempt: 2 }
            &&& a3 == ChallengeStep::Relogin
            &&& s3.auth_failures == 0
        }),
{
}

/// The session counter counts minted tokens: it grows by one exactly when
/// a token was minted and is reported as the new count.
pub proof fn lemma_minted_counts_tokens(state: MinerState, status: u16, has_token: bool, error: Option<Seq<char>>)
    requires
        state.wf(),
        state.minted < u64::MAX,
    ensures
        mint_transition(state, status, has_token, error).wf(),
        mint_transition(state, status, has_token, error).minted == state.minted + (if mint_step(state, status, has_token, error) is Minted { 1int } else { 0int }),
        mint_step(state, status, has_token, error) is Minted <==> (is_success_status(status) && has_token),
        mint_step(state, status, has_token, error) matches MintStep::Minted { session_count }
            ==> session_count == mint_transition(state, status, has_token, error).minted,
{
}

/// A challenge answer other than `401` decides the step by its status
/// alone, whatever the counters: `410` stops, `429` cools down, any `2xx`
/// is mined, anything else is an error to retry.
pub proof fn lemma_challenge_step_by_status(state: MinerState, status: u16)
    requires
        status != 401,
    ensures
        status == 410 ==> challenge_transition(state, status).1 == ChallengeStep::SupplyExhausted,
        status == 429 ==> challenge_transition(state, status).1 == ChallengeStep::Cooldown,
        200 <= status <= 299 ==> challenge_transition(state, status).1 == ChallengeStep::Mine,
        status != 410 && status != 429 && !(200 <= status <= 299)
            ==> challenge_transition(state, status).1 == ChallengeStep::ApiError,
        forall|other: MinerState| #[trigger] challenge_transition(other, status).1 == challenge_transition(state, status).1,
{
}

/// A mint answer decides the step by its status, its token and its error
/// name, whatever the counters: a `2xx` with a token mints the next token
/// of the session, a `2xx` without one is a refusal without a token, and a
/// refusal is the daily cap, the exhausted supply or an expired challenge
/// exactly when the server names that error, else a plain failure.
pub proof fn lemma_mint_step_by_answer(state: MinerState, status: u16, has_token: bool, error: Option<Seq<char>>)
    ensures
        (200 <= status <= 299 && has_token) ==> mint_step(state, status, has_token, error)
            == (MintStep::Minted { session_count: (state.minted + 1) as u64 }),
        (200 <= status <= 299 && !has_token) ==> mint_step(state, status, has_token, error) == MintStep::NoToken,
        !(200 <= status <= 299) ==> (mint_step(state, status, has_token, error) == MintStep::DailyCapReached
            <==> error == Some("DAILY_CAP_REACHED"@)),
        mint_step(state, status, has_token, error) == MintStep::SupplyExhausted
            <==> (!(200 <= status <= 299) && error == Some("SUPPLY_EXHAUSTED"@)),
        mint_step(state, status, has_token, error) == MintStep::ChallengeExpired
            <==> (!(200 <= status <= 299) && error == Some("CHALLENGE_EXPIRED"@)),
        !(200 <= status <= 299) ==> forall|other: MinerState|
            #[trigger] mint_step(other, status, has_token, error) == mint_step(state, status, has_token, error),
{
    reveal_strlit("DAILY_CAP_REACHED");
    reveal_strlit("SUPPLY_EXHAUSTED");
    reveal_strlit("CHALLENGE_EXPIRED");
    assert("DAILY_CAP_REACHED"@ != "SUPPLY_EXHAUSTED"@) by {
        assert("DAILY_CAP_REACHED"@.len() != "SUPPLY_EXHAUSTED"@.len());
    }
    assert("DAILY_CAP_REACHED"@ != "CHALLENGE_EXPIRED"@) by {
        assert("DAILY_CAP_REACHED"@[0] != "CHALLENGE_EXPIRED"@[0]);
    }
    assert("SUPPLY_EXHAUSTED"@ != "CHALLENGE_EXPIRED"@) by {
        assert("SUPPLY_EXHAUSTED"@.len() != "CHALLENGE_EXPIRED"@.len());
    }
}

/// The pauses after a mint: a minute at the daily cap, none after an
/// expired challenge, a stop when the supply is exhausted, and the five
/// seconds between challenges otherwise.
pub proof fn lemma_pause_after_mint(step: MintStep)
    ensures
        step == MintStep::DailyCapReached ==> pause_after_mint(step) == Some(60u64),
        step == MintStep::ChallengeExpired ==> pause_after_mint(step) == Some(0u64),
        pause_after_mint(step) is None <==> step == MintStep::SupplyExhausted,
        (step is Minted || step == MintStep::NoToken || step == MintStep::Failed)
            ==> pause_after_mint(step) == Some(5u64),
{
}

} // verus!
