use rpow2_miner::auth::{classify_auth_reply, email_accepted, is_success, token_verified, AuthNotice};
use rpow2_miner::miner::{
    cooldown_secs, pause_after, ChallengeStep, MinerState, MintStep, CHALLENGE_INTERVAL_SECS,
    DAILY_CAP_SECS, DEFAULT_COOLDOWN_SECS,
};

#[test]
fn success_statuses() {
    assert!(is_success(200));
    assert!(is_success(299));
    assert!(!is_success(199));
    assert!(!is_success(302));
    assert!(!is_success(401));
}

#[test]
fn auth_reply_notices() {
    assert_eq!(classify_auth_reply(200, ""), AuthNotice::LinkSent);
    assert_eq!(classify_auth_reply(429, "slow down"), AuthNotice::RateLimited);
    assert_eq!(classify_auth_reply(403, "{\"error\":\"TURNSTILE_REQUIRED\"}"), AuthNotice::CaptchaRequired);
    assert_eq!(classify_auth_reply(403, "BLOCKED by policy"), AuthNotice::CaptchaRequired);
    assert_eq!(classify_auth_reply(500, "internal"), AuthNotice::RequestFailed);
}

#[test]
fn login_checks() {
    assert!(email_accepted("a@b.c"));
    assert!(!email_accepted(""));
    assert!(token_verified(302));
    assert!(token_verified(200));
    assert!(!token_verified(401));
    assert!(!token_verified(204));
}

#[test]
fn three_refusals_lead_to_relogin() {
    let mut state = MinerState::new();
    assert_eq!(state.on_challenge_status(401), ChallengeStep::RetryAuth { attempt: 1 });
    assert_eq!(state.on_challenge_status(401), ChallengeStep::RetryAuth { attempt: 2 });
    assert_eq!(state.on_challenge_status(401), ChallengeStep::Relogin);
    assert_eq!(state.auth_failures, 0);
}

#[test]
fn other_answer_resets_refusals() {
    let mut state = MinerState::new();
    assert_eq!(state.on_challenge_status(401), ChallengeStep::RetryAuth { attempt: 1 });
    assert_eq!(state.on_challenge_status(200), ChallengeStep::Mine);
    assert_eq!(state.auth_failures, 0);
    assert_eq!(state.on_challenge_status(401), ChallengeStep::RetryAuth { attempt: 1 });
}

#[test]
fn challenge_statuses() {
    let mut state = MinerState::new();
    assert_eq!(state.on_challenge_status(410), ChallengeStep::SupplyExhausted);
    assert_eq!(state.on_challenge_status(429), ChallengeStep::Cooldown);
    assert_eq!(state.on_challenge_status(504), ChallengeStep::ApiError);
    assert_eq!(state.on_challenge_status(302), ChallengeStep::ApiError);
    assert_eq!(state.on_challenge_status(201), ChallengeStep::Mine);
    assert_eq!(state.minted, 0);
}

#[test]
fn cooldown_wait() {
    assert_eq!(cooldown_secs(Some(12)), 12);
    assert_eq!(cooldown_secs(None), DEFAULT_COOLDOWN_SECS);
    assert_eq!(DEFAULT_COOLDOWN_SECS, 5);
}

#[test]
fn minted_tokens_are_counted() {
    let mut state = MinerState::new();
    assert_eq!(state.on_mint_reply(200, true, None), MintStep::Minted { session_count: 1 });
    assert_eq!(state.on_mint_reply(200, false, Some("WHATEVER")), MintStep::NoToken);
    assert_eq!(state.on_mint_reply(400, false, Some("CHALLENGE_EXPIRED")), MintStep::ChallengeExpired);
    assert_eq!(state.on_mint_reply(200, true, None), MintStep::Minted { session_count: 2 });
    assert_eq!(state.minted, 2);
}

#[test]
fn mint_refusals() {
    let mut state = MinerState::new();
    assert_eq!(state.on_mint_reply(429, false, Some("DAILY_CAP_REACHED")), MintStep::DailyCapReached);
    assert_eq!(state.on_mint_reply(410, false, Some("SUPPLY_EXHAUSTED")), MintStep::SupplyExhausted);
    assert_eq!(state.on_mint_reply(400, false, Some("BAD_SOLUTION")), MintStep::Failed);
    assert_eq!(state.on_mint_reply(500, false, None), MintStep::Failed);
    assert_eq!(state.minted, 0);
}

#[test]
fn pauses_after_mint() {
    assert_eq!(pause_after(MintStep::Minted { session_count: 1 }), Some(CHALLENGE_INTERVAL_SECS));
    assert_eq!(pause_after(MintStep::NoToken), Some(5));
    assert_eq!(pause_after(MintStep::Failed), Some(5));
    assert_eq!(pause_after(MintStep::DailyCapReached), Some(DAILY_CAP_SECS));
    assert_eq!(pause_after(MintStep::DailyCapReached), Some(60));
    assert_eq!(pause_after(MintStep::ChallengeExpired), Some(0));
    assert_eq!(pause_after(MintStep::SupplyExhausted), None);
}
