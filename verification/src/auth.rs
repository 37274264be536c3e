//! Decisions of the login flow: what the answer to a magic-link request
//! means, and when a token counts as verified.

use vstd::prelude::*;
use crate::text::contains_text;
use crate::text::text_contains;
use crate::text::lemma_contains_text;

verus! {

/// A `2xx` status, as `StatusCode::is_success` decides it.
pub open spec fn is_success_status(status: u16) -> bool {
    200 <= status <= 299
}

/// Whether `status` is a success status (`2xx`).
pub fn is_success(status: u16) -> (success: bool)
    ensures
        success == is_success_status(status),
{
    200 <= status && status <= 299
}

/// What the client tells the user after asking for a magic link.
#[derive(Debug, Clone, Copy, PartialEq, Eq, Structural)]
pub enum AuthNotice {
    /// The link was sent.
    LinkSent,
    /// Too many requests; a recent link may still be in the inbox.
    RateLimited,
    /// The server wants a CAPTCHA or blocked the request: log in through
    /// the web site and paste the link.
    CaptchaRequired,
    /// Any other refusal.
    RequestFailed,
}

/// The notice for an answer to a magic-link request, from its status and
/// (for a refusal) its body.
pub open spec fn auth_notice(status: u16, body: Seq<char>) -> AuthNotice {
    if is_success_status(status) {
        AuthNotice::LinkSent
    } else if status == 429 {
        AuthNotice::RateLimited
    } else if contains_text(body, "TURNSTILE_REQUIRED"@) || contains_text(body, "BLOCKED"@) {
        AuthNotice::CaptchaRequired
    } else {
        AuthNotice::RequestFailed
    }
}

/// Classifies the answer to a magic-link request.
pub fn classify_auth_reply(status: u16, body: &str) -> (notice: AuthNotice)
    ensures
        notice == auth_notice(status, body@),
{
    if is_success(status) {
        AuthNotice::LinkSent
    } else if status == 429 {
        AuthNotice::RateLimited
    } else if text_contains(body, "TURNSTILE_REQUIRED") || text_contains(body, "BLOCKED") {
        AuthNotice::CaptchaRequired
    } else {
        AuthNotice::RequestFailed
    }
}

/// An e-mail address can be used to log in when it is not empty.
pub fn email_accepted(email: &str) -> (accepted: bool)
    ensures
        accepted == (email@.len() > 0),
{
    !email.is_empty()
}

/// The token was accepted: the server answered with a redirect that sets
/// the session cookie (302) or with 200.
pub fn token_verified(status: u16) -> (verified: bool)
    ensures
        verified == (status == 302 || status == 200),
{
    status == 302 || status == 200
}

/// The notice after asking for a magic link: every `2xx` means the link was
/// sent, `429` means rate limited, and any other answer asks for the web
/// site exactly when its body names `TURNSTILE_REQUIRED` or `BLOCKED`
/// somewhere; a refusal never ends the login.
pub proof fn lemma_auth_notice_by_answer(status: u16, head: Seq<char>, tail: Seq<char>, body: Seq<char>)
    ensures
        200 <= status <= 299 ==> auth_notice(status, body) == AuthNotice::LinkSent,
        status == 429 ==> auth_notice(status, body) == AuthNotice::RateLimited,
        !(200 <= status <= 299) && status != 429 ==> auth_notice(status, head + "TURNSTILE_REQUIRED"@ + tail)
            == AuthNotice::CaptchaRequired,
        !(200 <= status <= 299) && status != 429 ==> auth_notice(status, head + "BLOCKED"@ + tail)
            == AuthNotice::CaptchaRequired,
        !(200 <= status <= 299) && status != 429 && body.len() < 7 ==> auth_notice(status, body)
            == AuthNotice::RequestFailed,
{
    lemma_contains_text(head, "TURNSTILE_REQUIRED"@, tail, body);
    lemma_contains_text(head, "BLOCKED"@, tail, body);
    reveal_strlit("TURNSTILE_REQUIRED");
    reveal_strlit("BLOCKED");
    lemma_contains_text(Seq::empty(), "TURNSTILE_REQUIRED"@, Seq::empty(), body);
    lemma_contains_text(Seq::empty(), "BLOCKED"@, Seq::empty(), body);
}

} // verus!
