use vstd::prelude::*;

verus! {

/// An authenticated session: a bearer token and the expiry of the session,
/// in seconds since the Unix epoch.
#[derive(Debug)]
pub struct Session {
    pub token: String,
    pub expires_at: u64,
}

/// Login failure: a required credential field was empty.
#[derive(Debug)]
pub struct LoginError;

/// How long a session stays valid after it is issued or refreshed.
pub const SESSION_DURATION_SECS: u64 = 24 * 60 * 60;

/// The expiry timestamp a session gets when it is issued or refreshed at time
/// `now`: one full day later, saturating at the largest representable time.
pub open spec fn expiry_from(now: u64) -> u64 {
    if now <= u64::MAX - SESSION_DURATION_SECS {
        (now + SESSION_DURATION_SECS) as u64
    } else {
        u64::MAX
    }
}

/// Relies on std::time::SystemTime::now, read as seconds since the Unix epoch
/// through duration_since: the current wall-clock time. Nothing is promised of
/// the value, since it depends on the clock at the moment of the call.
#[verifier::external_body]
fn now_secs() -> u64 {
    match std::time::SystemTime::now().duration_since(std::time::UNIX_EPOCH) {
        Ok(d) => d.as_secs(),
        Err(_) => 0,
    }
}

/// The expiry for a session issued or refreshed at time `now`.
pub fn session_expiry(now: u64) -> (r: u64)
    ensures
        r == expiry_from(now),
{
    if now <= u64::MAX - SESSION_DURATION_SECS {
        now + SESSION_DURATION_SECS
    } else {
        u64::MAX
    }
}

/// The session issued to `username` at time `now`: a token of "tok_" followed
/// by the username, expiring one day after `now`.
pub fn make_session(username: &str, now: u64) -> (s: Session)
    ensures
        s.token@ == "tok_"@ + username@,
        s.expires_at == expiry_from(now),
{
    Session { token: String::from_str("tok_").concat(username), expires_at: session_expiry(now) }
}

/// Checks the credentials and issues a session. Fails exactly when either
/// field is empty; on success the session is the one `make_session` issues for
/// the username at the time of the call.
pub fn login(username: &str, password: &str) -> (r: Result<Session, LoginError>)
    ensures
        r is Ok <==> username@.len() > 0 && password@.len() > 0,
        r matches Ok(s) ==> ({
            &&& s.token@ == "tok_"@ + username@
            &&& exists|now: u64| s.expires_at == expiry_from(now)
        }),
{
    if username.is_empty() || password.is_empty() {
        return Err(LoginError);
    }
    let now = now_secs();
    let s = make_session(username, now);
    proof {
        assert(s.expires_at == expiry_from(now));
    }
    Ok(s)
}

/// Ends the session by consuming it: a moved-out session cannot be presented
/// again.
pub fn logout(_session: Session) {
}

/// Extends the session: its expiry becomes one day after the time of the call;
/// the token is unchanged.
pub fn refresh(session: &mut Session)
    ensures
        final(session).token == old(session).token,
        exists|now: u64| final(session).expires_at == expiry_from(now),
{
    let now = now_secs();
    session.expires_at = session_expiry(now);
}

}
