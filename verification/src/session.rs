//! The session: authorization and rate limiting for the messaging platform.
//!
//! The session owns the account credentials, a cached bearer token with its
//! expiry, and the remaining rate budget with its reset time. Every outbound
//! call is gated by `prepare`, carries a bearer token, and feeds the response
//! headers back through `update`. Time is threaded through as seconds, so the
//! whole state machine is checked; the caller supplies the clock, performs
//! the waits, and carries the wire traffic.

use vstd::prelude::*;

use crate::text::{parse_u64, parse_u64_spec};

verus! {

/// An error that might occur during a platform request.
#[derive(Debug)]
pub enum RedditError {
    /// Bad client id or secret
    Unauthorized,
    /// Bad account username or password
    BadCredentials,
    /// Another status that is not success
    OtherStatus(u16),
    /// Another error, carrying its description
    OtherError(String),
}

/// A successful login body: the granted token and its lifetime in seconds.
pub struct LoginResponse {
    pub access_token: String,
    pub expires_in: u64,
}

/// The session state, as one mathematical value.
pub ghost struct SessionView {
    pub id: Seq<char>,
    pub secret: Seq<char>,
    pub user: Seq<char>,
    pub pass: Seq<char>,
    pub token: Option<Seq<char>>,
    pub expires: u64,
    pub remain: u32,
    pub reset: u64,
}

/// Whether the cached token must be re-acquired at time `now`: there is no
/// token, it has expired, or it expires within 90 seconds.
pub open spec fn token_expired_spec(s: SessionView, now: u64) -> bool {
    s.token is None || now > s.expires || s.expires - now < 90
}

/// How long `prepare` waits at time `now`: until the budget reset whenever
/// fewer than two calls remain (one for the request, one for a possible
/// re-authorization).
pub open spec fn prepare_spec(s: SessionView, now: u64) -> Option<u64> {
    if s.remain < 2 && now < s.reset {
        Some((s.reset - now) as u64)
    } else {
        None
    }
}

/// `a + b`, stopped at the top of the range.
pub open spec fn add_sat(a: u64, b: u64) -> u64 {
    if a + b <= u64::MAX {
        (a + b) as u64
    } else {
        u64::MAX
    }
}

/// A reddit session.
///
/// This structure handles authorization and rate limiting. To make sure a
/// request will be handled properly, call `prepare` before the request, and
/// `update` after it.
#[derive(Debug)]
pub struct Session {
    id: String,
    secret: String,
    user: String,
    pass: String,
    token: Option<String>,
    expires: u64,
    remain: u32,
    reset: u64,
}

impl View for Session {
    type V = SessionView;

    closed spec fn view(&self) -> SessionView {
        SessionView {
            id: self.id@,
            secret: self.secret@,
            user: self.user@,
            pass: self.pass@,
            token: match self.token {
                Option::Some(t) => Some(t@),
                Option::None => None,
            },
            expires: self.expires,
            remain: self.remain,
            reset: self.reset,
        }
    }
}

impl Session {
    /// Make a new Session. It starts with no token and an exhausted budget
    /// whose reset is already past.
    pub fn new(id: String, secret: String, user: String, pass: String) -> (s: Session)
        ensures
            s@.id == id@,
            s@.secret == secret@,
            s@.user == user@,
            s@.pass == pass@,
            s@.token is None,
            s@.expires == 0,
            s@.remain == 0,
            s@.reset == 0,
    {
        Session { id, secret, user, pass, token: None, expires: 0, remain: 0, reset: 0 }
    }

    /// The user agent carried by every request: the account name and the
    /// version.
    pub fn user_agent(&self) -> (r: String)
        ensures
            r@ == self@.user + "/"@ + crate::VERSION@,
    {
        let mut ua = self.user.clone();
        ua.append("/");
        ua.append(crate::VERSION);
        ua
    }

    /// The client id the session authenticates with.
    pub fn client_id(&self) -> (r: &String)
        ensures
            r@ == self@.id,
    {
        &self.id
    }

    /// The client secret the session authenticates with.
    pub fn client_secret(&self) -> (r: &String)
        ensures
            r@ == self@.secret,
    {
        &self.secret
    }

    /// The account username the session logs in as.
    pub fn username(&self) -> (r: &String)
        ensures
            r@ == self@.user,
    {
        &self.user
    }

    /// The account password the session logs in with.
    pub fn password(&self) -> (r: &String)
        ensures
            r@ == self@.pass,
    {
        &self.pass
    }

    /// Whether the cached token must be re-acquired at time `now`.
    pub fn token_expired(&self, now: u64) -> (r: bool)
        ensures
            r == token_expired_spec(self@, now),
    {
        match &self.token {
            Option::None => true,
            Option::Some(_) => now > self.expires || self.expires - now < 90,
        }
    }

    /// The cached bearer token, when it is still good at time `now`.
    pub fn cached_bearer(&self, now: u64) -> (r: Option<String>)
        ensures
            (r is Some) == !token_expired_spec(self@, now),
            r matches Some(t) ==> self@.token matches Some(v) && t@ == v,
    {
        if self.token_expired(now) {
            None
        } else {
            match &self.token {
                Option::Some(t) => Some(t.clone()),
                Option::None => None,
            }
        }
    }

    /// Take in the outcome of a token-acquisition call: a success stores the
    /// token and its expiry; any failure leaves the session unchanged and
    /// names the reason.
    pub fn absorb_login(&mut self, status: u16, body: Option<LoginResponse>, now: u64) -> (r:
        Result<String, RedditError>)
        ensures
            ({
                if status == 200 {
                    match body {
                        Option::Some(login) => {
                            &&& final(self)@ == (SessionView {
                                token: Some(login.access_token@),
                                expires: add_sat(now, login.expires_in),
                                ..old(self)@
                            })
                            &&& r matches Ok(t) && t@ == login.access_token@
                        },
                        Option::None => {
                            &&& final(self)@ == old(self)@
                            &&& r matches Err(RedditError::BadCredentials)
                        },
                    }
                } else if status == 401 {
                    &&& final(self)@ == old(self)@
                    &&& r matches Err(RedditError::Unauthorized)
                } else {
                    &&& final(self)@ == old(self)@
                    &&& r matches Err(RedditError::OtherStatus(c)) && c == status
                }
            }),
    {
        if status == 200 {
            match body {
                Option::Some(login) => {
                    let token = login.access_token;
                    let expires_in = login.expires_in;
                    self.token = Some(token.clone());
                    self.expires = if expires_in <= u64::MAX - now {
                        now + expires_in
                    } else {
                        u64::MAX
                    };
                    Ok(token)
                },
                Option::None => Err(RedditError::BadCredentials),
            }
        } else if status == 401 {
            Err(RedditError::Unauthorized)
        } else {
            Err(RedditError::OtherStatus(status))
        }
    }

    /// Prepare for a platform request at time `now`: how long to wait before
    /// issuing it, if the budget does not cover the request and one possible
    /// re-authorization.
    pub fn prepare(&self, now: u64) -> (r: Option<u64>)
        ensures
            r == prepare_spec(self@, now),
    {
        if self.remain < 2 && now < self.reset {
            Some(self.reset - now)
        } else {
            None
        }
    }

    /// Update the rate-limit state from the two rate headers, at time `now`.
    ///
    /// Returns true if both headers were present and parsed; otherwise the
    /// state is left unchanged.
    pub fn update(&mut self, remain: Option<u32>, reset: Option<&str>, now: u64) -> (r: bool)
        ensures
            r == (remain is Some && reset is Some && parse_u64_spec(reset.unwrap()@) is Some),
            r ==> final(self)@ == (SessionView {
                remain: remain.unwrap(),
                reset: add_sat(now, parse_u64_spec(reset.unwrap()@).unwrap()),
                ..old(self)@
            }),
            !r ==> final(self)@ == old(self)@,
    {
        let rm: u32 = match remain {
            Option::Some(v) => v,
            Option::None => {
                return false;
            },
        };
        let rs: &str = match reset {
            Option::Some(v) => v,
            Option::None => {
                return false;
            },
        };
        let secs: u64 = match parse_u64(rs) {
            Option::Some(v) => v,
            Option::None => {
                return false;
            },
        };
        self.remain = rm;
        self.reset = if secs <= u64::MAX - now {
            now + secs
        } else {
            u64::MAX
        };
        true
    }
}

} // verus!
