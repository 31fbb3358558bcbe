//! Sessions: who is logged in, under which token, since when.

use crate::decimal::decimal_chars;
use crate::decimal::token_text;
use crate::user::hash_text;
use crate::user::spec_hash;
use crate::user::User;
use std::time::Duration;
use std::time::SystemTime;
use std::time::SystemTimeError;
use std::time::UNIX_EPOCH;
use vstd::prelude::*;
use vstd::string::*;

verus! {

/// `std::time::SystemTime`, a reading of the system clock. Nothing is known
/// of what a value holds.
#[verifier::external_type_specification]
#[verifier::external_body]
pub struct ExSystemTime(SystemTime);

/// `std::time::SystemTimeError`, which reports that one reading lies before
/// another.
#[verifier::external_type_specification]
#[verifier::external_body]
pub struct ExSystemTimeError(SystemTimeError);

/// `SystemTime::now` reads the system clock. The reading depends on the
/// moment of the call, so nothing is claimed of it.
pub assume_specification[ SystemTime::now ]() -> (t: SystemTime)
;

/// `Duration::as_secs` gives the whole seconds in a duration. Nothing is
/// claimed of the number.
pub assume_specification[ Duration::as_secs ](d: &Duration) -> (secs: u64)
;

/// `SystemTime::duration_since`, asked for the time from the Unix epoch to
/// `t`. It fails where `t` lies before the epoch; nothing more is claimed.
#[verifier::external_body]
fn since_epoch(t: &SystemTime) -> (r: Result<Duration, SystemTimeError>) {
    t.duration_since(UNIX_EPOCH)
}

/// The system clock in whole seconds since the Unix epoch, or `None` where
/// the clock stands before the epoch.
pub(crate) fn unix_seconds() -> (r: Option<u64>) {
    let t = SystemTime::now();
    match since_epoch(&t) {
        Ok(d) => Some(d.as_secs()),
        Err(_) => None,
    }
}

/// The token of a session that starts at `now` for the user `name`: the hash
/// of the name followed by the time in decimal.
pub open spec fn spec_token(name: Seq<char>, now: u64) -> u64 {
    spec_hash(name + decimal_chars(now as nat))
}

/// A live login. The token `id` is what the client's cookie carries.
#[derive(Debug)]
pub struct Session {
    pub user_name: String,
    pub id: u64,
    pub creation_timestamp: u64,
    pub last_action_timestamp: u64,
}

/// What a session is to the contracts.
pub struct SessionView {
    pub user_name: Seq<char>,
    pub id: u64,
    pub created_at: u64,
    pub last_seen_at: u64,
}

impl View for Session {
    type V = SessionView;

    open spec fn view(&self) -> SessionView {
        SessionView {
            user_name: self.user_name@,
            id: self.id,
            created_at: self.creation_timestamp,
            last_seen_at: self.last_action_timestamp,
        }
    }
}

/// The session that starts at `now` for the user `name`.
pub open spec fn session_at(name: Seq<char>, now: u64) -> SessionView {
    SessionView { user_name: name, id: spec_token(name, now), created_at: now, last_seen_at: now }
}

/// Computes the token of a session that starts at `now` for `name`.
pub fn session_token(name: &str, now: u64) -> (token: u64)
    ensures
        token == spec_token(name@, now),
{
    let stamp = token_text(now);
    let keyed = String::from_str(name).concat(stamp.as_str());
    hash_text(keyed.as_str())
}

impl Clone for Session {
    fn clone(&self) -> (r: Self)
        ensures
            r@ == self@,
    {
        Session {
            user_name: self.user_name.clone(),
            id: self.id,
            creation_timestamp: self.creation_timestamp,
            last_action_timestamp: self.last_action_timestamp,
        }
    }
}

impl Session {
    /// The session that starts at `now` for `user`.
    pub fn at(user: &User, now: u64) -> (s: Session)
        ensures
            s@ == session_at(user@.name, now),
    {
        Session {
            user_name: user.name.clone(),
            id: session_token(user.name.as_str(), now),
            creation_timestamp: now,
            last_action_timestamp: now,
        }
    }

    /// The session that starts now for `user`, by the system clock; `None`
    /// where the clock stands before the Unix epoch.
    pub fn new(user: &User) -> (r: Option<Session>)
        ensures
            match r {
                Some(s) => exists|now: u64| s@ == session_at(user@.name, now),
                None => true,
            },
    {
        Session::at_reading(user, unix_seconds())
    }

    /// The session that starts for `user` at the time a reading of the clock
    /// gave: a reading in seconds since the Unix epoch starts a session at
    /// that time, and a clock that stood before the epoch starts none.
    pub fn at_reading(user: &User, reading: Option<u64>) -> (r: Option<Session>)
        ensures
            match reading {
                Some(now) => r is Some && r.unwrap()@ == session_at(user@.name, now),
                None => r is None,
            },
    {
        match reading {
            Some(now) => Some(Session::at(user, now)),
            None => None,
        }
    }
}

} // verus!
