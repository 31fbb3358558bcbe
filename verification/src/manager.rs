//! The manager: the registry of users and the table of live sessions, with
//! the operations the transport calls.

use crate::decimal::decimal_chars;
use crate::decimal::cookie_token;
use crate::decimal::law_cookie_round_trip;
use crate::decimal::spec_cookie_token;
use crate::decimal::token_text;
use crate::error::CoreError;
use crate::session::session_at;
use crate::session::spec_token;
use crate::session::unix_seconds;
use crate::session::Session;
use crate::session::SessionView;
use crate::state::distinct_names;
use crate::state::evict;
use crate::state::law_login_then_resolve;
use crate::state::lemma_add_user_wf;
use crate::state::lemma_invalidate_wf;
use crate::state::lemma_session_wf;
use crate::state::State;
use crate::user::user_of;
use crate::user::LoginData;
use crate::user::User;
use crate::user::UserView;
use vstd::prelude::*;
use vstd::string::*;

verus! {

/// The views of a sequence of users, place by place.
pub open spec fn users_view(users: Seq<User>) -> Seq<UserView> {
    Seq::new(users.len(), |i: int| users[i]@)
}

/// The views of a sequence of sessions, place by place.
pub open spec fn sessions_view(sessions: Seq<Session>) -> Seq<SessionView> {
    Seq::new(sessions.len(), |i: int| sessions[i]@)
}

/// The cookies of one client, as far as the core reads and writes them: the
/// value of `session-id`, if the client holds one.
pub struct CookieJar {
    pub session_id: Option<String>,
}

/// The text of the `session-id` cookie in a jar, if there is one.
pub open spec fn cookie_text(jar: CookieJar) -> Option<Seq<char>> {
    match jar.session_id {
        Some(text) => Some(text@),
        None => None,
    }
}

/// The user that a client's cookie stands for: a client without a cookie, or
/// with one whose value, quoted or not, is no token, has no session.
pub open spec fn spec_current_user(s: State, cookie: Option<Seq<char>>) -> Result<
    UserView,
    CoreError,
> {
    match cookie {
        None => Err(CoreError::SessionMissing),
        Some(text) => match spec_cookie_token(text) {
            None => Err(CoreError::SessionMissing),
            Some(token) => s.resolve(token),
        },
    }
}

/// Whether every record of a journal was read as a user.
pub open spec fn all_present(records: Seq<Option<User>>) -> bool {
    forall|i: int| 0 <= i < records.len() ==> (#[trigger] records[i]) is Some
}

/// The users that the records of a journal were read as, place by place.
pub open spec fn present_users(records: Seq<Option<User>>) -> Seq<UserView> {
    Seq::new(records.len(), |i: int| records[i].unwrap()@)
}

/// Holds the registered users and the live sessions.
#[derive(Debug)]
pub struct UserManager {
    users: Vec<User>,
    sessions: Vec<Session>,
}

impl View for UserManager {
    type V = State;

    closed spec fn view(&self) -> State {
        State { users: users_view(self.users@), sessions: sessions_view(self.sessions@) }
    }
}

impl Default for UserManager {
    /// The manager with no user and no session.
    fn default() -> (m: UserManager)
        ensures
            m.wf(),
            m@ == (State { users: Seq::<UserView>::empty(), sessions: Seq::<SessionView>::empty() }),
    {
        let m = UserManager { users: Vec::new(), sessions: Vec::new() };
        assert(m@.users =~= Seq::<UserView>::empty());
        assert(m@.sessions =~= Seq::<SessionView>::empty());
        m
    }
}

/// A place at which a user of that name stands, if there is one.
fn position_of(users: &Vec<User>, name: &String) -> (r: Option<usize>)
    ensures
        match r {
            Some(i) => i < users@.len() && users@[i as int].name@ == name@,
            None => forall|k: int| 0 <= k < users@.len() ==> (#[trigger] users@[k]).name@ != name@,
        },
{
    let mut i: usize = 0;
    while i < users.len()
        invariant
            i <= users@.len(),
            forall|k: int| 0 <= k < i ==> (#[trigger] users@[k]).name@ != name@,
        decreases users@.len() - i,
    {
        if users[i].name == *name {
            return Some(i);
        }
        i = i + 1;
    }
    None
}

/// Removes the sessions of the user `name`, keeping the others in order.
fn evict_sessions(sessions: &mut Vec<Session>, name: &String)
    ensures
        sessions_view(final(sessions)@) == evict(sessions_view(old(sessions)@), name@),
{
    let ghost orig = sessions_view(sessions@);
    let ghost mut p: int = 0;
    let mut i: usize = 0;
    assert(orig.take(0) =~= Seq::<SessionView>::empty());
    assert(sessions_view(sessions@).take(0) =~= Seq::<SessionView>::empty());
    assert(sessions_view(sessions@).skip(0) =~= orig.skip(0));
    while i < sessions.len()
        invariant
            0 <= i <= sessions@.len(),
            0 <= p <= orig.len(),
            sessions@.len() - i == orig.len() - p,
            sessions_view(sessions@).take(i as int) == evict(orig.take(p), name@),
            sessions_view(sessions@).skip(i as int) == orig.skip(p),
        decreases sessions@.len() - i,
    {
        let ghost before = sessions_view(sessions@);
        assert(before[i as int] == before.skip(i as int)[0]);
        assert(before[i as int] == orig[p]);
        assert(orig.take(p + 1).drop_last() =~= orig.take(p));
        assert(orig.take(p + 1).last() == orig[p]);
        if sessions[i].user_name == *name {
            sessions.remove(i);
            let ghost after = sessions_view(sessions@);
            assert(after =~= before.remove(i as int));
            assert(after.take(i as int) =~= before.take(i as int));
            assert(after.skip(i as int) =~= before.skip(i as int).skip(1));
            assert(orig.skip(p).skip(1) =~= orig.skip(p + 1));
        } else {
            assert(before.take(i + 1) =~= before.take(i as int).push(before[i as int]));
            assert(before.skip(i + 1) =~= before.skip(i as int).skip(1));
            assert(orig.skip(p).skip(1) =~= orig.skip(p + 1));
            i = i + 1;
        }
        proof {
            p = p + 1;
        }
    }
    assert(orig.take(p) =~= orig);
    assert(sessions_view(sessions@).take(i as int) =~= sessions_view(sessions@));
}

impl UserManager {
    /// The invariant of the manager.
    pub open spec fn wf(&self) -> bool {
        self@.wf()
    }

    /// A manager over the users that a journal held, with no live session.
    /// A journal in which a name occurs twice describes no registry.
    pub fn new(users: Vec<User>) -> (r: Result<UserManager, CoreError>)
        ensures
            match r {
                Ok(m) => m.wf() && m@ == (State {
                    users: users_view(users@),
                    sessions: Seq::<SessionView>::empty(),
                }),
                Err(e) => e == CoreError::StorageCorrupt,
            },
            r is Ok <==> distinct_names(users_view(users@)),
    {
        let n: usize = users.len();
        let mut i: usize = 0;
        while i < n
            invariant
                n == users@.len(),
                i <= n,
                forall|a: int, b: int|
                    0 <= a < i && 0 <= b < i && a != b ==> (#[trigger] users@[a]).name@ != (
                    #[trigger] users@[b]).name@,
            decreases n - i,
        {
            let mut j: usize = 0;
            while j < i
                invariant
                    n == users@.len(),
                    i < n,
                    j <= i,
                    forall|a: int| 0 <= a < j ==> (#[trigger] users@[a]).name@ != users@[i as int].name@,
                decreases i - j,
            {
                if users[j].name == users[i].name {
                    proof {
                        let v = users_view(users@);
                        assert(v[j as int].name == v[i as int].name);
                    }
                    return Err(CoreError::StorageCorrupt);
                }
                j = j + 1;
            }
            i = i + 1;
        }
        let m = UserManager { users, sessions: Vec::new() };
        assert(m@.sessions =~= Seq::<SessionView>::empty());
        Ok(m)
    }

    /// A manager over what the records of a journal were read as, `None`
    /// standing for a record that is no user. One such record, or a name
    /// that occurs twice, makes the whole journal corrupt.
    pub fn load(records: &Vec<Option<User>>) -> (r: Result<UserManager, CoreError>)
        ensures
            match r {
                Ok(m) => m.wf() && m@ == (State {
                    users: present_users(records@),
                    sessions: Seq::<SessionView>::empty(),
                }),
                Err(e) => e == CoreError::StorageCorrupt,
            },
            r is Ok <==> all_present(records@) && distinct_names(present_users(records@)),
    {
        let mut users: Vec<User> = Vec::new();
        let mut i: usize = 0;
        while i < records.len()
            invariant
                i <= records@.len(),
                users@.len() == i,
                forall|k: int| 0 <= k < i ==> (#[trigger] records@[k]) is Some,
                forall|k: int| 0 <= k < i ==> (#[trigger] users@[k])@ == records@[k].unwrap()@,
            decreases records@.len() - i,
        {
            match &records[i] {
                Some(u) => {
                    users.push(u.clone());
                },
                None => {
                    return Err(CoreError::StorageCorrupt);
                },
            }
            i = i + 1;
        }
        assert(users_view(users@) =~= present_users(records@));
        UserManager::new(users)
    }

    /// The registered users, in the order in which they were registered.
    pub fn users(&self) -> (r: &Vec<User>)
        ensures
            users_view(r@) == self@.users,
    {
        &self.users
    }

    /// The number of live sessions.
    pub fn session_count(&self) -> (n: usize)
        ensures
            n == self@.sessions.len(),
    {
        self.sessions.len()
    }

    /// Looks a user up by name.
    pub fn find_by_name(&self, name: &str) -> (r: Option<&User>)
        requires
            self.wf(),
        ensures
            match r {
                Some(u) => self@.has_user(name@) && u@ == self@.user_named(name@),
                None => !self@.has_user(name@),
            },
    {
        let key = String::from_str(name);
        match position_of(&self.users, &key) {
            Some(i) => {
                assert(self@.users[i as int].name == name@);
                Some(&self.users[i])
            },
            None => {
                assert forall|k: int| 0 <= k < self@.users.len() implies (
                #[trigger] self@.users[k]).name != name@ by {
                    assert(self.users@[k].name@ != name@);
                }
                None
            },
        }
    }

    /// Whether name and digest of `candidate` match a registered user.
    pub fn accepts(&self, candidate: &User) -> (r: bool)
        requires
            self.wf(),
        ensures
            r == self@.accepts(candidate@),
    {
        match self.find_by_name(candidate.name.as_str()) {
            Some(u) => {
                proof {
                    if self@.accepts(candidate@) {
                        let k = choose|k: int|
                            0 <= k < self@.users.len() && #[trigger] self@.users[k] == candidate@;
                        assert(self@.users[k].name == candidate@.name);
                    }
                    let c = choose|c: int|
                        0 <= c < self@.users.len() && (#[trigger] self@.users[c]).name
                            == candidate@.name;
                    assert(self@.users[c] == u@);
                }
                u.hash == candidate.hash
            },
            None => {
                proof {
                    if self@.accepts(candidate@) {
                        let k = choose|k: int|
                            0 <= k < self@.users.len() && #[trigger] self@.users[k] == candidate@;
                        assert(self@.users[k].name == candidate@.name);
                    }
                }
                false
            },
        }
    }

    /// Registers a user, unless the name is taken.
    pub fn add_new_user(&mut self, new_user: User) -> (r: Result<(), CoreError>)
        requires
            old(self).wf(),
        ensures
            final(self).wf(),
            r == old(self)@.add_user_outcome(new_user@),
            final(self)@ == old(self)@.after_add_user(new_user@),
    {
        proof {
            lemma_add_user_wf(self@, new_user@);
        }
        match self.find_by_name(new_user.name.as_str()) {
            Some(_) => Err(CoreError::UserExists),
            None => {
                let ghost before = self@;
                self.users.push(new_user);
                assert(self@.users =~= before.users.push(new_user@));
                Ok(())
            },
        }
    }

    /// Ends every session of the user `user_name`.
    pub fn invalidate(&mut self, user_name: &str)
        requires
            old(self).wf(),
        ensures
            final(self).wf(),
            final(self)@ == old(self)@.after_invalidate(user_name@),
    {
        proof {
            lemma_invalidate_wf(self@, user_name@);
        }
        let key = String::from_str(user_name);
        evict_sessions(&mut self.sessions, &key);
    }

    /// Whether a session of another user than `name` holds `token`.
    fn collides(&self, name: &String, token: u64) -> (r: bool)
        ensures
            r == self@.collides(name@, token),
    {
        let mut i: usize = 0;
        while i < self.sessions.len()
            invariant
                i <= self.sessions@.len(),
                forall|k: int|
                    0 <= k < i ==> !((#[trigger] self@.sessions[k]).id == token
                        && self@.sessions[k].user_name != name@),
            decreases self.sessions@.len() - i,
        {
            if self.sessions[i].id == token && !(self.sessions[i].user_name == *name) {
                assert(self@.sessions[i as int].id == token);
                return true;
            }
            i = i + 1;
        }
        false
    }

    /// Starts a session for a registered user at the time `now`: the user's
    /// earlier sessions end and the new one is returned. Where another
    /// user's session already holds the new token, nothing changes.
    pub fn create_session(&mut self, user: &User, now: u64) -> (r: Result<Session, CoreError>)
        requires
            old(self).wf(),
            old(self)@.has_user(user@.name),
        ensures
            final(self).wf(),
            final(self)@ == old(self)@.after_session(user@.name, now),
            match r {
                Ok(session) => old(self)@.session_outcome(user@.name, now) == Ok::<
                    SessionView,
                    CoreError,
                >(session@),
                Err(e) => old(self)@.session_outcome(user@.name, now) == Err::<
                    SessionView,
                    CoreError,
                >(e),
            },
    {
        proof {
            lemma_session_wf(self@, user@.name, now);
        }
        let session = Session::at(user, now);
        if self.collides(&user.name, session.id) {
            return Err(CoreError::InternalError);
        }
        let ghost before = self@;
        evict_sessions(&mut self.sessions, &user.name);
        self.sessions.push(session.clone());
        assert(self@.sessions =~= evict(before.sessions, user@.name).push(
            session_at(user@.name, now),
        ));
        Ok(session)
    }

    /// Logs a user in at the time `now`: where name and digest match a
    /// registered user, a session is started for the user and its token is
    /// written to the jar in decimal.
    pub fn login_user_at(&mut self, current_user: &User, jar: &mut CookieJar, now: u64) -> (r:
        Result<(), CoreError>)
        requires
            old(self).wf(),
        ensures
            final(self).wf(),
            final(self)@ == old(self)@.after_login(current_user@, now),
            match old(self)@.login_outcome(current_user@, now) {
                Ok(token) => r == Ok::<(), CoreError>(()) && cookie_text(*final(jar)) == Some(
                    decimal_chars(token as nat),
                ),
                Err(e) => r == Err::<(), CoreError>(e) && *final(jar) == *old(jar),
            },
    {
        if !self.accepts(current_user) {
            return Err(CoreError::AuthFailed);
        }
        proof {
            let k = choose|k: int|
                0 <= k < self@.users.len() && #[trigger] self@.users[k] == current_user@;
            assert(self@.users[k].name == current_user@.name);
        }
        match self.create_session(current_user, now) {
            Ok(session) => {
                jar.session_id = Some(token_text(session.id));
                Ok(())
            },
            Err(e) => Err(e),
        }
    }

    /// Logs a user in at the time the system clock shows. Whatever the clock
    /// shows, wrong credentials are refused with `AuthFailed` and change
    /// nothing, and a login that succeeds is a login at some time.
    pub fn login_user(&mut self, current_user: &User, jar: &mut CookieJar) -> (r: Result<
        (),
        CoreError,
    >)
        requires
            old(self).wf(),
        ensures
            final(self).wf(),
            r == Err::<(), CoreError>(CoreError::AuthFailed) <==> !old(self)@.accepts(
                current_user@,
            ),
            match r {
                Ok(_) => exists|now: u64|
                    {
                        &&& #[trigger] old(self)@.login_outcome(current_user@, now) is Ok
                        &&& final(self)@ == old(self)@.after_login(current_user@, now)
                        &&& cookie_text(*final(jar)) == Some(
                            decimal_chars(spec_token(current_user@.name, now) as nat),
                        )
                    },
                Err(e) => final(self)@ == old(self)@ && *final(jar) == *old(jar) && (e
                    == CoreError::AuthFailed || e == CoreError::InternalError),
            },
    {
        if !self.accepts(current_user) {
            return Err(CoreError::AuthFailed);
        }
        match unix_seconds() {
            Some(now) => self.login_user_at(current_user, jar, now),
            None => Err(CoreError::InternalError),
        }
    }

    /// Registers the user that a submitted name and password describe. The
    /// user is not logged in by this.
    pub fn signup(&mut self, form: &LoginData) -> (r: Result<(), CoreError>)
        requires
            old(self).wf(),
        ensures
            final(self).wf(),
            r == old(self)@.add_user_outcome(user_of(form.name@, form.password@)),
            final(self)@ == old(self)@.after_add_user(user_of(form.name@, form.password@)),
    {
        self.add_new_user(form.to_user())
    }

    /// Logs in the user that a submitted name and password describe, at the
    /// time the system clock shows, and writes the token to the jar. An
    /// unknown name and a wrong password are refused alike.
    pub fn login(&mut self, form: &LoginData, jar: &mut CookieJar) -> (r: Result<(), CoreError>)
        requires
            old(self).wf(),
        ensures
            final(self).wf(),
            r == Err::<(), CoreError>(CoreError::AuthFailed) <==> !old(self)@.accepts(
                user_of(form.name@, form.password@),
            ),
            match r {
                Ok(_) => exists|now: u64|
                    {
                        &&& #[trigger] old(self)@.login_outcome(
                            user_of(form.name@, form.password@),
                            now,
                        ) is Ok
                        &&& final(self)@ == old(self)@.after_login(
                            user_of(form.name@, form.password@),
                            now,
                        )
                        &&& cookie_text(*final(jar)) == Some(
                            decimal_chars(spec_token(form.name@, now) as nat),
                        )
                    },
                Err(e) => final(self)@ == old(self)@ && *final(jar) == *old(jar) && (e
                    == CoreError::AuthFailed || e == CoreError::InternalError),
            },
    {
        let candidate = form.to_user();
        self.login_user(&candidate, jar)
    }

    /// The user that a token stands for.
    pub fn resolve(&self, token: u64) -> (r: Result<&User, CoreError>)
        requires
            self.wf(),
        ensures
            match r {
                Ok(u) => self@.resolve(token) == Ok::<UserView, CoreError>(u@),
                Err(e) => self@.resolve(token) == Err::<UserView, CoreError>(e),
            },
    {
        let mut i: usize = 0;
        while i < self.sessions.len()
            invariant
                self.wf(),
                i <= self.sessions@.len(),
                forall|k: int| 0 <= k < i ==> (#[trigger] self@.sessions[k]).id != token,
            decreases self.sessions@.len() - i,
        {
            if self.sessions[i].id == token {
                assert(self@.sessions[i as int].id == token);
                assert(self@.session_with(token) == self@.sessions[i as int]);
                return match self.find_by_name(self.sessions[i].user_name.as_str()) {
                    Some(u) => Ok(u),
                    None => Err(CoreError::InternalError),
                };
            }
            i = i + 1;
        }
        Err(CoreError::SessionMissing)
    }

    /// The user that the client's cookie stands for.
    pub fn get_current_user(&self, jar: &CookieJar) -> (r: Result<&User, CoreError>)
        requires
            self.wf(),
        ensures
            match r {
                Ok(u) => spec_current_user(self@, cookie_text(*jar)) == Ok::<UserView, CoreError>(
                    u@,
                ),
                Err(e) => spec_current_user(self@, cookie_text(*jar)) == Err::<
                    UserView,
                    CoreError,
                >(e),
            },
    {
        match &jar.session_id {
            None => Err(CoreError::SessionMissing),
            Some(text) => match cookie_token(text.as_str()) {
                None => Err(CoreError::SessionMissing),
                Some(token) => self.resolve(token),
            },
        }
    }
}

/// A registry that is written out user by user and read back record by
/// record has no name twice, so that `load` accepts it and gives a manager
/// over the same users.
pub proof fn law_registry_reloads(s: State, records: Seq<Option<User>>)
    requires
        s.wf(),
        all_present(records),
        present_users(records) == s.users,
    ensures
        distinct_names(present_users(records)),
{
}

/// Right after a login that succeeds, the cookie it wrote stands for the user
/// who logged in.
pub proof fn law_login_then_current_user(s: State, candidate: UserView, now: u64)
    requires
        s.wf(),
        s.login_outcome(candidate, now) is Ok,
    ensures
        spec_current_user(
            s.after_login(candidate, now),
            Some(decimal_chars(spec_token(candidate.name, now) as nat)),
        ) == Ok::<UserView, CoreError>(candidate),
{
    law_cookie_round_trip(spec_token(candidate.name, now));
    law_login_then_resolve(s, candidate, now);
}

} // verus!
