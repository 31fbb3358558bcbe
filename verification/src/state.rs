//! The registry and the session table as mathematics: what the manager holds,
//! what each operation makes of it, and the laws that connect them.

use crate::error::CoreError;
use crate::session::session_at;
use crate::session::spec_token;
use crate::session::SessionView;
use crate::user::user_of;
use crate::user::UserView;
use vstd::prelude::*;

verus! {

/// No two users share a name.
pub open spec fn distinct_names(users: Seq<UserView>) -> bool {
    forall|i: int, j: int|
        0 <= i < users.len() && 0 <= j < users.len() && i != j ==> (#[trigger] users[i]).name != (
        #[trigger] users[j]).name
}

/// No two sessions belong to one user.
pub open spec fn distinct_owners(sessions: Seq<SessionView>) -> bool {
    forall|i: int, j: int|
        0 <= i < sessions.len() && 0 <= j < sessions.len() && i != j ==> (
        #[trigger] sessions[i]).user_name != (#[trigger] sessions[j]).user_name
}

/// No two sessions share a token.
pub open spec fn distinct_tokens(sessions: Seq<SessionView>) -> bool {
    forall|i: int, j: int|
        0 <= i < sessions.len() && 0 <= j < sessions.len() && i != j ==> (
        #[trigger] sessions[i]).id != (#[trigger] sessions[j]).id
}

/// The sessions that are left when those of the user `name` are removed, in
/// their order.
pub open spec fn evict(sessions: Seq<SessionView>, name: Seq<char>) -> Seq<SessionView>
    decreases sessions.len(),
{
    if sessions.len() == 0 {
        sessions
    } else {
        let rest = evict(sessions.drop_last(), name);
        if sessions.last().user_name == name {
            rest
        } else {
            rest.push(sessions.last())
        }
    }
}

/// The registry of users and the table of live sessions.
pub struct State {
    pub users: Seq<UserView>,
    pub sessions: Seq<SessionView>,
}

impl State {
    /// Whether a user of that name is registered.
    pub open spec fn has_user(self, name: Seq<char>) -> bool {
        exists|i: int| 0 <= i < self.users.len() && (#[trigger] self.users[i]).name == name
    }

    /// The registered user of that name, where there is one.
    pub open spec fn user_named(self, name: Seq<char>) -> UserView {
        self.users[choose|i: int| 0 <= i < self.users.len() && (#[trigger] self.users[i]).name == name]
    }

    /// Whether name and digest together match a registered user.
    pub open spec fn accepts(self, candidate: UserView) -> bool {
        exists|i: int| 0 <= i < self.users.len() && #[trigger] self.users[i] == candidate
    }

    /// Whether a live session holds that token.
    pub open spec fn holds_token(self, token: u64) -> bool {
        exists|i: int| 0 <= i < self.sessions.len() && (#[trigger] self.sessions[i]).id == token
    }

    /// The live session that holds that token, where there is one.
    pub open spec fn session_with(self, token: u64) -> SessionView {
        self.sessions[choose|i: int|
            0 <= i < self.sessions.len() && (#[trigger] self.sessions[i]).id == token]
    }

    /// Whether a session of another user than `name` holds that token.
    pub open spec fn collides(self, name: Seq<char>, token: u64) -> bool {
        exists|i: int|
            0 <= i < self.sessions.len() && (#[trigger] self.sessions[i]).id == token
                && self.sessions[i].user_name != name
    }

    /// The invariant: names are unique, each user has at most one session,
    /// tokens are unique, every session belongs to a registered user, and no
    /// session was last seen before it was created.
    pub open spec fn wf(self) -> bool {
        &&& distinct_names(self.users)
        &&& distinct_owners(self.sessions)
        &&& distinct_tokens(self.sessions)
        &&& forall|i: int|
            0 <= i < self.sessions.len() ==> self.has_user((#[trigger] self.sessions[i]).user_name)
        &&& forall|i: int|
            0 <= i < self.sessions.len() ==> (#[trigger] self.sessions[i]).created_at
                <= self.sessions[i].last_seen_at
    }

    /// What registering `user` returns.
    pub open spec fn add_user_outcome(self, user: UserView) -> Result<(), CoreError> {
        if self.has_user(user.name) {
            Err(CoreError::UserExists)
        } else {
            Ok(())
        }
    }

    /// What registering `user` leaves behind: the user is appended unless the
    /// name is taken.
    pub open spec fn after_add_user(self, user: UserView) -> State {
        if self.has_user(user.name) {
            self
        } else {
            State { users: self.users.push(user), sessions: self.sessions }
        }
    }

    /// What is left when the sessions of the user `name` are removed.
    pub open spec fn after_invalidate(self, name: Seq<char>) -> State {
        State { users: self.users, sessions: evict(self.sessions, name) }
    }

    /// What starting a session for the user `name` at the time `now`
    /// returns: the new session, unless its token is another user's.
    pub open spec fn session_outcome(self, name: Seq<char>, now: u64) -> Result<
        SessionView,
        CoreError,
    > {
        if self.collides(name, spec_token(name, now)) {
            Err(CoreError::InternalError)
        } else {
            Ok(session_at(name, now))
        }
    }

    /// What starting a session for the user `name` at the time `now` leaves
    /// behind: the user's earlier sessions are gone and the new one stands
    /// last, unless its token is another user's; then nothing changes.
    pub open spec fn after_session(self, name: Seq<char>, now: u64) -> State {
        if self.collides(name, spec_token(name, now)) {
            self
        } else {
            State {
                users: self.users,
                sessions: evict(self.sessions, name).push(session_at(name, now)),
            }
        }
    }

    /// What a login of `candidate` at the time `now` returns: the token of
    /// the new session where the credentials match and the token is free.
    pub open spec fn login_outcome(self, candidate: UserView, now: u64) -> Result<u64, CoreError> {
        if !self.accepts(candidate) {
            Err(CoreError::AuthFailed)
        } else {
            match self.session_outcome(candidate.name, now) {
                Ok(session) => Ok(session.id),
                Err(e) => Err(e),
            }
        }
    }

    /// What a login of `candidate` at the time `now` leaves behind: a new
    /// session where the credentials match, else no change.
    pub open spec fn after_login(self, candidate: UserView, now: u64) -> State {
        if self.accepts(candidate) {
            self.after_session(candidate.name, now)
        } else {
            self
        }
    }

    /// The user that a token stands for.
    pub open spec fn resolve(self, token: u64) -> Result<UserView, CoreError> {
        if !self.holds_token(token) {
            Err(CoreError::SessionMissing)
        } else if !self.has_user(self.session_with(token).user_name) {
            Err(CoreError::InternalError)
        } else {
            Ok(self.user_named(self.session_with(token).user_name))
        }
    }
}

/// Eviction keeps exactly the sessions of other users, each once and in order.
pub proof fn lemma_evict(sessions: Seq<SessionView>, name: Seq<char>)
    ensures
        evict(sessions, name).len() <= sessions.len(),
        forall|k: int|
            0 <= k < evict(sessions, name).len() ==> (#[trigger] evict(sessions, name)[k]).user_name
                != name && sessions.contains(evict(sessions, name)[k]),
        forall|j: int|
            0 <= j < sessions.len() && (#[trigger] sessions[j]).user_name != name ==> evict(
                sessions,
                name,
            ).contains(sessions[j]),
        distinct_owners(sessions) ==> distinct_owners(evict(sessions, name)),
        distinct_tokens(sessions) ==> distinct_tokens(evict(sessions, name)),
    decreases sessions.len(),
{
    if sessions.len() > 0 {
        let front = sessions.drop_last();
        let last = sessions.last();
        let rest = evict(front, name);
        let out = evict(sessions, name);
        lemma_evict(front, name);
        assert forall|k: int| 0 <= k < out.len() implies (#[trigger] out[k]).user_name != name
            && sessions.contains(out[k]) by {
            if k < rest.len() {
                assert(out[k] == rest[k]);
                assert(front.contains(rest[k]));
                let j = choose|j: int| 0 <= j < front.len() && front[j] == rest[k];
                assert(sessions[j] == out[k]);
            } else {
                assert(out[k] == last);
                assert(sessions[sessions.len() - 1] == last);
            }
        }
        assert forall|j: int|
            0 <= j < sessions.len() && (#[trigger] sessions[j]).user_name != name implies out.contains(
            sessions[j],
        ) by {
            if j < front.len() {
                assert(front[j] == sessions[j]);
                assert(rest.contains(front[j]));
                let k = choose|k: int| 0 <= k < rest.len() && rest[k] == front[j];
                assert(out[k] == sessions[j]);
            } else {
                assert(out[out.len() - 1] == sessions[j]);
            }
        }
        if distinct_owners(sessions) {
            assert(distinct_owners(front)) by {
                assert forall|i: int, j: int|
                    0 <= i < front.len() && 0 <= j < front.len() && i != j implies (
                #[trigger] front[i]).user_name != (#[trigger] front[j]).user_name by {
                    assert(front[i] == sessions[i] && front[j] == sessions[j]);
                }
            }
            assert forall|a: int, b: int|
                0 <= a < out.len() && 0 <= b < out.len() && a != b implies (
            #[trigger] out[a]).user_name != (#[trigger] out[b]).user_name by {
                lemma_pushed_apart(sessions, rest, out, a, b);
            }
        }
        if distinct_tokens(sessions) {
            assert(distinct_tokens(front)) by {
                assert forall|i: int, j: int|
                    0 <= i < front.len() && 0 <= j < front.len() && i != j implies (
                #[trigger] front[i]).id != (#[trigger] front[j]).id by {
                    assert(front[i] == sessions[i] && front[j] == sessions[j]);
                }
            }
            assert forall|a: int, b: int|
                0 <= a < out.len() && 0 <= b < out.len() && a != b implies (#[trigger] out[a]).id
                != (#[trigger] out[b]).id by {
                lemma_pushed_apart(sessions, rest, out, a, b);
            }
        }
    }
}

/// Two places of a selection from all but the last session, with the last
/// perhaps appended, hold sessions from two places of the whole.
proof fn lemma_pushed_apart(
    sessions: Seq<SessionView>,
    rest: Seq<SessionView>,
    out: Seq<SessionView>,
    a: int,
    b: int,
)
    requires
        sessions.len() > 0,
        out == rest || out == rest.push(sessions.last()),
        forall|k: int| 0 <= k < rest.len() ==> sessions.drop_last().contains(#[trigger] rest[k]),
        0 <= a < out.len(),
        0 <= b < out.len(),
        a != b,
    ensures
        exists|i: int, j: int|
            0 <= i < sessions.len() && 0 <= j < sessions.len() && sessions[i] == out[a]
                && sessions[j] == out[b] && (i != j || (a < rest.len() && b < rest.len())),
{
    let front = sessions.drop_last();
    let n = sessions.len() - 1;
    if a < rest.len() && b < rest.len() {
        assert(front.contains(rest[a]));
        assert(front.contains(rest[b]));
        let i = choose|i: int| 0 <= i < front.len() && front[i] == rest[a];
        let j = choose|j: int| 0 <= j < front.len() && front[j] == rest[b];
        assert(sessions[i] == out[a] && sessions[j] == out[b]);
    } else if a < rest.len() {
        assert(front.contains(rest[a]));
        let i = choose|i: int| 0 <= i < front.len() && front[i] == rest[a];
        assert(sessions[i] == out[a] && sessions[n] == out[b]);
    } else {
        assert(front.contains(rest[b]));
        let j = choose|j: int| 0 <= j < front.len() && front[j] == rest[b];
        assert(sessions[n] == out[a] && sessions[j] == out[b]);
    }
}

/// Registering a user keeps the invariant.
pub proof fn lemma_add_user_wf(s: State, user: UserView)
    requires
        s.wf(),
    ensures
        s.after_add_user(user).wf(),
{
    let t = s.after_add_user(user);
    if !s.has_user(user.name) {
        assert forall|i: int, j: int|
            0 <= i < t.users.len() && 0 <= j < t.users.len() && i != j implies (
        #[trigger] t.users[i]).name != (#[trigger] t.users[j]).name by {
            if i < s.users.len() {
                assert(t.users[i] == s.users[i]);
            }
            if j < s.users.len() {
                assert(t.users[j] == s.users[j]);
            }
        }
        assert forall|i: int| 0 <= i < t.sessions.len() implies t.has_user(
            (#[trigger] t.sessions[i]).user_name,
        ) by {
            assert(s.has_user(s.sessions[i].user_name));
            let k = choose|k: int|
                0 <= k < s.users.len() && (#[trigger] s.users[k]).name == s.sessions[i].user_name;
            assert(t.users[k].name == s.sessions[i].user_name);
        }
    }
}

/// Removing a user's sessions keeps the invariant.
pub proof fn lemma_invalidate_wf(s: State, name: Seq<char>)
    requires
        s.wf(),
    ensures
        s.after_invalidate(name).wf(),
{
    let t = s.after_invalidate(name);
    lemma_evict(s.sessions, name);
    assert forall|i: int| 0 <= i < t.sessions.len() implies t.has_user(
        (#[trigger] t.sessions[i]).user_name,
    ) && t.sessions[i].created_at <= t.sessions[i].last_seen_at by {
        assert(s.sessions.contains(t.sessions[i]));
        let j = choose|j: int| 0 <= j < s.sessions.len() && s.sessions[j] == t.sessions[i];
        assert(s.has_user(s.sessions[j].user_name));
        let k = choose|k: int|
            0 <= k < s.users.len() && (#[trigger] s.users[k]).name == s.sessions[j].user_name;
        assert(t.users[k].name == t.sessions[i].user_name);
    }
}

/// Starting a session for a registered user keeps the invariant.
pub proof fn lemma_session_wf(s: State, name: Seq<char>, now: u64)
    requires
        s.wf(),
        s.has_user(name),
    ensures
        s.after_session(name, now).wf(),
{
    let token = spec_token(name, now);
    if !s.collides(name, token) {
        let t = s.after_session(name, now);
        let kept = evict(s.sessions, name);
        let n = kept.len() as int;
        lemma_evict(s.sessions, name);
        lemma_invalidate_wf(s, name);
        assert(t.sessions[n] == session_at(name, now));
        assert forall|k: int| 0 <= k < n implies (#[trigger] t.sessions[k]) == kept[k]
            && kept[k].user_name != name && kept[k].id != token by {
            assert(s.sessions.contains(kept[k]));
            let j = choose|j: int| 0 <= j < s.sessions.len() && s.sessions[j] == kept[k];
            assert(s.sessions[j].id == kept[k].id);
        }
        assert(distinct_owners(t.sessions));
        assert(distinct_tokens(t.sessions));
        assert forall|i: int| 0 <= i < t.sessions.len() implies t.has_user(
            (#[trigger] t.sessions[i]).user_name,
        ) && t.sessions[i].created_at <= t.sessions[i].last_seen_at by {
            if i < n {
                let mid = s.after_invalidate(name);
                assert(mid.sessions[i] == kept[i]);
                assert(mid.has_user(kept[i].user_name));
                let k = choose|k: int|
                    0 <= k < mid.users.len() && (#[trigger] mid.users[k]).name == kept[i].user_name;
                assert(t.users[k].name == t.sessions[i].user_name);
            } else {
                let k = choose|k: int| 0 <= k < s.users.len() && (#[trigger] s.users[k]).name == name;
                assert(t.users[k].name == name);
            }
        }
    }
}

/// A login, whether it succeeds or not, keeps the invariant.
pub proof fn lemma_login_wf(s: State, candidate: UserView, now: u64)
    requires
        s.wf(),
    ensures
        s.after_login(candidate, now).wf(),
{
    if s.accepts(candidate) {
        let k = choose|k: int| 0 <= k < s.users.len() && #[trigger] s.users[k] == candidate;
        assert(s.users[k].name == candidate.name);
        lemma_session_wf(s, candidate.name, now);
    }
}

/// Right after a login that succeeds, the token it returned resolves to the
/// user who logged in.
pub proof fn law_login_then_resolve(s: State, candidate: UserView, now: u64)
    requires
        s.wf(),
        s.login_outcome(candidate, now) is Ok,
    ensures
        s.after_login(candidate, now).resolve(spec_token(candidate.name, now)) == Ok::<
            UserView,
            CoreError,
        >(candidate),
{
    let name = candidate.name;
    let token = spec_token(name, now);
    let t = s.after_login(candidate, now);
    let n = evict(s.sessions, name).len() as int;
    lemma_login_wf(s, candidate, now);
    assert(t.sessions[n] == session_at(name, now));
    assert(t.sessions[n].id == token);
    assert(t.holds_token(token));
    assert(t.session_with(token) == t.sessions[n]);
    let k = choose|k: int| 0 <= k < s.users.len() && #[trigger] s.users[k] == candidate;
    assert(t.users[k].name == name);
    assert(t.has_user(name));
    assert(t.user_named(name) == t.users[k]);
}

/// Of two logins by the same user that both succeed, only the later token
/// resolves, provided the two tokens differ: the earlier one then names no
/// session.
pub proof fn law_later_login_supersedes(s: State, candidate: UserView, first: u64, second: u64)
    requires
        s.wf(),
        s.login_outcome(candidate, first) is Ok,
        s.after_login(candidate, first).login_outcome(candidate, second) is Ok,
        spec_token(candidate.name, first) != spec_token(candidate.name, second),
    ensures
        s.after_login(candidate, first).after_login(candidate, second).resolve(
            spec_token(candidate.name, first),
        ) == Err::<UserView, CoreError>(CoreError::SessionMissing),
        s.after_login(candidate, first).after_login(candidate, second).resolve(
            spec_token(candidate.name, second),
        ) == Ok::<UserView, CoreError>(candidate),
{
    let name = candidate.name;
    let old_token = spec_token(name, first);
    let mid = s.after_login(candidate, first);
    let end = mid.after_login(candidate, second);
    lemma_login_wf(s, candidate, first);
    law_login_then_resolve(mid, candidate, second);
    let m = evict(s.sessions, name).len() as int;
    let kept = evict(mid.sessions, name);
    lemma_evict(mid.sessions, name);
    assert(mid.sessions[m] == session_at(name, first));
    if end.holds_token(old_token) {
        let c = choose|c: int|
            0 <= c < end.sessions.len() && (#[trigger] end.sessions[c]).id == old_token;
        if c < kept.len() {
            assert(end.sessions[c] == kept[c]);
            assert(mid.sessions.contains(kept[c]));
            let j = choose|j: int| 0 <= j < mid.sessions.len() && mid.sessions[j] == kept[c];
            assert(mid.sessions[j].id == mid.sessions[m].id);
            assert(j == m);
            assert(false);
        } else {
            assert(end.sessions[c] == session_at(name, second));
            assert(false);
        }
    }
}

/// Registering the same name twice leaves exactly one user of that name, and
/// the second attempt is refused without any change.
pub proof fn law_add_user_once(s: State, first: UserView, second: UserView)
    requires
        s.wf(),
        first.name == second.name,
    ensures
        s.after_add_user(first).add_user_outcome(second) == Err::<(), CoreError>(
            CoreError::UserExists,
        ),
        s.after_add_user(first).after_add_user(second) == s.after_add_user(first),
        exists|i: int|
            0 <= i < s.after_add_user(first).users.len() && (#[trigger] s.after_add_user(
                first,
            ).users[i]).name == first.name && forall|j: int|
                0 <= j < s.after_add_user(first).users.len() && (#[trigger] s.after_add_user(
                    first,
                ).users[j]).name == first.name ==> j == i,
{
    let mid = s.after_add_user(first);
    lemma_add_user_wf(s, first);
    if !s.has_user(first.name) {
        assert(mid.users[s.users.len() as int].name == first.name);
    }
    assert(mid.has_user(first.name));
    let i = choose|i: int| 0 <= i < mid.users.len() && (#[trigger] mid.users[i]).name == first.name;
    assert(forall|j: int|
        0 <= j < mid.users.len() && (#[trigger] mid.users[j]).name == first.name ==> j == i);
}

/// A user who registered under a free name is accepted at a later login with
/// the same name and password.
pub proof fn law_signup_then_accepted(s: State, name: Seq<char>, password: Seq<char>)
    requires
        s.wf(),
        !s.has_user(name),
    ensures
        s.after_add_user(user_of(name, password)).accepts(user_of(name, password)),
{
    let t = s.after_add_user(user_of(name, password));
    assert(t.users[s.users.len() as int] == user_of(name, password));
}

} // verus!
