use filehost::error::CoreError;
use filehost::manager::{CookieJar, UserManager};
use filehost::session::{session_token, Session};
use filehost::user::{digest, hash_text, LoginData, User};
use std::collections::hash_map::DefaultHasher;
use std::hash::{Hash, Hasher};

fn empty_manager() -> UserManager {
    UserManager::new(Vec::new()).unwrap()
}

fn credentials(name: &str, password: &str) -> LoginData {
    LoginData::new(name.to_string(), password.to_string())
}

fn std_hash(text: &str) -> u64 {
    let mut h = DefaultHasher::new();
    text.hash(&mut h);
    h.finish()
}

#[test]
fn digest_is_the_std_hash_of_password_then_name() {
    assert_eq!(digest("alice", "pw"), std_hash("pwalice"));
    assert_eq!(digest("alice", "pw"), 17611234492542517830);
    assert_eq!(hash_text(""), 3476900567878811119);
    assert_eq!(digest("zoë", "pässword"), std_hash("pässwordzoë"));
}

#[test]
fn digest_is_salted_by_the_name() {
    assert_ne!(digest("alice", "pw"), digest("bob", "pw"));
    assert_ne!(digest("alice", "pw"), digest("alice", "pw2"));
}

#[test]
fn digest_is_deterministic() {
    let at_signup = credentials("alice", "pw").to_user();
    let at_login = credentials("alice", "pw").to_user();
    assert_eq!(at_signup.name, at_login.name);
    assert_eq!(at_signup.hash, at_login.hash);
}

#[test]
fn to_user_keeps_the_name_and_drops_the_password() {
    let user = credentials("alice", "pw").to_user();
    assert_eq!(user.get_name(), "alice");
    assert_eq!(user.hash, digest("alice", "pw"));
    let copy = user.clone();
    assert_eq!(copy.name, "alice");
    assert_eq!(copy.hash, user.hash);
}

#[test]
fn session_token_is_the_std_hash_of_name_then_time() {
    assert_eq!(session_token("alice", 1700000000), std_hash("alice1700000000"));
    assert_eq!(session_token("alice", 1700000000), 15669370631351057953);
    assert_eq!(session_token("alice", 0), std_hash("alice0"));
    assert_eq!(session_token("bob", u64::MAX), std_hash("bob18446744073709551615"));
}

#[test]
fn session_at_fills_every_field() {
    let user = credentials("alice", "pw").to_user();
    let s = Session::at(&user, 1700000000);
    assert_eq!(s.user_name, "alice");
    assert_eq!(s.id, session_token("alice", 1700000000));
    assert_eq!(s.creation_timestamp, 1700000000);
    assert_eq!(s.last_action_timestamp, 1700000000);
}

#[test]
fn session_new_reads_the_clock() {
    let user = credentials("alice", "pw").to_user();
    let s = Session::new(&user).unwrap();
    assert_eq!(s.user_name, "alice");
    assert!(s.creation_timestamp > 1_600_000_000);
    assert_eq!(s.last_action_timestamp, s.creation_timestamp);
    assert_eq!(s.id, session_token("alice", s.creation_timestamp));
}

#[test]
fn a_reading_of_the_clock_starts_a_session_at_that_time() {
    let user = credentials("alice", "pw").to_user();
    let s = Session::at_reading(&user, Some(1700000000)).unwrap();
    assert_eq!(s.user_name, "alice");
    assert_eq!(s.id, 15669370631351057953);
    assert_eq!(s.creation_timestamp, 1700000000);
    assert_eq!(s.last_action_timestamp, 1700000000);
    let first = Session::at_reading(&user, Some(0)).unwrap();
    assert_eq!(first.id, session_token("alice", 0));
    assert_eq!(first.creation_timestamp, 0);
    assert!(Session::at_reading(&user, None).is_none());
}

#[test]
fn signup_then_login_sets_cookie_and_resolves() {
    let mut m = empty_manager();
    assert_eq!(m.add_new_user(credentials("alice", "pw").to_user()), Ok(()));
    assert_eq!(m.session_count(), 0);
    let mut jar = CookieJar { session_id: None };
    assert_eq!(m.login_user(&credentials("alice", "pw").to_user(), &mut jar), Ok(()));
    assert!(jar.session_id.is_some());
    assert_eq!(m.session_count(), 1);
    let user = m.get_current_user(&jar).unwrap();
    assert_eq!(user.get_name(), "alice");
    assert_eq!(user.hash, digest("alice", "pw"));
}

#[test]
fn login_at_a_given_time_writes_the_token_in_decimal() {
    let mut m = empty_manager();
    m.add_new_user(credentials("alice", "pw").to_user()).unwrap();
    let mut jar = CookieJar { session_id: None };
    let alice = credentials("alice", "pw").to_user();
    assert_eq!(m.login_user_at(&alice, &mut jar, 1700000000), Ok(()));
    assert_eq!(jar.session_id, Some("15669370631351057953".to_string()));
    assert_eq!(m.resolve(15669370631351057953).unwrap().get_name(), "alice");
}

#[test]
fn duplicate_signup_is_refused() {
    let mut m = empty_manager();
    assert_eq!(m.add_new_user(credentials("alice", "pw").to_user()), Ok(()));
    assert_eq!(
        m.add_new_user(credentials("alice", "other").to_user()),
        Err(CoreError::UserExists)
    );
    assert_eq!(m.users().len(), 1);
    assert_eq!(m.users()[0].name, "alice");
    assert_eq!(m.users()[0].hash, digest("alice", "pw"));
}

#[test]
fn users_keep_their_order() {
    let mut m = empty_manager();
    m.add_new_user(credentials("alice", "pw").to_user()).unwrap();
    m.add_new_user(credentials("bob", "pw").to_user()).unwrap();
    m.add_new_user(credentials("carol", "pw").to_user()).unwrap();
    let names: Vec<&str> = m.users().iter().map(|u| u.get_name()).collect();
    assert_eq!(names, vec!["alice", "bob", "carol"]);
    assert_eq!(m.find_by_name("bob").unwrap().hash, digest("bob", "pw"));
    assert!(m.find_by_name("dave").is_none());
}

#[test]
fn wrong_password_is_auth_failed() {
    let mut m = empty_manager();
    m.add_new_user(credentials("alice", "pw").to_user()).unwrap();
    let mut jar = CookieJar { session_id: None };
    assert_eq!(
        m.login_user(&credentials("alice", "wrong").to_user(), &mut jar),
        Err(CoreError::AuthFailed)
    );
    assert_eq!(jar.session_id, None);
    assert_eq!(m.session_count(), 0);
    assert_eq!(
        m.login_user_at(&credentials("alice", "wrong").to_user(), &mut jar, 5),
        Err(CoreError::AuthFailed)
    );
    assert_eq!(jar.session_id, None);
    assert_eq!(m.session_count(), 0);
}

#[test]
fn unknown_user_is_auth_failed() {
    let mut m = empty_manager();
    m.add_new_user(credentials("alice", "pw").to_user()).unwrap();
    let mut jar = CookieJar { session_id: Some("7".to_string()) };
    assert_eq!(
        m.login_user(&credentials("mallory", "pw").to_user(), &mut jar),
        Err(CoreError::AuthFailed)
    );
    assert_eq!(jar.session_id, Some("7".to_string()));
    assert!(!m.accepts(&credentials("mallory", "pw").to_user()));
    assert!(m.accepts(&credentials("alice", "pw").to_user()));
}

#[test]
fn later_login_supersedes_the_earlier() {
    let mut m = empty_manager();
    m.add_new_user(credentials("alice", "pw").to_user()).unwrap();
    let alice = credentials("alice", "pw").to_user();
    let mut c1 = CookieJar { session_id: None };
    let mut c2 = CookieJar { session_id: None };
    assert_eq!(m.login_user_at(&alice, &mut c1, 1000), Ok(()));
    assert_eq!(m.login_user_at(&alice, &mut c2, 1001), Ok(()));
    assert_ne!(c1.session_id, c2.session_id);
    assert_eq!(m.session_count(), 1);
    assert_eq!(m.get_current_user(&c1).err(), Some(CoreError::SessionMissing));
    assert_eq!(m.resolve(session_token("alice", 1000)).err(), Some(CoreError::SessionMissing));
    assert_eq!(m.get_current_user(&c2).unwrap().get_name(), "alice");
    assert_eq!(m.resolve(session_token("alice", 1001)).unwrap().get_name(), "alice");
}

#[test]
fn two_logins_in_one_second_share_a_token() {
    let mut m = empty_manager();
    m.add_new_user(credentials("alice", "pw").to_user()).unwrap();
    let alice = credentials("alice", "pw").to_user();
    let mut c1 = CookieJar { session_id: None };
    let mut c2 = CookieJar { session_id: None };
    assert_eq!(m.login_user_at(&alice, &mut c1, 1000), Ok(()));
    assert_eq!(m.login_user_at(&alice, &mut c2, 1000), Ok(()));
    assert_eq!(c1.session_id, c2.session_id);
    assert_eq!(m.session_count(), 1);
    assert_eq!(m.get_current_user(&c1).unwrap().get_name(), "alice");
}

#[test]
fn sessions_of_different_users_live_side_by_side() {
    let mut m = empty_manager();
    m.add_new_user(credentials("alice", "pw").to_user()).unwrap();
    m.add_new_user(credentials("bob", "pw").to_user()).unwrap();
    let mut a = CookieJar { session_id: None };
    let mut b = CookieJar { session_id: None };
    m.login_user_at(&credentials("alice", "pw").to_user(), &mut a, 10).unwrap();
    m.login_user_at(&credentials("bob", "pw").to_user(), &mut b, 10).unwrap();
    assert_eq!(m.session_count(), 2);
    assert_eq!(m.get_current_user(&a).unwrap().get_name(), "alice");
    assert_eq!(m.get_current_user(&b).unwrap().get_name(), "bob");
    m.invalidate("alice");
    assert_eq!(m.session_count(), 1);
    assert_eq!(m.get_current_user(&a).err(), Some(CoreError::SessionMissing));
    assert_eq!(m.get_current_user(&b).unwrap().get_name(), "bob");
    m.invalidate("nobody");
    assert_eq!(m.session_count(), 1);
}

#[test]
fn a_client_without_a_usable_cookie_has_no_session() {
    let mut m = empty_manager();
    m.add_new_user(credentials("alice", "pw").to_user()).unwrap();
    let mut jar = CookieJar { session_id: None };
    m.login_user_at(&credentials("alice", "pw").to_user(), &mut jar, 10).unwrap();
    let none = CookieJar { session_id: None };
    assert_eq!(m.get_current_user(&none).err(), Some(CoreError::SessionMissing));
    let garbage = CookieJar { session_id: Some("not a number".to_string()) };
    assert_eq!(m.get_current_user(&garbage).err(), Some(CoreError::SessionMissing));
    let stale = CookieJar { session_id: Some("12345".to_string()) };
    assert_eq!(m.get_current_user(&stale).err(), Some(CoreError::SessionMissing));
    assert_eq!(m.resolve(12345).err(), Some(CoreError::SessionMissing));
    let plus = CookieJar { session_id: Some(format!("+{}", session_token("alice", 10))) };
    assert_eq!(m.get_current_user(&plus).unwrap().get_name(), "alice");
    let quoted = CookieJar { session_id: Some(format!("\"{}\"", session_token("alice", 10))) };
    assert_eq!(m.get_current_user(&quoted).unwrap().get_name(), "alice");
}

#[test]
fn a_registry_with_a_repeated_name_is_corrupt() {
    let twice = vec![
        User { name: "alice".to_string(), hash: 1 },
        User { name: "bob".to_string(), hash: 2 },
        User { name: "alice".to_string(), hash: 3 },
    ];
    assert_eq!(UserManager::new(twice).err(), Some(CoreError::StorageCorrupt));
    let once = vec![
        User { name: "alice".to_string(), hash: 1 },
        User { name: "bob".to_string(), hash: 1 },
    ];
    let m = UserManager::new(once).unwrap();
    assert_eq!(m.users().len(), 2);
    assert_eq!(m.session_count(), 0);
}

#[test]
fn a_token_held_by_another_user_is_refused() {
    let mut m = empty_manager();
    m.add_new_user(credentials("alice", "pw").to_user()).unwrap();
    m.add_new_user(credentials("alice1", "pw").to_user()).unwrap();
    assert_eq!(session_token("alice", 17), session_token("alice1", 7));
    let mut a = CookieJar { session_id: None };
    let mut b = CookieJar { session_id: None };
    assert_eq!(m.login_user_at(&credentials("alice", "pw").to_user(), &mut a, 17), Ok(()));
    assert_eq!(
        m.login_user_at(&credentials("alice1", "pw").to_user(), &mut b, 7),
        Err(CoreError::InternalError)
    );
    assert_eq!(b.session_id, None);
    assert_eq!(m.session_count(), 1);
    assert_eq!(m.get_current_user(&a).unwrap().get_name(), "alice");
    assert_eq!(
        m.create_session(&credentials("alice1", "pw").to_user(), 7).err(),
        Some(CoreError::InternalError)
    );
    assert_eq!(m.login_user_at(&credentials("alice1", "pw").to_user(), &mut b, 8), Ok(()));
    assert_eq!(m.session_count(), 2);
    assert_eq!(m.get_current_user(&b).unwrap().get_name(), "alice1");
}

#[test]
fn create_session_returns_the_session_it_installs() {
    let mut m = empty_manager();
    m.add_new_user(credentials("alice", "pw").to_user()).unwrap();
    let alice = credentials("alice", "pw").to_user();
    let first = m.create_session(&alice, 100).unwrap();
    assert_eq!(first.user_name, "alice");
    assert_eq!(first.id, session_token("alice", 100));
    assert_eq!(first.creation_timestamp, 100);
    assert_eq!(first.last_action_timestamp, 100);
    assert_eq!(m.resolve(first.id).unwrap().get_name(), "alice");
    let second = m.create_session(&alice, 101).unwrap();
    assert_eq!(m.session_count(), 1);
    assert_eq!(m.resolve(first.id).err(), Some(CoreError::SessionMissing));
    assert_eq!(m.resolve(second.id).unwrap().get_name(), "alice");
    let copy = second.clone();
    assert_eq!(copy.id, second.id);
    assert_eq!(copy.user_name, second.user_name);
}

#[test]
fn signup_and_login_take_the_submitted_form() {
    let mut m = UserManager::default();
    assert_eq!(m.users().len(), 0);
    assert_eq!(m.session_count(), 0);
    let form = credentials("alice", "pw");
    assert_eq!(m.signup(&form), Ok(()));
    assert_eq!(m.session_count(), 0);
    assert_eq!(m.signup(&form), Err(CoreError::UserExists));
    assert_eq!(m.users().len(), 1);
    let mut jar = CookieJar { session_id: None };
    assert_eq!(m.login(&credentials("alice", "no"), &mut jar), Err(CoreError::AuthFailed));
    assert_eq!(m.login(&credentials("bob", "pw"), &mut jar), Err(CoreError::AuthFailed));
    assert_eq!(jar.session_id, None);
    assert_eq!(m.login(&form, &mut jar), Ok(()));
    assert_eq!(m.get_current_user(&jar).unwrap().get_name(), "alice");
}

#[test]
fn load_takes_the_records_as_they_were_read() {
    let good = vec![
        Some(User { name: "alice".to_string(), hash: 1 }),
        Some(User { name: "bob".to_string(), hash: 2 }),
    ];
    let m = UserManager::load(&good).unwrap();
    assert_eq!(m.users().len(), 2);
    assert_eq!(m.users()[0].name, "alice");
    assert_eq!(m.users()[1].name, "bob");
    assert_eq!(m.users()[1].hash, 2);
    assert_eq!(m.session_count(), 0);

    let unread = vec![Some(User { name: "alice".to_string(), hash: 1 }), None];
    assert_eq!(UserManager::load(&unread).err(), Some(CoreError::StorageCorrupt));
    let twice = vec![
        Some(User { name: "alice".to_string(), hash: 1 }),
        Some(User { name: "alice".to_string(), hash: 1 }),
    ];
    assert_eq!(UserManager::load(&twice).err(), Some(CoreError::StorageCorrupt));
    assert_eq!(UserManager::load(&Vec::new()).unwrap().users().len(), 0);
}
