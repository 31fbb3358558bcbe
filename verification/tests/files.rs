use filehost::error::{CoreError, Disposition};
use filehost::namespace::{
    access_status, is_safe_component, listing_status, store_status, user_dir, user_file, IoOutcome, Upload,
};
use filehost::user::User;

fn user(name: &str) -> User {
    User { name: name.to_string(), hash: 0 }
}

#[test]
fn safe_components() {
    assert!(is_safe_component("hello.txt"));
    assert!(is_safe_component("alice"));
    assert!(is_safe_component("."));
    assert!(is_safe_component(".hidden"));
    assert!(is_safe_component("a.b.c"));
    assert!(is_safe_component("résumé.pdf"));
    assert!(is_safe_component("with space"));
}

#[test]
fn unsafe_components() {
    assert!(!is_safe_component(""));
    assert!(!is_safe_component(".."));
    assert!(!is_safe_component("a..b"));
    assert!(!is_safe_component("..."));
    assert!(!is_safe_component("a/b"));
    assert!(!is_safe_component("/"));
    assert!(!is_safe_component("a\\b"));
    assert!(!is_safe_component("../etc/passwd"));
    assert!(!is_safe_component("é/"));
}

#[test]
fn a_user_directory_is_root_then_name() {
    assert_eq!(user_dir("database", &user("alice")), Ok("database/alice".to_string()));
    assert_eq!(user_dir("", &user("alice")), Ok("/alice".to_string()));
    assert_eq!(user_dir("database", &user("")), Err(CoreError::InvalidFilename));
    assert_eq!(user_dir("database", &user("..")), Err(CoreError::InvalidFilename));
    assert_eq!(user_dir("database", &user("a/b")), Err(CoreError::InvalidFilename));
}

#[test]
fn a_file_lives_in_its_owners_directory() {
    assert_eq!(
        user_file("database", &user("alice"), "hello.txt"),
        Ok("database/alice/hello.txt".to_string())
    );
    assert_eq!(
        user_file("database", &user("alice"), "../bob/hello.txt"),
        Err(CoreError::InvalidFilename)
    );
    assert_eq!(user_file("database", &user("alice"), ""), Err(CoreError::InvalidFilename));
    assert_eq!(user_file("database", &user("alice"), ".."), Err(CoreError::InvalidFilename));
    assert_eq!(user_file("database", &user("a\\b"), "f"), Err(CoreError::InvalidFilename));
}

#[test]
fn different_users_never_share_a_place() {
    let names = ["alice", "bob", "al", "ice", "alicehello"];
    let files = ["hello.txt", "f", "alice", "bob"];
    let mut seen: Vec<(String, &str, &str)> = Vec::new();
    for n in names {
        for f in files {
            let p = user_file("database", &user(n), f).unwrap();
            for (q, m, g) in &seen {
                assert!(p != *q, "{} {} and {} {}", n, f, m, g);
            }
            seen.push((p, n, f));
        }
    }
    let of_alice = user_file("database", &user("alice"), "f").unwrap();
    let dir_of_al = user_dir("database", &user("al")).unwrap();
    assert!(!of_alice.starts_with(&format!("{}/", dir_of_al)));
}

#[test]
fn upload_then_listing_entry() {
    let upload = Upload { file_name: "hello.txt".to_string(), size_bytes: 2 };
    assert_eq!(
        upload.target("database", &user("alice")),
        Ok("database/alice/hello.txt".to_string())
    );
    let entry = upload.entry(1700000000);
    assert_eq!(entry.name, "hello.txt");
    assert_eq!(entry.size_bytes, 2);
    assert_eq!(entry.created_at, 1700000000);
    let bad = Upload { file_name: "a/b".to_string(), size_bytes: 0 };
    assert_eq!(bad.target("database", &user("alice")), Err(CoreError::InvalidFilename));
}

#[test]
fn file_system_outcomes_become_typed_errors() {
    assert_eq!(store_status(IoOutcome::Done), Ok(()));
    assert_eq!(store_status(IoOutcome::NotFound), Err(CoreError::StorageUnavailable));
    assert_eq!(store_status(IoOutcome::Failed), Err(CoreError::StorageUnavailable));
    assert_eq!(access_status(IoOutcome::Done), Ok(()));
    assert_eq!(access_status(IoOutcome::NotFound), Err(CoreError::FileMissing));
    assert_eq!(access_status(IoOutcome::Failed), Err(CoreError::StorageUnavailable));
    assert_eq!(listing_status(IoOutcome::Done), Ok(true));
    assert_eq!(listing_status(IoOutcome::NotFound), Ok(false));
    assert_eq!(listing_status(IoOutcome::Failed), Err(CoreError::StorageUnavailable));
}

#[test]
fn each_failure_has_its_disposition_and_message() {
    assert_eq!(CoreError::UserExists.disposition(), Disposition::RenderSignup);
    assert_eq!(CoreError::AuthFailed.disposition(), Disposition::RenderLogin);
    assert_eq!(CoreError::SessionMissing.disposition(), Disposition::RedirectToLogin);
    assert_eq!(CoreError::InvalidFilename.disposition(), Disposition::Status(400));
    assert_eq!(CoreError::FileMissing.disposition(), Disposition::Status(404));
    assert_eq!(CoreError::StorageUnavailable.disposition(), Disposition::Status(500));
    assert_eq!(CoreError::StorageCorrupt.disposition(), Disposition::Abort);
    assert_eq!(CoreError::InternalError.disposition(), Disposition::Status(500));
    assert_eq!(
        CoreError::AuthFailed.message(),
        "User name or password provided doesn't correspond to any existing users."
    );
    assert_eq!(CoreError::UserExists.message(), "A user of that name already exists.");
    assert_eq!(CoreError::FileMissing.message(), "There is no such file.");
}
