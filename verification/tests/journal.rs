use filehost::journal::{frame_records, holds_delimiter, join_records, split_records};
use filehost::manager::{CookieJar, UserManager};
use filehost::user::{LoginData, User};

fn records(parts: &[&str]) -> Vec<Vec<u8>> {
    parts.iter().map(|p| p.as_bytes().to_vec()).collect()
}

#[test]
fn an_empty_journal_holds_no_record() {
    assert_eq!(split_records(b""), Vec::<Vec<u8>>::new());
    assert_eq!(join_records(&Vec::new()), Vec::<u8>::new());
}

#[test]
fn records_are_cut_at_each_delimiter() {
    assert_eq!(split_records(b"a"), records(&["a"]));
    assert_eq!(split_records(b"a\r\nb"), records(&["a", "b"]));
    assert_eq!(split_records(b"a\r\nb\r\nc"), records(&["a", "b", "c"]));
    assert_eq!(split_records(b"a\r\n"), records(&["a", ""]));
    assert_eq!(split_records(b"\r\n"), records(&["", ""]));
    assert_eq!(split_records(b"\r\n\r\n"), records(&["", "", ""]));
    assert_eq!(split_records(b"\r\r\n"), records(&["\r", ""]));
    assert_eq!(split_records(b"a\nb\rc"), records(&["a\nb\rc"]));
    assert_eq!(split_records(b"a\r"), records(&["a\r"]));
    assert_eq!(split_records(b"\r\n\n"), records(&["", "\n"]));
}

#[test]
fn cutting_agrees_with_std_split() {
    let samples = ["x", "x\r\ny", "\r\nx", "x\r\n\r\ny", "\r\r\n\n", "\n\r", "ab\r\ncd\r\n"];
    for s in samples {
        let expected: Vec<Vec<u8>> = s.split("\r\n").map(|p| p.as_bytes().to_vec()).collect();
        assert_eq!(split_records(s.as_bytes()), expected);
    }
}

#[test]
fn records_are_joined_with_the_delimiter() {
    assert_eq!(join_records(&records(&["a"])), b"a".to_vec());
    assert_eq!(join_records(&records(&["a", "b"])), b"a\r\nb".to_vec());
    assert_eq!(join_records(&records(&["a", "", "c"])), b"a\r\n\r\nc".to_vec());
    assert_eq!(join_records(&records(&["", ""])), b"\r\n".to_vec());
}

#[test]
fn joined_records_come_back() {
    let lists = [
        records(&[]),
        records(&["{\"name\":\"alice\",\"hash\":1}"]),
        records(&["{\"name\":\"alice\",\"hash\":1}", "{\"name\":\"bob\",\"hash\":2}"]),
        records(&["a\r", "\nb", ""]),
    ];
    for list in lists {
        assert_eq!(split_records(&join_records(&list)), list);
    }
}

#[test]
fn restart_keeps_the_registry() {
    let mut m = UserManager::new(Vec::new()).unwrap();
    let bob = LoginData::new("bob".to_string(), "secret".to_string());
    m.add_new_user(bob.to_user()).unwrap();
    m.add_new_user(LoginData::new("al\"ice".to_string(), "pw".to_string()).to_user()).unwrap();
    let mut jar = CookieJar { session_id: None };
    m.login_user(&bob.to_user(), &mut jar).unwrap();

    let mut written: Vec<Vec<u8>> = Vec::new();
    for u in m.users() {
        let mut record = serde_json::Map::new();
        record.insert("name".to_string(), serde_json::Value::from(u.get_name()));
        record.insert("hash".to_string(), serde_json::Value::from(u.hash));
        written.push(serde_json::to_vec(&serde_json::Value::Object(record)).unwrap());
    }
    let journal = join_records(&written);

    let mut loaded: Vec<User> = Vec::new();
    for record in split_records(&journal) {
        let value: serde_json::Value = serde_json::from_slice(&record).unwrap();
        loaded.push(User {
            name: value.get("name").unwrap().as_str().unwrap().to_string(),
            hash: value.get("hash").unwrap().as_u64().unwrap(),
        });
    }
    let mut fresh = UserManager::new(loaded).unwrap();
    assert_eq!(fresh.users().len(), 2);
    assert_eq!(fresh.users()[0].name, "bob");
    assert_eq!(fresh.users()[0].hash, m.users()[0].hash);
    assert_eq!(fresh.users()[1].name, "al\"ice");
    assert_eq!(fresh.users()[1].hash, m.users()[1].hash);
    assert_eq!(fresh.session_count(), 0);
    assert!(fresh.get_current_user(&jar).is_err());
    let mut new_jar = CookieJar { session_id: None };
    assert_eq!(fresh.login_user(&bob.to_user(), &mut new_jar), Ok(()));
    assert_eq!(fresh.get_current_user(&new_jar).unwrap().get_name(), "bob");
}

#[test]
fn only_records_that_come_back_are_framed() {
    assert_eq!(frame_records(&records(&[])), Some(Vec::new()));
    assert_eq!(frame_records(&records(&["a", "b"])), Some(b"a\r\nb".to_vec()));
    assert_eq!(frame_records(&records(&["", ""])), Some(b"\r\n".to_vec()));
    assert_eq!(frame_records(&records(&["a\r", "\nb"])), Some(b"a\r\r\n\nb".to_vec()));
    assert_eq!(frame_records(&records(&[""])), None);
    assert_eq!(frame_records(&records(&["a\r\nb"])), None);
    assert_eq!(frame_records(&records(&["a", "b\r\n"])), None);
    for list in [records(&["x"]), records(&["x", "", "y\r"]), records(&["\n", "\r"])] {
        let text = frame_records(&list).unwrap();
        assert_eq!(split_records(&text), list);
    }
}

#[test]
fn delimiters_are_found() {
    assert!(holds_delimiter(b"\r\n"));
    assert!(holds_delimiter(b"a\r\nb"));
    assert!(holds_delimiter(b"\r\r\n"));
    assert!(!holds_delimiter(b""));
    assert!(!holds_delimiter(b"\r"));
    assert!(!holds_delimiter(b"\n\r"));
    assert!(!holds_delimiter(b"a\rb\n"));
}
