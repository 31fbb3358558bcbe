use filehost::bytes::append_bytes;
use filehost::page::{push_row, render, render_myfiles, render_rows, FileRow};
use filehost::template::{count_occurrences, replace_all, replace_first};
use filehost::user::User;

fn alice() -> User {
    User { name: "alice".to_string(), hash: 0 }
}

fn text(bytes: Vec<u8>) -> String {
    String::from_utf8(bytes).unwrap()
}

#[test]
fn append_bytes_appends() {
    let mut out = b"ab".to_vec();
    append_bytes(&mut out, b"cd");
    append_bytes(&mut out, b"");
    assert_eq!(out, b"abcd".to_vec());
}

#[test]
fn replace_all_replaces_every_occurrence() {
    assert_eq!(text(replace_all(b"a{x}b{x}c", b"{x}", b"12")), "a12b12c");
    assert_eq!(text(replace_all(b"{x}{x}", b"{x}", b"")), "");
    assert_eq!(text(replace_all(b"no marks", b"{x}", b"12")), "no marks");
    assert_eq!(text(replace_all(b"", b"{x}", b"12")), "");
    assert_eq!(text(replace_all(b"aaa", b"aa", b"b")), "ba");
    assert_eq!(text(replace_all(b"{x", b"{x}", b"12")), "{x");
    assert_eq!(text(replace_all(b"{{x}}", b"{x}", b"{x}")), "{{x}}");
    assert_eq!(text(replace_all(b"abc", b"", b"-")), "abc");
}

#[test]
fn replace_first_replaces_one_occurrence() {
    assert_eq!(text(replace_first(b"a{x}b{x}c", b"{x}", b"12")), "a12b{x}c");
    assert_eq!(text(replace_first(b"no marks", b"{x}", b"12")), "no marks");
    assert_eq!(text(replace_first(b"aaa", b"aa", b"b")), "ba");
    assert_eq!(text(replace_first(b"xaaa", b"aa", b"")), "xa");
    assert_eq!(text(replace_first(b"abc", b"", b"-")), "abc");
}

#[test]
fn count_occurrences_counts_disjoint_matches() {
    assert_eq!(count_occurrences(b"a{x}b{x}c", b"{x}"), 2);
    assert_eq!(count_occurrences(b"aaaa", b"aa"), 2);
    assert_eq!(count_occurrences(b"aaa", b"aa"), 1);
    assert_eq!(count_occurrences(b"", b"aa"), 0);
    assert_eq!(count_occurrences(b"abc", b""), 0);
}

#[test]
fn substitution_agrees_with_std() {
    let samples = ["", "{m}", "x{m}y{m}", "{m}{m}{m}", "{{m}}", "{m", "m}{m}", "ääñ{m}ñ"];
    for s in samples {
        assert_eq!(text(replace_all(s.as_bytes(), b"{m}", "é!".as_bytes())), s.replace("{m}", "é!"));
        assert_eq!(
            text(replace_first(s.as_bytes(), b"{m}", "é!".as_bytes())),
            s.replacen("{m}", "é!", 1)
        );
        assert_eq!(count_occurrences(s.as_bytes(), b"{m}"), s.matches("{m}").count());
    }
}

#[test]
fn render_fills_name_and_error() {
    let template = b"<h1>{name}</h1><p>{error}</p><p>{name}</p>";
    assert_eq!(
        text(render(template, Some(&alice()), Some("taken"), None)),
        "<h1>alice</h1><p>taken</p><p>alice</p>"
    );
    assert_eq!(
        text(render(template, None, None, None)),
        "<h1>{name}</h1><p></p><p>{name}</p>"
    );
    assert_eq!(text(render(template, Some(&alice()), None, None)), "<h1>alice</h1><p></p><p>alice</p>");
}

#[test]
fn render_fills_messages_in_order() {
    let template = b"{message}|{message}|{message}";
    let two = vec!["one".to_string(), "two".to_string()];
    let four: Vec<String> = ["a", "b", "c", "d"].iter().map(|s| s.to_string()).collect();
    assert_eq!(text(render(template, None, None, None)), "||");
    assert_eq!(text(render(template, None, None, Some(&two))), "one|two|");
    assert_eq!(text(render(template, None, None, Some(&four))), "a|b|c");
    assert_eq!(text(render(template, None, None, Some(&Vec::new()))), "||");
    let nested = vec!["<{message}>".to_string(), "x".to_string()];
    assert_eq!(text(render(b"{message}-{message}", None, None, Some(&nested))), "<x>-{message}");
}

#[test]
fn a_row_shows_name_size_day_and_two_forms() {
    let mut out = b"before".to_vec();
    push_row(&mut out, "hello.txt", "0.00 MB", "14/11/23");
    let expected = format!(
        "before\n<tr><td>{}</td><td>{}</td><td>{}</td><td>{}{}</td></tr>",
        "hello.txt",
        "0.00 MB",
        "14/11/23",
        format!(
            "<form method='get' action = 'myfiles.html/open/{}' enctype='multipart/form-data'>
                    <button type='submit'>
                        <img src='open.svg' id = 'open_button'>
                    </button>
                </form>",
            "hello.txt"
        ),
        format!(
            "<form method='post' action = 'myfiles.html/delete/{}' enctype='multipart/form-data'>
                    <button type='submit'>
                        <img src='delete.svg' id = 'delete_button'>
                    </button>
                </form>",
            "hello.txt"
        )
    );
    assert_eq!(text(out), expected);
}

#[test]
fn rows_show_the_day_of_creation() {
    let rows = vec![
        FileRow { name: "a".to_string(), size: "1.00 MB".to_string(), created_at: 1700000000 },
        FileRow { name: "b".to_string(), size: "2.00 MB".to_string(), created_at: 0 },
        FileRow { name: "c".to_string(), size: "3.00 MB".to_string(), created_at: 951782400 },
        FileRow { name: "d".to_string(), size: "4.00 MB".to_string(), created_at: u64::MAX },
    ];
    let html = text(render_rows(&rows));
    let mut expected: Vec<u8> = Vec::new();
    push_row(&mut expected, "a", "1.00 MB", "14/11/23");
    push_row(&mut expected, "b", "2.00 MB", "01/01/70");
    push_row(&mut expected, "c", "3.00 MB", "29/02/00");
    push_row(&mut expected, "d", "4.00 MB", "");
    assert_eq!(html, text(expected));
    assert!(html.contains("<td>a</td><td>1.00 MB</td><td>14/11/23</td>"));
    assert_eq!(render_rows(&Vec::new()), Vec::<u8>::new());
}

#[test]
fn the_files_page_holds_the_table() {
    let template = b"<h1>{name}</h1><table>{files}</table>{error}";
    let rows = vec![FileRow {
        name: "hello.txt".to_string(),
        size: "0.00 MB".to_string(),
        created_at: 1700000000,
    }];
    let mut table: Vec<u8> = Vec::new();
    push_row(&mut table, "hello.txt", "0.00 MB", "14/11/23");
    assert_eq!(
        text(render_myfiles(template, &alice(), Some(&rows))),
        format!("<h1>alice</h1><table>{}</table>", text(table))
    );
    assert_eq!(
        text(render_myfiles(template, &alice(), None)),
        "<h1>alice</h1><table>This user has not uploaded any files.</table>"
    );
    assert_eq!(
        text(render_myfiles(template, &alice(), Some(&Vec::new()))),
        "<h1>alice</h1><table></table>"
    );
}
