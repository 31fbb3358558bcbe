//! Pages: templates whose placeholders are filled in, and the table of a
//! user's files.

use crate::bytes::append_bytes;
use crate::template::count_occurrences;
use crate::template::occurrences;
use crate::template::replace_all;
use crate::template::replace_first;
use crate::template::replaced;
use crate::template::replaced_first;
use crate::user::User;
use chrono::DateTime;
use chrono::Utc;
use std::fmt::Write;
use vstd::prelude::*;
use vstd::string::*;
use vstd::utf8::*;

verus! {

/// The day of the instant `secs` seconds after the Unix epoch, in UTC, as
/// chrono's `DateTime::format` writes it for `%d/%m/%y`; `None` for an
/// instant that chrono's `DateTime::from_timestamp` does not accept.
pub uninterp spec fn spec_day_text(secs: i64) -> Option<Seq<char>>;

/// The text of an optional string.
pub open spec fn text_of(s: Option<String>) -> Option<Seq<char>> {
    match s {
        Some(t) => Some(t@),
        None => None,
    }
}

/// Calls chrono's `DateTime::<Utc>::from_timestamp` with `secs` and no
/// nanoseconds, and `DateTime::format` with `%d/%m/%y` on what it gives. The
/// result is a function of `secs` alone: the calendar is UTC and no locale
/// enters. Nothing else is claimed of the text.
#[verifier::external_body]
fn day_text(secs: i64) -> (r: Option<String>)
    ensures
        text_of(r) == spec_day_text(secs),
{
    let instant = DateTime::<Utc>::from_timestamp(secs, 0)?;
    let mut out = String::new();
    write!(out, "{}", instant.format("%d/%m/%y")).ok()?;
    Some(out)
}

/// The day that a page shows for a file created at `created_at`: nothing
/// where the instant has no day.
pub open spec fn day_shown(created_at: u64) -> Seq<char> {
    if created_at <= i64::MAX as u64 {
        match spec_day_text(created_at as i64) {
            Some(t) => t,
            None => Seq::<char>::empty(),
        }
    } else {
        Seq::<char>::empty()
    }
}

/// What the `i`-th `{message}` of a page is replaced by: the `i`-th message,
/// or nothing where the messages have run out.
pub open spec fn message_at(messages: Seq<Seq<char>>, i: int) -> Seq<u8> {
    if 0 <= i < messages.len() {
        encode_utf8(messages[i])
    } else {
        Seq::<u8>::empty()
    }
}

/// `text` after the messages from the `i`-th on have each replaced the then
/// first `{message}`, `count` replacements in all.
pub open spec fn filled(text: Seq<u8>, messages: Seq<Seq<char>>, i: int, count: int) -> Seq<u8>
    decreases count - i,
{
    if i >= count {
        text
    } else {
        filled(
            replaced_first(text, "{message}".spec_bytes(), message_at(messages, i)),
            messages,
            i + 1,
            count,
        )
    }
}

/// A template with its placeholders filled in: every `{name}` by the user's
/// name where there is a user, every `{error}` by the error or by nothing,
/// and the `{message}`s one after another by the messages, as many
/// replacements as the page held `{message}`s; without messages, each by
/// nothing.
pub open spec fn rendered(
    template: Seq<u8>,
    name: Option<Seq<char>>,
    error: Option<Seq<char>>,
    messages: Option<Seq<Seq<char>>>,
) -> Seq<u8> {
    let named = match name {
        Some(n) => replaced(template, "{name}".spec_bytes(), encode_utf8(n)),
        None => template,
    };
    let told = match error {
        Some(e) => replaced(named, "{error}".spec_bytes(), encode_utf8(e)),
        None => replaced(named, "{error}".spec_bytes(), Seq::<u8>::empty()),
    };
    match messages {
        Some(m) => filled(told, m, 0, occurrences(told, "{message}".spec_bytes()) as int),
        None => replaced(told, "{message}".spec_bytes(), Seq::<u8>::empty()),
    }
}

/// The name of an optional user.
pub open spec fn name_of(user: Option<&User>) -> Option<Seq<char>> {
    match user {
        Some(u) => Some(u@.name),
        None => None,
    }
}

/// The text of an optional string slice.
pub open spec fn slice_text(s: Option<&str>) -> Option<Seq<char>> {
    match s {
        Some(t) => Some(t@),
        None => None,
    }
}

/// The texts of a sequence of strings, place by place.
pub open spec fn texts(strings: Seq<String>) -> Seq<Seq<char>> {
    Seq::new(strings.len(), |i: int| strings[i]@)
}

/// The texts of an optional list of strings.
pub open spec fn texts_of(list: Option<&Vec<String>>) -> Option<Seq<Seq<char>>> {
    match list {
        Some(v) => Some(texts(v@)),
        None => None,
    }
}

/// Fills the placeholders of a template.
pub fn render(
    template: &[u8],
    user: Option<&User>,
    error: Option<&str>,
    message: Option<&Vec<String>>,
) -> (page: Vec<u8>)
    ensures
        page@ == rendered(template@, name_of(user), slice_text(error), texts_of(message)),
{
    let nothing: Vec<u8> = Vec::new();
    assert(nothing@ =~= Seq::<u8>::empty());
    let named = match user {
        Some(u) => replace_all(template, "{name}".as_bytes(), u.name.as_str().as_bytes()),
        None => vstd::slice::slice_to_vec(template),
    };
    let told = match error {
        Some(e) => replace_all(named.as_slice(), "{error}".as_bytes(), e.as_bytes()),
        None => replace_all(named.as_slice(), "{error}".as_bytes(), nothing.as_slice()),
    };
    match message {
        Some(m) => {
            let count: usize = count_occurrences(told.as_slice(), "{message}".as_bytes());
            let ghost all = texts(m@);
            let mut page = told;
            let mut i: usize = 0;
            while i < count
                invariant
                    i <= count,
                    all == texts(m@),
                    nothing@ == Seq::<u8>::empty(),
                    filled(page@, all, i as int, count as int) == filled(
                        told@,
                        all,
                        0,
                        count as int,
                    ),
                decreases count - i,
            {
                let with: &[u8] = if i < m.len() {
                    assert(all[i as int] == m@[i as int]@);
                    m[i].as_str().as_bytes()
                } else {
                    nothing.as_slice()
                };
                page = replace_first(page.as_slice(), "{message}".as_bytes(), with);
                i = i + 1;
            }
            page
        },
        None => replace_all(told.as_slice(), "{message}".as_bytes(), nothing.as_slice()),
    }
}

/// What a row of the table shows of a file: its name, its size as text, and
/// the time of its creation in seconds since the Unix epoch.
#[derive(Debug)]
pub struct FileRow {
    pub name: String,
    pub size: String,
    pub created_at: u64,
}

/// What a row is to the contracts.
pub struct FileRowView {
    pub name: Seq<char>,
    pub size: Seq<char>,
    pub created_at: u64,
}

impl View for FileRow {
    type V = FileRowView;

    open spec fn view(&self) -> FileRowView {
        FileRowView { name: self.name@, size: self.size@, created_at: self.created_at }
    }
}

/// The views of a sequence of rows, place by place.
pub open spec fn rows_view(rows: Seq<FileRow>) -> Seq<FileRowView> {
    Seq::new(rows.len(), |i: int| rows[i]@)
}

/// The form whose button opens the file `name`.
pub open spec fn open_form(name: Seq<char>) -> Seq<u8> {
    "<form method='get' action = 'myfiles.html/open/".spec_bytes() + encode_utf8(name)
        + "' enctype='multipart/form-data'>
                    <button type='submit'>
                        <img src='open.svg' id = 'open_button'>
                    </button>
                </form>".spec_bytes()
}

/// The form whose button deletes the file `name`.
pub open spec fn delete_form(name: Seq<char>) -> Seq<u8> {
    "<form method='post' action = 'myfiles.html/delete/".spec_bytes() + encode_utf8(name)
        + "' enctype='multipart/form-data'>
                    <button type='submit'>
                        <img src='delete.svg' id = 'delete_button'>
                    </button>
                </form>".spec_bytes()
}

/// One row of the table: a line break, then the cells for name, size and
/// day, and one cell with the two forms.
pub open spec fn row_html(name: Seq<char>, size: Seq<char>, day: Seq<char>) -> Seq<u8> {
    "\n<tr><td>".spec_bytes() + encode_utf8(name) + "</td><td>".spec_bytes() + encode_utf8(size)
        + "</td><td>".spec_bytes() + encode_utf8(day) + "</td><td>".spec_bytes() + open_form(name)
        + delete_form(name) + "</td></tr>".spec_bytes()
}

/// The rows of the table, one after another.
pub open spec fn rows_html(rows: Seq<FileRowView>) -> Seq<u8>
    decreases rows.len(),
{
    if rows.len() == 0 {
        Seq::<u8>::empty()
    } else {
        rows_html(rows.drop_last()) + row_html(
            rows.last().name,
            rows.last().size,
            day_shown(rows.last().created_at),
        )
    }
}

/// Appends the UTF-8 bytes of `part` to `out`.
fn push_text(out: &mut Vec<u8>, part: &str)
    ensures
        final(out)@ == old(out)@ + part.spec_bytes(),
{
    append_bytes(out, part.as_bytes());
}

/// Writes one row of the table after what `out` holds.
pub fn push_row(out: &mut Vec<u8>, name: &str, size: &str, day: &str)
    ensures
        final(out)@ == old(out)@ + row_html(name@, size@, day@),
{
    let ghost before = out@;
    push_text(out, "\n<tr><td>");
    push_text(out, name);
    push_text(out, "</td><td>");
    push_text(out, size);
    push_text(out, "</td><td>");
    push_text(out, day);
    push_text(out, "</td><td>");
    push_text(out, "<form method='get' action = 'myfiles.html/open/");
    push_text(out, name);
    push_text(
        out,
        "' enctype='multipart/form-data'>
                    <button type='submit'>
                        <img src='open.svg' id = 'open_button'>
                    </button>
                </form>",
    );
    push_text(out, "<form method='post' action = 'myfiles.html/delete/");
    push_text(out, name);
    push_text(
        out,
        "' enctype='multipart/form-data'>
                    <button type='submit'>
                        <img src='delete.svg' id = 'delete_button'>
                    </button>
                </form>",
    );
    push_text(out, "</td></tr>");
    assert(out@ =~= before + row_html(name@, size@, day@));
}

/// Writes the rows of the table, with the day of each file's creation.
pub fn render_rows(rows: &Vec<FileRow>) -> (html: Vec<u8>)
    ensures
        html@ == rows_html(rows_view(rows@)),
{
    let ghost all = rows_view(rows@);
    let mut out: Vec<u8> = Vec::new();
    let mut i: usize = 0;
    assert(all.take(0) =~= Seq::<FileRowView>::empty());
    while i < rows.len()
        invariant
            i <= rows@.len(),
            all == rows_view(rows@),
            out@ == rows_html(all.take(i as int)),
        decreases rows@.len() - i,
    {
        let row = &rows[i];
        let day: Option<String> = if row.created_at <= i64::MAX as u64 {
            day_text(row.created_at as i64)
        } else {
            None
        };
        let blank = String::new();
        let shown: &str = match &day {
            Some(t) => t.as_str(),
            None => blank.as_str(),
        };
        assert(shown@ == day_shown(row.created_at));
        push_row(&mut out, row.name.as_str(), row.size.as_str(), shown);
        proof {
            let next = all.take(i + 1);
            assert(next.drop_last() =~= all.take(i as int));
            assert(next.last() == row@);
        }
        i = i + 1;
    }
    assert(all.take(i as int) =~= all);
    out
}

/// What the place of the table shows: the rows, or one sentence where the
/// user has no directory yet.
pub open spec fn files_html(rows: Option<Seq<FileRowView>>) -> Seq<u8> {
    match rows {
        Some(r) => rows_html(r),
        None => "This user has not uploaded any files.".spec_bytes(),
    }
}

/// The page of a user's files: the template with the user's name filled in
/// and every `{files}` replaced by the table.
pub open spec fn my_files_page(
    template: Seq<u8>,
    name: Seq<char>,
    rows: Option<Seq<FileRowView>>,
) -> Seq<u8> {
    replaced(
        rendered(template, Some(name), None, None),
        "{files}".spec_bytes(),
        files_html(rows),
    )
}

/// The views of an optional list of rows.
pub open spec fn rows_of(rows: Option<&Vec<FileRow>>) -> Option<Seq<FileRowView>> {
    match rows {
        Some(r) => Some(rows_view(r@)),
        None => None,
    }
}

/// Writes the page of a user's files; `rows` is `None` where the user has no
/// directory yet.
pub fn render_myfiles(template: &[u8], user: &User, rows: Option<&Vec<FileRow>>) -> (page: Vec<u8>)
    ensures
        page@ == my_files_page(template@, user@.name, rows_of(rows)),
{
    let base = render(template, Some(user), None, None);
    let table = match rows {
        Some(r) => render_rows(r),
        None => {
            let mut sentence: Vec<u8> = Vec::new();
            push_text(&mut sentence, "This user has not uploaded any files.");
            assert(sentence@ =~= "This user has not uploaded any files.".spec_bytes());
            sentence
        },
    };
    replace_all(base.as_slice(), "{files}".as_bytes(), table.as_slice())
}

} // verus!
