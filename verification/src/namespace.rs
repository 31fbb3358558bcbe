//! The per-user file namespace: which names are safe, and where under the
//! storage root a user's files live.

use crate::error::CoreError;
use crate::user::User;
use vstd::prelude::*;
use vstd::string::*;

verus! {

/// Whether `c` separates the components of a path.
pub open spec fn is_separator(c: char) -> bool {
    c == '/' || c == '\\'
}

/// Whether two dots stand at the places `i` and `i + 1` of `s`.
pub open spec fn dots_at(s: Seq<char>, i: int) -> bool {
    0 <= i && i + 1 < s.len() && s[i] == '.' && s[i + 1] == '.'
}

/// Whether `s` can name a directory or a file below the storage root: it is
/// not empty, holds no separator, and nowhere two dots in a row.
pub open spec fn safe_component(s: Seq<char>) -> bool {
    &&& s.len() > 0
    &&& forall|i: int| 0 <= i < s.len() ==> !is_separator(#[trigger] s[i])
    &&& forall|i: int| !dots_at(s, i)
}

/// The directory of the user `name` below `root`.
pub open spec fn dir_path(root: Seq<char>, name: Seq<char>) -> Seq<char> {
    root + seq!['/'] + name
}

/// The place of the file `file` of the user `name` below `root`.
pub open spec fn file_path(root: Seq<char>, name: Seq<char>, file: Seq<char>) -> Seq<char> {
    dir_path(root, name) + seq!['/'] + file
}

/// Tests whether a name is a safe path component.
pub fn is_safe_component(name: &str) -> (r: bool)
    ensures
        r == safe_component(name@),
{
    let n: usize = name.unicode_len();
    if n == 0 {
        return false;
    }
    let mut after_dot: bool = false;
    let mut i: usize = 0;
    while i < n
        invariant
            n == name@.len(),
            i <= n,
            forall|k: int| 0 <= k < i ==> !is_separator(#[trigger] name@[k]),
            forall|k: int| k + 1 < i ==> !dots_at(name@, k),
            after_dot == (i > 0 && name@[i - 1] == '.'),
        decreases n - i,
    {
        let c: char = name.get_char(i);
        if c == '/' || c == '\\' {
            return false;
        }
        if c == '.' && after_dot {
            assert(dots_at(name@, i - 1));
            return false;
        }
        after_dot = c == '.';
        i = i + 1;
    }
    true
}

/// The directory of a user's files below `root`. A user whose name is not a
/// safe path component has none.
pub fn user_dir(root: &str, user: &User) -> (r: Result<String, CoreError>)
    ensures
        match r {
            Ok(p) => safe_component(user@.name) && p@ == dir_path(root@, user@.name),
            Err(e) => !safe_component(user@.name) && e == CoreError::InvalidFilename,
        },
{
    if !is_safe_component(user.name.as_str()) {
        return Err(CoreError::InvalidFilename);
    }
    proof {
        reveal_strlit("/");
    }
    let p = String::from_str(root).concat("/").concat(user.name.as_str());
    assert("/"@ =~= seq!['/']);
    Ok(p)
}

/// The place of a user's file below `root`. Neither an unsafe user name nor
/// an unsafe file name has one.
pub fn user_file(root: &str, user: &User, filename: &str) -> (r: Result<String, CoreError>)
    ensures
        match r {
            Ok(p) => safe_component(user@.name) && safe_component(filename@) && p@ == file_path(
                root@,
                user@.name,
                filename@,
            ),
            Err(e) => !(safe_component(user@.name) && safe_component(filename@)) && e
                == CoreError::InvalidFilename,
        },
{
    if !is_safe_component(filename) {
        return Err(CoreError::InvalidFilename);
    }
    match user_dir(root, user) {
        Ok(dir) => {
            proof {
                reveal_strlit("/");
            }
            let p = dir.concat("/").concat(filename);
            assert("/"@ =~= seq!['/']);
            Ok(p)
        },
        Err(e) => Err(e),
    }
}

/// How an attempt on the file system ended.
#[derive(Debug, Clone, Copy, PartialEq, Eq, Structural)]
pub enum IoOutcome {
    /// It did what was asked.
    Done,
    /// The file or directory does not exist.
    NotFound,
    /// It failed for any other reason.
    Failed,
}

/// What storing a file returns after the attempt ended as `outcome`: any
/// failure means that storage is unavailable.
pub fn store_status(outcome: IoOutcome) -> (r: Result<(), CoreError>)
    ensures
        r == match outcome {
            IoOutcome::Done => Ok::<(), CoreError>(()),
            _ => Err::<(), CoreError>(CoreError::StorageUnavailable),
        },
{
    match outcome {
        IoOutcome::Done => Ok(()),
        _ => Err(CoreError::StorageUnavailable),
    }
}

/// What listing a user's directory makes of the attempt to read it: whether
/// there is a directory to show. A user without a directory has no files,
/// which is no failure.
pub fn listing_status(outcome: IoOutcome) -> (r: Result<bool, CoreError>)
    ensures
        r == match outcome {
            IoOutcome::Done => Ok::<bool, CoreError>(true),
            IoOutcome::NotFound => Ok::<bool, CoreError>(false),
            IoOutcome::Failed => Err::<bool, CoreError>(CoreError::StorageUnavailable),
        },
{
    match outcome {
        IoOutcome::Done => Ok(true),
        IoOutcome::NotFound => Ok(false),
        IoOutcome::Failed => Err(CoreError::StorageUnavailable),
    }
}

/// What fetching or removing a file returns after the attempt ended as
/// `outcome`: an absent file is missing, any other failure means that storage
/// is unavailable.
pub fn access_status(outcome: IoOutcome) -> (r: Result<(), CoreError>)
    ensures
        r == match outcome {
            IoOutcome::Done => Ok::<(), CoreError>(()),
            IoOutcome::NotFound => Err::<(), CoreError>(CoreError::FileMissing),
            IoOutcome::Failed => Err::<(), CoreError>(CoreError::StorageUnavailable),
        },
{
    match outcome {
        IoOutcome::Done => Ok(()),
        IoOutcome::NotFound => Err(CoreError::FileMissing),
        IoOutcome::Failed => Err(CoreError::StorageUnavailable),
    }
}

/// A file as the listing of a user's directory shows it.
#[derive(Debug)]
pub struct FileEntry {
    pub name: String,
    pub size_bytes: u64,
    pub created_at: u64,
}

/// What the core reads of a file that a client sends: the name under which
/// it is to be stored, and its length.
#[derive(Debug)]
pub struct Upload {
    pub file_name: String,
    pub size_bytes: u64,
}

impl Upload {
    /// Where the upload is to be written for `user`.
    pub fn target(&self, root: &str, user: &User) -> (r: Result<String, CoreError>)
        ensures
            match r {
                Ok(p) => safe_component(user@.name) && safe_component(self.file_name@) && p@
                    == file_path(root@, user@.name, self.file_name@),
                Err(e) => !(safe_component(user@.name) && safe_component(self.file_name@)) && e
                    == CoreError::InvalidFilename,
            },
    {
        user_file(root, user, self.file_name.as_str())
    }

    /// What the listing shows of the upload once it is stored.
    pub fn entry(&self, created_at: u64) -> (r: FileEntry)
        ensures
            r.name@ == self.file_name@,
            r.size_bytes == self.size_bytes,
            r.created_at == created_at,
    {
        FileEntry { name: self.file_name.clone(), size_bytes: self.size_bytes, created_at }
    }
}

/// Whether `path` names something below the directory `dir`.
pub open spec fn lies_in(path: Seq<char>, dir: Seq<char>) -> bool {
    path.len() > dir.len() && path.take(dir.len() as int + 1) == dir + seq!['/']
}

/// No file of one user lies in the directory of another: a file below the
/// directory of `b` belongs to `b`.
pub proof fn law_namespaces_disjoint(root: Seq<char>, a: Seq<char>, f: Seq<char>, b: Seq<char>)
    requires
        safe_component(a),
        safe_component(b),
        lies_in(file_path(root, a, f), dir_path(root, b)),
    ensures
        a == b,
{
    let p = file_path(root, a, f);
    let q = dir_path(root, b) + seq!['/'];
    let r = root.len() as int;
    assert(p.take(q.len() as int) == q);
    assert forall|k: int| 0 <= k < q.len() implies p[k] == q[k] by {
        assert(p.take(q.len() as int)[k] == p[k]);
    }
    if a.len() < b.len() {
        let k = r + 1 + a.len();
        assert(p[k] == '/');
        assert(q[k] == b[a.len() as int]);
        assert(false);
    }
    if b.len() < a.len() {
        let k = r + 1 + b.len();
        assert(q[k] == '/');
        assert(p[k] == a[b.len() as int]);
        assert(false);
    }
    assert forall|k: int| 0 <= k < a.len() implies a[k] == b[k] by {
        assert(p[r + 1 + k] == a[k]);
        assert(q[r + 1 + k] == b[k]);
    }
    assert(a =~= b);
}

/// The place of a file determines its owner and its name: two files at one
/// place have the same owner and the same name.
pub proof fn law_place_determines_file(
    root: Seq<char>,
    a: Seq<char>,
    f: Seq<char>,
    b: Seq<char>,
    g: Seq<char>,
)
    requires
        safe_component(a),
        safe_component(b),
        file_path(root, a, f) == file_path(root, b, g),
    ensures
        a == b,
        f == g,
{
    let p = file_path(root, a, f);
    let d = dir_path(root, b);
    assert(p.take(d.len() as int + 1) =~= d + seq!['/']);
    law_namespaces_disjoint(root, a, f, b);
    let base = root.len() + 1 + a.len() + 1;
    assert(p.len() == base + f.len());
    assert(p.len() == base + g.len());
    assert forall|k: int| 0 <= k < f.len() implies f[k] == g[k] by {
        assert(file_path(root, a, f)[base + k] == f[k]);
        assert(file_path(root, b, g)[base + k] == g[k]);
    }
    assert(f =~= g);
}

} // verus!
