//! The decisions taken when a lockfile path is checked and read: which
//! error a path is refused with, and the message for each failure.

use vstd::prelude::*;

use crate::text::{
    chars_of, has_prefix, lemma_split_on_extend, lemma_split_on_nonempty, lemma_split_on_prefix,
    split_on, window_eq, window_has_prefix,
};

verus! {

/// Errors that can occur during lockfile path validation; each carries
/// the path as displayed.
#[derive(Debug, Clone, PartialEq)]
pub enum LockfileError {
    NotFound(String),
    IsDirectory(String),
    NotReadable(String),
    PathTraversal(String),
}

/// The message of an error, given its kind and path: the text that its
/// `Display` shows.
pub open spec fn lockfile_error_text(e: LockfileError) -> Seq<char> {
    match e {
        LockfileError::NotFound(p) => "lockfile path does not exist: "@ + p@,
        LockfileError::IsDirectory(p) => "lockfile path is a directory, not a file: "@ + p@,
        LockfileError::NotReadable(p) => "lockfile path is not readable: "@ + p@,
        LockfileError::PathTraversal(p) => "lockfile path escapes the current directory: "@
            + p@,
    }
}

/// `head` followed by `tail`.
fn joined(head: &str, tail: &str) -> (r: String)
    ensures
        r@ == head@ + tail@,
{
    let mut r = head.to_owned();
    r.append(tail);
    r
}

impl LockfileError {
    /// The error's message.
    pub fn message(&self) -> (r: String)
        ensures
            r@ == lockfile_error_text(*self),
    {
        match self {
            LockfileError::NotFound(p) => joined("lockfile path does not exist: ", p.as_str()),
            LockfileError::IsDirectory(p) => joined(
                "lockfile path is a directory, not a file: ",
                p.as_str(),
            ),
            LockfileError::NotReadable(p) => joined("lockfile path is not readable: ", p.as_str()),
            LockfileError::PathTraversal(p) => joined(
                "lockfile path escapes the current directory: ",
                p.as_str(),
            ),
        }
    }
}

/// The checks made on a lockfile path as given, before it is resolved: a
/// path that does not exist is refused as `NotFound`, a directory as
/// `IsDirectory`; anything else passes.
pub fn check_lockfile_path(raw: &str, exists: bool, is_dir: bool) -> (r: Result<(), LockfileError>)
    ensures
        !exists ==> (r matches Err(LockfileError::NotFound(p)) && p@ == raw@),
        exists && is_dir ==> (r matches Err(LockfileError::IsDirectory(p)) && p@ == raw@),
        exists && !is_dir ==> r is Ok,
{
    if !exists {
        return Err(LockfileError::NotFound(raw.to_owned()));
    }
    if is_dir {
        return Err(LockfileError::IsDirectory(raw.to_owned()));
    }
    Ok(())
}

/// The check made on the resolved path: it must be a regular file, or it
/// is refused as `NotReadable`.
pub fn check_resolved_lockfile(canonical: &str, is_file: bool) -> (r: Result<(), LockfileError>)
    ensures
        is_file ==> r is Ok,
        !is_file ==> (r matches Err(LockfileError::NotReadable(p)) && p@ == canonical@),
{
    if !is_file {
        return Err(LockfileError::NotReadable(canonical.to_owned()));
    }
    Ok(())
}

/// The path names a `..` component: one of its `/`-separated parts is
/// `..`.
pub open spec fn has_parent_component(raw: Seq<char>) -> bool {
    split_on(raw, '/').contains(".."@)
}

/// The path `p` lies in the directory `d` (both resolved): it is `d`, or
/// it continues `d` past a `/`.
pub open spec fn is_within(p: Seq<char>, d: Seq<char>) -> bool {
    ||| p == d
    ||| has_prefix(p, d) && ((d.len() > 0 && d.last() == '/') || (p.len() > d.len() && p[d.len() as int]
        == '/'))
}

/// Whether a part of `s` between `/`s is `..`.
fn parent_component(s: &Vec<char>) -> (b: bool)
    ensures
        b == has_parent_component(s@),
{
    let dots = chars_of("..");
    let n = s.len();
    let mut start: usize = 0;
    let mut i: usize = 0;
    proof {
        assert(s@.subrange(0, 0) =~= Seq::<char>::empty());
        assert(split_on(s@.subrange(0, 0), '/').drop_last() =~= Seq::<Seq<char>>::empty());
    }
    while i < n
        invariant
            start <= i <= n == s.len(),
            dots@ == ".."@,
            split_on(s@.subrange(0, i as int), '/').last() == s@.subrange(start as int, i as int),
            !split_on(s@.subrange(0, i as int), '/').drop_last().contains(".."@),
        decreases n - i,
    {
        let ghost parts = split_on(s@.subrange(0, i as int), '/');
        proof {
            lemma_split_on_extend(s@, 0, i as int, '/');
            lemma_split_on_nonempty(s@.subrange(0, i as int), '/');
            assert(parts.drop_last().push(parts.last()) =~= parts);
        }
        if s[i] == '/' {
            if window_eq(s, start, i, &dots) {
                proof {
                    lemma_split_on_prefix(s@, i + 1, n as int, '/');
                    assert(parts.push(Seq::empty()).drop_last() =~= parts);
                    assert(s@.subrange(0, n as int) =~= s@);
                    let full = split_on(s@, '/');
                    assert(full[parts.len() - 1] == parts[parts.len() - 1]);
                    assert(full.contains(".."@));
                }
                return true;
            }
            proof {
                assert(parts.push(Seq::empty()).drop_last() =~= parts);
                assert forall|k: int| 0 <= k < parts.len() implies parts[k] != ".."@ by {
                    if k < parts.len() - 1 {
                        assert(parts[k] == parts.drop_last()[k]);
                    }
                }
            }
            start = i + 1;
            assert(s@.subrange(start as int, (i + 1) as int) =~= Seq::<char>::empty());
        } else {
            proof {
                let np = parts.update(parts.len() - 1, parts.last().push(s@[i as int]));
                assert(np.drop_last() =~= parts.drop_last());
                assert(np.last() =~= s@.subrange(start as int, (i + 1) as int));
            }
        }
        i = i + 1;
    }
    let ghost parts = split_on(s@.subrange(0, n as int), '/');
    proof {
        assert(s@.subrange(0, n as int) =~= s@);
        lemma_split_on_nonempty(s@, '/');
    }
    let last = window_eq(s, start, n, &dots);
    proof {
        if !last {
            assert forall|k: int| 0 <= k < parts.len() implies parts[k] != ".."@ by {
                if k < parts.len() - 1 {
                    assert(parts[k] == parts.drop_last()[k]);
                }
            }
        } else {
            assert(parts[parts.len() - 1] == ".."@);
        }
    }
    last
}

/// Whether the resolved path `p` lies in the resolved directory `d`.
fn within(p: &Vec<char>, d: &Vec<char>) -> (b: bool)
    ensures
        b == is_within(p@, d@),
{
    let np = p.len();
    let nd = d.len();
    assert(p@.subrange(0, np as int) =~= p@);
    if window_eq(p, 0, np, d) {
        return true;
    }
    if !window_has_prefix(p, 0, np, d) {
        return false;
    }
    (nd > 0 && d[nd - 1] == '/') || (np > nd && p[nd] == '/')
}

/// The containment check made on the resolved path: a path written with
/// a `..` component must resolve inside the working directory `cwd`, or
/// it is refused as `PathTraversal`. Paths without `..` are not judged
/// here.
pub fn check_contained(raw: &str, canonical: &str, cwd: &str) -> (r: Result<(), LockfileError>)
    ensures
        (r is Err) == (has_parent_component(raw@) && !is_within(canonical@, cwd@)),
        r is Err ==> (r matches Err(LockfileError::PathTraversal(p)) && p@ == canonical@),
{
    let raw_chars = chars_of(raw);
    if parent_component(&raw_chars) {
        let p = chars_of(canonical);
        let d = chars_of(cwd);
        if !within(&p, &d) {
            return Err(LockfileError::PathTraversal(canonical.to_owned()));
        }
    }
    Ok(())
}

/// Why reading a lockfile failed.
#[derive(Debug, Clone, Copy, PartialEq, Eq)]
pub enum ReadFailure {
    NotFound,
    PermissionDenied,
    InvalidData,
    Other,
}

/// The message for a failed read of the lockfile at `path`; `detail` is
/// the underlying error's own message.
pub open spec fn read_failure_text(kind: ReadFailure, path: Seq<char>, detail: Seq<char>) -> Seq<
    char,
> {
    match kind {
        ReadFailure::NotFound => "lockfile not found: "@ + path,
        ReadFailure::PermissionDenied => "permission denied reading lockfile: "@ + path,
        ReadFailure::InvalidData => "invalid UTF-8 in lockfile: "@ + path,
        ReadFailure::Other => "cannot read lockfile "@ + path + ": "@ + detail,
    }
}

/// The message for a failed read of the lockfile at `path`.
pub fn read_failure_message(kind: ReadFailure, path: &str, detail: &str) -> (r: String)
    ensures
        r@ == read_failure_text(kind, path@, detail@),
{
    match kind {
        ReadFailure::NotFound => joined("lockfile not found: ", path),
        ReadFailure::PermissionDenied => joined("permission denied reading lockfile: ", path),
        ReadFailure::InvalidData => joined("invalid UTF-8 in lockfile: ", path),
        ReadFailure::Other => {
            let mut r = joined("cannot read lockfile ", path);
            r.append(": ");
            r.append(detail);
            r
        },
    }
}

} // verus!
