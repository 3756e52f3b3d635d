//! POSIX-style path splitting over the literal `/`-separated text, plus the
//! two filesystem probes that resolve a path against the real disk.

use vstd::prelude::*;
use vstd::string::*;
use crate::strutil::{last_index_of, lemma_last_index_of, rfind_char, concat_str};

verus! {

/// The text after the last `/`, or the whole path when it has none.
pub open spec fn basename_chars(s: Seq<char>) -> Seq<char> {
    s.subrange(last_index_of(s, '/') + 1, s.len() as int)
}

/// The text before the last `/`, with the conventions of POSIX `dirname`:
/// a path without `/` (including the empty path) has dirname `.`; a
/// root-level path (`/x`) has dirname `/`; a path that names its location
/// neither absolutely nor relatively (no leading `/`, `.` or `~`) is made
/// explicitly relative by prefixing `./`.
pub open spec fn dirname_chars(s: Seq<char>) -> Seq<char> {
    let li = last_index_of(s, '/');
    if li == -1 {
        seq!['.']
    } else if li == 0 {
        seq!['/']
    } else if s[0] == '/' || s[0] == '.' || s[0] == '~' {
        s.subrange(0, li)
    } else {
        seq!['.', '/'] + s.subrange(0, li)
    }
}

/// The final component of `path`, split on the literal `/` characters.
pub fn basename(path: &str) -> (r: String)
    ensures
        r@ == basename_chars(path@),
{
    proof {
        lemma_last_index_of(path@, '/');
    }
    let len = path.unicode_len();
    match rfind_char(path, '/') {
        Some(i) => {
            let r = String::from_str(path.substring_char(i + 1, len));
            r
        },
        None => {
            proof {
                assert(path@.subrange(0, path@.len() as int) =~= path@);
            }
            String::from_str(path)
        },
    }
}

/// The directory part of `path`, split on the literal `/` characters.
pub fn dirname(path: &str) -> (r: String)
    ensures
        r@ == dirname_chars(path@),
{
    proof {
        lemma_last_index_of(path@, '/');
        reveal_strlit(".");
        reveal_strlit("/");
        reveal_strlit("./");
    }
    match rfind_char(path, '/') {
        None => String::from_str("."),
        Some(i) => {
            if i == 0 {
                String::from_str("/")
            } else {
                let c0 = path.get_char(0);
                let pre = path.substring_char(0, i);
                if c0 == '/' || c0 == '.' || c0 == '~' {
                    String::from_str(pre)
                } else {
                    concat_str("./", pre)
                }
            }
        },
    }
}

/// The hardlink decision over two stat results: true exactly when both
/// paths could be stat'ed and their inode numbers agree.
pub fn same_inode(a: Option<(u64, u64)>, b: Option<(u64, u64)>) -> (r: bool)
    ensures
        r == match (a, b) {
            (Some(sa), Some(sb)) => sa.0 == sb.0,
            _ => false,
        },
{
    match (a, b) {
        (Some(sa), Some(sb)) => sa.0 == sb.0,
        _ => false,
    }
}

/// Do two paths resolve to the same on-disk inode?  What the disk answers is
/// the probes' business; the comparison of the two answers is `same_inode`.
pub fn is_hardlink(path1: &str, path2: &str) -> (r: bool)
{
    same_inode(crate::probe::stat_path(path1), crate::probe::stat_path(path2))
}

/// The executability decision over a stat result: true exactly when the path
/// could be stat'ed, its mode marks a regular file, and any execute
/// permission bit is set.
pub fn mode_is_exe(st: Option<(u64, u64)>) -> (r: bool)
    ensures
        r == match st {
            Some(s) => s.1 & 0o170000 == 0o100000 && s.1 & 0o111 != 0,
            None => false,
        },
{
    match st {
        Some(s) => (s.1 & 0o170000 == 0o100000) && (s.1 & 0o111 != 0),
        None => false,
    }
}

/// Is the path a regular file with any execute permission bit set?  The test
/// on the stat result is `mode_is_exe`.
pub fn is_exe(path: &str) -> (r: bool)
{
    mode_is_exe(crate::probe::stat_path(path))
}

/// Relies on `std::path::Path::canonicalize`: resolves symlinks and relative
/// segments against the real filesystem.  `None` when the path does not
/// resolve or is not valid UTF-8; the result depends on the disk, so nothing
/// more is promised.
#[verifier::external_body]
pub fn realpath(path: &str) -> (r: Option<String>)
{
    std::path::Path::new(path)
        .canonicalize()
        .ok()
        .and_then(|p| p.to_str().map(|s| s.to_string()))
}

/// Relies on `std::path::Path::is_file`: true when the path names an existing
/// regular file.  The result depends on the disk.
#[verifier::external_body]
pub fn is_file(path: &str) -> (r: bool)
{
    std::path::Path::new(path).is_file()
}

} // verus!
