//! Trusted probes into the operating system: filesystem existence and
//! metadata, write access, `PATH` lookup, and the recursive directory walk
//! that feeds library-path discovery.  Every result here depends on the state
//! of the disk, so the contracts promise nothing about the values returned;
//! the verified logic takes them as inputs and is proved for every outcome.

use vstd::prelude::*;

verus! {

/// One entry met during a recursive directory walk: its file name, its full
/// path, the path of its parent directory, and what kind of entry it is.
pub struct WalkEntry {
    pub name: String,
    pub path: String,
    pub parent: String,
    pub is_file: bool,
    pub is_dir: bool,
}

/// Relies on `std::path::Path::exists`: true when the path names an existing
/// filesystem entry.
#[verifier::external_body]
pub fn path_exists(path: &str) -> (r: bool)
{
    std::path::Path::new(path).exists()
}

/// Relies on `nix::sys::stat::stat`: returns the inode number and the file
/// mode of the path, or `None` when it cannot be stat'ed.
#[verifier::external_body]
pub fn stat_path(path: &str) -> (r: Option<(u64, u64)>)
{
    nix::sys::stat::stat(path).ok().map(|st| (st.st_ino as u64, st.st_mode as u64))
}

/// Relies on `nix::unistd::access` with `W_OK`: true when the calling process
/// may write to the path.
#[verifier::external_body]
pub fn is_writable(path: &str) -> (r: bool)
{
    nix::unistd::access(path, nix::unistd::AccessFlags::W_OK).is_ok()
}

/// Relies on `walkdir::WalkDir`: walks the tree under `root` recursively and
/// hands every reachable entry out as plain values.  Unreadable entries and
/// non-UTF-8 names are skipped.
#[verifier::external_body]
pub fn walk_entries(root: &str) -> (r: Vec<WalkEntry>)
{
    let mut v = Vec::new();
    for e in walkdir::WalkDir::new(root).into_iter().flatten() {
        let parent = e.path().parent().and_then(|p| p.to_str());
        if let (Some(name), Some(path), Some(parent)) = (e.file_name().to_str(), e.path().to_str(), parent) {
            let (name, path, parent) = (name.to_string(), path.to_string(), parent.to_string());
            let (is_file, is_dir) = (e.file_type().is_file(), e.file_type().is_dir());
            v.push(WalkEntry { name, path, parent, is_file, is_dir });
        }
    }
    v
}

/// Relies on `walkdir::WalkDir` with depth limits: hands out the immediate
/// children of `path` as plain values.  Unreadable entries and non-UTF-8
/// names are skipped.
#[verifier::external_body]
pub fn list_dir(path: &str) -> (r: Vec<WalkEntry>)
{
    let mut v = Vec::new();
    for e in walkdir::WalkDir::new(path).min_depth(1).max_depth(1).into_iter().flatten() {
        let parent = e.path().parent().and_then(|p| p.to_str());
        if let (Some(name), Some(path), Some(parent)) = (e.file_name().to_str(), e.path().to_str(), parent) {
            let (name, path, parent) = (name.to_string(), path.to_string(), parent.to_string());
            let (is_file, is_dir) = (e.file_type().is_file(), e.file_type().is_dir());
            v.push(WalkEntry { name, path, parent, is_file, is_dir });
        }
    }
    v
}

/// Relies on `dotenv::from_path_iter`: parses a `.env`-style file into its
/// `KEY=VALUE` pairs without touching the process environment.  `None` when
/// the file cannot be read; lines that do not parse are skipped.
#[verifier::external_body]
pub fn dotenv_pairs(path: &str) -> (r: Option<Vec<(String, String)>>)
{
    match dotenv::from_path_iter(path) {
        Ok(iter) => Some(iter.filter_map(|item| item.ok()).collect()),
        Err(_) => None,
    }
}

} // verus!
