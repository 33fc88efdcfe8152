//! Filesystem primitives: recursive copy, size computation and
//! freshness comparison.
//!
//! Paths are plain strings whose components are joined with `/`. Every
//! touch of the disk goes through a small trusted wrapper; the walks,
//! the path arithmetic and the error mapping around them are verified.

use vstd::prelude::*;

use crate::error::{Error, ErrorSpec};
use crate::strutil::str_eq;

verus! {

/// Relies on std's `Path::exists`: whether the path points at an existing
/// entity (false when metadata cannot be read).
#[verifier::external_body]
pub(crate) fn fs_exists(path: &str) -> bool {
    std::path::Path::new(path).exists()
}

/// Relies on std's `Path::is_file`: whether the path points at a regular
/// file (false when missing or when metadata cannot be read).
#[verifier::external_body]
pub(crate) fn fs_is_file(path: &str) -> bool {
    std::path::Path::new(path).is_file()
}

/// Relies on `fs_extra::dir::get_size`: the size in bytes of the file, or
/// the recursive sum of file sizes under the directory.
#[verifier::external_body]
fn fs_size_of(path: &str) -> Result<u64, String> {
    match fs_extra::dir::get_size(path) {
        Ok(s) => Ok(s),
        Err(e) => Err(format!("{}", e)),
    }
}

/// Relies on `fs_extra::dir::get_dir_content`: the full paths of every
/// directory (the root included) and every file under `path`, recursively.
#[verifier::external_body]
fn fs_dir_content(path: &str) -> Result<(Vec<String>, Vec<String>), String> {
    match fs_extra::dir::get_dir_content(path) {
        Ok(c) => Ok((c.directories, c.files)),
        Err(e) => Err(format!("{}", e)),
    }
}

/// Relies on `fs_extra::file::copy` with the overwrite option: copies one
/// file byte for byte and returns the number of bytes copied.
#[verifier::external_body]
fn fs_copy_file(from: &str, to: &str) -> Result<u64, String> {
    let mut options = fs_extra::file::CopyOptions::new();
    options.overwrite = true;
    match fs_extra::file::copy(from, to, &options) {
        Ok(n) => Ok(n),
        Err(e) => Err(format!("{}", e)),
    }
}

/// Relies on `fs_extra::dir::create_all` without erase: creates the
/// directory and all missing parents; succeeds when it already exists.
#[verifier::external_body]
fn fs_create_dir_all(path: &str) -> Result<(), String> {
    match fs_extra::dir::create_all(path, false) {
        Ok(()) => Ok(()),
        Err(e) => Err(format!("{}", e)),
    }
}

/// Relies on `fs_extra::file::remove`: removes the file; succeeds when it
/// does not exist.
#[verifier::external_body]
fn fs_remove_file(path: &str) -> Result<(), String> {
    match fs_extra::file::remove(path) {
        Ok(()) => Ok(()),
        Err(e) => Err(format!("{}", e)),
    }
}

/// Relies on `fs_extra::dir::remove`: removes the directory and all its
/// contents; succeeds when it does not exist.
#[verifier::external_body]
fn fs_remove_dir(path: &str) -> Result<(), String> {
    match fs_extra::dir::remove(path) {
        Ok(()) => Ok(()),
        Err(e) => Err(format!("{}", e)),
    }
}

/// Relies on `utime::get_file_times`: the modification time of the entity
/// at `path`, in whole seconds since the epoch. The resolution is coarser
/// than the platform's: two changes within one second read as equal.
#[verifier::external_body]
pub(crate) fn fs_mtime(path: &str) -> Result<i64, String> {
    match utime::get_file_times(path) {
        Ok((_, mtime)) => Ok(mtime),
        Err(e) => Err(format!("{}", e)),
    }
}

/// Relies on `fs_extra::file::read_to_string`: the whole content of the
/// file as text.
#[verifier::external_body]
pub(crate) fn fs_read_file(path: &str) -> Result<String, String> {
    match fs_extra::file::read_to_string(path) {
        Ok(s) => Ok(s),
        Err(e) => Err(format!("{}", e)),
    }
}

/// Relies on `fs_extra::file::write_all`: replaces the file's content with
/// the given text.
#[verifier::external_body]
pub(crate) fn fs_write_file(path: &str, content: &str) -> Result<(), String> {
    match fs_extra::file::write_all(path, content) {
        Ok(()) => Ok(()),
        Err(e) => Err(format!("{}", e)),
    }
}

/// Creates a directory and all missing parents; an existing directory is
/// no error.
pub(crate) fn create_dir_all(path: &str) -> (r: Result<(), Error>)
    ensures
        r matches Err(e) ==> e@ is Io,
{
    match fs_create_dir_all(path) {
        Ok(()) => Ok(()),
        Err(m) => Err(Error::Io(m)),
    }
}

/// `path` with the prefix `from` exchanged for `to`, when `from` is a
/// prefix of `path`.
pub open spec fn replace_prefix_spec(
    path: Seq<char>,
    from: Seq<char>,
    to: Seq<char>,
) -> Option<Seq<char>> {
    if from.len() <= path.len() && path.take(from.len() as int) == from {
        Some(to + path.skip(from.len() as int))
    } else {
        None
    }
}

/// Exchanges the prefix `from` of `path` for `to`.
pub fn replace_prefix(path: &str, from: &str, to: &str) -> (r: Option<String>)
    ensures
        r matches Some(s) ==> replace_prefix_spec(path@, from@, to@) == Some(s@),
        r is None ==> replace_prefix_spec(path@, from@, to@) is None,
{
    let n = path.unicode_len();
    let fl = from.unicode_len();
    if fl > n {
        return None;
    }
    let prefix = path.substring_char(0, fl);
    proof {
        assert(prefix@ =~= path@.take(fl as int));
    }
    if !str_eq(prefix, from) {
        return None;
    }
    let suffix = path.substring_char(fl, n);
    let mut out = String::new();
    out.append(to);
    out.append(suffix);
    proof {
        assert(suffix@ =~= path@.skip(fl as int));
        assert(out@ =~= to@ + path@.skip(fl as int));
    }
    Some(out)
}

/// Position of the last `/` in `p`, or `-1` when there is none.
pub open spec fn last_slash(p: Seq<char>) -> int
    decreases p.len(),
{
    if p.len() == 0 {
        -1
    } else if p.last() == '/' {
        p.len() - 1
    } else {
        last_slash(p.drop_last())
    }
}

pub proof fn lemma_last_slash(p: Seq<char>)
    ensures
        last_slash(p) == -1 ==> forall|k: int| 0 <= k < p.len() ==> p[k] != '/',
        last_slash(p) != -1 ==> {
            &&& 0 <= last_slash(p) < p.len()
            &&& p[last_slash(p)] == '/'
            &&& forall|k: int| last_slash(p) < k < p.len() ==> p[k] != '/'
        },
    decreases p.len(),
{
    if p.len() > 0 && p.last() != '/' {
        lemma_last_slash(p.drop_last());
        assert forall|k: int| 0 <= k < p.len() - 1 implies p.drop_last()[k] == p[k] by {}
    }
}

/// The directory part of `p`: what stands before the last `/`; the root
/// `/` when the last `/` opens the path; nothing when `p` has no `/`.
pub open spec fn parent_spec(p: Seq<char>) -> Option<Seq<char>> {
    let i = last_slash(p);
    if i < 0 {
        None
    } else if i == 0 {
        Some(seq!['/'])
    } else {
        Some(p.take(i))
    }
}

/// The directory part of a path.
pub fn parent_of(p: &str) -> (r: Option<&str>)
    ensures
        r matches Some(s) ==> parent_spec(p@) == Some(s@),
        r is None ==> parent_spec(p@) is None,
{
    proof {
        lemma_last_slash(p@);
    }
    let n = p.unicode_len();
    let mut j: usize = n;
    while j > 0
        invariant
            j <= n,
            n == p@.len(),
            forall|k: int| j <= k < n ==> p@[k] != '/',
        decreases j,
    {
        if p.get_char(j - 1) == '/' {
            proof {
                lemma_last_slash_at(p@, j - 1);
            }
            if j - 1 == 0 {
                let r = p.substring_char(0, 1);
                proof {
                    assert(r@ =~= seq!['/']);
                }
                return Some(r);
            }
            let r = p.substring_char(0, j - 1);
            proof {
                assert(r@ =~= p@.take(j - 1));
            }
            return Some(r);
        }
        j = j - 1;
    }
    proof {
        if last_slash(p@) >= 0 {
            assert(p@[last_slash(p@)] == '/');
        }
    }
    None
}

proof fn lemma_last_slash_at(p: Seq<char>, i: int)
    requires
        0 <= i < p.len(),
        p[i] == '/',
        forall|k: int| i < k < p.len() ==> p[k] != '/',
    ensures
        last_slash(p) == i,
    decreases p.len(),
{
    if i < p.len() - 1 {
        assert(p.last() != '/');
        lemma_last_slash_at(p.drop_last(), i);
    }
}

/// Adds without overflowing: sticks at the largest value.
fn saturating_add_u64(a: u64, b: u64) -> (r: u64)
    ensures
        r == if a + b <= u64::MAX {
            a + b
        } else {
            u64::MAX as int
        },
{
    if a <= u64::MAX - b {
        a + b
    } else {
        u64::MAX
    }
}

/// Copy a directory: recreates under `to` every directory under `from` and
/// copies every file byte for byte, returning the bytes copied (saturating).
///
/// Fails when `from` does not exist. Entries that appear under `from`
/// while the walk runs and do not carry its prefix are reported as errors.
pub fn copy_dir(from: &str, to: &str) -> (r: Result<u64, Error>)
    ensures
        r matches Err(e) ==> e@ is Io,
{
    if !fs_exists(from) {
        return Err(Error::Io(entity_not_found()));
    }
    match fs_create_dir_all(to) {
        Ok(()) => {}
        Err(m) => {
            return Err(Error::Io(m));
        }
    }
    let (dirs, files) = match fs_dir_content(from) {
        Ok(c) => c,
        Err(m) => {
            return Err(Error::Io(m));
        }
    };
    let mut i: usize = 0;
    let nd = dirs.len();
    while i < nd
        invariant
            i <= nd,
            nd == dirs.len(),
        decreases nd - i,
    {
        let dest = match replace_prefix(dirs[i].as_str(), from, to) {
            Some(d) => d,
            None => {
                return Err(Error::Io(unexpected_entry()));
            }
        };
        match fs_create_dir_all(dest.as_str()) {
            Ok(()) => {}
            Err(m) => {
                return Err(Error::Io(m));
            }
        }
        i = i + 1;
    }
    let mut copied: u64 = 0;
    let mut j: usize = 0;
    let nf = files.len();
    while j < nf
        invariant
            j <= nf,
            nf == files.len(),
        decreases nf - j,
    {
        let dest = match replace_prefix(files[j].as_str(), from, to) {
            Some(d) => d,
            None => {
                return Err(Error::Io(unexpected_entry()));
            }
        };
        let n = match fs_copy_file(files[j].as_str(), dest.as_str()) {
            Ok(n) => n,
            Err(m) => {
                return Err(Error::Io(m));
            }
        };
        copied = saturating_add_u64(copied, n);
        j = j + 1;
    }
    Ok(copied)
}

/// Get size of file or directory: the file's size in bytes, or the
/// recursive sum over the directory's files (saturating); fails when the
/// path does not exist.
pub fn get_size(path: &str) -> (r: Result<u64, Error>)
    ensures
        r matches Err(e) ==> e@ is Io,
{
    if !fs_exists(path) {
        return Err(Error::Io(entity_not_found()));
    }
    if fs_is_file(path) {
        return match fs_size_of(path) {
            Ok(s) => Ok(s),
            Err(m) => Err(Error::Io(m)),
        };
    }
    let files = match fs_dir_content(path) {
        Ok(c) => c.1,
        Err(m) => {
            return Err(Error::Io(m));
        }
    };
    let mut total: u64 = 0;
    let mut i: usize = 0;
    let n = files.len();
    while i < n
        invariant
            i <= n,
            n == files.len(),
        decreases n - i,
    {
        let s = match fs_size_of(files[i].as_str()) {
            Ok(s) => s,
            Err(m) => {
                return Err(Error::Io(m));
            }
        };
        total = saturating_add_u64(total, s);
        i = i + 1;
    }
    Ok(total)
}

/// One gathered comparison is stale: the counterpart under the backup is
/// missing, or the source entry is strictly newer. An entry is the tuple
/// of whether the counterpart exists, the source entry's modification
/// time and the counterpart's.
pub open spec fn stale_entry(e: (bool, i64, i64)) -> bool {
    !e.0 || e.1 > e.2
}

/// Some gathered comparison is stale.
pub open spec fn any_stale(entries: Seq<(bool, i64, i64)>) -> bool {
    exists|i: int| 0 <= i < entries.len() && stale_entry(entries[i])
}

/// The staleness rule on gathered values: a side is missing, the source
/// root is strictly newer, or some source entry is missing or strictly
/// newer under the backup.
pub open spec fn stale_spec(
    src_exists: bool,
    dir_exists: bool,
    src_mtime: i64,
    dir_mtime: i64,
    entries: Seq<(bool, i64, i64)>,
) -> bool {
    !src_exists || !dir_exists || src_mtime > dir_mtime || any_stale(entries)
}

/// Decides staleness from gathered values; [`check_older`] draws the
/// values from the disk and returns exactly this decision.
pub fn stale_from(
    src_exists: bool,
    dir_exists: bool,
    src_mtime: i64,
    dir_mtime: i64,
    entries: &Vec<(bool, i64, i64)>,
) -> (r: bool)
    ensures
        r == stale_spec(src_exists, dir_exists, src_mtime, dir_mtime, entries@),
{
    if !src_exists || !dir_exists {
        return true;
    }
    if src_mtime > dir_mtime {
        return true;
    }
    let n = entries.len();
    let mut i: usize = 0;
    while i < n
        invariant
            i <= n,
            n == entries@.len(),
            forall|k: int| 0 <= k < i ==> !stale_entry(entries@[k]),
        decreases n - i,
    {
        let e = entries[i];
        if !e.0 || e.1 > e.2 {
            proof {
                assert(stale_entry(entries@[i as int]));
            }
            return true;
        }
        i = i + 1;
    }
    false
}

/// Check if directory is older than source: true when either side is
/// missing, when the source root is strictly newer, when an entry of the
/// source has no counterpart under `dir`, or when any source entry is
/// strictly newer than its counterpart; false otherwise.
///
/// The rule itself is [`stale_spec`]: this function gathers existence and
/// modification times through the trusted wrappers and returns what
/// [`stale_from`] decides of them. Times have whole-second resolution, so
/// a source modified within the same second as its counterpart reads as
/// not newer — the heuristic is best-effort.
pub fn check_older(src: &str, dir: &str) -> (r: Result<bool, Error>)
    ensures
        r matches Err(e) ==> e@ is Io,
{
    let src_exists = fs_exists(src);
    let dir_exists = fs_exists(dir);
    if !src_exists || !dir_exists {
        return Ok(stale_from(src_exists, dir_exists, 0, 0, &Vec::new()));
    }
    let src_time = match fs_mtime(src) {
        Ok(t) => t,
        Err(m) => {
            return Err(Error::Io(m));
        }
    };
    let dir_time = match fs_mtime(dir) {
        Ok(t) => t,
        Err(m) => {
            return Err(Error::Io(m));
        }
    };
    let mut entries: Vec<(bool, i64, i64)> = Vec::new();
    if !fs_is_file(src) {
        let (dirs, files) = match fs_dir_content(src) {
            Ok(c) => c,
            Err(m) => {
                return Err(Error::Io(m));
            }
        };
        match gather_entries(&mut entries, &dirs, src, dir) {
            Ok(()) => {}
            Err(e) => {
                return Err(e);
            }
        }
        match gather_entries(&mut entries, &files, src, dir) {
            Ok(()) => {}
            Err(e) => {
                return Err(e);
            }
        }
    }
    Ok(stale_from(src_exists, dir_exists, src_time, dir_time, &entries))
}

/// Gathers, for each listed source entry, whether its counterpart under
/// `dir` exists and both modification times; a missing counterpart is
/// recorded without times, as it has none to read.
fn gather_entries(
    entries: &mut Vec<(bool, i64, i64)>,
    listed: &Vec<String>,
    src: &str,
    dir: &str,
) -> (r: Result<(), Error>)
    ensures
        r matches Err(e) ==> e@ is Io,
{
    let mut i: usize = 0;
    let n = listed.len();
    while i < n
        invariant
            i <= n,
            n == listed.len(),
        decreases n - i,
    {
        let counterpart = match replace_prefix(listed[i].as_str(), src, dir) {
            Some(d) => d,
            None => {
                return Err(Error::Io(unexpected_entry()));
            }
        };
        if !fs_exists(counterpart.as_str()) {
            entries.push((false, 0, 0));
        } else {
            let entry_time = match fs_mtime(listed[i].as_str()) {
                Ok(t) => t,
                Err(m) => {
                    return Err(Error::Io(m));
                }
            };
            let counterpart_time = match fs_mtime(counterpart.as_str()) {
                Ok(t) => t,
                Err(m) => {
                    return Err(Error::Io(m));
                }
            };
            entries.push((true, entry_time, counterpart_time));
        }
        i = i + 1;
    }
    Ok(())
}

/// Copy file or directory to path, creating the destination's parent.
pub(crate) fn copy_all(from: &str, to: &str) -> (r: Result<(), Error>)
    ensures
        r matches Err(e) ==> e@ is Io,
{
    if let Some(p) = parent_of(to) {
        match fs_create_dir_all(p) {
            Ok(()) => {}
            Err(m) => {
                return Err(Error::Io(m));
            }
        }
    }
    if fs_is_file(from) {
        match fs_copy_file(from, to) {
            Ok(_) => Ok(()),
            Err(m) => Err(Error::Io(m)),
        }
    } else if fs_exists(from) {
        match fs_create_dir_all(to) {
            Ok(()) => {}
            Err(m) => {
                return Err(Error::Io(m));
            }
        }
        match copy_dir(from, to) {
            Ok(_) => Ok(()),
            Err(e) => Err(e),
        }
    } else {
        Ok(())
    }
}

/// Remove file or directory from `path`, with all its contents.
pub(crate) fn remove_all(path: &str) -> (r: Result<(), Error>)
    ensures
        r matches Err(e) ==> e@ is Io,
{
    if fs_is_file(path) {
        match fs_remove_file(path) {
            Ok(()) => Ok(()),
            Err(m) => Err(Error::Io(m)),
        }
    } else {
        match fs_remove_dir(path) {
            Ok(()) => Ok(()),
            Err(m) => Err(Error::Io(m)),
        }
    }
}

/// Move file or directory to a new place: copy, then remove the source.
pub(crate) fn move_all(from: &str, to: &str) -> (r: Result<(), Error>)
    ensures
        r matches Err(e) ==> e@ is Io,
{
    match copy_all(from, to) {
        Ok(()) => {}
        Err(e) => {
            return Err(e);
        }
    }
    if fs_exists(from) {
        remove_all(from)
    } else {
        Ok(())
    }
}

fn entity_not_found() -> (r: String)
    ensures
        r@ == "entity not found"@,
{
    let mut s = String::new();
    s.append("entity not found");
    s
}

fn unexpected_entry() -> (r: String)
    ensures
        r@ == "walked entry lies outside the walked root"@,
{
    let mut s = String::new();
    s.append("walked entry lies outside the walked root");
    s
}

} // verus!
