//! The decisions of the Unix privilege adapter.
//!
//! Reading the process's user and group identities and the file's owner,
//! group and mode, and switching the effective identity, are platform
//! calls that the embedding program makes; the rules that decide from
//! those values live here.

use vstd::prelude::*;

verus! {

/// Reports whether the owner, the group and other users may write,
/// according to the permission bits of a Unix file mode.
pub fn can_write(mode: u32) -> (r: (bool, bool, bool))
    ensures
        r.0 == (mode & 0o200 == 0o200),
        r.1 == (mode & 0o020 == 0o020),
        r.2 == (mode & 0o002 == 0o002),
{
    let owner_mode = (mode & 0o700) >> 6;
    let group_mode = (mode & 0o070) >> 3;
    let other_mode = mode & 0o007;
    proof {
        assert ((mode & 0o700) >> 6 & 2 == 2 <==> mode & 0o200 == 0o200) by (bit_vector);
        assert ((mode & 0o070) >> 3 & 2 == 2 <==> mode & 0o020 == 0o020) by (bit_vector);
        assert (mode & 0o007 & 2 == 2 <==> mode & 0o002 == 0o002) by (bit_vector);
    }
    (owner_mode & 2 == 2, group_mode & 2 == 2, other_mode & 2 == 2)
}

/// The owner, group and permission mode of a file, as the platform
/// reports them.
pub struct FileIdentity {
    /// The owning user.
    pub uid: u32,
    /// The owning group.
    pub gid: u32,
    /// The permission mode bits.
    pub mode: u32,
}

/// Whether restoring needs another user's rights: an effective root
/// never does; otherwise the write bit that applies to the effective
/// user decides, and a file whose identity cannot be read is
/// conservatively treated as needing them.
pub open spec fn needs_root_spec(euid: u32, egid: u32, file: Option<FileIdentity>) -> bool {
    if euid == 0 {
        false
    } else {
        match file {
            None => true,
            Some(f) => if euid == f.uid {
                f.mode & 0o200 != 0o200
            } else if egid == f.gid {
                f.mode & 0o020 != 0o020
            } else {
                f.mode & 0o002 != 0o002
            },
        }
    }
}

/// Check if the invoking user needs to be root to write the file:
/// `euid` and `egid` are the invoking effective user and group, and
/// `file` the file's identity, if it could be read.
pub fn needs_root_from(euid: u32, egid: u32, file: Option<FileIdentity>) -> (r: bool)
    ensures
        r == needs_root_spec(euid, egid, file),
{
    if euid == 0 {
        return false;
    }
    match file {
        None => true,
        Some(f) => {
            let (owner_w, group_w, other_w) = can_write(f.mode);
            if euid == f.uid {
                !owner_w
            } else if egid == f.gid {
                !group_w
            } else {
                !other_w
            }
        },
    }
}

} // verus!
