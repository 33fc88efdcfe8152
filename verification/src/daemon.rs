//! Decisions of the scheduler daemon's polling loop.
//!
//! Once per interval the daemon compares the change stamps of its backing
//! files, reloads what changed, and backs up every hupa with autobackup
//! enabled. The caller performs the waiting and the file handling; this
//! module decides.

use vstd::prelude::*;

use crate::hupa::{Hupa, HupaSpec};

verus! {

/// The change stamps the daemon saw at its last poll.
pub struct DaemonState {
    /// Stamp of the metadata file, if it could be read.
    pub last_metadata_change: Option<i64>,
    /// Stamp of the vars file, if it could be read.
    pub last_vars_change: Option<i64>,
}

impl DaemonState {
    /// A state that has seen the given stamps.
    pub fn new(metadata_stamp: Option<i64>, vars_stamp: Option<i64>) -> (r: DaemonState)
        ensures
            r.last_metadata_change == metadata_stamp,
            r.last_vars_change == vars_stamp,
    {
        DaemonState { last_metadata_change: metadata_stamp, last_vars_change: vars_stamp }
    }

    /// One poll: remembers the given stamps and reports which backing
    /// file must be reloaded — exactly those whose stamp changed.
    pub fn poll_changes(&mut self, metadata_stamp: Option<i64>, vars_stamp: Option<i64>) -> (r: (
        bool,
        bool,
    ))
        ensures
            r.0 == (old(self).last_metadata_change != metadata_stamp),
            r.1 == (old(self).last_vars_change != vars_stamp),
            final(self).last_metadata_change == metadata_stamp,
            final(self).last_vars_change == vars_stamp,
    {
        let reload_metadata = !stamps_equal(&self.last_metadata_change, &metadata_stamp);
        let reload_vars = !stamps_equal(&self.last_vars_change, &vars_stamp);
        self.last_metadata_change = metadata_stamp;
        self.last_vars_change = vars_stamp;
        (reload_metadata, reload_vars)
    }
}

/// Whether two change stamps are the same.
fn stamps_equal(a: &Option<i64>, b: &Option<i64>) -> (r: bool)
    ensures
        r == (a == b),
{
    match (a, b) {
        (None, None) => true,
        (Some(x), Some(y)) => *x == *y,
        _ => false,
    }
}

/// The change stamp of the entity at `path`: its modification time, or
/// nothing when it cannot be read.
pub fn file_change_stamp(path: &str) -> Option<i64> {
    match crate::fs_extra::fs_mtime(path) {
        Ok(t) => Some(t),
        Err(_) => None,
    }
}

/// The hupas with autobackup enabled, in order.
pub open spec fn autobackup_only(s: Seq<HupaSpec>) -> Seq<HupaSpec>
    decreases s.len(),
{
    if s.len() == 0 {
        Seq::empty()
    } else if s.last().autobackup {
        autobackup_only(s.drop_last()).push(s.last())
    } else {
        autobackup_only(s.drop_last())
    }
}

/// The hupas that one sweep of the daemon backs up: those with
/// autobackup enabled, in order.
pub fn autobackup_hupas(hupas: &Vec<Hupa>) -> (r: Vec<Hupa>)
    ensures
        r.deep_view() == autobackup_only(hupas.deep_view()),
{
    let ghost pool = hupas.deep_view();
    let mut r: Vec<Hupa> = Vec::new();
    let n = hupas.len();
    let mut i: usize = 0;
    proof {
        assert(pool.take(0) =~= Seq::<HupaSpec>::empty());
        assert(r.deep_view() =~= autobackup_only(pool.take(0)));
    }
    while i < n
        invariant
            i <= n,
            n == hupas@.len(),
            pool == hupas.deep_view(),
            r.deep_view() == autobackup_only(pool.take(i as int)),
        decreases n - i,
    {
        proof {
            assert(pool.take(i + 1).drop_last() =~= pool.take(i as int));
            assert(pool.take(i + 1).last() == pool[i as int]);
            assert(pool[i as int] == hupas@[i as int]@);
        }
        if hupas[i].is_autobackup_enabled() {
            let ghost r0 = r;
            r.push(hupas[i].clone());
            proof {
                assert(r@.len() == r0@.len() + 1);
                assert forall|k: int|
                    0 <= k < r@.len() implies r.deep_view()[k] == r0.deep_view().push(
                    pool[i as int],
                )[k] by {
                    assert(r.deep_view()[k] == r@[k]@);
                    if k < r0@.len() {
                        assert(r@[k] == r0@[k]);
                        assert(r0.deep_view()[k] == r0@[k]@);
                    }
                }
                assert(r.deep_view() =~= r0.deep_view().push(pool[i as int]));
            }
        }
        i = i + 1;
    }
    proof {
        assert(pool.take(n as int) =~= pool);
    }
    r
}

} // verus!
