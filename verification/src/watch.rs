//! Hot reload: how much of a document changed between two loads.

use vstd::prelude::*;

use crate::doc::{Doc, DocView};

verus! {

/// Section `i` of `new` differs from the section at the same place in
/// `old`: it is new, or its hash changed.
pub open spec fn changed_at(old: DocView, new: DocView, i: int) -> bool {
    i >= old.sections.len() || old.sections[i].hash != new.sections[i].hash
}

/// How many of the first `n` sections of `new` changed.
pub open spec fn changed_count(old: DocView, new: DocView, n: int) -> nat
    decreases n,
{
    if n <= 0 {
        0
    } else {
        changed_count(old, new, n - 1) + if changed_at(old, new, n - 1) {
            1nat
        } else {
            0nat
        }
    }
}

/// How many sections of `new` are new or changed compared with `old`,
/// place by place.
pub fn changed_sections(old: &Doc, new: &Doc) -> (n: usize)
    ensures
        n == changed_count(old@, new@, new@.sections.len() as int),
{
    let mut n: usize = 0;
    let mut i: usize = 0;
    while i < new.sections.len()
        invariant
            i <= new@.sections.len(),
            n == changed_count(old@, new@, i as int),
            n <= i,
        decreases new.sections.len() - i,
    {
        let changed = if i < old.sections.len() {
            !old.sections[i].hash.same(&new.sections[i].hash)
        } else {
            true
        };
        proof {
            if i < old.sections.len() {
                assert(old@.sections[i as int].hash == old.sections@[i as int].hash@);
                assert(new@.sections[i as int].hash == new.sections@[i as int].hash@);
            }
        }
        if changed {
            n = n + 1;
        }
        i = i + 1;
    }
    n
}

/// Whether a poll that reads the time `now` reloads a document last loaded
/// at `before`: the file is there and its time moved.
pub open spec fn reloads(before: Option<i128>, now: Option<i128>) -> bool {
    now is Some && now != before
}

/// The file on screen and the modification time last loaded from it (the
/// application reads the time from the file system, as nanoseconds from the
/// Unix epoch; `None` when the file can't be read).
#[derive(Clone, Debug, PartialEq, Eq)]
pub struct DocSource {
    pub path: String,
    pub modified: Option<i128>,
}

impl DocSource {
    /// The source at `path`, loaded at time `modified`.
    pub fn new(path: String, modified: Option<i128>) -> (s: DocSource)
        ensures
            s.path == path,
            s.modified == modified,
    {
        DocSource { path, modified }
    }

    /// One poll of the file's modification time: reload when the file is
    /// there and its time moved; keep the world we have when it is
    /// unchanged or missing mid-save. A reload remembers the new time.
    pub fn poll(&mut self, modified: Option<i128>) -> (reload: bool)
        ensures
            reload == reloads(old(self).modified, modified),
            final(self).path == old(self).path,
            final(self).modified == (if reload {
                modified
            } else {
                old(self).modified
            }),
    {
        let reload = match (modified, self.modified) {
            (None, _) => false,
            (Some(now), Some(before)) => now != before,
            (Some(_), None) => true,
        };
        if reload {
            self.modified = modified;
        }
        reload
    }
}

} // verus!
