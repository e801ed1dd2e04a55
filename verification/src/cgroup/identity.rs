//! The identities by which others refer to directories of the unified hierarchy.

use vstd::prelude::*;
use crate::cgroup::forest::{chain, ends, version, CgroupVersion, Forest};
use crate::error::Error;

verus! {

/// The identities from the root down to the directory of a process, if it has one.
/// One that is in no directory has none above it either.
pub open spec fn identities_above(forest: Forest, dir: Option<usize>) -> Result<Seq<u64>, Error> {
    match dir {
        None => Ok(Seq::empty()),
        Some(x) => if version(forest.hierarchies@, forest@, x as int) != CgroupVersion::V2 {
            Err(Error::InvalidInput)
        } else if !ends(forest@, x as int, 257) {
            Err(Error::BadState)
        } else {
            Ok(
                chain(forest@, x as int, forest@.len()).reverse().map_values(
                    |i: int| forest@[i].inode,
                ),
            )
        },
    }
}

impl Forest {
    /// The identity of a directory of the unified hierarchy.  It is given with the
    /// directory and survives renames.
    pub fn perf_cgroup_fd_identity(&self, x: usize) -> (result: Result<u64, Error>)
        requires
            self.indexed(),
            x < self@.len(),
        ensures
            result == (if version(self.hierarchies@, self@, x as int) == CgroupVersion::V2 {
                Ok(self@[x as int].inode)
            } else {
                Err(Error::InvalidInput)
            }),
    {
        assert(self.dirs@[x as int]@ == self@[x as int]);
        if self.version_of(x) == CgroupVersion::V2 {
            Ok(self.dirs[x].inode)
        } else {
            Err(Error::InvalidInput)
        }
    }

    /// Whether the directory of a process is the one with this identity.
    pub fn perf_cgroup_contains(&self, dir: Option<usize>, identity: u64) -> (contains: bool)
        requires
            dir is Some ==> dir->0 < self@.len(),
        ensures
            contains == (dir is Some && self@[dir->0 as int].inode == identity),
    {
        match dir {
            Some(x) => {
                assert(self.dirs@[x as int]@ == self@[x as int]);
                self.dirs[x].inode == identity
            },
            None => false,
        }
    }

    /// The identities from the root down to the directory of a process.
    pub fn bpf_current_cgroup_hierarchy(&self, dir: Option<usize>) -> (result: Result<
        Vec<u64>,
        Error,
    >)
        requires
            self.indexed(),
            dir is Some ==> dir->0 < self@.len(),
        ensures
            match (identities_above(*self, dir), result) {
                (Ok(want), Ok(inodes)) => inodes@ == want,
                (Err(want), Err(error)) => error == want,
                _ => false,
            },
    {
        match dir {
            Some(x) => self.bpf_cgroup_hierarchy(x),
            None => {
                let none: Vec<u64> = Vec::new();
                assert(none@ =~= Seq::empty());
                Ok(none)
            },
        }
    }

    /// Whether a process is in the directory with this identity or below it.
    pub fn bpf_current_in_cgroup(&self, dir: Option<usize>, identity: u64) -> (inside: bool)
        requires
            self.indexed(),
            dir is Some ==> dir->0 < self@.len(),
        ensures
            inside == (identities_above(*self, dir) matches Ok(inodes) && inodes.contains(
                identity,
            )),
    {
        match self.bpf_current_cgroup_hierarchy(dir) {
            Ok(inodes) => {
                let mut i: usize = 0;
                while i < inodes.len()
                    invariant
                        i <= inodes@.len(),
                        identities_above(*self, dir) == Ok::<Seq<u64>, Error>(inodes@),
                        forall|j: int| 0 <= j < i ==> #[trigger] inodes@[j] != identity,
                    decreases inodes@.len() - i,
                {
                    if inodes[i] == identity {
                        assert(inodes@.contains(inodes@[i as int]));
                        return true;
                    }
                    i = i + 1;
                }
                false
            },
            Err(_) => false,
        }
    }
}

} // verus!
