//! The hash tables that index control groups and their members.
//!
//! Each table is one of `hashbrown`, and what is stated of its operations is
//! what `hashbrown` documents of them.  Nothing is stated of the order in which
//! a table is walked.

use vstd::prelude::*;

verus! {

/// Where one process is a member, in one hierarchy.
#[derive(Clone, Copy, Debug, PartialEq, Eq, Structural)]
pub struct Membership {
    /// The directory.
    pub target: usize,
    /// The publication bit that both indexes share.
    pub publication: usize,
    /// The process that owns the entry: process numbers are reusable after
    /// reaping, so every entry is tied to the identity that created it.  Zero
    /// until a process is bound.
    pub identity: usize,
    /// The running process, bound only once it is globally published.  Zero until
    /// then.
    pub process: usize,
}

/// Members of one directory: process number to publication.
#[verifier::external_body]
pub struct PidMap {
    inner: hashbrown::HashMap<u64, usize>,
}

/// What a [`PidMap`] holds.
pub uninterp spec fn pid_map(map: PidMap) -> Map<u64, usize>;

impl PidMap {
    /// `hashbrown::HashMap::new`: an empty table.
    #[verifier::external_body]
    pub(crate) fn new() -> (table: PidMap)
        ensures
            pid_map(table).dom() == Set::<u64>::empty(),
    {
        PidMap { inner: hashbrown::HashMap::new() }
    }

    /// `hashbrown::HashMap::is_empty`: whether there is no entry.
    #[verifier::external_body]
    pub(crate) fn is_empty(&self) -> (empty: bool)
        ensures
            empty == (pid_map(*self).dom() == Set::<u64>::empty()),
    {
        self.inner.is_empty()
    }

    /// `hashbrown::HashMap::len`: the number of entries.
    #[verifier::external_body]
    pub(crate) fn len(&self) -> (count: usize)
        ensures
            count == pid_map(*self).dom().len(),
    {
        self.inner.len()
    }

    /// `hashbrown::HashMap::get`: the value under a key, copied.
    #[verifier::external_body]
    pub(crate) fn get(&self, pid: u64) -> (value: Option<usize>)
        ensures
            value == (if pid_map(*self).contains_key(pid) {
                Some(pid_map(*self)[pid])
            } else {
                None
            }),
    {
        self.inner.get(&pid).copied()
    }

    /// `hashbrown::HashMap::insert`: puts a value under a key, in place of any
    /// that was there.
    #[verifier::external_body]
    pub(crate) fn insert(&mut self, pid: u64, value: usize)
        ensures
            pid_map(*final(self)) == pid_map(*old(self)).insert(pid, value),
    {
        self.inner.insert(pid, value);
    }

    /// `hashbrown::HashMap::remove`: takes a key and its value out, if it is there.
    #[verifier::external_body]
    pub(crate) fn remove(&mut self, pid: u64)
        ensures
            pid_map(*final(self)) == pid_map(*old(self)).remove(pid),
    {
        self.inner.remove(&pid);
    }

    /// `hashbrown::HashMap::keys`: every key once, in an order that is not stated.
    #[verifier::external_body]
    pub(crate) fn keys(&self) -> (keys: Vec<u64>)
        ensures
            keys@.no_duplicates(),
            keys@.to_set() == pid_map(*self).dom(),
    {
        self.inner.keys().copied().collect()
    }
}

/// Memberships of every process: process number and hierarchy to membership.
#[verifier::external_body]
pub struct MembershipMap {
    inner: hashbrown::HashMap<(u64, usize), Membership>,
}

/// What a [`MembershipMap`] holds.
pub uninterp spec fn membership_map(map: MembershipMap) -> Map<(u64, usize), Membership>;

impl MembershipMap {
    /// `hashbrown::HashMap::new`: an empty table.
    #[verifier::external_body]
    pub(crate) fn new() -> (table: MembershipMap)
        ensures
            membership_map(table).dom() == Set::<(u64, usize)>::empty(),
    {
        MembershipMap { inner: hashbrown::HashMap::new() }
    }

    /// `hashbrown::HashMap::len`: the number of entries.
    #[verifier::external_body]
    pub(crate) fn len(&self) -> (count: usize)
        ensures
            count == membership_map(*self).dom().len(),
    {
        self.inner.len()
    }

    /// `hashbrown::HashMap::get`: the value under a key, copied.
    #[verifier::external_body]
    pub(crate) fn get(&self, pid: u64, hierarchy: usize) -> (value: Option<Membership>)
        ensures
            value == (if membership_map(*self).contains_key((pid, hierarchy)) {
                Some(membership_map(*self)[(pid, hierarchy)])
            } else {
                None
            }),
    {
        self.inner.get(&(pid, hierarchy)).copied()
    }

    /// `hashbrown::HashMap::insert`: puts a value under a key, in place of any
    /// that was there.
    #[verifier::external_body]
    pub(crate) fn insert(&mut self, pid: u64, hierarchy: usize, value: Membership)
        ensures
            membership_map(*final(self)) == membership_map(*old(self)).insert(
                (pid, hierarchy),
                value,
            ),
    {
        self.inner.insert((pid, hierarchy), value);
    }

    /// `hashbrown::HashMap::remove`: takes a key and its value out, if it is there.
    #[verifier::external_body]
    pub(crate) fn remove(&mut self, pid: u64, hierarchy: usize)
        ensures
            membership_map(*final(self)) == membership_map(*old(self)).remove((pid, hierarchy)),
    {
        self.inner.remove(&(pid, hierarchy));
    }

    /// `hashbrown::HashMap::keys`: every key once, in an order that is not stated.
    #[verifier::external_body]
    pub(crate) fn keys(&self) -> (keys: Vec<(u64, usize)>)
        ensures
            keys@.no_duplicates(),
            keys@.to_set() == membership_map(*self).dom(),
    {
        self.inner.keys().copied().collect()
    }
}

/// Children of one directory: name to directory.
#[verifier::external_body]
pub struct ChildMap {
    inner: hashbrown::HashMap<Vec<u8>, usize>,
}

/// What a [`ChildMap`] holds.
pub uninterp spec fn child_map(map: ChildMap) -> Map<Seq<u8>, usize>;

impl ChildMap {
    /// `hashbrown::HashMap::new`: an empty table.
    #[verifier::external_body]
    pub(crate) fn new() -> (table: ChildMap)
        ensures
            child_map(table).dom() == Set::<Seq<u8>>::empty(),
    {
        ChildMap { inner: hashbrown::HashMap::new() }
    }

    /// `hashbrown::HashMap::is_empty`: whether there is no entry.
    #[verifier::external_body]
    pub(crate) fn is_empty(&self) -> (empty: bool)
        ensures
            empty == (child_map(*self).dom() == Set::<Seq<u8>>::empty()),
    {
        self.inner.is_empty()
    }

    /// `hashbrown::HashMap::len`: the number of entries.
    #[verifier::external_body]
    pub(crate) fn len(&self) -> (count: usize)
        ensures
            count == child_map(*self).dom().len(),
    {
        self.inner.len()
    }

    /// `hashbrown::HashMap::get`: the value under a name, copied.
    #[verifier::external_body]
    pub(crate) fn get(&self, name: &[u8]) -> (value: Option<usize>)
        ensures
            value == (if child_map(*self).contains_key(name@) {
                Some(child_map(*self)[name@])
            } else {
                None
            }),
    {
        self.inner.get(name).copied()
    }

    /// `hashbrown::HashMap::insert`: puts a value under a name, in place of any
    /// that was there.
    #[verifier::external_body]
    pub(crate) fn insert(&mut self, name: Vec<u8>, value: usize)
        ensures
            child_map(*final(self)) == child_map(*old(self)).insert(name@, value),
    {
        self.inner.insert(name, value);
    }

    /// `hashbrown::HashMap::remove`: takes a name and its value out, if it is
    /// there.
    #[verifier::external_body]
    pub(crate) fn remove(&mut self, name: &[u8])
        ensures
            child_map(*final(self)) == child_map(*old(self)).remove(name@),
    {
        self.inner.remove(name);
    }

    /// `hashbrown::HashMap::values`: the value of every entry, in an order that is
    /// not stated.
    #[verifier::external_body]
    pub(crate) fn values(&self) -> (values: Vec<usize>)
        ensures
            values@.to_set() == child_map(*self).values(),
            values@.len() == child_map(*self).dom().len(),
    {
        self.inner.values().copied().collect()
    }
}

/// Synthetic inode numbers in use.
#[verifier::external_body]
pub struct InodeSet {
    inner: hashbrown::HashSet<u64>,
}

/// What an [`InodeSet`] holds.
pub uninterp spec fn inode_set(set: InodeSet) -> Set<u64>;

impl InodeSet {
    /// `hashbrown::HashSet::new`: an empty set.
    #[verifier::external_body]
    pub(crate) fn new() -> (table: InodeSet)
        ensures
            inode_set(table) == Set::<u64>::empty(),
    {
        InodeSet { inner: hashbrown::HashSet::new() }
    }

    /// `hashbrown::HashSet::len`: the number of elements.
    #[verifier::external_body]
    pub(crate) fn len(&self) -> (count: usize)
        ensures
            count == inode_set(*self).len(),
    {
        self.inner.len()
    }

    /// `hashbrown::HashSet::insert`: adds an element.
    #[verifier::external_body]
    pub(crate) fn insert(&mut self, inode: u64)
        ensures
            inode_set(*final(self)) == inode_set(*old(self)).insert(inode),
    {
        self.inner.insert(inode);
    }

    /// `hashbrown::HashSet::remove`: takes an element out, if it is there.
    #[verifier::external_body]
    pub(crate) fn remove(&mut self, inode: u64)
        ensures
            inode_set(*final(self)) == inode_set(*old(self)).remove(inode),
    {
        self.inner.remove(&inode);
    }
}

} // verus!
