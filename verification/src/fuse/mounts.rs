//! Which mounts belong to which connection.
//!
//! Binds and copies of a namespace share a connection, which ends when the last of its
//! mounts does.  A connection is in the table as long as it lives.

use vstd::prelude::*;
use crate::error::Error;
use crate::fuse::connection::{after, number, number_of};

verus! {

/// A mount and its connection.
#[derive(Clone, Copy, Debug, PartialEq, Eq, Structural)]
pub struct Mount {
    pub mount: u64,
    pub connection: u64,
}

/// A mount that is being removed, and under which receipt.
#[derive(Clone, Copy, Debug, PartialEq, Eq, Structural)]
pub struct Removal {
    pub receipt: u64,
    pub mount: u64,
}

/// The mounts.
pub struct MountTable {
    pub mounts: Vec<Mount>,
    /// Removals that are prepared.  Two at once so know of each other, and neither takes
    /// the other's mount for one that stays.
    pub pending: Vec<Removal>,
    pub next_receipt: u64,
    pub next_participant: u64,
    pub next_ticket: u64,
}

/// What is said of the mounts.
#[verifier::ext_equal]
pub struct MountsView {
    pub mounts: Seq<Mount>,
    pub pending: Seq<Removal>,
    pub next_receipt: u64,
    pub next_participant: u64,
    pub next_ticket: u64,
}

pub open spec fn is_pending(pending: Seq<Removal>, mount: u64) -> bool {
    exists|i: int| 0 <= i < pending.len() && (#[trigger] pending[i]).mount == mount
}

pub open spec fn is_mounted(mounts: Seq<Mount>, mount: u64) -> bool {
    exists|i: int| 0 <= i < mounts.len() && (#[trigger] mounts[i]).mount == mount
}

/// Whether a mount is in a list more than once.
pub open spec fn is_repeated(ids: Seq<u64>, i: int) -> bool {
    exists|j: int| 0 <= j < ids.len() && j != i && #[trigger] ids[j] == ids[i]
}

/// Why a mount of a list cannot be removed.
pub open spec fn removal_error(m: MountsView, ids: Seq<u64>, i: int) -> Option<Error> {
    if is_pending(m.pending, ids[i]) || is_repeated(ids, i) {
        Some(Error::ResourceBusy)
    } else if !is_mounted(m.mounts, ids[i]) {
        Some(Error::NotFound)
    } else {
        None
    }
}

/// Why the first mounts of a list that cannot be removed cannot.
pub open spec fn first_error(m: MountsView, ids: Seq<u64>, from: int) -> Option<Error>
    decreases ids.len() - from,
{
    if from < 0 || from >= ids.len() {
        None
    } else if removal_error(m, ids, from) is Some {
        removal_error(m, ids, from)
    } else {
        first_error(m, ids, from + 1)
    }
}

/// The connection of a mount: that of its first entry.
pub open spec fn connection_of(mounts: Seq<Mount>, mount: u64) -> u64
    decreases mounts.len(),
{
    if mounts.len() == 0 {
        0
    } else if mounts[0].mount == mount {
        mounts[0].connection
    } else {
        connection_of(mounts.drop_first(), mount)
    }
}

/// The removals with those of a list.
pub open spec fn removing(pending: Seq<Removal>, receipt: u64, ids: Seq<u64>) -> Seq<Removal> {
    pending + Seq::new(ids.len(), |i: int| Removal { receipt, mount: ids[i] })
}

/// Whether a mount of the connection stays when those of a list, and those that are
/// already being removed, are gone.
pub open spec fn has_survivor(
    mounts: Seq<Mount>,
    pending: Seq<Removal>,
    ids: Seq<u64>,
    connection: u64,
) -> bool {
    exists|i: int|
        0 <= i < mounts.len() && !ids.contains((#[trigger] mounts[i]).mount) && !is_pending(
            pending,
            mounts[i].mount,
        ) && mounts[i].connection == connection
}

/// The connections that end with the first `n` mounts of a list.
pub open spec fn ending(m: MountsView, receipt: u64, ids: Seq<u64>, n: nat) -> Seq<u64>
    decreases n,
{
    if n == 0 {
        Seq::empty()
    } else {
        let before = ending(m, receipt, ids, (n - 1) as nat);
        let connection = connection_of(m.mounts, ids[n - 1]);
        if before.contains(connection) || has_survivor(
            m.mounts,
            removing(m.pending, receipt, ids),
            ids,
            connection,
        ) {
            before
        } else {
            before.push(connection)
        }
    }
}

/// The mounts without those of a list.
pub open spec fn remaining(mounts: Seq<Mount>, ids: Seq<u64>) -> Seq<Mount>
    decreases mounts.len(),
{
    if mounts.len() == 0 {
        Seq::empty()
    } else if ids.contains(mounts.last().mount) {
        remaining(mounts.drop_last(), ids)
    } else {
        remaining(mounts.drop_last(), ids).push(mounts.last())
    }
}

/// The removals without those of a receipt.
pub open spec fn unreserved(pending: Seq<Removal>, receipt: u64) -> Seq<Removal>
    decreases pending.len(),
{
    if pending.len() == 0 {
        Seq::empty()
    } else if pending.last().receipt == receipt {
        unreserved(pending.drop_last(), receipt)
    } else {
        unreserved(pending.drop_last(), receipt).push(pending.last())
    }
}

/// The mounts of the connections that live.
pub open spec fn of_living(mounts: Seq<Mount>, connection: u64) -> Seq<Mount>
    decreases mounts.len(),
{
    if mounts.len() == 0 {
        Seq::empty()
    } else if mounts.last().connection == connection {
        of_living(mounts.drop_last(), connection)
    } else {
        of_living(mounts.drop_last(), connection).push(mounts.last())
    }
}

/// A removal that was prepared.
pub struct PreparedTeardown {
    pub receipt: u64,
    pub mounts: Vec<u64>,
    /// The connections that end with it.
    pub connections: Vec<u64>,
}

/// A connection ends with a removal exactly if no mount of it stays, be it of this
/// removal or of one that is prepared at the same time.
pub proof fn law_the_last_mount_ends_its_connection(
    m: MountsView,
    receipt: u64,
    ids: Seq<u64>,
    i: int,
)
    requires
        0 <= i < ids.len(),
    ensures
        ending(m, receipt, ids, ids.len()).contains(connection_of(m.mounts, ids[i]))
            == !has_survivor(
            m.mounts,
            removing(m.pending, receipt, ids),
            ids,
            connection_of(m.mounts, ids[i]),
        ),
{
    ending_holds(m, receipt, ids, ids.len(), i);
}

proof fn ending_holds(m: MountsView, receipt: u64, ids: Seq<u64>, n: nat, i: int)
    requires
        0 <= i < ids.len(),
        n <= ids.len(),
    ensures
        ({
            let connection = connection_of(m.mounts, ids[i]);
            let survives = has_survivor(
                m.mounts,
                removing(m.pending, receipt, ids),
                ids,
                connection,
            );
            &&& survives ==> !ending(m, receipt, ids, n).contains(connection)
            &&& !survives && i < n ==> ending(m, receipt, ids, n).contains(connection)
        }),
    decreases n,
{
    if n > 0 {
        ending_holds(m, receipt, ids, (n - 1) as nat, i);
        let before = ending(m, receipt, ids, (n - 1) as nat);
        let all = ending(m, receipt, ids, n);
        let connection = connection_of(m.mounts, ids[i]);
        let last = connection_of(m.mounts, ids[n - 1]);
        if all != before {
            assert(all == before.push(last));
            assert(all[before.len() as int] == last);
            if before.contains(connection) {
                let k = choose|k: int| 0 <= k < before.len() && before[k] == connection;
                assert(all[k] == connection);
            }
            if all.contains(connection) && !before.contains(connection) {
                let k = choose|k: int| 0 <= k < all.len() && all[k] == connection;
                if k < before.len() {
                    assert(before[k] == connection);
                }
            }
        }
    }
}

impl MountTable {
    pub open spec fn view(&self) -> MountsView {
        MountsView {
            mounts: self.mounts@,
            pending: self.pending@,
            next_receipt: self.next_receipt,
            next_participant: self.next_participant,
            next_ticket: self.next_ticket,
        }
    }

    pub fn new() -> (table: MountTable)
        ensures
            table@ == (MountsView {
                mounts: Seq::empty(),
                pending: Seq::empty(),
                next_receipt: 1,
                next_participant: 1,
                next_ticket: 1,
            }),
    {
        let table = MountTable {
            mounts: Vec::new(),
            pending: Vec::new(),
            next_receipt: 1,
            next_participant: 1,
            next_ticket: 1,
        };
        assert(table@.mounts =~= Seq::empty());
        assert(table@.pending =~= Seq::empty());
        table
    }

    /// Add a mount of a connection that takes one.
    pub fn register_mount_connection(&mut self, mount: u64, connection: u64, accepts: bool) -> (result:
        Result<(), Error>)
        ensures
            result == (if accepts {
                Ok::<(), Error>(())
            } else {
                Err(Error::NoSuchDevice)
            }),
            final(self)@ == (if accepts {
                MountsView {
                    mounts: old(self)@.mounts.push(Mount { mount, connection }),
                    ..old(self)@
                }
            } else {
                old(self)@
            }),
    {
        if !accepts {
            return Err(Error::NoSuchDevice);
        }
        self.mounts.push(Mount { mount, connection });
        Ok(())
    }

    /// The connection of a mount.
    pub fn mount_connection(&self, mount: u64) -> (connection: Option<u64>)
        ensures
            connection == (if is_mounted(self@.mounts, mount) {
                Some(connection_of(self@.mounts, mount))
            } else {
                None
            }),
    {
        let mut i: usize = 0;
        assert(self.mounts@.skip(0) =~= self.mounts@);
        while i < self.mounts.len()
            invariant
                i <= self.mounts@.len(),
                forall|j: int| 0 <= j < i ==> (#[trigger] self.mounts@[j]).mount != mount,
                connection_of(self.mounts@, mount) == connection_of(
                    self.mounts@.skip(i as int),
                    mount,
                ),
            decreases self.mounts@.len() - i,
        {
            assert(self.mounts@.skip(i as int)[0] == self.mounts@[i as int]);
            if self.mounts[i].mount == mount {
                assert(self.mounts@[i as int].mount == mount);
                return Some(self.mounts[i].connection);
            }
            assert(self.mounts@.skip(i as int).drop_first() =~= self.mounts@.skip(i as int + 1));
            i = i + 1;
        }
        None
    }

    /// Whether a connection has a mount.
    pub fn has_mount(&self, connection: u64) -> (found: bool)
        ensures
            found == exists|i: int|
                0 <= i < self@.mounts.len() && (#[trigger] self@.mounts[i]).connection
                    == connection,
    {
        let mut i: usize = 0;
        while i < self.mounts.len()
            invariant
                i <= self.mounts@.len(),
                forall|j: int| 0 <= j < i ==> (#[trigger] self.mounts@[j]).connection != connection,
            decreases self.mounts@.len() - i,
        {
            if self.mounts[i].connection == connection {
                assert(self@.mounts[i as int].connection == connection);
                return true;
            }
            i = i + 1;
        }
        false
    }

    fn pending_holds(&self, mount: u64) -> (found: bool)
        ensures
            found == is_pending(self@.pending, mount),
    {
        let mut i: usize = 0;
        while i < self.pending.len()
            invariant
                i <= self.pending@.len(),
                forall|j: int| 0 <= j < i ==> (#[trigger] self.pending@[j]).mount != mount,
            decreases self.pending@.len() - i,
        {
            if self.pending[i].mount == mount {
                assert(self.pending@[i as int].mount == mount);
                return true;
            }
            i = i + 1;
        }
        false
    }

    fn check_removal(&self, ids: &Vec<u64>, at: usize) -> (error: Option<Error>)
        requires
            at < ids@.len(),
        ensures
            error == removal_error(self@, ids@, at as int),
    {
        if self.pending_holds(ids[at]) || repeated(ids, at) {
            Some(Error::ResourceBusy)
        } else if self.mount_connection(ids[at]).is_none() {
            Some(Error::NotFound)
        } else {
            None
        }
    }

    fn survives(&self, ids: &Vec<u64>, connection: u64) -> (found: bool)
        ensures
            found == has_survivor(self@.mounts, self@.pending, ids@, connection),
    {
        let mut i: usize = 0;
        while i < self.mounts.len()
            invariant
                i <= self.mounts@.len(),
                forall|j: int|
                    0 <= j < i ==> !(!ids@.contains((#[trigger] self.mounts@[j]).mount)
                        && !is_pending(self@.pending, self.mounts@[j].mount)
                        && self.mounts@[j].connection == connection),
            decreases self.mounts@.len() - i,
        {
            let mount: u64 = self.mounts[i].mount;
            if !listed(ids, mount) && !self.pending_holds(mount) && self.mounts[i].connection
                == connection {
                assert(!ids@.contains(self.mounts@[i as int].mount));
                return true;
            }
            i = i + 1;
        }
        false
    }

    /// Prepare to remove mounts: all of them, or none.
    ///
    /// The whole list is checked before anything is set aside.  A mount that is not known
    /// is not passed over: it could go while its connection stays.
    pub fn prepare_mount_teardown(&mut self, ids: Vec<u64>) -> (result: Result<
        PreparedTeardown,
        Error,
    >)
        ensures
            match (first_error(old(self)@, ids@, 0), result) {
                (None, Ok(prepared)) => {
                    let receipt = number_of(old(self)@.next_receipt);
                    &&& prepared.receipt == receipt
                    &&& prepared.mounts@ == ids@
                    &&& prepared.connections@ == ending(old(self)@, receipt, ids@, ids@.len())
                    &&& final(self)@ == (MountsView {
                        pending: removing(old(self)@.pending, receipt, ids@),
                        next_receipt: after(old(self)@.next_receipt),
                        ..old(self)@
                    })
                },
                (Some(error), Err(got)) => got == error && final(self)@ == (MountsView {
                    next_receipt: after(old(self)@.next_receipt),
                    ..old(self)@
                }),
                _ => false,
            },
    {
        let ghost m = self@;
        let (receipt, next) = number(self.next_receipt);
        self.next_receipt = next;
        let mut i: usize = 0;
        while i < ids.len()
            invariant
                i <= ids@.len(),
                m == old(self)@,
                self@ == (MountsView { next_receipt: next, ..m }),
                next == after(m.next_receipt),
                first_error(m, ids@, 0) == first_error(m, ids@, i as int),
            decreases ids@.len() - i,
        {
            assert(removal_error(self@, ids@, i as int) == removal_error(m, ids@, i as int));
            if let Some(error) = self.check_removal(&ids, i) {
                return Err(error);
            }
            i = i + 1;
        }
        i = 0;
        assert(self.pending@ =~= removing(m.pending, receipt, ids@.take(0)));
        while i < ids.len()
            invariant
                i <= ids@.len(),
                self.pending@ == removing(m.pending, receipt, ids@.take(i as int)),
                self@ == (MountsView { next_receipt: next, pending: self.pending@, ..m }),
            decreases ids@.len() - i,
        {
            self.pending.push(Removal { receipt, mount: ids[i] });
            i = i + 1;
            assert(self.pending@ =~= removing(m.pending, receipt, ids@.take(i as int)));
        }
        assert(ids@.take(i as int) =~= ids@);
        let mut connections: Vec<u64> = Vec::new();
        i = 0;
        assert(connections@ =~= ending(m, receipt, ids@, 0));
        while i < ids.len()
            invariant
                i <= ids@.len(),
                self@ == (MountsView {
                    next_receipt: next,
                    pending: removing(m.pending, receipt, ids@),
                    ..m
                }),
                connections@ == ending(m, receipt, ids@, i as nat),
                first_error(m, ids@, 0) is None,
            decreases ids@.len() - i,
        {
            proof {
                no_error(m, ids@, 0, i as int);
            }
            if let Some(connection) = self.mount_connection(ids[i]) {
                if !listed(&connections, connection) && !self.survives(&ids, connection) {
                    connections.push(connection);
                }
            }
            i = i + 1;
        }
        Ok(PreparedTeardown { receipt, mounts: ids, connections })
    }

    /// Remove the mounts of a removal that was prepared.
    pub fn commit(&mut self, prepared: &PreparedTeardown)
        ensures
            final(self)@ == (MountsView {
                mounts: remaining(old(self)@.mounts, prepared.mounts@),
                pending: unreserved(old(self)@.pending, prepared.receipt),
                ..old(self)@
            }),
    {
        self.drop_mounts(&prepared.mounts);
        self.release(prepared.receipt);
    }

    /// Do not remove the mounts of a removal that was prepared.
    pub fn cancel(&mut self, prepared: &PreparedTeardown)
        ensures
            final(self)@ == (MountsView {
                pending: unreserved(old(self)@.pending, prepared.receipt),
                ..old(self)@
            }),
    {
        self.release(prepared.receipt);
    }

    /// Forget a mount of which nothing came.  Its connection goes on with the others.
    pub fn unregister_mount_connection(&mut self, mount: u64)
        ensures
            final(self)@ == (MountsView {
                mounts: remaining(old(self)@.mounts, seq![mount]),
                ..old(self)@
            }),
    {
        let mut ids: Vec<u64> = Vec::new();
        ids.push(mount);
        assert(ids@ =~= seq![mount]);
        self.drop_mounts(&ids);
    }

    /// Forget the mounts of a connection that lives no more.
    pub fn forget_connection(&mut self, connection: u64)
        ensures
            final(self)@ == (MountsView {
                mounts: of_living(old(self)@.mounts, connection),
                ..old(self)@
            }),
    {
        let ghost all = self.mounts@;
        let mut kept: Vec<Mount> = Vec::new();
        let mut i: usize = 0;
        assert(kept@ =~= of_living(all.take(0), connection));
        while i < self.mounts.len()
            invariant
                i <= self.mounts@.len(),
                all == self.mounts@,
                kept@ == of_living(all.take(i as int), connection),
            decreases self.mounts@.len() - i,
        {
            assert(all.take(i as int + 1).drop_last() =~= all.take(i as int));
            assert(all.take(i as int + 1).last() == all[i as int]);
            if self.mounts[i].connection != connection {
                kept.push(self.mounts[i]);
            }
            i = i + 1;
        }
        assert(all.take(i as int) =~= all);
        self.mounts = kept;
    }

    fn drop_mounts(&mut self, ids: &Vec<u64>)
        ensures
            final(self)@ == (MountsView {
                mounts: remaining(old(self)@.mounts, ids@),
                ..old(self)@
            }),
    {
        let ghost all = self.mounts@;
        let mut kept: Vec<Mount> = Vec::new();
        let mut i: usize = 0;
        assert(kept@ =~= remaining(all.take(0), ids@));
        while i < self.mounts.len()
            invariant
                i <= self.mounts@.len(),
                all == self.mounts@,
                kept@ == remaining(all.take(i as int), ids@),
            decreases self.mounts@.len() - i,
        {
            assert(all.take(i as int + 1).drop_last() =~= all.take(i as int));
            assert(all.take(i as int + 1).last() == all[i as int]);
            if !listed(ids, self.mounts[i].mount) {
                kept.push(self.mounts[i]);
            }
            i = i + 1;
        }
        assert(all.take(i as int) =~= all);
        self.mounts = kept;
    }

    fn release(&mut self, receipt: u64)
        ensures
            final(self)@ == (MountsView {
                pending: unreserved(old(self)@.pending, receipt),
                ..old(self)@
            }),
    {
        let ghost all = self.pending@;
        let mut kept: Vec<Removal> = Vec::new();
        let mut i: usize = 0;
        assert(kept@ =~= unreserved(all.take(0), receipt));
        while i < self.pending.len()
            invariant
                i <= self.pending@.len(),
                all == self.pending@,
                kept@ == unreserved(all.take(i as int), receipt),
            decreases self.pending@.len() - i,
        {
            assert(all.take(i as int + 1).drop_last() =~= all.take(i as int));
            assert(all.take(i as int + 1).last() == all[i as int]);
            if self.pending[i].receipt != receipt {
                kept.push(self.pending[i]);
            }
            i = i + 1;
        }
        assert(all.take(i as int) =~= all);
        self.pending = kept;
    }

    /// Take the numbers for a part in the end of a connection: that of the part, and that
    /// of the packet.
    pub fn take_part(&mut self) -> (numbers: (u64, u64))
        ensures
            numbers == (
                number_of(old(self)@.next_participant),
                number_of(old(self)@.next_ticket),
            ),
            final(self)@ == (MountsView {
                next_participant: after(old(self)@.next_participant),
                next_ticket: after(old(self)@.next_ticket),
                ..old(self)@
            }),
    {
        let (participant, next_participant) = number(self.next_participant);
        let (ticket, next_ticket) = number(self.next_ticket);
        self.next_participant = next_participant;
        self.next_ticket = next_ticket;
        (participant, ticket)
    }
}

proof fn no_error(m: MountsView, ids: Seq<u64>, from: int, i: int)
    requires
        0 <= from <= i < ids.len(),
        first_error(m, ids, from) is None,
    ensures
        removal_error(m, ids, i) is None,
    decreases i - from,
{
    if from < i {
        no_error(m, ids, from + 1, i);
    }
}

fn listed(ids: &Vec<u64>, id: u64) -> (found: bool)
    ensures
        found == ids@.contains(id),
{
    let mut i: usize = 0;
    while i < ids.len()
        invariant
            i <= ids@.len(),
            forall|j: int| 0 <= j < i ==> ids@[j] != id,
        decreases ids@.len() - i,
    {
        if ids[i] == id {
            return true;
        }
        i = i + 1;
    }
    false
}

fn repeated(ids: &Vec<u64>, at: usize) -> (found: bool)
    requires
        at < ids@.len(),
    ensures
        found == is_repeated(ids@, at as int),
{
    let mut i: usize = 0;
    while i < ids.len()
        invariant
            i <= ids@.len(),
            at < ids@.len(),
            forall|j: int| 0 <= j < i && j != at ==> #[trigger] ids@[j] != ids@[at as int],
        decreases ids@.len() - i,
    {
        if i != at && ids[i] == ids[at] {
            assert(ids@[i as int] == ids@[at as int]);
            return true;
        }
        i = i + 1;
    }
    false
}

} // verus!
