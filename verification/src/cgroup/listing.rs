//! Listing a directory, and letting go of one.

use vstd::prelude::*;
use vstd::utf8::encode_utf8;
use crate::bytes::to_vec;
use crate::cgroup::collections::{child_map, inode_set, ChildMap};
use crate::cgroup::files::{control_file_at, control_files, name_of, visible, ControlFile,
    CONTROL_FILE_COUNT};
use crate::cgroup::forest::{admissible, parent_of, DirView, Forest, Hierarchy};
use crate::cgroup::namespace::{fewer_finds, fewer_steps, INODES_PER_DIR};

verus! {

/// One entry of a listing.
pub struct DirRecord {
    pub name: Vec<u8>,
    pub inode: u64,
    pub directory: bool,
    /// Where a listing goes on after it.
    pub next: u64,
}

/// What a listing says of an entry.
pub struct Listed {
    pub name: Seq<u8>,
    pub inode: u64,
    pub directory: bool,
}

/// The visible ones of the first `n` control files of `p`.
pub open spec fn listed_files(hs: Seq<Hierarchy>, ds: Seq<DirView>, p: int, n: nat) -> Seq<Listed>
    decreases n,
{
    if n == 0 {
        Seq::empty()
    } else {
        let rest = listed_files(hs, ds, p, (n - 1) as nat);
        let file = control_files()[n - 1];
        if visible(hs, ds, p, file) {
            rest.push(
                Listed {
                    name: encode_utf8(name_of(file)),
                    inode: (ds[p].file_inodes + (n - 1)) as u64,
                    directory: false,
                },
            )
        } else {
            rest
        }
    }
}

/// Everything that a listing of `p` shows, where it shows the directories in this
/// order.
pub open spec fn listing(hs: Seq<Hierarchy>, ds: Seq<DirView>, p: int, order: Seq<usize>) -> Seq<
    Listed,
> {
    let above = match parent_of(ds, p) {
        Some(q) => ds[q].inode,
        None => ds[p].inode,
    };
    seq![
        Listed { name: seq![46u8], inode: ds[p].inode, directory: true },
        Listed { name: seq![46u8, 46u8], inode: above, directory: true },
    ] + order.map_values(
        |c: usize|
            Listed { name: ds[c as int].name, inode: ds[c as int].inode, directory: true },
    ) + listed_files(hs, ds, p, 14)
}

/// Whether a record says what a listing shows at `position`.
pub open spec fn shows(record: DirRecord, all: Seq<Listed>, position: int) -> bool {
    &&& record.name@ == all[position].name
    &&& record.inode == all[position].inode
    &&& record.directory == all[position].directory
    &&& record.next == position + 1
}

/// Whether records are those of a listing from `offset` on.
pub open spec fn shows_from(records: Seq<DirRecord>, all: Seq<Listed>, offset: u64) -> bool {
    &&& records.len() == (if offset >= all.len() {
        0
    } else {
        all.len() - offset
    })
    &&& forall|i: int|
        0 <= i < records.len() ==> shows(#[trigger] records[i], all, offset + i)
}

fn emit(records: &mut Vec<DirRecord>, position: u64, offset: u64, name: Vec<u8>, inode: u64, directory: bool)
    requires
        position < u64::MAX,
    ensures
        final(records)@ == (if position < offset {
            old(records)@
        } else {
            old(records)@.push(DirRecord { name, inode, directory, next: (position + 1) as u64 })
        }),
{
    if position >= offset {
        records.push(DirRecord { name, inode, directory, next: position + 1 });
    }
}

/// The directories after `x` was let go.  Its table goes with it, so that nothing
/// names what is still in it.
pub open spec fn let_go(ds: Seq<DirView>, x: int) -> Seq<DirView> {
    Seq::new(
        ds.len(),
        |y: int|
            if y == x {
                DirView { live: false, children: Map::empty(), ..ds[x] }
            } else if ds[y].parent == Some(x as usize) {
                DirView { linked: false, ..ds[y] }
            } else {
                ds[y]
            },
    )
}

impl Forest {
    /// The entries of `p` from `offset` on.
    pub fn read_dir(&self, p: usize, offset: u64) -> (records: Vec<DirRecord>)
        requires
            self.wf(),
            p < self@.len(),
            self@[p as int].file_inodes + 14 <= u64::MAX,
            self@[p as int].children.dom().len() + 16 < u64::MAX,
        ensures
            exists|order: Seq<usize>|
                #[trigger] order.to_set() == self@[p as int].children.values() && order.len()
                    == self@[p as int].children.dom().len() && shows_from(
                    records@,
                    listing(self.hierarchies@, self@, p as int, order),
                    offset,
                ),
    {
        assert(self.dirs@[p as int]@ == self@[p as int]);
        let children = self.dirs[p].children.values();
        let ghost kids = self@[p as int].children.values();
        let ghost all = listing(self.hierarchies@, self@, p as int, children@);
        let ghost head = children@.map_values(
            |c: usize|
                Listed {
                    name: self@[c as int].name,
                    inode: self@[c as int].inode,
                    directory: true,
                },
        );
        let above: u64 = match self.parent_index(p) {
            Some(q) => {
                assert(self.dirs@[q as int]@ == self@[q as int]);
                self.dirs[q].inode
            },
            None => self.dirs[p].inode,
        };
        let mut records: Vec<DirRecord> = Vec::new();
        let mut dot: Vec<u8> = Vec::new();
        dot.push(46);
        assert(dot@ =~= seq![46u8]);
        let mut dots: Vec<u8> = Vec::new();
        dots.push(46);
        dots.push(46);
        assert(dots@ =~= seq![46u8, 46u8]);
        emit(&mut records, 0, offset, dot, self.dirs[p].inode, true);
        assert(all[0] == (Listed { name: seq![46u8], inode: self@[p as int].inode, directory: true }));
        emit(&mut records, 1, offset, dots, above, true);
        assert(all[1] == (Listed { name: seq![46u8, 46u8], inode: above, directory: true }));
        let mut index: usize = 0;
        while index < children.len()
            invariant
                index <= children@.len(),
                self.wf(),
                p < self@.len(),
                kids == self@[p as int].children.values(),
                children@.to_set() == kids,
                children@.len() + 16 < u64::MAX,
                all == listing(self.hierarchies@, self@, p as int, children@),
                records@.len() == (if offset >= index + 2 {
                    0
                } else {
                    index + 2 - offset
                }),
                forall|i: int|
                    0 <= i < records@.len() ==> shows(#[trigger] records@[i], all, offset + i),
            decreases children@.len() - index,
        {
            let c: usize = children[index];
            assert(children@.to_set().contains(c));
            assert(kids.contains(c));
            let ghost name = choose|name: Seq<u8>| #[trigger]
                self@[p as int].children.contains_key(name) && self@[p as int].children[name] == c;
            assert(self@[p as int].children.contains_key(name));
            assert(self.dirs@[c as int]@ == self@[c as int]);
            assert(all[index + 2] == (Listed {
                name: self@[c as int].name,
                inode: self@[c as int].inode,
                directory: true,
            }));
            emit(
                &mut records,
                index as u64 + 2,
                offset,
                to_vec(self.dirs[c].name.as_slice()),
                self.dirs[c].inode,
                true,
            );
            index = index + 1;
        }
        let mut position: u64 = children.len() as u64 + 2;
        let mut i: usize = 0;
        let ghost hs = self.hierarchies@;
        while i < CONTROL_FILE_COUNT
            invariant
                i <= 14,
                self.wf(),
                p < self@.len(),
                hs == self.hierarchies@,
                self@[p as int].file_inodes + 14 <= u64::MAX,
                children@.len() + 16 < u64::MAX,
                all == listing(self.hierarchies@, self@, p as int, children@),
                position == children@.len() + 2 + listed_files(
                    hs,
                    self@,
                    p as int,
                    i as nat,
                ).len(),
                listed_files(hs, self@, p as int, i as nat).len() <= i,
                records@.len() == (if offset >= position {
                    0
                } else {
                    position - offset
                }),
                forall|j: int|
                    0 <= j < records@.len() ==> shows(#[trigger] records@[j], all, offset + j),
            decreases 14 - i,
        {
            let file: ControlFile = control_file_at(i);
            assert(self.dirs@[p as int]@ == self@[p as int]);
            if self.control_file_visible(p, file) {
                proof {
                    files_extend(hs, self@, p as int, (i + 1) as nat, 14);
                    let part = listed_files(hs, self@, p as int, (i + 1) as nat);
                    let whole = listed_files(hs, self@, p as int, 14);
                    assert(part[part.len() - 1] == whole[part.len() - 1]);
                    assert(all[position as int] == whole[part.len() - 1]);
                }
                emit(
                    &mut records,
                    position,
                    offset,
                    to_vec(file.name().as_bytes()),
                    self.dirs[p].file_inodes + i as u64,
                    false,
                );
                position = position + 1;
            }
            i = i + 1;
        }
        assert(all.len() == position);
        records
    }

    fn unname(&mut self, y: usize)
        requires
            y < old(self)@.len(),
        ensures
            final(self)@ == old(self)@.update(
                y as int,
                DirView { linked: false, ..old(self)@[y as int] },
            ),
            final(self).hierarchies == old(self).hierarchies,
    {
        assert(self.dirs@[y as int]@ == self@[y as int]);
        self.dirs[y].linked = false;
        assert(self@ =~= old(self)@.update(
            y as int,
            DirView { linked: false, ..old(self)@[y as int] },
        ));
    }

    fn empty_out(&mut self, x: usize)
        requires
            x < old(self)@.len(),
        ensures
            final(self)@ == old(self)@.update(
                x as int,
                DirView { live: false, children: Map::empty(), ..old(self)@[x as int] },
            ),
            final(self).hierarchies == old(self).hierarchies,
    {
        assert(self.dirs@[x as int]@ == self@[x as int]);
        let table = ChildMap::new();
        assert(child_map(table) =~= Map::empty());
        self.dirs[x].children = table;
        self.dirs[x].live = false;
        assert(self@ =~= old(self)@.update(
            x as int,
            DirView { live: false, children: Map::empty(), ..old(self)@[x as int] },
        ));
    }

    /// Let go of a directory that nothing refers to any more, and of its
    /// identities.
    pub fn release_dir(&mut self, x: usize)
        requires
            old(self).wf(),
            x < old(self)@.len(),
            !old(self)@[x as int].linked,
            old(self)@[x as int].file_inodes + 14 <= u64::MAX,
        ensures
            final(self).wf(),
            final(self)@ == let_go(old(self)@, x as int),
            ({
                let h = old(self)@[x as int].hierarchy as int;
                let first = old(self)@[x as int].file_inodes;
                &&& final(self).hierarchies@.len() == old(self).hierarchies@.len()
                &&& forall|g: int|
                    0 <= g < old(self).hierarchies@.len() && g != h
                        ==> #[trigger] final(self).hierarchies@[g] == old(self).hierarchies@[g]
                &&& final(self).hierarchies@[h].version == old(self).hierarchies@[h].version
                &&& final(self).hierarchies@[h].controllers
                    == old(self).hierarchies@[h].controllers
                &&& final(self).hierarchies@[h].root == old(self).hierarchies@[h].root
                &&& final(self).hierarchies@[h].next_inode == old(self).hierarchies@[h].next_inode
                &&& forall|inode: u64| #[trigger]
                    inode_set(final(self).hierarchies@[h].inodes).contains(inode) <==> inode_set(
                        old(self).hierarchies@[h].inodes,
                    ).contains(inode) && !(first <= inode < first + INODES_PER_DIR)
            }),
    {
        let ghost before = *self;
        assert(self.dirs@[x as int]@ == self@[x as int]);
        let h: usize = self.dirs[x].hierarchy;
        let first: u64 = self.dirs[x].file_inodes;
        let mut i: u64 = 0;
        while i < INODES_PER_DIR
            invariant
                i <= 15,
                h < self.hierarchies@.len(),
                first + 14 <= u64::MAX,
                self.dirs == before.dirs,
                self.hierarchies@.len() == before.hierarchies@.len(),
                self.hierarchies@[h as int].version == before.hierarchies@[h as int].version,
                self.hierarchies@[h as int].controllers
                    == before.hierarchies@[h as int].controllers,
                self.hierarchies@[h as int].root == before.hierarchies@[h as int].root,
                self.hierarchies@[h as int].next_inode
                    == before.hierarchies@[h as int].next_inode,
                forall|inode: u64| #[trigger]
                    inode_set(self.hierarchies@[h as int].inodes).contains(inode) <==> inode_set(
                        before.hierarchies@[h as int].inodes,
                    ).contains(inode) && !(first <= inode < first + i),
                forall|g: int|
                    0 <= g < before.hierarchies@.len() && g != h
                        ==> #[trigger] self.hierarchies@[g] == before.hierarchies@[g],
            decreases 15 - i,
        {
            self.hierarchies[h].inodes.remove(first + i);
            i = i + 1;
        }
        let count: usize = self.dirs.len();
        assert(before@.len() == count);
        let ghost seen = self.hierarchies;
        let mut y: usize = 0;
        while y < count
            invariant
                y <= count,
                x < count,
                self@.len() == count,
                before@.len() == count,
                h < self.hierarchies@.len(),
                self.hierarchies == seen,
                forall|z: int|
                    0 <= z < y ==> #[trigger] self@[z] == (if before@[z].parent == Some(x) {
                        DirView { linked: false, ..before@[z] }
                    } else {
                        before@[z]
                    }),
                forall|z: int| y <= z < count ==> #[trigger] self@[z] == before@[z],
            decreases count - y,
        {
            assert(self.dirs@[y as int]@ == self@[y as int]);
            if let Some(parent) = self.dirs[y].parent {
                if parent == x {
                    self.unname(y);
                }
            }
            y = y + 1;
        }
        self.empty_out(x);
        assert(self@ =~= let_go(before@, x as int));
        proof {
            let ds = before@;
            let after = self@;
            fewer_steps(ds, after);
            fewer_finds(ds, after);
            assert forall|p: int, name: Seq<u8>|
                #![trigger after[p].children.contains_key(name)]
                0 <= p < after.len() && after[p].children.contains_key(name) implies {
                let c = after[p].children[name] as int;
                &&& c < after.len()
                &&& admissible(name)
                &&& after[p].live
                &&& after[c].linked
                &&& after[c].parent == Some(p as usize)
                &&& after[c].name == name
                &&& after[c].hierarchy == after[p].hierarchy
            } by {
                assert(ds[p].children.contains_key(name));
            }
            assert forall|c: int|
                #![trigger after[c]]
                0 <= c < after.len() implies after[c].hierarchy < self.hierarchies@.len() && (
            after[c].parent matches Some(p) ==> p < after.len()) && (after[c].linked
                ==> after[c].live && (after[c].parent matches Some(p) ==> {
                let table = after[p as int].children;
                table.contains_key(after[c].name) && table[after[c].name] == c
            })) by {
                assert(ds[c].hierarchy < before.hierarchies@.len());
            }
            assert forall|g: int| 0 <= g < self.hierarchies@.len() implies {
                let at = (#[trigger] self.hierarchies@[g]).root;
                &&& at < self@.len()
                &&& self@[at as int].hierarchy == g
                &&& self@[at as int].parent is None
                &&& self@[at as int].linked
            } by {
                assert(before.hierarchies@[g].root == self.hierarchies@[g].root);
                let at = before.hierarchies@[g].root;
                assert(ds[at as int].linked);
            }
            assert forall|g: int, inode: u64|
                #![trigger inode_set(self.hierarchies@[g].inodes).contains(inode)]
                0 <= g < self.hierarchies@.len() && inode_set(
                    self.hierarchies@[g].inodes,
                ).contains(inode) implies inode < self.hierarchies@[g].next_inode by {
                if g != h {
                    assert(self.hierarchies@[g] == before.hierarchies@[g]);
                }
                assert(inode_set(before.hierarchies@[g].inodes).contains(inode));
            }
        }
    }
}

/// The listed control files begin with those of fewer files.
proof fn files_extend(hs: Seq<Hierarchy>, ds: Seq<DirView>, p: int, n: nat, m: nat)
    requires
        n <= m,
    ensures
        listed_files(hs, ds, p, n).len() <= listed_files(hs, ds, p, m).len(),
        forall|i: int|
            0 <= i < listed_files(hs, ds, p, n).len() ==> #[trigger] listed_files(
                hs,
                ds,
                p,
                m,
            )[i] == listed_files(hs, ds, p, n)[i],
    decreases m,
{
    if n < m {
        files_extend(hs, ds, p, n, (m - 1) as nat);
    }
}

} // verus!
