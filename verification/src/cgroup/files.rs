//! The control files of a directory: which can be seen, what they say and what a
//! write to one does.

use vstd::prelude::*;
use vstd::utf8::encode_utf8;
use crate::bytes::same_bytes;
use crate::cgroup::forest::{below, cpu_active, frozen_above, parent_of, pids_active, version,
    CgroupVersion, DirView, Forest, Hierarchy};
use crate::cgroup::lookup::seen;
use crate::cgroup::options::{join_names, names_line};
use crate::cgroup::registry::{live_count, live_members, Index, PidMembershipRegistry,
    RegistryValidation};
use crate::error::Error;
use crate::text::{decimal, push_decimal, push_text};

verus! {

#[derive(Clone, Copy, Debug, PartialEq, Eq, Structural)]
pub enum ControlFile {
    Tasks,
    Procs,
    Controllers,
    SubtreeControl,
    Events,
    Type,
    Freeze,
    Kill,
    PidsMax,
    PidsCurrent,
    PidsEvents,
    PidsPeak,
    UclampMin,
    UclampMax,
}

/// The number of control files of a directory.
pub const CONTROL_FILE_COUNT: usize = 14;

/// Every control file, in the order of their identities.
pub open spec fn control_files() -> Seq<ControlFile> {
    seq![
        ControlFile::Tasks,
        ControlFile::Procs,
        ControlFile::Controllers,
        ControlFile::SubtreeControl,
        ControlFile::Events,
        ControlFile::Type,
        ControlFile::Freeze,
        ControlFile::Kill,
        ControlFile::PidsMax,
        ControlFile::PidsCurrent,
        ControlFile::PidsEvents,
        ControlFile::PidsPeak,
        ControlFile::UclampMin,
        ControlFile::UclampMax,
    ]
}

/// The name of a control file.
pub open spec fn name_of(file: ControlFile) -> Seq<char> {
    match file {
        ControlFile::Tasks => "tasks"@,
        ControlFile::Procs => "cgroup.procs"@,
        ControlFile::Controllers => "cgroup.controllers"@,
        ControlFile::SubtreeControl => "cgroup.subtree_control"@,
        ControlFile::Events => "cgroup.events"@,
        ControlFile::Type => "cgroup.type"@,
        ControlFile::Freeze => "cgroup.freeze"@,
        ControlFile::Kill => "cgroup.kill"@,
        ControlFile::PidsMax => "pids.max"@,
        ControlFile::PidsCurrent => "pids.current"@,
        ControlFile::PidsEvents => "pids.events"@,
        ControlFile::PidsPeak => "pids.peak"@,
        ControlFile::UclampMin => "cpu.uclamp.min"@,
        ControlFile::UclampMax => "cpu.uclamp.max"@,
    }
}

/// The access mode of a new control file.
pub open spec fn mode_of(file: ControlFile) -> u16 {
    if file is Kill {
        0o200
    } else if file.reports_only() {
        0o444
    } else {
        0o644
    }
}

/// The first control file, from number `i` on, with this name.
pub open spec fn named_from(name: Seq<u8>, i: nat) -> Option<ControlFile>
    decreases 14 - i,
{
    if i >= 14 {
        None
    } else if name == encode_utf8(name_of(control_files()[i as int])) {
        Some(control_files()[i as int])
    } else {
        named_from(name, i + 1)
    }
}

/// The control file of a name.
pub open spec fn named(name: Seq<u8>) -> Option<ControlFile> {
    named_from(name, 0)
}

/// The control file with number `i`.
pub fn control_file_at(i: usize) -> (file: ControlFile)
    requires
        i < 14,
    ensures
        file == control_files()[i as int],
{
    match i {
        0 => ControlFile::Tasks,
        1 => ControlFile::Procs,
        2 => ControlFile::Controllers,
        3 => ControlFile::SubtreeControl,
        4 => ControlFile::Events,
        5 => ControlFile::Type,
        6 => ControlFile::Freeze,
        7 => ControlFile::Kill,
        8 => ControlFile::PidsMax,
        9 => ControlFile::PidsCurrent,
        10 => ControlFile::PidsEvents,
        11 => ControlFile::PidsPeak,
        12 => ControlFile::UclampMin,
        _ => ControlFile::UclampMax,
    }
}

/// The control file of a name.
pub fn control_file_named(name: &[u8]) -> (file: Option<ControlFile>)
    ensures
        file == named(name@),
{
    let mut i: usize = 0;
    while i < CONTROL_FILE_COUNT
        invariant
            i <= 14,
            named(name@) == named_from(name@, i as nat),
        decreases 14 - i,
    {
        let file: ControlFile = control_file_at(i);
        if same_bytes(name, file.name().as_bytes()) {
            return Some(file);
        }
        i = i + 1;
    }
    None
}

/// What can be done with an open control file at once.
#[derive(Clone, Copy, Debug, PartialEq, Eq, Structural)]
pub struct Readiness {
    pub readable: bool,
    pub writable: bool,
}

impl ControlFile {
    pub fn name(self) -> (name: &'static str)
        ensures
            name@ == name_of(self),
    {
        match self {
            ControlFile::Tasks => "tasks",
            ControlFile::Procs => "cgroup.procs",
            ControlFile::Controllers => "cgroup.controllers",
            ControlFile::SubtreeControl => "cgroup.subtree_control",
            ControlFile::Events => "cgroup.events",
            ControlFile::Type => "cgroup.type",
            ControlFile::Freeze => "cgroup.freeze",
            ControlFile::Kill => "cgroup.kill",
            ControlFile::PidsMax => "pids.max",
            ControlFile::PidsCurrent => "pids.current",
            ControlFile::PidsEvents => "pids.events",
            ControlFile::PidsPeak => "pids.peak",
            ControlFile::UclampMin => "cpu.uclamp.min",
            ControlFile::UclampMax => "cpu.uclamp.max",
        }
    }

    /// Whether nothing can be written to it.
    pub open spec fn reports_only(self) -> bool {
        self is Controllers || self is Events || self is Type || self is PidsCurrent
            || self is PidsEvents || self is PidsPeak
    }

    pub fn is_read_only(self) -> (read_only: bool)
        ensures
            read_only == self.reports_only(),
    {
        match self {
            ControlFile::Controllers => true,
            ControlFile::Events => true,
            ControlFile::Type => true,
            ControlFile::PidsCurrent => true,
            ControlFile::PidsEvents => true,
            ControlFile::PidsPeak => true,
            _ => false,
        }
    }

    /// The access mode of a new control file.
    pub fn mode(self) -> (mode: u16)
        ensures
            mode == mode_of(self),
    {
        if let ControlFile::Kill = self {
            0o200u16
        } else if self.is_read_only() {
            0o444
        } else {
            0o644
        }
    }

    pub fn poll(self) -> (ready: Readiness)
        ensures
            ready == (Readiness { readable: !(self is Kill), writable: !self.reports_only() }),
    {
        let kill: bool = if let ControlFile::Kill = self {
            true
        } else {
            false
        };
        Readiness { readable: !kill, writable: !self.is_read_only() }
    }

    /// Only a truncation to nothing is accepted, and does nothing.
    pub fn set_len(self, len: u64) -> (result: Result<(), Error>)
        ensures
            result == if len == 0 {
                Ok(())
            } else {
                Err(Error::InvalidInput)
            },
    {
        if len == 0 {
            Ok(())
        } else {
            Err(Error::InvalidInput)
        }
    }
}

/// Whether a control file of `x` can be seen.
pub open spec fn visible(hs: Seq<Hierarchy>, ds: Seq<DirView>, x: int, file: ControlFile) -> bool {
    match file {
        ControlFile::Tasks => version(hs, ds, x) == CgroupVersion::V1,
        ControlFile::Procs => true,
        ControlFile::Kill => version(hs, ds, x) == CgroupVersion::V2 && ds[x].parent is Some,
        ControlFile::PidsMax => pids_active(hs, ds, x),
        ControlFile::PidsCurrent => pids_active(hs, ds, x),
        ControlFile::PidsEvents => pids_active(hs, ds, x),
        ControlFile::PidsPeak => pids_active(hs, ds, x),
        ControlFile::UclampMin => cpu_active(hs, ds, x),
        ControlFile::UclampMax => cpu_active(hs, ds, x),
        _ => version(hs, ds, x) == CgroupVersion::V2,
    }
}

/// One line for every process.
pub open spec fn pid_lines(pids: Seq<u64>) -> Seq<u8>
    decreases pids.len(),
{
    if pids.len() == 0 {
        Seq::empty()
    } else {
        pid_lines(pids.subrange(0, pids.len() - 1)) + decimal(
            pids[pids.len() - 1] as nat,
        ).push(10u8)
    }
}

pub fn tasks_text(pids: &Vec<u64>) -> (text: Vec<u8>)
    ensures
        text@ == pid_lines(pids@),
{
    let mut text: Vec<u8> = Vec::new();
    let mut index: usize = 0;
    assert(pids@.subrange(0, 0) =~= Seq::empty());
    assert(text@ =~= Seq::empty());
    while index < pids.len()
        invariant
            index <= pids@.len(),
            text@ == pid_lines(pids@.subrange(0, index as int)),
        decreases pids@.len() - index,
    {
        let ghost done = pids@.subrange(0, index as int + 1);
        assert(done.subrange(0, done.len() - 1) =~= pids@.subrange(0, index as int));
        let ghost before = text@;
        push_decimal(&mut text, pids[index] as u128);
        text.push(10);
        assert(text@ =~= before + decimal(pids@[index as int] as nat).push(10u8));
        index = index + 1;
    }
    assert(pids@.subrange(0, pids@.len() as int) =~= pids@);
    text
}

/// A number on a line of its own.
pub open spec fn number_line(n: nat) -> Seq<u8> {
    decimal(n).push(10u8)
}

fn number_text(n: u128) -> (text: Vec<u8>)
    ensures
        text@ == number_line(n as nat),
{
    let mut text: Vec<u8> = Vec::new();
    push_decimal(&mut text, n);
    text.push(10);
    assert(text@ =~= number_line(n as nat));
    text
}

/// A flag on a line of its own.
pub open spec fn flag_digit(flag: bool) -> Seq<u8> {
    decimal(if flag {
        1
    } else {
        0
    })
}

/// The line of controllers that a directory's children are controlled by.
pub open spec fn subtree_line(enabled: bool) -> Seq<u8> {
    if enabled {
        encode_utf8("pids\n"@)
    } else {
        Seq::empty()
    }
}

/// The line of controllers that a directory can enable.
pub open spec fn controllers_line(hs: Seq<Hierarchy>, ds: Seq<DirView>, x: int) -> Seq<u8> {
    if version(hs, ds, x) == CgroupVersion::V1 {
        Seq::empty()
    } else {
        match parent_of(ds, x) {
            Some(p) => subtree_line(ds[p].subtree_pids),
            None => encode_utf8(names_line(hs[ds[x].hierarchy as int].controllers@)),
        }
    }
}

/// The member limit of a directory.
pub open spec fn limit_line(limit: Option<u64>) -> Seq<u8> {
    match limit {
        Some(limit) => number_line(limit as nat),
        None => encode_utf8("max\n"@),
    }
}

/// Whether `pid` is a visible member of `x` or of a directory below it.
pub open spec fn is_live_below(
    index: Index,
    bits: Seq<bool>,
    hs: Seq<Hierarchy>,
    validation: RegistryValidation,
    ds: Seq<DirView>,
    x: int,
    pid: u64,
) -> bool {
    exists|y: int|
        0 <= y < ds.len() && #[trigger] below(ds, y, x, 257) && live_members(
            index,
            bits,
            hs.len(),
            validation,
            ds[y],
        ).contains(pid)
}

/// Whether a freeze was asked for and every member has come to a stop.
pub open spec fn all_frozen(
    index: Index,
    bits: Seq<bool>,
    hs: Seq<Hierarchy>,
    validation: RegistryValidation,
    ds: Seq<DirView>,
    x: int,
    parked: Seq<u64>,
) -> bool {
    frozen_above(ds, x, 256) && forall|pid: u64|
        is_live_below(index, bits, hs, validation, ds, x, pid) ==> #[trigger] parked.contains(pid)
}

/// What is said of a directory's members.
pub open spec fn events_text(populated: bool, frozen: bool) -> Seq<u8> {
    encode_utf8("populated "@) + flag_digit(populated) + encode_utf8("\nfrozen "@) + flag_digit(
        frozen,
    ).push(10u8)
}

/// What a control file says that lists no processes.
pub open spec fn report(
    index: Index,
    bits: Seq<bool>,
    validation: RegistryValidation,
    hs: Seq<Hierarchy>,
    ds: Seq<DirView>,
    x: int,
    file: ControlFile,
    parked: Seq<u64>,
) -> Result<Seq<u8>, Error> {
    let count = live_count(index, bits, hs.len(), validation, ds, x);
    match file {
        ControlFile::Controllers => Ok(controllers_line(hs, ds, x)),
        ControlFile::SubtreeControl => Ok(subtree_line(ds[x].subtree_pids)),
        ControlFile::Events => Ok(
            events_text(count != 0, all_frozen(index, bits, hs, validation, ds, x, parked)),
        ),
        ControlFile::Type => Ok(encode_utf8("domain\n"@)),
        ControlFile::Freeze => Ok(flag_digit(ds[x].frozen).push(10u8)),
        ControlFile::PidsMax => Ok(limit_line(ds[x].pids_max)),
        ControlFile::PidsCurrent => Ok(number_line(count)),
        ControlFile::PidsEvents => Ok(
            encode_utf8("max "@) + number_line(ds[x].pids_events_limit as nat),
        ),
        ControlFile::PidsPeak => Ok(number_line(ds[x].pids_peak as nat)),
        ControlFile::UclampMin => Ok(number_line(ds[x].uclamp.0 as nat)),
        ControlFile::UclampMax => Ok(number_line(ds[x].uclamp.1 as nat)),
        _ => Err(Error::BadFileDescriptor),
    }
}

/// What a read from `offset` on gives, of at most `len` bytes.
pub open spec fn text_at(text: Seq<u8>, offset: u64, len: nat) -> Seq<u8> {
    if offset >= text.len() {
        Seq::empty()
    } else {
        text.subrange(
            offset as int,
            if text.len() - offset <= len {
                text.len() as int
            } else {
                offset + len
            },
        )
    }
}

/// Read `len` bytes of a whole-file snapshot from `offset` on.
pub fn read_text_at(text: &Vec<u8>, offset: u64, len: usize) -> (read: Vec<u8>)
    ensures
        read@ == text_at(text@, offset, len as nat),
{
    let mut read: Vec<u8> = Vec::new();
    if offset >= text.len() as u64 {
        return read;
    }
    let start: usize = offset as usize;
    let mut index: usize = start;
    while index < text.len() && index - start < len
        invariant
            start <= index <= text@.len(),
            start == offset,
            index - start <= len,
            read@ == text@.subrange(start as int, index as int),
        decreases text@.len() - index,
    {
        read.push(text[index]);
        assert(text@.subrange(start as int, index as int + 1) =~= text@.subrange(
            start as int,
            index as int,
        ).push(text@[index as int]));
        index = index + 1;
    }
    read
}

fn lists_pid(pids: &Vec<u64>, pid: u64) -> (found: bool)
    ensures
        found == pids@.contains(pid),
{
    let mut index: usize = 0;
    while index < pids.len()
        invariant
            index <= pids@.len(),
            forall|i: int| 0 <= i < index ==> pids@[i] != pid,
        decreases pids@.len() - index,
    {
        if pids[index] == pid {
            assert(pids@[index as int] == pid);
            return true;
        }
        index = index + 1;
    }
    false
}

impl Forest {
    pub fn control_file_visible(&self, x: usize, file: ControlFile) -> (seen: bool)
        requires
            self.indexed(),
            x < self@.len(),
        ensures
            seen == visible(self.hierarchies@, self@, x as int, file),
    {
        assert(self.dirs@[x as int]@ == self@[x as int]);
        match file {
            ControlFile::Tasks => self.version_of(x) == CgroupVersion::V1,
            ControlFile::Procs => true,
            ControlFile::Kill => self.version_of(x) == CgroupVersion::V2
                && self.dirs[x].parent.is_some(),
            ControlFile::PidsMax => self.pids_controller_active(x),
            ControlFile::PidsCurrent => self.pids_controller_active(x),
            ControlFile::PidsEvents => self.pids_controller_active(x),
            ControlFile::PidsPeak => self.pids_controller_active(x),
            ControlFile::UclampMin => self.cpu_controller_active(x),
            ControlFile::UclampMax => self.cpu_controller_active(x),
            _ => self.version_of(x) == CgroupVersion::V2,
        }
    }

    fn controllers_text(&self, x: usize) -> (text: Vec<u8>)
        requires
            self.indexed(),
            x < self@.len(),
        ensures
            text@ == controllers_line(self.hierarchies@, self@, x as int),
    {
        let mut text: Vec<u8> = Vec::new();
        assert(text@ =~= Seq::empty());
        if self.version_of(x) == CgroupVersion::V1 {
            return text;
        }
        assert(self.dirs@[x as int]@ == self@[x as int]);
        match self.parent_index(x) {
            Some(p) => {
                assert(self.dirs@[p as int]@ == self@[p as int]);
                if self.dirs[p].subtree_pids {
                    push_text(&mut text, "pids\n");
                    assert(text@ =~= encode_utf8("pids\n"@));
                }
            },
            None => {
                let line = join_names(&self.hierarchies[self.dirs[x].hierarchy].controllers);
                push_text(&mut text, line.as_str());
                assert(text@ =~= encode_utf8(line@));
            },
        }
        text
    }
}

impl PidMembershipRegistry {
    /// Whether a freeze of `x` was asked for and every member has come to a stop.
    /// `parked` lists the processes that have.
    pub fn recursive_frozen(
        &self,
        forest: &Forest,
        validation: &RegistryValidation,
        x: usize,
        parked: &Vec<u64>,
    ) -> (frozen: bool)
        requires
            forest.indexed(),
            self.refers(*forest),
            x < forest@.len(),
        ensures
            frozen == all_frozen(
                self.index(),
                self.bits(),
                forest.hierarchies@,
                *validation,
                forest@,
                x as int,
                parked@,
            ),
    {
        if !forest.is_effectively_frozen(x) {
            return false;
        }
        let pids = self.recursive_live_pids(forest, validation, x);
        let mut index: usize = 0;
        while index < pids.len()
            invariant
                index <= pids@.len(),
                x < forest@.len(),
                frozen_above(forest@, x as int, 256),
                forall|pid: u64|
                    #![trigger pids@.contains(pid)]
                    pids@.contains(pid) <==> is_live_below(
                        self.index(),
                        self.bits(),
                        forest.hierarchies@,
                        *validation,
                        forest@,
                        x as int,
                        pid,
                    ),
                forall|i: int| 0 <= i < index ==> parked@.contains(#[trigger] pids@[i]),
            decreases pids@.len() - index,
        {
            if !lists_pid(parked, pids[index]) {
                assert(pids@.contains(pids@[index as int]));
                return false;
            }
            index = index + 1;
        }
        assert forall|pid: u64|
            is_live_below(
                self.index(),
                self.bits(),
                forest.hierarchies@,
                *validation,
                forest@,
                x as int,
                pid,
            ) implies #[trigger] parked@.contains(pid) by {
            assert(pids@.contains(pid));
            let i = choose|i: int| 0 <= i < pids@.len() && pids@[i] == pid;
            assert(parked@.contains(pids@[i]));
        }
        true
    }

    /// Read a control file whole.  The snapshot is taken in one operation with
    /// membership publication, migration, renames and controller resets.  `parked`
    /// lists the processes that have come to a stop.  A file that is open while its
    /// directory was let go says nothing any more.
    pub fn read_text(
        &self,
        forest: &Forest,
        validation: &RegistryValidation,
        x: usize,
        file: ControlFile,
        parked: &Vec<u64>,
    ) -> (result: Result<Vec<u8>, Error>)
        requires
            forest.indexed(),
            self.refers(*forest),
            x < forest@.len(),
        ensures
            if !forest@[x as int].live {
                result is Err && result->Err_0 == Error::InvalidInput
            } else if !visible(forest.hierarchies@, forest@, x as int, file) {
                result is Err && result->Err_0 == Error::NotFound
            } else if file is Tasks || file is Procs {
                result matches Ok(text) && exists|order: Seq<u64>|
                    order.no_duplicates() && #[trigger] order.to_set() == live_members(
                        self.index(),
                        self.bits(),
                        forest.hierarchies@.len(),
                        *validation,
                        forest@[x as int],
                    ) && text@ == pid_lines(order)
            } else {
                match (
                    report(
                        self.index(),
                        self.bits(),
                        *validation,
                        forest.hierarchies@,
                        forest@,
                        x as int,
                        file,
                        parked@,
                    ),
                    result,
                ) {
                    (Ok(expected), Ok(text)) => text@ == expected,
                    (Err(expected), Err(error)) => error == expected,
                    _ => false,
                }
            },
    {
        assert(forest.dirs@[x as int]@ == forest@[x as int]);
        if !forest.dirs[x].live {
            return Err(Error::InvalidInput);
        }
        if !forest.control_file_visible(x, file) {
            return Err(Error::NotFound);
        }
        let mut text: Vec<u8> = Vec::new();
        match file {
            ControlFile::Tasks | ControlFile::Procs => {
                let pids = self.live_pids(forest, validation, x);
                let text = tasks_text(&pids);
                assert(pids@.no_duplicates() && text@ == pid_lines(pids@));
                return Ok(text);
            },
            ControlFile::Controllers => Ok(forest.controllers_text(x)),
            ControlFile::SubtreeControl => {
                if forest.dirs[x].subtree_pids {
                    push_text(&mut text, "pids\n");
                }
                assert(text@ =~= subtree_line(forest@[x as int].subtree_pids));
                Ok(text)
            },
            ControlFile::Events => {
                let count: u128 = self.recursive_live_pid_count(forest, validation, x);
                let frozen: bool = self.recursive_frozen(forest, validation, x, parked);
                push_text(&mut text, "populated ");
                push_decimal(
                    &mut text,
                    if count != 0 {
                        1
                    } else {
                        0
                    },
                );
                push_text(&mut text, "\nfrozen ");
                push_decimal(
                    &mut text,
                    if frozen {
                        1
                    } else {
                        0
                    },
                );
                text.push(10);
                assert(text@ =~= events_text(count != 0, frozen));
                Ok(text)
            },
            ControlFile::Type => {
                push_text(&mut text, "domain\n");
                assert(text@ =~= encode_utf8("domain\n"@));
                Ok(text)
            },
            ControlFile::Freeze => Ok(
                number_text(
                    if forest.dirs[x].frozen {
                        1
                    } else {
                        0
                    },
                ),
            ),
            ControlFile::Kill => Err(Error::BadFileDescriptor),
            ControlFile::PidsMax => {
                match forest.dirs[x].pids_max {
                    Some(limit) => Ok(number_text(limit as u128)),
                    None => {
                        push_text(&mut text, "max\n");
                        assert(text@ =~= encode_utf8("max\n"@));
                        Ok(text)
                    },
                }
            },
            ControlFile::PidsCurrent => Ok(
                number_text(self.recursive_live_pid_count(forest, validation, x)),
            ),
            ControlFile::PidsEvents => {
                push_text(&mut text, "max ");
                push_decimal(&mut text, forest.dirs[x].pids_events_limit as u128);
                text.push(10);
                assert(text@ =~= encode_utf8("max "@) + number_line(
                    forest@[x as int].pids_events_limit as nat,
                ));
                Ok(text)
            },
            ControlFile::PidsPeak => Ok(number_text(forest.dirs[x].pids_peak as u128)),
            ControlFile::UclampMin => Ok(number_text(forest.dirs[x].uclamp.0 as u128)),
            ControlFile::UclampMax => Ok(number_text(forest.dirs[x].uclamp.1 as u128)),
        }
    }
}

} // verus!
