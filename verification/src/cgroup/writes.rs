//! Writes to control files.

use vstd::prelude::*;
use crate::cgroup::admission::same_references;
use crate::cgroup::collections::{pid_map, PidMap};
use crate::cgroup::files::{is_live_below, limit_line, number_line, visible, ControlFile};
use crate::cgroup::forest::{frozen_above, is_internal, parent_of, pids_active, version,
    CgroupVersion, DirView, Forest, Hierarchy};
use crate::cgroup::lookup::{process_of, seen, v2_membership};
use crate::cgroup::registry::{live_count, peak_after, same_indexes, Index, PidMembershipRegistry,
    RegistryValidation};
use crate::cgroup::uclamp::{next_generation, UclampPolicy, MAX_UCLAMP};
use crate::error::Error;
use crate::text::{as_chars, decimal, decimal_is_digits, is_digit, is_space, is_text,
    law_decimal_digits_read_back, left_trimmed, lists, lists_chars, number, parse_number, part,
    right_trimmed, text_chars, text_of, trim, trimmed, unsigned, views, words, words_of};

verus! {

/// What a write asks of the caller, beyond what it changed.
pub enum WriteAction {
    Done,
    /// Attach a process; number zero is the writer's own.
    Attach(u64),
    /// Kill every member, below too.
    Kill,
    /// Stop these processes, or let them go.
    Freeze(bool, Vec<u64>),
    /// Republish the tasks' clamps for a committed generation.
    Republish(u64),
}

/// The text of a write, without the white space around it.
pub open spec fn request(data: Seq<u8>) -> Option<Seq<char>> {
    match text_of(data) {
        Some(text) => Some(trimmed(text)),
        None => None,
    }
}

fn request_chars(data: &[u8]) -> (chars: Option<Vec<char>>)
    ensures
        chars is Some == request(data@) is Some,
        chars is Some ==> chars->0@ == request(data@)->0,
{
    match text_chars(data) {
        Some(chars) => Some(trim(&chars)),
        None => None,
    }
}

/// The freeze state that a write asks for.
pub open spec fn freeze_request(data: Seq<u8>) -> Option<bool> {
    match request(data) {
        Some(text) => if text == "0"@ {
            Some(false)
        } else if text == "1"@ {
            Some(true)
        } else {
            None
        },
        None => None,
    }
}

/// The member limit that a write asks for.
pub open spec fn limit_request(data: Seq<u8>) -> Option<Option<u64>> {
    match request(data) {
        Some(text) => if text == "max"@ {
            Some(None)
        } else {
            match number(text, u64::MAX as nat) {
                Some(n) => Some(Some(n as u64)),
                None => None,
            }
        },
        None => None,
    }
}

/// The clamp that a write asks for.
pub open spec fn clamp_request(data: Seq<u8>) -> Option<u16> {
    match request(data) {
        Some(text) => match number(text, MAX_UCLAMP as nat) {
            Some(n) => Some(n as u16),
            None => None,
        },
        None => None,
    }
}

/// The process that a write names.
pub open spec fn pid_request(data: Seq<u8>) -> Option<u64> {
    match request(data) {
        Some(text) => match number(text, u64::MAX as nat) {
            Some(n) => Some(n as u64),
            None => None,
        },
        None => None,
    }
}

/// The bounds after one of them was written, where they stay in order.
pub open spec fn bounds_after(bounds: (u16, u16), minimum: bool, value: u16) -> Option<(u16, u16)> {
    if minimum {
        if value <= bounds.1 {
            Some((value, bounds.1))
        } else {
            None
        }
    } else if value >= bounds.0 {
        Some((bounds.0, value))
    } else {
        None
    }
}

/// Whether `x` may enable a controller for its children.
pub open spec fn available(
    hs: Seq<Hierarchy>,
    ds: Seq<DirView>,
    x: int,
    name: Seq<char>,
) -> bool {
    version(hs, ds, x) == CgroupVersion::V2 && (match parent_of(ds, x) {
        Some(p) => ds[p].subtree_pids && name == "pids"@,
        None => lists(hs[ds[x].hierarchy as int].controllers@, name),
    })
}

/// What the words of a write from number `i` on ask for: the last state they name.
pub open spec fn subtree_request(
    hs: Seq<Hierarchy>,
    ds: Seq<DirView>,
    x: int,
    tokens: Seq<Seq<char>>,
    i: nat,
    state: Option<bool>,
) -> Result<Option<bool>, Error>
    decreases tokens.len() - i,
{
    if i >= tokens.len() {
        Ok(state)
    } else {
        let token = tokens[i as int];
        let name = token.subrange(1, token.len() as int);
        if token.len() < 2 {
            Err(Error::InvalidInput)
        } else if token[0] == '+' {
            if !available(hs, ds, x, name) {
                Err(Error::NotFound)
            } else if name != "pids"@ {
                Err(Error::OperationNotSupported)
            } else {
                subtree_request(hs, ds, x, tokens, i + 1, Some(true))
            }
        } else if token[0] == '-' {
            if name != "pids"@ {
                Err(Error::OperationNotSupported)
            } else {
                subtree_request(hs, ds, x, tokens, i + 1, Some(false))
            }
        } else {
            Err(Error::InvalidInput)
        }
    }
}

/// Whether a child of `x` controls its own children.
pub open spec fn child_controls(ds: Seq<DirView>, x: int) -> bool {
    exists|y: usize| #[trigger] ds[x].children.values().contains(y) && ds[y as int].subtree_pids
}

/// What a write of controllers comes to.
pub open spec fn subtree_outcome(
    hs: Seq<Hierarchy>,
    ds: Seq<DirView>,
    x: int,
    data: Seq<u8>,
) -> Result<Option<bool>, Error> {
    match text_of(data) {
        None => Err(Error::InvalidInput),
        Some(text) => match subtree_request(hs, ds, x, words(text), 0, None) {
            Err(error) => Err(error),
            Ok(None) => Ok(None),
            Ok(Some(true)) => if version(hs, ds, x) == CgroupVersion::V2 && ds[x].parent is Some
                && ds[x].pids.dom() != Set::<u64>::empty() {
                Err(Error::ResourceBusy)
            } else {
                Ok(Some(true))
            },
            Ok(Some(false)) => if child_controls(ds, x) {
                Err(Error::ResourceBusy)
            } else {
                Ok(Some(false))
            },
        },
    }
}

/// The directories after `x` was told whether to control its children: where that
/// is a change, the children start counting anew.
pub open spec fn subtree_set(
    index: Index,
    bits: Seq<bool>,
    validation: RegistryValidation,
    hs: Seq<Hierarchy>,
    ds: Seq<DirView>,
    x: int,
    enabled: bool,
) -> Seq<DirView> {
    if ds[x].subtree_pids == enabled {
        ds
    } else {
        let set = ds.update(x, DirView { subtree_pids: enabled, ..ds[x] });
        Seq::new(
            ds.len(),
            |y: int|
                if ds[x].children.values().contains(y as usize) {
                    DirView {
                        pids_max: None,
                        pids_peak: first_peak(index, bits, validation, hs, set, y, enabled),
                        pids_events_limit: 0,
                        ..set[y]
                    }
                } else {
                    set[y]
                },
        )
    }
}

/// The peak with which a child starts counting.
pub open spec fn first_peak(
    index: Index,
    bits: Seq<bool>,
    validation: RegistryValidation,
    hs: Seq<Hierarchy>,
    ds: Seq<DirView>,
    y: int,
    enabled: bool,
) -> u64 {
    if enabled && pids_active(hs, ds, y) {
        peak_after(0, live_count(index, bits, hs.len(), validation, ds, y) as int)
    } else {
        0
    }
}

impl Forest {
    pub fn set_pids_max(&mut self, x: usize, data: &[u8]) -> (result: Result<(), Error>)
        requires
            x < old(self)@.len(),
        ensures
            match (limit_request(data@), result) {
                (Some(limit), Ok(())) => final(self)@ == old(self)@.update(
                    x as int,
                    DirView { pids_max: limit, ..old(self)@[x as int] },
                ),
                (None, Err(error)) => error == Error::InvalidInput && final(self)@ == old(self)@,
                _ => false,
            },
            final(self).hierarchies == old(self).hierarchies,
    {
        let text = match request_chars(data) {
            Some(text) => text,
            None => {
                return Err(Error::InvalidInput);
            },
        };
        let limit: Option<u64> = if is_text(&text, "max") {
            None
        } else {
            match parse_number(&text, u64::MAX) {
                Some(n) => Some(n),
                None => {
                    return Err(Error::InvalidInput);
                },
            }
        };
        self.set_pids_limit(x, limit);
        Ok(())
    }

    /// Write one of a directory's clamps, and give the generation it commits.
    pub fn set_uclamp(
        &mut self,
        policy: &mut UclampPolicy,
        x: usize,
        minimum: bool,
        data: &[u8],
    ) -> (result: Result<u64, Error>)
        requires
            x < old(self)@.len(),
            old(policy).wf(),
        ensures
            ({
                let bounds = match clamp_request(data@) {
                    Some(value) => bounds_after(old(self)@[x as int].uclamp, minimum, value),
                    None => None,
                };
                match (bounds, result) {
                    (Some(uclamp), Ok(generation)) => {
                        &&& final(self)@ == old(self)@.update(
                            x as int,
                            DirView { uclamp, ..old(self)@[x as int] },
                        )
                        &&& generation == next_generation(old(policy).generation)
                        &&& *final(policy) == (UclampPolicy { generation, ..*old(policy) })
                    },
                    (None, Err(error)) => error == Error::InvalidInput && final(self)@
                        == old(self)@ && *final(policy) == *old(policy),
                    _ => false,
                }
            }),
            final(self).hierarchies == old(self).hierarchies,
            final(policy).wf(),
    {
        let value: u16 = match request_chars(data) {
            Some(text) => match parse_number(&text, MAX_UCLAMP as u64) {
                Some(n) => n as u16,
                None => {
                    return Err(Error::InvalidInput);
                },
            },
            None => {
                return Err(Error::InvalidInput);
            },
        };
        assert(self.dirs@[x as int]@ == self@[x as int]);
        let mut next: (u16, u16) = self.dirs[x].uclamp;
        if (minimum && value > next.1) || (!minimum && value < next.0) {
            return Err(Error::InvalidInput);
        }
        if minimum {
            next = (value, next.1);
        } else {
            next = (next.0, value);
        }
        policy.begin_uclamp_policy_update();
        self.set_uclamp_bounds(x, next);
        Ok(policy.finish_uclamp_policy_update())
    }

    fn controller_available(&self, x: usize, name: &Vec<char>) -> (found: bool)
        requires
            self.indexed(),
            x < self@.len(),
        ensures
            found == available(self.hierarchies@, self@, x as int, name@),
    {
        if self.version_of(x) == CgroupVersion::V1 {
            return false;
        }
        assert(self.dirs@[x as int]@ == self@[x as int]);
        match self.parent_index(x) {
            Some(p) => {
                assert(self.dirs@[p as int]@ == self@[p as int]);
                self.dirs[p].subtree_pids && is_text(name, "pids")
            },
            None => {
                lists_chars(&self.hierarchies[self.dirs[x].hierarchy].controllers, name)
            },
        }
    }

    /// The state that a write of controllers asks for.
    fn parse_subtree(&self, x: usize, data: &[u8]) -> (result: Result<Option<bool>, Error>)
        requires
            self.indexed(),
            x < self@.len(),
        ensures
            result == (match text_of(data@) {
                None => Err(Error::InvalidInput),
                Some(text) => subtree_request(
                    self.hierarchies@,
                    self@,
                    x as int,
                    words(text),
                    0,
                    None,
                ),
            }),
    {
        let tokens = match text_chars(data) {
            Some(chars) => words_of(&chars),
            None => {
                return Err(Error::InvalidInput);
            },
        };
        let ghost all = views(tokens@);
        let ghost hs = self.hierarchies@;
        let ghost ds = self@;
        let mut state: Option<bool> = None;
        let mut index: usize = 0;
        while index < tokens.len()
            invariant
                index <= tokens@.len(),
                self.indexed(),
                x < self@.len(),
                hs == self.hierarchies@,
                ds == self@,
                all == views(tokens@),
                text_of(data@) is Some,
                all == words(text_of(data@)->0),
                subtree_request(hs, ds, x as int, all, 0, None) == subtree_request(
                    hs,
                    ds,
                    x as int,
                    all,
                    index as nat,
                    state,
                ),
            decreases tokens@.len() - index,
        {
            let token: &Vec<char> = &tokens[index];
            assert(all[index as int] == token@);
            if token.len() < 2 {
                return Err(Error::InvalidInput);
            }
            let name = part(token, 1, token.len());
            if token[0] == '+' {
                if !self.controller_available(x, &name) {
                    return Err(Error::NotFound);
                }
                if !is_text(&name, "pids") {
                    return Err(Error::OperationNotSupported);
                }
                state = Some(true);
            } else if token[0] == '-' {
                if !is_text(&name, "pids") {
                    return Err(Error::OperationNotSupported);
                }
                state = Some(false);
            } else {
                return Err(Error::InvalidInput);
            }
            index = index + 1;
        }
        Ok(state)
    }

    fn child_has_subtree_controller(&self, x: usize) -> (found: bool)
        requires
            self.indexed(),
            x < self@.len(),
        ensures
            found == child_controls(self@, x as int),
    {
        assert(self.dirs@[x as int]@ == self@[x as int]);
        let children = self.dirs[x].children.values();
        let ghost set = self@[x as int].children.values();
        let mut index: usize = 0;
        while index < children.len()
            invariant
                index <= children@.len(),
                x < self@.len(),
                self.indexed(),
                set == self@[x as int].children.values(),
                children@.to_set() == set,
                forall|i: int| 0 <= i < index ==> !self@[#[trigger] children@[i] as int].subtree_pids,
            decreases children@.len() - index,
        {
            let y: usize = children[index];
            assert(children@.to_set().contains(y));
            assert(set.contains(y));
            let ghost name = choose|name: Seq<u8>|
                #[trigger] self@[x as int].children.contains_key(name)
                    && self@[x as int].children[name] == y;
            assert(self@[x as int].children.contains_key(name));
            assert(self.dirs@[y as int]@ == self@[y as int]);
            if self.dirs[y].subtree_pids {
                return true;
            }
            index = index + 1;
        }
        assert forall|y: usize| #[trigger] set.contains(y) implies !self@[y as int].subtree_pids by {
            assert(children@.to_set().contains(y));
            let i = choose|i: int| 0 <= i < children@.len() && children@[i] == y;
            assert(!self@[children@[i] as int].subtree_pids);
        }
        false
    }
}

impl PidMembershipRegistry {
    /// Enable or disable the member count of a directory's children, as a write
    /// asks.
    pub fn update_subtree_control(
        &self,
        forest: &mut Forest,
        validation: &RegistryValidation,
        x: usize,
        data: &[u8],
    ) -> (result: Result<(), Error>)
        requires
            old(forest).indexed(),
            self.refers(*old(forest)),
            x < old(forest)@.len(),
        ensures
            match (
                subtree_outcome(old(forest).hierarchies@, old(forest)@, x as int, data@),
                result,
            ) {
                (Ok(Some(enabled)), Ok(())) => final(forest)@ == subtree_set(
                    self.index(),
                    self.bits(),
                    *validation,
                    old(forest).hierarchies@,
                    old(forest)@,
                    x as int,
                    enabled,
                ),
                (Ok(None), Ok(())) => final(forest)@ == old(forest)@,
                (Err(expected), Err(error)) => error == expected && final(forest)@
                    == old(forest)@,
                _ => false,
            },
            final(forest).hierarchies == old(forest).hierarchies,
            final(forest).indexed(),
            self.refers(*final(forest)),
    {
        let ghost ds = forest@;
        let ghost hs = forest.hierarchies@;
        let enabled: bool = match forest.parse_subtree(x, data) {
            Err(error) => {
                return Err(error);
            },
            Ok(None) => {
                return Ok(());
            },
            Ok(Some(enabled)) => enabled,
        };
        assert(forest.dirs@[x as int]@ == ds[x as int]);
        if enabled && forest.version_of(x) == CgroupVersion::V2 && forest.dirs[x].parent.is_some()
            && !forest.dirs[x].pids.is_empty() {
            return Err(Error::ResourceBusy);
        }
        if !enabled && forest.child_has_subtree_controller(x) {
            return Err(Error::ResourceBusy);
        }
        if forest.dirs[x].subtree_pids == enabled {
            return Ok(());
        }
        let children = forest.dirs[x].children.values();
        let ghost kids = ds[x as int].children.values();
        forest.set_subtree_pids(x, enabled);
        let ghost set = forest@;
        proof {
            same_indexes(*old(forest), *forest);
            assert forall|i: int| 0 <= i < children@.len() implies #[trigger] children@[i] < ds.len() by {
                let y = children@[i];
                assert(children@.to_set().contains(y));
                assert(kids.contains(y));
                let name = choose|name: Seq<u8>| #[trigger]
                    ds[x as int].children.contains_key(name) && ds[x as int].children[name] == y;
                assert(old(forest)@[x as int].children.contains_key(name));
            }
        }
        let mut peaks: Vec<u64> = Vec::new();
        let mut index: usize = 0;
        while index < children.len()
            invariant
                index <= children@.len(),
                peaks@.len() == index,
                forest@ == set,
                forest.hierarchies@ == hs,
                forest.indexed(),
                self.refers(*forest),
                set.len() == ds.len(),
                forall|i: int| 0 <= i < children@.len() ==> #[trigger] children@[i] < ds.len(),
                forall|i: int|
                    0 <= i < index ==> #[trigger] peaks@[i] == first_peak(
                        self.index(),
                        self.bits(),
                        *validation,
                        hs,
                        set,
                        children@[i] as int,
                        enabled,
                    ),
            decreases children@.len() - index,
        {
            let y: usize = children[index];
            let mut peak: u64 = 0;
            if enabled && forest.pids_controller_active(y) {
                let count: u128 = self.recursive_live_pid_count(forest, validation, y);
                if count <= u64::MAX as u128 {
                    peak = count as u64;
                }
            }
            peaks.push(peak);
            index = index + 1;
        }
        let ghost goal = subtree_set(
            self.index(),
            self.bits(),
            *validation,
            hs,
            ds,
            x as int,
            enabled,
        );
        let mut done: usize = 0;
        while done < children.len()
            invariant
                done <= children@.len(),
                peaks@.len() == children@.len(),
                forest@.len() == ds.len(),
                set.len() == ds.len(),
                goal.len() == ds.len(),
                forest.hierarchies == old(forest).hierarchies,
                kids == ds[x as int].children.values(),
                children@.to_set() == kids,
                set == ds.update(x as int, DirView { subtree_pids: enabled, ..ds[x as int] }),
                ds[x as int].subtree_pids != enabled,
                goal == subtree_set(
                    self.index(),
                    self.bits(),
                    *validation,
                    hs,
                    ds,
                    x as int,
                    enabled,
                ),
                forall|i: int| 0 <= i < children@.len() ==> #[trigger] children@[i] < ds.len(),
                forall|i: int|
                    0 <= i < children@.len() ==> #[trigger] peaks@[i] == first_peak(
                        self.index(),
                        self.bits(),
                        *validation,
                        hs,
                        set,
                        children@[i] as int,
                        enabled,
                    ),
                forall|y: int|
                    #![trigger forest@[y]]
                    0 <= y < ds.len() ==> forest@[y] == set[y] || forest@[y] == goal[y],
                forall|i: int|
                    0 <= i < done ==> forest@[#[trigger] children@[i] as int]
                        == goal[children@[i] as int],
            decreases children@.len() - done,
        {
            let y: usize = children[done];
            let ghost before = forest@;
            forest.restart_pids(y, peaks[done]);
            assert(children@.to_set().contains(y));
            assert(forest@[y as int] == goal[y as int]) by {
                assert(before[y as int] == set[y as int] || before[y as int] == goal[y as int]);
            }
            done = done + 1;
        }
        let count: usize = forest.dirs.len();
        assert(ds.len() == count);
        assert forall|y: int| 0 <= y < ds.len() implies #[trigger] forest@[y] == goal[y] by {
            if kids.contains(y as usize) {
                assert(children@.to_set().contains(y as usize));
                let i = choose|i: int| 0 <= i < children@.len() && children@[i] == y as usize;
                assert(forest@[children@[i] as int] == goal[children@[i] as int]);
            }
        }
        assert(forest@ =~= goal);
        proof {
            same_indexes(*old(forest), *forest);
            same_references(*self, *self, *old(forest), *forest);
        }
        Ok(())
    }

    /// Ask for a freeze, or take the request back.  The result is the new state and
    /// the processes that it drives.
    pub fn set_frozen(
        &self,
        forest: &mut Forest,
        validation: &RegistryValidation,
        x: usize,
        data: &[u8],
    ) -> (result: Result<(bool, Vec<u64>), Error>)
        requires
            old(forest).indexed(),
            self.refers(*old(forest)),
            x < old(forest)@.len(),
        ensures
            match (freeze_request(data@), result) {
                (Some(frozen), Ok(driven)) => {
                    &&& final(forest)@ == old(forest)@.update(
                        x as int,
                        DirView { frozen, ..old(forest)@[x as int] },
                    )
                    &&& driven.0 == frozen
                    &&& forall|pid: u64|
                        #![trigger driven.1@.contains(pid)]
                        driven.1@.contains(pid) <==> is_live_below(
                            self.index(),
                            self.bits(),
                            old(forest).hierarchies@,
                            *validation,
                            old(forest)@,
                            x as int,
                            pid,
                        )
                },
                (None, Err(error)) => error == Error::InvalidInput && final(forest)@
                    == old(forest)@,
                _ => false,
            },
            final(forest).hierarchies == old(forest).hierarchies,
            final(forest).indexed(),
            self.refers(*final(forest)),
    {
        proof {
            reveal_strlit("0");
            reveal_strlit("1");
        }
        let frozen: bool = match request_chars(data) {
            Some(text) => {
                if is_text(&text, "0") {
                    false
                } else if is_text(&text, "1") {
                    true
                } else {
                    return Err(Error::InvalidInput);
                }
            },
            None => {
                return Err(Error::InvalidInput);
            },
        };
        let pids = self.recursive_live_pids(forest, validation, x);
        forest.set_frozen_flag(x, frozen);
        proof {
            same_indexes(*old(forest), *forest);
            same_references(*self, *self, *old(forest), *forest);
        }
        Ok((frozen, pids))
    }
}

/// The bounds after a write to one of the clamp files.
pub open spec fn written_bounds(ds: Seq<DirView>, x: int, minimum: bool, data: Seq<u8>) -> Option<
    (u16, u16),
> {
    match clamp_request(data) {
        Some(value) => bounds_after(ds[x].uclamp, minimum, value),
        None => None,
    }
}

/// Why a write to a control file fails.  A file that is open while its directory was let
/// go takes nothing any more.
pub open spec fn write_error(
    hs: Seq<Hierarchy>,
    ds: Seq<DirView>,
    x: int,
    file: ControlFile,
    data: Seq<u8>,
) -> Option<Error> {
    let invalid = match file {
        ControlFile::Freeze => freeze_request(data) is None,
        ControlFile::PidsMax => limit_request(data) is None,
        ControlFile::UclampMin => written_bounds(ds, x, true, data) is None,
        ControlFile::UclampMax => written_bounds(ds, x, false, data) is None,
        ControlFile::Kill => request(data) != Some("1"@),
        _ => pid_request(data) is None,
    };
    if !ds[x].live {
        Some(Error::InvalidInput)
    } else if !(file is Freeze) && !visible(hs, ds, x, file) {
        Some(Error::NotFound)
    } else if file.reports_only() {
        Some(Error::BadFileDescriptor)
    } else if file is SubtreeControl {
        match subtree_outcome(hs, ds, x, data) {
            Ok(_) => None,
            Err(error) => Some(error),
        }
    } else if invalid {
        Some(Error::InvalidInput)
    } else {
        None
    }
}

/// The directories after a write to a control file that succeeded.
pub open spec fn written(
    index: Index,
    bits: Seq<bool>,
    validation: RegistryValidation,
    hs: Seq<Hierarchy>,
    ds: Seq<DirView>,
    x: int,
    file: ControlFile,
    data: Seq<u8>,
) -> Seq<DirView> {
    match file {
        ControlFile::Freeze => ds.update(
            x,
            DirView { frozen: freeze_request(data)->0, ..ds[x] },
        ),
        ControlFile::PidsMax => ds.update(
            x,
            DirView { pids_max: limit_request(data)->0, ..ds[x] },
        ),
        ControlFile::UclampMin => ds.update(
            x,
            DirView { uclamp: written_bounds(ds, x, true, data)->0, ..ds[x] },
        ),
        ControlFile::UclampMax => ds.update(
            x,
            DirView { uclamp: written_bounds(ds, x, false, data)->0, ..ds[x] },
        ),
        ControlFile::SubtreeControl => match subtree_outcome(hs, ds, x, data) {
            Ok(Some(enabled)) => subtree_set(index, bits, validation, hs, ds, x, enabled),
            _ => ds,
        },
        _ => ds,
    }
}

impl PidMembershipRegistry {
    /// Write to a control file.  What the write asks of the caller comes back: the
    /// processes and tasks are not this library's.
    pub fn write_text(
        &self,
        forest: &mut Forest,
        policy: &mut UclampPolicy,
        validation: &RegistryValidation,
        x: usize,
        file: ControlFile,
        data: &[u8],
    ) -> (result: Result<WriteAction, Error>)
        requires
            old(forest).indexed(),
            self.refers(*old(forest)),
            x < old(forest)@.len(),
            old(policy).wf(),
        ensures
            ({
                let hs = old(forest).hierarchies@;
                let ds = old(forest)@;
                match (write_error(hs, ds, x as int, file, data@), result) {
                    (Some(expected), Err(error)) => {
                        &&& error == expected
                        &&& final(forest)@ == ds
                        &&& *final(policy) == *old(policy)
                    },
                    (None, Ok(action)) => {
                        &&& final(forest)@ == written(
                            self.index(),
                            self.bits(),
                            *validation,
                            hs,
                            ds,
                            x as int,
                            file,
                            data@,
                        )
                        &&& final(policy).generation == (if file is UclampMin || file is UclampMax {
                            next_generation(old(policy).generation)
                        } else {
                            old(policy).generation
                        })
                        &&& final(policy).controls == old(policy).controls
                        &&& final(policy).pending == old(policy).pending
                        &&& match file {
                            ControlFile::Tasks => action == WriteAction::Attach(
                                pid_request(data@)->0,
                            ),
                            ControlFile::Procs => action == WriteAction::Attach(
                                pid_request(data@)->0,
                            ),
                            ControlFile::Kill => action == WriteAction::Kill,
                            ControlFile::Freeze => action matches WriteAction::Freeze(freeze, pids)
                                && Some(freeze) == freeze_request(data@) && forall|pid: u64|
                                #![trigger pids@.contains(pid)]
                                pids@.contains(pid) <==> is_live_below(
                                    self.index(),
                                    self.bits(),
                                    hs,
                                    *validation,
                                    ds,
                                    x as int,
                                    pid,
                                ),
                            ControlFile::UclampMin => action == WriteAction::Republish(
                                final(policy).generation,
                            ),
                            ControlFile::UclampMax => action == WriteAction::Republish(
                                final(policy).generation,
                            ),
                            _ => action == WriteAction::Done,
                        }
                    },
                    _ => false,
                }
            }),
            final(forest).hierarchies == old(forest).hierarchies,
            final(forest).indexed(),
            self.refers(*final(forest)),
            final(policy).wf(),
    {
        assert(forest.dirs@[x as int]@ == forest@[x as int]);
        if !forest.dirs[x].live {
            return Err(Error::InvalidInput);
        }
        if let ControlFile::Freeze = file {
            return match self.set_frozen(forest, validation, x, data) {
                Ok((freeze, pids)) => Ok(WriteAction::Freeze(freeze, pids)),
                Err(error) => Err(error),
            };
        }
        if !forest.control_file_visible(x, file) {
            return Err(Error::NotFound);
        }
        if file.is_read_only() {
            return Err(Error::BadFileDescriptor);
        }
        match file {
            ControlFile::SubtreeControl => match self.update_subtree_control(
                forest,
                validation,
                x,
                data,
            ) {
                Ok(()) => Ok(WriteAction::Done),
                Err(error) => Err(error),
            },
            ControlFile::PidsMax => {
                let result = forest.set_pids_max(x, data);
                proof {
                    same_indexes(*old(forest), *forest);
                    same_references(*self, *self, *old(forest), *forest);
                }
                match result {
                    Ok(()) => Ok(WriteAction::Done),
                    Err(error) => Err(error),
                }
            },
            ControlFile::UclampMin | ControlFile::UclampMax => {
                let minimum: bool = if let ControlFile::UclampMin = file {
                    true
                } else {
                    false
                };
                let result = forest.set_uclamp(policy, x, minimum, data);
                proof {
                    same_indexes(*old(forest), *forest);
                    same_references(*self, *self, *old(forest), *forest);
                }
                match result {
                    Ok(generation) => Ok(WriteAction::Republish(generation)),
                    Err(error) => Err(error),
                }
            },
            ControlFile::Kill => match request_chars(data) {
                Some(text) => {
                    if is_text(&text, "1") {
                        Ok(WriteAction::Kill)
                    } else {
                        Err(Error::InvalidInput)
                    }
                },
                None => Err(Error::InvalidInput),
            },
            _ => match request_chars(data) {
                Some(text) => match parse_number(&text, u64::MAX) {
                    Some(pid) => Ok(WriteAction::Attach(pid)),
                    None => Err(Error::InvalidInput),
                },
                None => Err(Error::InvalidInput),
            },
        }
    }

    /// The processes of the members of `x` and of the directories below it.
    ///
    /// They are found in one membership epoch: numbers are not looked up after it,
    /// so that a number that is used anew never redirects a kill.
    pub fn attached_processes(&self, forest: &Forest, owners: PidMap, x: usize) -> (processes: Vec<
        usize,
    >)
        requires
            forest.indexed(),
            self.refers(*forest),
            x < forest@.len(),
        ensures
            forall|process: usize|
                #![trigger processes@.contains(process)]
                processes@.contains(process) <==> exists|pid: u64|
                    #[trigger] is_live_below(
                        self.index(),
                        self.bits(),
                        forest.hierarchies@,
                        RegistryValidation::ProductionIdentity(owners),
                        forest@,
                        x as int,
                        pid,
                    ) && pid_map(owners).contains_key(pid) && process_of(
                        self.index(),
                        self.bits(),
                        pid,
                        pid_map(owners)[pid],
                        forest.hierarchies@.len(),
                        0,
                    ) == Some(process),
    {
        let ghost table = pid_map(owners);
        let ghost identities = owners;
        let validation = RegistryValidation::ProductionIdentity(owners);
        let pids = self.recursive_live_pids(forest, &validation, x);
        let hierarchies: usize = forest.hierarchies.len();
        let mut processes: Vec<usize> = Vec::new();
        let mut index: usize = 0;
        while index < pids.len()
            invariant
                index <= pids@.len(),
                self.refers(*forest),
                hierarchies == forest.hierarchies@.len(),
                validation == RegistryValidation::ProductionIdentity(identities),
                table == pid_map(identities),
                forall|process: usize|
                    #![trigger processes@.contains(process)]
                    processes@.contains(process) <==> exists|i: int|
                        0 <= i < index && table.contains_key(#[trigger] pids@[i]) && process_of(
                            self.index(),
                            self.bits(),
                            pids@[i],
                            table[pids@[i]],
                            hierarchies as nat,
                            0,
                        ) == Some(process),
            decreases pids@.len() - index,
        {
            let pid: u64 = pids[index];
            let ghost before = processes@;
            if let RegistryValidation::ProductionIdentity(owners) = &validation {
                if let Some(identity) = owners.get(pid) {
                    if let Some(process) = self.process_while_operating(hierarchies, pid, identity) {
                        processes.push(process);
                        assert(processes@[processes@.len() - 1] == process);
                    }
                }
            }
            assert forall|process: usize|
                #![trigger processes@.contains(process)]
                processes@.contains(process) <==> exists|i: int|
                    0 <= i < index + 1 && table.contains_key(#[trigger] pids@[i]) && process_of(
                        self.index(),
                        self.bits(),
                        pids@[i],
                        table[pids@[i]],
                        hierarchies as nat,
                        0,
                    ) == Some(process) by {
                if before.contains(process) {
                    let i = choose|i: int| 0 <= i < before.len() && before[i] == process;
                    assert(processes@[i] == process);
                }
                if processes@.contains(process) && !before.contains(process) {
                    assert(pids@[index as int] == pid);
                    let i = choose|i: int| 0 <= i < processes@.len() && processes@[i] == process;
                    if i < before.len() {
                        assert(before[i] == process);
                    }
                }
            }
            index = index + 1;
        }
        assert forall|process: usize|
            #![trigger processes@.contains(process)]
            processes@.contains(process) <==> exists|pid: u64| #[trigger]
                is_live_below(
                    self.index(),
                    self.bits(),
                    forest.hierarchies@,
                    RegistryValidation::ProductionIdentity(identities),
                    forest@,
                    x as int,
                    pid,
                ) && table.contains_key(pid) && process_of(
                    self.index(),
                    self.bits(),
                    pid,
                    table[pid],
                    hierarchies as nat,
                    0,
                ) == Some(process) by {
            if processes@.contains(process) {
                let i = choose|i: int|
                    0 <= i < pids@.len() && table.contains_key(#[trigger] pids@[i]) && process_of(
                        self.index(),
                        self.bits(),
                        pids@[i],
                        table[pids@[i]],
                        hierarchies as nat,
                        0,
                    ) == Some(process);
                assert(pids@.contains(pids@[i]));
                assert(is_live_below(
                    self.index(),
                    self.bits(),
                    forest.hierarchies@,
                    validation,
                    forest@,
                    x as int,
                    pids@[i],
                ));
            }
            if exists|pid: u64| #[trigger]
                is_live_below(
                    self.index(),
                    self.bits(),
                    forest.hierarchies@,
                    RegistryValidation::ProductionIdentity(identities),
                    forest@,
                    x as int,
                    pid,
                ) && table.contains_key(pid) && process_of(
                    self.index(),
                    self.bits(),
                    pid,
                    table[pid],
                    hierarchies as nat,
                    0,
                ) == Some(process) {
                let pid = choose|pid: u64| #[trigger]
                    is_live_below(
                        self.index(),
                        self.bits(),
                        forest.hierarchies@,
                        RegistryValidation::ProductionIdentity(identities),
                        forest@,
                        x as int,
                        pid,
                    ) && table.contains_key(pid) && process_of(
                        self.index(),
                        self.bits(),
                        pid,
                        table[pid],
                        hierarchies as nat,
                        0,
                    ) == Some(process);
                assert(pids@.contains(pid));
                let i = choose|i: int| 0 <= i < pids@.len() && pids@[i] == pid;
                assert(table.contains_key(pids@[i]));
            }
        }
        processes
    }

    /// Whether a process is let go when the freeze of a directory above it ends: a
    /// nested directory can hold a request of its own, which stays.
    pub fn thaws(&self, forest: &Forest, pid: u64, identity: usize) -> (thaws: bool)
        requires
            forest.indexed(),
            self.refers(*forest),
        ensures
            thaws == (match seen(
                self.bits(),
                forest@,
                v2_membership(self.index(), forest.hierarchies@, pid, Some(identity), 0),
            ) {
                Some(dir) => !frozen_above(forest@, dir as int, 256),
                None => true,
            }),
    {
        match self.get_v2_while_operating(forest, pid, identity) {
            Some(dir) => {
                assert(dir < forest@.len()) by {
                    self.found_dir_exists(*forest, pid, Some(identity), 0);
                }
                !forest.is_effectively_frozen(dir)
            },
            None => true,
        }
    }

    proof fn found_dir_exists(
        self,
        forest: Forest,
        pid: u64,
        identity: Option<usize>,
        h: nat,
    )
        requires
            self.refers(forest),
        ensures
            v2_membership(self.index(), forest.hierarchies@, pid, identity, h) is Some
                ==> v2_membership(
                self.index(),
                forest.hierarchies@,
                pid,
                identity,
                h,
            )->0.target < forest@.len(),
        decreases forest.hierarchies@.len() - h,
    {
        if h < forest.hierarchies@.len() {
            if self.index().contains_key((pid, h as usize)) {
                assert(self.index()[(pid, h as usize)].target < forest@.len());
            }
            self.found_dir_exists(forest, pid, identity, h + 1);
        }
    }
}

/// The user identities of an open file's opener, as far as migration asks for them.
#[derive(Clone, Copy, Debug, PartialEq, Eq, Structural)]
pub struct OpenCredentials {
    pub uid: u32,
    pub euid: u32,
    pub suid: u32,
    pub fsuid: u32,
}

/// The user identities of a process that is to be moved.
#[derive(Clone, Copy, Debug, PartialEq, Eq, Structural)]
pub struct TargetIds {
    pub ruid: u32,
    pub euid: u32,
    pub suid: u32,
}

/// Whether a user identity is one of a process's.
pub open spec fn is_one_of(uid: u32, ids: TargetIds) -> bool {
    uid == ids.ruid || uid == ids.euid || uid == ids.suid
}

fn one_of(uid: u32, ids: TargetIds) -> (found: bool)
    ensures
        found == is_one_of(uid, ids),
{
    uid == ids.ruid || uid == ids.euid || uid == ids.suid
}

/// Whether an opener may move a process: with the capability over it, or where one
/// of their identities is one of its.
pub open spec fn may_move(credentials: OpenCredentials, capable: bool, target: TargetIds) -> bool {
    capable || is_one_of(credentials.uid, target) || is_one_of(credentials.euid, target)
        || is_one_of(credentials.suid, target) || is_one_of(credentials.fsuid, target)
}

/// Whether an opener may move a process: with the capability over it, or where one
/// of their identities is one of its.
pub fn can_migrate_with_credentials(
    credentials: OpenCredentials,
    capable: bool,
    target: TargetIds,
) -> (can: bool)
    ensures
        can == may_move(credentials, capable, target),
{
    capable || one_of(credentials.uid, target) || one_of(credentials.euid, target) || one_of(
        credentials.suid,
        target,
    ) || one_of(credentials.fsuid, target)
}

/// What is known of the process that a write to a process list names.
pub enum Migration {
    /// There is no such process.
    NoProcess,
    /// The file was not opened by anyone.
    NoCredentials,
    /// Whether the opener's namespace is the writer's, whether the writer has the
    /// capability over the namespace, and whether the opener may move the process.
    Known { same_namespace: bool, namespace_capable: bool, allowed: bool },
}

/// Why a process is not moved into `x`.
pub open spec fn migration_error(
    internal: bool,
    migration: Migration,
) -> Option<Error> {
    if internal {
        Some(Error::ResourceBusy)
    } else {
        match migration {
            Migration::NoProcess => Some(Error::NotFound),
            Migration::NoCredentials => Some(Error::Io),
            Migration::Known { same_namespace, namespace_capable, allowed } => if !(same_namespace
                || namespace_capable) {
                Some(Error::NotFound)
            } else if !allowed {
                Some(Error::PermissionDenied)
            } else {
                None
            },
        }
    }
}

/// Whether a process may be moved into `x`.
pub fn check_migration(forest: &Forest, x: usize, migration: Migration) -> (result: Result<
    (),
    Error,
>)
    requires
        forest.indexed(),
        x < forest@.len(),
    ensures
        result == (match migration_error(
            is_internal(forest.hierarchies@, forest@, x as int),
            migration,
        ) {
            Some(error) => Err(error),
            None => Ok(()),
        }),
{
    if forest.v2_has_enabled_child_controllers(x) {
        return Err(Error::ResourceBusy);
    }
    match migration {
        Migration::NoProcess => Err(Error::NotFound),
        Migration::NoCredentials => Err(Error::Io),
        Migration::Known { same_namespace, namespace_capable, allowed } => {
            if !(same_namespace || namespace_capable) {
                Err(Error::NotFound)
            } else if !allowed {
                Err(Error::PermissionDenied)
            } else {
                Ok(())
            }
        },
    }
}

/// A limit that is written as its control file would say it is set.
pub proof fn law_a_limit_reads_back(limit: Option<u64>)
    ensures
        limit_request(limit_line(limit)) == Some(limit),
{
    reveal_strlit("max\n");
    reveal_strlit("max");
    match limit {
        None => {
            vstd::utf8::encode_utf8_decode_utf8("max\n"@);
            vstd::utf8::encode_utf8_valid_utf8("max\n"@);
            let text = "max\n"@;
            assert(!is_space('m'));
            assert(left_trimmed(text) == text);
            assert(text.subrange(0, text.len() - 1) =~= "max"@);
            assert(!is_space('x'));
            assert(right_trimmed("max"@) == "max"@);
            assert(right_trimmed(text) == "max"@);
        },
        Some(n) => {
            a_number_line_reads_back(n as nat);
            let text = as_chars(decimal(n as nat));
            law_decimal_digits_read_back(n as nat);
            let digits = as_chars(decimal(n as nat));
            assert(is_digit(digits[0]));
            assert(text != "max"@) by {
                if text == "max"@ {
                    assert(text[0] == 'm');
                }
            }
            assert(number(text, u64::MAX as nat) == Some(n as nat));
        },
    }
}

/// A number's line is its digits once the white space around it is gone.
pub proof fn a_number_line_reads_back(n: nat)
    ensures
        request(number_line(n)) == Some(as_chars(decimal(n))),
        unsigned(as_chars(decimal(n))) == as_chars(decimal(n)),
{
    let digits = as_chars(decimal(n));
    let line = digits.push('\n');
    law_decimal_digits_read_back(n);
    decimal_is_digits(n);
    assert(is_digit(digits[0]));
    assert forall|i: int| 0 <= i < line.len() implies '\0' <= #[trigger] line[i] <= '\u{7f}' by {
        if i < digits.len() {
            assert(is_digit(digits[i]));
        }
    }
    assert(vstd::utf8::is_ascii_chars(line));
    vstd::utf8::is_ascii_chars_encode_utf8(line);
    let bytes = vstd::utf8::encode_utf8(line);
    assert(bytes =~= number_line(n)) by {
        assert forall|i: int| 0 <= i < bytes.len() implies bytes[i] == number_line(n)[i] by {
            assert(line[i] as u8 == bytes[i]);
            if i < digits.len() {
                assert(is_digit(digits[i]));
                assert(digits[i] == decimal(n)[i] as char);
            }
        }
    }
    vstd::utf8::encode_utf8_valid_utf8(line);
    vstd::utf8::encode_utf8_decode_utf8(line);
    assert(!is_space(line[0]));
    assert(left_trimmed(line) == line);
    assert(line.subrange(0, line.len() - 1) =~= digits);
    assert(is_digit(digits[digits.len() - 1]));
    assert(right_trimmed(digits) == digits);
    assert(right_trimmed(line) == digits);
}

} // verus!
