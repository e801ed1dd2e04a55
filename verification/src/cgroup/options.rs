//! Mount options of a hierarchy, and the texts that list controllers.

use vstd::prelude::*;
use vstd::string::StringExecFns;
use crate::error::Error;
use crate::text::{chars_of, is_text, split, split_on, trim, trimmed, views};

verus! {

/// Whether a version-one controller of this name exists in other systems.
///
/// Only the controller with complete task accounting is offered here: claiming
/// another merely because a manager probes for it would make its decisions depend
/// on controls that nothing enforces.
pub open spec fn is_known_controller(name: Seq<char>) -> bool {
    ||| name == "blkio"@
    ||| name == "cpu"@
    ||| name == "cpuacct"@
    ||| name == "cpuset"@
    ||| name == "debug"@
    ||| name == "devices"@
    ||| name == "freezer"@
    ||| name == "hugetlb"@
    ||| name == "memory"@
    ||| name == "misc"@
    ||| name == "net_cls"@
    ||| name == "net_prio"@
    ||| name == "perf_event"@
    ||| name == "pids"@
    ||| name == "rdma"@
}

/// Whether a mount option says nothing of controllers.
pub open spec fn is_generic_option(token: Seq<char>) -> bool {
    ||| token == "none"@
    ||| token == "cgroup"@
    ||| token == "rw"@
    ||| token == "ro"@
    ||| token == "relatime"@
    ||| token == "nosuid"@
    ||| token == "nodev"@
    ||| token == "noexec"@
}

fn known_controller(name: &Vec<char>) -> (known: bool)
    ensures
        known == is_known_controller(name@),
{
    is_text(name, "blkio") || is_text(name, "cpu") || is_text(name, "cpuacct") || is_text(
        name,
        "cpuset",
    ) || is_text(name, "debug") || is_text(name, "devices") || is_text(name, "freezer") || is_text(
        name,
        "hugetlb",
    ) || is_text(name, "memory") || is_text(name, "misc") || is_text(name, "net_cls") || is_text(
        name,
        "net_prio",
    ) || is_text(name, "perf_event") || is_text(name, "pids") || is_text(name, "rdma")
}

pub fn is_generic_cgroup_mount_option(token: &Vec<char>) -> (generic: bool)
    ensures
        generic == is_generic_option(token@),
{
    is_text(token, "none") || is_text(token, "cgroup") || is_text(token, "rw") || is_text(
        token,
        "ro",
    ) || is_text(token, "relatime") || is_text(token, "nosuid") || is_text(token, "nodev")
        || is_text(token, "noexec")
}

/// What the tokens from number `i` on come to: whether the one controller is
/// selected, or why the options are refused.  In a device name unknown tokens say
/// nothing; in an option list they are errors.
pub open spec fn selected(
    tokens: Seq<Seq<char>>,
    i: nat,
    options: bool,
    have: bool,
) -> Result<bool, Error>
    decreases tokens.len() - i,
{
    if i >= tokens.len() {
        Ok(have)
    } else {
        let token = trimmed(tokens[i as int]);
        if options && (token.len() == 0 || is_generic_option(token)) {
            selected(tokens, i + 1, options, have)
        } else if token == "pids"@ && !have {
            selected(tokens, i + 1, options, true)
        } else if is_known_controller(token) {
            Err(Error::NoSuchDevice)
        } else if options {
            Err(Error::InvalidInput)
        } else {
            selected(tokens, i + 1, options, have)
        }
    }
}

fn select(text: &str, options: bool, have: bool) -> (result: Result<bool, Error>)
    ensures
        result == selected(split(text@, ','), 0, options, have),
{
    let tokens = split_on(&chars_of(text), ',');
    let ghost all = views(tokens@);
    let mut found: bool = have;
    let mut index: usize = 0;
    while index < tokens.len()
        invariant
            index <= tokens@.len(),
            all == views(tokens@),
            all == split(text@, ','),
            selected(all, 0, options, have) == selected(all, index as nat, options, found),
        decreases tokens@.len() - index,
    {
        assert(all[index as int] == tokens@[index as int]@);
        let token = trim(&tokens[index]);
        if options && (token.len() == 0 || is_generic_cgroup_mount_option(&token)) {
            index = index + 1;
            continue ;
        }
        if is_text(&token, "pids") && !found {
            found = true;
        } else if known_controller(&token) {
            return Err(Error::NoSuchDevice);
        } else if options {
            return Err(Error::InvalidInput);
        }
        index = index + 1;
    }
    Ok(found)
}

/// What the device name and the options of a version-one mount come to: the
/// controllers, or why the mount is refused.
pub open spec fn v1_controllers(source: Seq<char>, data: Seq<char>) -> Result<Seq<Seq<char>>, Error> {
    match selected(split(source, ','), 0, false, false) {
        Ok(have) => match selected(split(data, ','), 0, true, have) {
            Ok(_) => Ok(seq!["pids"@]),
            Err(error) => Err(error),
        },
        Err(error) => Err(error),
    }
}

/// The controllers that a version-one mount selects.  Without any, it gets the one
/// that there is.
pub fn parse_v1_controllers(source: &str, data: &str) -> (result: Result<Vec<String>, Error>)
    ensures
        match (v1_controllers(source@, data@), result) {
            (Ok(names), Ok(controllers)) => controllers@.map_values(|c: String| c@) == names,
            (Err(expected), Err(error)) => error == expected,
            _ => false,
        },
{
    let have: bool = match select(source, false, false) {
        Ok(have) => have,
        Err(error) => {
            return Err(error);
        },
    };
    match select(data, true, have) {
        Ok(_) => {
            let mut controllers: Vec<String> = Vec::new();
            controllers.push("pids".to_owned());
            assert(controllers@.map_values(|c: String| c@) =~= seq!["pids"@]);
            Ok(controllers)
        },
        Err(error) => Err(error),
    }
}

/// The controllers of the unified hierarchy.
pub fn v2_controllers() -> (controllers: Vec<String>)
    ensures
        controllers@.map_values(|c: String| c@) == seq!["pids"@],
{
    let mut controllers: Vec<String> = Vec::new();
    controllers.push("pids".to_owned());
    assert(controllers@.map_values(|c: String| c@) =~= seq!["pids"@]);
    controllers
}

/// The table of controllers: name, hierarchy, number of groups, and whether it is
/// enabled.
pub fn proc_cgroups_snapshot() -> (text: String)
    ensures
        text@ == "#subsys_name\thierarchy\tnum_cgroups\tenabled\n"@ + "pids"@ + "\t1\t1\t1\n"@,
{
    let mut text = "#subsys_name\thierarchy\tnum_cgroups\tenabled\n".to_owned();
    text.append("pids");
    text.append("\t1\t1\t1\n");
    text
}

/// The first `n` names with a separator between them.
pub open spec fn joined(names: Seq<String>, by: char, n: nat) -> Seq<char>
    decreases n,
{
    if n == 0 {
        Seq::empty()
    } else if n == 1 {
        names[0]@
    } else {
        joined(names, by, (n - 1) as nat).push(by) + names[n - 1]@
    }
}

/// A line of names, or nothing where there are none.
pub open spec fn names_line(names: Seq<String>) -> Seq<char> {
    if names.len() == 0 {
        Seq::empty()
    } else {
        joined(names, ' ', names.len()).push('\n')
    }
}

/// The names with a separator between them.
pub fn join(names: &Vec<String>, by: &str) -> (text: String)
    requires
        by@.len() == 1,
    ensures
        text@ == joined(names@, by@[0], names@.len()),
{
    let mut text = String::new();
    let mut index: usize = 0;
    assert(text@ =~= Seq::empty());
    while index < names.len()
        invariant
            index <= names@.len(),
            by@.len() == 1,
            text@ == joined(names@, by@[0], index as nat),
        decreases names@.len() - index,
    {
        if index != 0 {
            text.append(by);
            assert(text@ =~= joined(names@, by@[0], index as nat).push(by@[0]));
        }
        text.append(names[index].as_str());
        assert(text@ =~= joined(names@, by@[0], index as nat + 1));
        index = index + 1;
    }
    text
}

/// A line of controller names.
pub fn join_names(names: &Vec<String>) -> (text: String)
    ensures
        text@ == names_line(names@),
{
    proof {
        reveal_strlit(" ");
        reveal_strlit("\n");
    }
    let mut text = join(names, " ");
    if names.len() != 0 {
        text.append("\n");
        assert(text@ =~= names_line(names@));
    }
    text
}

} // verus!
