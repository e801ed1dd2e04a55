//! What the control files, the mount options and the paths of control groups say.

use vstd::prelude::*;
use vstd::utf8::encode_utf8;
use crate::cgroup::files::{all_frozen, events_text, flag_digit, number_line, pid_lines, report,
    text_at, visible, ControlFile};
use crate::cgroup::forest::{below, chain, cpu_active, ends, parent_of, pids_active, version,
    CgroupVersion, DirView, Forest, Hierarchy};
use crate::cgroup::limits::within;
use crate::cgroup::options::{is_generic_option, joined, selected, v1_controllers};
use crate::cgroup::paths::{closed, common, downs, entry_name, membership_line, membership_lines,
    relative_path, shown_root, ups};
use crate::cgroup::registry::{live_among, live_count, live_members, peak_after, Index,
    RegistryValidation};
use crate::cgroup::writes::{a_number_line_reads_back, available, bounds_after, clamp_request,
    freeze_request, law_a_limit_reads_back, migration_error, pid_request, request, subtree_request,
    subtree_set, write_error, written, Migration};
use crate::error::Error;
use crate::text::{as_chars, decimal, decimal_is_digits, law_decimal_digits_read_back, number,
    trimmed};

verus! {

/// A freeze reads as it was written.
pub proof fn law_a_freeze_reads_back(frozen: bool)
    ensures
        freeze_request(flag_digit(frozen).push(10u8)) == Some(frozen),
{
    reveal_strlit("0");
    reveal_strlit("1");
    a_number_line_reads_back(if frozen {
        1
    } else {
        0
    });
    let text = as_chars(decimal(
        if frozen {
            1
        } else {
            0
        },
    ));
    if frozen {
        assert(text =~= "1"@);
        assert(text[0] != "0"@[0]);
    } else {
        assert(text =~= "0"@);
    }
}

/// A clamp and a process number read as they were written; a clamp over the largest is refused.
pub proof fn law_clamps_and_processes_read_back(clamp: nat, pid: u64)
    ensures
        clamp <= 1024 ==> clamp_request(number_line(clamp)) == Some(clamp as u16),
        clamp > 1024 ==> clamp_request(number_line(clamp)) is None,
        pid_request(number_line(pid as nat)) == Some(pid),
{
    a_number_line_reads_back(clamp);
    a_number_line_reads_back(pid as nat);
    decimal_is_digits(clamp);
    decimal_is_digits(pid as nat);
}

/// Writing back what a control file says changes nothing.
pub proof fn law_writing_back_what_was_read_changes_nothing(
    index: Index,
    bits: Seq<bool>,
    validation: RegistryValidation,
    hs: Seq<Hierarchy>,
    ds: Seq<DirView>,
    x: int,
    file: ControlFile,
    parked: Seq<u64>,
)
    requires
        0 <= x < ds.len(),
        ds[x].uclamp.0 <= ds[x].uclamp.1 <= 1024,
        file is Freeze || file is PidsMax || file is UclampMin || file is UclampMax,
        ds[x].live,
        visible(hs, ds, x, file),
    ensures
        ({
            let said = report(index, bits, validation, hs, ds, x, file, parked);
            &&& said is Ok
            &&& write_error(hs, ds, x, file, said->Ok_0) is None
            &&& written(index, bits, validation, hs, ds, x, file, said->Ok_0) == ds
        }),
{
    let said = report(index, bits, validation, hs, ds, x, file, parked)->Ok_0;
    law_a_freeze_reads_back(ds[x].frozen);
    law_a_limit_reads_back(ds[x].pids_max);
    law_clamps_and_processes_read_back(ds[x].uclamp.0 as nat, 0);
    law_clamps_and_processes_read_back(ds[x].uclamp.1 as nat, 0);
    assert(written(index, bits, validation, hs, ds, x, file, said) =~= ds);
}

/// A write that is taken changes the one setting that its file stands for, to what was written, and
/// nothing else of any directory.
pub proof fn law_a_write_changes_its_own_setting(
    index: Index,
    bits: Seq<bool>,
    validation: RegistryValidation,
    hs: Seq<Hierarchy>,
    ds: Seq<DirView>,
    x: int,
    frozen: bool,
    limit: Option<u64>,
    clamp: u16,
)
    requires
        0 <= x < ds.len(),
        clamp <= 1024,
    ensures
        ({
            let after = |file: ControlFile, data: Seq<u8>|
                written(index, bits, validation, hs, ds, x, file, data);
            &&& after(ControlFile::Freeze, flag_digit(frozen).push(10u8)) == ds.update(
                x,
                DirView { frozen, ..ds[x] },
            )
            &&& after(ControlFile::PidsMax, crate::cgroup::files::limit_line(limit)) == ds.update(
                x,
                DirView { pids_max: limit, ..ds[x] },
            )
            &&& clamp <= ds[x].uclamp.1 ==> after(ControlFile::UclampMin, number_line(clamp as nat))
                == ds.update(x, DirView { uclamp: (clamp, ds[x].uclamp.1), ..ds[x] })
            &&& clamp >= ds[x].uclamp.0 ==> after(ControlFile::UclampMax, number_line(clamp as nat))
                == ds.update(x, DirView { uclamp: (ds[x].uclamp.0, clamp), ..ds[x] })
        }),
{
    law_a_freeze_reads_back(frozen);
    law_a_limit_reads_back(limit);
    law_clamps_and_processes_read_back(clamp as nat, 0);
}

/// The bounds of a clamp never cross: a write of one leaves the other, and is refused exactly where
/// the lower would be above the upper.
pub proof fn law_bounds_never_cross(bounds: (u16, u16), value: u16)
    requires
        bounds.0 <= bounds.1,
    ensures
        bounds_after(bounds, true, value) is None <==> value > bounds.1,
        bounds_after(bounds, false, value) is None <==> value < bounds.0,
        bounds_after(bounds, true, value) matches Some(b) ==> b.0 == value && b.1 == bounds.1 && b.0
            <= b.1,
        bounds_after(bounds, false, value) matches Some(b) ==> b.1 == value && b.0 == bounds.0 && b.0
            <= b.1,
{
}

/// What is written is refused in this order: a directory that was let go takes nothing, a file that
/// is not shown is not there, and one that only reports takes nothing.
pub proof fn law_writes_are_refused_in_order(
    hs: Seq<Hierarchy>,
    ds: Seq<DirView>,
    x: int,
    file: ControlFile,
    data: Seq<u8>,
)
    ensures
        !ds[x].live ==> write_error(hs, ds, x, file, data) == Some(Error::InvalidInput),
        ds[x].live && !visible(hs, ds, x, file) && !(file is Freeze) ==> write_error(
            hs,
            ds,
            x,
            file,
            data,
        ) == Some(Error::NotFound),
        ds[x].live && visible(hs, ds, x, file) && (file is Controllers || file is Events || file is Type
            || file is PidsCurrent || file is PidsEvents || file is PidsPeak) ==> write_error(
            hs,
            ds,
            x,
            file,
            data,
        ) == Some(Error::BadFileDescriptor),
{
}

/// Which files a directory shows: the list of tasks in a version-one hierarchy, the general files in
/// a version-two one, the one that kills not in a root, the limits where members are limited, the
/// clamps where they are clamped, and the list of processes everywhere.
pub proof fn law_which_files_are_shown(hs: Seq<Hierarchy>, ds: Seq<DirView>, x: int)
    ensures
        ({
            let two = version(hs, ds, x) == CgroupVersion::V2;
            &&& visible(hs, ds, x, ControlFile::Procs)
            &&& visible(hs, ds, x, ControlFile::Tasks) == !two
            &&& visible(hs, ds, x, ControlFile::Controllers) == two
            &&& visible(hs, ds, x, ControlFile::SubtreeControl) == two
            &&& visible(hs, ds, x, ControlFile::Events) == two
            &&& visible(hs, ds, x, ControlFile::Type) == two
            &&& visible(hs, ds, x, ControlFile::Freeze) == two
            &&& visible(hs, ds, x, ControlFile::Kill) == (two && ds[x].parent is Some)
            &&& visible(hs, ds, x, ControlFile::PidsMax) == pids_active(hs, ds, x)
            &&& visible(hs, ds, x, ControlFile::PidsCurrent) == pids_active(hs, ds, x)
            &&& visible(hs, ds, x, ControlFile::PidsEvents) == pids_active(hs, ds, x)
            &&& visible(hs, ds, x, ControlFile::PidsPeak) == pids_active(hs, ds, x)
            &&& visible(hs, ds, x, ControlFile::UclampMin) == cpu_active(hs, ds, x)
            &&& visible(hs, ds, x, ControlFile::UclampMax) == cpu_active(hs, ds, x)
        }),
{
}

/// The visible members of the first `n` directories, counted over those that are `a` or below it.
pub open spec fn members_within(
    index: Index,
    bits: Seq<bool>,
    hierarchies: nat,
    validation: RegistryValidation,
    ds: Seq<DirView>,
    a: int,
    n: nat,
) -> nat
    decreases n,
{
    if n == 0 {
        0
    } else if within(ds, n - 1, a) {
        members_within(index, bits, hierarchies, validation, ds, a, (n - 1) as nat) + live_members(
            index,
            bits,
            hierarchies,
            validation,
            ds[n - 1],
        ).len()
    } else {
        members_within(index, bits, hierarchies, validation, ds, a, (n - 1) as nat)
    }
}

proof fn live_is_members(
    index: Index,
    bits: Seq<bool>,
    hierarchies: nat,
    validation: RegistryValidation,
    forest: Forest,
    a: int,
    n: nat,
)
    requires
        forest.bounded(),
        n <= forest@.len(),
    ensures
        live_among(index, bits, hierarchies, validation, forest@, a, n) == members_within(
            index,
            bits,
            hierarchies,
            validation,
            forest@,
            a,
            n,
        ),
    decreases n,
{
    if n > 0 {
        live_is_members(index, bits, hierarchies, validation, forest, a, (n - 1) as nat);
        let ds = forest@;
        let y = n - 1;
        if within(ds, y, a) {
            let steps = choose|steps: nat| #[trigger] below(ds, y, a, steps);
            assert(below(ds, y, a, 257));
        } else {
            assert(!below(ds, y, a, 257));
        }
    }
}

/// The number of members that a directory reports is that of the visible members of itself and of
/// everything below it, and reads as that number.
pub proof fn law_the_reported_count_is_of_everything_below(
    index: Index,
    bits: Seq<bool>,
    validation: RegistryValidation,
    forest: Forest,
    x: int,
    parked: Seq<u64>,
)
    requires
        forest.wf(),
        0 <= x < forest@.len(),
    ensures
        ({
            let hs = forest.hierarchies@;
            let ds = forest@;
            let count = members_within(index, bits, hs.len(), validation, ds, x, ds.len());
            let said = report(index, bits, validation, hs, ds, x, ControlFile::PidsCurrent, parked);
            let events = report(index, bits, validation, hs, ds, x, ControlFile::Events, parked);
            &&& live_count(index, bits, hs.len(), validation, ds, x) == count
            &&& said is Ok && request(said->Ok_0) is Some && number(request(said->Ok_0)->0, count)
                == Some(count)
            &&& events == Ok::<Seq<u8>, Error>(
                events_text(count > 0, all_frozen(index, bits, hs, validation, ds, x, parked)),
            )
        }),
{
    let hs = forest.hierarchies@;
    live_is_members(index, bits, hs.len(), validation, forest, x, forest@.len());
    let count = live_count(index, bits, hs.len(), validation, forest@, x);
    a_number_line_reads_back(count);
    law_decimal_digits_read_back(count);
}

/// Peaks, events and clamps are reported as the numbers that they are: the peak and the clamps alone
/// on a line, the events behind the word for the limit.
pub proof fn law_numbers_are_reported_as_they_are(
    index: Index,
    bits: Seq<bool>,
    validation: RegistryValidation,
    hs: Seq<Hierarchy>,
    ds: Seq<DirView>,
    x: int,
    parked: Seq<u64>,
)
    ensures
        ({
            let said = |file: ControlFile| report(index, bits, validation, hs, ds, x, file, parked);
            let reads = |file: ControlFile, n: nat|
                said(file) is Ok && request(said(file)->Ok_0) is Some && number(
                    request(said(file)->Ok_0)->0,
                    n,
                ) == Some(n);
            &&& reads(ControlFile::PidsPeak, ds[x].pids_peak as nat)
            &&& reads(ControlFile::UclampMin, ds[x].uclamp.0 as nat)
            &&& reads(ControlFile::UclampMax, ds[x].uclamp.1 as nat)
            &&& said(ControlFile::PidsEvents) == Ok::<Seq<u8>, Error>(
                seq![109u8, 97, 120, 32] + decimal(ds[x].pids_events_limit as nat).push(10u8),
            )
        }),
{
    a_number_line_reads_back(ds[x].pids_peak as nat);
    law_decimal_digits_read_back(ds[x].pids_peak as nat);
    a_number_line_reads_back(ds[x].uclamp.0 as nat);
    law_decimal_digits_read_back(ds[x].uclamp.0 as nat);
    a_number_line_reads_back(ds[x].uclamp.1 as nat);
    law_decimal_digits_read_back(ds[x].uclamp.1 as nat);
    reveal_strlit("max ");
    assert(vstd::utf8::is_ascii_chars("max "@));
    vstd::utf8::is_ascii_chars_encode_utf8("max "@);
    assert(encode_utf8("max "@) =~= seq![109u8, 97, 120, 32]);
}

/// A peak rises to a count that is above it, and never falls.
pub proof fn law_a_peak_is_the_highest_count(peak: u64, count: int)
    requires
        0 <= count <= u64::MAX,
    ensures
        peak_after(peak, count) >= peak,
        peak_after(peak, count) >= count,
        peak_after(peak, count) == peak || peak_after(peak, count) == count,
{
}

/// A control file is read like any file: byte `i` of a read at `offset` is byte `offset + i` of its
/// text, and a read ends with its own length or with the text.
pub proof fn law_a_control_file_reads_like_a_file(text: Seq<u8>, offset: u64, len: nat)
    ensures
        ({
            let part = text_at(text, offset, len);
            &&& part.len() <= len
            &&& forall|i: int| 0 <= i < part.len() ==> #[trigger] part[i] == text[offset + i]
            &&& part.len() == len || offset + part.len() >= text.len()
            &&& part.len() == 0 || offset + part.len() <= text.len()
        }),
{
}

/// A list of processes has one line for each, in its order: the number and the end of the line.
pub proof fn law_processes_are_listed_one_to_a_line(pids: Seq<u64>, pid: u64)
    ensures
        pid_lines(Seq::empty()) == Seq::<u8>::empty(),
        pid_lines(pids.push(pid)) == pid_lines(pids) + decimal(pid as nat) + seq![10u8],
{
    let more = pids.push(pid);
    assert(more.subrange(0, more.len() - 1) =~= pids);
    assert(pid_lines(more) =~= pid_lines(pids) + decimal(pid as nat) + seq![10u8]);
}

/// Of several words for one controller the last one holds, and one that cannot be enabled refuses
/// the whole write.
pub proof fn law_the_last_word_holds(
    hs: Seq<Hierarchy>,
    ds: Seq<DirView>,
    x: int,
    tokens: Seq<Seq<char>>,
    i: nat,
    state: Option<bool>,
)
    requires
        i <= tokens.len(),
    ensures
        ({
            let before = subtree_request(hs, ds, x, tokens, i, state);
            let on = subtree_request(hs, ds, x, tokens.push(seq!['+'] + "pids"@), i, state);
            let off = subtree_request(hs, ds, x, tokens.push(seq!['-'] + "pids"@), i, state);
            &&& before is Err ==> on == before && off == before
            &&& before is Ok ==> off == Ok::<Option<bool>, Error>(Some(false))
            &&& before is Ok && available(hs, ds, x, "pids"@) ==> on == Ok::<Option<bool>, Error>(
                Some(true),
            )
            &&& before is Ok && !available(hs, ds, x, "pids"@) ==> on == Err::<Option<bool>, Error>(
                Error::NotFound,
            )
        }),
    decreases tokens.len() - i,
{
    reveal_strlit("pids");
    let plus = seq!['+'] + "pids"@;
    let minus = seq!['-'] + "pids"@;
    assert(plus.subrange(1, plus.len() as int) =~= "pids"@);
    assert(minus.subrange(1, minus.len() as int) =~= "pids"@);
    if i < tokens.len() {
        assert(tokens.push(plus)[i as int] == tokens[i as int]);
        assert(tokens.push(minus)[i as int] == tokens[i as int]);
        law_the_last_word_holds(hs, ds, x, tokens, i + 1, Some(true));
        law_the_last_word_holds(hs, ds, x, tokens, i + 1, Some(false));
    } else {
        assert(tokens.push(plus)[i as int] == plus);
        assert(tokens.push(minus)[i as int] == minus);
        reveal_with_fuel(subtree_request, 2);
    }
}

/// Handing the controller down, or no longer, starts the children anew: they have no limit and no
/// events.  It changes no directory but the children and the one that was told, and nothing where it
/// changes nothing.
pub proof fn law_handing_down_starts_the_children_anew(
    index: Index,
    bits: Seq<bool>,
    validation: RegistryValidation,
    hs: Seq<Hierarchy>,
    ds: Seq<DirView>,
    x: int,
    enabled: bool,
    y: int,
)
    requires
        0 <= x < ds.len(),
        0 <= y < ds.len() <= usize::MAX,
        !ds[x].children.values().contains(x as usize),
    ensures
        ({
            let after = subtree_set(index, bits, validation, hs, ds, x, enabled);
            &&& after.len() == ds.len()
            &&& after[x].subtree_pids == enabled
            &&& after[x].pids == ds[x].pids && after[x].pids_max == ds[x].pids_max
            &&& ds[x].subtree_pids == enabled ==> after == ds
            &&& ds[x].subtree_pids != enabled && ds[x].children.values().contains(y as usize) ==> {
                &&& after[y].pids_max is None
                &&& after[y].pids_events_limit == 0
                &&& after[y].pids == ds[y].pids
                &&& !enabled ==> after[y].pids_peak == 0
            }
            &&& y != x && !ds[x].children.values().contains(y as usize) ==> after[y] == ds[y]
        }),
{
}

/// A process is moved exactly where the directory takes processes, the opener sees it, or may see
/// it, and may move it.
pub proof fn law_who_may_move_a_process(
    internal: bool,
    same_namespace: bool,
    namespace_capable: bool,
    allowed: bool,
)
    ensures
        migration_error(
            internal,
            Migration::Known { same_namespace, namespace_capable, allowed },
        ) is None <==> !internal && (same_namespace || namespace_capable) && allowed,
        migration_error(internal, Migration::NoProcess) is Some,
        migration_error(internal, Migration::NoCredentials) is Some,
        internal ==> migration_error(
            internal,
            Migration::Known { same_namespace, namespace_capable, allowed },
        ) == Some(Error::ResourceBusy),
        !internal && (same_namespace || namespace_capable) && !allowed ==> migration_error(
            internal,
            Migration::Known { same_namespace, namespace_capable, allowed },
        ) == Some(Error::PermissionDenied),
{
}

/// A mount that is taken names no controller but the one there is, and that at most once, and no
/// option that is not a general one.
pub proof fn law_a_mount_names_one_controller(tokens: Seq<Seq<char>>, i: nat, have: bool, j: int, k: int)
    requires
        selected(tokens, i, true, have) is Ok,
        i <= j < tokens.len(),
        i <= k < tokens.len(),
    ensures
        trimmed(tokens[j]).len() == 0 || is_generic_option(trimmed(tokens[j])) || trimmed(tokens[j])
            == "pids"@,
        have ==> trimmed(tokens[j]) != "pids"@ || trimmed(tokens[j]).len() == 0 || is_generic_option(
            trimmed(tokens[j]),
        ),
        j < k && trimmed(tokens[j]) == "pids"@ ==> trimmed(tokens[k]) != "pids"@,
    decreases tokens.len() - i,
{
    reveal_strlit("pids");
    reveal_strlit("none");
    reveal_strlit("cgroup");
    reveal_strlit("rw");
    reveal_strlit("ro");
    reveal_strlit("relatime");
    reveal_strlit("nosuid");
    reveal_strlit("nodev");
    reveal_strlit("noexec");
    assert(!is_generic_option("pids"@)) by {
        assert("pids"@[0] == 'p' && "none"@[0] == 'n');
        assert("pids"@.len() == 4);
    }
    let token = trimmed(tokens[i as int]);
    let next = if !(token.len() == 0 || is_generic_option(token)) && token == "pids"@ && !have {
        true
    } else {
        have
    };
    assert(selected(tokens, i + 1, true, next) is Ok);
    if i < j {
        if i < k {
            law_a_mount_names_one_controller(tokens, i + 1, next, j, k);
        } else {
            law_a_mount_names_one_controller(tokens, i + 1, next, j, j);
        }
    } else if i < k {
        law_a_mount_names_one_controller(tokens, i + 1, next, k, k);
    }
}

/// A version-one mount that is taken has exactly the one controller there is.
pub proof fn law_a_mount_gets_the_controller_there_is(source: Seq<char>, data: Seq<char>)
    ensures
        v1_controllers(source, data) matches Ok(names) ==> names == seq!["pids"@],
        v1_controllers(source, data) is Ok ==> selected(
            crate::text::split(data, ','),
            0,
            true,
            selected(crate::text::split(source, ','), 0, false, false)->Ok_0,
        ) is Ok,
{
}

/// Names are joined in their order with one separator between two of them and none around them.
pub proof fn law_names_are_joined_in_order(names: Seq<String>, by: char, n: nat)
    requires
        0 < n < names.len(),
    ensures
        joined(names, by, 0) == Seq::<char>::empty(),
        joined(names, by, 1) == names[0]@,
        joined(names, by, n + 1) == joined(names, by, n) + seq![by] + names[n as int]@,
{
    assert(joined(names, by, n + 1) =~= joined(names, by, n) + seq![by] + names[n as int]@);
}

proof fn common_fits(a: Seq<int>, b: Seq<int>)
    ensures
        common(a, b) <= a.len(),
        common(a, b) <= b.len(),
    decreases a.len(),
{
    if a.len() > 0 && b.len() > 0 && a[a.len() - 1] == b[b.len() - 1] {
        common_fits(a.subrange(0, a.len() - 1), b.subrange(0, b.len() - 1));
    }
}

proof fn common_with_itself(a: Seq<int>)
    ensures
        common(a, a) == a.len(),
    decreases a.len(),
{
    if a.len() > 0 {
        common_with_itself(a.subrange(0, a.len() - 1));
    }
}

proof fn common_of_longer(x: int, a: Seq<int>, b: Seq<int>)
    requires
        !b.contains(x),
    ensures
        common(seq![x] + a, b) == common(a, b),
    decreases a.len(),
{
    let longer = seq![x] + a;
    if a.len() > 0 {
        assert(longer[longer.len() - 1] == a[a.len() - 1]);
        if b.len() > 0 && a[a.len() - 1] == b[b.len() - 1] {
            let shorter = b.subrange(0, b.len() - 1);
            assert(!shorter.contains(x)) by {
                if shorter.contains(x) {
                    let i = choose|i: int| 0 <= i < shorter.len() && shorter[i] == x;
                    assert(b[i] == x);
                }
            }
            common_of_longer(x, a.subrange(0, a.len() - 1), shorter);
            assert(longer.subrange(0, longer.len() - 1) =~= seq![x] + a.subrange(0, a.len() - 1));
        }
    } else if b.len() > 0 {
        assert(longer[0] == x);
        assert(b[b.len() - 1] != x);
    }
}

proof fn common_of_suffix(x: int, a: Seq<int>)
    ensures
        common(a, seq![x] + a) == a.len(),
    decreases a.len(),
{
    let longer = seq![x] + a;
    if a.len() > 0 {
        assert(longer[longer.len() - 1] == a[a.len() - 1]);
        common_of_suffix(x, a.subrange(0, a.len() - 1));
        assert(longer.subrange(0, longer.len() - 1) =~= seq![x] + a.subrange(0, a.len() - 1));
    }
}

proof fn downs_of_longer(ds: Seq<DirView>, held: Seq<bool>, x: int, a: Seq<int>, n: nat)
    requires
        n <= a.len(),
        entry_name(ds, held, x).len() > 0,
    ensures
        downs(ds, held, seq![x] + a, n + 1) == downs(ds, held, a, n) + entry_name(ds, held, x).push(47u8),
    decreases n,
{
    let longer = seq![x] + a;
    let name = entry_name(ds, held, x);
    if n > 0 {
        downs_of_longer(ds, held, x, a, (n - 1) as nat);
        assert(longer[n as int] == a[n - 1]);
        assert(downs(ds, held, longer, n + 1) =~= downs(ds, held, a, n) + name.push(47u8));
    } else {
        assert(longer[0] == x);
        assert(downs(ds, held, longer, 0) =~= Seq::<u8>::empty());
        assert(downs(ds, held, longer, 1) =~= downs(ds, held, a, 0) + name.push(47u8));
    }
}

proof fn path_front_ends_with_a_slash(ds: Seq<DirView>, held: Seq<bool>, u: nat, a: Seq<int>, n: nat)
    ensures
        ({
            let front = seq![47u8] + ups(u) + downs(ds, held, a, n);
            front[front.len() - 1] == 47u8
        }),
    decreases u + n,
{
    let front = seq![47u8] + ups(u) + downs(ds, held, a, n);
    if n > 0 {
        let name = entry_name(ds, held, a[n - 1]);
        let rest = downs(ds, held, a, (n - 1) as nat);
        if rest.len() > 0 {
            path_front_ends_with_a_slash(ds, held, u, a, (n - 1) as nat);
            let shorter = seq![47u8] + ups(u) + rest;
            assert(shorter[shorter.len() - 1] == rest[rest.len() - 1]);
            assert(front[front.len() - 1] == rest[rest.len() - 1]);
        } else if name.len() > 0 {
            assert(downs(ds, held, a, n) =~= name.push(47u8));
        } else {
            path_front_ends_with_a_slash(ds, held, u, a, (n - 1) as nat);
            assert(downs(ds, held, a, n) =~= rest);
        }
    } else {
        assert(downs(ds, held, a, 0) =~= Seq::<u8>::empty());
        if u > 0 {
            assert(ups(u) =~= ups((u - 1) as nat) + seq![46u8, 46u8, 47u8]);
        } else {
            assert(ups(0) =~= Seq::<u8>::empty());
        }
    }
}

/// A directory is a slash as seen from itself.
pub proof fn law_the_root_of_a_view_is_a_slash(ds: Seq<DirView>, held: Seq<bool>, root: int)
    ensures
        relative_path(ds, held, root, root) == seq![47u8],
{
    let walk = chain(ds, root, ds.len());
    common_with_itself(walk);
    assert(ups(0) =~= Seq::<u8>::empty());
    assert(downs(ds, held, walk, 0) =~= Seq::<u8>::empty());
    assert(seq![47u8] + ups(0) + downs(ds, held, walk, 0) =~= seq![47u8]);
}

proof fn walk_of_a_child(ds: Seq<DirView>, c: int, p: int)
    requires
        parent_of(ds, c) == Some(p),
        ds.len() > 0,
        ends(ds, c, ds.len()),
    ensures
        chain(ds, c, ds.len()) == seq![c] + chain(ds, p, ds.len()),
{
    let n = ds.len();
    assert(ends(ds, p, (n - 1) as nat));
    chain_settles(ds, p, (n - 1) as nat, n);
}

proof fn chain_settles(ds: Seq<DirView>, x: int, k: nat, more: nat)
    requires
        ends(ds, x, k),
        k <= more,
    ensures
        chain(ds, x, k) == chain(ds, x, more),
    decreases k,
{
    if let Some(p) = parent_of(ds, x) {
        chain_settles(ds, p, (k - 1) as nat, (more - 1) as nat);
    }
}

/// The path of a directory is the path of its parent, a slash and its name, as long as the view's
/// root is not the directory or below it.
pub proof fn law_a_path_goes_down_by_names(
    ds: Seq<DirView>,
    held: Seq<bool>,
    c: int,
    p: int,
    root: int,
)
    requires
        ds.len() > 0,
        parent_of(ds, c) == Some(p),
        ends(ds, c, ds.len()),
        !chain(ds, root, ds.len()).contains(c),
        0 <= c < held.len() && held[c],
        ds[c].name.len() > 0,
        ds[c].name[ds[c].name.len() - 1] != 47u8,
    ensures
        ({
            let above = relative_path(ds, held, p, root);
            relative_path(ds, held, c, root) == (if above == seq![47u8] {
                above
            } else {
                above.push(47u8)
            }) + ds[c].name
        }),
{
    let up = chain(ds, root, ds.len());
    let walk = chain(ds, p, ds.len());
    let longer = chain(ds, c, ds.len());
    walk_of_a_child(ds, c, p);
    common_of_longer(c, walk, up);
    common_fits(walk, up);
    let shared = common(walk, up);
    let u = (up.len() - shared) as nat;
    let n = (walk.len() - shared) as nat;
    downs_of_longer(ds, held, c, walk, n);
    path_front_ends_with_a_slash(ds, held, u, walk, n);
    let front = seq![47u8] + ups(u) + downs(ds, held, walk, n);
    let name = ds[c].name;
    let whole = seq![47u8] + ups(u) + downs(ds, held, longer, n + 1);
    assert(whole =~= front + name.push(47u8));
    assert(whole[whole.len() - 1] == 47u8);
    assert(closed(whole) =~= front + name);
    let above = closed(front);
    if front.len() > 1 {
        assert(above.push(47u8) =~= front);
        if above == seq![47u8] {
            downs_or_ups_have_no_double_slash(ds, held, u, walk, n);
        }
    } else {
        assert(front =~= seq![47u8]);
    }
}

proof fn downs_or_ups_have_no_double_slash(
    ds: Seq<DirView>,
    held: Seq<bool>,
    u: nat,
    a: Seq<int>,
    n: nat,
)
    ensures
        ({
            let front = seq![47u8] + ups(u) + downs(ds, held, a, n);
            front.len() != 2
        }),
    decreases n,
{
    let front = seq![47u8] + ups(u) + downs(ds, held, a, n);
    ups_len(u);
    downs_len(ds, held, a, n);
}

proof fn ups_len(u: nat)
    ensures
        ups(u).len() == 3 * u,
    decreases u,
{
    if u > 0 {
        ups_len((u - 1) as nat);
    }
}

proof fn downs_len(ds: Seq<DirView>, held: Seq<bool>, a: Seq<int>, n: nat)
    ensures
        downs(ds, held, a, n).len() != 1,
    decreases n,
{
    if n > 0 {
        downs_len(ds, held, a, (n - 1) as nat);
    }
}

/// The parent of a view's root is one step up.
pub proof fn law_above_the_root_is_a_step_up(ds: Seq<DirView>, held: Seq<bool>, root: int, p: int)
    requires
        ds.len() > 0,
        parent_of(ds, root) == Some(p),
        ends(ds, root, ds.len()),
    ensures
        relative_path(ds, held, p, root) == seq![47u8, 46u8, 46u8],
{
    let down = chain(ds, p, ds.len());
    walk_of_a_child(ds, root, p);
    common_of_suffix(root, down);
    assert(ups(0) =~= Seq::<u8>::empty());
    assert(ups(1) =~= seq![46u8, 46u8, 47u8]);
    assert(downs(ds, held, down, 0) =~= Seq::<u8>::empty());
    let whole = seq![47u8] + ups(1) + downs(ds, held, down, 0);
    assert(whole =~= seq![47u8, 46u8, 46u8, 47u8]);
    assert(closed(whole) =~= seq![47u8, 46u8, 46u8]);
}

/// A membership in the unified hierarchy is shown under number zero and without controllers, one in
/// another under number one with its controllers; then comes the path from the root that the
/// namespace shows of that hierarchy, and the end of the line.
pub proof fn law_a_membership_is_one_line(
    hs: Seq<Hierarchy>,
    ds: Seq<DirView>,
    held: Seq<bool>,
    roots: Seq<usize>,
    found: Seq<(usize, usize)>,
    n: nat,
)
    requires
        n < found.len(),
    ensures
        ({
            let h = found[n as int].0 as int;
            let dir = found[n as int].1 as int;
            let root = if h < roots.len() {
                roots[h]
            } else {
                hs[h].root
            };
            let path = relative_path(ds, held, dir, root as int);
            let line = if hs[h].version == CgroupVersion::V2 {
                seq![48u8, 58u8, 58u8] + path + seq![10u8]
            } else {
                seq![49u8, 58u8] + encode_utf8(
                    joined(hs[h].controllers@, ',', hs[h].controllers@.len()),
                ) + seq![58u8] + path + seq![10u8]
            };
            membership_lines(hs, ds, held, roots, found, n + 1) == membership_lines(
                hs,
                ds,
                held,
                roots,
                found,
                n,
            ) + line
        }),
{
    reveal_strlit("0::");
    reveal_strlit("1:");
    reveal_strlit(":");
    assert(vstd::utf8::is_ascii_chars("0::"@));
    assert(vstd::utf8::is_ascii_chars("1:"@));
    assert(vstd::utf8::is_ascii_chars(":"@));
    vstd::utf8::is_ascii_chars_encode_utf8("0::"@);
    vstd::utf8::is_ascii_chars_encode_utf8("1:"@);
    vstd::utf8::is_ascii_chars_encode_utf8(":"@);
    assert(encode_utf8("0::"@) =~= seq![48u8, 58u8, 58u8]);
    assert(encode_utf8("1:"@) =~= seq![49u8, 58u8]);
    assert(encode_utf8(":"@) =~= seq![58u8]);
    let h = found[n as int].0 as int;
    let path = relative_path(ds, held, found[n as int].1 as int, shown_root(hs, roots, h) as int);
    if hs[h].version == CgroupVersion::V2 {
        assert(membership_line(hs, ds, held, roots, h, found[n as int].1 as int) =~= seq![
            48u8,
            58u8,
            58u8,
        ] + path + seq![10u8]);
    } else {
        assert(membership_line(hs, ds, held, roots, h, found[n as int].1 as int) =~= seq![
            49u8,
            58u8,
        ] + encode_utf8(joined(hs[h].controllers@, ',', hs[h].controllers@.len())) + seq![58u8] + path
            + seq![10u8]);
    }
}

} // verus!
