//! The control file system: a directory for each mount, with the state of its connection
//! and the limits that may be changed.

use vstd::prelude::*;
use vstd::utf8::encode_utf8;
use crate::bytes::same_bytes;
use crate::error::Error;
use crate::fuse::connection::{aborted, Connection, ConnectionView};
use crate::fuse::mounts::{connection_of, is_mounted, MountTable};
use crate::fuse::request::{request_views, RequestState, RequestView};
use crate::fuse::wire::FuseInit;
use crate::text::{as_chars, decimal, decimal_is_digits, digits_value, is_digit,
    more_digits_are_no_less, number, parse_number, push_decimal, text_chars, text_of, trim,
    trimmed};

verus! {

/// The type number of the control file system.
pub const FUSECTL_MAGIC: u64 = 0x6573_5543;

/// The mount that a directory's name stands for.
pub open spec fn named_mount(name: Seq<u8>) -> Option<u64> {
    if (forall|i: int| 0 <= i < name.len() ==> is_digit(#[trigger] as_chars(name)[i]))
        && digits_value(as_chars(name)) <= u64::MAX {
        Some(digits_value(as_chars(name)) as u64)
    } else {
        None
    }
}

/// Read the name of a mount's directory.
pub fn parse_mount_name(name: &[u8]) -> (mount: Option<u64>)
    ensures
        mount == named_mount(name@),
{
    let ghost chars = as_chars(name@);
    let mut value: u64 = 0;
    let mut i: usize = 0;
    assert(chars.subrange(0, 0) =~= Seq::empty());
    while i < name.len()
        invariant
            i <= name@.len(),
            chars == as_chars(name@),
            value == digits_value(chars.subrange(0, i as int)),
            forall|j: int| 0 <= j < i ==> is_digit(#[trigger] chars[j]),
        decreases name@.len() - i,
    {
        let byte: u8 = name[i];
        assert(chars[i as int] == byte as char);
        if byte < 48 || byte > 57 {
            assert(!is_digit(chars[i as int]));
            return None;
        }
        let ghost done = chars.subrange(0, i + 1);
        assert(done.subrange(0, done.len() - 1) =~= chars.subrange(0, i as int));
        let next: u128 = value as u128 * 10 + (byte - 48) as u128;
        assert(next == digits_value(done));
        if next > u64::MAX as u128 {
            proof {
                more_digits_are_no_less(chars, i + 1);
            }
            return None;
        }
        value = next as u64;
        i = i + 1;
    }
    assert(chars.subrange(0, chars.len() as int) =~= chars);
    Some(value)
}

/// A mount's directory is found under its name.
pub proof fn law_mounts_are_found_under_their_names(mount: u64)
    ensures
        named_mount(decimal(mount as nat)) == Some(mount),
{
    decimal_is_digits(mount as nat);
}

impl MountTable {
    /// The names in the root directory.
    pub fn child_names(&self) -> (names: Vec<Vec<u8>>)
        ensures
            names@.len() == self@.mounts.len(),
            forall|i: int|
                0 <= i < names@.len() ==> (#[trigger] names@[i])@ == decimal(
                    self@.mounts[i].mount as nat,
                ),
    {
        let mut names: Vec<Vec<u8>> = Vec::new();
        let mut i: usize = 0;
        while i < self.mounts.len()
            invariant
                i <= self.mounts@.len(),
                names@.len() == i,
                forall|j: int|
                    0 <= j < i ==> (#[trigger] names@[j])@ == decimal(
                        self.mounts@[j].mount as nat,
                    ),
            decreases self.mounts@.len() - i,
        {
            let mut name: Vec<u8> = Vec::new();
            push_decimal(&mut name, self.mounts[i].mount as u128);
            assert(name@ =~= decimal(self.mounts@[i as int].mount as nat));
            names.push(name);
            i = i + 1;
        }
        names
    }

    /// The connection whose directory has a name.
    pub fn lookup_child(&self, name: &[u8]) -> (result: Result<u64, Error>)
        ensures
            result == (match named_mount(name@) {
                Some(mount) => if is_mounted(self@.mounts, mount) {
                    Ok(connection_of(self@.mounts, mount))
                } else {
                    Err(Error::NotFound)
                },
                None => Err(Error::NotFound),
            }),
    {
        match parse_mount_name(name) {
            Some(mount) => match self.mount_connection(mount) {
                Some(connection) => Ok(connection),
                None => Err(Error::NotFound),
            },
            None => Err(Error::NotFound),
        }
    }
}

/// A file of a connection.
#[derive(Clone, Copy, Debug, PartialEq, Eq, Structural)]
pub enum ControlFile {
    Abort,
    Connected,
    Waiting,
    Queued,
    Active,
    Congested,
    MaxBackground,
    CongestionThreshold,
}

impl ControlFile {
    pub open spec fn title(self) -> Seq<char> {
        match self {
            ControlFile::Abort => "abort"@,
            ControlFile::Connected => "connected"@,
            ControlFile::Waiting => "waiting"@,
            ControlFile::Queued => "queued"@,
            ControlFile::Active => "active"@,
            ControlFile::Congested => "congested"@,
            ControlFile::MaxBackground => "max_background"@,
            ControlFile::CongestionThreshold => "congestion_threshold"@,
        }
    }

    /// The name of a file.
    pub fn name(self) -> (name: &'static str)
        ensures
            name@ == self.title(),
    {
        match self {
            ControlFile::Abort => "abort",
            ControlFile::Connected => "connected",
            ControlFile::Waiting => "waiting",
            ControlFile::Queued => "queued",
            ControlFile::Active => "active",
            ControlFile::Congested => "congested",
            ControlFile::MaxBackground => "max_background",
            ControlFile::CongestionThreshold => "congestion_threshold",
        }
    }

    /// Where a file stands in its directory.
    pub open spec fn index(self) -> int {
        match self {
            ControlFile::Abort => 0,
            ControlFile::Connected => 1,
            ControlFile::Waiting => 2,
            ControlFile::Queued => 3,
            ControlFile::Active => 4,
            ControlFile::Congested => 5,
            ControlFile::MaxBackground => 6,
            ControlFile::CongestionThreshold => 7,
        }
    }

    /// The file that stands at a place in its directory.
    pub fn at(index: usize) -> (file: Option<ControlFile>)
        ensures
            match file {
                Some(file) => file.index() == index,
                None => index >= 8,
            },
    {
        match index {
            0 => Some(ControlFile::Abort),
            1 => Some(ControlFile::Connected),
            2 => Some(ControlFile::Waiting),
            3 => Some(ControlFile::Queued),
            4 => Some(ControlFile::Active),
            5 => Some(ControlFile::Congested),
            6 => Some(ControlFile::MaxBackground),
            7 => Some(ControlFile::CongestionThreshold),
            _ => None,
        }
    }

    /// Whether a file may be written.
    pub open spec fn writable(self) -> bool {
        self is Abort || self is MaxBackground || self is CongestionThreshold
    }

    /// Whether a file may be written.
    pub fn is_writable(self) -> (writable: bool)
        ensures
            writable == self.writable(),
    {
        match self {
            ControlFile::Abort => true,
            ControlFile::MaxBackground => true,
            ControlFile::CongestionThreshold => true,
            _ => false,
        }
    }
}

/// The names of files are apart.
pub proof fn law_control_files_have_names_of_their_own(a: ControlFile, b: ControlFile)
    requires
        a.title() == b.title(),
    ensures
        a == b,
{
    reveal_strlit("abort");
    reveal_strlit("connected");
    reveal_strlit("waiting");
    reveal_strlit("queued");
    reveal_strlit("active");
    reveal_strlit("congested");
    reveal_strlit("max_background");
    reveal_strlit("congestion_threshold");
    assert("abort"@.len() == 5 && "connected"@.len() == 9 && "waiting"@.len() == 7 && "queued"@.len()
        == 6 && "active"@.len() == 6 && "congested"@.len() == 9 && "max_background"@.len() == 14
        && "congestion_threshold"@.len() == 20);
    assert("queued"@[0] == 'q' && "active"@[0] == 'a');
    assert("connected"@[3] == 'n' && "congested"@[3] == 'g');
}

/// Look up a file of a connection.
pub fn lookup_control_file(name: &[u8]) -> (result: Result<ControlFile, Error>)
    ensures
        match result {
            Ok(file) => name@ == encode_utf8(file.title()),
            Err(error) => error == Error::NotFound && forall|file: ControlFile|
                name@ != encode_utf8(#[trigger] file.title()),
        },
{
    let mut i: usize = 0;
    while i < 8
        invariant
            i <= 8,
            forall|file: ControlFile|
                file.index() < i ==> name@ != encode_utf8(#[trigger] file.title()),
        decreases 8 - i,
    {
        if let Some(file) = ControlFile::at(i) {
            if same_bytes(name, file.name().as_bytes()) {
                return Ok(file);
            }
            assert forall|other: ControlFile| other.index() < i + 1 implies name@ != encode_utf8(
                #[trigger] other.title(),
            ) by {
                if other.index() == i {
                    assert(other == file);
                }
            }
        }
        i = i + 1;
    }
    Err(Error::NotFound)
}

/// How many requests satisfy `p`.
pub open spec fn count(requests: Seq<RequestView>, p: spec_fn(RequestView) -> bool) -> nat
    decreases requests.len(),
{
    if requests.len() == 0 {
        0
    } else {
        count(requests.drop_last(), p) + if p(requests.last()) {
            1nat
        } else {
            0nat
        }
    }
}

/// A request that the daemon has not read, and that a reply is owed to.
pub open spec fn is_queued() -> spec_fn(RequestView) -> bool {
    |r: RequestView| r.expects_reply && r.state == RequestState::Queued
}

/// A request that the daemon has.
pub open spec fn is_active() -> spec_fn(RequestView) -> bool {
    |r: RequestView| r.state == RequestState::Delivered
}

/// A request that somebody waits for.
pub open spec fn is_waiting() -> spec_fn(RequestView) -> bool {
    |r: RequestView|
        r.expects_reply && (r.state == RequestState::Queued || r.state == RequestState::Delivered)
}

/// The state of a connection, as it is shown.
#[derive(Clone, Copy, Debug, PartialEq, Eq, Structural)]
pub struct ControlValues {
    pub connected: bool,
    pub waiting: usize,
    pub queued: usize,
    pub active: usize,
    pub congested: bool,
    pub max_background: u16,
    pub congestion_threshold: u16,
}

pub open spec fn background_of(init: Option<FuseInit>) -> u16 {
    match init {
        Some(init) => init.max_background,
        None => 0,
    }
}

pub open spec fn threshold_of(init: Option<FuseInit>) -> u16 {
    match init {
        Some(init) => init.congestion_threshold,
        None => 0,
    }
}

/// The state of a connection, as it is shown.
pub open spec fn control_values(v: ConnectionView) -> ControlValues {
    ControlValues {
        connected: !v.dead,
        waiting: count(v.requests, is_waiting()) as usize,
        queued: count(v.requests, is_queued()) as usize,
        active: count(v.requests, is_active()) as usize,
        congested: threshold_of(v.init) != 0 && count(v.requests, is_active()) >= threshold_of(
            v.init,
        ),
        max_background: background_of(v.init),
        congestion_threshold: threshold_of(v.init),
    }
}

pub proof fn count_is_bounded(requests: Seq<RequestView>, p: spec_fn(RequestView) -> bool)
    ensures
        count(requests, p) <= requests.len(),
    decreases requests.len(),
{
    if requests.len() > 0 {
        count_is_bounded(requests.drop_last(), p);
    }
}

/// The number that a file shows.
pub open spec fn shown(file: ControlFile, values: ControlValues) -> nat {
    match file {
        ControlFile::Abort => if values.connected {
            0
        } else {
            1
        },
        ControlFile::Connected => if values.connected {
            1
        } else {
            0
        },
        ControlFile::Waiting => values.waiting as nat,
        ControlFile::Queued => values.queued as nat,
        ControlFile::Active => values.active as nat,
        ControlFile::Congested => if values.congested {
            1
        } else {
            0
        },
        ControlFile::MaxBackground => values.max_background as nat,
        ControlFile::CongestionThreshold => values.congestion_threshold as nat,
    }
}

/// The limit that a text writes.
pub open spec fn limit_of(data: Seq<u8>) -> Option<u16> {
    match text_of(data) {
        Some(text) => match number(trimmed(text), u16::MAX as nat) {
            Some(n) => Some(n as u16),
            None => None,
        },
        None => None,
    }
}

/// The result of a change of a limit, and the connection after it.  The threshold is
/// never over the other limit.
pub open spec fn limited(v: ConnectionView, background: bool, value: u16) -> (
    Result<(), Error>,
    ConnectionView,
) {
    match v.init {
        None => (Err(Error::InvalidInput), v),
        Some(init) => if background {
            (
                Ok(()),
                ConnectionView {
                    init: Some(
                        FuseInit {
                            max_background: value,
                            congestion_threshold: if init.congestion_threshold > value {
                                value
                            } else {
                                init.congestion_threshold
                            },
                            ..init
                        },
                    ),
                    ..v
                },
            )
        } else if value > init.max_background {
            (Err(Error::InvalidInput), v)
        } else {
            (
                Ok(()),
                ConnectionView {
                    init: Some(FuseInit { congestion_threshold: value, ..init }),
                    ..v
                },
            )
        },
    }
}

/// The result of a write, and the connection after it.
pub open spec fn control_written(v: ConnectionView, file: ControlFile, data: Seq<u8>) -> (
    Result<(), Error>,
    ConnectionView,
) {
    match file {
        ControlFile::Abort => (Ok(()), aborted(v)),
        _ => match limit_of(data) {
            Some(value) => limited(v, file is MaxBackground, value),
            None => (Err(Error::InvalidInput), v),
        },
    }
}

/// A limit that was set is what is then shown.
pub proof fn law_a_limit_that_is_set_is_shown(v: ConnectionView, background: bool, value: u16)
    requires
        limited(v, background, value).0 is Ok,
    ensures
        shown(
            if background {
                ControlFile::MaxBackground
            } else {
                ControlFile::CongestionThreshold
            },
            control_values(limited(v, background, value).1),
        ) == value,
{
}

/// A change of the limits keeps the threshold within the other one.
pub proof fn law_the_threshold_stays_within(v: ConnectionView, background: bool, value: u16)
    requires
        threshold_of(v.init) <= background_of(v.init),
    ensures
        ({
            let after = limited(v, background, value).1;
            threshold_of(after.init) <= background_of(after.init)
        }),
{
}

impl Connection {
    /// The state of the connection, as it is shown.
    pub fn ctl_values(&self) -> (values: ControlValues)
        ensures
            values == control_values(self@),
    {
        let ghost views = self@.requests;
        let mut waiting: usize = 0;
        let mut queued: usize = 0;
        let mut active: usize = 0;
        let mut i: usize = 0;
        assert(views.take(0) =~= Seq::<RequestView>::empty());
        while i < self.requests.len()
            invariant
                i <= self.requests@.len(),
                views == request_views(self.requests@),
                waiting == count(views.take(i as int), is_waiting()),
                queued == count(views.take(i as int), is_queued()),
                active == count(views.take(i as int), is_active()),
            decreases self.requests@.len() - i,
        {
            proof {
                assert(views.take(i as int + 1).drop_last() =~= views.take(i as int));
                assert(views.take(i as int + 1).last() == self.requests@[i as int]@);
                count_is_bounded(views.take(i as int), is_waiting());
                count_is_bounded(views.take(i as int), is_queued());
                count_is_bounded(views.take(i as int), is_active());
            }
            let request = &self.requests[i];
            if request.expects_reply && (request.state == RequestState::Queued || request.state
                == RequestState::Delivered) {
                waiting = waiting + 1;
            }
            if request.expects_reply && request.state == RequestState::Queued {
                queued = queued + 1;
            }
            if request.state == RequestState::Delivered {
                active = active + 1;
            }
            i = i + 1;
        }
        assert(views.take(i as int) =~= views);
        let (max_background, congestion_threshold): (u16, u16) = match self.init {
            Some(init) => (init.max_background, init.congestion_threshold),
            None => (0, 0),
        };
        ControlValues {
            connected: !self.dead,
            waiting,
            queued,
            active,
            congested: congestion_threshold != 0 && active >= congestion_threshold as usize,
            max_background,
            congestion_threshold,
        }
    }

    /// Change a limit.
    pub fn set_ctl_limit(&mut self, background: bool, value: u16) -> (result: Result<(), Error>)
        requires
            old(self).wf(),
        ensures
            final(self).wf(),
            (result, final(self)@) == limited(old(self)@, background, value),
    {
        let mut init: FuseInit = match self.init {
            Some(init) => init,
            None => {
                return Err(Error::InvalidInput);
            },
        };
        if background {
            init.max_background = value;
            if init.congestion_threshold > value {
                init.congestion_threshold = value;
            }
        } else if value > init.max_background {
            return Err(Error::InvalidInput);
        } else {
            init.congestion_threshold = value;
        }
        self.init = Some(init);
        Ok(())
    }

    /// The text of a control file.
    pub fn read_control(&self, file: ControlFile) -> (text: Vec<u8>)
        ensures
            text@ == decimal(shown(file, control_values(self@))).push(10u8),
    {
        let values = self.ctl_values();
        let shown: u128 = match file {
            ControlFile::Abort => if values.connected {
                0
            } else {
                1
            },
            ControlFile::Connected => if values.connected {
                1
            } else {
                0
            },
            ControlFile::Waiting => values.waiting as u128,
            ControlFile::Queued => values.queued as u128,
            ControlFile::Active => values.active as u128,
            ControlFile::Congested => if values.congested {
                1
            } else {
                0
            },
            ControlFile::MaxBackground => values.max_background as u128,
            ControlFile::CongestionThreshold => values.congestion_threshold as u128,
        };
        let mut text: Vec<u8> = Vec::new();
        push_decimal(&mut text, shown);
        text.push(10);
        assert(text@ =~= decimal(shown as nat).push(10u8));
        text
    }

    /// Write a control file.  Whatever is written to the file that cuts the connection
    /// does so.
    pub fn write_control(&mut self, file: ControlFile, data: &[u8]) -> (result: Result<(), Error>)
        requires
            old(self).wf(),
            file.writable(),
        ensures
            final(self).wf(),
            (result, final(self)@) == control_written(old(self)@, file, data@),
    {
        if let ControlFile::Abort = file {
            self.abort();
            return Ok(());
        }
        let background = match file {
            ControlFile::MaxBackground => true,
            _ => false,
        };
        match text_chars(data) {
            Some(chars) => {
                let word: Vec<char> = trim(&chars);
                match parse_number(&word, u16::MAX as u64) {
                    Some(value) => self.set_ctl_limit(background, value as u16),
                    None => Err(Error::InvalidInput),
                }
            },
            None => Err(Error::InvalidInput),
        }
    }
}

} // verus!
