//! What the inodes of directories and control files say.

use vstd::prelude::*;
use crate::cgroup::files::{control_files, visible, ControlFile};
use crate::cgroup::forest::{updated, DirView, Forest, Hierarchy, MetadataUpdate, NodeMetadata};
use crate::cgroup::rename::counts_keep_wf;
use crate::error::Error;

verus! {

/// The number of a control file, in the order of their identities.
pub open spec fn file_number(file: ControlFile) -> int {
    match file {
        ControlFile::Tasks => 0,
        ControlFile::Procs => 1,
        ControlFile::Controllers => 2,
        ControlFile::SubtreeControl => 3,
        ControlFile::Events => 4,
        ControlFile::Type => 5,
        ControlFile::Freeze => 6,
        ControlFile::Kill => 7,
        ControlFile::PidsMax => 8,
        ControlFile::PidsCurrent => 9,
        ControlFile::PidsEvents => 10,
        ControlFile::PidsPeak => 11,
        ControlFile::UclampMin => 12,
        ControlFile::UclampMax => 13,
    }
}

/// Why nothing is said of a control file: its directory was let go, or the file cannot
/// be seen.
pub open spec fn file_error(
    hs: Seq<Hierarchy>,
    ds: Seq<DirView>,
    x: int,
    file: ControlFile,
) -> Option<Error> {
    if !ds[x].live {
        Some(Error::InvalidInput)
    } else if !visible(hs, ds, x, file) {
        Some(Error::NotFound)
    } else {
        None
    }
}

/// The directories after the inode of a control file changed.
pub open spec fn file_changed(
    ds: Seq<DirView>,
    x: int,
    file: ControlFile,
    update: MetadataUpdate,
    now: u64,
) -> Seq<DirView> {
    let at = file_number(file);
    ds.update(
        x,
        DirView { files: ds[x].files.update(at, updated(ds[x].files[at], update, now)), ..ds[x] },
    )
}

impl ControlFile {
    /// The number of a control file, in the order of their identities.
    pub fn number(self) -> (number: usize)
        ensures
            number == file_number(self),
            number < 14,
            control_files()[number as int] == self,
    {
        match self {
            ControlFile::Tasks => 0,
            ControlFile::Procs => 1,
            ControlFile::Controllers => 2,
            ControlFile::SubtreeControl => 3,
            ControlFile::Events => 4,
            ControlFile::Type => 5,
            ControlFile::Freeze => 6,
            ControlFile::Kill => 7,
            ControlFile::PidsMax => 8,
            ControlFile::PidsCurrent => 9,
            ControlFile::PidsEvents => 10,
            ControlFile::PidsPeak => 11,
            ControlFile::UclampMin => 12,
            ControlFile::UclampMax => 13,
        }
    }
}

/// The size that a control file is shown with: that of its text, and none where it
/// cannot be read.
pub fn shown_size(text: &Result<Vec<u8>, Error>) -> (size: u64)
    ensures
        size == (match *text {
            Ok(bytes) => bytes@.len(),
            Err(_) => 0,
        }),
{
    match text {
        Ok(bytes) => bytes.len() as u64,
        Err(_) => 0,
    }
}

impl Forest {
    fn check_file(&self, x: usize, file: ControlFile) -> (error: Option<Error>)
        requires
            self.indexed(),
            x < self@.len(),
        ensures
            error == file_error(self.hierarchies@, self@, x as int, file),
    {
        assert(self.dirs@[x as int]@ == self@[x as int]);
        if !self.dirs[x].live {
            Some(Error::InvalidInput)
        } else if !self.control_file_visible(x, file) {
            Some(Error::NotFound)
        } else {
            None
        }
    }

    /// What the inode of a control file says.
    pub fn file_metadata(&self, x: usize, file: ControlFile) -> (result: Result<NodeMetadata, Error>)
        requires
            self.indexed(),
            x < self@.len(),
        ensures
            result == (match file_error(self.hierarchies@, self@, x as int, file) {
                Some(error) => Err(error),
                None => Ok(self@[x as int].files[file_number(file)]),
            }),
    {
        if let Some(error) = self.check_file(x, file) {
            return Err(error);
        }
        assert(self.dirs@[x as int]@ == self@[x as int]);
        Ok(self.dirs[x].files[file.number()])
    }

    /// Change what the inode of a control file says.
    pub fn update_file_metadata(
        &mut self,
        x: usize,
        file: ControlFile,
        update: MetadataUpdate,
        now: u64,
    ) -> (result: Result<(), Error>)
        requires
            old(self).wf(),
            x < old(self)@.len(),
        ensures
            final(self).wf(),
            final(self).hierarchies == old(self).hierarchies,
            match (file_error(old(self).hierarchies@, old(self)@, x as int, file), result) {
                (None, Ok(())) => final(self)@ == file_changed(
                    old(self)@,
                    x as int,
                    file,
                    update,
                    now,
                ),
                (Some(expected), Err(error)) => error == expected && final(self)@ == old(self)@,
                _ => false,
            },
    {
        if let Some(error) = self.check_file(x, file) {
            return Err(error);
        }
        let ghost before = *self;
        assert(self.dirs@[x as int]@ == self@[x as int]);
        let at: usize = file.number();
        let mut files: [NodeMetadata; 14] = self.dirs[x].files;
        let mut metadata: NodeMetadata = files[at];
        metadata.update(update, now);
        files[at] = metadata;
        self.dirs[x].files = files;
        assert(self@ =~= file_changed(before@, x as int, file, update, now));
        proof {
            counts_keep_wf(before, *self);
        }
        Ok(())
    }

    /// Change what the inode of a directory says.
    pub fn update_metadata(&mut self, x: usize, update: MetadataUpdate, now: u64)
        requires
            old(self).wf(),
            x < old(self)@.len(),
        ensures
            final(self).wf(),
            final(self).hierarchies == old(self).hierarchies,
            final(self)@ == old(self)@.update(
                x as int,
                DirView {
                    metadata: updated(old(self)@[x as int].metadata, update, now),
                    ..old(self)@[x as int]
                },
            ),
    {
        let ghost before = *self;
        assert(self.dirs@[x as int]@ == self@[x as int]);
        let mut metadata: NodeMetadata = self.dirs[x].metadata;
        metadata.update(update, now);
        self.dirs[x].metadata = metadata;
        assert(self@ =~= before@.update(
            x as int,
            DirView { metadata: updated(before@[x as int].metadata, update, now), ..before@[x as int] },
        ));
        proof {
            counts_keep_wf(before, *self);
        }
    }
}

} // verus!
