//! What a new file gets before its name is published.
//!
//! The requests that make a file carry neither its owner nor its project nor its access
//! lists.  They are set one after the other, and the first failure ends it: nothing is
//! unlinked by name, because the name may lead to somebody else's file by then.

use vstd::prelude::*;
use crate::bytes::u32_at;
use crate::error::Error;
use crate::fuse::bodies::{file_attr_image, file_attr_request, inherited, inherited_attr,
    read_file_attr, setxattr_body, setxattr_request, FileAttr, XattrSetMode};
use crate::fuse::metadata::{parse_attr_out, parsed, setattr_body, setattr_request, AttributeChange};
use crate::fuse::superblock::{Node, Superblock, SuperblockView};

verus! {

/// What a new file gets.
pub struct PreparedAttributes {
    pub owner: Option<(u32, u32)>,
    pub project_id: Option<u32>,
    pub project_inherit: bool,
    pub access_acl: Option<Vec<u8>>,
    pub default_acl: Option<Vec<u8>>,
}

/// How far a new file has come.
#[derive(Clone, Copy, Debug, PartialEq, Eq, Structural)]
pub enum PreparedStage {
    Begin,
    Owner,
    ReadAttr,
    WriteAttr(FileAttr),
    AccessAcl,
    DefaultAcl,
    Finished(Option<Error>),
}

/// What a stage asks of the daemon.
pub enum PreparedRequest {
    Nothing,
    /// The body of a request that sets attributes.
    SetAttr(Vec<u8>),
    /// The file's flags and limits are to be read.
    ReadAttr,
    /// The image of the flags and limits that are to be set.
    WriteAttr(Vec<u8>),
    /// The body of a request that sets an extended attribute.
    SetXattr(Vec<u8>),
}

/// The first of the stages from the one with number `from` on that is asked for: the
/// owner, the project, and the two access lists.
pub open spec fn stage_from(options: PreparedAttributes, from: int) -> PreparedStage {
    if from <= 0 && options.owner is Some {
        PreparedStage::Owner
    } else if from <= 1 && (options.project_id is Some || options.project_inherit) {
        PreparedStage::ReadAttr
    } else if from <= 2 && options.access_acl is Some {
        PreparedStage::AccessAcl
    } else if from <= 3 && options.default_acl is Some {
        PreparedStage::DefaultAcl
    } else {
        PreparedStage::Finished(None)
    }
}

/// The flags and limits in an image.
pub open spec fn attr_in(image: Seq<u8>) -> FileAttr {
    FileAttr {
        xflags: u32_at(image, 0) as u64,
        extsize: u32_at(image, 4),
        nextents: u32_at(image, 8),
        project_id: u32_at(image, 12),
        cowextsize: u32_at(image, 16),
    }
}

/// The stage after one was answered.  A failure ends it.  Nothing is asked before the
/// first stage, so that no answer matters there.
pub open spec fn stage_after(
    options: PreparedAttributes,
    stage: PreparedStage,
    answer: Result<Seq<u8>, Error>,
) -> PreparedStage {
    match (stage, answer) {
        (PreparedStage::Finished(_), _) => stage,
        (PreparedStage::Begin, _) => stage_from(options, 0),
        (_, Err(error)) => PreparedStage::Finished(Some(error)),
        (PreparedStage::Owner, Ok(reply)) => match parsed(reply, 16) {
            Err(error) => PreparedStage::Finished(Some(error)),
            Ok(_) => stage_from(options, 1),
        },
        (PreparedStage::ReadAttr, Ok(image)) => if image.len() < 20 {
            PreparedStage::Finished(Some(Error::Io))
        } else {
            PreparedStage::WriteAttr(
                inherited(attr_in(image), options.project_id, options.project_inherit),
            )
        },
        (PreparedStage::WriteAttr(_), Ok(_)) => stage_from(options, 2),
        (PreparedStage::AccessAcl, Ok(_)) => stage_from(options, 3),
        (PreparedStage::DefaultAcl, Ok(_)) => PreparedStage::Finished(None),
    }
}

/// The file system after a stage was answered: a new owner comes with what the file now
/// is.
pub open spec fn owned(
    s: SuperblockView,
    at: int,
    stage: PreparedStage,
    answer: Result<Seq<u8>, Error>,
) -> SuperblockView {
    if stage == PreparedStage::Owner && answer is Ok && parsed(answer->Ok_0, 16) is Ok {
        SuperblockView {
            nodes: s.nodes.update(
                at,
                Node {
                    metadata: parsed(answer->Ok_0, 16)->Ok_0,
                    metadata_valid: true,
                    ..s.nodes[at]
                },
            ),
            ..s
        }
    } else {
        s
    }
}

fn next_stage(options: &PreparedAttributes, from: u8) -> (stage: PreparedStage)
    ensures
        stage == stage_from(*options, from as int),
{
    if from == 0 && options.owner.is_some() {
        PreparedStage::Owner
    } else if from <= 1 && (options.project_id.is_some() || options.project_inherit) {
        PreparedStage::ReadAttr
    } else if from <= 2 && options.access_acl.is_some() {
        PreparedStage::AccessAcl
    } else if from <= 3 && options.default_acl.is_some() {
        PreparedStage::DefaultAcl
    } else {
        PreparedStage::Finished(None)
    }
}

/// What a stage asks of the daemon, under the names that the access lists have.
pub fn prepared_request(
    options: &PreparedAttributes,
    stage: PreparedStage,
    access_name: &[u8],
    default_name: &[u8],
) -> (request: PreparedRequest)
    ensures
        match stage {
            PreparedStage::Begin | PreparedStage::Finished(_) => request is Nothing,
            PreparedStage::Owner => request matches PreparedRequest::SetAttr(body) && body@
                == setattr_body(
                AttributeChange {
                    fh: None,
                    mode: None,
                    owner: options.owner,
                    atime: None,
                    mtime: None,
                },
            ),
            PreparedStage::ReadAttr => request is ReadAttr,
            PreparedStage::WriteAttr(attr) => request matches PreparedRequest::WriteAttr(image)
                && image@ == file_attr_image(attr),
            PreparedStage::AccessAcl => match options.access_acl {
                Some(acl) => request matches PreparedRequest::SetXattr(body) && body@
                    == setxattr_body(0, access_name@, acl@),
                None => request is Nothing,
            },
            PreparedStage::DefaultAcl => match options.default_acl {
                Some(acl) => request matches PreparedRequest::SetXattr(body) && body@
                    == setxattr_body(0, default_name@, acl@),
                None => request is Nothing,
            },
        },
{
    match stage {
        PreparedStage::Begin => PreparedRequest::Nothing,
        PreparedStage::Finished(_) => PreparedRequest::Nothing,
        PreparedStage::Owner => PreparedRequest::SetAttr(
            setattr_request(
                AttributeChange {
                    fh: None,
                    mode: None,
                    owner: options.owner,
                    atime: None,
                    mtime: None,
                },
            ),
        ),
        PreparedStage::ReadAttr => PreparedRequest::ReadAttr,
        PreparedStage::WriteAttr(attr) => PreparedRequest::WriteAttr(file_attr_request(attr)),
        PreparedStage::AccessAcl => match &options.access_acl {
            Some(acl) => PreparedRequest::SetXattr(
                setxattr_request(XattrSetMode::Upsert.flags(), access_name, acl.as_slice()),
            ),
            None => PreparedRequest::Nothing,
        },
        PreparedStage::DefaultAcl => match &options.default_acl {
            Some(acl) => PreparedRequest::SetXattr(
                setxattr_request(XattrSetMode::Upsert.flags(), default_name, acl.as_slice()),
            ),
            None => PreparedRequest::Nothing,
        },
    }
}

/// What is said of the answer to a stage.
pub open spec fn answer_view(answer: Result<Vec<u8>, Error>) -> Result<Seq<u8>, Error> {
    match answer {
        Ok(data) => Ok(data@),
        Err(error) => Err(error),
    }
}

impl Superblock {
    /// Go on with the new file at `at`, after a stage was answered.
    pub fn prepare_further(
        &mut self,
        at: usize,
        options: &PreparedAttributes,
        stage: PreparedStage,
        answer: Result<Vec<u8>, Error>,
    ) -> (next: PreparedStage)
        requires
            old(self).wf(),
            at < old(self)@.nodes.len(),
        ensures
            final(self).wf(),
            next == stage_after(*options, stage, answer_view(answer)),
            final(self)@ == owned(old(self)@, at as int, stage, answer_view(answer)),
    {
        let data: Vec<u8> = match answer {
            Ok(data) => data,
            Err(error) => {
                return match stage {
                    PreparedStage::Finished(_) => stage,
                    PreparedStage::Begin => next_stage(options, 0),
                    _ => PreparedStage::Finished(Some(error)),
                };
            },
        };
        match stage {
            PreparedStage::Begin => next_stage(options, 0),
            PreparedStage::Finished(_) => stage,
            PreparedStage::Owner => match parse_attr_out(data.as_slice()) {
                Err(error) => PreparedStage::Finished(Some(error)),
                Ok(metadata) => {
                    let mut node: Node = self.nodes[at];
                    node.metadata = metadata;
                    node.metadata_valid = true;
                    self.nodes.set(at, node);
                    next_stage(options, 1)
                },
            },
            PreparedStage::ReadAttr => match read_file_attr(data.as_slice()) {
                Err(error) => PreparedStage::Finished(Some(error)),
                Ok(attr) => PreparedStage::WriteAttr(
                    inherited_attr(attr, options.project_id, options.project_inherit),
                ),
            },
            PreparedStage::WriteAttr(_) => next_stage(options, 2),
            PreparedStage::AccessAcl => next_stage(options, 3),
            PreparedStage::DefaultAcl => PreparedStage::Finished(None),
        }
    }
}

/// The number of a stage: the stages come in this order.
pub open spec fn rank(stage: PreparedStage) -> int {
    match stage {
        PreparedStage::Begin => 0,
        PreparedStage::Owner => 1,
        PreparedStage::ReadAttr => 2,
        PreparedStage::WriteAttr(_) => 3,
        PreparedStage::AccessAcl => 4,
        PreparedStage::DefaultAcl => 5,
        PreparedStage::Finished(_) => 6,
    }
}

/// The stages come in order, none comes twice, and a failure is the last: what follows
/// it is never asked for.
pub proof fn law_preparation_stops_at_the_first_failure(
    options: PreparedAttributes,
    stage: PreparedStage,
    answer: Result<Seq<u8>, Error>,
)
    requires
        !(stage is Finished),
    ensures
        rank(stage_after(options, stage, answer)) > rank(stage),
        !(stage is Begin) ==> (answer matches Err(error) ==> stage_after(options, stage, answer)
            == PreparedStage::Finished(Some(error))),
{
}

} // verus!
