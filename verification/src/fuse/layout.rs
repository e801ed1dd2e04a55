//! Where everything stands in the packets that the kernel and a daemon exchange.

use vstd::prelude::*;
use crate::bytes::{le16, le32, le64, moved32, moved64, u16_at, u32_at, u64_at, word16, word32,
    word64};
use crate::error::Error;
use crate::fuse::bodies::{bmap_body, copy_body, count_of, create_body, fallocate_body,
    file_attr_image, file_attr_of, fsync_body, getxattr_body, inherited, ioctl_body, link_body,
    link_part, listxattr_body, lock_body, lock_of, lseek_body, mkdir_body, mknod_body, name_body,
    open_body, poll_body, read_body, readdir_body, release_body, rename2_body, rename_body,
    setxattr_body, statfs_of, symlink_body, taken_of, value_of, write_body, xattr_size_of, FileAttr,
    FileLock, FileRangeOperation, StatFs, XattrSetMode};
use crate::fuse::connection::{forget_body, forget_entries, forget_entries_len, forget_room,
    interrupt_packet, ConnectionView};
use crate::fuse::directory::{is_file_name, record_at, RecordView};
use crate::fuse::ioctl::{answer, iov_at, plan_of, survey, IoctlPlan, IoctlReplyView, Iov};
use crate::fuse::metadata::{deadline_of, entry_of, mode_type, parsed, set_len_body, setattr_body,
    time_nanos, time_seconds, type_of, valid_bits, AttributeChange, EntryOut, Metadata, NodeType};
use crate::fuse::notice::NotificationView;
use crate::fuse::replies::{read_notice, retrieve_body, Notice};
use crate::fuse::wire::{agreed, caches, init_body, out_header, packet, whole_init, zeroes, Caller,
    OutHeader};

verus! {

/// A name goes to the daemon whole, with one zero byte behind it.
pub proof fn law_a_name_is_ended(name: Seq<u8>)
    ensures
        ({
            let body = name_body(name);
            &&& body.len() == 0 + name.len() as int + 1
            &&& body.subrange(0, 0 + name.len() as int) == name
            &&& body[0 + name.len() as int] == 0
        }),
{
    let body = name_body(name);
    assert(body.subrange(0, 0 + name.len() as int) =~= name);
}

/// An open says how the file is to be opened.
pub proof fn law_an_open_says_how(flags: u32)
    ensures
        ({
            let body = open_body(flags);
            &&& u32_at(body, 0) == flags
            &&& u32_at(body, 4) == 0
            &&& body.len() == 8
        }),
{
    let body = open_body(flags);
    word32(body, 0, flags);
    word32(body, 4, 0);
}

/// A release names the handle that is given back, and nothing else.
pub proof fn law_a_release_names_its_handle(fh: u64)
    ensures
        ({
            let body = release_body(fh);
            &&& u64_at(body, 0) == fh
            &&& body.len() == 24
            &&& forall|i: int| 8 <= i < 24 ==> #[trigger] body[i] == 0
        }),
{
    let body = release_body(fh);
    word64(body, 0, fh);
}

/// A read names the handle, the place and the number of bytes, each where the daemon
/// looks for it.
pub proof fn law_a_read_says_what_is_asked_for(fh: u64, offset: u64, len: usize)
    ensures
        ({
            let body = read_body(fh, offset, len);
            &&& u64_at(body, 0) == fh
            &&& u64_at(body, 8) == offset
            &&& u32_at(body, 16) == len as u32
            &&& body.len() == 40
            &&& forall|i: int| 20 <= i < 40 ==> #[trigger] body[i] == 0
        }),
{
    let body = read_body(fh, offset, len);
    word64(body, 0, fh);
    word64(body, 8, offset);
    word32(body, 16, len as u32);
}

/// A write is read by the daemon as it was asked for: the handle, the place, the number of
/// bytes and the bytes themselves.
pub proof fn law_a_write_is_read_as_asked(fh: u64, offset: u64, data: Seq<u8>)
    ensures
        ({
            let body = write_body(fh, offset, data);
            &&& u64_at(body, 0) == fh
            &&& u64_at(body, 8) == offset
            &&& u32_at(body, 16) == data.len() as u32
            &&& body.len() == 40 + data.len()
            &&& forall|i: int| 20 <= i < 40 ==> #[trigger] body[i] == 0
            &&& body.subrange(40, body.len() as int) == data
        }),
{
    let body = write_body(fh, offset, data);
    word64(body, 0, fh);
    word64(body, 8, offset);
    word32(body, 16, data.len() as u32);
    assert(body.subrange(40, body.len() as int) =~= data);
}

/// A directory that is to be made has its mode and its name.
pub proof fn law_a_new_directory_has_mode_and_name(mode: u32, name: Seq<u8>)
    ensures
        ({
            let body = mkdir_body(mode, name);
            &&& u32_at(body, 0) == mode
            &&& u32_at(body, 4) == 0
            &&& body.len() == 8 + name.len() as int + 1
            &&& body.subrange(8, 8 + name.len() as int) == name
            &&& body[8 + name.len() as int] == 0
        }),
{
    let body = mkdir_body(mode, name);
    word32(body, 0, mode);
    word32(body, 4, 0);
    assert(body.subrange(8, 8 + name.len() as int) =~= name);
}

/// A file that is to be made has its mode and its name, and is asked for in such a way that
/// one that is there is refused: the bits for making and for its not being there are set,
/// and no other.
pub proof fn law_a_new_file_must_not_be_there(mode: u32, name: Seq<u8>)
    ensures
        ({
            let body = create_body(mode, name);
            &&& u32_at(body, 0) == 0o100 + 0o200
            &&& u32_at(body, 4) == mode
            &&& u32_at(body, 8) == 0
            &&& u32_at(body, 12) == 0
            &&& body.len() == 16 + name.len() as int + 1
            &&& body.subrange(16, 16 + name.len() as int) == name
            &&& body[16 + name.len() as int] == 0
        }),
{
    let body = create_body(mode, name);
    word32(body, 0, 0o300);
    word32(body, 4, mode);
    word32(body, 8, 0);
    word32(body, 12, 0);
    assert(body.subrange(16, 16 + name.len() as int) =~= name);
}

/// A special file that is to be made has its mode, its device and its name.
pub proof fn law_a_special_file_has_mode_device_and_name(mode: u32, rdev: u32, name: Seq<u8>)
    ensures
        ({
            let body = mknod_body(mode, rdev, name);
            &&& u32_at(body, 0) == mode
            &&& u32_at(body, 4) == rdev
            &&& u32_at(body, 8) == 0
            &&& u32_at(body, 12) == 0
            &&& body.len() == 16 + name.len() as int + 1
            &&& body.subrange(16, 16 + name.len() as int) == name
            &&& body[16 + name.len() as int] == 0
        }),
{
    let body = mknod_body(mode, rdev, name);
    word32(body, 0, mode);
    word32(body, 4, rdev);
    word32(body, 8, 0);
    word32(body, 12, 0);
    assert(body.subrange(16, 16 + name.len() as int) =~= name);
}

/// A symbolic link is sent with its target first and its name behind it, each ended.
pub proof fn law_a_symlink_has_target_then_name(target: Seq<u8>, name: Seq<u8>)
    ensures
        ({
            let body = symlink_body(target, name);
            &&& body.len() == target.len() as int + name.len() as int + 2
            &&& body.subrange(0, target.len() as int) == target
            &&& body[target.len() as int] == 0
            &&& body.subrange(target.len() as int + 1, target.len() as int + 1 + name.len() as int) == name
            &&& body[target.len() as int + 1 + name.len() as int] == 0
        }),
{
    let body = symlink_body(target, name);
    assert(body.subrange(0, target.len() as int) =~= target);
    assert(body.subrange(target.len() as int + 1, target.len() as int + 1 + name.len() as int) =~= name);
}

/// A link names the node that gets another name, and the name.
pub proof fn law_a_link_has_node_and_name(nodeid: u64, name: Seq<u8>)
    ensures
        ({
            let body = link_body(nodeid, name);
            &&& u64_at(body, 0) == nodeid
            &&& body.len() == 8 + name.len() as int + 1
            &&& body.subrange(8, 8 + name.len() as int) == name
            &&& body[8 + name.len() as int] == 0
        }),
{
    let body = link_body(nodeid, name);
    word64(body, 0, nodeid);
    assert(body.subrange(8, 8 + name.len() as int) =~= name);
}

/// A rename names the directory that the name goes to, the flags, the name that is moved
/// and, behind it, the one that it gets.
pub proof fn law_a_rename_has_directory_flags_and_names(directory: u64, flags: u32, from: Seq<u8>, to: Seq<u8>)
    ensures
        ({
            let body = rename2_body(directory, flags, from, to);
            &&& u64_at(body, 0) == directory
            &&& u32_at(body, 8) == flags
            &&& u32_at(body, 12) == 0
            &&& body.len() == 16 + from.len() as int + to.len() as int + 2
            &&& body.subrange(16, 16 + from.len() as int) == from
            &&& body[16 + from.len() as int] == 0
            &&& body.subrange(17 + from.len() as int, 17 + from.len() as int + to.len() as int) == to
            &&& body[17 + from.len() as int + to.len() as int] == 0
        }),
{
    let body = rename2_body(directory, flags, from, to);
    word64(body, 0, directory);
    word32(body, 8, flags);
    word32(body, 12, 0);
    assert(body.subrange(16, 16 + from.len() as int) =~= from);
    assert(body.subrange(17 + from.len() as int, 17 + from.len() as int + to.len() as int) =~= to);
}

/// A rename of the older form has the directory and the two names.
pub proof fn law_an_older_rename_has_directory_and_names(directory: u64, from: Seq<u8>, to: Seq<u8>)
    ensures
        ({
            let body = rename_body(directory, from, to);
            &&& u64_at(body, 0) == directory
            &&& body.len() == 8 + from.len() as int + to.len() as int + 2
            &&& body.subrange(8, 8 + from.len() as int) == from
            &&& body[8 + from.len() as int] == 0
            &&& body.subrange(9 + from.len() as int, 9 + from.len() as int + to.len() as int) == to
            &&& body[9 + from.len() as int + to.len() as int] == 0
        }),
{
    let body = rename_body(directory, from, to);
    word64(body, 0, directory);
    assert(body.subrange(8, 8 + from.len() as int) =~= from);
    assert(body.subrange(9 + from.len() as int, 9 + from.len() as int + to.len() as int) =~= to);
}

/// An extended attribute is asked for with the room there is for it, and its name.
pub proof fn law_a_getxattr_has_room_and_name(size: u32, name: Seq<u8>)
    ensures
        ({
            let body = getxattr_body(size, name);
            &&& u32_at(body, 0) == size
            &&& u32_at(body, 4) == 0
            &&& body.len() == 8 + name.len() as int + 1
            &&& body.subrange(8, 8 + name.len() as int) == name
            &&& body[8 + name.len() as int] == 0
        }),
{
    let body = getxattr_body(size, name);
    word32(body, 0, size);
    word32(body, 4, 0);
    assert(body.subrange(8, 8 + name.len() as int) =~= name);
}

/// A list of extended attributes is asked for with the room there is for it.
pub proof fn law_a_listxattr_has_room(size: u32)
    ensures
        ({
            let body = listxattr_body(size);
            &&& u32_at(body, 0) == size
            &&& u32_at(body, 4) == 0
            &&& body.len() == 8
        }),
{
    let body = listxattr_body(size);
    word32(body, 0, size);
    word32(body, 4, 0);
}

/// An extended attribute that is set has the size of its value, the flags, its name and,
/// behind the name, its value.
pub proof fn law_a_setxattr_has_size_flags_name_and_value(flags: u32, name: Seq<u8>, value: Seq<u8>)
    ensures
        ({
            let body = setxattr_body(flags, name, value);
            &&& u32_at(body, 0) == value.len() as u32
            &&& u32_at(body, 4) == flags
            &&& u64_at(body, 8) == 0
            &&& body.len() == 17 + name.len() as int + value.len() as int
            &&& body.subrange(16, 16 + name.len() as int) == name
            &&& body[16 + name.len() as int] == 0
            &&& body.subrange(17 + name.len() as int, 17 + name.len() as int + value.len() as int) == value
        }),
{
    let body = setxattr_body(flags, name, value);
    word32(body, 0, value.len() as u32);
    word32(body, 4, flags);
    word64(body, 8, 0);
    assert(body.subrange(16, 16 + name.len() as int) =~= name);
    assert(body.subrange(17 + name.len() as int, 17 + name.len() as int + value.len() as int) =~= value);
}

/// A flush to the store names the handle and whether the contents alone are meant.
pub proof fn law_an_fsync_has_handle_and_flags(fh: u64, flags: u32)
    ensures
        ({
            let body = fsync_body(fh, flags);
            &&& u64_at(body, 0) == fh
            &&& u32_at(body, 8) == flags
            &&& u32_at(body, 12) == 0
            &&& body.len() == 16
        }),
{
    let body = fsync_body(fh, flags);
    word64(body, 0, fh);
    word32(body, 8, flags);
    word32(body, 12, 0);
}

/// A change of space names the handle, where the stretch starts, how long it is and what
/// happens to it.
pub proof fn law_a_fallocate_has_stretch_and_mode(fh: u64, offset: u64, length: u64, mode: u32)
    ensures
        ({
            let body = fallocate_body(fh, offset, length, mode);
            &&& u64_at(body, 0) == fh
            &&& u64_at(body, 8) == offset
            &&& u64_at(body, 16) == length
            &&& u32_at(body, 24) == mode
            &&& u32_at(body, 28) == 0
            &&& body.len() == 32
        }),
{
    let body = fallocate_body(fh, offset, length, mode);
    word64(body, 0, fh);
    word64(body, 8, offset);
    word64(body, 16, length);
    word32(body, 24, mode);
    word32(body, 28, 0);
}

/// A search for a place has the handle, the place to search from and what is searched for.
pub proof fn law_an_lseek_has_place_and_whence(fh: u64, offset: u64, whence: u32)
    ensures
        ({
            let body = lseek_body(fh, offset, whence);
            &&& u64_at(body, 0) == fh
            &&& u64_at(body, 8) == offset
            &&& u32_at(body, 16) == whence
            &&& u32_at(body, 20) == 0
            &&& body.len() == 24
        }),
{
    let body = lseek_body(fh, offset, whence);
    word64(body, 0, fh);
    word64(body, 8, offset);
    word32(body, 16, whence);
    word32(body, 20, 0);
}

/// A copy between files has the source's handle and place, then the target's node, handle
/// and place, then the length and the flags.
pub proof fn law_a_copy_has_source_then_target(fh: u64, offset: u64, to_nodeid: u64, to_fh: u64, to_offset: u64, length: u64, flags: u64)
    ensures
        ({
            let body = copy_body(fh, offset, to_nodeid, to_fh, to_offset, length, flags);
            &&& u64_at(body, 0) == fh
            &&& u64_at(body, 8) == offset
            &&& u64_at(body, 16) == to_nodeid
            &&& u64_at(body, 24) == to_fh
            &&& u64_at(body, 32) == to_offset
            &&& u64_at(body, 40) == length
            &&& u64_at(body, 48) == flags
            &&& body.len() == 56
        }),
{
    let body = copy_body(fh, offset, to_nodeid, to_fh, to_offset, length, flags);
    word64(body, 0, fh);
    word64(body, 8, offset);
    word64(body, 16, to_nodeid);
    word64(body, 24, to_fh);
    word64(body, 32, to_offset);
    word64(body, 40, length);
    word64(body, 48, flags);
}

/// A block that is mapped has its number and the size of blocks.
pub proof fn law_a_bmap_has_block_and_size(block: u64, size: u32)
    ensures
        ({
            let body = bmap_body(block, size);
            &&& u64_at(body, 0) == block
            &&& u32_at(body, 8) == size
            &&& u32_at(body, 12) == 0
            &&& body.len() == 16
        }),
{
    let body = bmap_body(block, size);
    word64(body, 0, block);
    word32(body, 8, size);
    word32(body, 12, 0);
}

/// A question for readiness has the handle, the key by which the daemon tells of a change,
/// whether it is to tell, and asks for every event.
pub proof fn law_a_poll_has_handle_key_and_schedule(fh: u64, key: u64, schedule: u32)
    ensures
        ({
            let body = poll_body(fh, key, schedule);
            &&& u64_at(body, 0) == fh
            &&& u64_at(body, 8) == key
            &&& u32_at(body, 16) == schedule
            &&& u32_at(body, 20) == u32::MAX
            &&& body.len() == 24
        }),
{
    let body = poll_body(fh, key, schedule);
    word64(body, 0, fh);
    word64(body, 8, key);
    word32(body, 16, schedule);
    word32(body, 20, u32::MAX);
}

/// A control request has the handle, the flags, the command, the argument, the sizes of what
/// goes in and of what may come out, and then what goes in.
pub proof fn law_an_ioctl_has_command_argument_and_sizes(fh: u64, flags: u32, command: u32, arg: u64, input: Seq<u8>, output: usize)
    ensures
        ({
            let body = ioctl_body(fh, flags, command, arg, input, output);
            &&& u64_at(body, 0) == fh
            &&& u32_at(body, 8) == flags
            &&& u32_at(body, 12) == command
            &&& u64_at(body, 16) == arg
            &&& u32_at(body, 24) == input.len() as u32
            &&& u32_at(body, 28) == output as u32
            &&& body.len() == 32 + input.len()
            &&& body.subrange(32, body.len() as int) == input
        }),
{
    let body = ioctl_body(fh, flags, command, arg, input, output);
    word64(body, 0, fh);
    word32(body, 8, flags);
    word32(body, 12, command);
    word64(body, 16, arg);
    word32(body, 24, input.len() as u32);
    word32(body, 28, output as u32);
    assert(body.subrange(32, body.len() as int) =~= input);
}

/// A lock has the handle, the owner, the first and the last byte, the kind and the process.
pub proof fn law_a_lock_has_owner_and_stretch(fh: u64, owner: u64, lock: FileLock)
    ensures
        ({
            let body = lock_body(fh, owner, lock);
            &&& u64_at(body, 0) == fh
            &&& u64_at(body, 8) == owner
            &&& u64_at(body, 16) == lock.start
            &&& u64_at(body, 24) == lock.end
            &&& u32_at(body, 32) == lock.kind
            &&& u32_at(body, 36) == lock.pid
            &&& u64_at(body, 40) == 0
            &&& body.len() == 48
        }),
{
    let body = lock_body(fh, owner, lock);
    word64(body, 0, fh);
    word64(body, 8, owner);
    word64(body, 16, lock.start);
    word64(body, 24, lock.end);
    word32(body, 32, lock.kind);
    word32(body, 36, lock.pid);
    word64(body, 40, 0);
}

/// The names of a directory are asked for by handle and place, with room for a whole buffer.
pub proof fn law_a_readdir_has_handle_and_place(fh: u64, offset: u64)
    ensures
        ({
            let body = readdir_body(fh, offset);
            &&& u64_at(body, 0) == fh
            &&& u64_at(body, 8) == offset
            &&& u32_at(body, 16) == 0x1_0000
            &&& body.len() == 40
            &&& forall|i: int| 20 <= i < 40 ==> #[trigger] body[i] == 0
        }),
{
    let body = readdir_body(fh, offset);
    word64(body, 0, fh);
    word64(body, 8, offset);
    word32(body, 16, 0x1_0000);
}

/// A file that gets another length is named by its handle; of its attributes the length alone
/// is said to hold.
pub proof fn law_a_set_len_has_handle_and_length(fh: u64, len: u64)
    ensures
        ({
            let body = set_len_body(fh, len);
            &&& u32_at(body, 0) == 8
            &&& u32_at(body, 4) == 0
            &&& u64_at(body, 8) == fh
            &&& u64_at(body, 16) == len
            &&& body.len() == 88
            &&& forall|i: int| 24 <= i < 88 ==> #[trigger] body[i] == 0
        }),
{
    let body = set_len_body(fh, len);
    word32(body, 0, 8);
    word32(body, 4, 0);
    word64(body, 8, fh);
    word64(body, 16, len);
}

/// A lock comes back in the form in which it goes out: the lock of a request, cut out of the
/// request, reads as the lock that was asked for, and bytes of another length are refused.
pub proof fn law_a_lock_reads_as_it_was_sent(fh: u64, owner: u64, lock: FileLock, reply: Seq<u8>)
    ensures
        lock_of(lock_body(fh, owner, lock).subrange(16, 40)) == Ok::<FileLock, Error>(lock),
        reply.len() != 24 ==> lock_of(reply) == Err::<FileLock, Error>(Error::Io),
{
    let cut = lock_body(fh, owner, lock).subrange(16, 40);
    word64(cut, 0, lock.start);
    word64(cut, 8, lock.end);
    word32(cut, 16, lock.kind);
    word32(cut, 20, lock.pid);
}

/// What a daemon says of its file system is read from where it stands: all blocks, free
/// blocks, blocks for everyone, files, free files, the size of blocks and the length of
/// names.
pub proof fn law_statfs_reads_every_field(st: StatFs, rest: Seq<u8>)
    requires
        st.fs_type == 0x6573_5546,
    ensures
        statfs_of(
            le64(st.blocks) + le64(st.blocks_free) + le64(st.blocks_available) + le64(st.file_count)
                + le64(st.free_file_count) + le32(st.block_size) + le32(st.name_length) + rest,
        ) == Ok::<StatFs, Error>(st),
{
    let reply = le64(st.blocks) + le64(st.blocks_free) + le64(st.blocks_available) + le64(
        st.file_count,
    ) + le64(st.free_file_count) + le32(st.block_size) + le32(st.name_length) + rest;
    word64(reply, 0, st.blocks);
    word64(reply, 8, st.blocks_free);
    word64(reply, 16, st.blocks_available);
    word64(reply, 24, st.file_count);
    word64(reply, 32, st.free_file_count);
    word32(reply, 40, st.block_size);
    word32(reply, 44, st.name_length);
}

/// A file's flags and limits read as they were written.
pub proof fn law_file_flags_read_back(attr: FileAttr, rest: Seq<u8>)
    requires
        attr.xflags <= u32::MAX,
    ensures
        file_attr_image(attr).len() == 20,
        u32_at(file_attr_image(attr), 0) == attr.xflags,
        u32_at(file_attr_image(attr), 4) == attr.extsize,
        u32_at(file_attr_image(attr), 8) == attr.nextents,
        u32_at(file_attr_image(attr), 12) == attr.project_id,
        u32_at(file_attr_image(attr), 16) == attr.cowextsize,
        file_attr_of(file_attr_image(attr) + rest) == Ok::<FileAttr, Error>(attr),
{
    let image = file_attr_image(attr);
    let longer = image + rest;
    word32(image, 0, attr.xflags as u32);
    word32(image, 4, attr.extsize);
    word32(image, 8, attr.nextents);
    word32(image, 12, attr.project_id);
    word32(image, 16, attr.cowextsize);
    word32(longer, 0, attr.xflags as u32);
    word32(longer, 4, attr.extsize);
    word32(longer, 8, attr.nextents);
    word32(longer, 12, attr.project_id);
    word32(longer, 16, attr.cowextsize);
}

/// A file that is made gets a project only where there is one, and the flag by which it hands
/// the project on only where it is to; everything else stays as it was.
pub proof fn law_inheriting_touches_the_project_alone(
    attr: FileAttr,
    project_id: Option<u32>,
    inherit: bool,
)
    ensures
        ({
            let new = inherited(attr, project_id, inherit);
            &&& new.extsize == attr.extsize
            &&& new.nextents == attr.nextents
            &&& new.cowextsize == attr.cowextsize
            &&& project_id is None ==> new.project_id == attr.project_id
            &&& project_id is Some ==> new.project_id == project_id->0
            &&& !inherit ==> new.xflags == attr.xflags
            &&& inherit ==> new.xflags & 0x200 == 0x200
            &&& new.xflags & !0x200u64 == attr.xflags & !0x200u64
        }),
{
    let x = attr.xflags;
    assert((x | 0x200) & 0x200 == 0x200 && (x | 0x200) & !0x200u64 == x & !0x200u64)
        by (bit_vector);
}

/// The flags of an extended attribute say of each of two demands whether it is made: that the
/// attribute is new, and that it is there.
pub proof fn law_xattr_flags_are_two_demands(mode: XattrSetMode)
    ensures
        mode.bits() < 4,
        mode.bits() % 2 == 1 <==> mode == XattrSetMode::Create || mode
            == XattrSetMode::CreateAndReplace,
        mode.bits() / 2 == 1 <==> mode == XattrSetMode::Replace || mode
            == XattrSetMode::CreateAndReplace,
{
}

/// The mode of a change of space has the bit for keeping the size exactly where the size is
/// kept, and beside it one bit of its own; allocating has none.
pub proof fn law_space_modes_are_distinct(op: FileRangeOperation)
    ensures
        op.bits() % 2 == 1 <==> match op {
            FileRangeOperation::Allocate { keep_size } => keep_size,
            FileRangeOperation::PunchHole => true,
            FileRangeOperation::ZeroRange { keep_size } => keep_size,
            _ => false,
        },
        op.bits() / 2 == match op {
            FileRangeOperation::Allocate { .. } => 0u32,
            FileRangeOperation::PunchHole => 1,
            FileRangeOperation::CollapseRange => 4,
            FileRangeOperation::ZeroRange { .. } => 8,
            FileRangeOperation::InsertRange => 16,
            FileRangeOperation::UnshareRange => 32,
        },
{
}

/// A count and a value stand at the start of their replies, whatever comes behind; a daemon
/// that says it took more than there was is not believed, and one that says less is.
pub proof fn law_counts_are_believed_within_bounds(count: u32, value: u64, rest: Seq<u8>, len: usize)
    ensures
        count_of(le32(count) + rest) == Ok::<u32, Error>(count),
        value_of(le64(value) + rest) == Ok::<u64, Error>(value),
        count <= len ==> taken_of(le32(count) + rest, len) is Ok && taken_of(
            le32(count) + rest,
            len,
        )->Ok_0 == count,
        count > len ==> taken_of(le32(count) + rest, len) == Err::<usize, Error>(Error::Io),
        count <= 0x10_0000 ==> xattr_size_of(le32(count) + rest) == Ok::<u32, Error>(count),
        count > 0x10_0000 ==> xattr_size_of(le32(count) + rest) == Err::<u32, Error>(
            Error::InvalidInput,
        ),
        rest.len() < 4 ==> count_of(rest) == Err::<u32, Error>(Error::Io),
        rest.len() < 8 ==> value_of(rest) == Err::<u64, Error>(Error::Io),
{
    word32(le32(count) + rest, 0, count);
    word64(le64(value) + rest, 0, value);
}

/// A symbolic link is read like a file: byte `i` of a read at `offset` is byte `offset + i` of
/// the target, and a read ends with its own length or with the target.
pub proof fn law_a_link_reads_like_a_file(link: Seq<u8>, offset: int, len: int)
    requires
        0 <= offset,
        0 <= len,
    ensures
        ({
            let part = link_part(link, offset, len);
            &&& part.len() <= len
            &&& forall|i: int| 0 <= i < part.len() ==> #[trigger] part[i] == link[offset + i]
            &&& part.len() == len || offset + part.len() >= link.len()
            &&& part.len() == 0 || offset + part.len() <= link.len()
        }),
{
}

/// A packet starts with its own length, then has the number of the operation, its own
/// number, the node and who asks, two empty fields, and then the body as it is.
pub proof fn law_a_packet_has_its_header(
    unique: u64,
    opcode: u32,
    nodeid: u64,
    body: Seq<u8>,
    caller: Caller,
)
    requires
        body.len() + 40 <= u32::MAX,
    ensures
        ({
            let sent = packet(unique, opcode, nodeid, body, caller);
            &&& sent.len() == 40 + body.len()
            &&& u32_at(sent, 0) == sent.len()
            &&& u32_at(sent, 4) == opcode
            &&& u64_at(sent, 8) == unique
            &&& u64_at(sent, 16) == nodeid
            &&& u32_at(sent, 24) == caller.uid
            &&& u32_at(sent, 28) == caller.gid
            &&& u32_at(sent, 32) == caller.pid
            &&& u16_at(sent, 36) == 0
            &&& u16_at(sent, 38) == 0
            &&& sent.subrange(40, sent.len() as int) == body
        }),
{
    let sent = packet(unique, opcode, nodeid, body, caller);
    word32(sent, 0, (40 + body.len()) as u32);
    word32(sent, 4, opcode);
    word64(sent, 8, unique);
    word64(sent, 16, nodeid);
    word32(sent, 24, caller.uid);
    word32(sent, 28, caller.gid);
    word32(sent, 32, caller.pid);
    word16(sent, 36, 0);
    word16(sent, 38, 0);
    assert(sent.subrange(40, sent.len() as int) =~= body);
}

/// The head of a reply is read from where the daemon writes it: the length, the error and the
/// number of what is answered.
pub proof fn law_a_reply_head_reads_back(len: u32, error: i32, unique: u64, payload: Seq<u8>)
    ensures
        out_header(le32(len) + le32(error as u32) + le64(unique) + payload) == (OutHeader {
            len,
            error,
            unique,
        }),
{
    let bytes = le32(len) + le32(error as u32) + le64(unique) + payload;
    word32(bytes, 0, len);
    word32(bytes, 4, error as u32);
    word64(bytes, 8, unique);
    assert(error as u32 as i32 == error) by (bit_vector);
}

/// The first request offers the version of the kernel, its read-ahead and its capabilities,
/// and says nothing else.
pub proof fn law_the_first_request_offers_the_version()
    ensures
        ({
            let body = init_body();
            &&& body.len() == 64
            &&& u32_at(body, 0) == 7
            &&& u32_at(body, 4) == 45
            &&& u32_at(body, 8) == 0x10_0000
            &&& u32_at(body, 12) == 0x251_1021
            &&& u32_at(body, 16) == 0x100
            &&& forall|i: int| 20 <= i < 64 ==> #[trigger] body[i] == 0
        }),
{
    let body = init_body();
    word32(body, 0, 7);
    word32(body, 4, 45);
    word32(body, 8, 0x10_0000);
    word32(body, 12, 0x251_1021);
    word32(body, 16, 0x100);
}

/// What a daemon agrees to is read field by field: the lower of the two minor versions, its
/// own read-ahead, queue lengths, granularity and pages, and the two halves of its
/// capabilities.  The size of writes is the daemon's, but never below a page nor above the
/// largest packet.
pub proof fn law_an_agreement_is_read_field_by_field(
    minor: u32,
    readahead: u32,
    low: u32,
    background: u16,
    congestion: u16,
    max_write: u32,
    time_gran: u32,
    max_pages: u16,
    map_alignment: u16,
    high: u32,
    rest: Seq<u8>,
)
    requires
        minor > 0,
    ensures
        ({
            let read = agreed(
                le32(7) + le32(minor) + le32(readahead) + le32(low) + le16(background) + le16(
                    congestion,
                ) + le32(max_write) + le32(time_gran) + le16(max_pages) + le16(map_alignment)
                    + le32(high) + rest,
            );
            &&& read is Ok
            &&& (read->Ok_0).major == 7
            &&& minor <= 45 ==> (read->Ok_0).minor == minor
            &&& minor > 45 ==> (read->Ok_0).minor == 45
            &&& (read->Ok_0).max_readahead == readahead
            &&& (read->Ok_0).max_background == background
            &&& (read->Ok_0).congestion_threshold == congestion
            &&& (read->Ok_0).time_gran == time_gran
            &&& (read->Ok_0).max_pages == max_pages
            &&& 4096 <= (read->Ok_0).max_write <= 0x10_0000
            &&& 4096 <= max_write <= 0x10_0000 ==> (read->Ok_0).max_write == max_write
            &&& max_write < 4096 ==> (read->Ok_0).max_write == 4096
            &&& max_write > 0x10_0000 ==> (read->Ok_0).max_write == 0x10_0000
            &&& (read->Ok_0).flags as int == low + high * 0x1_0000_0000
        }),
{
    let reply = le32(7) + le32(minor) + le32(readahead) + le32(low) + le16(background) + le16(
        congestion,
    ) + le32(max_write) + le32(time_gran) + le16(max_pages) + le16(map_alignment) + le32(high)
        + rest;
    let image = whole_init(reply);
    word32(image, 0, 7);
    word32(image, 4, minor);
    word32(image, 8, readahead);
    word32(image, 12, low);
    word16(image, 16, background);
    word16(image, 18, congestion);
    word32(image, 20, max_write);
    word32(image, 24, time_gran);
    word16(image, 28, max_pages);
    word32(image, 32, high);
    assert((low as u64) | ((high as u64) << 32) == low as u64 + high as u64 * 0x1_0000_0000)
        by (bit_vector);
}

/// A reply that breaks off behind the versions is read as if zeroes followed, and nothing
/// behind the known fields is looked at.
pub proof fn law_a_short_agreement_is_filled_with_zeroes(reply: Seq<u8>, more: nat, rest: Seq<u8>)
    requires
        reply.len() >= 8,
    ensures
        agreed(reply + Seq::new(more, |i: int| 0u8)) == agreed(reply),
        reply.len() >= 64 ==> agreed(reply + rest) == agreed(reply),
        forall|short: Seq<u8>| #![trigger agreed(short)] short.len() < 8 ==> agreed(short) is Err,
{
    assert(whole_init(reply + Seq::new(more, |i: int| 0u8)) =~= whole_init(reply));
    if reply.len() >= 64 {
        assert(whole_init(reply + rest) =~= whole_init(reply));
    }
}

/// The top bits of a mode are the type of the file, whatever its permissions are.
pub proof fn law_modes_have_their_type_on_top(permissions: u32)
    requires
        permissions < 0o10000,
    ensures
        mode_type((0o010000 + permissions) as u32) == NodeType::Fifo,
        mode_type((0o020000 + permissions) as u32) == NodeType::CharacterDevice,
        mode_type((0o040000 + permissions) as u32) == NodeType::Directory,
        mode_type((0o060000 + permissions) as u32) == NodeType::BlockDevice,
        mode_type((0o100000 + permissions) as u32) == NodeType::RegularFile,
        mode_type((0o120000 + permissions) as u32) == NodeType::Symlink,
        mode_type((0o140000 + permissions) as u32) == NodeType::Socket,
        mode_type(permissions) == NodeType::Unknown,
{
    mode_parts(permissions, 1);
    mode_parts(permissions, 2);
    mode_parts(permissions, 4);
    mode_parts(permissions, 6);
    mode_parts(permissions, 8);
    mode_parts(permissions, 10);
    mode_parts(permissions, 12);
    mode_parts(permissions, 0);
}

proof fn mode_parts(permissions: u32, kind: u32)
    requires
        permissions < 0o10000,
        kind < 16,
    ensures
        (((kind * 4096 + permissions) as u32) >> 12) & 0xf == kind,
        ((kind * 4096 + permissions) as u32) & 0o7777 == permissions,
{
    assert((((kind * 4096 + permissions) as u32) >> 12) & 0xf == kind && ((kind * 4096
        + permissions) as u32) & 0o7777 == permissions) by (bit_vector)
        requires
            permissions < 0o10000u32,
            kind < 16u32,
    ;
}

/// The attributes of a file, as a daemon writes them.
#[verifier::opaque]
pub open spec fn attr_image(m: Metadata, rdev: u32, flags: u32) -> Seq<u8> {
    le64(m.inode) + le64(m.size) + le64(m.blocks) + le64(m.atime.seconds as u64) + le64(
        m.mtime.seconds as u64,
    ) + le64(m.ctime.seconds as u64) + le32(m.atime.nanos) + le32(m.mtime.nanos) + le32(
        m.ctime.nanos,
    ) + le32((m.node_type.code() * 4096 + m.mode) as u32) + le32(m.nlink as u32) + le32(m.uid)
        + le32(m.gid) + le32(rdev) + le32(m.block_size as u32) + le32(flags)
}

/// Whether the attributes can be told on the wire.
pub open spec fn can_be_told(m: Metadata) -> bool {
    &&& m.mode < 0o10000
    &&& m.nlink <= u32::MAX
    &&& m.block_size <= u32::MAX
    &&& m.atime.nanos < 1_000_000_000
    &&& m.mtime.nanos < 1_000_000_000
    &&& m.ctime.nanos < 1_000_000_000
}

proof fn signed_back(x: i64)
    ensures
        x as u64 as i64 == x,
{
    assert(x as u64 as i64 == x) by (bit_vector);
}

/// The attributes of a file read as the daemon wrote them, wherever they stand in a reply.
pub proof fn law_attributes_read_back(
    front: Seq<u8>,
    m: Metadata,
    rdev: u32,
    flags: u32,
    rest: Seq<u8>,
)
    requires
        can_be_told(m),
    ensures
        parsed(front + attr_image(m, rdev, flags) + rest, front.len() as int) == Ok::<
            Metadata,
            Error,
        >(m),
{
    let image = attr_image(m, rdev, flags);
    attr_words(image, m, rdev, flags);
    read_from_words(front, image, m, rest);
}

#[verifier::spinoff_prover]
proof fn read_from_words(front: Seq<u8>, image: Seq<u8>, m: Metadata, rest: Seq<u8>)
    requires
        image.len() == 88,
        can_be_told(m),
        u64_at(image, 0) == m.inode,
        u64_at(image, 8) == m.size,
        u64_at(image, 16) == m.blocks,
        u64_at(image, 24) == m.atime.seconds as u64,
        u64_at(image, 32) == m.mtime.seconds as u64,
        u64_at(image, 40) == m.ctime.seconds as u64,
        u32_at(image, 48) == m.atime.nanos,
        u32_at(image, 52) == m.mtime.nanos,
        u32_at(image, 56) == m.ctime.nanos,
        u32_at(image, 60) == (m.node_type.code() * 4096 + m.mode) as u32,
        u32_at(image, 64) == m.nlink as u32,
        u32_at(image, 68) == m.uid,
        u32_at(image, 72) == m.gid,
        u32_at(image, 80) == m.block_size as u32,
    ensures
        parsed(front + image + rest, front.len() as int) == Ok::<Metadata, Error>(m),
{
    let bytes = front + image + rest;
    let at = front.len() as int;
    let kind = m.node_type.code();
    assert forall|i: int| 0 <= i < 88 implies #[trigger] bytes[at + i] == image[i] by {}
    moved64(bytes, image, at, 0);
    moved64(bytes, image, at, 8);
    moved64(bytes, image, at, 16);
    moved64(bytes, image, at, 24);
    moved64(bytes, image, at, 32);
    moved64(bytes, image, at, 40);
    moved32(bytes, image, at, 48);
    moved32(bytes, image, at, 52);
    moved32(bytes, image, at, 56);
    moved32(bytes, image, at, 60);
    moved32(bytes, image, at, 64);
    moved32(bytes, image, at, 68);
    moved32(bytes, image, at, 72);
    moved32(bytes, image, at, 80);
    signed_back(m.atime.seconds);
    signed_back(m.mtime.seconds);
    signed_back(m.ctime.seconds);
    mode_parts(m.mode as u32, kind);
}

#[verifier::rlimit(60)]
#[verifier::spinoff_prover]
proof fn attr_words(image: Seq<u8>, m: Metadata, rdev: u32, flags: u32)
    requires
        image == attr_image(m, rdev, flags),
    ensures
        image.len() == 88,
        u64_at(image, 0) == m.inode,
        u64_at(image, 8) == m.size,
        u64_at(image, 16) == m.blocks,
        u64_at(image, 24) == m.atime.seconds as u64,
        u64_at(image, 32) == m.mtime.seconds as u64,
        u64_at(image, 40) == m.ctime.seconds as u64,
        u32_at(image, 48) == m.atime.nanos,
        u32_at(image, 52) == m.mtime.nanos,
        u32_at(image, 56) == m.ctime.nanos,
        u32_at(image, 60) == (m.node_type.code() * 4096 + m.mode) as u32,
        u32_at(image, 64) == m.nlink as u32,
        u32_at(image, 68) == m.uid,
        u32_at(image, 72) == m.gid,
        u32_at(image, 80) == m.block_size as u32,
{
    reveal(attr_image);
    word64(image, 0, m.inode);
    word64(image, 8, m.size);
    word64(image, 16, m.blocks);
    word64(image, 24, m.atime.seconds as u64);
    word64(image, 32, m.mtime.seconds as u64);
    word64(image, 40, m.ctime.seconds as u64);
    word32(image, 48, m.atime.nanos);
    word32(image, 52, m.mtime.nanos);
    word32(image, 56, m.ctime.nanos);
    word32(image, 60, (m.node_type.code() * 4096 + m.mode) as u32);
    word32(image, 64, m.nlink as u32);
    word32(image, 68, m.uid);
    word32(image, 72, m.gid);
    word32(image, 80, m.block_size as u32);
}

/// Attributes that break off, and times with a whole second of fraction, are refused.
pub proof fn law_broken_attributes_are_refused(bytes: Seq<u8>, at: int)
    requires
        0 <= at,
    ensures
        bytes.len() < at + 84 ==> parsed(bytes, at) == Err::<Metadata, Error>(Error::Io),
        u32_at(bytes, at + 48) >= 1_000_000_000 || u32_at(bytes, at + 52) >= 1_000_000_000
            || u32_at(bytes, at + 56) >= 1_000_000_000 ==> parsed(bytes, at) == Err::<
            Metadata,
            Error,
        >(Error::Io),
{
}

/// A daemon's word that holds for no time holds until now, a second more is a second later, a
/// nanosecond more is a nanosecond later, and what cannot be told is the last time there is.
pub proof fn law_deadlines_count_from_now(now: u64, seconds: u64, nanos: u32)
    ensures
        deadline_of(now, 0, 0) == now,
        now <= deadline_of(now, seconds, nanos),
        now as int + 1_000_000_000 <= u64::MAX && seconds < u64::MAX ==> deadline_of(
            now,
            (seconds + 1) as u64,
            nanos,
        ) == deadline_of((now + 1_000_000_000) as u64, seconds, nanos),
        now < u64::MAX && nanos < u32::MAX ==> deadline_of(now, seconds, (nanos + 1) as u32)
            == deadline_of((now + 1) as u64, seconds, nanos),
        seconds >= 0x4_4B82_FA0A ==> deadline_of(now, seconds, nanos) == u64::MAX,
{
}

/// What a daemon says of a name is read from where it stands: the node, how long the name
/// holds, how long the attributes hold, and the attributes.
pub proof fn law_an_entry_reads_back(
    nodeid: u64,
    generation: u64,
    entry_seconds: u64,
    attr_seconds: u64,
    entry_nanos: u32,
    attr_nanos: u32,
    m: Metadata,
    rdev: u32,
    flags: u32,
    rest: Seq<u8>,
    now: u64,
)
    requires
        can_be_told(m),
        entry_nanos < 1_000_000_000,
        attr_nanos < 1_000_000_000,
    ensures
        entry_of(
            (le64(nodeid) + le64(generation) + le64(entry_seconds) + le64(attr_seconds) + le32(
                entry_nanos,
            ) + le32(attr_nanos)) + attr_image(m, rdev, flags) + rest,
            now,
        ) == Ok::<EntryOut, Error>(
            EntryOut {
                nodeid,
                metadata: m,
                entry_deadline: deadline_of(now, entry_seconds, entry_nanos),
                attr_deadline: deadline_of(now, attr_seconds, attr_nanos),
            },
        ),
{
    let front = le64(nodeid) + le64(generation) + le64(entry_seconds) + le64(attr_seconds) + le32(
        entry_nanos,
    ) + le32(attr_nanos);
    assert(front.len() == 40);
    let bytes = front + attr_image(m, rdev, flags) + rest;
    law_attributes_read_back(front, m, rdev, flags, rest);
    assert forall|i: int| 0 <= i < 40 implies bytes[i] == #[trigger] front[i] by {}
    word64(bytes, 0, nodeid);
    word64(bytes, 16, entry_seconds);
    word64(bytes, 24, attr_seconds);
    word32(bytes, 32, entry_nanos);
    word32(bytes, 36, attr_nanos);
}

/// A change of attributes says by one bit of each field whether it holds: the mode, the owner,
/// the group, both times and the handle.  The length is never said to hold, each field stands
/// in its own place, and what is not to change is zero.
pub proof fn law_a_change_says_which_fields_hold(change: AttributeChange)
    ensures
        ({
            let body = setattr_body(change);
            let valid = u32_at(body, 0);
            &&& body.len() == 88
            &&& valid & 1 != 0 <==> change.mode is Some
            &&& valid & 2 != 0 <==> change.owner is Some
            &&& valid & 4 != 0 <==> change.owner is Some
            &&& valid & 8 == 0
            &&& valid & 16 != 0 <==> change.atime is Some
            &&& valid & 32 != 0 <==> change.mtime is Some
            &&& valid & 64 != 0 <==> change.fh is Some
            &&& valid < 128
            &&& u64_at(body, 8) == (if change.fh is Some {
                change.fh->0
            } else {
                0
            })
            &&& change.atime is Some ==> u64_at(body, 32) as i64 == (change.atime->0).seconds
                && u32_at(body, 56) == (change.atime->0).nanos
            &&& change.mtime is Some ==> u64_at(body, 40) as i64 == (change.mtime->0).seconds
                && u32_at(body, 60) == (change.mtime->0).nanos
            &&& change.mode is Some ==> u32_at(body, 68) == change.mode->0
            &&& change.owner is Some ==> u32_at(body, 76) == (change.owner->0).0 && u32_at(
                body,
                80,
            ) == (change.owner->0).1
            &&& forall|i: int| 16 <= i < 32 ==> #[trigger] body[i] == 0
        }),
{
    setattr_words(
        valid_bits(change),
        match change.fh {
            Some(fh) => fh,
            None => 0,
        },
        time_seconds(change.atime),
        time_seconds(change.mtime),
        time_nanos(change.atime),
        time_nanos(change.mtime),
        match change.mode {
            Some(mode) => mode as u32,
            None => 0,
        },
        match change.owner {
            Some(owner) => owner.0,
            None => 0,
        },
        match change.owner {
            Some(owner) => owner.1,
            None => 0,
        },
    );
    if change.atime is Some {
        signed_back((change.atime->0).seconds);
    }
    if change.mtime is Some {
        signed_back((change.mtime->0).seconds);
    }
    let a = change.fh is Some;
    let b = change.mode is Some;
    let c = change.owner is Some;
    let d = change.atime is Some;
    let e = change.mtime is Some;
    assert({
        let valid = (if a {
            64u32
        } else {
            0
        }) | (if b {
            1u32
        } else {
            0
        }) | (if c {
            6u32
        } else {
            0
        }) | (if d {
            16u32
        } else {
            0
        }) | (if e {
            32u32
        } else {
            0
        });
        &&& (valid & 1 != 0) == b
        &&& (valid & 2 != 0) == c
        &&& (valid & 4 != 0) == c
        &&& valid & 8 == 0
        &&& (valid & 16 != 0) == d
        &&& (valid & 32 != 0) == e
        &&& (valid & 64 != 0) == a
        &&& valid < 128
    }) by (bit_vector);
}

#[verifier::rlimit(40)]
#[verifier::spinoff_prover]
proof fn setattr_words(
    valid: u32,
    fh: u64,
    atime: u64,
    mtime: u64,
    atime_nanos: u32,
    mtime_nanos: u32,
    mode: u32,
    uid: u32,
    gid: u32,
)
    ensures
        ({
            let body = le32(valid) + le32(0) + le64(fh) + zeroes(16) + le64(atime) + le64(mtime)
                + zeroes(8) + le32(atime_nanos) + le32(mtime_nanos) + le32(0) + le32(mode) + le32(0)
                + le32(uid) + le32(gid) + le32(0);
            &&& body.len() == 88
            &&& u32_at(body, 0) == valid
            &&& u64_at(body, 8) == fh
            &&& u64_at(body, 32) == atime
            &&& u64_at(body, 40) == mtime
            &&& u32_at(body, 56) == atime_nanos
            &&& u32_at(body, 60) == mtime_nanos
            &&& u32_at(body, 68) == mode
            &&& u32_at(body, 76) == uid
            &&& u32_at(body, 80) == gid
            &&& forall|i: int| 16 <= i < 32 ==> #[trigger] body[i] == 0
        }),
{
    let body = le32(valid) + le32(0) + le64(fh) + zeroes(16) + le64(atime) + le64(mtime) + zeroes(8)
        + le32(atime_nanos) + le32(mtime_nanos) + le32(0) + le32(mode) + le32(0) + le32(uid) + le32(
        gid,
    ) + le32(0);
    word32(body, 0, valid);
    word64(body, 8, fh);
    word64(body, 32, atime);
    word64(body, 40, mtime);
    word32(body, 56, atime_nanos);
    word32(body, 60, mtime_nanos);
    word32(body, 68, mode);
    word32(body, 76, uid);
    word32(body, 80, gid);
}

/// The packet that tells a daemon of an interrupt has the number of the request with the mark
/// of an interrupt on it, and the number without the mark in its body.
pub proof fn law_an_interrupt_names_its_request(target: u64)
    requires
        target < 0x8000_0000_0000_0000,
    ensures
        ({
            let sent = interrupt_packet(target);
            &&& sent.len() == 48
            &&& u32_at(sent, 0) == 48
            &&& u32_at(sent, 4) == 36
            &&& u64_at(sent, 8) == target + 0x8000_0000_0000_0000
            &&& u64_at(sent, 16) == 0
            &&& u64_at(sent, 40) == target
        }),
{
    let nobody = Caller { uid: 0, gid: 0, pid: 0 };
    law_a_packet_has_its_header(target | 0x8000_0000_0000_0000, 36, 0, le64(target), nobody);
    let sent = interrupt_packet(target);
    assert forall|i: int| 0 <= i < 8 implies sent[40 + i] == #[trigger] le64(target)[i] by {
        assert(sent.subrange(40, 48)[i] == sent[40 + i]);
    }
    word64(sent, 40, target);
    assert(target | 0x8000_0000_0000_0000 == target + 0x8000_0000_0000_0000) by (bit_vector)
        requires
            target < 0x8000_0000_0000_0000u64,
    ;
}

/// References are given back in a packet that says how many there are, and then names each
/// node, in order, with one reference.
pub proof fn law_forgets_name_each_node_once(nodes: Seq<u64>, count: nat, i: int)
    requires
        count <= nodes.len(),
        count <= u32::MAX,
        0 <= i < count,
    ensures
        forget_body(nodes, count).len() == 8 + 16 * count,
        u32_at(forget_body(nodes, count), 0) == count,
        u64_at(forget_body(nodes, count), 8 + 16 * i) == nodes[i],
        u64_at(forget_body(nodes, count), 16 + 16 * i) == 1,
{
    let body = forget_body(nodes, count);
    forget_entries_len(nodes, count);
    word32(body, 0, count as u32);
    forget_entry_at(nodes, count, i);
    let entries = forget_entries(nodes, count);
    assert forall|k: int| 0 <= k < entries.len() implies #[trigger] body[8 + k] == entries[k] by {}
    moved64(body, entries, 8, 16 * i);
    moved64(body, entries, 8, 16 * i + 8);
}

proof fn forget_entry_at(nodes: Seq<u64>, count: nat, i: int)
    requires
        count <= nodes.len(),
        0 <= i < count,
    ensures
        forget_entries(nodes, count).len() == 16 * count,
        u64_at(forget_entries(nodes, count), 16 * i) == nodes[i],
        u64_at(forget_entries(nodes, count), 16 * i + 8) == 1,
    decreases count,
{
    let fewer = forget_entries(nodes, (count - 1) as nat);
    let entries = forget_entries(nodes, count);
    forget_entries_len(nodes, count);
    forget_entries_len(nodes, (count - 1) as nat);
    if i == count - 1 {
        word64(entries, 16 * i, nodes[i]);
        word64(entries, 16 * i + 8, 1);
    } else {
        forget_entry_at(nodes, (count - 1) as nat, i);
        assert forall|k: int| 0 <= k < fewer.len() implies #[trigger] entries[0 + k] == fewer[k] by {}
        moved64(entries, fewer, 0, 16 * i);
        moved64(entries, fewer, 0, 16 * i + 8);
    }
}

/// As many references go into a buffer as fit it behind the head, and one more would not.
pub proof fn law_forgets_fill_the_room(room: nat)
    ensures
        room >= 48 ==> 48 + 16 * forget_room(room) <= room < 48 + 16 * (forget_room(room) + 1),
        room < 48 ==> forget_room(room) == 0,
{
}

/// A notice that a file's contents are stale says of which node, from where on and how far.
pub proof fn law_a_stale_inode_is_read_as_told(
    v: ConnectionView,
    nodeid: u64,
    offset: i64,
    length: i64,
)
    ensures
        read_notice(v, 2, le64(nodeid) + le64(offset as u64) + le64(length as u64)) == Ok::<
            Notice,
            Error,
        >(Notice::Change(NotificationView::InvalidateInode { nodeid, offset, length })),
{
    let payload = le64(nodeid) + le64(offset as u64) + le64(length as u64);
    word64(payload, 0, nodeid);
    word64(payload, 8, offset as u64);
    word64(payload, 16, length as u64);
    signed_back(offset);
    signed_back(length);
}

/// A notice that a name is stale says in which directory, and the name.
pub proof fn law_a_stale_name_is_read_as_told(
    v: ConnectionView,
    parent: u64,
    flags: u32,
    name: Seq<u8>,
)
    requires
        0 < name.len() <= u32::MAX,
        !name.contains(0u8),
    ensures
        read_notice(v, 3, le64(parent) + le32(name.len() as u32) + le32(flags) + name) == Ok::<
            Notice,
            Error,
        >(Notice::Change(NotificationView::InvalidateEntry { parent, name })),
{
    let payload = le64(parent) + le32(name.len() as u32) + le32(flags) + name;
    word64(payload, 0, parent);
    word32(payload, 8, name.len() as u32);
    assert(payload.skip(16) =~= name);
}

/// A notice that a name is gone says in which directory, which node it stood for, and the
/// name.
pub proof fn law_a_deleted_name_is_read_as_told(
    v: ConnectionView,
    parent: u64,
    child: u64,
    padding: u32,
    name: Seq<u8>,
)
    requires
        0 < name.len() <= u32::MAX,
        !name.contains(0u8),
    ensures
        read_notice(
            v,
            6,
            le64(parent) + le64(child) + le32(name.len() as u32) + le32(padding) + name,
        ) == Ok::<Notice, Error>(Notice::Change(NotificationView::Delete { parent, child, name })),
{
    let payload = le64(parent) + le64(child) + le32(name.len() as u32) + le32(padding) + name;
    word64(payload, 0, parent);
    word64(payload, 8, child);
    word32(payload, 16, name.len() as u32);
    assert(payload.skip(24) =~= name);
}

/// A notice that brings contents says of which node and for which place, and is refused for a
/// node that the kernel does not know.
pub proof fn law_stored_contents_are_read_as_told(
    v: ConnectionView,
    nodeid: u64,
    offset: u64,
    padding: u32,
    data: Seq<u8>,
)
    requires
        data.len() <= u32::MAX,
    ensures
        read_notice(
            v,
            4,
            le64(nodeid) + le64(offset) + le32(data.len() as u32) + le32(padding) + data,
        ) == (if v.known_nodes.contains_key(nodeid) {
            Ok::<Notice, Error>(
                Notice::Change(NotificationView::Store { nodeid, offset, data }),
            )
        } else {
            Err::<Notice, Error>(Error::NotFound)
        }),
{
    let payload = le64(nodeid) + le64(offset) + le32(data.len() as u32) + le32(padding) + data;
    word64(payload, 0, nodeid);
    word64(payload, 8, offset);
    word32(payload, 16, data.len() as u32);
    assert(payload.skip(24) =~= data);
}

/// A daemon that asks for contents says under which number it wants them, of which node, from
/// where on and how many.
pub proof fn law_a_retrieval_is_read_as_told(
    v: ConnectionView,
    unique: u64,
    nodeid: u64,
    offset: u64,
    size: u32,
    padding: u32,
)
    requires
        size <= 0x10_0000,
        offset + size <= u64::MAX,
        caches(v.init),
        v.known_nodes.contains_key(nodeid),
    ensures
        read_notice(
            v,
            5,
            le64(unique) + le64(nodeid) + le64(offset) + le32(size) + le32(padding),
        ) == Ok::<Notice, Error>(Notice::Retrieve { unique, nodeid, offset, size }),
{
    let payload = le64(unique) + le64(nodeid) + le64(offset) + le32(size) + le32(padding);
    word64(payload, 0, unique);
    word64(payload, 8, nodeid);
    word64(payload, 16, offset);
    word32(payload, 24, size);
}

/// A notice that a polled file changed names the key under which it is polled.
pub proof fn law_a_readiness_notice_names_its_key(v: ConnectionView, key: u64)
    ensures
        read_notice(v, 1, le64(key)) == Ok::<Notice, Error>(Notice::Poll(key)),
{
    word64(le64(key), 0, key);
}

/// What the kernel keeps goes to the daemon with its place, its length and the bytes.
pub proof fn law_retrieved_contents_have_place_and_length(offset: u64, data: Seq<u8>)
    ensures
        ({
            let body = retrieve_body(offset, data);
            &&& body.len() == 40 + data.len()
            &&& u64_at(body, 0) == 0
            &&& u64_at(body, 8) == offset
            &&& u32_at(body, 16) == data.len() as u32
            &&& u32_at(body, 20) == 0
            &&& u64_at(body, 24) == 0
            &&& u64_at(body, 32) == 0
            &&& body.subrange(40, body.len() as int) == data
        }),
{
    let body = retrieve_body(offset, data);
    word64(body, 0, 0);
    word64(body, 8, offset);
    word32(body, 16, data.len() as u32);
    word32(body, 20, 0);
    word64(body, 24, 0);
    word64(body, 32, 0);
    assert(body.subrange(40, body.len() as int) =~= data);
}

/// The answer to a control request has the result, the flags, how many stretches are to be
/// read, how many to be written, and then data.
pub proof fn law_an_ioctl_answer_reads_back(
    result: i32,
    flags: u32,
    in_iovs: u32,
    out_iovs: u32,
    data: Seq<u8>,
)
    ensures
        answer(le32(result as u32) + le32(flags) + le32(in_iovs) + le32(out_iovs) + data) == Ok::<
            IoctlReplyView,
            Error,
        >(IoctlReplyView { result, flags, in_iovs, out_iovs, data }),
{
    let reply = le32(result as u32) + le32(flags) + le32(in_iovs) + le32(out_iovs) + data;
    word32(reply, 0, result as u32);
    word32(reply, 4, flags);
    word32(reply, 8, in_iovs);
    word32(reply, 12, out_iovs);
    assert(reply.skip(16) =~= data);
    assert(result as u32 as i32 == result) by (bit_vector);
}

/// A command that gives a size says by two bits of its own whether so many bytes go to the
/// daemon and whether so many come back; one without a size leaves it to the daemon.
pub proof fn law_a_command_says_what_moves(low: u32, size: u32, writes: bool, reads: bool)
    requires
        low < 0x1_0000,
        size < 0x4000,
    ensures
        ({
            let command = (low + size * 0x1_0000 + (if writes {
                0x4000_0000u32
            } else {
                0
            }) + (if reads {
                0x8000_0000u32
            } else {
                0
            })) as u32;
            plan_of(command) == (if size == 0 {
                IoctlPlan::Unrestricted
            } else {
                IoctlPlan::Plain {
                    input: if writes {
                        size as usize
                    } else {
                        0
                    },
                    output: if reads {
                        size as usize
                    } else {
                        0
                    },
                }
            })
        }),
{
    let command = (low + size * 0x1_0000 + (if writes {
        0x4000_0000u32
    } else {
        0
    }) + (if reads {
        0x8000_0000u32
    } else {
        0
    })) as u32;
    assert((command >> 16) & 0x3fff == size && ((command >> 30) & 1 != 0) == writes && ((command
        >> 30) & 2 != 0) == reads) by (bit_vector)
        requires
            low < 0x1_0000u32,
            size < 0x4000u32,
            command == (low + size * 0x1_0000 + (if writes {
                0x4000_0000u32
            } else {
                0
            }) + (if reads {
                0x8000_0000u32
            } else {
                0
            })) as u32,
    ;
}

/// Where nothing is too long, the stretches that a daemon names are read and written in the
/// order in which it names them: the first ones are read, and all others are written.
pub proof fn law_stretches_keep_their_order(data: Seq<u8>, inputs: nat, n: nat)
    requires
        !survey(data, inputs, n).failed,
    ensures
        ({
            let s = survey(data, inputs, n);
            let reads = if n <= inputs {
                n
            } else {
                inputs
            };
            &&& s.reads == Seq::new(reads, |k: int| iov_at(data, k))
            &&& s.writes == Seq::new((n - reads) as nat, |k: int| iov_at(data, inputs + k))
        }),
    decreases n,
{
    if n > 0 {
        law_stretches_keep_their_order(data, inputs, (n - 1) as nat);
    }
    let s = survey(data, inputs, n);
    let reads = if n <= inputs {
        n
    } else {
        inputs
    };
    assert(s.reads =~= Seq::new(reads, |k: int| iov_at(data, k)));
    assert(s.writes =~= Seq::new((n - reads) as nat, |k: int| iov_at(data, inputs + k)));
}

/// A stretch is an address and then a length, sixteen bytes each.
pub proof fn law_a_stretch_is_address_then_length(front: Seq<u8>, i: int, iov: Iov, rest: Seq<u8>)
    requires
        0 <= i,
        front.len() == 16 * i,
    ensures
        iov_at(front + le64(iov.base) + le64(iov.len) + rest, i) == iov,
{
    let data = front + le64(iov.base) + le64(iov.len) + rest;
    word64(data, 16 * i, iov.base);
    word64(data, 16 * i + 8, iov.len);
}

/// A record of a directory reads as the daemon wrote it, wherever it stands: the number of the
/// file, where the next record is, the type and the name.  The next record starts at the
/// next multiple of eight.
pub proof fn law_a_record_reads_back(
    front: Seq<u8>,
    ino: u64,
    next: u64,
    kind: u32,
    name: Seq<u8>,
    rest: Seq<u8>,
    held: bool,
)
    requires
        is_file_name(name),
        name.len() <= u32::MAX,
        kind < 256,
    ensures
        ({
            let reply = front + le64(ino) + le64(next) + le32(name.len() as u32) + le32(kind) + name
                + rest;
            let read = record_at(reply, front.len() as int, false, held);
            &&& read is Ok
            &&& (read->Ok_0).name == name
            &&& (read->Ok_0).ino == ino
            &&& (read->Ok_0).next == next
            &&& (read->Ok_0).node_type == type_of(kind as u8)
            &&& (read->Ok_0).entry is None
            &&& (read->Ok_0).end % 8 == 0
            &&& front.len() + 24 + name.len() <= (read->Ok_0).end < front.len() + 32 + name.len()
        }),
{
    let reply = front + le64(ino) + le64(next) + le32(name.len() as u32) + le32(kind) + name + rest;
    let at = front.len() as int;
    word64(reply, at, ino);
    word64(reply, at + 8, next);
    word32(reply, at + 16, name.len() as u32);
    assert(reply[at + 20] == le32(kind)[0]);
    assert(reply.subrange(at + 24, at + 24 + name.len()) =~= name);
}

/// A record that also says what its name stands for has the node and the attributes in front.
#[verifier::rlimit(60)]
#[verifier::spinoff_prover]
pub proof fn law_a_full_record_reads_back(
    front: Seq<u8>,
    nodeid: u64,
    between: Seq<u8>,
    m: Metadata,
    rdev: u32,
    flags: u32,
    ino: u64,
    next: u64,
    kind: u32,
    name: Seq<u8>,
    rest: Seq<u8>,
)
    requires
        nodeid != 0,
        between.len() == 32,
        can_be_told(m),
        is_file_name(name),
        name.len() <= u32::MAX,
        kind < 256,
    ensures
        ({
            let tail = le64(ino) + le64(next) + le32(name.len() as u32) + le32(kind) + name + rest;
            let reply = (front + le64(nodeid) + between) + attr_image(m, rdev, flags) + tail;
            let read = record_at(reply, front.len() as int, true, true);
            &&& read is Ok
            &&& (read->Ok_0).name == name
            &&& (read->Ok_0).ino == ino
            &&& (read->Ok_0).next == next
            &&& (read->Ok_0).node_type == type_of(kind as u8)
            &&& (read->Ok_0).entry == Some((nodeid, m))
            &&& record_at(reply, front.len() as int, true, false) == Err::<RecordView, Error>(
                Error::NotFound,
            )
        }),
{
    let tail = le64(ino) + le64(next) + le32(name.len() as u32) + le32(kind) + name + rest;
    let head = front + le64(nodeid) + between;
    let image = attr_image(m, rdev, flags);
    let reply = head + image + tail;
    let at = front.len() as int;
    attr_image_len(m, rdev, flags);
    law_attributes_read_back(head, m, rdev, flags, tail);
    word64(reply, at, nodeid);
    word64(tail, 0, ino);
    word64(tail, 8, next);
    word32(tail, 16, name.len() as u32);
    assert(tail[20] == le32(kind)[0]);
    assert(tail.subrange(24, 24 + name.len() as int) =~= name);
    assert forall|k: int| 0 <= k < tail.len() implies #[trigger] reply[at + 128 + k] == tail[k] by {}
    moved64(reply, tail, at + 128, 0);
    moved64(reply, tail, at + 128, 8);
    moved32(reply, tail, at + 128, 16);
    assert(reply[at + 128 + 20] == tail[20]);
    assert(reply.subrange(at + 152, at + 152 + name.len()) =~= name) by {
        assert forall|k: int| 0 <= k < name.len() implies reply[at + 152 + k] == #[trigger] name[k] by {
            assert(tail.subrange(24, 24 + name.len() as int)[k] == tail[24 + k]);
            assert(reply[at + 128 + (24 + k)] == tail[24 + k]);
        }
    }
}

proof fn attr_image_len(m: Metadata, rdev: u32, flags: u32)
    ensures
        attr_image(m, rdev, flags).len() == 88,
{
    reveal(attr_image);
}

} // verus!
