//! What holds of the filesystem as a whole, across its operations.

use vstd::prelude::*;

use crate::disk::{
    block_of, has_block, lemma_store_keeps_others, lemma_store_then_read, store_block,
};
use crate::error::TfsError;
use crate::fs::{chunk, chunk_count, padded, zero_filled, FsModel, TfsFsFile};
use crate::inode::{same_file, INodeModel};
use crate::root::{
    entry_field, lemma_root_sync_frame, load_inodes, sync_inodes, RootModel,
};
use crate::structures::{
    RootRecord, SuperBlockRecord, ALLOCATION_TABLE_LEN, INODE_BLOCKS, MAGIC_NUMBER, MAX_BLOCKS,
    ROOT_INODES,
};
use crate::superblock::{
    first_free, lemma_first_free_from, lemma_free_blocks_taken, lemma_free_blocks_zero,
    lemma_fresh_allocator, lemma_with_block, with_block, SuperBlockModel, ROOT_BLOCK,
    SUPERBLOCK_BLOCK,
};
use crate::BLOCK_SIZE;

verus! {

/// A sync changes nothing of the bitmap, nothing of the files but their
/// dirty marks, and nothing of the disk but block 0, block 1 and the
/// blocks of the inodes. After a sync that succeeded nothing is dirty.
pub proof fn lemma_sync_frame(fs: FsModel, other: int)
    ensures
        fs.sync().0.superblock.bitmap == fs.superblock.bitmap,
        !fs.sync().0.superblock.dirty,
        fs.sync().0.root.inodes.len() == fs.root.inodes.len(),
        forall|i: int|
            0 <= i < fs.root.inodes.len() ==> same_file(
                #[trigger] fs.sync().0.root.inodes[i],
                fs.root.inodes[i],
            ),
        fs.sync().1 is Ok ==> !fs.sync().0.root.dirty && forall|i: int|
            0 <= i < fs.root.inodes.len() ==> !(#[trigger] fs.sync().0.root.inodes[i]).dirty,
        has_block(fs.disk, other, BLOCK_SIZE as int) && other != SUPERBLOCK_BLOCK && other
            != ROOT_BLOCK && (forall|i: int|
            0 <= i < fs.root.inodes.len() ==> (#[trigger] fs.root.inodes[i]).block != other)
            ==> has_block(fs.sync().0.disk, other, BLOCK_SIZE as int) && block_of(
            fs.sync().0.disk,
            other,
            BLOCK_SIZE as int,
        ) == block_of(fs.disk, other, BLOCK_SIZE as int),
        fs.wf() ==> fs.sync().0.wf(),
{
    let (superblock, disk) = fs.superblock.sync(fs.disk);
    lemma_root_sync_frame(fs.root, disk, other);
    if fs.wf() {
        lemma_same_files_keep_wf(fs, fs.sync().0);
    }
}

/// A consistent filesystem stays consistent where the bitmap keeps every
/// allocated block and the files keep their blocks.
pub proof fn lemma_same_files_keep_wf(before: FsModel, after: FsModel)
    requires
        before.wf(),
        after.superblock.wf(),
        forall|m: int| #[trigger]
            before.superblock.allocated(m) ==> after.superblock.allocated(m),
        after.root.inodes.len() == before.root.inodes.len(),
        forall|i: int|
            0 <= i < before.root.inodes.len() ==> (#[trigger] after.root.inodes[i]).block
                == before.root.inodes[i].block && after.root.inodes[i].blocks
                == before.root.inodes[i].blocks,
    ensures
        after.wf(),
{
    assert forall|i: int, k: int|
        0 <= i < after.root.inodes.len() && 0 <= k < after.root.inodes[i].blocks.len()
            implies #[trigger] after.data_block_ok(i, k) by {
        assert(before.data_block_ok(i, k));
    }
}

/// A sync is idempotent: after a sync that succeeded nothing is dirty, and
/// a second sync succeeds and changes nothing.
pub proof fn lemma_sync_idempotent(fs: FsModel)
    requires
        fs.sync().1 is Ok,
    ensures
        fs.sync().0.sync() == (fs.sync().0, Ok::<(), TfsError>(())),
{
    lemma_sync_frame(fs, 0);
    let synced = fs.sync().0;
    lemma_clean_inodes_stay(synced.root.inodes, synced.disk, synced.root.inodes.len() as int);
}

proof fn lemma_clean_inodes_stay(inodes: Seq<INodeModel>, disk: Seq<u8>, n: int)
    requires
        0 <= n <= inodes.len(),
        forall|i: int| 0 <= i < inodes.len() ==> !(#[trigger] inodes[i]).dirty,
    ensures
        sync_inodes(inodes, disk, n) == (inodes, disk, Ok::<(), TfsError>(())),
    decreases n,
{
    if n > 0 {
        lemma_clean_inodes_stay(inodes, disk, n - 1);
    }
}

/// Loading a directory whose first `n` entries are empty gives no inode.
proof fn lemma_load_no_inodes(entries: Seq<u16>, disk: Seq<u8>, n: int)
    requires
        0 <= n <= entries.len(),
        forall|i: int| 0 <= i < n ==> entries[i] == 0,
    ensures
        load_inodes(entries, disk, n) == Ok::<Seq<INodeModel>, TfsError>(Seq::empty()),
    decreases n,
{
    if n > 0 {
        lemma_load_no_inodes(entries, disk, n - 1);
    }
}

/// Formatting a device of a valid size succeeds. Block 0 of the formatted
/// image then starts with the magic number and records block 1 as the
/// root, and block 1 holds an empty directory. Mounting the image succeeds
/// as well, and gives a consistent filesystem with no file in it, nothing
/// dirty, and every block free but blocks 0 and 1.
pub proof fn lemma_mkfs_then_mount(image: Seq<u8>, size: usize)
    requires
        size % BLOCK_SIZE == 0,
        size <= isize::MAX,
    ensures
        FsModel::mkfs(image, size) is Ok,
        has_block(FsModel::mkfs(image, size)->Ok_0, 0, BLOCK_SIZE as int),
        FsModel::mkfs(image, size)->Ok_0[0] == MAGIC_NUMBER,
        SuperBlockRecord::parse(
            block_of(FsModel::mkfs(image, size)->Ok_0, 0, BLOCK_SIZE as int),
        ).root_inode == ROOT_BLOCK,
        FsModel::mount(FsModel::mkfs(image, size)->Ok_0) is Ok,
        FsModel::mount(FsModel::mkfs(image, size)->Ok_0)->Ok_0.root.inodes.len() == 0,
        FsModel::mount(FsModel::mkfs(image, size)->Ok_0)->Ok_0.readdir().len() == 0,
        FsModel::mount(FsModel::mkfs(image, size)->Ok_0)->Ok_0.wf(),
        !FsModel::mount(FsModel::mkfs(image, size)->Ok_0)->Ok_0.superblock.dirty,
        !FsModel::mount(FsModel::mkfs(image, size)->Ok_0)->Ok_0.root.dirty,
        FsModel::mount(FsModel::mkfs(image, size)->Ok_0)->Ok_0.superblock.free() == MAX_BLOCKS
            - 2,
        FsModel::mount(FsModel::mkfs(image, size)->Ok_0)->Ok_0.disk == FsModel::mkfs(
            image,
            size,
        )->Ok_0,
        FsModel::mount(FsModel::mkfs(image, size)->Ok_0)->Ok_0.superblock.bitmap
            == SuperBlockRecord::parse(
            block_of(FsModel::mkfs(image, size)->Ok_0, 0, BLOCK_SIZE as int),
        ).allocated_blocks,
        has_block(FsModel::mkfs(image, size)->Ok_0, 1, BLOCK_SIZE as int),
        RootRecord::parse(block_of(FsModel::mkfs(image, size)->Ok_0, 1, BLOCK_SIZE as int)).inodes
            == entry_field(Seq::<u16>::empty()),
{
    let bs = BLOCK_SIZE as int;
    let zeroed = zero_filled(image, size as int);
    let fresh = FsModel::fresh(zeroed);
    let superblock = fresh.superblock.record();
    let first = store_block(zeroed, 0, bs, superblock.layout());
    let entries = RootRecord { inodes: entry_field(fresh.root.inode_blocks()) };
    let formatted = store_block(first, 1, bs, entries.layout());

    let empty = SuperBlockModel::fresh().bitmap;
    lemma_fresh_allocator();
    assert(!SuperBlockModel::fresh().allocated(0));
    assert(!SuperBlockModel::fresh().allocated(1));
    lemma_with_block(empty, 0, true, 0);
    lemma_with_block(empty, 0, true, 1);
    let marked = with_block(empty, 0, true);
    lemma_with_block(marked, 1, true, 0);
    lemma_with_block(marked, 1, true, 1);
    lemma_free_blocks_taken(empty, 0, 0);
    lemma_free_blocks_taken(marked, 1, 0);
    superblock.lemma_round_trip();
    entries.lemma_round_trip();

    lemma_store_then_read(zeroed, 0, bs, superblock.layout());
    lemma_store_keeps_others(first, 1, bs, entries.layout(), 0);
    lemma_store_then_read(first, 1, bs, entries.layout());
    lemma_load_no_inodes(entries.inodes, formatted, ROOT_INODES as int);
}

/// A sync leaves the names of the files, and so the result of every
/// lookup, as they were.
pub proof fn lemma_sync_keeps_names(fs: FsModel)
    ensures
        fs.sync().0.root.names() == fs.root.names(),
        fs.sync().0.readdir() == fs.readdir(),
{
    lemma_sync_frame(fs, 0);
}

/// A name with a zero byte in it is refused: opening it and renaming a file
/// to it fail with `FilenameError` and change nothing, and an inode of that
/// name cannot be stored.
pub proof fn lemma_nul_in_name_refused(fs: FsModel, file: TfsFsFile, name: Seq<u8>, now: u32)
    requires
        name.contains(0u8),
    ensures
        fs.open(name, now) == (fs, Err::<TfsFsFile, TfsError>(TfsError::FilenameError)),
        fs.valid(file) ==> fs.rename(file, name, now) == (
            fs,
            Err::<(), TfsError>(TfsError::FilenameError),
        ),
        forall|block: u16|
            (#[trigger] INodeModel::fresh(block, name, now)).record() == Err::<
                crate::structures::INodeRecord,
                TfsError,
            >(TfsError::FilenameError),
{
}

/// After a successful open the directory holds the file under the name it
/// was opened by, at the index that the handle carries, and the cursor is
/// at the start.
pub proof fn lemma_open_finds(fs: FsModel, name: Seq<u8>, now: u32)
    requires
        fs.root.inodes.len() < usize::MAX,
        fs.open(name, now).1 is Ok,
    ensures
        fs.open(name, now).1->Ok_0.offset == 0,
        fs.open(name, now).0.valid(fs.open(name, now).1->Ok_0),
        fs.open(name, now).0.root.find(name) == Some(fs.open(name, now).1->Ok_0.inode as int),
        fs.open(name, now).0.root.inodes[fs.open(name, now).1->Ok_0.inode as int].stat.atime
            == now,
        fs.root.find(name) is Some ==> fs.open(name, now).0.root.inodes.len()
            == fs.root.inodes.len(),
        fs.root.find(name) is None ==> fs.open(name, now).0.root.inodes.len()
            == fs.root.inodes.len() + 1,
{
    let names = fs.root.names();
    names.index_of_first_ensures(name);
    let (looked, idx) = match fs.root.find(name) {
        Some(idx) => (fs, Ok::<usize, TfsError>(idx as usize)),
        None => fs.create_inode(name, now),
    };
    let idx = idx->Ok_0 as int;
    let touched = looked.with_inode(idx, looked.root.inodes[idx].accessed(now));
    lemma_sync_keeps_names(touched);
    lemma_sync_frame(touched, 0);
    if fs.root.find(name) is Some {
        assert(touched.root.names() =~= names);
    } else {
        assert(touched.root.names() =~= names.push(name));
        let after = names.push(name);
        after.index_of_first_ensures(name);
        assert(after[names.len() as int] == name);
    }
}

/// Opening the same name twice in a row gives two handles on one file:
/// the second open creates nothing, both handles carry the same inode with
/// the cursor at the start, and so both show the same metadata.
pub proof fn lemma_open_twice(fs: FsModel, name: Seq<u8>, first: u32, second: u32)
    requires
        fs.root.inodes.len() + 1 < usize::MAX,
        fs.open(name, first).1 is Ok,
        fs.open(name, first).0.open(name, second).1 is Ok,
    ensures
        ({
            let (opened, one) = fs.open(name, first);
            let (reopened, two) = opened.open(name, second);
            &&& two->Ok_0.inode == one->Ok_0.inode
            &&& two->Ok_0.offset == 0
            &&& one->Ok_0.offset == 0
            &&& reopened.root.inodes.len() == opened.root.inodes.len()
            &&& reopened.stat(one->Ok_0) is Ok
            &&& reopened.stat(one->Ok_0) == reopened.stat(two->Ok_0)
        }),
{
    lemma_open_finds(fs, name, first);
    lemma_open_finds(fs.open(name, first).0, name, second);
}

/// A read changes nothing but the access time of the file read: what any
/// cursor on any file reads next is as before. Cursors are independent:
/// a read through one handle moves no other.
pub proof fn lemma_read_keeps_contents(fs: FsModel, file: TfsFsFile, now: u32, idx: int, pos: int)
    requires
        0 <= idx < fs.root.inodes.len(),
    ensures
        fs.read_byte(file, now).0.byte_at(idx, pos) == fs.byte_at(idx, pos),
        fs.read_byte(file, now).0.disk == fs.disk,
        fs.read_byte(file, now).0.superblock == fs.superblock,
        fs.read_byte(file, now).0.readdir().len() == fs.readdir().len(),
        fs.read_byte(file, now).1.inode == file.inode,
        fs.read_byte(file, now).2 == if fs.valid(file) {
            fs.byte_at(file.inode as int, file.offset as int)
        } else {
            Err(TfsError::InvalidDesc)
        },
{
}

/// A rename gives the file its new name in the directory listing and sets
/// its modification time. The creation time, the size, the data blocks and
/// the disk stay as they were, and so does every other file; what a cursor
/// reads is as before.
pub proof fn lemma_rename(fs: FsModel, file: TfsFsFile, name: Seq<u8>, now: u32)
    requires
        fs.valid(file),
        !name.contains(0u8),
    ensures
        ({
            let (renamed, r) = fs.rename(file, name, now);
            let idx = file.inode as int;
            &&& r is Ok
            &&& renamed.readdir().len() == fs.readdir().len()
            &&& renamed.readdir()[idx].filename == name
            &&& renamed.readdir()[idx].stat.mtime == now
            &&& renamed.readdir()[idx].stat.ctime == fs.readdir()[idx].stat.ctime
            &&& renamed.readdir()[idx].stat.atime == fs.readdir()[idx].stat.atime
            &&& renamed.readdir()[idx].stat.size == fs.readdir()[idx].stat.size
            &&& renamed.root.inodes[idx].blocks == fs.root.inodes[idx].blocks
            &&& renamed.root.inodes[idx].dirty
            &&& renamed.disk == fs.disk
            &&& renamed.superblock == fs.superblock
            &&& forall|i: int|
                0 <= i < fs.root.inodes.len() && i != idx ==> #[trigger] renamed.root.inodes[i]
                    == fs.root.inodes[i]
            &&& forall|i: int, pos: int|
                0 <= i < fs.root.inodes.len() ==> #[trigger] renamed.byte_at(i, pos)
                    == fs.byte_at(i, pos)
            &&& now >= fs.readdir()[idx].stat.mtime ==> renamed.readdir()[idx].stat.mtime
                >= fs.readdir()[idx].stat.mtime
        }),
{
}

/// Whether every inode of the directory can be stored: none has a zero
/// byte in its name or more data blocks than a record holds.
pub open spec fn storable(root: RootModel) -> bool {
    forall|i: int| 0 <= i < root.inodes.len() ==> (#[trigger] root.inodes[i]).record() is Ok
}

/// Syncing inodes that can all be stored succeeds.
pub proof fn lemma_sync_inodes_succeeds(inodes: Seq<INodeModel>, disk: Seq<u8>, n: int)
    requires
        0 <= n <= inodes.len(),
        forall|i: int| 0 <= i < inodes.len() ==> (#[trigger] inodes[i]).record() is Ok,
    ensures
        sync_inodes(inodes, disk, n).2 is Ok,
    decreases n,
{
    if n > 0 {
        lemma_sync_inodes_succeeds(inodes, disk, n - 1);
        crate::root::lemma_sync_inodes_frame(inodes, disk, n - 1, 0);
    }
}

/// A sync succeeds exactly when what is dirty can be stored. Of a
/// directory whose inodes can all be stored: the sync succeeds where the
/// directory is clean or has at most `ROOT_INODES` files, and fails with
/// `SizeError`, carrying the number of files, where it is dirty and has
/// more.
pub proof fn lemma_sync_directory_capacity(fs: FsModel)
    requires
        storable(fs.root),
    ensures
        fs.root.dirty && fs.root.inodes.len() > ROOT_INODES ==> fs.sync().1 == Err::<
            (),
            TfsError,
        >(TfsError::SizeError { size: fs.root.inodes.len() as usize }),
        !fs.root.dirty || fs.root.inodes.len() <= ROOT_INODES ==> fs.sync().1 is Ok,
{
    let (superblock, disk) = fs.superblock.sync(fs.disk);
    let n = fs.root.inodes.len() as int;
    lemma_sync_inodes_succeeds(fs.root.inodes, disk, n);
    crate::root::lemma_sync_inodes_frame(fs.root.inodes, disk, n, 0);
}

/// Creating one file more than the directory has room for fails: where the
/// directory is full, its files can all be stored, a block is free and the
/// name is new, the open fails with `SizeError` in the sync that follows
/// the creation. The file is then in the directory in memory, and the
/// directory stays dirty.
pub proof fn lemma_open_beyond_capacity(fs: FsModel, name: Seq<u8>, now: u32)
    requires
        storable(fs.root),
        fs.root.inodes.len() == ROOT_INODES,
        !fs.superblock.full(),
        !name.contains(0u8),
        fs.root.find(name) is None,
    ensures
        fs.open(name, now).1 == Err::<TfsFsFile, TfsError>(
            TfsError::SizeError { size: (ROOT_INODES + 1) as usize },
        ),
        fs.open(name, now).0.root.inodes.len() == ROOT_INODES + 1,
        fs.open(name, now).0.root.dirty,
{
    let (looked, idx) = fs.create_inode(name, now);
    let touched = looked.with_inode(
        ROOT_INODES as int,
        looked.root.inodes[ROOT_INODES as int].accessed(now),
    );
    assert forall|i: int| 0 <= i < touched.root.inodes.len() implies (
    #[trigger] touched.root.inodes[i]).record() is Ok by {
    }
    lemma_sync_directory_capacity(touched);
    lemma_sync_frame(touched, 0);
    let (superblock, disk) = touched.superblock.sync(touched.disk);
}

/// The bytes that the first `done` chunks of a buffer of `len` bytes hold.
pub open spec fn written_bytes(len: int, done: int) -> int {
    if done * BLOCK_SIZE <= len {
        done * BLOCK_SIZE
    } else {
        len
    }
}

/// The data block that the file at `idx` holds at `base + j`.
pub open spec fn appended_block(fs: FsModel, idx: int, base: int, j: int) -> int {
    fs.root.inodes[idx].blocks[base + j] as int
}

/// An allocation takes a block that was free and no other: afterwards that
/// block is allocated, and every other block is as it was. It fails exactly
/// when every block is taken, and then changes nothing of the bitmap.
pub proof fn lemma_allocate(superblock: SuperBlockModel, other: int)
    requires
        superblock.wf(),
    ensures
        superblock.allocate().0.wf(),
        superblock.allocate().0.dirty,
        superblock.free() >= 0,
        superblock.full() <==> superblock.free() == 0,
        !superblock.full() ==> superblock.allocate().0.free() == superblock.free() - 1,
        superblock.allocate().1 is None <==> superblock.full(),
        superblock.full() ==> superblock.allocate().0.bitmap == superblock.bitmap,
        superblock.full() ==> forall|m: int|
            0 <= m < 8 * ALLOCATION_TABLE_LEN ==> superblock.allocated(m),
        superblock.allocate().1 matches Some(block) ==> {
            &&& block as int == first_free(superblock.bitmap)
            &&& !superblock.allocated(block as int)
            &&& superblock.allocate().0.allocated(block as int)
            &&& other != block ==> superblock.allocate().0.allocated(other)
                == superblock.allocated(other)
            &&& forall|m: int| 0 <= m < block ==> superblock.allocated(m)
        },
{
    lemma_first_free_from(superblock.bitmap, 0);
    lemma_free_blocks_zero(superblock.bitmap, 0);
    let block = first_free(superblock.bitmap);
    if block < 8 * superblock.bitmap.len() {
        lemma_with_block(superblock.bitmap, block, true, other);
        lemma_with_block(superblock.bitmap, block, true, block);
        lemma_free_blocks_taken(superblock.bitmap, block, 0);
    }
}

/// Appending one chunk takes the first free block, stores the chunk there
/// and touches no other block of the disk. It fails exactly when every
/// block is taken.
pub proof fn lemma_write_chunk(fs: FsModel, idx: int, data: Seq<u8>, other: int)
    requires
        fs.superblock.wf(),
        0 <= idx < fs.root.inodes.len(),
    ensures
        fs.write_chunk(idx, data).1 == !fs.superblock.full(),
        fs.write_chunk(idx, data).0.superblock == fs.superblock.allocate().0,
        fs.superblock.full() ==> fs.write_chunk(idx, data).0.root == fs.root
            && fs.write_chunk(idx, data).0.disk == fs.disk,
        !fs.superblock.full() ==> ({
            let block = first_free(fs.superblock.bitmap);
            let written = fs.write_chunk(idx, data).0;
            &&& 0 <= block < 8 * ALLOCATION_TABLE_LEN
            &&& written.root == fs.root.with_inode(
                idx,
                fs.root.inodes[idx].push_block(block as u16).grow(data.len() as int),
            )
            &&& has_block(written.disk, block, BLOCK_SIZE as int)
            &&& block_of(written.disk, block, BLOCK_SIZE as int) == padded(data)
            &&& other != block && has_block(fs.disk, other, BLOCK_SIZE as int) ==> has_block(
                written.disk,
                other,
                BLOCK_SIZE as int,
            ) && block_of(written.disk, other, BLOCK_SIZE as int) == block_of(
                fs.disk,
                other,
                BLOCK_SIZE as int,
            )
        }),
{
    lemma_allocate(fs.superblock, other);
    let block = first_free(fs.superblock.bitmap);
}

/// What holds of `after` where it is `before` with `done` chunks of `buf`
/// appended to the file at `idx`: the file has `done` blocks more, each
/// free before, allocated now and holding its chunk; its size has grown by
/// the chunks' bytes, unless that passes 16 bits; nothing else of the file
/// has changed, nor any other file, nor any block that was allocated
/// before.
pub open spec fn appended(before: FsModel, after: FsModel, idx: int, buf: Seq<u8>, done: int) -> bool {
    let old = before.root.inodes[idx];
    let new = after.root.inodes[idx];
    let base = old.blocks.len() as int;
    &&& after.superblock.wf()
    &&& after.root.dirty == before.root.dirty
    &&& after.root.inodes.len() == before.root.inodes.len()
    &&& forall|i: int|
        0 <= i < before.root.inodes.len() && i != idx ==> #[trigger] after.root.inodes[i]
            == before.root.inodes[i]
    &&& new.block == old.block
    &&& new.filename == old.filename
    &&& new.stat.ctime == old.stat.ctime
    &&& new.stat.mtime == old.stat.mtime
    &&& new.stat.atime == old.stat.atime
    &&& new.dirty == (old.dirty || done > 0)
    &&& new.blocks.len() == base + done
    &&& new.blocks.subrange(0, base) == old.blocks
    &&& old.stat.size + written_bytes(buf.len() as int, done) <= u16::MAX ==> new.stat.size
        == old.stat.size + written_bytes(buf.len() as int, done)
    &&& after.superblock.free() == before.superblock.free() - done
    &&& forall|m: int| #[trigger]
        before.superblock.allocated(m) ==> after.superblock.allocated(m)
    &&& forall|m: int|
        before.superblock.allocated(m) && #[trigger] has_block(
            before.disk,
            m,
            BLOCK_SIZE as int,
        ) ==> has_block(after.disk, m, BLOCK_SIZE as int) && block_of(
            after.disk,
            m,
            BLOCK_SIZE as int,
        ) == block_of(before.disk, m, BLOCK_SIZE as int)
    &&& forall|j: int|
        0 <= j < done ==> {
            let block = #[trigger] appended_block(after, idx, base, j);
            &&& !before.superblock.allocated(block)
            &&& after.superblock.allocated(block)
            &&& has_block(after.disk, block, BLOCK_SIZE as int)
            &&& block_of(after.disk, block, BLOCK_SIZE as int) == padded(chunk(buf, j))
        }
}

/// Appending the first `n` chunks of a buffer: the chunks that found a
/// block are appended as `appended` says, and where one found none, every
/// block is taken.
pub proof fn lemma_write_chunks(fs: FsModel, idx: int, buf: Seq<u8>, n: int)
    requires
        fs.superblock.wf(),
        0 <= idx < fs.root.inodes.len(),
        0 <= n <= chunk_count(buf.len() as int),
    ensures
        0 <= fs.write_chunks(idx, buf, n).1 <= n,
        appended(fs, fs.write_chunks(idx, buf, n).0, idx, buf, fs.write_chunks(idx, buf, n).1),
        fs.write_chunks(idx, buf, n).1 < n ==> fs.write_chunks(idx, buf, n).0.superblock.full(),
        fs.write_chunks(idx, buf, n).1 == if n <= fs.superblock.free() {
            n
        } else {
            fs.superblock.free()
        },
    decreases n,
{
    let old = fs.root.inodes[idx];
    let base = old.blocks.len() as int;
    lemma_free_blocks_zero(fs.superblock.bitmap, 0);
    if n <= 0 {
        assert(old.blocks.subrange(0, base) =~= old.blocks);
    } else {
        lemma_write_chunks(fs, idx, buf, n - 1);
        let (before, done) = fs.write_chunks(idx, buf, n - 1);
        if done == n - 1 {
            let data = chunk(buf, n - 1);
            let (after, ok) = before.write_chunk(idx, data);
            let block = first_free(before.superblock.bitmap);
            lemma_allocate(before.superblock, 0);
            if ok {
                let mid = before.root.inodes[idx];
                let new = after.root.inodes[idx];
                assert(new.blocks.subrange(0, base) =~= mid.blocks.subrange(0, base));
                assert forall|m: int| #[trigger]
                    fs.superblock.allocated(m) implies after.superblock.allocated(m) by {
                    lemma_allocate(before.superblock, m);
                }
                assert forall|m: int|
                    fs.superblock.allocated(m) && #[trigger] has_block(
                        fs.disk,
                        m,
                        BLOCK_SIZE as int,
                    ) implies has_block(after.disk, m, BLOCK_SIZE as int) && block_of(
                    after.disk,
                    m,
                    BLOCK_SIZE as int,
                ) == block_of(fs.disk, m, BLOCK_SIZE as int) by {
                }
                assert forall|j: int| 0 <= j < n implies ({
                    let b = #[trigger] appended_block(after, idx, base, j);
                    &&& !fs.superblock.allocated(b)
                    &&& after.superblock.allocated(b)
                    &&& has_block(after.disk, b, BLOCK_SIZE as int)
                    &&& block_of(after.disk, b, BLOCK_SIZE as int) == padded(chunk(buf, j))
                }) by {
                    if j < n - 1 {
                        let b = appended_block(before, idx, base, j);
                        lemma_allocate(before.superblock, b);
                        lemma_write_chunk(before, idx, data, b);
                    } else {
                        lemma_allocate(before.superblock, block);
                    }
                }
            }
        }
    }
}

/// Appending chunks to a file of a consistent filesystem leaves it
/// consistent.
pub proof fn lemma_appended_keeps_wf(
    before: FsModel,
    after: FsModel,
    idx: int,
    buf: Seq<u8>,
    done: int,
)
    requires
        before.wf(),
        0 <= idx < before.root.inodes.len(),
        0 <= done,
        appended(before, after, idx, buf, done),
    ensures
        after.wf(),
{
    let base = before.root.inodes[idx].blocks.len() as int;
    assert forall|i: int, k: int|
        0 <= i < after.root.inodes.len() && 0 <= k < after.root.inodes[i].blocks.len()
            implies #[trigger] after.data_block_ok(i, k) by {
        let block = after.root.inodes[i].blocks[k] as int;
        if i == idx && k >= base {
            assert(appended_block(after, idx, base, k - base) == block);
        } else {
            assert(before.data_block_ok(i, k));
        }
    }
}

/// A write finds a block for every chunk exactly when the chunks are no
/// more than the free blocks. Where they are more it fails with
/// `OutOfSpace`, and with nothing else: the file has then grown by one
/// block for each block that was free, each holding a whole chunk, the
/// cursor has moved past them, every block is taken, and the size has
/// grown by the bytes of those chunks, unless that passes 16 bits.
pub proof fn lemma_write_out_of_space(fs: FsModel, file: TfsFsFile, buf: Seq<u8>, now: u32)
    requires
        fs.superblock.wf(),
        fs.valid(file),
    ensures
        ({
            let (written, handle, r) = fs.write(file, buf, now);
            let idx = file.inode as int;
            let free = fs.superblock.free();
            let old = fs.root.inodes[idx];
            let new = written.root.inodes[idx];
            &&& r == Err::<(), TfsError>(TfsError::OutOfSpace) <==> chunk_count(buf.len() as int)
                > free
            &&& chunk_count(buf.len() as int) > free ==> {
                &&& handle.inode == file.inode
                &&& handle.offset == (file.offset + free * BLOCK_SIZE) as usize
                &&& written.superblock.full()
                &&& written.disk.len() >= fs.disk.len()
                &&& new.blocks.len() == old.blocks.len() + free
                &&& new.blocks.subrange(0, old.blocks.len() as int) == old.blocks
                &&& forall|j: int| 0 <= j < free ==> (#[trigger] chunk(buf, j)).len() == BLOCK_SIZE
                &&& old.stat.size + free * BLOCK_SIZE <= u16::MAX ==> new.stat.size
                    == old.stat.size + free * BLOCK_SIZE
            }
        }),
{
    let idx = file.inode as int;
    let n = chunk_count(buf.len() as int);
    let start = fs.with_inode(idx, fs.root.inodes[idx].modified(now));
    lemma_write_chunks(start, idx, buf, n);
    let (written, done) = start.write_chunks(idx, buf, n);
    if done < n {
        lemma_disk_grows(start, idx, buf, n);
    } else {
        lemma_sync_never_out_of_space(written);
    }
}

/// A sync fails for a name or for a size, never for want of space.
pub proof fn lemma_sync_never_out_of_space(fs: FsModel)
    ensures
        fs.sync().1 != Err::<(), TfsError>(TfsError::OutOfSpace),
{
    let (superblock, disk) = fs.superblock.sync(fs.disk);
    lemma_sync_inodes_errors(fs.root.inodes, disk, fs.root.inodes.len() as int);
}

proof fn lemma_sync_inodes_errors(inodes: Seq<INodeModel>, disk: Seq<u8>, n: int)
    requires
        0 <= n <= inodes.len(),
    ensures
        sync_inodes(inodes, disk, n).2 != Err::<(), TfsError>(TfsError::OutOfSpace),
    decreases n,
{
    if n > 0 {
        lemma_sync_inodes_errors(inodes, disk, n - 1);
    }
}

proof fn lemma_disk_grows(fs: FsModel, idx: int, buf: Seq<u8>, n: int)
    requires
        0 <= n,
    ensures
        fs.write_chunks(idx, buf, n).0.disk.len() >= fs.disk.len(),
    decreases n,
{
    if n > 0 {
        lemma_disk_grows(fs, idx, buf, n - 1);
    }
}

/// Whether the file at `idx` ends on a block boundary: its size is the
/// bytes of its blocks. A new file does.
pub open spec fn block_aligned(fs: FsModel, idx: int) -> bool {
    fs.root.inodes[idx].stat.size == fs.root.inodes[idx].blocks.len() * BLOCK_SIZE
}

/// What was written is what is read. After a successful write of `buf` to
/// a file of a consistent filesystem that ended on a block boundary, and
/// whose size stays within 16 bits, the cursor is at the start, the size
/// has grown by the length of `buf`, every byte that the file held before
/// reads as before, the bytes of `buf` follow them, and then the file
/// ends. For a new file the reads from the cursor on give `buf` and then
/// the end.
pub proof fn lemma_write_then_read(fs: FsModel, file: TfsFsFile, buf: Seq<u8>, now: u32)
    requires
        fs.wf(),
        fs.valid(file),
        block_aligned(fs, file.inode as int),
        fs.root.inodes[file.inode as int].stat.size + buf.len() <= u16::MAX,
        fs.write(file, buf, now).2 is Ok,
    ensures
        ({
            let (written, handle, _r) = fs.write(file, buf, now);
            let idx = file.inode as int;
            let size = fs.root.inodes[idx].stat.size as int;
            &&& handle == TfsFsFile { inode: file.inode, offset: 0 }
            &&& written.wf()
            &&& written.valid(handle)
            &&& written.root.inodes[idx].stat.size == size + buf.len()
            &&& written.root.inodes[idx].stat.mtime == now
            &&& block_aligned(written, idx) <==> buf.len() % (BLOCK_SIZE as nat) == 0
            &&& forall|i: int|
                0 <= i < buf.len() ==> #[trigger] written.byte_at(idx, size + i) == Ok::<
                    Option<u8>,
                    TfsError,
                >(Some(buf[i]))
            &&& written.byte_at(idx, size + buf.len()) == Ok::<Option<u8>, TfsError>(None)
            &&& forall|pos: int|
                0 <= pos < size && fs.byte_at(idx, pos) is Ok ==> #[trigger] written.byte_at(
                    idx,
                    pos,
                ) == fs.byte_at(idx, pos)
        }),
{
    let bs = BLOCK_SIZE as int;
    let idx = file.inode as int;
    let n = chunk_count(buf.len() as int);
    let old = fs.root.inodes[idx];
    let size = old.stat.size as int;
    let base = old.blocks.len() as int;
    let start = fs.with_inode(idx, old.modified(now));
    lemma_write_chunks(start, idx, buf, n);
    let (appended_fs, done) = start.write_chunks(idx, buf, n);
    let (written, r) = appended_fs.sync();
    lemma_sync_frame(appended_fs, 0);
    assert(start.wf()) by {
        lemma_same_files_keep_wf(fs, start);
    }
    lemma_appended_keeps_wf(start, appended_fs, idx, buf, n);
    assert forall|i: int| 0 <= i < buf.len() implies #[trigger] written.byte_at(idx, size + i)
        == Ok::<Option<u8>, TfsError>(Some(buf[i])) by {
        let j = i / bs;
        let block = appended_block(appended_fs, idx, base, j);
        lemma_sync_frame(appended_fs, block);
    }
    assert forall|pos: int| 0 <= pos < size && fs.byte_at(idx, pos) is Ok implies
        #[trigger] written.byte_at(idx, pos) == fs.byte_at(idx, pos) by {
        let j = pos / bs;
        let block = old.blocks[j] as int;
        assert(fs.data_block_ok(idx, j));
        assert(has_block(start.disk, block, bs));
        assert forall|k: int| 0 <= k < appended_fs.root.inodes.len() implies (
        #[trigger] appended_fs.root.inodes[k]).block != block by {
        }
        lemma_sync_frame(appended_fs, block);
    }
}

/// Every operation leaves a consistent filesystem consistent, whether it
/// succeeds or fails.
pub proof fn lemma_operations_keep_wf(
    fs: FsModel,
    file: TfsFsFile,
    name: Seq<u8>,
    buf: Seq<u8>,
    now: u32,
)
    requires
        fs.wf(),
        fs.root.inodes.len() < usize::MAX,
    ensures
        fs.sync().0.wf(),
        fs.open(name, now).0.wf(),
        fs.write(file, buf, now).0.wf(),
        fs.read_byte(file, now).0.wf(),
        fs.rename(file, name, now).0.wf(),
{
    lemma_sync_frame(fs, 0);
    lemma_open_keeps_wf(fs, name, now);
    if fs.valid(file) {
        let idx = file.inode as int;
        let n = chunk_count(buf.len() as int);
        let start = fs.with_inode(idx, fs.root.inodes[idx].modified(now));
        lemma_same_files_keep_wf(fs, start);
        lemma_write_chunks(start, idx, buf, n);
        let (written, done) = start.write_chunks(idx, buf, n);
        lemma_appended_keeps_wf(start, written, idx, buf, done);
        lemma_sync_frame(written, 0);
        lemma_same_files_keep_wf(fs, fs.read_byte(file, now).0);
        lemma_same_files_keep_wf(fs, fs.rename(file, name, now).0);
    }
}

proof fn lemma_open_keeps_wf(fs: FsModel, name: Seq<u8>, now: u32)
    requires
        fs.wf(),
        fs.root.inodes.len() < usize::MAX,
    ensures
        fs.open(name, now).0.wf(),
{
    if !name.contains(0u8) {
        match fs.root.find(name) {
            Some(idx) => {
                fs.root.names().index_of_first_ensures(name);
                let touched = fs.with_inode(idx, fs.root.inodes[idx].accessed(now));
                lemma_same_files_keep_wf(fs, touched);
                lemma_sync_frame(touched, 0);
            },
            None => {
                let (created, r) = fs.create_inode(name, now);
                lemma_allocate(fs.superblock, 0);
                assert forall|m: int| #[trigger]
                    fs.superblock.allocated(m) implies created.superblock.allocated(m) by {
                    lemma_allocate(fs.superblock, m);
                }
                match r {
                    Err(_) => {
                        lemma_same_files_keep_wf(fs, created);
                        lemma_sync_frame(created, 0);
                    },
                    Ok(idx) => {
                        let block = first_free(fs.superblock.bitmap);
                        assert forall|i: int, k: int|
                            0 <= i < created.root.inodes.len() && 0 <= k
                                < created.root.inodes[i].blocks.len()
                                implies #[trigger] created.data_block_ok(i, k) by {
                            assert(fs.data_block_ok(i, k));
                        }
                        let touched = created.with_inode(
                            idx as int,
                            created.root.inodes[idx as int].accessed(now),
                        );
                        lemma_same_files_keep_wf(created, touched);
                        lemma_sync_frame(touched, 0);
                    },
                }
            },
        }
    }
}

/// When a write is owed success: where the file is one of the filesystem,
/// the free blocks are enough for the chunks, the file's block list has
/// room for them, every file can be stored, and the directory is clean or
/// within its capacity, the write succeeds.
pub proof fn lemma_write_succeeds(fs: FsModel, file: TfsFsFile, buf: Seq<u8>, now: u32)
    requires
        fs.superblock.wf(),
        fs.valid(file),
        chunk_count(buf.len() as int) <= fs.superblock.free(),
        fs.root.inodes[file.inode as int].blocks.len() + chunk_count(buf.len() as int)
            <= INODE_BLOCKS,
        storable(fs.root),
        !fs.root.dirty || fs.root.inodes.len() <= ROOT_INODES,
    ensures
        fs.write(file, buf, now).2 is Ok,
{
    let idx = file.inode as int;
    let n = chunk_count(buf.len() as int);
    let start = fs.with_inode(idx, fs.root.inodes[idx].modified(now));
    lemma_write_chunks(start, idx, buf, n);
    let (written, done) = start.write_chunks(idx, buf, n);
    lemma_sync_directory_capacity(written);
}

/// Within capacity, what is written is what is read. Where a file of a
/// consistent filesystem ends on a block boundary, as a new file does, and
/// the free blocks, the file's block list and the directory have room, a
/// write of `buf` succeeds, leaves the cursor at the start, and the bytes
/// of `buf` are read from the old end of the file on, up to the new end.
pub proof fn lemma_write_within_capacity(fs: FsModel, file: TfsFsFile, buf: Seq<u8>, now: u32)
    requires
        fs.wf(),
        fs.valid(file),
        block_aligned(fs, file.inode as int),
        chunk_count(buf.len() as int) <= fs.superblock.free(),
        fs.root.inodes[file.inode as int].blocks.len() + chunk_count(buf.len() as int)
            <= INODE_BLOCKS,
        storable(fs.root),
        !fs.root.dirty || fs.root.inodes.len() <= ROOT_INODES,
    ensures
        ({
            let (written, handle, r) = fs.write(file, buf, now);
            let idx = file.inode as int;
            let size = fs.root.inodes[idx].stat.size as int;
            &&& r is Ok
            &&& handle == TfsFsFile { inode: file.inode, offset: 0 }
            &&& written.root.inodes[idx].stat.size == size + buf.len()
            &&& forall|i: int|
                0 <= i < buf.len() ==> #[trigger] written.byte_at(idx, size + i) == Ok::<
                    Option<u8>,
                    TfsError,
                >(Some(buf[i]))
            &&& written.byte_at(idx, size + buf.len()) == Ok::<Option<u8>, TfsError>(None)
        }),
{
    lemma_write_succeeds(fs, file, buf, now);
    lemma_write_then_read(fs, file, buf, now);
}

/// When an open is owed success: where the name has no zero byte, every
/// file can be stored, and either the file exists and the directory is
/// clean or within its capacity, or a block is free and the directory has
/// room for one file more, the open succeeds. Where the file does not
/// exist and no block is free, it fails: with `OutOfSpace`, unless the
/// directory is dirty and beyond its capacity, which the sync reports.
pub proof fn lemma_open_succeeds(fs: FsModel, name: Seq<u8>, now: u32)
    requires
        fs.superblock.wf(),
        fs.root.inodes.len() < usize::MAX,
        !name.contains(0u8),
        storable(fs.root),
    ensures
        fs.root.find(name) is Some && (!fs.root.dirty || fs.root.inodes.len() <= ROOT_INODES)
            ==> fs.open(name, now).1 is Ok,
        fs.root.find(name) is None && !fs.superblock.full() && fs.root.inodes.len()
            < ROOT_INODES ==> fs.open(name, now).1 is Ok,
        fs.root.find(name) is None && fs.superblock.full() ==> fs.open(name, now).1 == Err::<
            TfsFsFile,
            TfsError,
        >(
            if fs.root.dirty && fs.root.inodes.len() > ROOT_INODES {
                TfsError::SizeError { size: fs.root.inodes.len() as usize }
            } else {
                TfsError::OutOfSpace
            },
        ),
{
    fs.root.names().index_of_first_ensures(name);
    let (looked, idx) = match fs.root.find(name) {
        Some(idx) => (fs, Ok::<usize, TfsError>(idx as usize)),
        None => fs.create_inode(name, now),
    };
    match idx {
        Ok(idx) => {
            let touched = looked.with_inode(
                idx as int,
                looked.root.inodes[idx as int].accessed(now),
            );
            lemma_sync_directory_capacity(touched);
        },
        Err(_) => {
            lemma_sync_directory_capacity(looked);
        },
    }
}

/// Whether every file of `before` is a file of `after`, at the same index
/// and in the same block, with the data blocks it had still at the start of
/// its list, in their order.
pub open spec fn files_only_grow(before: FsModel, after: FsModel) -> bool {
    &&& before.root.inodes.len() <= after.root.inodes.len()
    &&& forall|i: int|
        0 <= i < before.root.inodes.len() ==> {
            &&& (#[trigger] after.root.inodes[i]).block == before.root.inodes[i].block
            &&& before.root.inodes[i].blocks.len() <= after.root.inodes[i].blocks.len()
            &&& after.root.inodes[i].blocks.subrange(
                0,
                before.root.inodes[i].blocks.len() as int,
            ) == before.root.inodes[i].blocks
        }
}

/// No operation removes a file, moves its inode, or takes a data block
/// from it: directories and block lists only grow. And no operation frees
/// a block.
pub proof fn lemma_files_only_grow(
    fs: FsModel,
    file: TfsFsFile,
    name: Seq<u8>,
    buf: Seq<u8>,
    now: u32,
    block: int,
)
    requires
        fs.superblock.wf(),
        fs.root.inodes.len() < usize::MAX,
    ensures
        files_only_grow(fs, fs.sync().0),
        files_only_grow(fs, fs.open(name, now).0),
        files_only_grow(fs, fs.write(file, buf, now).0),
        files_only_grow(fs, fs.read_byte(file, now).0),
        files_only_grow(fs, fs.rename(file, name, now).0),
        fs.superblock.allocated(block) ==> {
            &&& fs.sync().0.superblock.allocated(block)
            &&& fs.open(name, now).0.superblock.allocated(block)
            &&& fs.write(file, buf, now).0.superblock.allocated(block)
            &&& fs.read_byte(file, now).0.superblock.allocated(block)
            &&& fs.rename(file, name, now).0.superblock.allocated(block)
        },
{
    lemma_sync_frame(fs, 0);
    lemma_kept_files_grow(fs, fs.sync().0);
    lemma_open_grows(fs, name, now, block);
    lemma_write_grows(fs, file, buf, now, block);
    if fs.valid(file) {
        lemma_same_blocks_grow(fs, fs.read_byte(file, now).0);
        lemma_same_blocks_grow(fs, fs.rename(file, name, now).0);
    }
}

proof fn lemma_open_grows(fs: FsModel, name: Seq<u8>, now: u32, block: int)
    requires
        fs.superblock.wf(),
        fs.root.inodes.len() < usize::MAX,
    ensures
        files_only_grow(fs, fs.open(name, now).0),
        fs.superblock.allocated(block) ==> fs.open(name, now).0.superblock.allocated(block),
{
    if name.contains(0u8) {
        lemma_kept_files_grow(fs, fs);
    } else {
        fs.root.names().index_of_first_ensures(name);
        lemma_allocate(fs.superblock, block);
        let (looked, idx) = match fs.root.find(name) {
            Some(idx) => (fs, Ok::<usize, TfsError>(idx as usize)),
            None => fs.create_inode(name, now),
        };
        let touched = match idx {
            Ok(idx) => looked.with_inode(idx as int, looked.root.inodes[idx as int].accessed(now)),
            Err(_) => looked,
        };
        lemma_sync_frame(touched, 0);
        let opened = touched.sync().0;
        lemma_same_blocks_grow(fs, opened);
    }
}

proof fn lemma_write_grows(fs: FsModel, file: TfsFsFile, buf: Seq<u8>, now: u32, block: int)
    requires
        fs.superblock.wf(),
    ensures
        files_only_grow(fs, fs.write(file, buf, now).0),
        fs.superblock.allocated(block) ==> fs.write(file, buf, now).0.superblock.allocated(block),
{
    if !fs.valid(file) {
        lemma_kept_files_grow(fs, fs);
    } else {
        let idx = file.inode as int;
        let n = chunk_count(buf.len() as int);
        let start = fs.with_inode(idx, fs.root.inodes[idx].modified(now));
        lemma_write_chunks(start, idx, buf, n);
        let (written, done) = start.write_chunks(idx, buf, n);
        lemma_sync_frame(written, 0);
        let after = fs.write(file, buf, now).0;
        assert forall|i: int| 0 <= i < fs.root.inodes.len() implies ({
            &&& (#[trigger] after.root.inodes[i]).block == fs.root.inodes[i].block
            &&& fs.root.inodes[i].blocks.len() <= after.root.inodes[i].blocks.len()
            &&& after.root.inodes[i].blocks.subrange(0, fs.root.inodes[i].blocks.len() as int)
                == fs.root.inodes[i].blocks
        }) by {
        }
    }
}

proof fn lemma_kept_files_grow(before: FsModel, after: FsModel)
    requires
        after.root.inodes.len() == before.root.inodes.len(),
        forall|i: int|
            0 <= i < before.root.inodes.len() ==> same_file(
                #[trigger] after.root.inodes[i],
                before.root.inodes[i],
            ),
    ensures
        files_only_grow(before, after),
{
    lemma_same_blocks_grow(before, after);
}

proof fn lemma_same_blocks_grow(before: FsModel, after: FsModel)
    requires
        before.root.inodes.len() <= after.root.inodes.len(),
        forall|i: int|
            0 <= i < before.root.inodes.len() ==> (#[trigger] after.root.inodes[i]).block
                == before.root.inodes[i].block && after.root.inodes[i].blocks
                == before.root.inodes[i].blocks,
    ensures
        files_only_grow(before, after),
{
    assert forall|i: int| 0 <= i < before.root.inodes.len() implies (
    #[trigger] after.root.inodes[i]).blocks.subrange(
        0,
        before.root.inodes[i].blocks.len() as int,
    ) == before.root.inodes[i].blocks by {
    }
}

} // verus!
