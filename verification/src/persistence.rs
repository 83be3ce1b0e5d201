//! What a sync leaves on the disk, and what a mount finds there.

use vstd::prelude::*;

use crate::disk::{
    block_of, has_block, lemma_store_keeps_others, lemma_store_then_read, store_block,
};
use crate::error::TfsError;
use crate::fs::{chunk_count, FsModel, TfsFsFile};
use crate::inode::{same_file, INodeModel};
use crate::root::{entry_field, load_inodes, sync_inodes, RootModel};
use crate::structures::{RootRecord, SuperBlockRecord, MAX_FILENAME_LEN, ROOT_INODES};
use crate::superblock::{ROOT_BLOCK, SUPERBLOCK_BLOCK};
use crate::theorems::{
    appended, lemma_allocate, lemma_appended_keeps_wf, lemma_same_files_keep_wf,
    lemma_sync_frame, lemma_sync_never_out_of_space, lemma_write_chunks,
};
use crate::BLOCK_SIZE;

verus! {

/// Whether `a` and `b` are the same file with the same content: the same
/// inode block, name, size and data blocks. Times and dirty marks may
/// differ.
pub open spec fn same_content(a: INodeModel, b: INodeModel) -> bool {
    a.block == b.block && a.filename == b.filename && a.stat.size == b.stat.size && a.blocks
        == b.blocks
}

/// Whether `disk` holds `inode`: loading the inode's block gives the same
/// file with the same content.
pub open spec fn inode_on_disk(inode: INodeModel, disk: Seq<u8>) -> bool {
    INodeModel::load(inode.block, disk) matches Ok(loaded) && same_content(loaded, inode)
}

impl FsModel {
    /// Whether block 0 of the disk holds the allocator as it is in memory.
    pub open spec fn superblock_on_disk(self) -> bool {
        has_block(self.disk, SUPERBLOCK_BLOCK as int, BLOCK_SIZE as int) && SuperBlockRecord::parse(
            block_of(self.disk, SUPERBLOCK_BLOCK as int, BLOCK_SIZE as int),
        ) == self.superblock.record()
    }

    /// Whether block 1 of the disk holds the list of files as it is in
    /// memory.
    pub open spec fn root_on_disk(self) -> bool {
        self.root.inodes.len() <= ROOT_INODES && has_block(
            self.disk,
            ROOT_BLOCK as int,
            BLOCK_SIZE as int,
        ) && RootRecord::parse(block_of(self.disk, ROOT_BLOCK as int, BLOCK_SIZE as int)).inodes
            == entry_field(self.root.inode_blocks())
    }

    /// The dirty marks are right: what is not marked dirty is on the disk
    /// as it is in memory, times apart.
    pub open spec fn coherent(self) -> bool {
        &&& !self.superblock.dirty ==> self.superblock_on_disk()
        &&& !self.root.dirty ==> self.root_on_disk()
        &&& forall|i: int|
            0 <= i < self.root.inodes.len() && !(#[trigger] self.root.inodes[i]).dirty
                ==> inode_on_disk(self.root.inodes[i], self.disk)
    }

    /// Everything is on the disk as it is in memory, times apart.
    pub open spec fn persistent(self) -> bool {
        &&& self.superblock_on_disk()
        &&& self.root_on_disk()
        &&& forall|i: int|
            0 <= i < self.root.inodes.len() ==> inode_on_disk(
                #[trigger] self.root.inodes[i],
                self.disk,
            )
    }
}

proof fn lemma_load_persistent(inodes: Seq<INodeModel>, disk: Seq<u8>, n: int)
    requires
        inodes.len() <= ROOT_INODES,
        0 <= n <= ROOT_INODES,
        forall|i: int| 0 <= i < inodes.len() ==> (#[trigger] inodes[i]).block != 0,
        forall|i: int| 0 <= i < inodes.len() ==> inode_on_disk(#[trigger] inodes[i], disk),
    ensures
        ({
            let blocks = Seq::new(inodes.len(), |i: int| inodes[i].block);
            let count = if n <= inodes.len() {
                n
            } else {
                inodes.len() as int
            };
            &&& load_inodes(entry_field(blocks), disk, n) matches Ok(loaded)
            &&& loaded.len() == count
            &&& forall|i: int| 0 <= i < count ==> same_content(#[trigger] loaded[i], inodes[i])
        }),
    decreases n,
{
    if n > 0 {
        lemma_load_persistent(inodes, disk, n - 1);
    }
}

/// What is on the disk is what a mount gives: mounting the disk of a
/// consistent filesystem that is all on the disk succeeds, and gives the
/// same bitmap and the same files with the same content, all clean.
pub proof fn lemma_mount_of_persistent(fs: FsModel)
    requires
        fs.wf(),
        fs.persistent(),
    ensures
        FsModel::mount(fs.disk) is Ok,
        ({
            let mounted = FsModel::mount(fs.disk)->Ok_0;
            &&& mounted.disk == fs.disk
            &&& mounted.superblock.bitmap == fs.superblock.bitmap
            &&& !mounted.superblock.dirty
            &&& !mounted.root.dirty
            &&& mounted.root.inodes.len() == fs.root.inodes.len()
            &&& forall|i: int|
                0 <= i < fs.root.inodes.len() ==> same_content(
                    #[trigger] mounted.root.inodes[i],
                    fs.root.inodes[i],
                )
        }),
{
    lemma_load_persistent(fs.root.inodes, fs.disk, ROOT_INODES as int);
}

/// Whether the name of `inode` is stored whole and read back as it is: it
/// fits the name field and is UTF-8.
pub open spec fn name_fits(inode: INodeModel) -> bool {
    inode.filename.len() <= MAX_FILENAME_LEN && vstd::utf8::valid_utf8(inode.filename)
}

/// What a store of one block leaves of an inode in another block.
proof fn lemma_inode_stays_on_disk(
    inode: INodeModel,
    disk: Seq<u8>,
    num: int,
    data: Seq<u8>,
)
    requires
        0 <= num,
        num != inode.block,
        inode_on_disk(inode, disk),
    ensures
        inode_on_disk(inode, store_block(disk, num, BLOCK_SIZE as int, data)),
{
    lemma_store_keeps_others(disk, num, BLOCK_SIZE as int, data, inode.block as int);
}

proof fn lemma_sync_inodes_persist(inodes: Seq<INodeModel>, disk: Seq<u8>, n: int)
    requires
        0 <= n <= inodes.len(),
        forall|i: int, j: int|
            0 <= i < inodes.len() && 0 <= j < inodes.len() && i != j ==> (
            #[trigger] inodes[i]).block != (#[trigger] inodes[j]).block,
        forall|i: int|
            0 <= i < inodes.len() ==> if (#[trigger] inodes[i]).dirty {
                name_fits(inodes[i]) && forall|k: int|
                    0 <= k < inodes[i].blocks.len() ==> inodes[i].blocks[k] != 0
            } else {
                inode_on_disk(inodes[i], disk)
            },
        sync_inodes(inodes, disk, n).2 is Ok,
    ensures
        forall|i: int|
            0 <= i < inodes.len() && (i < n || !inodes[i].dirty) ==> inode_on_disk(
                #[trigger] inodes[i],
                sync_inodes(inodes, disk, n).1,
            ),
    decreases n,
{
    if n > 0 {
        let (synced, written, r) = sync_inodes(inodes, disk, n - 1);
        lemma_sync_inodes_persist(inodes, disk, n - 1);
        crate::root::lemma_sync_inodes_frame(inodes, disk, n - 1, 0);
        let inode = inodes[n - 1];
        let after = inode.sync(written).1;
        if inode.dirty {
            let record = inode.record()->Ok_0;
            crate::inode::lemma_inode_round_trip(inode, written);
            assert forall|i: int|
                0 <= i < inodes.len() && (i < n || !inodes[i].dirty) implies inode_on_disk(
                #[trigger] inodes[i],
                after,
            ) by {
                if i != n - 1 {
                    lemma_inode_stays_on_disk(
                        inodes[i],
                        written,
                        inode.block as int,
                        record.layout(),
                    );
                }
            }
        }
    }
}

/// A sync makes everything persistent. After a successful sync of a
/// consistent filesystem whose dirty marks are right, and whose dirty
/// inodes have names that fit, everything is on the disk as it is in
/// memory, and nothing is dirty.
pub proof fn lemma_sync_persists(fs: FsModel)
    requires
        fs.wf(),
        fs.coherent(),
        forall|i: int|
            0 <= i < fs.root.inodes.len() && (#[trigger] fs.root.inodes[i]).dirty ==> name_fits(
                fs.root.inodes[i],
            ),
        fs.sync().1 is Ok,
    ensures
        fs.sync().0.persistent(),
        fs.sync().0.coherent(),
        fs.sync().0.wf(),
{
    let bs = BLOCK_SIZE as int;
    let (superblock, first) = fs.superblock.sync(fs.disk);
    let record = fs.superblock.record();
    record.lemma_round_trip();
    let inodes = fs.root.inodes;
    let n = inodes.len() as int;
    // After the superblock is written.
    if fs.superblock.dirty {
        lemma_store_then_read(fs.disk, 0, bs, record.layout());
        assert forall|i: int| 0 <= i < n && !(#[trigger] inodes[i]).dirty implies inode_on_disk(
            inodes[i],
            first,
        ) by {
            lemma_inode_stays_on_disk(inodes[i], fs.disk, 0, record.layout());
        }
        if !fs.root.dirty {
            lemma_store_keeps_others(fs.disk, 0, bs, record.layout(), 1);
        }
    }
    // After the inodes are written.
    assert forall|i: int| 0 <= i < n implies if (#[trigger] inodes[i]).dirty {
        name_fits(inodes[i]) && forall|k: int|
            0 <= k < inodes[i].blocks.len() ==> inodes[i].blocks[k] != 0
    } else {
        inode_on_disk(inodes[i], first)
    } by {
        assert forall|k: int| 0 <= k < inodes[i].blocks.len() implies inodes[i].blocks[k]
            != 0 by {
            assert(fs.data_block_ok(i, k));
        }
    }
    let (synced, second, r) = sync_inodes(inodes, first, n);
    lemma_sync_inodes_persist(inodes, first, n);
    crate::root::lemma_sync_inodes_frame(inodes, first, n, 0);
    crate::root::lemma_sync_inodes_frame(inodes, first, n, 1);
    // After the list of files is written.
    let listed = RootModel { inodes: synced, ..fs.root };
    let (root, third, r) = listed.sync_entries(second);
    if fs.root.dirty {
        let entries = listed.record()->Ok_0;
        entries.lemma_round_trip();
        lemma_store_then_read(second, 1, bs, entries.layout());
        lemma_store_keeps_others(second, 1, bs, entries.layout(), 0);
        assert forall|i: int| 0 <= i < n implies inode_on_disk(#[trigger] inodes[i], third) by {
            lemma_inode_stays_on_disk(inodes[i], second, 1, entries.layout());
        }
    }
    assert(root.inode_blocks() =~= fs.root.inode_blocks());
    lemma_sync_frame(fs, 0);
}

/// Whether the name of every file fits.
pub open spec fn names_fit(fs: FsModel) -> bool {
    forall|i: int| 0 <= i < fs.root.inodes.len() ==> name_fits(#[trigger] fs.root.inodes[i])
}

/// The filesystem as an open leaves it before its sync: the file looked up
/// or created, and its access time set.
pub open spec fn opened_unsynced(fs: FsModel, name: Seq<u8>, now: u32) -> FsModel {
    let (looked, idx) = match fs.root.find(name) {
        Some(idx) => (fs, Ok::<usize, TfsError>(idx as usize)),
        None => fs.create_inode(name, now),
    };
    match idx {
        Ok(idx) => looked.with_inode(idx as int, looked.root.inodes[idx as int].accessed(now)),
        Err(_) => looked,
    }
}

/// The filesystem as a write leaves it before its sync: the modification
/// time set and the chunks appended.
pub open spec fn written_unsynced(fs: FsModel, file: TfsFsFile, buf: Seq<u8>, now: u32) -> FsModel {
    fs.with_inode(
        file.inode as int,
        fs.root.inodes[file.inode as int].modified(now),
    ).write_chunks(file.inode as int, buf, chunk_count(buf.len() as int)).0
}

proof fn lemma_opened_unsynced(fs: FsModel, name: Seq<u8>, now: u32)
    requires
        fs.wf(),
        fs.coherent(),
        names_fit(fs),
        fs.root.inodes.len() < usize::MAX,
        !name.contains(0u8),
        name.len() <= MAX_FILENAME_LEN,
        vstd::utf8::valid_utf8(name),
    ensures
        fs.open(name, now).0 == opened_unsynced(fs, name, now).sync().0,
        fs.open(name, now).1 is Ok ==> opened_unsynced(fs, name, now).sync().1 is Ok,
        opened_unsynced(fs, name, now).wf(),
        opened_unsynced(fs, name, now).coherent(),
        names_fit(opened_unsynced(fs, name, now)),
{
    let unsynced = opened_unsynced(fs, name, now);
    fs.root.names().index_of_first_ensures(name);
    match fs.root.find(name) {
        Some(idx) => {
            lemma_same_files_keep_wf(fs, unsynced);
            assert(unsynced.root.inode_blocks() =~= fs.root.inode_blocks());
        },
        None => {
            let (created, r) = fs.create_inode(name, now);
            lemma_allocate(fs.superblock, 0);
            assert forall|m: int| #[trigger]
                fs.superblock.allocated(m) implies created.superblock.allocated(m) by {
                lemma_allocate(fs.superblock, m);
            }
            match r {
                Err(_) => {
                    lemma_same_files_keep_wf(fs, created);
                },
                Ok(idx) => {
                    assert forall|i: int, k: int|
                        0 <= i < created.root.inodes.len() && 0 <= k
                            < created.root.inodes[i].blocks.len()
                            implies #[trigger] created.data_block_ok(i, k) by {
                        assert(fs.data_block_ok(i, k));
                    }
                    lemma_same_files_keep_wf(created, unsynced);
                },
            }
        },
    }
}

proof fn lemma_written_unsynced(fs: FsModel, file: TfsFsFile, buf: Seq<u8>, now: u32)
    requires
        fs.wf(),
        fs.coherent(),
        names_fit(fs),
        fs.valid(file),
    ensures
        written_unsynced(fs, file, buf, now).wf(),
        written_unsynced(fs, file, buf, now).coherent(),
        names_fit(written_unsynced(fs, file, buf, now)),
        fs.write(file, buf, now).2 is Ok ==> fs.write(file, buf, now).0 == written_unsynced(
            fs,
            file,
            buf,
            now,
        ).sync().0 && written_unsynced(fs, file, buf, now).sync().1 is Ok,
        fs.write(file, buf, now).2 is Err ==> fs.write(file, buf, now).0 == written_unsynced(
            fs,
            file,
            buf,
            now,
        ) || fs.write(file, buf, now).0 == written_unsynced(fs, file, buf, now).sync().0,
{
    let idx = file.inode as int;
    let n = chunk_count(buf.len() as int);
    let start = fs.with_inode(idx, fs.root.inodes[idx].modified(now));
    lemma_same_files_keep_wf(fs, start);
    assert(start.coherent()) by {
        assert(start.root.inode_blocks() =~= fs.root.inode_blocks());
    }
    lemma_write_chunks(start, idx, buf, n);
    let (written, done) = start.write_chunks(idx, buf, n);
    lemma_appended_keeps_wf(start, written, idx, buf, done);
    lemma_first_chunk_marks(start, idx, buf, n);
    lemma_appended_keeps_coherent(start, written, idx, buf, done);
}

/// The first chunk marks the allocator dirty, whether it finds a block or
/// not.
proof fn lemma_first_chunk_marks(fs: FsModel, idx: int, buf: Seq<u8>, n: int)
    requires
        0 <= n,
    ensures
        n == 0 ==> fs.write_chunks(idx, buf, n).0 == fs,
        n > 0 ==> fs.write_chunks(idx, buf, n).0.superblock.dirty,
    decreases n,
{
    if n > 0 {
        lemma_first_chunk_marks(fs, idx, buf, n - 1);
    }
}

proof fn lemma_appended_keeps_coherent(
    before: FsModel,
    after: FsModel,
    idx: int,
    buf: Seq<u8>,
    done: int,
)
    requires
        before.wf(),
        before.coherent(),
        names_fit(before),
        0 <= idx < before.root.inodes.len(),
        0 <= done,
        appended(before, after, idx, buf, done),
        after == before || after.superblock.dirty,
    ensures
        after.coherent(),
        names_fit(after),
{
    if after != before {
        assert(after.root.inode_blocks() =~= before.root.inode_blocks());
        assert forall|i: int|
            0 <= i < after.root.inodes.len() && !(#[trigger] after.root.inodes[i]).dirty
                implies inode_on_disk(after.root.inodes[i], after.disk) by {
            let inode = before.root.inodes[i];
            let block = inode.block as int;
            if i == idx {
                assert(after.root.inodes[i].blocks =~= after.root.inodes[i].blocks.subrange(
                    0,
                    inode.blocks.len() as int,
                ));
            }
        }
    }
}

/// The dirty marks stay right. Of a consistent filesystem whose dirty marks
/// are right and whose names fit: a successful sync, open or write leaves
/// everything on the disk; a write that finds no block, a read and a rename
/// leave the dirty marks right.
pub proof fn lemma_operations_keep_coherent(
    fs: FsModel,
    file: TfsFsFile,
    name: Seq<u8>,
    buf: Seq<u8>,
    now: u32,
)
    requires
        fs.wf(),
        fs.coherent(),
        names_fit(fs),
        fs.root.inodes.len() < usize::MAX,
        !name.contains(0u8),
        name.len() <= MAX_FILENAME_LEN,
        vstd::utf8::valid_utf8(name),
    ensures
        fs.sync().1 is Ok ==> fs.sync().0.persistent(),
        fs.open(name, now).1 is Ok ==> fs.open(name, now).0.persistent() && names_fit(
            fs.open(name, now).0,
        ),
        fs.write(file, buf, now).2 is Ok ==> fs.write(file, buf, now).0.persistent(),
        fs.write(file, buf, now).2 == Err::<(), TfsError>(TfsError::OutOfSpace) ==> fs.write(
            file,
            buf,
            now,
        ).0.coherent(),
        names_fit(fs.write(file, buf, now).0),
        fs.read_byte(file, now).0.coherent(),
        names_fit(fs.read_byte(file, now).0),
        fs.rename(file, name, now).0.coherent(),
        names_fit(fs.rename(file, name, now).0),
{
    if fs.sync().1 is Ok {
        lemma_sync_persists(fs);
    }
    lemma_opened_unsynced(fs, name, now);
    let unsynced = opened_unsynced(fs, name, now);
    lemma_sync_frame(unsynced, 0);
    if fs.open(name, now).1 is Ok {
        lemma_sync_persists(unsynced);
    }
    if fs.valid(file) {
        lemma_written_unsynced(fs, file, buf, now);
        let written = written_unsynced(fs, file, buf, now);
        lemma_sync_frame(written, 0);
        lemma_sync_never_out_of_space(written);
        if fs.write(file, buf, now).2 is Ok {
            lemma_sync_persists(written);
        }
        let read = fs.read_byte(file, now).0;
        assert(read.root.inode_blocks() =~= fs.root.inode_blocks());
        let renamed = fs.rename(file, name, now).0;
        assert(renamed.root.inode_blocks() =~= fs.root.inode_blocks());
    }
}

/// A freshly formatted and mounted filesystem has everything on the disk.
pub proof fn lemma_mkfs_is_persistent(image: Seq<u8>, size: usize)
    requires
        size % BLOCK_SIZE == 0,
        size <= isize::MAX,
    ensures
        FsModel::mount(FsModel::mkfs(image, size)->Ok_0) is Ok,
        FsModel::mount(FsModel::mkfs(image, size)->Ok_0)->Ok_0.wf(),
        FsModel::mount(FsModel::mkfs(image, size)->Ok_0)->Ok_0.persistent(),
        FsModel::mount(FsModel::mkfs(image, size)->Ok_0)->Ok_0.coherent(),
        names_fit(FsModel::mount(FsModel::mkfs(image, size)->Ok_0)->Ok_0),
{
    crate::theorems::lemma_mkfs_then_mount(image, size);
    let mounted = FsModel::mount(FsModel::mkfs(image, size)->Ok_0)->Ok_0;
    assert(mounted.root.inode_blocks() =~= Seq::<u16>::empty());
}

} // verus!
