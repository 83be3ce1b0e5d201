//! The filesystem: allocator, directory and disk under one owner.

use vstd::prelude::*;
use vstd::slice::slice_subrange;
use vstd::utf8::encode_utf8;

use crate::clock::unix_now;
use crate::disk::{block_of, has_block, store_block, Disk, DiskError};
use crate::error::{view_of, TfsError, TfsResult};
use crate::inode::{INodeModel, Stat};
use crate::root::{Root, RootModel};
use crate::structures::{RootData, RootRecord, SuperBlockData, SuperBlockRecord, MAGIC_NUMBER};
use crate::superblock::{
    lemma_superblock_of_record, SuperBlock, SuperBlockModel, ROOT_BLOCK, SUPERBLOCK_BLOCK,
};
use crate::BLOCK_SIZE;

verus! {

/// An open file: the index of its inode in the directory, and the cursor
/// that the next read starts at.
#[derive(Debug, Clone, Copy, PartialEq, Eq)]
pub struct TfsFsFile {
    pub inode: usize,
    pub offset: usize,
}

/// One entry of a directory listing.
#[derive(Debug, Clone)]
pub struct ReadDirEntry {
    pub filename: String,
    pub stat: Stat,
}

/// What a `ReadDirEntry` holds. The name is the UTF-8 bytes of the file's
/// name.
pub struct DirEntryModel {
    pub filename: Seq<u8>,
    pub stat: Stat,
}

impl View for ReadDirEntry {
    type V = DirEntryModel;

    open spec fn view(&self) -> DirEntryModel {
        DirEntryModel { filename: encode_utf8(self.filename@), stat: self.stat }
    }
}

/// `image` with its first `n` bytes zeroed, extended with zero bytes where
/// it is shorter than `n`.
pub open spec fn zero_filled(image: Seq<u8>, n: int) -> Seq<u8> {
    Seq::new(
        if image.len() >= n {
            image.len()
        } else {
            n as nat
        },
        |i: int|
            if i < n {
                0u8
            } else {
                image[i]
            },
    )
}

/// The number of chunks of at most a block that `len` bytes are written in.
pub open spec fn chunk_count(len: int) -> int {
    (len + BLOCK_SIZE - 1) / (BLOCK_SIZE as int)
}

/// Chunk number `k` of `buf`.
pub open spec fn chunk(buf: Seq<u8>, k: int) -> Seq<u8> {
    buf.subrange(
        k * BLOCK_SIZE,
        if (k + 1) * BLOCK_SIZE <= buf.len() {
            (k + 1) * BLOCK_SIZE
        } else {
            buf.len() as int
        },
    )
}

/// `data` as a whole block: padded with zero bytes.
pub open spec fn padded(data: Seq<u8>) -> Seq<u8> {
    Seq::new(
        BLOCK_SIZE as nat,
        |i: int|
            if i < data.len() {
                data[i]
            } else {
                0u8
            },
    )
}

/// What a `TfsFs` holds: the allocator, the directory, and the bytes of the
/// disk under them.
pub struct FsModel {
    pub superblock: SuperBlockModel,
    pub root: RootModel,
    pub disk: Seq<u8>,
}

impl FsModel {
    /// A new filesystem over `disk`: blocks 0 and 1 allocated, no files,
    /// nothing written yet.
    pub open spec fn fresh(disk: Seq<u8>) -> FsModel {
        FsModel {
            superblock: SuperBlockModel::fresh().mark(SUPERBLOCK_BLOCK as int, true).mark(
                ROOT_BLOCK as int,
                true,
            ),
            root: RootModel::fresh(),
            disk,
        }
    }

    /// Writes what is dirty: the superblock, then every inode, then the
    /// directory. The first failure stops the rest.
    pub open spec fn sync(self) -> (FsModel, Result<(), TfsError>) {
        let (superblock, disk) = self.superblock.sync(self.disk);
        let (root, disk, r) = self.root.sync(disk);
        (FsModel { superblock, root, disk }, r)
    }

    /// The image of a device of `size` bytes formatted over `image`: the
    /// first `size` bytes zeroed, then the superblock and the empty
    /// directory of a new filesystem written.
    pub open spec fn format(image: Seq<u8>, size: int) -> Seq<u8> {
        Self::fresh(zero_filled(image, size)).sync().0.disk
    }

    /// Formatting a device of `size` bytes over `image`. A size that is no
    /// multiple of the block size is refused, and so is one beyond what an
    /// image can hold.
    pub open spec fn mkfs(image: Seq<u8>, size: usize) -> Result<Seq<u8>, TfsError> {
        if size % BLOCK_SIZE != 0 {
            Err(TfsError::DiskError(DiskError::InvalidSize { block_size: BLOCK_SIZE }))
        } else if size > isize::MAX {
            Err(TfsError::DiskError(DiskError::IoError))
        } else {
            Ok(Self::format(image, size as int))
        }
    }

    /// The filesystem that `image` holds: the superblock from block 0, the
    /// directory from the block that the superblock points to, each inode
    /// from its block. Everything starts clean.
    pub open spec fn mount(image: Seq<u8>) -> Result<FsModel, TfsError> {
        if !has_block(image, SUPERBLOCK_BLOCK as int, BLOCK_SIZE as int) {
            Err(TfsError::DiskError(DiskError::IoError))
        } else {
            let first = block_of(image, SUPERBLOCK_BLOCK as int, BLOCK_SIZE as int);
            let superblock = SuperBlockRecord::parse(first);
            if superblock.magic_number != MAGIC_NUMBER {
                Err(TfsError::MagicNumberError(superblock.magic_number))
            } else if !has_block(image, superblock.root_inode as int, BLOCK_SIZE as int) {
                Err(TfsError::DiskError(DiskError::IoError))
            } else {
                let entries = RootRecord::parse(
                    block_of(image, superblock.root_inode as int, BLOCK_SIZE as int),
                );
                match RootModel::load(entries, image) {
                    Err(e) => Err(e),
                    Ok(root) => Ok(
                        FsModel {
                            superblock: SuperBlockModel {
                                dirty: false,
                                bitmap: superblock.allocated_blocks,
                            },
                            root,
                            disk: image,
                        },
                    ),
                }
            }
        }
    }

    /// The filesystem with `inode` in place of the inode at `idx`.
    pub open spec fn with_inode(self, idx: int, inode: INodeModel) -> FsModel {
        FsModel { root: self.root.with_inode(idx, inode), ..self }
    }

    /// Whether `file` names a file of this filesystem.
    pub open spec fn valid(self, file: TfsFsFile) -> bool {
        file.inode < self.root.inodes.len()
    }

    /// Allocates a block and appends the inode of a new empty file named
    /// `filename` there. Fails with `OutOfSpace` when no block is free.
    pub open spec fn create_inode(self, filename: Seq<u8>, now: u32) -> (
        FsModel,
        Result<usize, TfsError>,
    ) {
        let (superblock, block) = self.superblock.allocate();
        match block {
            None => (FsModel { superblock, ..self }, Err(TfsError::OutOfSpace)),
            Some(block) => {
                let (root, idx) = self.root.create_inode(block, filename, now);
                (FsModel { superblock, root, ..self }, Ok(idx))
            },
        }
    }

    /// Opens the file named `filename` at `now`, creating it where the
    /// directory has none of that name. A name with a zero byte is refused
    /// before anything changes. Otherwise the file's access time is set, the
    /// filesystem is synced, and the handle starts at the beginning of the
    /// file. Where no block is free for a new file the sync still takes
    /// place, and its failure, if it fails, is what is reported.
    pub open spec fn open(self, filename: Seq<u8>, now: u32) -> (
        FsModel,
        Result<TfsFsFile, TfsError>,
    ) {
        if filename.contains(0u8) {
            (self, Err(TfsError::FilenameError))
        } else {
            let (looked, idx) = match self.root.find(filename) {
                Some(idx) => (self, Ok::<usize, TfsError>(idx as usize)),
                None => self.create_inode(filename, now),
            };
            match idx {
                Ok(idx) => {
                    let (synced, r) = looked.with_inode(
                        idx as int,
                        looked.root.inodes[idx as int].accessed(now),
                    ).sync();
                    match r {
                        Ok(()) => (synced, Ok(TfsFsFile { inode: idx, offset: 0 })),
                        Err(e) => (synced, Err(e)),
                    }
                },
                Err(full) => {
                    let (synced, r) = looked.sync();
                    match r {
                        Ok(()) => (synced, Err(full)),
                        Err(e) => (synced, Err(e)),
                    }
                },
            }
        }
    }

    /// Appends one chunk of at most a block to the file at `idx`: a block
    /// is allocated and appended to the file's blocks, the chunk is stored
    /// there, padded with zeros, and the size grows by the chunk's length.
    /// Where no block is free nothing but the superblock's dirty mark
    /// changes, and `false` is returned.
    pub open spec fn write_chunk(self, idx: int, data: Seq<u8>) -> (FsModel, bool) {
        let (superblock, block) = self.superblock.allocate();
        match block {
            None => (FsModel { superblock, ..self }, false),
            Some(block) => (
                FsModel {
                    superblock,
                    root: self.root.with_inode(
                        idx,
                        self.root.inodes[idx].push_block(block).grow(data.len() as int),
                    ),
                    disk: store_block(self.disk, block as int, BLOCK_SIZE as int, padded(data)),
                },
                true,
            ),
        }
    }

    /// Appends the first `n` chunks of `buf` to the file at `idx`, stopping
    /// at the first for which no block is free. Returns the filesystem and
    /// the number of chunks appended.
    pub open spec fn write_chunks(self, idx: int, buf: Seq<u8>, n: int) -> (FsModel, int)
        decreases n,
    {
        if n <= 0 {
            (self, 0)
        } else {
            let (written, done) = self.write_chunks(idx, buf, n - 1);
            if done < n - 1 {
                (written, done)
            } else {
                let (written, ok) = written.write_chunk(idx, chunk(buf, n - 1));
                (
                    written,
                    if ok {
                        n
                    } else {
                        n - 1
                    },
                )
            }
        }
    }

    /// Appends `buf` to `file` at `now`. The modification time is set, then
    /// the chunks of `buf` are appended one by one. Where they all fit, the
    /// cursor goes back to the start and the filesystem is synced. Where a
    /// block is missing, the chunks before it stay written, the cursor has
    /// moved past them, and nothing is synced.
    pub open spec fn write(self, file: TfsFsFile, buf: Seq<u8>, now: u32) -> (
        FsModel,
        TfsFsFile,
        Result<(), TfsError>,
    ) {
        if !self.valid(file) {
            (self, file, Err(TfsError::InvalidDesc))
        } else {
            let idx = file.inode as int;
            let n = chunk_count(buf.len() as int);
            let (written, done) = self.with_inode(
                idx,
                self.root.inodes[idx].modified(now),
            ).write_chunks(idx, buf, n);
            if done < n {
                (
                    written,
                    TfsFsFile { offset: (file.offset + done * BLOCK_SIZE) as usize, ..file },
                    Err(TfsError::OutOfSpace),
                )
            } else {
                let (synced, r) = written.sync();
                (synced, TfsFsFile { offset: 0, ..file }, r)
            }
        }
    }

    /// What a read of the file at `idx` with the cursor at `pos` gives:
    /// nothing at or beyond the file's size, else the byte at `pos % B` of
    /// the file's block number `pos / B`. A block that the file's list or
    /// the disk does not have is an `IoError`.
    pub open spec fn byte_at(self, idx: int, pos: int) -> Result<Option<u8>, TfsError> {
        let inode = self.root.inodes[idx];
        if pos >= inode.stat.size {
            Ok(None)
        } else if pos / (BLOCK_SIZE as int) >= inode.blocks.len() {
            Err(TfsError::DiskError(DiskError::IoError))
        } else {
            let block = inode.blocks[pos / (BLOCK_SIZE as int)] as int;
            if !has_block(self.disk, block, BLOCK_SIZE as int) {
                Err(TfsError::DiskError(DiskError::IoError))
            } else {
                Ok(Some(block_of(self.disk, block, BLOCK_SIZE as int)[pos % (BLOCK_SIZE as int)]))
            }
        }
    }

    /// Reads the byte under the cursor of `file` at `now`. The access time
    /// is set; the cursor moves on where a byte was read.
    pub open spec fn read_byte(self, file: TfsFsFile, now: u32) -> (
        FsModel,
        TfsFsFile,
        Result<Option<u8>, TfsError>,
    ) {
        if !self.valid(file) {
            (self, file, Err(TfsError::InvalidDesc))
        } else {
            let idx = file.inode as int;
            let read = self.with_inode(idx, self.root.inodes[idx].accessed(now));
            let r = read.byte_at(idx, file.offset as int);
            (
                read,
                if r matches Ok(Some(_)) {
                    TfsFsFile { offset: (file.offset + 1) as usize, ..file }
                } else {
                    file
                },
                r,
            )
        }
    }

    /// Renames `file` to `filename` at `now`: the name and the modification
    /// time change, and the inode is dirty. Nothing is synced. A name with
    /// a zero byte is refused.
    pub open spec fn rename(self, file: TfsFsFile, filename: Seq<u8>, now: u32) -> (
        FsModel,
        Result<(), TfsError>,
    ) {
        if !self.valid(file) {
            (self, Err(TfsError::InvalidDesc))
        } else if filename.contains(0u8) {
            (self, Err(TfsError::FilenameError))
        } else {
            (
                self.with_inode(
                    file.inode as int,
                    self.root.inodes[file.inode as int].rename(filename, now),
                ),
                Ok(()),
            )
        }
    }

    /// The metadata of `file`.
    pub open spec fn stat(self, file: TfsFsFile) -> Result<Stat, TfsError> {
        if !self.valid(file) {
            Err(TfsError::InvalidDesc)
        } else {
            Ok(self.root.inodes[file.inode as int].stat)
        }
    }

    /// The name and the metadata of every file, in directory order.
    pub open spec fn readdir(self) -> Seq<DirEntryModel> {
        Seq::new(
            self.root.inodes.len(),
            |i: int|
                DirEntryModel {
                    filename: self.root.inodes[i].filename,
                    stat: self.root.inodes[i].stat,
                },
        )
    }

    /// Whether no inode lives in `block`, nor the superblock, nor the
    /// directory.
    pub open spec fn holds_no_record(self, block: int) -> bool {
        &&& block != SUPERBLOCK_BLOCK
        &&& block != ROOT_BLOCK
        &&& forall|i: int|
            0 <= i < self.root.inodes.len() ==> (#[trigger] self.root.inodes[i]).block != block
    }

    /// Whether data block `k` of the file at `i` is allocated and holds no
    /// record.
    pub open spec fn data_block_ok(self, i: int, k: int) -> bool {
        self.superblock.allocated(self.root.inodes[i].blocks[k] as int) && self.holds_no_record(
            self.root.inodes[i].blocks[k] as int,
        )
    }

    /// The filesystem is consistent: blocks 0 and 1 are allocated; the
    /// block of every inode is allocated, is neither of the two, and is the
    /// block of no other inode; every data block is allocated and holds no
    /// record.
    pub open spec fn wf(self) -> bool {
        &&& self.superblock.wf()
        &&& self.superblock.allocated(SUPERBLOCK_BLOCK as int)
        &&& self.superblock.allocated(ROOT_BLOCK as int)
        &&& forall|i: int|
            0 <= i < self.root.inodes.len() ==> {
                &&& self.superblock.allocated((#[trigger] self.root.inodes[i]).block as int)
                &&& self.root.inodes[i].block != SUPERBLOCK_BLOCK
                &&& self.root.inodes[i].block != ROOT_BLOCK
            }
        &&& forall|i: int, j: int|
            0 <= i < self.root.inodes.len() && 0 <= j < self.root.inodes.len() && i != j ==> (
            #[trigger] self.root.inodes[i]).block != (#[trigger] self.root.inodes[j]).block
        &&& forall|i: int, k: int|
            0 <= i < self.root.inodes.len() && 0 <= k < self.root.inodes[i].blocks.len()
                ==> #[trigger] self.data_block_ok(i, k)
    }
}

/// A mounted filesystem.
#[derive(Debug)]
pub struct TfsFs {
    superblock: SuperBlock,
    root: Root,
    disk: Disk<BLOCK_SIZE>,
}

impl View for TfsFs {
    type V = FsModel;

    closed spec fn view(&self) -> FsModel {
        FsModel { superblock: self.superblock@, root: self.root@, disk: self.disk@ }
    }
}

impl TfsFs {
    /// A new, empty filesystem over `disk`. Nothing is written until the
    /// first sync.
    pub fn new(disk: Disk<BLOCK_SIZE>) -> (r: Self)
        ensures
            r@ == FsModel::fresh(disk@),
    {
        let mut superblock = SuperBlock::new();
        superblock.mark_allocated(SUPERBLOCK_BLOCK);
        superblock.mark_allocated(ROOT_BLOCK);
        TfsFs { superblock, root: Root::new(), disk }
    }

    /// Writes what is dirty to the disk: the superblock, then every inode,
    /// then the directory.
    pub fn sync(&mut self) -> (r: TfsResult<()>)
        ensures
            (final(self)@, r) == old(self)@.sync(),
    {
        match self.superblock.sync(&mut self.disk) {
            Ok(()) => {},
            Err(e) => { return Err(e); },
        }
        self.root.sync(&mut self.disk)
    }

    /// Formats a device of `size` bytes over `image`, the bytes that the
    /// backing store holds so far, and returns the formatted image.
    pub fn mkfs(image: Vec<u8>, size: usize) -> (r: TfsResult<Vec<u8>>)
        ensures
            view_of(r) == FsModel::mkfs(image@, size),
    {
        let mut disk: Disk<BLOCK_SIZE> = match Disk::open(image, size) {
            Ok(disk) => disk,
            Err(e) => { return Err(TfsError::DiskError(e)); },
        };
        let blocks = size / BLOCK_SIZE;
        let mut i: usize = 0;
        while i < blocks
            invariant
                i <= blocks,
                blocks == size / BLOCK_SIZE,
                size % BLOCK_SIZE == 0,
                i * BLOCK_SIZE <= isize::MAX,
                disk@ == zero_filled(image@, i * BLOCK_SIZE),
            decreases blocks - i,
        {
            match disk.write_block(i, [0u8;BLOCK_SIZE]) {
                Ok(()) => {},
                Err(e) => { return Err(TfsError::DiskError(e)); },
            }
            i += 1;
        }
        let mut fs = TfsFs::new(disk);
        match fs.sync() {
            Ok(()) => {},
            Err(e) => { return Err(e); },
        }
        Ok(fs.disk.into_image())
    }

    /// Mounts the filesystem that `image` holds.
    pub fn mount(image: Vec<u8>) -> (r: TfsResult<Self>)
        ensures
            view_of(r) == FsModel::mount(image@),
    {
        let mut disk: Disk<BLOCK_SIZE> = match Disk::open(image, 0) {
            Ok(disk) => disk,
            Err(e) => { return Err(TfsError::DiskError(e)); },
        };
        let first = match disk.read_block(SUPERBLOCK_BLOCK as usize) {
            Ok(block) => block,
            Err(e) => { return Err(TfsError::DiskError(e)); },
        };
        if first[0] != MAGIC_NUMBER {
            return Err(TfsError::MagicNumberError(first[0]));
        }
        assert(first@.subrange(0, BLOCK_SIZE as int) =~= first@);
        let superblock = match SuperBlockData::deserialize(first.as_slice()) {
            Ok(data) => data,
            Err(e) => { return Err(e); },
        };
        let entries = match disk.read_block(superblock.root_inode as usize) {
            Ok(block) => block,
            Err(e) => { return Err(TfsError::DiskError(e)); },
        };
        assert(entries@.subrange(0, BLOCK_SIZE as int) =~= entries@);
        let entries = match RootData::deserialize(entries.as_slice()) {
            Ok(data) => data,
            Err(e) => { return Err(e); },
        };
        let root = match Root::from_data(entries, &mut disk) {
            Ok(root) => root,
            Err(e) => { return Err(e); },
        };
        proof {
            lemma_superblock_of_record(superblock);
        }
        Ok(TfsFs { superblock: SuperBlock::from(superblock), root, disk })
    }

    /// The bitmap of every filesystem in memory has the length that the
    /// superblock stores.
    pub proof fn lemma_bitmap_len(&self)
        ensures
            self@.superblock.wf(),
    {
        self.superblock.lemma_wf();
    }

    /// The disk under the filesystem.
    pub fn disk(&self) -> (disk: &Disk<BLOCK_SIZE>)
        ensures
            disk@ == self@.disk,
    {
        &self.disk
    }

    /// The allocator.
    pub fn superblock(&self) -> (superblock: &SuperBlock)
        ensures
            superblock@ == self@.superblock,
    {
        &self.superblock
    }

    /// The directory.
    pub fn root(&self) -> (root: &Root)
        ensures
            root@ == self@.root,
    {
        &self.root
    }

    /// Allocates a block for a new empty file named `filename`, created at
    /// `now`, and returns the file's index in the directory.
    pub fn create_inode_at(&mut self, filename: String, now: u32) -> (r: TfsResult<usize>)
        ensures
            (final(self)@, r) == old(self)@.create_inode(encode_utf8(filename@), now),
    {
        let block = match self.superblock.allocate_block() {
            Some(block) => block,
            None => { return Err(TfsError::OutOfSpace); },
        };
        Ok(self.root.create_inode_at(block, filename, now))
    }

    /// Allocates a block for a new empty file named `filename`, created at
    /// the time the clock shows, and returns the file's index in the
    /// directory.
    pub fn create_inode(&mut self, filename: String) -> (r: TfsResult<usize>)
        ensures
            exists|now: u32|
                (final(self)@, r) == old(self)@.create_inode(encode_utf8(filename@), now),
    {
        let now = unix_now();
        let r = self.create_inode_at(filename, now);
        r
    }

    /// Opens the file named `filename` at `now`, creating it if there is
    /// none.
    pub fn open_at(&mut self, filename: &str, now: u32) -> (r: TfsResult<TfsFsFile>)
        ensures
            (final(self)@, r) == old(self)@.open(encode_utf8(filename@), now),
    {
        let name = filename.as_bytes();
        let mut i: usize = 0;
        while i < name.len()
            invariant
                i <= name@.len(),
                name@ == encode_utf8(filename@),
                forall|j: int| 0 <= j < i ==> name@[j] != 0,
            decreases name@.len() - i,
        {
            if name[i] == 0 {
                return Err(TfsError::FilenameError);
            }
            i += 1;
        }
        let idx = match self.root.find(filename) {
            Some(idx) => Ok(idx),
            None => self.create_inode_at(filename.to_owned(), now),
        };
        match idx {
            Ok(idx) => {
                self.root.inode_mut(idx).set_accessed(now);
                match self.sync() {
                    Ok(()) => Ok(TfsFsFile { inode: idx, offset: 0 }),
                    Err(e) => Err(e),
                }
            },
            Err(full) => {
                match self.sync() {
                    Ok(()) => Err(full),
                    Err(e) => Err(e),
                }
            },
        }
    }

    /// Opens the file named `filename` at the time the clock shows,
    /// creating it if there is none.
    pub fn open(&mut self, filename: &str) -> (r: TfsResult<TfsFsFile>)
        ensures
            exists|now: u32| (final(self)@, r) == old(self)@.open(encode_utf8(filename@), now),
    {
        let now = unix_now();
        let r = self.open_at(filename, now);
        r
    }

    /// Ends the use of `file`: syncs the filesystem.
    pub fn close(&mut self, file: &mut TfsFsFile) -> (r: TfsResult<()>)
        ensures
            (final(self)@, r) == old(self)@.sync(),
            *final(file) == *old(file),
    {
        self.sync()
    }

    /// Appends one chunk of at most a block to the file at `idx`.
    fn write_chunk(&mut self, idx: usize, data: &[u8]) -> (ok: bool)
        requires
            idx < old(self)@.root.inodes.len(),
            data@.len() <= BLOCK_SIZE,
        ensures
            (final(self)@, ok) == old(self)@.write_chunk(idx as int, data@),
    {
        let block = match self.superblock.allocate_block() {
            Some(block) => block,
            None => { return false; },
        };
        self.root.inode_mut(idx).push_block(block);
        let mut bytes = [0u8;BLOCK_SIZE];
        let mut i: usize = 0;
        while i < data.len()
            invariant
                i <= data@.len() <= BLOCK_SIZE,
                forall|j: int| 0 <= j < i ==> bytes@[j] == data@[j],
                forall|j: int| i <= j < BLOCK_SIZE ==> bytes@[j] == 0,
            decreases data@.len() - i,
        {
            bytes[i] = data[i];
            i += 1;
        }
        assert(bytes@ =~= padded(data@));
        // A block that the bitmap has a bit for lies within what an image
        // can hold: the disk takes it.
        match self.disk.write_block(block as usize, bytes) {
            Ok(()) => {},
            Err(_) => { return false; },
        }
        self.root.inode_mut(idx).grow(data.len() as u16);
        proof {
            let before = old(self)@.root.inodes;
            let inode = before[idx as int];
            assert(before.update(idx as int, inode.push_block(block)).update(
                idx as int,
                inode.push_block(block).grow(data@.len() as int),
            ) =~= before.update(idx as int, inode.push_block(block).grow(data@.len() as int)));
        }
        true
    }

    /// Appends `buf` to `file` at `now`.
    pub fn write_at(&mut self, file: &mut TfsFsFile, buf: &[u8], now: u32) -> (r: TfsResult<()>)
        requires
            old(file).offset + buf@.len() <= usize::MAX,
        ensures
            (final(self)@, *final(file), r) == old(self)@.write(*old(file), buf@, now),
    {
        if file.inode >= self.root.len() {
            return Err(TfsError::InvalidDesc);
        }
        let idx = file.inode;
        self.root.inode_mut(idx).set_modified(now);
        let ghost start = self@;
        let ghost count = chunk_count(buf@.len() as int);
        let mut pos: usize = 0;
        let mut done: usize = 0;
        while pos < buf.len()
            invariant
                pos <= buf@.len(),
                pos < buf@.len() ==> pos == done * BLOCK_SIZE,
                pos == buf@.len() ==> done == count,
                count == chunk_count(buf@.len() as int),
                done <= count,
                old(self)@.valid(*old(file)),
                start == old(self)@.with_inode(
                    idx as int,
                    old(self)@.root.inodes[idx as int].modified(now),
                ),
                idx < self@.root.inodes.len(),
                idx == old(file).inode,
                file.inode == idx,
                file.offset == old(file).offset + pos,
                old(file).offset + buf@.len() <= usize::MAX,
                (self@, done as int) == start.write_chunks(idx as int, buf@, done as int),
            decreases buf@.len() - pos,
        {
            let end = if buf.len() - pos < BLOCK_SIZE {
                buf.len()
            } else {
                pos + BLOCK_SIZE
            };
            let data = slice_subrange(buf, pos, end);
            if !self.write_chunk(idx, data) {
                proof {
                    lemma_write_chunks_stops(start, idx as int, buf@, done + 1, count);
                }
                return Err(TfsError::OutOfSpace);
            }
            file.offset = file.offset + (end - pos);
            pos = end;
            done = done + 1;
        }
        file.offset = 0;
        self.sync()
    }

    /// Appends `buf` to `file` at the time the clock shows.
    pub fn write(&mut self, file: &mut TfsFsFile, buf: &[u8]) -> (r: TfsResult<()>)
        requires
            old(file).offset + buf@.len() <= usize::MAX,
        ensures
            exists|now: u32|
                (final(self)@, *final(file), r) == old(self)@.write(*old(file), buf@, now),
    {
        let now = unix_now();
        let r = self.write_at(file, buf, now);
        r
    }

    /// Reads the byte under the cursor of `file` at `now`, or `None` at the
    /// end of the file.
    pub fn read_byte_at(&mut self, file: &mut TfsFsFile, now: u32) -> (r: TfsResult<Option<u8>>)
        ensures
            (final(self)@, *final(file), r) == old(self)@.read_byte(*old(file), now),
    {
        if file.inode >= self.root.len() {
            return Err(TfsError::InvalidDesc);
        }
        let idx = file.inode;
        self.root.inode_mut(idx).set_accessed(now);
        let inode = self.root.inode(idx);
        if file.offset >= inode.stat().size as usize {
            return Ok(None);
        }
        let blocks = inode.blocks();
        if file.offset / BLOCK_SIZE >= blocks.len() {
            return Err(TfsError::DiskError(DiskError::IoError));
        }
        let block = blocks[file.offset / BLOCK_SIZE];
        let bytes = match self.disk.read_block(block as usize) {
            Ok(bytes) => bytes,
            Err(e) => { return Err(TfsError::DiskError(e)); },
        };
        let byte = bytes[file.offset % BLOCK_SIZE];
        file.offset = file.offset + 1;
        Ok(Some(byte))
    }

    /// Reads the byte under the cursor of `file` at the time the clock
    /// shows, or `None` at the end of the file.
    pub fn read_byte(&mut self, file: &mut TfsFsFile) -> (r: TfsResult<Option<u8>>)
        ensures
            exists|now: u32|
                (final(self)@, *final(file), r) == old(self)@.read_byte(*old(file), now),
    {
        let now = unix_now();
        let r = self.read_byte_at(file, now);
        r
    }

    /// The name and the metadata of every file, in directory order.
    pub fn readdir(&self) -> (entries: Vec<ReadDirEntry>)
        ensures
            entries@.len() == self@.readdir().len(),
            forall|i: int| 0 <= i < entries@.len() ==> entries@[i]@ == self@.readdir()[i],
    {
        let mut entries: Vec<ReadDirEntry> = Vec::new();
        let mut i: usize = 0;
        while i < self.root.len()
            invariant
                i <= self@.root.inodes.len(),
                entries@.len() == i,
                forall|j: int| 0 <= j < i ==> entries@[j]@ == self@.readdir()[j],
            decreases self@.root.inodes.len() - i,
        {
            let inode = self.root.inode(i);
            entries.push(ReadDirEntry { filename: inode.filename().clone(), stat: inode.stat() });
            i += 1;
        }
        entries
    }

    /// Renames `file` to `newname` at `now`.
    pub fn rename_at(&mut self, file: &mut TfsFsFile, newname: &str, now: u32) -> (r: TfsResult<
        (),
    >)
        ensures
            (final(self)@, r) == old(self)@.rename(*old(file), encode_utf8(newname@), now),
            *final(file) == *old(file),
    {
        if file.inode >= self.root.len() {
            return Err(TfsError::InvalidDesc);
        }
        let name = newname.as_bytes();
        let mut i: usize = 0;
        while i < name.len()
            invariant
                i <= name@.len(),
                name@ == encode_utf8(newname@),
                file.inode < self@.root.inodes.len(),
                forall|j: int| 0 <= j < i ==> name@[j] != 0,
            decreases name@.len() - i,
        {
            if name[i] == 0 {
                return Err(TfsError::FilenameError);
            }
            i += 1;
        }
        self.root.inode_mut(file.inode).rename(newname.to_owned(), now);
        Ok(())
    }

    /// Renames `file` to `newname` at the time the clock shows.
    pub fn rename(&mut self, file: &mut TfsFsFile, newname: &str) -> (r: TfsResult<()>)
        ensures
            exists|now: u32|
                (final(self)@, r) == old(self)@.rename(*old(file), encode_utf8(newname@), now),
            *final(file) == *old(file),
    {
        let now = unix_now();
        let r = self.rename_at(file, newname, now);
        r
    }

    /// Renames the first file named `oldname` to `newname` at `now`. Fails
    /// with `FileNotFound`, changing nothing, where the directory has no
    /// file of that name.
    pub fn rename_path_at(&mut self, oldname: &str, newname: &str, now: u32) -> (r: TfsResult<()>)
        ensures
            match old(self)@.root.find(encode_utf8(oldname@)) {
                Some(idx) => (final(self)@, r) == old(self)@.rename(
                    TfsFsFile { inode: idx as usize, offset: 0 },
                    encode_utf8(newname@),
                    now,
                ),
                None => final(self)@ == old(self)@ && (r matches Err(TfsError::FileNotFound(name))
                    && name@ == oldname@),
            },
    {
        match self.root.find(oldname) {
            Some(idx) => {
                let mut file = TfsFsFile { inode: idx, offset: 0 };
                self.rename_at(&mut file, newname, now)
            },
            None => Err(TfsError::FileNotFound(oldname.to_owned())),
        }
    }

    /// Renames the first file named `oldname` to `newname` at the time the
    /// clock shows.
    pub fn rename_path(&mut self, oldname: &str, newname: &str) -> (r: TfsResult<()>)
        ensures
            match old(self)@.root.find(encode_utf8(oldname@)) {
                Some(idx) => exists|now: u32|
                    (final(self)@, r) == #[trigger] old(self)@.rename(
                        TfsFsFile { inode: idx as usize, offset: 0 },
                        encode_utf8(newname@),
                        now,
                    ),
                None => final(self)@ == old(self)@ && (r matches Err(TfsError::FileNotFound(name))
                    && name@ == oldname@),
            },
    {
        let now = unix_now();
        let r = self.rename_path_at(oldname, newname, now);
        r
    }

    /// The metadata of `file`.
    pub fn stat(&self, file: TfsFsFile) -> (r: TfsResult<Stat>)
        ensures
            r == self@.stat(file),
    {
        if file.inode >= self.root.len() {
            return Err(TfsError::InvalidDesc);
        }
        Ok(self.root.inode(file.inode).stat())
    }

    /// Gives up the filesystem and hands back the image of its disk. What
    /// is dirty is not written.
    pub fn into_image(self) -> (image: Vec<u8>)
        ensures
            image@ == self@.disk,
    {
        self.disk.into_image()
    }
}

/// Once a chunk has found no block, going on to further chunks changes
/// nothing.
pub proof fn lemma_write_chunks_stops(fs: FsModel, idx: int, buf: Seq<u8>, n: int, m: int)
    requires
        0 <= n <= m,
        fs.write_chunks(idx, buf, n).1 < n,
    ensures
        fs.write_chunks(idx, buf, m) == fs.write_chunks(idx, buf, n),
    decreases m - n,
{
    if n < m {
        lemma_write_chunks_stops(fs, idx, buf, n, m - 1);
    }
}

} // verus!
