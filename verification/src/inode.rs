//! Files: their metadata and their inodes.

use vstd::prelude::*;
use vstd::utf8::{encode_utf8, valid_utf8};

use crate::clock::unix_now;
use crate::disk::{
    block_of, has_block, lemma_store_keeps_others, lemma_store_then_read, store_block, Disk,
    DiskError,
};
use crate::error::{view_of, TfsError, TfsResult};
use crate::structures::{
    INodeData, INodeRecord, StatData, INODE_BLOCKS, MAX_FILENAME_LEN,
};
use crate::BLOCK_SIZE;

verus! {

/// Metadata of a file: its size in bytes, and when it was created, last
/// modified and last accessed, in seconds since the Unix epoch.
#[derive(Debug, Clone, Copy, PartialEq, Eq)]
pub struct Stat {
    pub size: u16,
    pub ctime: u32,
    pub mtime: u32,
    pub atime: u32,
}

impl Stat {
    /// Metadata of an empty file created at `now`.
    pub open spec fn fresh(now: u32) -> Stat {
        Stat { size: 0, ctime: now, mtime: now, atime: now }
    }

    /// Metadata of an empty file created at `now`.
    pub fn new_at(now: u32) -> (r: Stat)
        ensures
            r == Stat::fresh(now),
    {
        Stat { size: 0, ctime: now, mtime: now, atime: now }
    }

    /// Metadata of an empty file created at the time the clock shows.
    pub fn new() -> (r: Stat)
        ensures
            exists|now: u32| r == Stat::fresh(now),
    {
        let now = unix_now();
        let r = Stat::new_at(now);
        r
    }
}

impl From<StatData> for Stat {
    fn from(data: StatData) -> (r: Stat) {
        Stat { size: data.size, ctime: data.ctime, mtime: data.mtime, atime: data.atime }
    }
}

impl vstd::std_specs::convert::FromSpecImpl<StatData> for Stat {
    open spec fn obeys_from_spec() -> bool {
        true
    }

    open spec fn from_spec(data: StatData) -> Stat {
        Stat { size: data.size, ctime: data.ctime, mtime: data.mtime, atime: data.atime }
    }
}

impl From<Stat> for StatData {
    fn from(stat: Stat) -> (r: StatData) {
        StatData { size: stat.size, ctime: stat.ctime, mtime: stat.mtime, atime: stat.atime }
    }
}

impl vstd::std_specs::convert::FromSpecImpl<Stat> for StatData {
    open spec fn obeys_from_spec() -> bool {
        true
    }

    open spec fn from_spec(stat: Stat) -> StatData {
        StatData { size: stat.size, ctime: stat.ctime, mtime: stat.mtime, atime: stat.atime }
    }
}

/// The stored form of `stat`.
pub open spec fn stat_data(stat: Stat) -> StatData {
    StatData { size: stat.size, ctime: stat.ctime, mtime: stat.mtime, atime: stat.atime }
}

/// The metadata that `data` stores.
pub open spec fn stat_of(data: StatData) -> Stat {
    Stat { size: data.size, ctime: data.ctime, mtime: data.mtime, atime: data.atime }
}

/// The name field of a record for a file named `name`: the first
/// `MAX_FILENAME_LEN` bytes of the name, padded with zero bytes.
pub open spec fn name_field(name: Seq<u8>) -> Seq<u8> {
    Seq::new(
        MAX_FILENAME_LEN as nat,
        |i: int|
            if i < name.len() {
                name[i]
            } else {
                0u8
            },
    )
}

/// The name that a name field stores: its bytes before the first zero byte.
pub open spec fn stored_name(field: Seq<u8>) -> Seq<u8> {
    match field.index_of_first(0u8) {
        Some(end) => field.subrange(0, end),
        None => field,
    }
}

/// The block list of a record for a file with the data blocks `blocks`: the
/// blocks in order, padded with zeros.
pub open spec fn block_field(blocks: Seq<u16>) -> Seq<u16> {
    Seq::new(
        INODE_BLOCKS as nat,
        |i: int|
            if i < blocks.len() {
                blocks[i]
            } else {
                0u16
            },
    )
}

/// The data blocks that a block list stores: its entries other than zero,
/// in order.
pub open spec fn stored_blocks(field: Seq<u16>) -> Seq<u16> {
    field.filter(|b: u16| b != 0)
}

/// What an `INode` holds. The name is the UTF-8 bytes of the file's name.
pub struct INodeModel {
    pub block: u16,
    pub dirty: bool,
    pub filename: Seq<u8>,
    pub stat: Stat,
    pub blocks: Seq<u16>,
}

impl INodeModel {
    /// The inode of an empty file created at `now`, not yet written.
    pub open spec fn fresh(block: u16, filename: Seq<u8>, now: u32) -> INodeModel {
        INodeModel { block, dirty: true, filename, stat: Stat::fresh(now), blocks: Seq::empty() }
    }

    /// The record that the inode is stored as. A name with a zero byte in it
    /// cannot be stored, nor a block list longer than `INODE_BLOCKS`.
    pub open spec fn record(self) -> Result<INodeRecord, TfsError> {
        if self.filename.contains(0u8) {
            Err(TfsError::FilenameError)
        } else if self.blocks.len() > INODE_BLOCKS {
            Err(TfsError::SizeError { size: self.blocks.len() as usize })
        } else {
            Ok(
                INodeRecord {
                    filename: name_field(self.filename),
                    stat: stat_data(self.stat),
                    blocks: block_field(self.blocks),
                },
            )
        }
    }

    /// The clean inode at `block` that `record` describes. A stored name
    /// that is not UTF-8 is refused.
    pub open spec fn from_record(block: u16, record: INodeRecord) -> Result<INodeModel, TfsError> {
        if !valid_utf8(stored_name(record.filename)) {
            Err(TfsError::SerializationError)
        } else {
            Ok(
                INodeModel {
                    block,
                    dirty: false,
                    filename: stored_name(record.filename),
                    stat: stat_of(record.stat),
                    blocks: stored_blocks(record.blocks),
                },
            )
        }
    }

    /// The inode that block `block` of `disk` holds.
    pub open spec fn load(block: u16, disk: Seq<u8>) -> Result<INodeModel, TfsError> {
        if !has_block(disk, block as int, BLOCK_SIZE as int) {
            Err(TfsError::DiskError(DiskError::IoError))
        } else {
            Self::from_record(
                block,
                INodeRecord::parse(block_of(disk, block as int, BLOCK_SIZE as int)),
            )
        }
    }

    /// The inode with `block` appended to its data blocks.
    pub open spec fn push_block(self, block: u16) -> INodeModel {
        INodeModel { dirty: true, blocks: self.blocks.push(block), ..self }
    }

    /// The inode with its size raised by `n` bytes. The size is 16 bits wide
    /// and wraps.
    pub open spec fn grow(self, n: int) -> INodeModel {
        INodeModel {
            stat: Stat { size: ((self.stat.size + n) % 0x1_0000) as u16, ..self.stat },
            ..self
        }
    }

    /// The inode with its access time set to `now`.
    pub open spec fn accessed(self, now: u32) -> INodeModel {
        INodeModel { stat: Stat { atime: now, ..self.stat }, ..self }
    }

    /// The inode with its modification time set to `now`.
    pub open spec fn modified(self, now: u32) -> INodeModel {
        INodeModel { stat: Stat { mtime: now, ..self.stat }, ..self }
    }

    /// The inode renamed to `filename` at `now`.
    pub open spec fn rename(self, filename: Seq<u8>, now: u32) -> INodeModel {
        INodeModel { dirty: true, filename, stat: Stat { mtime: now, ..self.stat }, ..self }
    }

    /// Writes a dirty inode to its block of `disk` and marks it clean. An
    /// inode that cannot be stored is left as it is, and so is the disk.
    pub open spec fn sync(self, disk: Seq<u8>) -> (INodeModel, Seq<u8>, Result<(), TfsError>) {
        if !self.dirty {
            (self, disk, Ok(()))
        } else {
            match self.record() {
                Err(e) => (self, disk, Err(e)),
                Ok(record) => (
                    INodeModel { dirty: false, ..self },
                    store_block(disk, self.block as int, BLOCK_SIZE as int, record.layout()),
                    Ok(()),
                ),
            }
        }
    }
}

/// Whether `a` and `b` are the same file in the same state, whatever their
/// dirty marks say.
pub open spec fn same_file(a: INodeModel, b: INodeModel) -> bool {
    a.block == b.block && a.filename == b.filename && a.stat == b.stat && a.blocks == b.blocks
}

/// A sync changes nothing of an inode but its dirty mark, and nothing of
/// the disk but the inode's own block. After a sync that succeeded the
/// inode is clean.
pub proof fn lemma_inode_sync_frame(inode: INodeModel, disk: Seq<u8>, other: int)
    ensures
        same_file(inode.sync(disk).0, inode),
        inode.sync(disk).2 is Ok ==> !inode.sync(disk).0.dirty,
        inode.sync(disk).2 is Err ==> inode.sync(disk).0 == inode && inode.sync(disk).1 == disk,
        other != inode.block && has_block(disk, other, BLOCK_SIZE as int) ==> has_block(
            inode.sync(disk).1,
            other,
            BLOCK_SIZE as int,
        ) && block_of(inode.sync(disk).1, other, BLOCK_SIZE as int) == block_of(
            disk,
            other,
            BLOCK_SIZE as int,
        ),
{
}

proof fn lemma_stored_blocks(blocks: Seq<u16>, n: int)
    requires
        blocks.len() <= INODE_BLOCKS,
        forall|i: int| 0 <= i < blocks.len() ==> blocks[i] != 0,
        0 <= n <= INODE_BLOCKS,
    ensures
        stored_blocks(block_field(blocks).subrange(0, n)) == blocks.subrange(
            0,
            if n <= blocks.len() {
                n
            } else {
                blocks.len() as int
            },
        ),
    decreases n,
{
    reveal(Seq::filter);
    let field = block_field(blocks);
    if n > 0 {
        lemma_stored_blocks(blocks, n - 1);
        assert(field.subrange(0, n).drop_last() =~= field.subrange(0, n - 1));
    }
}

/// An inode that is stored and loaded again is the same file, clean:
/// provided that it can be stored, that its name fits the name field and
/// is UTF-8, and that zero is none of its data blocks.
pub proof fn lemma_inode_round_trip(inode: INodeModel, disk: Seq<u8>)
    requires
        inode.record() is Ok,
        inode.filename.len() <= MAX_FILENAME_LEN,
        valid_utf8(inode.filename),
        forall|k: int| 0 <= k < inode.blocks.len() ==> inode.blocks[k] != 0,
    ensures
        INodeModel::from_record(inode.block, inode.record()->Ok_0) == Ok::<INodeModel, TfsError>(
            INodeModel { dirty: false, ..inode },
        ),
        INodeModel::load(
            inode.block,
            store_block(
                disk,
                inode.block as int,
                BLOCK_SIZE as int,
                inode.record()->Ok_0.layout(),
            ),
        ) == Ok::<INodeModel, TfsError>(INodeModel { dirty: false, ..inode }),
{
    let record = inode.record()->Ok_0;
    let name = inode.filename;
    let field = name_field(name);
    field.index_of_first_ensures(0u8);
    if name.len() < MAX_FILENAME_LEN {
        assert(field[name.len() as int] == 0);
    }
    assert(stored_name(field) == name);
    lemma_stored_blocks(inode.blocks, INODE_BLOCKS as int);
    assert(block_field(inode.blocks).subrange(0, INODE_BLOCKS as int) =~= block_field(
        inode.blocks,
    ));
    assert(inode.blocks.subrange(0, inode.blocks.len() as int) =~= inode.blocks);
    record.lemma_round_trip();
    lemma_store_then_read(disk, inode.block as int, BLOCK_SIZE as int, record.layout());
}

/// Calls `String::from_utf8`: the string whose UTF-8 bytes are `bytes`, or
/// `None` exactly when `bytes` is not valid UTF-8.
#[verifier::external_body]
fn utf8_string(bytes: Vec<u8>) -> (r: Option<String>)
    ensures
        r is Some <==> valid_utf8(bytes@),
        r matches Some(s) ==> encode_utf8(s@) == bytes@,
{
    match String::from_utf8(bytes) {
        Ok(s) => Some(s),
        Err(_) => None,
    }
}

/// A file's inode: where it is stored, its name, its metadata and its data
/// blocks in file order.
#[derive(Debug, Clone)]
pub struct INode {
    block: u16,
    dirty: bool,
    filename: String,
    stat: Stat,
    blocks: Vec<u16>,
}

impl View for INode {
    type V = INodeModel;

    closed spec fn view(&self) -> INodeModel {
        INodeModel {
            block: self.block,
            dirty: self.dirty,
            filename: encode_utf8(self.filename@),
            stat: self.stat,
            blocks: self.blocks@,
        }
    }
}

impl INode {
    /// The inode at `block` of an empty file named `filename`, created at
    /// `now`.
    pub fn new_at(block: u16, filename: String, now: u32) -> (r: Self)
        ensures
            r@ == INodeModel::fresh(block, encode_utf8(filename@), now),
    {
        INode { block, dirty: true, filename, stat: Stat::new_at(now), blocks: Vec::new() }
    }

    /// The inode at `block` of an empty file named `filename`, created at
    /// the time the clock shows.
    pub fn new(block: u16, filename: String) -> (r: Self)
        ensures
            exists|now: u32| r@ == INodeModel::fresh(block, encode_utf8(filename@), now),
    {
        let now = unix_now();
        let r = INode::new_at(block, filename, now);
        r
    }

    /// The record that the inode is stored as.
    pub fn to_data(&self) -> (r: TfsResult<INodeData>)
        ensures
            view_of(r) == self@.record(),
    {
        let name = self.filename.as_str().as_bytes();
        let mut i: usize = 0;
        while i < name.len()
            invariant
                i <= name@.len(),
                name@ == self@.filename,
                forall|j: int| 0 <= j < i ==> name@[j] != 0,
            decreases name@.len() - i,
        {
            if name[i] == 0 {
                return Err(TfsError::FilenameError);
            }
            i += 1;
        }
        if self.blocks.len() > INODE_BLOCKS {
            return Err(TfsError::SizeError { size: self.blocks.len() });
        }
        let mut filename = [0u8;MAX_FILENAME_LEN];
        let mut i: usize = 0;
        while i < MAX_FILENAME_LEN && i < name.len()
            invariant
                i <= MAX_FILENAME_LEN,
                i <= name@.len(),
                forall|j: int| 0 <= j < i ==> filename@[j] == name@[j],
                forall|j: int| i <= j < MAX_FILENAME_LEN ==> filename@[j] == 0,
            decreases MAX_FILENAME_LEN - i,
        {
            filename[i] = name[i];
            i += 1;
        }
        let mut blocks = [0u16;INODE_BLOCKS];
        let mut k: usize = 0;
        while k < self.blocks.len()
            invariant
                k <= self.blocks@.len() <= INODE_BLOCKS,
                forall|j: int| 0 <= j < k ==> blocks@[j] == self.blocks@[j],
                forall|j: int| k <= j < INODE_BLOCKS ==> blocks@[j] == 0,
            decreases self.blocks@.len() - k,
        {
            blocks[k] = self.blocks[k];
            k += 1;
        }
        let data = INodeData {
            filename,
            stat: StatData {
                size: self.stat.size,
                ctime: self.stat.ctime,
                mtime: self.stat.mtime,
                atime: self.stat.atime,
            },
            blocks,
        };
        assert(data@.filename =~= name_field(self@.filename));
        assert(data@.blocks =~= block_field(self@.blocks));
        Ok(data)
    }

    /// The clean inode at `block` that `data` describes.
    pub fn from_data(block: u16, data: &INodeData) -> (r: TfsResult<Self>)
        ensures
            view_of(r) == INodeModel::from_record(block, data@),
    {
        let ghost field = data.filename@;
        let mut end: usize = 0;
        while end < MAX_FILENAME_LEN && data.filename[end] != 0
            invariant
                end <= MAX_FILENAME_LEN,
                field == data.filename@,
                forall|j: int| 0 <= j < end ==> field[j] != 0,
            decreases MAX_FILENAME_LEN - end,
        {
            end += 1;
        }
        proof {
            field.index_of_first_ensures(0u8);
            assert(stored_name(field) == field.subrange(0, end as int));
        }
        let mut name: Vec<u8> = Vec::new();
        let mut i: usize = 0;
        while i < end
            invariant
                i <= end <= MAX_FILENAME_LEN,
                field == data.filename@,
                name@ == field.subrange(0, i as int),
            decreases end - i,
        {
            name.push(data.filename[i]);
            i += 1;
        }
        let filename = match utf8_string(name) {
            Some(s) => s,
            None => { return Err(TfsError::SerializationError); },
        };
        let ghost list = data.blocks@;
        let ghost nonzero = |b: u16| b != 0;
        let mut blocks: Vec<u16> = Vec::new();
        let mut k: usize = 0;
        while k < INODE_BLOCKS
            invariant
                k <= INODE_BLOCKS,
                list == data.blocks@,
                nonzero == (|b: u16| b != 0),
                blocks@ == list.subrange(0, k as int).filter(nonzero),
            decreases INODE_BLOCKS - k,
        {
            let b = data.blocks[k];
            proof {
                reveal(Seq::filter);
                assert(list.subrange(0, k + 1).drop_last() =~= list.subrange(0, k as int));
            }
            if b != 0 {
                blocks.push(b);
            }
            k += 1;
        }
        assert(list.subrange(0, INODE_BLOCKS as int) =~= list);
        Ok(
            INode {
                block,
                dirty: false,
                filename,
                stat: Stat {
                    size: data.stat.size,
                    ctime: data.stat.ctime,
                    mtime: data.stat.mtime,
                    atime: data.stat.atime,
                },
                blocks,
            },
        )
    }

    /// Reads the inode that block `block` of `disk` holds.
    pub fn from_block(block: u16, disk: &mut Disk<BLOCK_SIZE>) -> (r: TfsResult<Self>)
        ensures
            final(disk)@ == old(disk)@,
            view_of(r) == INodeModel::load(block, old(disk)@),
    {
        let bytes = match disk.read_block(block as usize) {
            Ok(bytes) => bytes,
            Err(e) => { return Err(TfsError::DiskError(e)); },
        };
        let data = match INodeData::deserialize(bytes.as_slice()) {
            Ok(data) => data,
            Err(e) => { return Err(e); },
        };
        assert(bytes@.subrange(0, BLOCK_SIZE as int) =~= bytes@);
        INode::from_data(block, &data)
    }

    /// Appends `block` to the file's data blocks.
    pub fn push_block(&mut self, block: u16)
        ensures
            final(self)@ == old(self)@.push_block(block),
    {
        self.dirty = true;
        self.blocks.push(block);
    }

    /// Raises the size by `n` bytes.
    pub fn grow(&mut self, n: u16)
        ensures
            final(self)@ == old(self)@.grow(n as int),
    {
        self.stat.size = self.stat.size.wrapping_add(n);
    }

    /// Sets the access time.
    pub fn set_accessed(&mut self, now: u32)
        ensures
            final(self)@ == old(self)@.accessed(now),
    {
        self.stat.atime = now;
    }

    /// Sets the modification time.
    pub fn set_modified(&mut self, now: u32)
        ensures
            final(self)@ == old(self)@.modified(now),
    {
        self.stat.mtime = now;
    }

    /// Gives the file the name `filename`, at `now`.
    pub fn rename(&mut self, filename: String, now: u32)
        ensures
            final(self)@ == old(self)@.rename(encode_utf8(filename@), now),
    {
        self.stat.mtime = now;
        self.filename = filename;
        self.dirty = true;
    }

    /// Writes the inode to its block if it is dirty, and marks it clean.
    pub fn sync(&mut self, disk: &mut Disk<BLOCK_SIZE>) -> (r: TfsResult<()>)
        ensures
            (final(self)@, final(disk)@, r) == old(self)@.sync(old(disk)@),
    {
        if self.dirty {
            let data = match self.to_data() {
                Ok(data) => data,
                Err(e) => { return Err(e); },
            };
            match disk.write_block(self.block as usize, data.serialize()) {
                Ok(()) => {},
                Err(e) => { return Err(TfsError::DiskError(e)); },
            }
            self.dirty = false;
        }
        Ok(())
    }

    /// The block that the inode is stored in.
    pub fn block(&self) -> (r: u16)
        ensures
            r == self@.block,
    {
        self.block
    }

    /// Whether the inode has changed since it was last written.
    pub fn is_dirty(&self) -> (r: bool)
        ensures
            r == self@.dirty,
    {
        self.dirty
    }

    /// The file's name.
    pub fn filename(&self) -> (r: &String)
        ensures
            encode_utf8(r@) == self@.filename,
    {
        &self.filename
    }

    /// Whether the file is named `name`.
    pub fn has_name(&self, name: &str) -> (r: bool)
        ensures
            r == (self@.filename == encode_utf8(name@)),
    {
        let ours = self.filename.as_str().as_bytes();
        let theirs = name.as_bytes();
        if ours.len() != theirs.len() {
            return false;
        }
        let mut i: usize = 0;
        while i < ours.len()
            invariant
                i <= ours@.len(),
                ours@.len() == theirs@.len(),
                ours@ == self@.filename,
                theirs@ == encode_utf8(name@),
                forall|j: int| 0 <= j < i ==> ours@[j] == theirs@[j],
            decreases ours@.len() - i,
        {
            if ours[i] != theirs[i] {
                return false;
            }
            i += 1;
        }
        assert(ours@ =~= theirs@);
        true
    }

    /// The file's metadata.
    pub fn stat(&self) -> (r: Stat)
        ensures
            r == self@.stat,
    {
        self.stat
    }

    /// The file's data blocks, in file order.
    pub fn blocks(&self) -> (r: &Vec<u16>)
        ensures
            r@ == self@.blocks,
    {
        &self.blocks
    }
}

} // verus!
