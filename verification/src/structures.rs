//! The records of the on-disk layout and their byte encoding.
//!
//! Every record fills exactly one block. Integers are stored little-endian,
//! arrays element by element, fields in declaration order and without
//! padding between them.

use vstd::prelude::*;

use crate::error::{TfsError, TfsResult};
use crate::{BLOCK_SIZE, DEFAULT_DISK_SIZE};

verus! {

/// First byte of a formatted device.
pub const MAGIC_NUMBER: u8 = 0x5A;

/// Bytes of the allocation bitmap: a block less the magic number and the
/// root pointer.
pub const ALLOCATION_TABLE_LEN: usize = BLOCK_SIZE - 1 - 2;

/// Blocks that the bitmap has a bit for.
pub const MAX_BLOCKS: usize = ALLOCATION_TABLE_LEN * 8;

/// Entries of the directory.
pub const ROOT_INODES: usize = BLOCK_SIZE / 2;

/// Bytes of a stored file name.
pub const MAX_FILENAME_LEN: usize = 8;

/// Bytes of a stored stat record.
pub const STAT_LEN: usize = 2 + 4 * 3;

/// Entries of an inode's block list.
pub const INODE_BLOCKS: usize = (BLOCK_SIZE - MAX_FILENAME_LEN - STAT_LEN) / 2;

/// The two bytes of `v`, low byte first.
pub open spec fn le16(v: u16) -> Seq<u8> {
    seq![(v % 256) as u8, (v / 256) as u8]
}

/// The number whose little-endian bytes are the first two of `s`.
pub open spec fn from_le16(s: Seq<u8>) -> u16 {
    (s[0] + 256 * s[1]) as u16
}

/// The four bytes of `v`, lowest byte first.
pub open spec fn le32(v: u32) -> Seq<u8> {
    seq![
        (v % 256) as u8,
        (v / 256 % 256) as u8,
        (v / 65536 % 256) as u8,
        (v / 16777216) as u8,
    ]
}

/// The number whose little-endian bytes are the first four of `s`.
pub open spec fn from_le32(s: Seq<u8>) -> u32 {
    (s[0] + 256 * s[1] + 65536 * s[2] + 16777216 * s[3]) as u32
}

/// The elements of `s`, each as two little-endian bytes.
pub open spec fn le16_seq(s: Seq<u16>) -> Seq<u8> {
    Seq::new(
        2 * s.len(),
        |i: int|
            if i % 2 == 0 {
                (s[i / 2] % 256) as u8
            } else {
                (s[i / 2] / 256) as u8
            },
    )
}

/// The numbers that `bytes` holds as consecutive little-endian pairs.
pub open spec fn from_le16_seq(bytes: Seq<u8>) -> Seq<u16> {
    Seq::new(bytes.len() / 2, |i: int| (bytes[2 * i] + 256 * bytes[2 * i + 1]) as u16)
}

/// Two little-endian bytes give back the number they were made from.
pub proof fn lemma_le16_round_trip(v: u16)
    ensures
        le16(v).len() == 2,
        from_le16(le16(v)) == v,
{
}

/// Four little-endian bytes give back the number they were made from.
pub proof fn lemma_le32_round_trip(v: u32)
    ensures
        le32(v).len() == 4,
        from_le32(le32(v)) == v,
{
}

/// The bytes of a sequence of numbers give back the sequence.
pub proof fn lemma_le16_seq_round_trip(s: Seq<u16>)
    ensures
        le16_seq(s).len() == 2 * s.len(),
        from_le16_seq(le16_seq(s)) == s,
{
}

/// Any two bytes are the little-endian bytes of the number they hold.
pub proof fn lemma_from_le16_round_trip(s: Seq<u8>)
    requires
        s.len() == 2,
    ensures
        le16(from_le16(s)) == s,
{
}

proof fn lemma_base256_digits(a: int, b: int, c: int, d: int)
    requires
        0 <= a < 256,
        0 <= b < 256,
        0 <= c < 256,
        0 <= d < 256,
    ensures
        0 <= a + 256 * b + 65536 * c + 16777216 * d < 0x1_0000_0000,
        (a + 256 * b + 65536 * c + 16777216 * d) % 256 == a,
        (a + 256 * b + 65536 * c + 16777216 * d) / 256 % 256 == b,
        (a + 256 * b + 65536 * c + 16777216 * d) / 65536 % 256 == c,
        (a + 256 * b + 65536 * c + 16777216 * d) / 16777216 == d,
{
    let v = a + 256 * b + 65536 * c + 16777216 * d;
    let v1 = b + 256 * c + 65536 * d;
    let v2 = c + 256 * d;
    assert(v == 256 * v1 + a);
    assert(v / 256 == v1 && v % 256 == a);
    assert(v1 == 256 * v2 + b);
    assert(v1 / 256 == v2 && v1 % 256 == b);
    assert(v == 65536 * v2 + (256 * b + a));
    assert(v / 65536 == v2);
    assert(v2 % 256 == c && v2 / 256 == d);
    assert(v == 16777216 * d + (65536 * c + 256 * b + a));
    assert(v / 16777216 == d);
}

/// Any four bytes are the little-endian bytes of the number they hold.
pub proof fn lemma_from_le32_round_trip(s: Seq<u8>)
    requires
        s.len() == 4,
    ensures
        le32(from_le32(s)) == s,
{
    lemma_base256_digits(s[0] as int, s[1] as int, s[2] as int, s[3] as int);
    assert(le32(from_le32(s)) =~= s);
}

/// Any even number of bytes are the bytes of the numbers they hold.
pub proof fn lemma_from_le16_seq_round_trip(bytes: Seq<u8>)
    requires
        bytes.len() % 2 == 0,
    ensures
        from_le16_seq(bytes).len() * 2 == bytes.len(),
        le16_seq(from_le16_seq(bytes)) == bytes,
{
}

/// Writes `v` into `block` at `at`, low byte first.
pub fn put_le16(block: &mut [u8; BLOCK_SIZE], at: usize, v: u16)
    requires
        at + 2 <= BLOCK_SIZE,
    ensures
        final(block)@ == old(block)@.update(at as int, le16(v)[0]).update(at + 1, le16(v)[1]),
{
    block[at] = (v % 256) as u8;
    block[at + 1] = (v / 256) as u8;
}

/// Writes `v` into `block` at `at`, lowest byte first.
pub fn put_le32(block: &mut [u8; BLOCK_SIZE], at: usize, v: u32)
    requires
        at + 4 <= BLOCK_SIZE,
    ensures
        final(block)@ == old(block)@.update(at as int, le32(v)[0]).update(
            at + 1,
            le32(v)[1],
        ).update(at + 2, le32(v)[2]).update(at + 3, le32(v)[3]),
{
    block[at] = (v % 256) as u8;
    block[at + 1] = (v / 256 % 256) as u8;
    block[at + 2] = (v / 65536 % 256) as u8;
    block[at + 3] = (v / 16777216) as u8;
}

/// Reads the little-endian number at `at`.
pub fn get_le16(bytes: &[u8], at: usize) -> (v: u16)
    requires
        at + 2 <= bytes@.len(),
    ensures
        v == from_le16(bytes@.subrange(at as int, at + 2)),
{
    let lo: u16 = bytes[at] as u16;
    let hi: u16 = bytes[at + 1] as u16;
    lo + 256 * hi
}

/// Reads the little-endian number at `at`.
pub fn get_le32(bytes: &[u8], at: usize) -> (v: u32)
    requires
        at + 4 <= bytes@.len(),
    ensures
        v == from_le32(bytes@.subrange(at as int, at + 4)),
{
    let b0: u32 = bytes[at] as u32;
    let b1: u32 = bytes[at + 1] as u32;
    let b2: u32 = bytes[at + 2] as u32;
    let b3: u32 = bytes[at + 3] as u32;
    b0 + 256 * b1 + 65536 * b2 + 16777216 * b3
}

/// The superblock as stored in block 0.
#[derive(Debug, Clone)]
pub struct SuperBlockData {
    pub magic_number: u8,
    pub root_inode: u16,
    pub allocated_blocks: [u8; ALLOCATION_TABLE_LEN],
}

/// What a `SuperBlockData` holds.
pub struct SuperBlockRecord {
    pub magic_number: u8,
    pub root_inode: u16,
    pub allocated_blocks: Seq<u8>,
}

impl View for SuperBlockData {
    type V = SuperBlockRecord;

    open spec fn view(&self) -> SuperBlockRecord {
        SuperBlockRecord {
            magic_number: self.magic_number,
            root_inode: self.root_inode,
            allocated_blocks: self.allocated_blocks@,
        }
    }
}

impl SuperBlockRecord {
    /// The bitmap has the length of the record's array.
    pub open spec fn wf(self) -> bool {
        self.allocated_blocks.len() == ALLOCATION_TABLE_LEN
    }

    /// The bytes of the record: the magic number, the root pointer, the
    /// bitmap.
    pub open spec fn layout(self) -> Seq<u8> {
        seq![self.magic_number] + le16(self.root_inode) + self.allocated_blocks
    }

    /// The record that a block holds.
    pub open spec fn parse(block: Seq<u8>) -> SuperBlockRecord {
        SuperBlockRecord {
            magic_number: block[0],
            root_inode: from_le16(block.subrange(1, 3)),
            allocated_blocks: block.subrange(3, BLOCK_SIZE as int),
        }
    }

    /// A record fills one block, and parsing its bytes gives it back.
    pub proof fn lemma_round_trip(self)
        requires
            self.wf(),
        ensures
            self.layout().len() == BLOCK_SIZE,
            Self::parse(self.layout()) == self,
    {
        let bytes = self.layout();
        assert(bytes.subrange(3, BLOCK_SIZE as int) =~= self.allocated_blocks);
    }

    /// Every block is the layout of the record parsed from it.
    pub proof fn lemma_parse_then_layout(block: Seq<u8>)
        requires
            block.len() == BLOCK_SIZE,
        ensures
            Self::parse(block).wf(),
            Self::parse(block).layout() == block,
    {
    }
}

impl SuperBlockData {
    /// An empty superblock for a device of the default size.
    pub fn new(root_inode: u16) -> (r: TfsResult<Self>)
        ensures
            r is Ok,
            r->Ok_0@ == (SuperBlockRecord {
                magic_number: MAGIC_NUMBER,
                root_inode,
                allocated_blocks: Seq::new(ALLOCATION_TABLE_LEN as nat, |i: int| 0u8),
            }),
    {
        Self::new_with_size(root_inode, DEFAULT_DISK_SIZE)
    }

    /// Bytes of bitmap that a device of `size` bytes asks for: one bit for
    /// each whole block, rounded up to whole bytes.
    pub open spec fn bitmap_bytes_needed(size: int) -> int {
        (size / BLOCK_SIZE as int + 7) / 8
    }

    /// An empty superblock for a device of `size` bytes. Fails with
    /// `SizeError` exactly when the bitmap bytes needed exceed `MAX_BLOCKS`.
    pub fn new_with_size(root_inode: u16, size: usize) -> (r: TfsResult<Self>)
        ensures
            Self::bitmap_bytes_needed(size as int) > MAX_BLOCKS ==> r == Err::<Self, TfsError>(
                TfsError::SizeError { size },
            ),
            Self::bitmap_bytes_needed(size as int) <= MAX_BLOCKS ==> r is Ok && r->Ok_0@ == (
            SuperBlockRecord {
                magic_number: MAGIC_NUMBER,
                root_inode,
                allocated_blocks: Seq::new(ALLOCATION_TABLE_LEN as nat, |i: int| 0u8),
            }),
    {
        let blocks = size / BLOCK_SIZE;
        let allocated_needed = blocks / 8 + if blocks % 8 != 0 {
            1
        } else {
            0
        };
        if allocated_needed > MAX_BLOCKS {
            return Err(TfsError::SizeError { size });
        }
        let data = SuperBlockData {
            magic_number: MAGIC_NUMBER,
            root_inode,
            allocated_blocks: [0u8;ALLOCATION_TABLE_LEN],
        };
        assert(data.allocated_blocks@ =~= Seq::new(ALLOCATION_TABLE_LEN as nat, |i: int| 0u8));
        Ok(data)
    }

    /// The record as one block of bytes.
    pub fn serialize(&self) -> (block: [u8; BLOCK_SIZE])
        ensures
            block@ == self@.layout(),
    {
        let mut block = [0u8;BLOCK_SIZE];
        block[0] = self.magic_number;
        put_le16(&mut block, 1, self.root_inode);
        let mut i: usize = 0;
        while i < ALLOCATION_TABLE_LEN
            invariant
                i <= ALLOCATION_TABLE_LEN,
                block@[0] == self.magic_number,
                block@[1] == le16(self.root_inode)[0],
                block@[2] == le16(self.root_inode)[1],
                forall|j: int| 0 <= j < i ==> block@[3 + j] == self.allocated_blocks@[j],
            decreases ALLOCATION_TABLE_LEN - i,
        {
            block[3 + i] = self.allocated_blocks[i];
            i += 1;
        }
        block
    }

    /// Reads a record from the first block of `bytes`. Fails with
    /// `SerializationError` exactly when `bytes` is shorter than a block.
    pub fn deserialize(bytes: &[u8]) -> (r: TfsResult<Self>)
        ensures
            bytes@.len() < BLOCK_SIZE ==> r == Err::<Self, TfsError>(
                TfsError::SerializationError,
            ),
            bytes@.len() >= BLOCK_SIZE ==> r is Ok && r->Ok_0@ == SuperBlockRecord::parse(
                bytes@.subrange(0, BLOCK_SIZE as int),
            ),
    {
        if bytes.len() < BLOCK_SIZE {
            return Err(TfsError::SerializationError);
        }
        let ghost block = bytes@.subrange(0, BLOCK_SIZE as int);
        let root_inode = get_le16(bytes, 1);
        let mut allocated_blocks = [0u8;ALLOCATION_TABLE_LEN];
        let mut i: usize = 0;
        while i < ALLOCATION_TABLE_LEN
            invariant
                i <= ALLOCATION_TABLE_LEN,
                bytes@.len() >= BLOCK_SIZE,
                forall|j: int| 0 <= j < i ==> allocated_blocks@[j] == bytes@[3 + j],
            decreases ALLOCATION_TABLE_LEN - i,
        {
            allocated_blocks[i] = bytes[3 + i];
            i += 1;
        }
        let data = SuperBlockData { magic_number: bytes[0], root_inode, allocated_blocks };
        assert(data.allocated_blocks@ =~= block.subrange(3, BLOCK_SIZE as int));
        Ok(data)
    }
}

/// The directory as stored in block 1: the block number of each file's
/// inode, in directory order, zero for an empty slot.
#[derive(Debug, Clone)]
pub struct RootData {
    pub inodes: [u16; ROOT_INODES],
}

/// What a `RootData` holds.
pub struct RootRecord {
    pub inodes: Seq<u16>,
}

impl View for RootData {
    type V = RootRecord;

    open spec fn view(&self) -> RootRecord {
        RootRecord { inodes: self.inodes@ }
    }
}

impl RootRecord {
    /// The directory has the length of the record's array.
    pub open spec fn wf(self) -> bool {
        self.inodes.len() == ROOT_INODES
    }

    /// The bytes of the record: each entry as two little-endian bytes.
    pub open spec fn layout(self) -> Seq<u8> {
        le16_seq(self.inodes)
    }

    /// The record that a block holds.
    pub open spec fn parse(block: Seq<u8>) -> RootRecord {
        RootRecord { inodes: from_le16_seq(block) }
    }

    /// A record fills one block, and parsing its bytes gives it back.
    pub proof fn lemma_round_trip(self)
        requires
            self.wf(),
        ensures
            self.layout().len() == BLOCK_SIZE,
            Self::parse(self.layout()) == self,
    {
        lemma_le16_seq_round_trip(self.inodes);
    }

    /// Every block is the layout of the record parsed from it.
    pub proof fn lemma_parse_then_layout(block: Seq<u8>)
        requires
            block.len() == BLOCK_SIZE,
        ensures
            Self::parse(block).wf(),
            Self::parse(block).layout() == block,
    {
    }
}

impl RootData {
    /// A directory with every slot empty.
    pub fn new() -> (r: Self)
        ensures
            r@ == (RootRecord { inodes: Seq::new(ROOT_INODES as nat, |i: int| 0u16) }),
    {
        let data = RootData { inodes: [0u16;ROOT_INODES] };
        assert(data.inodes@ =~= Seq::new(ROOT_INODES as nat, |i: int| 0u16));
        data
    }

    /// The record as one block of bytes.
    pub fn serialize(&self) -> (block: [u8; BLOCK_SIZE])
        ensures
            block@ == self@.layout(),
    {
        let mut block = [0u8;BLOCK_SIZE];
        let mut i: usize = 0;
        while i < ROOT_INODES
            invariant
                i <= ROOT_INODES,
                forall|j: int| 0 <= j < 2 * i ==> block@[j] == le16_seq(self.inodes@)[j],
            decreases ROOT_INODES - i,
        {
            put_le16(&mut block, 2 * i, self.inodes[i]);
            i += 1;
        }
        block
    }

    /// Reads a record from the first block of `bytes`. Fails with
    /// `SerializationError` exactly when `bytes` is shorter than a block.
    pub fn deserialize(bytes: &[u8]) -> (r: TfsResult<Self>)
        ensures
            bytes@.len() < BLOCK_SIZE ==> r == Err::<Self, TfsError>(
                TfsError::SerializationError,
            ),
            bytes@.len() >= BLOCK_SIZE ==> r is Ok && r->Ok_0@ == RootRecord::parse(
                bytes@.subrange(0, BLOCK_SIZE as int),
            ),
    {
        if bytes.len() < BLOCK_SIZE {
            return Err(TfsError::SerializationError);
        }
        let ghost block = bytes@.subrange(0, BLOCK_SIZE as int);
        let mut inodes = [0u16;ROOT_INODES];
        let mut i: usize = 0;
        while i < ROOT_INODES
            invariant
                i <= ROOT_INODES,
                bytes@.len() >= BLOCK_SIZE,
                block == bytes@.subrange(0, BLOCK_SIZE as int),
                forall|j: int| 0 <= j < i ==> inodes@[j] == from_le16_seq(block)[j],
            decreases ROOT_INODES - i,
        {
            inodes[i] = get_le16(bytes, 2 * i);
            i += 1;
        }
        let data = RootData { inodes };
        assert(data.inodes@ =~= from_le16_seq(block));
        Ok(data)
    }
}

/// File metadata as stored in an inode: the size in bytes and three times
/// in seconds since the Unix epoch.
#[derive(Debug, Clone, Copy, PartialEq, Eq)]
pub struct StatData {
    pub size: u16,
    pub ctime: u32,
    pub mtime: u32,
    pub atime: u32,
}

impl StatData {
    /// Metadata of an empty file at the epoch.
    pub fn new() -> (r: Self)
        ensures
            r == (StatData { size: 0, ctime: 0, mtime: 0, atime: 0 }),
    {
        StatData { size: 0, ctime: 0, mtime: 0, atime: 0 }
    }

    /// The bytes of the record: the size, then creation, modification and
    /// access time.
    pub open spec fn layout(self) -> Seq<u8> {
        le16(self.size) + le32(self.ctime) + le32(self.mtime) + le32(self.atime)
    }

    /// The record that `STAT_LEN` bytes hold.
    pub open spec fn parse(bytes: Seq<u8>) -> StatData {
        StatData {
            size: from_le16(bytes.subrange(0, 2)),
            ctime: from_le32(bytes.subrange(2, 6)),
            mtime: from_le32(bytes.subrange(6, 10)),
            atime: from_le32(bytes.subrange(10, 14)),
        }
    }

    /// A record fills `STAT_LEN` bytes, and parsing them gives it back.
    pub proof fn lemma_round_trip(self)
        ensures
            self.layout().len() == STAT_LEN,
            Self::parse(self.layout()) == self,
    {
        let bytes = self.layout();
        lemma_le32_round_trip(self.mtime);
    }

    /// Any `STAT_LEN` bytes are the layout of the record parsed from them.
    pub proof fn lemma_parse_then_layout(bytes: Seq<u8>)
        requires
            bytes.len() == STAT_LEN,
        ensures
            Self::parse(bytes).layout() == bytes,
    {
        lemma_from_le32_round_trip(bytes.subrange(2, 6));
        lemma_from_le32_round_trip(bytes.subrange(6, 10));
        lemma_from_le32_round_trip(bytes.subrange(10, 14));
    }
}

/// An inode as stored in its block: the file name padded with zero bytes,
/// the metadata, and the data blocks in file order, zero for an empty slot.
#[derive(Debug, Clone)]
pub struct INodeData {
    pub filename: [u8; MAX_FILENAME_LEN],
    pub stat: StatData,
    pub blocks: [u16; INODE_BLOCKS],
}

/// What an `INodeData` holds.
pub struct INodeRecord {
    pub filename: Seq<u8>,
    pub stat: StatData,
    pub blocks: Seq<u16>,
}

impl View for INodeData {
    type V = INodeRecord;

    open spec fn view(&self) -> INodeRecord {
        INodeRecord { filename: self.filename@, stat: self.stat, blocks: self.blocks@ }
    }
}

impl INodeRecord {
    /// The name and the block list have the lengths of the record's arrays.
    pub open spec fn wf(self) -> bool {
        self.filename.len() == MAX_FILENAME_LEN && self.blocks.len() == INODE_BLOCKS
    }

    /// The bytes of the record: the name, the metadata, the block list.
    pub open spec fn layout(self) -> Seq<u8> {
        self.filename + self.stat.layout() + le16_seq(self.blocks)
    }

    /// The record that a block holds.
    pub open spec fn parse(block: Seq<u8>) -> INodeRecord {
        INodeRecord {
            filename: block.subrange(0, MAX_FILENAME_LEN as int),
            stat: StatData::parse(
                block.subrange(MAX_FILENAME_LEN as int, (MAX_FILENAME_LEN + STAT_LEN) as int),
            ),
            blocks: from_le16_seq(
                block.subrange((MAX_FILENAME_LEN + STAT_LEN) as int, BLOCK_SIZE as int),
            ),
        }
    }

    /// A record fills one block, and parsing its bytes gives it back.
    pub proof fn lemma_round_trip(self)
        requires
            self.wf(),
        ensures
            self.layout().len() == BLOCK_SIZE,
            Self::parse(self.layout()) == self,
    {
        let bytes = self.layout();
        lemma_le16_seq_round_trip(self.blocks);
        assert(bytes.subrange(0, 8) =~= self.filename);
        assert(bytes.subrange(22, 256) =~= le16_seq(self.blocks));
    }

    /// Every block is the layout of the record parsed from it.
    pub proof fn lemma_parse_then_layout(block: Seq<u8>)
        requires
            block.len() == BLOCK_SIZE,
        ensures
            Self::parse(block).wf(),
            Self::parse(block).layout() == block,
    {
        StatData::lemma_parse_then_layout(block.subrange(8, 22));
    }
}

impl INodeData {
    /// The record of an empty, nameless file.
    pub fn new() -> (r: Self)
        ensures
            r@ == (INodeRecord {
                filename: Seq::new(MAX_FILENAME_LEN as nat, |i: int| 0u8),
                stat: StatData { size: 0, ctime: 0, mtime: 0, atime: 0 },
                blocks: Seq::new(INODE_BLOCKS as nat, |i: int| 0u16),
            }),
    {
        let data = INodeData {
            filename: [0u8;MAX_FILENAME_LEN],
            stat: StatData::new(),
            blocks: [0u16;INODE_BLOCKS],
        };
        assert(data.filename@ =~= Seq::new(MAX_FILENAME_LEN as nat, |i: int| 0u8));
        assert(data.blocks@ =~= Seq::new(INODE_BLOCKS as nat, |i: int| 0u16));
        data
    }

    /// The record as one block of bytes.
    pub fn serialize(&self) -> (block: [u8; BLOCK_SIZE])
        ensures
            block@ == self@.layout(),
    {
        let ghost stat = self.stat.layout();
        let ghost list = le16_seq(self.blocks@);
        let mut block = [0u8;BLOCK_SIZE];
        let mut i: usize = 0;
        while i < MAX_FILENAME_LEN
            invariant
                i <= MAX_FILENAME_LEN,
                forall|j: int| 0 <= j < i ==> block@[j] == self.filename@[j],
            decreases MAX_FILENAME_LEN - i,
        {
            block[i] = self.filename[i];
            i += 1;
        }
        put_le16(&mut block, 8, self.stat.size);
        put_le32(&mut block, 10, self.stat.ctime);
        put_le32(&mut block, 14, self.stat.mtime);
        put_le32(&mut block, 18, self.stat.atime);
        assert(forall|j: int| 0 <= j < 14 ==> block@[8 + j] == stat[j]);
        let mut k: usize = 0;
        while k < INODE_BLOCKS
            invariant
                k <= INODE_BLOCKS,
                stat == self.stat.layout(),
                list == le16_seq(self.blocks@),
                forall|j: int| 0 <= j < 8 ==> block@[j] == self.filename@[j],
                forall|j: int| 0 <= j < 14 ==> block@[8 + j] == stat[j],
                forall|j: int| 0 <= j < 2 * k ==> block@[22 + j] == list[j],
            decreases INODE_BLOCKS - k,
        {
            put_le16(&mut block, 22 + 2 * k, self.blocks[k]);
            k += 1;
        }
        block
    }

    /// Reads a record from the first block of `bytes`. Fails with
    /// `SerializationError` exactly when `bytes` is shorter than a block.
    pub fn deserialize(bytes: &[u8]) -> (r: TfsResult<Self>)
        ensures
            bytes@.len() < BLOCK_SIZE ==> r == Err::<Self, TfsError>(
                TfsError::SerializationError,
            ),
            bytes@.len() >= BLOCK_SIZE ==> r is Ok && r->Ok_0@ == INodeRecord::parse(
                bytes@.subrange(0, BLOCK_SIZE as int),
            ),
    {
        if bytes.len() < BLOCK_SIZE {
            return Err(TfsError::SerializationError);
        }
        let ghost block = bytes@.subrange(0, BLOCK_SIZE as int);
        let ghost list = block.subrange(22, 256);
        let mut filename = [0u8;MAX_FILENAME_LEN];
        let mut i: usize = 0;
        while i < MAX_FILENAME_LEN
            invariant
                i <= MAX_FILENAME_LEN,
                bytes@.len() >= BLOCK_SIZE,
                forall|j: int| 0 <= j < i ==> filename@[j] == bytes@[j],
            decreases MAX_FILENAME_LEN - i,
        {
            filename[i] = bytes[i];
            i += 1;
        }
        let stat = StatData {
            size: get_le16(bytes, 8),
            ctime: get_le32(bytes, 10),
            mtime: get_le32(bytes, 14),
            atime: get_le32(bytes, 18),
        };
        proof {
            let field = block.subrange(8, 22);
        }
        let mut blocks = [0u16;INODE_BLOCKS];
        let mut k: usize = 0;
        while k < INODE_BLOCKS
            invariant
                k <= INODE_BLOCKS,
                bytes@.len() >= BLOCK_SIZE,
                block == bytes@.subrange(0, BLOCK_SIZE as int),
                list == block.subrange(22, 256),
                forall|j: int| 0 <= j < k ==> blocks@[j] == from_le16_seq(list)[j],
            decreases INODE_BLOCKS - k,
        {
            blocks[k] = get_le16(bytes, 22 + 2 * k);
            k += 1;
        }
        let data = INodeData { filename, stat, blocks };
        assert(data.filename@ =~= block.subrange(0, 8));
        assert(data.blocks@ =~= from_le16_seq(list));
        Ok(data)
    }
}

} // verus!
