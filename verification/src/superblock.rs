//! The block allocator: one bit of the superblock's bitmap per block.

use vstd::prelude::*;

use crate::disk::{store_block, Disk};
use crate::error::{TfsError, TfsResult};
use crate::structures::{
    SuperBlockData, SuperBlockRecord, ALLOCATION_TABLE_LEN, MAGIC_NUMBER, MAX_BLOCKS,
};
use crate::BLOCK_SIZE;

verus! {

/// Block that holds the superblock.
pub const SUPERBLOCK_BLOCK: u16 = 0;

/// Block that holds the directory, as every superblock records it.
pub const ROOT_BLOCK: u16 = 1;

/// Whether bit `bit` of `byte` is set, bit 0 being the lowest.
pub open spec fn bit_is_set(byte: u8, bit: u8) -> bool {
    byte & (1u8 << bit) != 0
}

/// Whether `bitmap` marks `block` as allocated: bit `block % 8` of byte
/// `block / 8`.
pub open spec fn is_allocated(bitmap: Seq<u8>, block: int) -> bool {
    0 <= block < 8 * bitmap.len() && bit_is_set(bitmap[block / 8], (block % 8) as u8)
}

/// `bitmap` with the bit of `block` set or cleared.
pub open spec fn with_block(bitmap: Seq<u8>, block: int, on: bool) -> Seq<u8> {
    bitmap.update(
        block / 8,
        if on {
            bitmap[block / 8] | (1u8 << ((block % 8) as u8))
        } else {
            bitmap[block / 8] & !(1u8 << ((block % 8) as u8))
        },
    )
}

/// The lowest block from `from` on that `bitmap` leaves free, or the number
/// of bits of the bitmap where there is none.
pub open spec fn first_free_from(bitmap: Seq<u8>, from: int) -> int
    decreases 8 * bitmap.len() - from,
{
    if from < 0 || from >= 8 * bitmap.len() {
        8 * bitmap.len() as int
    } else if !is_allocated(bitmap, from) {
        from
    } else {
        first_free_from(bitmap, from + 1)
    }
}

/// The lowest free block of `bitmap`, or the number of its bits where every
/// block is taken.
pub open spec fn first_free(bitmap: Seq<u8>) -> int {
    first_free_from(bitmap, 0)
}

/// What `first_free_from` finds is free, and nothing before it is.
pub proof fn lemma_first_free_from(bitmap: Seq<u8>, from: int)
    requires
        0 <= from <= 8 * bitmap.len(),
    ensures
        from <= first_free_from(bitmap, from) <= 8 * bitmap.len(),
        first_free_from(bitmap, from) < 8 * bitmap.len() ==> !is_allocated(
            bitmap,
            first_free_from(bitmap, from),
        ),
        forall|j: int| from <= j < first_free_from(bitmap, from) ==> is_allocated(bitmap, j),
    decreases 8 * bitmap.len() - from,
{
    if from < 8 * bitmap.len() && is_allocated(bitmap, from) {
        lemma_first_free_from(bitmap, from + 1);
    }
}

/// A free block with nothing free before it is the first free block; a
/// bitmap with every block taken has none.
pub proof fn lemma_first_free_is(bitmap: Seq<u8>, block: int)
    requires
        0 <= block <= 8 * bitmap.len(),
        forall|j: int| 0 <= j < block ==> is_allocated(bitmap, j),
        block < 8 * bitmap.len() ==> !is_allocated(bitmap, block),
    ensures
        first_free(bitmap) == block,
{
    lemma_first_free_from(bitmap, 0);
}

proof fn lemma_set_bit(byte: u8, bit: u8, k: u8)
    by (bit_vector)
    requires
        bit < 8,
        k < 8,
    ensures
        ((byte | (1u8 << bit)) & (1u8 << k) != 0) == (k == bit || byte & (1u8 << k) != 0),
{
}

proof fn lemma_clear_bit(byte: u8, bit: u8, k: u8)
    by (bit_vector)
    requires
        bit < 8,
        k < 8,
    ensures
        ((byte & !(1u8 << bit)) & (1u8 << k) != 0) == (k != bit && byte & (1u8 << k) != 0),
{
}

proof fn lemma_byte_255(bit: u8)
    by (bit_vector)
    requires
        bit < 8,
    ensures
        255u8 & (1u8 << bit) != 0,
{
}

proof fn lemma_byte_0(bit: u8)
    by (bit_vector)
    requires
        bit < 8,
    ensures
        0u8 & (1u8 << bit) == 0,
{
}

/// Setting or clearing the bit of one block changes that block and no other.
pub proof fn lemma_with_block(bitmap: Seq<u8>, block: int, on: bool, other: int)
    requires
        0 <= block < 8 * bitmap.len(),
    ensures
        with_block(bitmap, block, on).len() == bitmap.len(),
        is_allocated(with_block(bitmap, block, on), other) == if other == block {
            on
        } else {
            is_allocated(bitmap, other)
        },
{
    if 0 <= other < 8 * bitmap.len() && other / 8 == block / 8 {
        let byte = bitmap[block / 8];
        if on {
            lemma_set_bit(byte, (block % 8) as u8, (other % 8) as u8);
        } else {
            lemma_clear_bit(byte, (block % 8) as u8, (other % 8) as u8);
        }
    }
}

/// The number of blocks from `from` on that `bitmap` leaves free.
pub open spec fn free_blocks(bitmap: Seq<u8>, from: int) -> int
    decreases 8 * bitmap.len() - from,
{
    if from < 0 || from >= 8 * bitmap.len() {
        0
    } else if is_allocated(bitmap, from) {
        free_blocks(bitmap, from + 1)
    } else {
        1 + free_blocks(bitmap, from + 1)
    }
}

/// The count of free blocks is never negative, and it is zero exactly when
/// no block from `from` on is free.
pub proof fn lemma_free_blocks_zero(bitmap: Seq<u8>, from: int)
    requires
        0 <= from <= 8 * bitmap.len(),
    ensures
        free_blocks(bitmap, from) >= 0,
        free_blocks(bitmap, from) == 0 <==> first_free_from(bitmap, from) >= 8 * bitmap.len(),
    decreases 8 * bitmap.len() - from,
{
    if from < 8 * bitmap.len() {
        lemma_free_blocks_zero(bitmap, from + 1);
    }
}

/// Allocating a free block lowers by one the count of free blocks from
/// every point at or before it, and leaves the count from every later
/// point as it was.
pub proof fn lemma_free_blocks_taken(bitmap: Seq<u8>, block: int, from: int)
    requires
        0 <= from <= 8 * bitmap.len(),
        0 <= block < 8 * bitmap.len(),
        !is_allocated(bitmap, block),
    ensures
        free_blocks(with_block(bitmap, block, true), from) == free_blocks(bitmap, from) - if from
            <= block {
            1int
        } else {
            0int
        },
    decreases 8 * bitmap.len() - from,
{
    if from < 8 * bitmap.len() {
        lemma_with_block(bitmap, block, true, from);
        lemma_free_blocks_taken(bitmap, block, from + 1);
    }
}

/// Where no block from `from` on is allocated, every one of them counts as
/// free.
pub proof fn lemma_free_blocks_all(bitmap: Seq<u8>, from: int)
    requires
        0 <= from <= 8 * bitmap.len(),
        forall|block: int| from <= block < 8 * bitmap.len() ==> !is_allocated(bitmap, block),
    ensures
        free_blocks(bitmap, from) == 8 * bitmap.len() - from,
    decreases 8 * bitmap.len() - from,
{
    if from < 8 * bitmap.len() {
        lemma_free_blocks_all(bitmap, from + 1);
    }
}

/// A fresh allocator has no block allocated and `MAX_BLOCKS` blocks free.
pub proof fn lemma_fresh_allocator()
    ensures
        SuperBlockModel::fresh().wf(),
        forall|block: int| !SuperBlockModel::fresh().allocated(block),
        free_blocks(SuperBlockModel::fresh().bitmap, 0) == MAX_BLOCKS,
{
    let bitmap = SuperBlockModel::fresh().bitmap;
    assert forall|block: int| !is_allocated(bitmap, block) by {
        if 0 <= block < 8 * bitmap.len() {
            lemma_byte_0((block % 8) as u8);
        }
    }
    lemma_free_blocks_all(bitmap, 0);
}

/// What a `SuperBlock` holds: the bitmap, and whether it has changed since
/// it was last written.
pub struct SuperBlockModel {
    pub dirty: bool,
    pub bitmap: Seq<u8>,
}

impl SuperBlockModel {
    /// The bitmap has the length that the record stores.
    pub open spec fn wf(self) -> bool {
        self.bitmap.len() == ALLOCATION_TABLE_LEN
    }

    /// The superblock of a fresh allocator: nothing allocated, unwritten.
    pub open spec fn fresh() -> SuperBlockModel {
        SuperBlockModel { dirty: true, bitmap: Seq::new(ALLOCATION_TABLE_LEN as nat, |i: int| 0u8) }
    }

    /// Whether `block` is allocated.
    pub open spec fn allocated(self, block: int) -> bool {
        is_allocated(self.bitmap, block)
    }

    /// The number of free blocks.
    pub open spec fn free(self) -> int {
        free_blocks(self.bitmap, 0)
    }

    /// Whether every block is allocated.
    pub open spec fn full(self) -> bool {
        first_free(self.bitmap) >= 8 * self.bitmap.len()
    }

    /// Takes the lowest free block, if there is one. The superblock is
    /// dirty afterwards either way.
    pub open spec fn allocate(self) -> (SuperBlockModel, Option<u16>) {
        let block = first_free(self.bitmap);
        if block < 8 * self.bitmap.len() {
            (
                SuperBlockModel { dirty: true, bitmap: with_block(self.bitmap, block, true) },
                Some(block as u16),
            )
        } else {
            (SuperBlockModel { dirty: true, bitmap: self.bitmap }, None)
        }
    }

    /// Marks `block` as allocated or as free.
    pub open spec fn mark(self, block: int, on: bool) -> SuperBlockModel {
        SuperBlockModel { dirty: true, bitmap: with_block(self.bitmap, block, on) }
    }

    /// The record written to block 0.
    pub open spec fn record(self) -> SuperBlockRecord {
        SuperBlockRecord {
            magic_number: MAGIC_NUMBER,
            root_inode: ROOT_BLOCK,
            allocated_blocks: self.bitmap,
        }
    }

    /// Writes the record to block 0 of `disk` if the superblock is dirty.
    pub open spec fn sync(self, disk: Seq<u8>) -> (SuperBlockModel, Seq<u8>) {
        if self.dirty {
            (
                SuperBlockModel { dirty: false, bitmap: self.bitmap },
                store_block(disk, SUPERBLOCK_BLOCK as int, BLOCK_SIZE as int, self.record().layout()),
            )
        } else {
            (self, disk)
        }
    }
}

/// The allocator that lives in block 0.
#[derive(Debug, Clone)]
pub struct SuperBlock {
    dirty: bool,
    allocated_blocks: [u8; ALLOCATION_TABLE_LEN],
}

impl View for SuperBlock {
    type V = SuperBlockModel;

    closed spec fn view(&self) -> SuperBlockModel {
        SuperBlockModel { dirty: self.dirty, bitmap: self.allocated_blocks@ }
    }
}

impl SuperBlock {
    /// The bitmap of every superblock has `ALLOCATION_TABLE_LEN` bytes.
    pub proof fn lemma_wf(&self)
        ensures
            self@.wf(),
    {
    }

    /// An allocator with every block free.
    pub fn new() -> (r: Self)
        ensures
            r@ == SuperBlockModel::fresh(),
    {
        let r = SuperBlock { dirty: true, allocated_blocks: [0u8;ALLOCATION_TABLE_LEN] };
        assert(r@.bitmap =~= SuperBlockModel::fresh().bitmap);
        r
    }

    /// Takes the lowest free block and returns it, or `None` when every
    /// block is taken.
    pub fn allocate_block(&mut self) -> (r: Option<u16>)
        ensures
            (final(self)@, r) == old(self)@.allocate(),
    {
        self.dirty = true;
        let ghost bitmap = old(self)@.bitmap;
        let mut i: usize = 0;
        while i < ALLOCATION_TABLE_LEN
            invariant
                i <= ALLOCATION_TABLE_LEN,
                self.dirty,
                self.allocated_blocks@ == bitmap,
                bitmap == old(self)@.bitmap,
                bitmap.len() == ALLOCATION_TABLE_LEN,
                forall|j: int| 0 <= j < 8 * i ==> is_allocated(bitmap, j),
            decreases ALLOCATION_TABLE_LEN - i,
        {
            let byte = self.allocated_blocks[i];
            if byte != u8::MAX {
                let mut bit: u8 = 0;
                while bit < 8
                    invariant
                        bit <= 8,
                        i < ALLOCATION_TABLE_LEN,
                        self.dirty,
                        self.allocated_blocks@ == bitmap,
                        bitmap == old(self)@.bitmap,
                        bitmap.len() == ALLOCATION_TABLE_LEN,
                        byte == bitmap[i as int],
                        byte != 255,
                        forall|j: int| 0 <= j < 8 * i + bit ==> is_allocated(bitmap, j),
                    decreases 8 - bit,
                {
                    if byte & (1u8 << bit) == 0 {
                        let block: u16 = i as u16 * 8 + bit as u16;
                        self.allocated_blocks[i] = byte | (1u8 << bit);
                        proof {
                            lemma_first_free_is(bitmap, block as int);
                        }
                        return Some(block);
                    }
                    bit += 1;
                }
            } else {
                proof {
                    assert forall|j: int| 8 * i <= j < 8 * i + 8 implies is_allocated(
                        bitmap,
                        j,
                    ) by {
                        lemma_byte_255((j % 8) as u8);
                    }
                }
            }
            i += 1;
        }
        proof {
            lemma_first_free_is(bitmap, 8 * bitmap.len() as int);
        }
        None
    }

    /// Marks `block` as allocated.
    pub fn mark_allocated(&mut self, block: u16)
        requires
            block < MAX_BLOCKS,
        ensures
            final(self)@ == old(self)@.mark(block as int, true),
    {
        self.dirty = true;
        let byte = block / 8;
        let bit = (block % 8) as u8;
        let before = self.allocated_blocks[byte as usize];
        self.allocated_blocks[byte as usize] = before | (1u8 << bit);
    }

    /// Marks `block` as free.
    pub fn mark_free(&mut self, block: u16)
        requires
            block < MAX_BLOCKS,
        ensures
            final(self)@ == old(self)@.mark(block as int, false),
    {
        self.dirty = true;
        let byte = block / 8;
        let bit = (block % 8) as u8;
        let before = self.allocated_blocks[byte as usize];
        self.allocated_blocks[byte as usize] = before & !(1u8 << bit);
    }

    /// Whether `block` is allocated; blocks beyond the bitmap are not.
    pub fn is_allocated(&self, block: u16) -> (r: bool)
        ensures
            r == self@.allocated(block as int),
    {
        if block as usize >= MAX_BLOCKS {
            return false;
        }
        let bit = (block % 8) as u8;
        self.allocated_blocks[(block / 8) as usize] & (1u8 << bit) != 0
    }

    /// Whether the bitmap has changed since it was last written.
    pub fn is_dirty(&self) -> (r: bool)
        ensures
            r == self@.dirty,
    {
        self.dirty
    }

    /// Writes the superblock to block 0 if it is dirty, and marks it clean.
    pub fn sync(&mut self, disk: &mut Disk<BLOCK_SIZE>) -> (r: TfsResult<()>)
        ensures
            r is Ok,
            (final(self)@, final(disk)@) == old(self)@.sync(old(disk)@),
    {
        if self.dirty {
            let data = SuperBlockData {
                magic_number: MAGIC_NUMBER,
                root_inode: ROOT_BLOCK,
                allocated_blocks: self.allocated_blocks,
            };
            match disk.write_block(SUPERBLOCK_BLOCK as usize, data.serialize()) {
                Ok(()) => {},
                Err(e) => { return Err(TfsError::DiskError(e)); },
            }
            self.dirty = false;
        }
        Ok(())
    }
}

impl From<SuperBlockData> for SuperBlock {
    /// The allocator that a stored superblock describes, clean.
    fn from(data: SuperBlockData) -> (r: SuperBlock) {
        SuperBlock { dirty: false, allocated_blocks: data.allocated_blocks }
    }
}

impl vstd::std_specs::convert::FromSpecImpl<SuperBlockData> for SuperBlock {
    open spec fn obeys_from_spec() -> bool {
        true
    }

    closed spec fn from_spec(data: SuperBlockData) -> SuperBlock {
        SuperBlock { dirty: false, allocated_blocks: data.allocated_blocks }
    }
}

impl From<SuperBlock> for SuperBlockData {
    /// The record that the allocator is stored as.
    fn from(superblock: SuperBlock) -> (r: SuperBlockData) {
        SuperBlockData {
            magic_number: MAGIC_NUMBER,
            root_inode: ROOT_BLOCK,
            allocated_blocks: superblock.allocated_blocks,
        }
    }
}

impl vstd::std_specs::convert::FromSpecImpl<SuperBlock> for SuperBlockData {
    open spec fn obeys_from_spec() -> bool {
        true
    }

    closed spec fn from_spec(superblock: SuperBlock) -> SuperBlockData {
        SuperBlockData {
            magic_number: MAGIC_NUMBER,
            root_inode: ROOT_BLOCK,
            allocated_blocks: superblock.allocated_blocks,
        }
    }
}

/// The allocator made from a record holds the record's bitmap and is
/// clean.
pub proof fn lemma_superblock_of_record(data: SuperBlockData)
    ensures
        <SuperBlock as vstd::std_specs::convert::FromSpec<SuperBlockData>>::from_spec(data)@ == (
        SuperBlockModel { dirty: false, bitmap: data@.allocated_blocks }),
{
}

/// The record made from an allocator is the one that a sync writes.
pub proof fn lemma_record_of_superblock(superblock: SuperBlock)
    ensures
        <SuperBlockData as vstd::std_specs::convert::FromSpec<SuperBlock>>::from_spec(superblock)@
            == superblock@.record(),
{
}

} // verus!
