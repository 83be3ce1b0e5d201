use tinyfs_rs::structures::{SuperBlockData, MAX_BLOCKS};
use tinyfs_rs::superblock::SuperBlock;
use tinyfs_rs::{Disk, BLOCK_SIZE};

#[test]
fn a_new_allocator_is_dirty_and_empty() {
    let superblock = SuperBlock::new();
    assert!(superblock.is_dirty());
    for block in 0..MAX_BLOCKS as u16 {
        assert!(!superblock.is_allocated(block));
    }
    assert!(!superblock.is_allocated(MAX_BLOCKS as u16));
    assert!(!superblock.is_allocated(u16::MAX));
}

#[test]
fn allocation_takes_the_lowest_free_block() {
    let mut superblock = SuperBlock::new();
    assert_eq!(superblock.allocate_block(), Some(0));
    assert_eq!(superblock.allocate_block(), Some(1));
    assert_eq!(superblock.allocate_block(), Some(2));
    superblock.mark_allocated(3);
    superblock.mark_allocated(4);
    superblock.mark_allocated(8);
    assert_eq!(superblock.allocate_block(), Some(5));
    assert_eq!(superblock.allocate_block(), Some(6));
    assert_eq!(superblock.allocate_block(), Some(7));
    assert_eq!(superblock.allocate_block(), Some(9));
    superblock.mark_free(4);
    assert!(!superblock.is_allocated(4));
    assert!(superblock.is_allocated(3));
    assert!(superblock.is_allocated(5));
    assert_eq!(superblock.allocate_block(), Some(4));
    assert_eq!(superblock.allocate_block(), Some(10));
}

#[test]
fn allocation_never_hands_out_a_block_twice_and_ends_with_none() {
    let mut superblock = SuperBlock::new();
    for expected in 0..MAX_BLOCKS as u16 {
        assert!(!superblock.is_allocated(expected));
        assert_eq!(superblock.allocate_block(), Some(expected));
        assert!(superblock.is_allocated(expected));
    }
    assert_eq!(superblock.allocate_block(), None);
    assert_eq!(superblock.allocate_block(), None);
    superblock.mark_free(1000);
    assert_eq!(superblock.allocate_block(), Some(1000));
    assert_eq!(superblock.allocate_block(), None);
}

#[test]
fn marks_set_and_clear_single_bits() {
    let mut superblock = SuperBlock::new();
    superblock.mark_allocated(0);
    superblock.mark_allocated(1);
    superblock.mark_allocated(9);
    superblock.mark_allocated(2023);
    let data = SuperBlockData::from(superblock.clone());
    assert_eq!(data.magic_number, 0x5A);
    assert_eq!(data.root_inode, 1);
    assert_eq!(data.allocated_blocks[0], 0b0000_0011);
    assert_eq!(data.allocated_blocks[1], 0b0000_0010);
    assert_eq!(data.allocated_blocks[252], 0b1000_0000);
    superblock.mark_free(1);
    superblock.mark_free(5);
    let data = SuperBlockData::from(superblock);
    assert_eq!(data.allocated_blocks[0], 0b0000_0001);
}

#[test]
fn sync_writes_a_dirty_superblock_to_block_0_once() {
    let mut disk: Disk<BLOCK_SIZE> = Disk::open(Vec::new(), 0).unwrap();
    let mut superblock = SuperBlock::new();
    superblock.mark_allocated(0);
    superblock.mark_allocated(1);
    superblock.sync(&mut disk).unwrap();
    assert!(!superblock.is_dirty());
    let block = disk.read_block(0).unwrap();
    assert_eq!(block[0], 0x5A);
    assert_eq!(&block[1..3], &[1, 0]);
    assert_eq!(block[3], 0b11);
    assert!(block[4..].iter().all(|b| *b == 0));

    // A clean superblock is not written again.
    disk.write_block(0, [0xEE; BLOCK_SIZE]).unwrap();
    superblock.sync(&mut disk).unwrap();
    assert_eq!(disk.read_block(0).unwrap(), [0xEE; BLOCK_SIZE]);

    // A failed allocation marks it dirty too.
    for block in 0..MAX_BLOCKS as u16 {
        superblock.mark_allocated(block);
    }
    superblock.sync(&mut disk).unwrap();
    assert!(!superblock.is_dirty());
    assert_eq!(superblock.allocate_block(), None);
    assert!(superblock.is_dirty());
}

#[test]
fn a_stored_superblock_gives_back_the_allocator_clean() {
    let mut superblock = SuperBlock::new();
    superblock.mark_allocated(0);
    superblock.mark_allocated(1);
    superblock.mark_allocated(77);
    let data = SuperBlockData::from(superblock);
    let back = SuperBlock::from(SuperBlockData::deserialize(&data.serialize()).unwrap());
    assert!(!back.is_dirty());
    for block in 0..MAX_BLOCKS as u16 {
        assert_eq!(back.is_allocated(block), block == 0 || block == 1 || block == 77);
    }
}
