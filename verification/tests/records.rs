use tinyfs_rs::structures::{
    INodeData, RootData, StatData, SuperBlockData, ALLOCATION_TABLE_LEN, INODE_BLOCKS,
    MAGIC_NUMBER, MAX_BLOCKS, MAX_FILENAME_LEN, ROOT_INODES, STAT_LEN,
};
use tinyfs_rs::{TfsError, BLOCK_SIZE, DEFAULT_DISK_SIZE};

#[test]
fn superblock_correct_size() {
    let super_block = SuperBlockData::new(1).unwrap();
    let encoded = super_block.serialize();
    assert_eq!(encoded.len(), BLOCK_SIZE);
}

#[test]
fn inode_correct_size() {
    let inode = INodeData::new();
    let encoded = inode.serialize();
    assert_eq!(encoded.len(), BLOCK_SIZE);
}

#[test]
fn root_correct_size() {
    let inode = RootData::new();
    let encoded = inode.serialize();
    assert_eq!(encoded.len(), BLOCK_SIZE);
}

#[test]
fn layout_constants() {
    assert_eq!(BLOCK_SIZE, 256);
    assert_eq!(DEFAULT_DISK_SIZE, 10240);
    assert_eq!(MAGIC_NUMBER, 0x5A);
    assert_eq!(ALLOCATION_TABLE_LEN, 253);
    assert_eq!(MAX_BLOCKS, 2024);
    assert_eq!(ROOT_INODES, 128);
    assert_eq!(MAX_FILENAME_LEN, 8);
    assert_eq!(STAT_LEN, 14);
    assert_eq!(INODE_BLOCKS, 117);
}

fn sample_superblock() -> SuperBlockData {
    let mut allocated_blocks = [0u8; ALLOCATION_TABLE_LEN];
    for (i, b) in allocated_blocks.iter_mut().enumerate() {
        *b = (i * 7 + 3) as u8;
    }
    SuperBlockData { magic_number: 0x5A, root_inode: 0x1234, allocated_blocks }
}

fn sample_root() -> RootData {
    let mut inodes = [0u16; ROOT_INODES];
    for (i, b) in inodes.iter_mut().enumerate() {
        *b = (i as u16) * 511 + 2;
    }
    RootData { inodes }
}

fn sample_inode() -> INodeData {
    let mut blocks = [0u16; INODE_BLOCKS];
    for (i, b) in blocks.iter_mut().enumerate() {
        *b = 0xFFFF - (i as u16) * 300;
    }
    INodeData {
        filename: *b"test.txt",
        stat: StatData { size: 0xBEEF, ctime: 0x01020304, mtime: 0xA1B2C3D4, atime: 0xFFFFFFFF },
        blocks,
    }
}

#[test]
fn superblock_layout_is_magic_then_root_pointer_then_bitmap() {
    let data = sample_superblock();
    let bytes = data.serialize();
    assert_eq!(bytes[0], 0x5A);
    assert_eq!(bytes[1], 0x34);
    assert_eq!(bytes[2], 0x12);
    assert_eq!(&bytes[3..], &data.allocated_blocks[..]);
}

#[test]
fn root_layout_is_little_endian_pairs() {
    let data = sample_root();
    let bytes = data.serialize();
    for i in 0..ROOT_INODES {
        assert_eq!(bytes[2 * i], (data.inodes[i] & 0xFF) as u8);
        assert_eq!(bytes[2 * i + 1], (data.inodes[i] >> 8) as u8);
    }
}

#[test]
fn inode_layout_is_name_then_stat_then_blocks() {
    let data = sample_inode();
    let bytes = data.serialize();
    assert_eq!(&bytes[0..8], b"test.txt");
    assert_eq!(&bytes[8..10], &[0xEF, 0xBE]);
    assert_eq!(&bytes[10..14], &[0x04, 0x03, 0x02, 0x01]);
    assert_eq!(&bytes[14..18], &[0xD4, 0xC3, 0xB2, 0xA1]);
    assert_eq!(&bytes[18..22], &[0xFF, 0xFF, 0xFF, 0xFF]);
    for i in 0..INODE_BLOCKS {
        assert_eq!(bytes[22 + 2 * i], (data.blocks[i] & 0xFF) as u8);
        assert_eq!(bytes[23 + 2 * i], (data.blocks[i] >> 8) as u8);
    }
}

#[test]
fn superblock_round_trip() {
    let data = sample_superblock();
    let bytes = data.serialize();
    assert_eq!(bytes.len(), BLOCK_SIZE);
    let back = SuperBlockData::deserialize(&bytes).unwrap();
    assert_eq!(back.magic_number, data.magic_number);
    assert_eq!(back.root_inode, data.root_inode);
    assert_eq!(back.allocated_blocks, data.allocated_blocks);
    assert_eq!(back.serialize(), bytes);
}

#[test]
fn root_round_trip() {
    let data = sample_root();
    let bytes = data.serialize();
    assert_eq!(bytes.len(), BLOCK_SIZE);
    let back = RootData::deserialize(&bytes).unwrap();
    assert_eq!(back.inodes, data.inodes);
    assert_eq!(back.serialize(), bytes);
}

#[test]
fn inode_round_trip() {
    let data = sample_inode();
    let bytes = data.serialize();
    assert_eq!(bytes.len(), BLOCK_SIZE);
    let back = INodeData::deserialize(&bytes).unwrap();
    assert_eq!(back.filename, data.filename);
    assert_eq!(back.stat, data.stat);
    assert_eq!(back.blocks, data.blocks);
    assert_eq!(back.serialize(), bytes);
}

#[test]
fn every_block_is_a_record() {
    let mut block = [0u8; BLOCK_SIZE];
    for (i, b) in block.iter_mut().enumerate() {
        *b = (i as u8).wrapping_mul(37).wrapping_add(11);
    }
    assert_eq!(SuperBlockData::deserialize(&block).unwrap().serialize(), block);
    assert_eq!(RootData::deserialize(&block).unwrap().serialize(), block);
    assert_eq!(INodeData::deserialize(&block).unwrap().serialize(), block);
}

#[test]
fn deserialize_reads_the_first_block_and_ignores_the_rest() {
    let data = sample_inode();
    let mut bytes = data.serialize().to_vec();
    bytes.extend_from_slice(&[1, 2, 3]);
    let back = INodeData::deserialize(&bytes).unwrap();
    assert_eq!(back.blocks, data.blocks);
}

#[test]
fn deserialize_refuses_less_than_a_block() {
    let short = [0x5Au8; BLOCK_SIZE - 1];
    assert_eq!(SuperBlockData::deserialize(&short).err(), Some(TfsError::SerializationError));
    assert_eq!(RootData::deserialize(&short).err(), Some(TfsError::SerializationError));
    assert_eq!(INodeData::deserialize(&short).err(), Some(TfsError::SerializationError));
    assert_eq!(SuperBlockData::deserialize(&[]).err(), Some(TfsError::SerializationError));
}

#[test]
fn new_records_are_empty() {
    let superblock = SuperBlockData::new(1).unwrap();
    assert_eq!(superblock.magic_number, 0x5A);
    assert_eq!(superblock.root_inode, 1);
    assert_eq!(superblock.allocated_blocks, [0u8; ALLOCATION_TABLE_LEN]);
    assert_eq!(RootData::new().inodes, [0u16; ROOT_INODES]);
    assert_eq!(StatData::new(), StatData { size: 0, ctime: 0, mtime: 0, atime: 0 });
    let inode = INodeData::new();
    assert_eq!(inode.filename, [0u8; MAX_FILENAME_LEN]);
    assert_eq!(inode.stat, StatData::new());
    assert_eq!(inode.blocks, [0u16; INODE_BLOCKS]);
    assert_eq!(RootData::new().serialize(), [0u8; BLOCK_SIZE]);
    assert_eq!(INodeData::new().serialize(), [0u8; BLOCK_SIZE]);
}

#[test]
fn new_with_size_refuses_a_device_too_large_for_the_bitmap() {
    // 2024 bytes of bitmap are the most that is accepted: 16192 blocks.
    let largest = 2024 * 8 * BLOCK_SIZE;
    let data = SuperBlockData::new_with_size(7, largest).unwrap();
    assert_eq!(data.root_inode, 7);
    assert_eq!(data.magic_number, 0x5A);
    assert!(SuperBlockData::new_with_size(7, largest + BLOCK_SIZE - 1).is_ok());
    assert_eq!(
        SuperBlockData::new_with_size(7, largest + BLOCK_SIZE).err(),
        Some(TfsError::SizeError { size: largest + BLOCK_SIZE })
    );
    assert!(SuperBlockData::new_with_size(7, 0).is_ok());
}

#[test]
fn layout_agrees_with_bincode() {
    let superblock = sample_superblock();
    let mut expected = bincode::serialize(&(superblock.magic_number, superblock.root_inode)).unwrap();
    for chunk in superblock.allocated_blocks.chunks(1) {
        expected.extend(bincode::serialize(&chunk[0]).unwrap());
    }
    assert_eq!(superblock.serialize().to_vec(), expected);

    let root = sample_root();
    let mut expected = Vec::new();
    for entry in root.inodes.iter() {
        expected.extend(bincode::serialize(entry).unwrap());
    }
    assert_eq!(root.serialize().to_vec(), expected);

    let inode = sample_inode();
    let mut expected = bincode::serialize(&inode.filename).unwrap();
    expected.extend(
        bincode::serialize(&(inode.stat.size, inode.stat.ctime, inode.stat.mtime, inode.stat.atime))
            .unwrap(),
    );
    for entry in inode.blocks.iter() {
        expected.extend(bincode::serialize(entry).unwrap());
    }
    assert_eq!(inode.serialize().to_vec(), expected);

    let bytes = inode.serialize();
    let (size, ctime, mtime, atime): (u16, u32, u32, u32) =
        bincode::deserialize(&bytes[8..22]).unwrap();
    let back = INodeData::deserialize(&bytes).unwrap();
    assert_eq!(back.stat, StatData { size, ctime, mtime, atime });
}
