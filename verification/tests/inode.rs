use tinyfs_rs::inode::{INode, Stat};
use tinyfs_rs::structures::{INodeData, StatData, INODE_BLOCKS};
use tinyfs_rs::{Disk, DiskError, TfsError, BLOCK_SIZE};

#[test]
fn a_new_stat_is_empty_and_carries_one_time() {
    assert_eq!(Stat::new_at(42), Stat { size: 0, ctime: 42, mtime: 42, atime: 42 });
    let stat = Stat::new();
    assert_eq!(stat.size, 0);
    assert_eq!(stat.ctime, stat.mtime);
    assert_eq!(stat.ctime, stat.atime);
    // The clock of this machine is past the year 2001.
    assert!(stat.ctime > 1_000_000_000);
}

#[test]
fn stat_converts_to_its_stored_form_and_back() {
    let stat = Stat { size: 13, ctime: 1, mtime: 2, atime: 3 };
    let data = StatData::from(stat);
    assert_eq!(data, StatData { size: 13, ctime: 1, mtime: 2, atime: 3 });
    assert_eq!(Stat::from(data), stat);
}

#[test]
fn a_new_inode_is_dirty_and_empty() {
    let inode = INode::new_at(5, "test.txt".to_string(), 99);
    assert_eq!(inode.block(), 5);
    assert!(inode.is_dirty());
    assert_eq!(inode.filename(), "test.txt");
    assert_eq!(inode.stat(), Stat { size: 0, ctime: 99, mtime: 99, atime: 99 });
    assert!(inode.blocks().is_empty());
    assert!(inode.has_name("test.txt"));
    assert!(!inode.has_name("test.tx"));
    assert!(!inode.has_name("test.txt2"));
    assert!(!inode.has_name("tesT.txt"));

    let inode = INode::new(6, "now".to_string());
    assert_eq!(inode.block(), 6);
    assert!(inode.is_dirty());
    assert_eq!(inode.stat().size, 0);
    assert_eq!(inode.stat().ctime, inode.stat().atime);
}

#[test]
fn push_block_appends_in_order_without_deduplication() {
    let mut inode = INode::new_at(5, "f".to_string(), 0);
    inode.push_block(9);
    inode.push_block(7);
    inode.push_block(9);
    assert_eq!(inode.blocks(), &vec![9, 7, 9]);
    assert!(inode.is_dirty());
    assert_eq!(inode.stat().size, 0);
}

#[test]
fn grow_wraps_at_16_bits() {
    let mut inode = INode::new_at(5, "f".to_string(), 0);
    inode.grow(13);
    assert_eq!(inode.stat().size, 13);
    inode.grow(65535);
    assert_eq!(inode.stat().size, 12);
}

#[test]
fn times_and_names_change_one_at_a_time() {
    let mut inode = INode::new_at(5, "old".to_string(), 10);
    inode.set_accessed(11);
    assert_eq!(inode.stat(), Stat { size: 0, ctime: 10, mtime: 10, atime: 11 });
    inode.set_modified(12);
    assert_eq!(inode.stat(), Stat { size: 0, ctime: 10, mtime: 12, atime: 11 });
    inode.rename("new".to_string(), 13);
    assert_eq!(inode.filename(), "new");
    assert_eq!(inode.stat(), Stat { size: 0, ctime: 10, mtime: 13, atime: 11 });
    assert!(inode.is_dirty());
}

#[test]
fn the_record_pads_the_name_and_the_block_list() {
    let mut inode = INode::new_at(5, "ab".to_string(), 7);
    inode.push_block(3);
    inode.push_block(4);
    inode.grow(300);
    let data = inode.to_data().unwrap();
    assert_eq!(data.filename, [b'a', b'b', 0, 0, 0, 0, 0, 0]);
    assert_eq!(data.stat, StatData { size: 300, ctime: 7, mtime: 7, atime: 7 });
    assert_eq!(&data.blocks[..2], &[3, 4]);
    assert!(data.blocks[2..].iter().all(|b| *b == 0));
}

#[test]
fn the_record_cuts_a_long_name_at_eight_bytes() {
    let inode = INode::new_at(5, "longfilename.txt".to_string(), 7);
    let data = inode.to_data().unwrap();
    assert_eq!(&data.filename, b"longfile");
    let back = INode::from_data(5, &data).unwrap();
    assert_eq!(back.filename(), "longfile");
}

#[test]
fn a_name_with_a_zero_byte_cannot_be_stored() {
    let inode = INode::new_at(5, "a\0b".to_string(), 7);
    assert_eq!(inode.to_data().err(), Some(TfsError::FilenameError));
    let mut disk: Disk<BLOCK_SIZE> = Disk::open(Vec::new(), 0).unwrap();
    let mut inode = inode;
    assert_eq!(inode.sync(&mut disk), Err(TfsError::FilenameError));
    assert!(inode.is_dirty());
    assert!(disk.image().is_empty());
}

#[test]
fn a_block_list_beyond_capacity_cannot_be_stored() {
    let mut inode = INode::new_at(5, "big".to_string(), 7);
    for b in 0..INODE_BLOCKS as u16 {
        inode.push_block(b + 10);
    }
    assert!(inode.to_data().is_ok());
    inode.push_block(999);
    assert_eq!(inode.to_data().err(), Some(TfsError::SizeError { size: INODE_BLOCKS + 1 }));
    let mut disk: Disk<BLOCK_SIZE> = Disk::open(Vec::new(), 0).unwrap();
    assert_eq!(inode.sync(&mut disk), Err(TfsError::SizeError { size: 118 }));
    assert!(inode.is_dirty());
    assert!(disk.image().is_empty());
}

#[test]
fn loading_trims_the_name_and_drops_empty_slots() {
    let mut data = INodeData::new();
    data.filename = [b'h', b'i', 0, b'x', b'y', 0, 0, 0];
    data.stat = StatData { size: 5, ctime: 1, mtime: 2, atime: 3 };
    data.blocks[0] = 8;
    data.blocks[1] = 0;
    data.blocks[2] = 9;
    data.blocks[116] = 8;
    let inode = INode::from_data(12, &data).unwrap();
    assert_eq!(inode.block(), 12);
    assert!(!inode.is_dirty());
    assert_eq!(inode.filename(), "hi");
    assert_eq!(inode.stat(), Stat { size: 5, ctime: 1, mtime: 2, atime: 3 });
    assert_eq!(inode.blocks(), &vec![8, 9, 8]);

    data.filename = *b"12345678";
    assert_eq!(INode::from_data(12, &data).unwrap().filename(), "12345678");
    data.filename = [0; 8];
    assert_eq!(INode::from_data(12, &data).unwrap().filename(), "");
}

#[test]
fn loading_decodes_the_name_as_utf8() {
    let mut data = INodeData::new();
    data.filename = [0xC3, 0xA9, b't', 0xC3, 0xA9, 0, 0, 0];
    let inode = INode::from_data(2, &data).unwrap();
    assert_eq!(inode.filename(), "\u{e9}t\u{e9}");
    assert!(inode.has_name("\u{e9}t\u{e9}"));

    data.filename = [b'a', 0xFF, b'b', 0, 0, 0, 0, 0];
    assert_eq!(INode::from_data(2, &data).err(), Some(TfsError::SerializationError));
    // A name cut in the middle of a character is not UTF-8 either.
    data.filename = [b'a', 0xC3, 0, 0, 0, 0, 0, 0];
    assert_eq!(INode::from_data(2, &data).err(), Some(TfsError::SerializationError));
    // Bytes behind the first zero byte are not part of the name.
    data.filename = [b'a', 0, 0xFF, 0, 0, 0, 0, 0];
    assert_eq!(INode::from_data(2, &data).unwrap().filename(), "a");
}

#[test]
fn sync_writes_a_dirty_inode_to_its_block_once() {
    let mut disk: Disk<BLOCK_SIZE> = Disk::open(Vec::new(), 0).unwrap();
    let mut inode = INode::new_at(3, "test.txt".to_string(), 0x01020304);
    inode.push_block(4);
    inode.grow(13);
    inode.sync(&mut disk).unwrap();
    assert!(!inode.is_dirty());
    assert_eq!(disk.image().len(), 4 * BLOCK_SIZE);
    assert!(disk.image()[..3 * BLOCK_SIZE].iter().all(|b| *b == 0));
    let block = disk.read_block(3).unwrap();
    assert_eq!(&block[0..8], b"test.txt");
    assert_eq!(&block[8..10], &[13, 0]);
    assert_eq!(&block[10..14], &[4, 3, 2, 1]);
    assert_eq!(&block[22..24], &[4, 0]);
    assert_eq!(block, inode.to_data().unwrap().serialize());

    disk.write_block(3, [0xEE; BLOCK_SIZE]).unwrap();
    inode.sync(&mut disk).unwrap();
    assert_eq!(disk.read_block(3).unwrap(), [0xEE; BLOCK_SIZE]);
}

#[test]
fn from_block_reads_what_sync_wrote() {
    let mut disk: Disk<BLOCK_SIZE> = Disk::open(Vec::new(), 0).unwrap();
    let mut inode = INode::new_at(3, "cat.jpg".to_string(), 77);
    inode.push_block(10);
    inode.push_block(11);
    inode.grow(400);
    inode.sync(&mut disk).unwrap();
    let before = disk.image().clone();
    let back = INode::from_block(3, &mut disk).unwrap();
    assert_eq!(disk.image(), &before);
    assert_eq!(back.block(), 3);
    assert!(!back.is_dirty());
    assert_eq!(back.filename(), "cat.jpg");
    assert_eq!(back.stat(), inode.stat());
    assert_eq!(back.blocks(), inode.blocks());

    assert_eq!(
        INode::from_block(4, &mut disk).err(),
        Some(TfsError::DiskError(DiskError::IoError))
    );
    // Block 0 is all zeros: an empty, nameless file.
    let empty = INode::from_block(0, &mut disk).unwrap();
    assert_eq!(empty.filename(), "");
    assert!(empty.blocks().is_empty());
}
