use tinyfs_rs::inode::Stat;
use tinyfs_rs::root::Root;
use tinyfs_rs::structures::{RootData, ROOT_INODES};
use tinyfs_rs::{Disk, DiskError, TfsError, BLOCK_SIZE};

#[test]
fn a_new_directory_is_dirty_and_empty() {
    let root = Root::new();
    assert!(root.is_dirty());
    assert_eq!(root.len(), 0);
    assert_eq!(root.find("anything"), None);
    assert_eq!(root.to_data().unwrap().inodes, [0u16; ROOT_INODES]);
}

#[test]
fn create_inode_appends_and_does_not_deduplicate() {
    let mut root = Root::new();
    assert_eq!(root.create_inode_at(2, "a".to_string(), 1), 0);
    assert_eq!(root.create_inode_at(3, "b".to_string(), 2), 1);
    assert_eq!(root.create_inode_at(4, "a".to_string(), 3), 2);
    assert_eq!(root.len(), 3);
    assert_eq!(root.find("a"), Some(0));
    assert_eq!(root.find("b"), Some(1));
    assert_eq!(root.find("c"), None);
    assert_eq!(root.inode(2).block(), 4);
    assert_eq!(root.inode(2).filename(), "a");
    assert_eq!(root.inode(1).stat(), Stat { size: 0, ctime: 2, mtime: 2, atime: 2 });
    assert_eq!(root.create_inode(5, "clock".to_string()), 3);
    assert_eq!(root.inode(3).block(), 5);
    assert_eq!(root.inode(3).filename(), "clock");
}

#[test]
fn inode_mut_changes_one_inode_in_place() {
    let mut root = Root::new();
    root.create_inode_at(2, "a".to_string(), 1);
    root.create_inode_at(3, "b".to_string(), 1);
    root.inode_mut(1).push_block(9);
    root.inode_mut(1).rename("c".to_string(), 5);
    assert_eq!(root.inode(0).filename(), "a");
    assert!(root.inode(0).blocks().is_empty());
    assert_eq!(root.inode(1).filename(), "c");
    assert_eq!(root.inode(1).blocks(), &vec![9]);
    assert_eq!(root.find("b"), None);
    assert_eq!(root.find("c"), Some(1));
}

#[test]
fn the_record_lists_the_inode_blocks_in_order() {
    let mut root = Root::new();
    root.create_inode_at(7, "a".to_string(), 1);
    root.create_inode_at(2, "b".to_string(), 1);
    let data = root.to_data().unwrap();
    assert_eq!(&data.inodes[..2], &[7, 2]);
    assert!(data.inodes[2..].iter().all(|b| *b == 0));
}

#[test]
fn sync_writes_the_inodes_and_then_the_directory() {
    let mut disk: Disk<BLOCK_SIZE> = Disk::open(Vec::new(), 0).unwrap();
    let mut root = Root::new();
    root.create_inode_at(2, "a".to_string(), 1);
    root.create_inode_at(3, "b".to_string(), 1);
    root.sync(&mut disk).unwrap();
    assert!(!root.is_dirty());
    assert!(!root.inode(0).is_dirty());
    assert!(!root.inode(1).is_dirty());
    assert_eq!(disk.image().len(), 4 * BLOCK_SIZE);
    assert_eq!(disk.read_block(1).unwrap(), root.to_data().unwrap().serialize());
    assert_eq!(disk.read_block(2).unwrap(), root.inode(0).to_data().unwrap().serialize());
    assert_eq!(disk.read_block(3).unwrap(), root.inode(1).to_data().unwrap().serialize());
    assert_eq!(&disk.read_block(1).unwrap()[..6], &[2, 0, 3, 0, 0, 0]);

    // Nothing is dirty: nothing is written.
    disk.write_block(1, [0xEE; BLOCK_SIZE]).unwrap();
    disk.write_block(2, [0xEE; BLOCK_SIZE]).unwrap();
    root.sync(&mut disk).unwrap();
    assert_eq!(disk.read_block(1).unwrap(), [0xEE; BLOCK_SIZE]);
    assert_eq!(disk.read_block(2).unwrap(), [0xEE; BLOCK_SIZE]);

    // A dirty inode is written without the directory.
    root.inode_mut(0).push_block(5);
    root.sync(&mut disk).unwrap();
    assert_eq!(disk.read_block(1).unwrap(), [0xEE; BLOCK_SIZE]);
    assert_eq!(disk.read_block(2).unwrap(), root.inode(0).to_data().unwrap().serialize());
}

#[test]
fn the_first_inode_that_cannot_be_stored_stops_the_sync() {
    let mut disk: Disk<BLOCK_SIZE> = Disk::open(Vec::new(), 0).unwrap();
    let mut root = Root::new();
    root.create_inode_at(2, "a".to_string(), 1);
    root.create_inode_at(3, "b\0".to_string(), 1);
    root.create_inode_at(4, "c".to_string(), 1);
    assert_eq!(root.sync(&mut disk), Err(TfsError::FilenameError));
    assert!(!root.inode(0).is_dirty());
    assert!(root.inode(1).is_dirty());
    assert!(root.inode(2).is_dirty());
    assert!(root.is_dirty());
    // Only the first inode reached the disk.
    assert_eq!(disk.image().len(), 3 * BLOCK_SIZE);
    assert_eq!(disk.read_block(2).unwrap(), root.inode(0).to_data().unwrap().serialize());
}

#[test]
fn a_directory_beyond_capacity_cannot_be_stored() {
    let mut disk: Disk<BLOCK_SIZE> = Disk::open(Vec::new(), 0).unwrap();
    let mut root = Root::new();
    for i in 0..ROOT_INODES {
        root.create_inode_at(2 + i as u16, format!("f{}", i), 1);
    }
    assert!(root.to_data().is_ok());
    root.sync(&mut disk).unwrap();
    assert!(!root.is_dirty());
    root.create_inode_at(500, "last".to_string(), 1);
    assert_eq!(root.to_data().err(), Some(TfsError::SizeError { size: ROOT_INODES + 1 }));
    let listed = disk.read_block(1).unwrap();
    assert_eq!(root.sync(&mut disk), Err(TfsError::SizeError { size: 129 }));
    // The inode was written, the directory was not, and stays dirty.
    assert!(!root.inode(ROOT_INODES).is_dirty());
    assert!(root.is_dirty());
    assert_eq!(disk.read_block(1).unwrap(), listed);
    assert_eq!(
        disk.read_block(500).unwrap(),
        root.inode(ROOT_INODES).to_data().unwrap().serialize()
    );
}

#[test]
fn from_data_reads_every_inode_that_is_listed() {
    let mut disk: Disk<BLOCK_SIZE> = Disk::open(Vec::new(), 0).unwrap();
    let mut root = Root::new();
    root.create_inode_at(2, "a".to_string(), 1);
    root.create_inode_at(5, "b".to_string(), 2);
    root.inode_mut(1).push_block(6);
    root.sync(&mut disk).unwrap();

    let mut data = RootData::new();
    data.inodes[0] = 2;
    data.inodes[3] = 5;
    data.inodes[127] = 2;
    let before = disk.image().clone();
    let loaded = Root::from_data(data, &mut disk).unwrap();
    assert_eq!(disk.image(), &before);
    assert!(!loaded.is_dirty());
    assert_eq!(loaded.len(), 3);
    assert_eq!(loaded.inode(0).filename(), "a");
    assert_eq!(loaded.inode(1).filename(), "b");
    assert_eq!(loaded.inode(1).blocks(), &vec![6]);
    assert_eq!(loaded.inode(2).filename(), "a");
    assert_eq!(loaded.inode(2).block(), 2);
    assert!(!loaded.inode(0).is_dirty());

    let mut data = RootData::new();
    data.inodes[0] = 2;
    data.inodes[1] = 900;
    assert_eq!(
        Root::from_data(data, &mut disk).err(),
        Some(TfsError::DiskError(DiskError::IoError))
    );
    assert_eq!(Root::from_data(RootData::new(), &mut disk).unwrap().len(), 0);
}
