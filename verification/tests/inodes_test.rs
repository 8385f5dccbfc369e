use squashfs_reader::fragments::FragmentLocation;
use squashfs_reader::inodes::{InodeRef, InodeType};

#[test]
fn inoderef_test() {
    let iref = InodeRef(33489312);
    assert_eq!(iref.block_start(), 511);
    assert_eq!(iref.block_offset(), 416);
}

#[test]
fn inode_type_tags() {
    assert_eq!(InodeType::from_tag(1), Some(InodeType::BasicDirectory));
    assert_eq!(InodeType::from_tag(2), Some(InodeType::BasicFile));
    assert_eq!(InodeType::from_tag(8), Some(InodeType::ExtendedDirectory));
    assert_eq!(InodeType::from_tag(9), Some(InodeType::ExtendedFile));
    assert_eq!(InodeType::from_tag(14), Some(InodeType::ExtendedSocket));
    assert_eq!(InodeType::from_tag(0), None);
    assert_eq!(InodeType::from_tag(15), None);
    assert!(InodeType::BasicDirectory.is_dir());
    assert!(InodeType::ExtendedDirectory.is_dir());
    assert!(!InodeType::BasicFile.is_dir());
    assert!(!InodeType::BasicSymlink.is_dir());
}

#[test]
fn fragment_location_validity() {
    let none = FragmentLocation { index: 0xFFFF_FFFF, offset: 0 };
    assert!(!none.valid());
    let some = FragmentLocation { index: 0, offset: 17 };
    assert!(some.valid());
}
