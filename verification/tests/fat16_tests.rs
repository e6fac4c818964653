use ysos::fat16::{bpb_signature_present, Fat16Bpb, FsTime, MemDisk, Cluster, DirEntry, FilenameError, FsError, ShortFileName, ROOT_DIR_CLUSTER};
use ysos::fat16_fs::{Fat16, File, FileType};
use ysos::fat16_impl::{Directory, Fat16Impl};
use ysos::filesystem::{entry_type_name, list_dir, list_dir_checked, sys_cat_checked, listing_name, FAT16_CHAIN_LIMIT, ls_path_bytes, read_file, sys_cat, try_get_file, RootFs};


fn entry(b: &mut [u8; 512], slot: usize, name: &[u8; 11], attr: u8, cluster: u16, size: u32) {
    let s = slot * 32;
    b[s..s + 11].copy_from_slice(name);
    b[s + 11] = attr;
    b[s + 26] = (cluster & 0xFF) as u8;
    b[s + 27] = (cluster >> 8) as u8;
    b[s + 28..s + 32].copy_from_slice(&size.to_le_bytes());
}

/// boot sector, one FAT sector, one root directory sector, then data
/// clusters of one sector each: cluster 2 is HELLO.TXT, cluster 3 is the APP
/// directory, clusters 4 and 5 hold BIG.BIN (chained 4 -> 5).
fn image() -> MemDisk {
    MemDisk::new(image_blocks())
}

fn image_blocks() -> Vec<[u8; 512]> {
    let mut boot = [0u8; 512];
    boot[11] = 0x00;
    boot[12] = 0x02;
    boot[13] = 1;
    boot[14] = 1;
    boot[16] = 1;
    boot[17] = 16;
    boot[22] = 1;
    boot[510] = 0x55;
    boot[511] = 0xAA;
    let mut fat = [0u8; 512];
    // cluster 2: end of chain; cluster 3: end; cluster 4 -> 5; cluster 5: end; cluster 6: bad
    for (c, v) in [(2usize, 0xFFFFu16), (3, 0xFFF8), (4, 5), (5, 0xFFFF), (6, 0xFFF7)] {
        fat[c * 2] = (v & 0xFF) as u8;
        fat[c * 2 + 1] = (v >> 8) as u8;
    }
    let mut root = [0u8; 512];
    entry(&mut root, 0, b"HELLO   TXT", 0x20, 2, 13);
    entry(&mut root, 1, b"APP        ", 0x10, 3, 0);
    entry(&mut root, 2, b"\xE5ELETED TXT", 0x20, 2, 1);
    entry(&mut root, 3, b"LONGNAME   ", 0x0F, 0, 0);
    let mut hello = [0u8; 512];
    hello[..13].copy_from_slice(b"Hello, world!");
    let mut app = [0u8; 512];
    entry(&mut app, 0, b"BIG     BIN", 0x20, 4, 600);
    let mut big1 = [0u8; 512];
    let mut big2 = [0u8; 512];
    for i in 0..512 {
        big1[i] = (i % 251) as u8;
        big2[i] = 7;
    }
    vec![boot, fat, root, hello, app, big1, big2]
}

fn name(e: &DirEntry) -> Vec<u8> {
    let mut v = e.filename.name.to_vec();
    v.extend_from_slice(&e.filename.ext);
    v
}

#[test]
fn layout_of_a_volume() {
    let fs = Fat16Impl::new(image());
    assert_eq!(fs.fat_start, 1);
    assert_eq!(fs.first_root_dir_sector, 2);
    assert_eq!(fs.first_data_sector, 3);
    assert_eq!(fs.cluster_to_sector(&Cluster(ROOT_DIR_CLUSTER)), 2);
    assert_eq!(fs.cluster_to_sector(&Cluster(2)), 3);
    assert_eq!(fs.cluster_to_sector(&Cluster(5)), 6);
}

#[test]
fn next_cluster_follows_the_table() {
    let fs = Fat16Impl::new(image());
    assert_eq!(fs.next_cluster(Cluster(4)), Ok(Cluster(5)));
    assert_eq!(fs.next_cluster(Cluster(5)), Err(FsError::EndOfFile));
    assert_eq!(fs.next_cluster(Cluster(3)), Err(FsError::EndOfFile));
    assert_eq!(fs.next_cluster(Cluster(6)), Err(FsError::BadCluster));
}

#[test]
fn iterate_dir_skips_deleted_and_long_names() {
    let fs = Fat16Impl::new(image());
    let entries = fs.iterate_dir(&Fat16Impl::<MemDisk>::root_dir());
    let names: Vec<Vec<u8>> = entries.iter().map(name).collect();
    assert_eq!(names, vec![b"HELLO   TXT".to_vec(), b"APP        ".to_vec()]);
}

#[test]
fn short_file_names() {
    let n = ShortFileName::parse("hello.txt").unwrap();
    assert_eq!(&n.name, b"HELLO   ");
    assert_eq!(&n.ext, b"TXT");
    assert_eq!(ShortFileName::parse("").err(), Some(FsError::FileNameError(FilenameError::FilenameEmpty)));
    assert_eq!(ShortFileName::parse(".x").err(), Some(FsError::FileNameError(FilenameError::MisplacedPeriod)));
    assert_eq!(ShortFileName::parse("toolongname").err(), Some(FsError::FileNameError(FilenameError::NameTooLong)));
    assert_eq!(ShortFileName::parse("a b").err(), Some(FsError::FileNameError(FilenameError::InvalidCharacter)));
}

#[test]
fn find_directory_entry_by_name() {
    let fs = Fat16Impl::new(image());
    let root = Fat16Impl::<MemDisk>::root_dir();
    let e = fs.find_directory_entry(&root, "hello.txt").unwrap();
    assert_eq!(e.size, 13);
    assert_eq!(e.cluster, Cluster(2));
    assert!(!e.is_directory());
    assert_eq!(fs.find_directory_entry(&root, "nope.txt").err(), Some(FsError::FileNotFound));
    let app = Directory::from_entry(fs.find_directory_entry(&root, "app").unwrap());
    let big = fs.find_directory_entry(&app, "BIG.BIN").unwrap();
    assert_eq!(big.size, 600);
}

#[test]
fn resolve_metadata_and_exists() {
    let fs = Fat16::new(image());
    let d = fs.handle.resolve_path("APP/").unwrap();
    assert_eq!(d.cluster, Cluster(3));
    assert!(fs.handle.resolve_path("HELLO.TXT/").is_none());
    assert!(fs.handle.resolve_path("NOPE/").is_none());
    let m = fs.metadata("APP/").unwrap();
    assert_eq!(m.entry_type, FileType::Directory);
    assert_eq!(fs.metadata("APP").unwrap().entry_type, FileType::Directory);
    assert_eq!(fs.metadata("HELLO.TXT").unwrap().len, 13);
    assert_eq!(fs.metadata("APP/BIG.BIN").unwrap().len, 600);
    assert_eq!(fs.metadata("NOFILE.TXT").err(), Some(FsError::FileNotFound));
    assert_eq!(fs.metadata("HELLO.TXT/X").err(), Some(FsError::FileNotFound));
    assert_eq!(fs.exists_path("NOFILE.TXT"), Ok(false));
    assert_eq!(fs.exists_path("HELLO.TXT"), Ok(true));
    assert_eq!(fs.exists_path("APP/BIG.BIN"), Ok(true));
    assert_eq!(fs.exists_path("APP/BIG.BIN/"), Ok(true));
    assert_eq!(fs.exists_path("APP/NONE.BIN/"), Ok(false));
}

#[test]
fn read_dir_lists_metadata() {
    let fs = Fat16::new(image());
    let v = fs.read_dir("APP/").unwrap();
    assert_eq!(v.len(), 1);
    assert_eq!(v[0].len, 600);
    assert_eq!(v[0].entry_type, FileType::File);
    assert_eq!(fs.read_dir("NOPE/").err(), Some(FsError::FileNotFound));
}

#[test]
fn open_and_read_files() {
    let fs = Fat16::new(image());
    let mut h = fs.open_file("hello.txt").ok().unwrap();
    let mut buf = [0xAAu8; 20];
    assert_eq!(h.file.read(&mut buf), Ok(13));
    assert_eq!(&buf[..13], b"Hello, world!");
    assert_eq!(buf[13], 0xAA);
    let mut small = [0u8; 4];
    assert_eq!(h.file.read(&mut small), Ok(0));
    assert_eq!(h.file.offset, 13);
    let mut again = fs.open_file("hello.txt").ok().unwrap();
    assert_eq!(again.file.read(&mut small), Err(FsError::InvalidOperation));
    assert_eq!(again.file.offset, 0);
    assert_eq!(small, [0u8; 4]);
    let mut h2 = fs.open_file("APP/big.bin").ok().unwrap();
    assert_eq!(h2.file.length(), 600);
    let mut big = vec![0u8; 700];
    assert_eq!(h2.file.read(&mut big), Ok(600));
    assert_eq!(big[511], (511 % 251) as u8);
    assert_eq!(big[512], 7);
    assert_eq!(big[600], 0);
    assert_eq!(fs.open_file("APP/").err().unwrap(), FsError::FileNameError(FilenameError::FilenameEmpty));
    assert_eq!(fs.open_file("APP").err().unwrap(), FsError::NotAFile);
    let f = File::new(&fs.handle, fs.handle.find_directory_entry(&Fat16Impl::<MemDisk>::root_dir(), "HELLO.TXT").unwrap());
    assert_eq!(f.offset, 0);
    assert_eq!(f.length(), 13);
}

#[test]
fn root_file_system_mounts_once() {
    let mut root: RootFs<MemDisk> = RootFs::new();
    assert!(root.mount.is_none());
    root.init(image());
    assert_eq!(root.get_rootfs().handle.first_data_sector, 3);
    let mut other = image();
    other.blocks[0][13] = 2;
    root.init(other);
    assert_eq!(root.get_rootfs().handle.bpb.sectors_per_cluster, 1);
}

#[test]
fn ls_lists_with_a_trailing_slash() {
    assert_eq!(ls_path_bytes("APP"), b"APP/".to_vec());
    assert_eq!(ls_path_bytes("APP/"), b"APP/".to_vec());
    assert_eq!(ls_path_bytes(""), b"/".to_vec());
    let fs = Fat16::new(image());
    let v = list_dir(&fs, "APP").unwrap();
    assert_eq!(v.len(), 1);
    assert_eq!(entry_type_name(v[0].entry_type), "file");
    assert_eq!(entry_type_name(FileType::Directory), "directory");
    assert_eq!(list_dir(&fs, "NOPE").err(), Some(FsError::FileNotFound));
}

#[test]
fn reading_whole_files() {
    let fs = Fat16::new(image());
    let h = try_get_file(&fs, "hello.txt").ok().unwrap();
    assert_eq!(h.file.length(), 13);
    let mut buf = [0u8; 4096];
    assert_eq!(read_file(&fs, "hello.txt", &mut buf), Ok(13));
    assert_eq!(&buf[..13], b"Hello, world!");
    assert_eq!(read_file(&fs, "nope.txt", &mut buf), Err(FsError::FileNotFound));
    let mut small = [0u8; 2];
    assert_eq!(read_file(&fs, "hello.txt", &mut small), Err(FsError::InvalidOperation));
    assert_eq!(small, [0, 0]);
    let mut cat = [0u8; 4096];
    assert_eq!(sys_cat(&fs, "APP/BIG.BIN", &mut cat), 600);
    assert_eq!(cat[512], 7);
    assert_eq!(sys_cat(&fs, "APP", &mut cat), 0);
}

#[test]
fn short_names_and_stamps_as_shown() {
    let n = ShortFileName::parse("hello.txt").unwrap();
    assert_eq!(n.text(), b"HELLO.TXT".to_vec());
    let d = ShortFileName::parse("app").unwrap();
    assert_eq!(d.text(), b"APP".to_vec());
    // 2023-07-15 13:45:30: date (43 << 9) | (7 << 5) | 15, time (13 << 11) | (45 << 5) | 15
    let stamp = FsTime(((43u32 << 9 | 7 << 5 | 15) << 16) | (13 << 11 | 45 << 5 | 15));
    assert_eq!(stamp.fields(), (2023, 7, 15, 13, 45, 30));
    assert!(bpb_signature_present(&image()));
    let mut bad = image();
    bad.blocks[0][511] = 0;
    assert!(!bpb_signature_present(&bad));
}

#[test]
fn sector_lookups_and_boot_sector_errors() {
    assert_eq!(Fat16Bpb::new(&[0u8; 512]).err(), Some(FsError::BadBootSector));
    let fs = Fat16Impl::new(image());
    let hello = ShortFileName::parse("hello.txt").unwrap();
    assert_eq!(fs.find_entry_in_sector(&hello, 2).unwrap().size, 13);
    let nope = ShortFileName::parse("nope").unwrap();
    assert_eq!(fs.find_entry_in_sector(&nope, 2).err(), Some(FsError::FileNotFound));
    assert_eq!(fs.find_entry_in_sector(&nope, 6).err(), Some(FsError::NotInSector));
}

#[test]
fn listed_names_open_the_same_entries() {
    let fs = Fat16Impl::new(image());
    let root = Fat16Impl::<MemDisk>::root_dir();
    for e in fs.iterate_dir(&root) {
        let shown = String::from_utf8(e.filename.text()).unwrap();
        let back = ShortFileName::parse(&shown).unwrap();
        assert_eq!(back.name, e.filename.name);
        assert_eq!(back.ext, e.filename.ext);
        let found = fs.find_directory_entry(&root, &shown).unwrap();
        assert_eq!(found.cluster, e.cluster);
    }
    let dotted = ShortFileName::parse("a.").unwrap();
    assert_eq!(dotted.text(), b"A".to_vec());
}

#[test]
fn read_follows_the_cluster_chain() {
    // chain BIG.BIN as 4 -> 2: its second 512 bytes come from HELLO.TXT's cluster
    let mut blocks = image_blocks();
    blocks[1][8] = 2;
    blocks[1][9] = 0;
    let fs = Fat16::new(MemDisk::new(blocks));
    let mut h = fs.open_file("APP/BIG.BIN").ok().unwrap();
    let mut buf = vec![0xEEu8; 600];
    assert_eq!(h.file.read(&mut buf), Ok(600));
    assert_eq!(buf[0], 0);
    assert_eq!(buf[511], (511 % 251) as u8);
    assert_eq!(&buf[512..525], b"Hello, world!");
    assert_eq!(buf[525], 0);
    assert_eq!(h.file.offset, 600);
    assert_eq!(h.file.read(&mut buf), Ok(0));
    assert_eq!(read_file(&fs, "APP/BIG.BIN", &mut buf), Ok(600));
    assert_eq!(&buf[512..525], b"Hello, world!");
}

#[test]
fn listing_names_mark_directories() {
    let fs = Fat16::new(image());
    let v = fs.read_dir("").unwrap();
    assert_eq!(listing_name(&v[0]), b"HELLO.TXT".to_vec());
    assert_eq!(listing_name(&v[1]), b"APP/".to_vec());
}

#[test]
fn chain_checks_find_cycles() {
    let fs = Fat16Impl::new(image());
    assert!(fs.check_layout());
    assert!(fs.check_chain(4, 5));
    assert!(!fs.check_chain(4, 0));
    assert!(fs.check_chain(ROOT_DIR_CLUSTER, 0));
    assert!(!fs.check_cluster_fits(1));
    assert!(fs.check_cluster_fits(3));
    // make the APP directory's cluster point back to itself
    let mut blocks = image_blocks();
    blocks[1][6] = 3;
    blocks[1][7] = 0;
    let looped = Fat16::new(MemDisk::new(blocks));
    assert!(!looped.handle.check_chain(3, FAT16_CHAIN_LIMIT));
    assert!(looped.handle.check_resolve(b"HELLO.TXT", 9, FAT16_CHAIN_LIMIT));
    assert!(!looped.handle.check_resolve(b"APP/X/", 6, FAT16_CHAIN_LIMIT));
    assert!(!looped.check_read_dir(b"APP/", FAT16_CHAIN_LIMIT));
    assert!(list_dir_checked(&looped, "APP").is_none());
    assert_eq!(list_dir_checked(&looped, "HELLO.TXT").map(|r| r.err()), Some(Some(FsError::FileNotFound)));
    let good = Fat16::new(image());
    assert_eq!(list_dir_checked(&good, "APP").map(|r| r.map(|v| v.len())), Some(Ok(1)));
    assert_eq!(list_dir_checked(&good, "NOPE").map(|r| r.err()), Some(Some(FsError::FileNotFound)));
}

#[test]
fn checked_reads_refuse_endless_chains() {
    let good = Fat16::new(image());
    let mut buf = [0u8; 700];
    assert_eq!(sys_cat_checked(&good, "APP/BIG.BIN", &mut buf), Some(600));
    assert_eq!(buf[512], 7);
    assert_eq!(sys_cat_checked(&good, "NOPE.TXT", &mut buf), Some(0));
    assert!(good.check_open(b"HELLO.TXT", FAT16_CHAIN_LIMIT));
    assert_eq!(good.metadata_checked("APP/BIG.BIN", FAT16_CHAIN_LIMIT).map(|r| r.map(|m| m.len)), Some(Ok(600)));
    assert!(good.handle.check_chain_holds(4, 1024));
    assert!(!good.handle.check_chain_holds(4, 1025));
    assert!(good.handle.check_chain_holds(2, 0));
    // BIG.BIN chained 4 -> 4
    let mut blocks = image_blocks();
    blocks[1][8] = 4;
    blocks[1][9] = 0;
    let looped = Fat16::new(MemDisk::new(blocks));
    let mut small = [9u8; 700];
    assert_eq!(sys_cat_checked(&looped, "APP/BIG.BIN", &mut small), None);
    assert_eq!(small, [9u8; 700]);
    assert_eq!(sys_cat_checked(&looped, "HELLO.TXT", &mut small), Some(13));
    assert!(looped.metadata_checked("APP/BIG.BIN", FAT16_CHAIN_LIMIT).is_some());
    // a file whose chain holds fewer bytes than its size
    let mut short = image_blocks();
    short[4][28] = 0x01;
    short[4][29] = 0x08;
    let fs = Fat16::new(MemDisk::new(short));
    let mut buf2 = [0u8; 4096];
    assert_eq!(sys_cat_checked(&fs, "APP/BIG.BIN", &mut buf2), None);
}

#[test]
fn read_needs_only_the_clusters_it_reads() {
    // HELLO.TXT's cluster points back to itself: its 13 bytes are still read
    let mut blocks = image_blocks();
    blocks[1][4] = 2;
    blocks[1][5] = 0;
    let fs = Fat16::new(MemDisk::new(blocks));
    let mut h = fs.open_file("HELLO.TXT").ok().unwrap();
    let mut buf = [0u8; 13];
    assert_eq!(h.file.read(&mut buf), Ok(13));
    assert_eq!(&buf, b"Hello, world!");
    // a buffer too short is refused before anything is read
    let mut again = fs.open_file("HELLO.TXT").ok().unwrap();
    let mut small = [1u8; 5];
    assert_eq!(again.file.read(&mut small), Err(FsError::InvalidOperation));
    assert_eq!(small, [1u8; 5]);
    assert_eq!(again.file.length(), 13);
}
