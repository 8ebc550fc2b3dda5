use somnia::fat32::{
    mount_fat32, split_path, to_short_name, BlockDevice, DirectoryEntry, MemDisk, FAT,
};
use somnia::fs::Fat12Fs;
use somnia::shell::{normalize_path, parse_path};

/// A fresh in-memory FAT32 volume: 512-byte sectors, one sector per
/// cluster, one table of one sector, root directory at cluster 2.
fn fresh_volume() -> somnia::fat32::FAT32Volume<MemDisk> {
    let mut disk = MemDisk::new(256);
    let mut vbr = vec![0u8; 512];
    vbr[11] = 0x00;
    vbr[12] = 0x02; // 512 bytes per sector
    vbr[13] = 1; // one sector per cluster
    vbr[14] = 1;
    vbr[15] = 0; // one reserved sector
    vbr[16] = 1; // one table
    vbr[36] = 1; // table of one sector
    vbr[44] = 2; // root directory cluster
    disk.write_sector(0, &vbr);
    let mut volume = mount_fat32(disk).expect("mount");
    // Clusters 0, 1 and the root are taken; the rest are free.
    volume.set_next_cluster(0, 0x0FFF_FFF8);
    volume.set_next_cluster(1, 0x0FFF_FFFF);
    volume.set_next_cluster(2, 0x0FFF_FFFF);
    volume
}

#[test]
fn mount_decodes_the_boot_record() {
    let volume = fresh_volume();
    assert_eq!(volume.bytes_per_sector, 512);
    assert_eq!(volume.sectors_per_cluster, 1);
    assert_eq!(volume.reserved_sector_count, 1);
    assert_eq!(volume.num_fats, 1);
    assert_eq!(volume.fat_size_sectors, 1);
    assert_eq!(volume.root_dir_cluster, 2);
    assert_eq!(volume.cluster_size, 512);
}

#[test]
fn fat_entries_round_trip_masked() {
    let mut volume = fresh_volume();
    volume.set_next_cluster(5, 0xdead_beef);
    let fat: FAT = volume.fat;
    let entry = fat.read_entry(&mut volume.device, 5);
    assert_eq!(entry, 0xdead_beef & 0x0FFF_FFFF);
    // A neighbouring entry is untouched.
    assert_eq!(fat.read_entry(&mut volume.device, 6), 0);
}

#[test]
fn next_cluster_ends_the_chain_at_the_marker() {
    let mut volume = fresh_volume();
    volume.set_next_cluster(5, 6);
    volume.set_next_cluster(6, 0x0FFF_FFFF);
    assert_eq!(volume.next_cluster(5), Some(6));
    assert_eq!(volume.next_cluster(6), None);
}

#[test]
fn allocate_cluster_takes_the_first_free_one() {
    let mut volume = fresh_volume();
    let a = volume.allocate_cluster().expect("first");
    assert_eq!(a, 3);
    let b = volume.allocate_cluster().expect("second");
    assert_eq!(b, 4);
}

#[test]
fn free_cluster_chain_clears_the_entries() {
    let mut volume = fresh_volume();
    volume.set_next_cluster(5, 6);
    volume.set_next_cluster(6, 0x0FFF_FFFF);
    volume.free_cluster_chain(5);
    let fat = volume.fat;
    assert_eq!(fat.read_entry(&mut volume.device, 5), 0);
    assert_eq!(fat.read_entry(&mut volume.device, 6), 0);
}

#[test]
fn create_write_read_file_round_trip() {
    let mut volume = fresh_volume();
    volume.create_file("/HELLO.TXT", 0).expect("create");
    assert!(volume.file_exists("/HELLO.TXT"));
    let data: Vec<u8> = (0..600u32).map(|i| (i % 251) as u8).collect();
    volume.write_file("/HELLO.TXT", &data).expect("write");
    let back = volume.read_file("/HELLO.TXT").expect("read");
    assert_eq!(back, data);
}

#[test]
fn directories_nest_and_list() {
    let mut volume = fresh_volume();
    volume.create_directory("/USR").expect("mkdir");
    volume.create_file("/USR/NOTE.TXT", 0).expect("create");
    volume
        .write_file("/USR/NOTE.TXT", &b"hi there".to_vec())
        .expect("write");
    let back = volume.read_file("/USR/NOTE.TXT").expect("read");
    assert_eq!(back, b"hi there".to_vec());
    let names = volume.list_dir("/USR").expect("list");
    assert!(names.contains(&b"NOTE.TXT".to_vec()));
    // The dot entries are filtered out of the listing.
    assert!(!names.contains(&b".".to_vec()));
}

#[test]
fn delete_file_removes_the_entry() {
    let mut volume = fresh_volume();
    volume.create_file("/GONE.BIN", 0).expect("create");
    assert!(volume.file_exists("/GONE.BIN"));
    volume.delete_file("/GONE.BIN").expect("delete");
    assert!(!volume.file_exists("/GONE.BIN"));
}

#[test]
fn delete_directory_requires_it_empty() {
    let mut volume = fresh_volume();
    volume.create_directory("/D").expect("mkdir");
    volume.create_file("/D/F.TXT", 0).expect("create");
    assert!(volume.delete_directory("/D").is_err());
    volume.delete_file("/D/F.TXT").expect("delete file");
    volume.delete_directory("/D").expect("delete dir");
    assert!(!volume.file_exists("/D"));
}

#[test]
fn missing_files_report_errors() {
    let mut volume = fresh_volume();
    assert_eq!(volume.read_file("/NOPE"), Err("File not found"));
    assert!(volume.find_path("/NOPE").is_none());
    assert!(!volume.file_exists("/NOPE"));
}

#[test]
fn short_names_fold_to_the_8_3_form() {
    assert_eq!(to_short_name(b"hello.txt"), b"HELLO   TXT".to_vec());
    assert_eq!(to_short_name(b"READ.ME"), b"READ    ME ".to_vec());
    assert_eq!(to_short_name(b"noext"), b"NOEXT      ".to_vec());
    assert_eq!(to_short_name(b"a.b.c"), b"A.B.C      ".to_vec());
    assert_eq!(to_short_name(b"longbasename.xy"), b"LONGBASEXY ".to_vec());
}

#[test]
fn filenames_decode_from_the_raw_entry() {
    let entry = DirectoryEntry {
        name: b"HELLO   TXT".to_vec(),
        attr: 0x20,
        cluster_high: 0x0001,
        cluster_low: 0x0002,
        file_size: 42,
    };
    assert_eq!(entry.filename(), b"HELLO.TXT".to_vec());
    assert!(!entry.is_directory());
    assert_eq!(entry.starting_cluster(), 0x0001_0002);
    let dir = DirectoryEntry {
        name: b"USR        ".to_vec(),
        attr: 0x10,
        cluster_high: 0,
        cluster_low: 7,
        file_size: 0,
    };
    assert_eq!(dir.filename(), b"USR".to_vec());
    assert!(dir.is_directory());
}

#[test]
fn split_path_divides_at_the_last_slash() {
    let (dir, file) = split_path("/usr/bin/thing");
    assert_eq!(dir, b"usr/bin".to_vec());
    assert_eq!(file, b"thing".to_vec());
    let (root, name) = split_path("/top");
    assert_eq!(root, b"/".to_vec());
    assert_eq!(name, b"top".to_vec());
}

#[test]
fn memdisk_reads_back_writes_and_zero_fills() {
    let mut disk = MemDisk::new(4);
    let mut sector = vec![0u8; 512];
    sector[0] = 0xab;
    sector[511] = 0xcd;
    disk.write_sector(2, &sector);
    let back = disk.read_sector(2);
    assert_eq!(back[0], 0xab);
    assert_eq!(back[511], 0xcd);
    assert_eq!(disk.read_sector(3), vec![0u8; 512]);
    // Writing past the end grows the disk.
    disk.write_sector(9, &sector);
    assert_eq!(disk.read_sector(9)[0], 0xab);
}

#[test]
fn fat12_reads_a_simple_root_file() {
    let mut disk = MemDisk::new(64);
    let mut boot = vec![0u8; 512];
    boot[11] = 0x00;
    boot[12] = 0x02; // 512 bytes per sector
    boot[14] = 1; // one reserved sector
    boot[16] = 1; // one table
    boot[17] = 16;
    boot[18] = 0; // 16 root entries: one sector
    boot[22] = 1; // table of one sector
    disk.write_sector(0, &boot);
    // Root directory at sector 2: one file, cluster 2, 5 bytes.
    let mut root = vec![0u8; 512];
    root[0..11].copy_from_slice(b"HELLO   TXT");
    root[11] = 0x20;
    root[26] = 2;
    root[28] = 5;
    disk.write_sector(2, &root);
    // Data begins at sector 3; cluster 2 is the first data sector.
    let mut data = vec![0u8; 512];
    data[0..5].copy_from_slice(b"hello");
    disk.write_sector(3, &data);
    // Table: cluster 2 ends the chain.
    let mut fat = vec![0u8; 512];
    fat[3] = 0xff;
    fat[4] = 0xff;
    disk.write_sector(1, &fat);
    let mut fs = Fat12Fs::new(disk).expect("mount");
    let content = fs.read_file(&b"HELLO   TXT".to_vec()).expect("found");
    assert_eq!(content, b"hello".to_vec());
    assert!(fs.read_file(&b"MISSING    ".to_vec()).is_none());
}

#[test]
fn fat16_writes_then_reads_a_root_file() {
    let mut disk = MemDisk::new(64);
    let mut boot = vec![0u8; 512];
    boot[11] = 0x00;
    boot[12] = 0x02;
    boot[14] = 1;
    boot[16] = 1;
    boot[17] = 16;
    boot[18] = 0;
    boot[22] = 1;
    disk.write_sector(0, &boot);
    let mut fs = somnia::fat16::Fat16Fs::new(disk).expect("mount");
    let name = b"NOTES   TXT".to_vec();
    assert!(fs.write_file(&name, &b"abc".to_vec()));
    let back = fs.read_file(&name).expect("found");
    assert_eq!(back, b"abc".to_vec());
    // A second file of the same name is refused.
    assert!(!fs.write_file(&name, &b"xyz".to_vec()));
}

#[test]
fn paths_normalize_like_a_shell() {
    assert_eq!(normalize_path("/a//b/./c"), b"/a/b/c".to_vec());
    assert_eq!(normalize_path("/a/b/../c"), b"/a/c".to_vec());
    assert_eq!(normalize_path("a/.."), b".".to_vec());
    assert_eq!(normalize_path("../x"), b"../x".to_vec());
    assert_eq!(normalize_path("/.."), b"/".to_vec());
    assert_eq!(parse_path("/usr", "docs/"), b"/usr/docs".to_vec());
    assert_eq!(parse_path("/usr", "../bin"), b"/bin".to_vec());
}
