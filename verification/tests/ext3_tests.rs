use std::collections::HashMap;
use kernel_core::fs::ext3::{Ext3Fs, Inode, inode_record, new_file_inode, dir_add_entry, parse_dir, split_parent,
    find_clear_bit, blocks_for, chunk, file_type_of, check_superblock, FT_DIR, FT_REG};
use kernel_core::fs::ext3_disk::{BlockCache, Progress, check_geometry, read_file, list_dir, fs_read, fs_list,
    create_file, write_file, delete_file};
use kernel_core::fs::vfs::FsError;

const BS: usize = 1024;

fn geometry() -> Ext3Fs {
    Ext3Fs { block_size: BS, inodes_per_group: 32, blocks_per_group: 8192, bg_desc_table_block: 2, bg_count: 1 }
}

fn put_inode(disk: &mut HashMap<u32, Vec<u8>>, ino: u32, n: &Inode) {
    let idx = (ino - 1) as usize;
    let block = 5 + (idx / 8) as u32;
    let off = (idx % 8) * 116;
    let rec = inode_record(n);
    let b = disk.entry(block).or_insert_with(|| vec![0u8; BS]);
    b[off..off + 116].copy_from_slice(&rec);
}

fn sample_disk() -> HashMap<u32, Vec<u8>> {
    let mut disk = HashMap::new();
    let mut gd = vec![0u8; BS];
    gd[0..4].copy_from_slice(&3u32.to_le_bytes());
    gd[4..8].copy_from_slice(&4u32.to_le_bytes());
    gd[8..12].copy_from_slice(&5u32.to_le_bytes());
    disk.insert(2, gd);
    let mut bbm = vec![0u8; BS];
    bbm[0] = 0xFF;
    bbm[1] = 0xFF;
    bbm[2] = 0xFF;
    bbm[3] = 0x03;
    disk.insert(3, bbm);
    let mut ibm = vec![0u8; BS];
    ibm[0] = 0xFF;
    ibm[1] = 0x0F;
    disk.insert(4, ibm);

    let mut dir = Vec::new();
    dir_add_entry(&mut dir, b".", 2, FT_DIR).unwrap();
    dir_add_entry(&mut dir, b"..", 2, FT_DIR).unwrap();
    dir_add_entry(&mut dir, b"hello.txt", 12, FT_REG).unwrap();
    dir_add_entry(&mut dir, b"docs", 11, FT_DIR).unwrap();
    let dir_len = dir.len();
    dir.resize(BS, 0);
    disk.insert(20, dir);
    let mut sub = Vec::new();
    dir_add_entry(&mut sub, b".", 11, FT_DIR).unwrap();
    dir_add_entry(&mut sub, b"..", 2, FT_DIR).unwrap();
    let sub_len = sub.len();
    sub.resize(BS, 0);
    disk.insert(22, sub);
    let mut data = vec![0u8; BS];
    data[..5].copy_from_slice(b"hello");
    disk.insert(21, data);

    let mut root = new_file_inode();
    root.mode = 0x41ED;
    root.size = dir_len as u32;
    root.block[0] = 20;
    put_inode(&mut disk, 2, &root);
    let mut docs = new_file_inode();
    docs.mode = 0x41ED;
    docs.size = sub_len as u32;
    docs.block[0] = 22;
    put_inode(&mut disk, 11, &docs);
    let mut file = new_file_inode();
    file.size = 5;
    file.block[0] = 21;
    put_inode(&mut disk, 12, &file);
    disk
}

/// Runs an operation until it no longer asks for blocks, then puts its
/// writes on the disk.
fn run<T>(disk: &mut HashMap<u32, Vec<u8>>, mut op: impl FnMut(&mut BlockCache) -> Progress<T>) -> T {
    let mut reads: Vec<(u32, Vec<u8>)> = Vec::new();
    loop {
        let mut cache = BlockCache::new(BS);
        for (n, b) in &reads {
            cache.supply(*n, Some(b.clone()));
        }
        match op(&mut cache) {
            Progress::Need(n) => {
                let b = disk.get(&n).cloned().unwrap_or_else(|| vec![0u8; BS]);
                reads.push((n, b));
            }
            Progress::Done(r) => {
                for (n, b) in cache.written() {
                    disk.insert(*n, b.clone());
                }
                return r;
            }
        }
    }
}

#[test]
fn ext3_read_and_list() {
    let fs = geometry();
    assert!(check_geometry(&fs));
    let mut disk = sample_disk();
    let data = run(&mut disk, |c| read_file(&fs, c, "/hello.txt"));
    assert_eq!(data, Ok(b"hello".to_vec()));
    let listing = run(&mut disk, |c| list_dir(&fs, c, "/"));
    assert_eq!(listing, Ok(vec![("hello.txt".to_string(), 12, FT_REG), ("docs".to_string(), 11, FT_DIR)]));
    assert_eq!(run(&mut disk, |c| fs_list(&fs, c)), vec![("hello.txt".to_string(), 0), ("docs/".to_string(), 0)]);
    assert_eq!(run(&mut disk, |c| list_dir(&fs, c, "/docs")), Ok(vec![]));
    assert_eq!(run(&mut disk, |c| read_file(&fs, c, "//docs/../hello.txt")), Err("file not found"));
    assert_eq!(run(&mut disk, |c| read_file(&fs, c, "/nope")), Err("file not found"));
    assert_eq!(run(&mut disk, |c| read_file(&fs, c, "/")), Err("is a directory"));
    assert_eq!(run(&mut disk, |c| list_dir(&fs, c, "/hello.txt")), Err("not a directory"));
    assert_eq!(run(&mut disk, |c| fs_read(&fs, c, "/nope")), Err(FsError::NotFound));
}

#[test]
fn ext3_write_then_read_back() {
    let fs = geometry();
    let mut disk = sample_disk();
    assert_eq!(run(&mut disk, |c| write_file(&fs, c, "/new.txt", b"abc")), Err("need absolute path"));
    assert_eq!(run(&mut disk, |c| write_file(&fs, c, "/docs/new.txt", b"abc")), Ok(()));
    assert_eq!(run(&mut disk, |c| read_file(&fs, c, "/docs/new.txt")), Ok(b"abc".to_vec()));
    let listing = run(&mut disk, |c| list_dir(&fs, c, "/docs")).unwrap();
    assert_eq!(listing, vec![("new.txt".to_string(), 13, FT_REG)]);
    let big: Vec<u8> = (0..3000u32).map(|i| (i % 251) as u8).collect();
    assert_eq!(run(&mut disk, |c| write_file(&fs, c, "/hello.txt", &big)), Ok(()));
    assert_eq!(run(&mut disk, |c| read_file(&fs, c, "/hello.txt")), Ok(big.clone()));
    assert_eq!(run(&mut disk, |c| write_file(&fs, c, "/hello.txt", b"x")), Ok(()));
    assert_eq!(run(&mut disk, |c| read_file(&fs, c, "/hello.txt")), Ok(b"x".to_vec()));
    assert_eq!(run(&mut disk, |c| write_file(&fs, c, "/docs", b"x")), Err("cannot write to directory"));
}

#[test]
fn ext3_create_and_delete() {
    let fs = geometry();
    let mut disk = sample_disk();
    assert_eq!(run(&mut disk, |c| create_file(&fs, c, "/hello.txt")), Err("need absolute path"));
    assert_eq!(run(&mut disk, |c| create_file(&fs, c, "relative")), Err("need absolute path"));
    assert_eq!(run(&mut disk, |c| create_file(&fs, c, "/docs/empty")), Ok(()));
    assert_eq!(run(&mut disk, |c| create_file(&fs, c, "/docs/empty")), Err("file exists"));
    assert_eq!(run(&mut disk, |c| create_file(&fs, c, "/hello.txt/x")), Err("parent not a directory"));
    assert_eq!(run(&mut disk, |c| read_file(&fs, c, "/docs/empty")), Ok(vec![]));
    assert_eq!(run(&mut disk, |c| write_file(&fs, c, "/docs/f", b"data")), Ok(()));
    assert_eq!(run(&mut disk, |c| delete_file(&fs, c, "/docs/empty")), Ok(()));
    assert_eq!(run(&mut disk, |c| read_file(&fs, c, "/docs/empty")), Err("file not found"));
    let names: Vec<String> = run(&mut disk, |c| list_dir(&fs, c, "/docs")).unwrap().into_iter().map(|e| e.0).collect();
    assert_eq!(names, vec!["f".to_string()]);
    assert_eq!(run(&mut disk, |c| read_file(&fs, c, "/docs/f")), Ok(b"data".to_vec()));
    assert_eq!(run(&mut disk, |c| delete_file(&fs, c, "/docs/empty")), Err("file not found"));
    assert_eq!(run(&mut disk, |c| delete_file(&fs, c, "/docs/f")), Ok(()));
    assert_eq!(run(&mut disk, |c| list_dir(&fs, c, "/docs")), Ok(vec![]));
}

#[test]
fn ext3_unreadable_block() {
    let fs = geometry();
    let mut cache = BlockCache::new(BS);
    cache.supply(2, None);
    assert!(matches!(read_file(&fs, &cache, "/x"), Progress::Done(Err("ATA read error"))));
    assert!(matches!(fs_read(&fs, &cache, "/x"), Progress::Done(Err(FsError::NotFound))));
}

#[test]
fn ext3_layout_helpers() {
    let mut raw = Vec::new();
    dir_add_entry(&mut raw, b"a", 7, FT_REG).unwrap();
    assert_eq!(raw.len(), 12);
    assert_eq!(&raw[0..8], &[7, 0, 0, 0, 12, 0, 1, 1]);
    assert_eq!(dir_add_entry(&mut raw, b"", 7, FT_REG), Err("entry too small"));
    let recs = parse_dir(&raw, raw.len());
    assert_eq!(recs.len(), 1);
    assert_eq!(recs[0].name, b"a".to_vec());
    assert_eq!(split_parent("/dir/file"), Ok(("/dir", "file")));
    assert_eq!(split_parent("/file"), Err("need absolute path"));
    assert_eq!(find_clear_bit(&[0xFF, 0x0B], 2, 16), Some(10));
    assert_eq!(find_clear_bit(&[0xFF, 0x0B], 2, 10), None);
    assert_eq!(blocks_for(3000, 1024), 3);
    assert_eq!(chunk(3000, 2, 1024), (2048, 952));
    assert_eq!(file_type_of(0x41ED), FT_DIR);
    assert_eq!(file_type_of(0x81A4), FT_REG);
    assert!(!check_superblock(&[0u8; 10]));
}
