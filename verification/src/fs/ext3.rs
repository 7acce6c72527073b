//! The ext2/ext3 on-disk layout: superblock, group descriptors, inodes,
//! block maps, directory entries and bitmaps, decoded and edited in block
//! buffers. The disk transfers are the caller's.

use vstd::prelude::*;
use crate::net::wire::{be16_value, be32_value, splice};
use crate::shell::history::str_eq;
use crate::shell::args::find_from;

verus! {

pub const EXT_MAGIC: u16 = 0xEF53;
pub const S_IFDIR: u16 = 0x4000;
pub const S_IFREG: u16 = 0x8000;
pub const INDIRECT_BLOCK: usize = 12;
pub const FT_REG: u8 = 1;
pub const FT_DIR: u8 = 2;
/// Bytes of a group descriptor.
pub const BG_DESC_SIZE: usize = 32;
/// Bytes of an inode record as this driver lays it out.
pub const INODE_SIZE: usize = 116;
/// Bytes of a directory entry's fixed part.
pub const DIRENT_HEADER: usize = 8;

/// Little-endian `u16` at `at`.
pub open spec fn le16(b: Seq<u8>, at: int) -> u16 {
    be16_value(b[at + 1], b[at])
}

/// Little-endian `u32` at `at`.
pub open spec fn le32(b: Seq<u8>, at: int) -> u32 {
    be32_value(b[at + 3], b[at + 2], b[at + 1], b[at])
}

pub fn read_le16(b: &[u8], at: usize) -> (r: u16)
    requires
        at + 2 <= b@.len(),
    ensures
        r == le16(b@, at as int),
{
    let _n = b.len();
    (b[at + 1] as u16) * 256 + (b[at] as u16)
}

pub fn read_le32(b: &[u8], at: usize) -> (r: u32)
    requires
        at + 4 <= b@.len(),
    ensures
        r == le32(b@, at as int),
{
    let _n = b.len();
    (b[at + 3] as u32) * 0x100_0000 + (b[at + 2] as u32) * 0x1_0000 + (b[at + 1] as u32) * 256 + (b[at] as u32)
}

/// The two bytes of `v`, least significant first.
pub open spec fn le16_bytes(v: u16) -> Seq<u8> {
    seq![(v % 256) as u8, (v / 256) as u8]
}

/// The four bytes of `v`, least significant first.
pub open spec fn le32_bytes(v: u32) -> Seq<u8> {
    seq![(v % 256) as u8, ((v / 256) % 256) as u8, ((v / 0x1_0000) % 256) as u8, (v / 0x100_0000) as u8]
}

pub fn write_le16(b: &mut Vec<u8>, at: usize, v: u16)
    requires
        at + 2 <= old(b)@.len(),
    ensures
        final(b)@ == splice(old(b)@, at as int, le16_bytes(v)),
{
    let _n = b.len();
    b.set(at, (v % 256) as u8);
    b.set(at + 1, (v / 256) as u8);
    assert(b@ =~= splice(old(b)@, at as int, le16_bytes(v)));
}

pub fn write_le32(b: &mut Vec<u8>, at: usize, v: u32)
    requires
        at + 4 <= old(b)@.len(),
    ensures
        final(b)@ == splice(old(b)@, at as int, le32_bytes(v)),
{
    let _n = b.len();
    b.set(at, (v % 256) as u8);
    b.set(at + 1, ((v / 256) % 256) as u8);
    b.set(at + 2, ((v / 0x1_0000) % 256) as u8);
    b.set(at + 3, (v / 0x100_0000) as u8);
    assert(b@ =~= splice(old(b)@, at as int, le32_bytes(v)));
}

/// A mounted file system's geometry.
#[derive(Clone, Copy, Debug)]
pub struct Ext3Fs {
    pub block_size: usize,
    pub inodes_per_group: u32,
    pub blocks_per_group: u32,
    pub bg_desc_table_block: u32,
    pub bg_count: u32,
}

/// The superblock (the 1024 bytes at disk offset 1024) can be mounted
/// without arithmetic faults: when the magic number is right, the block size
/// shift is below 64, blocks per group is not 0 and the block count plus
/// blocks per group stays in 32 bits.
pub open spec fn superblock_usable(sb: Seq<u8>) -> bool {
    sb.len() >= 0x3A && (le16(sb, 0x38) == EXT_MAGIC ==> {
        &&& le32(sb, 0x18) < 64
        &&& le32(sb, 0x20) != 0
        &&& le32(sb, 0x04) + le32(sb, 0x20) <= u32::MAX
    })
}

/// Whether `superblock_usable` holds.
pub fn check_superblock(sb: &[u8]) -> (r: bool)
    ensures
        r == superblock_usable(sb@),
{
    if sb.len() < 0x3A {
        return false;
    }
    if read_le16(sb, 0x38) != EXT_MAGIC {
        return true;
    }
    let log = read_le32(sb, 0x18);
    let bpg = read_le32(sb, 0x20);
    let blocks = read_le32(sb, 0x04);
    log < 64 && bpg != 0 && (blocks as u64) + (bpg as u64) <= 0xFFFF_FFFFu64
}

/// The geometry a superblock describes: block size 1024 << log, the group
/// descriptor table in the block after the superblock, the group count
/// rounded up.
pub open spec fn mount_spec(sb: Seq<u8>) -> Result<Ext3Fs, &'static str> {
    if le16(sb, 0x38) != EXT_MAGIC {
        Err("not an ext2/3/4 filesystem")
    } else {
        let bs = ((1024usize as u64) << le32(sb, 0x18)) as usize;
        Ok(Ext3Fs {
            block_size: bs,
            inodes_per_group: le32(sb, 0x28),
            blocks_per_group: le32(sb, 0x20),
            bg_desc_table_block: if bs == 1024 { 2 } else { 1 },
            bg_count: ((le32(sb, 0x04) + le32(sb, 0x20) - 1) / (le32(sb, 0x20) as int)) as u32,
        })
    }
}

impl Ext3Fs {
    /// Reads the geometry from the superblock.
    pub fn mount(sb: &[u8]) -> (r: Result<Ext3Fs, &'static str>)
        requires
            superblock_usable(sb@),
        ensures
            match (r, mount_spec(sb@)) {
                (Ok(a), Ok(b)) => a.block_size == b.block_size && a.inodes_per_group == b.inodes_per_group
                    && a.blocks_per_group == b.blocks_per_group && a.bg_desc_table_block == b.bg_desc_table_block
                    && a.bg_count == b.bg_count,
                (Err(a), Err(b)) => a == b,
                _ => false,
            },
    {
        if read_le16(sb, 0x38) != EXT_MAGIC {
            return Err("not an ext2/3/4 filesystem");
        }
        let log = read_le32(sb, 0x18);
        let block_size = ((1024u64) << log) as usize;
        let blocks_per_group = read_le32(sb, 0x20);
        let inodes_per_group = read_le32(sb, 0x28);
        let bg_desc_table_block: u32 = if block_size == 1024 { 2 } else { 1 };
        let blocks = read_le32(sb, 0x04);
        let bg_count = (blocks + blocks_per_group - 1) / blocks_per_group;
        Ok(Ext3Fs { block_size, inodes_per_group, blocks_per_group, bg_desc_table_block, bg_count })
    }

    /// Bytes per block.
    pub fn block_size(&self) -> (r: usize)
        ensures
            r == self.block_size,
    {
        self.block_size
    }
}


/// A block group descriptor's block numbers.
#[derive(Clone, Copy, Debug, PartialEq, Eq, Structural)]
pub struct BgDescriptor {
    pub block_bitmap: u32,
    pub inode_bitmap: u32,
    pub inode_table: u32,
}

/// Reads a group descriptor at `off`.
pub fn parse_bg_desc(buf: &[u8], off: usize) -> (r: BgDescriptor)
    requires
        off + BG_DESC_SIZE <= buf@.len(),
    ensures
        r.block_bitmap == le32(buf@, off as int),
        r.inode_bitmap == le32(buf@, off + 4),
        r.inode_table == le32(buf@, off + 8),
{
    let _n = buf.len();
    BgDescriptor { block_bitmap: read_le32(buf, off), inode_bitmap: read_le32(buf, off + 4), inode_table: read_le32(buf, off + 8) }
}

/// An inode record.
#[derive(Clone, Copy, Debug)]
pub struct Inode {
    pub mode: u16,
    pub uid: u16,
    pub size: u32,
    pub atime: u32,
    pub ctime: u32,
    pub mtime: u32,
    pub dtime: u32,
    pub gid: u16,
    pub links_count: u16,
    pub sectors: u32,
    pub flags: u32,
    pub osd1: u32,
    pub block: [u32; 15],
    pub generation: u32,
    pub file_acl: u32,
    pub size_high: u32,
    pub faddr: u32,
}

/// The bytes of an inode record.
#[verifier::opaque]
pub open spec fn inode_bytes(n: Inode) -> Seq<u8> {
    le16_bytes(n.mode) + le16_bytes(n.uid) + le32_bytes(n.size) + le32_bytes(n.atime) + le32_bytes(n.ctime)
        + le32_bytes(n.mtime) + le32_bytes(n.dtime) + le16_bytes(n.gid) + le16_bytes(n.links_count)
        + le32_bytes(n.sectors) + le32_bytes(n.flags) + le32_bytes(n.osd1)
        + blocks_bytes(n.block@, 15) + le32_bytes(n.generation) + le32_bytes(n.file_acl)
        + le32_bytes(n.size_high) + le32_bytes(n.faddr)
}

/// The bytes of the first `k` block pointers.
pub open spec fn blocks_bytes(b: Seq<u32>, k: int) -> Seq<u8>
    decreases k,
{
    if k <= 0 { Seq::empty() } else { blocks_bytes(b, k - 1) + le32_bytes(b[k - 1]) }
}

/// The inode record at `off`.
pub open spec fn inode_at(buf: Seq<u8>, off: int) -> Inode {
    Inode {
        mode: le16(buf, off),
        uid: le16(buf, off + 2),
        size: le32(buf, off + 4),
        atime: le32(buf, off + 8),
        ctime: le32(buf, off + 12),
        mtime: le32(buf, off + 16),
        dtime: le32(buf, off + 20),
        gid: le16(buf, off + 24),
        links_count: le16(buf, off + 26),
        sectors: le32(buf, off + 28),
        flags: le32(buf, off + 32),
        osd1: le32(buf, off + 36),
        block: arbitrary(),
        generation: le32(buf, off + 100),
        file_acl: le32(buf, off + 104),
        size_high: le32(buf, off + 108),
        faddr: le32(buf, off + 112),
    }
}

/// Reads the inode record at `off`.
pub fn parse_inode(buf: &[u8], off: usize) -> (r: Inode)
    requires
        off + INODE_SIZE <= buf@.len(),
    ensures
        r == (Inode { block: r.block, ..inode_at(buf@, off as int) }),
        forall|k: int| 0 <= k < 15 ==> r.block@[k] == le32(buf@, off + 40 + 4 * k),
{
    let n = buf.len();
    let mut block: [u32; 15] = [0u32; 15];
    let mut k: usize = 0;
    while k < 15
        invariant
            k <= 15,
            n == buf@.len(),
            off + INODE_SIZE <= buf@.len(),
            block@.len() == 15,
            forall|j: int| 0 <= j < k ==> block@[j] == le32(buf@, off + 40 + 4 * j),
        decreases 15 - k,
    {
        block[k] = read_le32(buf, off + 40 + 4 * k);
        k = k + 1;
    }
    Inode {
        mode: read_le16(buf, off),
        uid: read_le16(buf, off + 2),
        size: read_le32(buf, off + 4),
        atime: read_le32(buf, off + 8),
        ctime: read_le32(buf, off + 12),
        mtime: read_le32(buf, off + 16),
        dtime: read_le32(buf, off + 20),
        gid: read_le16(buf, off + 24),
        links_count: read_le16(buf, off + 26),
        sectors: read_le32(buf, off + 28),
        flags: read_le32(buf, off + 32),
        osd1: read_le32(buf, off + 36),
        block,
        generation: read_le32(buf, off + 100),
        file_acl: read_le32(buf, off + 104),
        size_high: read_le32(buf, off + 108),
        faddr: read_le32(buf, off + 112),
    }
}

fn push_le16(v: &mut Vec<u8>, x: u16)
    ensures
        final(v)@ == old(v)@ + le16_bytes(x),
{
    v.push((x % 256) as u8);
    v.push((x / 256) as u8);
    assert(v@ =~= old(v)@ + le16_bytes(x));
}

fn push_le32(v: &mut Vec<u8>, x: u32)
    ensures
        final(v)@ == old(v)@ + le32_bytes(x),
{
    v.push((x % 256) as u8);
    v.push(((x / 256) % 256) as u8);
    v.push(((x / 0x1_0000) % 256) as u8);
    v.push((x / 0x100_0000) as u8);
    assert(v@ =~= old(v)@ + le32_bytes(x));
}

/// The bytes of an inode record.
pub fn inode_record(n: &Inode) -> (r: Vec<u8>)
    ensures
        r@ == inode_bytes(*n),
        r@.len() == INODE_SIZE,
{
    let mut v: Vec<u8> = Vec::new();
    push_le16(&mut v, n.mode);
    push_le16(&mut v, n.uid);
    push_le32(&mut v, n.size);
    push_le32(&mut v, n.atime);
    push_le32(&mut v, n.ctime);
    push_le32(&mut v, n.mtime);
    push_le32(&mut v, n.dtime);
    push_le16(&mut v, n.gid);
    push_le16(&mut v, n.links_count);
    push_le32(&mut v, n.sectors);
    push_le32(&mut v, n.flags);
    push_le32(&mut v, n.osd1);
    let ghost head = v@;
    let mut k: usize = 0;
    while k < 15
        invariant
            k <= 15,
            v@ == head + blocks_bytes(n.block@, k as int),
        decreases 15 - k,
    {
        push_le32(&mut v, n.block[k]);
        k = k + 1;
        assert(v@ =~= head + blocks_bytes(n.block@, k as int));
    }
    push_le32(&mut v, n.generation);
    push_le32(&mut v, n.file_acl);
    push_le32(&mut v, n.size_high);
    push_le32(&mut v, n.faddr);
    proof {
        lemma_blocks_bytes_len(n.block@, 15);
        reveal(inode_bytes);
    }
    assert(v@ =~= inode_bytes(*n));
    v
}

/// Copies `src` into `buf` from `off`.
pub fn copy_to(buf: &mut Vec<u8>, off: usize, src: &[u8])
    requires
        off + src@.len() <= old(buf)@.len(),
    ensures
        final(buf)@ == splice(old(buf)@, off as int, src@),
{
    let ghost b0 = buf@;
    let len = buf.len();
    let mut k: usize = 0;
    while k < src.len()
        invariant
            k <= src@.len(),
            off + src@.len() <= b0.len(),
            len == b0.len(),
            buf@.len() == b0.len(),
            forall|j: int| 0 <= j < b0.len() ==> #[trigger] buf@[j]
                == if off <= j < off + k { src@[j - off] } else { b0[j] },
        decreases src@.len() - k,
    {
        buf.set(off + k, src[k]);
        k = k + 1;
    }
    assert(buf@ =~= splice(b0, off as int, src@));
}

/// Writes the inode record at `off`.
pub fn encode_inode(n: &Inode, buf: &mut Vec<u8>, off: usize)
    requires
        off + INODE_SIZE <= old(buf)@.len(),
    ensures
        final(buf)@ == splice(old(buf)@, off as int, inode_bytes(*n)),
        final(buf)@.len() == old(buf)@.len(),
{
    let rec = inode_record(n);
    copy_to(buf, off, rec.as_slice());
}

proof fn lemma_blocks_bytes_len(b: Seq<u32>, k: int)
    requires
        0 <= k,
    ensures
        blocks_bytes(b, k).len() == 4 * k,
    decreases k,
{
    if k > 0 {
        lemma_blocks_bytes_len(b, k - 1);
    }
}


impl Ext3Fs {
    /// Where group `group`'s descriptor lies: the block (after the table's
    /// first block) and the byte offset in it.
    pub fn bg_desc_location(&self, group: u32) -> (r: (u32, usize))
        requires
            self.block_size >= BG_DESC_SIZE,
            self.bg_desc_table_block + group / ((self.block_size / BG_DESC_SIZE) as u32) <= u32::MAX,
            (self.block_size / BG_DESC_SIZE) as u32 != 0,
        ensures
            r.0 == self.bg_desc_table_block + group / ((self.block_size / BG_DESC_SIZE) as u32),
            r.1 == (group % ((self.block_size / BG_DESC_SIZE) as u32)) * BG_DESC_SIZE,
    {
        let per = (self.block_size / BG_DESC_SIZE) as u32;
        (self.bg_desc_table_block + group / per, ((group % per) as usize) * BG_DESC_SIZE)
    }

    /// The group of inode `ino` and its index in the group.
    pub fn inode_group(&self, ino: u32) -> (r: (u32, u32))
        requires
            ino >= 1,
            self.inodes_per_group != 0,
        ensures
            r.0 == (ino - 1) / (self.inodes_per_group as int),
            r.1 == (ino - 1) % (self.inodes_per_group as int),
    {
        ((ino - 1) / self.inodes_per_group, (ino - 1) % self.inodes_per_group)
    }

    /// Where the inode with index `idx` in its group lies, given its group's
    /// inode table: the block and the byte offset in it.
    pub fn inode_slot(&self, idx: u32, inode_table: u32) -> (r: (u32, usize))
        requires
            (self.block_size / INODE_SIZE) as u32 != 0,
            inode_table + idx / ((self.block_size / INODE_SIZE) as u32) <= u32::MAX,
        ensures
            r.0 == inode_table + idx / ((self.block_size / INODE_SIZE) as u32),
            r.1 == (idx % ((self.block_size / INODE_SIZE) as u32)) * INODE_SIZE,
    {
        let per = (self.block_size / INODE_SIZE) as u32;
        (inode_table + idx / per, ((idx % per) as usize) * INODE_SIZE)
    }

    /// Where block `blk_idx` of a file is: one of the twelve direct
    /// pointers, or an entry of the single indirect block; a missing
    /// indirect block is a hole, and beyond lies the unsupported double
    /// indirect range.
    pub fn block_ref(&self, inode: &Inode, blk_idx: u32) -> (r: Result<BlockRef, &'static str>)
        ensures
            blk_idx < 12 ==> r == Ok::<BlockRef, &'static str>(BlockRef::Direct(inode.block@[blk_idx as int])),
            12 <= blk_idx < 12 + self.block_size / 4 ==> r == if inode.block@[INDIRECT_BLOCK as int] == 0 {
                Err::<BlockRef, &'static str>("hole in file")
            } else {
                Ok(BlockRef::Indirect(inode.block@[INDIRECT_BLOCK as int], (blk_idx - 12) as usize))
            },
            blk_idx >= 12 + self.block_size / 4 ==> r == Err::<BlockRef, &'static str>("double indirect not supported"),
    {
        if blk_idx < 12 {
            return Ok(BlockRef::Direct(inode.block[blk_idx as usize]));
        }
        if (blk_idx as usize) - 12 < self.block_size / 4 {
            let ind = inode.block[INDIRECT_BLOCK];
            if ind == 0 {
                return Err("hole in file");
            }
            return Ok(BlockRef::Indirect(ind, (blk_idx as usize) - 12));
        }
        Err("double indirect not supported")
    }
}

/// Where a file block is found.
#[derive(Clone, Copy, Debug, PartialEq, Eq, Structural)]
pub enum BlockRef {
    /// The block number itself (0 is a hole).
    Direct(u32),
    /// Entry `index` of the indirect block.
    Indirect(u32, usize),
}

/// Entry `index` of an indirect block.
pub fn indirect_entry(buf: &[u8], index: usize) -> (r: u32)
    requires
        4 * index + 4 <= buf@.len(),
    ensures
        r == le32(buf@, 4 * index),
{
    let _n = buf.len();
    read_le32(buf, index * 4)
}

/// The blocks a file of `size` bytes spans.
pub open spec fn blocks_for_spec(size: int, bs: int) -> int {
    (size + bs - 1) / bs
}

pub fn blocks_for(size: usize, bs: usize) -> (r: usize)
    requires
        bs > 0,
        size + bs <= usize::MAX,
    ensures
        r == blocks_for_spec(size as int, bs as int),
{
    (size + bs - 1) / bs
}

/// Byte offset and length of block `idx` of a file of `size` bytes.
pub fn chunk(size: usize, idx: usize, bs: usize) -> (r: (usize, usize))
    requires
        idx * bs <= size,
    ensures
        r.0 == idx * bs,
        r.1 == if size - idx * bs < bs { size - idx * bs } else { bs as int },
{
    let offset = idx * bs;
    let left = size - offset;
    (offset, if left < bs { left } else { bs })
}

/// The file type a directory listing gives an inode: directory or regular.
pub fn file_type_of(mode: u16) -> (r: u8)
    ensures
        r == if mode & S_IFDIR != 0 { FT_DIR } else { FT_REG },
{
    if mode & S_IFDIR != 0 { FT_DIR } else { FT_REG }
}

/// A new empty regular file: mode 0644, one link, everything else zero.
pub fn new_file_inode() -> (r: Inode)
    ensures
        r.mode == 0x81A4,
        r.links_count == 1,
        r.size == 0,
        r.uid == 0 && r.gid == 0 && r.atime == 0 && r.ctime == 0 && r.mtime == 0 && r.dtime == 0,
        r.sectors == 0 && r.flags == 0 && r.osd1 == 0 && r.generation == 0 && r.file_acl == 0,
        r.size_high == 0 && r.faddr == 0,
        forall|k: int| 0 <= k < 15 ==> r.block@[k] == 0,
{
    let mode = S_IFREG | 0o644;
    assert(mode == 0x81A4) by (bit_vector)
        requires
            mode == 0x8000u16 | 0x1A4u16,
    ;
    Inode {
        mode,
        uid: 0,
        size: 0,
        atime: 0,
        ctime: 0,
        mtime: 0,
        dtime: 0,
        gid: 0,
        links_count: 1,
        sectors: 0,
        flags: 0,
        osd1: 0,
        block: [0u32; 15],
        generation: 0,
        file_acl: 0,
        size_high: 0,
        faddr: 0,
    }
}

/// A directory entry: name bytes, inode number, file type.
pub struct DirRecord {
    pub name: Vec<u8>,
    pub inode: u32,
    pub file_type: u8,
}

pub open spec fn record_view(r: DirRecord) -> (Seq<u8>, u32, u8) {
    (r.name@, r.inode, r.file_type)
}

/// `.` or `..`.
pub open spec fn is_dot_name(n: Seq<u8>) -> bool {
    n == seq![46u8] || n == seq![46u8, 46u8]
}

/// The entries of a directory's first `len` bytes from offset `off`: each
/// record holds inode (4 bytes), record length (2), name length (1), file
/// type (1) and the name; a record with inode 0 or length 0 ends the list;
/// `.` and `..` and names running past the data are left out.
pub open spec fn dir_entries_from(raw: Seq<u8>, len: int, off: int) -> Seq<(Seq<u8>, u32, u8)>
    decreases len - off,
{
    if off < 0 || !(off < len && off + 8 <= len) {
        Seq::empty()
    } else if le32(raw, off) == 0 || le16(raw, off + 4) == 0 {
        Seq::empty()
    } else {
        let ns = off + 8;
        let ne = ns + raw[off + 6];
        let rest = if off + le16(raw, off + 4) <= len {
            dir_entries_from(raw, len, off + le16(raw, off + 4))
        } else {
            Seq::empty()
        };
        if ne <= raw.len() && !is_dot_name(raw.subrange(ns, ne)) {
            seq![(raw.subrange(ns, ne), le32(raw, off), raw[off + 7])] + rest
        } else {
            rest
        }
    }
}

fn is_dot(b: &[u8], ns: usize, ne: usize) -> (r: bool)
    requires
        ns <= ne <= b@.len(),
    ensures
        r == is_dot_name(b@.subrange(ns as int, ne as int)),
{
    let ghost sub = b@.subrange(ns as int, ne as int);
    if ne - ns == 1 {
        let r = b[ns] == 46;
        assert(sub[0] == b@[ns as int]);
        assert(r ==> sub =~= seq![46u8]);
        assert(sub == seq![46u8] ==> sub[0] == 46);
        r
    } else if ne - ns == 2 {
        let r = b[ns] == 46 && b[ns + 1] == 46;
        assert(sub[0] == b@[ns as int] && sub[1] == b@[ns + 1]);
        assert(r ==> sub =~= seq![46u8, 46u8]);
        assert(sub == seq![46u8, 46u8] ==> sub[0] == 46 && sub[1] == 46);
        r
    } else {
        assert(sub.len() != 1 && sub.len() != 2);
        false
    }
}

/// The entries of a directory whose data is the first `len` bytes of `raw`.
pub fn parse_dir(raw: &[u8], len: usize) -> (r: Vec<DirRecord>)
    requires
        len <= raw@.len(),
    ensures
        r@.map_values(|d: DirRecord| record_view(d)) == dir_entries_from(raw@, len as int, 0),
{
    let n = raw.len();
    let mut out: Vec<DirRecord> = Vec::new();
    let mut off: usize = 0;
    while off < len && len - off >= 8
        invariant
            len <= raw@.len(),
            n == raw@.len(),
            off <= len,
            dir_entries_from(raw@, len as int, 0) == out@.map_values(|d: DirRecord| record_view(d))
                + dir_entries_from(raw@, len as int, off as int),
        decreases len - off,
    {
        let ino = read_le32(raw, off);
        let rec_len = read_le16(raw, off + 4);
        if ino == 0 || rec_len == 0 {
            assert(dir_entries_from(raw@, len as int, off as int) =~= Seq::<(Seq<u8>, u32, u8)>::empty());
            assert(out@.map_values(|d: DirRecord| record_view(d)) + Seq::<(Seq<u8>, u32, u8)>::empty()
                =~= out@.map_values(|d: DirRecord| record_view(d)));
            return out;
        }
        let ns = off + 8;
        let nl = raw[off + 6] as usize;
        let fits = nl <= n - ns;
        let ne = if fits { ns + nl } else { ns };
        let ghost before = out@.map_values(|d: DirRecord| record_view(d));
        if fits && !is_dot(raw, ns, ne) {
            let name = vstd::slice::slice_to_vec(vstd::slice::slice_subrange(raw, ns, ne));
            out.push(DirRecord { name, inode: ino, file_type: raw[off + 7] });
            assert(out@.map_values(|d: DirRecord| record_view(d)) =~= before.push(
                (raw@.subrange(ns as int, ne as int), ino, raw@[off + 7])));
            assert(before + dir_entries_from(raw@, len as int, off as int) =~= out@.map_values(|d: DirRecord| record_view(d))
                + dir_entries_from(raw@, len as int, off + rec_len));
        }
        if (len - off) <= rec_len as usize {
            assert(dir_entries_from(raw@, len as int, off + rec_len) =~= Seq::<(Seq<u8>, u32, u8)>::empty());
            assert(out@.map_values(|d: DirRecord| record_view(d)) + Seq::<(Seq<u8>, u32, u8)>::empty()
                =~= out@.map_values(|d: DirRecord| record_view(d)));
            return out;
        }
        off = off + rec_len as usize;
    }
    assert(dir_entries_from(raw@, len as int, off as int) =~= Seq::<(Seq<u8>, u32, u8)>::empty());
    assert(out@.map_values(|d: DirRecord| record_view(d)) + Seq::<(Seq<u8>, u32, u8)>::empty()
        =~= out@.map_values(|d: DirRecord| record_view(d)));
    out
}

/// The first entry named `name`: its inode and file type.
pub fn find_entry(entries: &[(String, u32, u8)], name: &str) -> (r: Option<(u32, u8)>)
    ensures
        match r {
            Some((ino, ft)) => exists|i: int| 0 <= i < entries@.len() && (#[trigger] entries@[i]).0@ == name@
                && entries@[i].1 == ino && entries@[i].2 == ft
                && forall|j: int| 0 <= j < i ==> (#[trigger] entries@[j]).0@ != name@,
            None => forall|i: int| 0 <= i < entries@.len() ==> (#[trigger] entries@[i]).0@ != name@,
        },
{
    let mut i: usize = 0;
    while i < entries.len()
        invariant
            i <= entries@.len(),
            forall|j: int| 0 <= j < i ==> (#[trigger] entries@[j]).0@ != name@,
        decreases entries@.len() - i,
    {
        if str_eq(entries[i].0.as_str(), name) {
            return Some((entries[i].1, entries[i].2));
        }
        i = i + 1;
    }
    None
}

/// Index of the last `c` in `s` before `end` (-1 if none).
pub open spec fn last_index(s: Seq<char>, c: char, end: int) -> int
    decreases end,
{
    if end <= 0 {
        -1
    } else if s[end - 1] == c {
        end - 1
    } else {
        last_index(s, c, end - 1)
    }
}

proof fn lemma_last_index(s: Seq<char>, c: char, end: int)
    requires
        0 <= end <= s.len(),
    ensures
        -1 <= last_index(s, c, end) < end,
        last_index(s, c, end) >= 0 ==> s[last_index(s, c, end)] == c,
    decreases end,
{
    if end > 0 && s[end - 1] != c {
        lemma_last_index(s, c, end - 1);
    }
}

/// The directory part and the last component of a path: split at the
/// last `/`; a path without `/`, or whose directory part is empty, is
/// refused.
pub open spec fn split_parent_spec(p: Seq<char>) -> Result<(Seq<char>, Seq<char>), &'static str> {
    let k = last_index(p, '/', p.len() as int);
    if k < 0 || k == 0 {
        Err("need absolute path")
    } else {
        Ok((p.subrange(0, k), p.subrange(k + 1, p.len() as int)))
    }
}

/// Splits a path into its directory part and its last component.
pub fn split_parent(path: &str) -> (r: Result<(&str, &str), &'static str>)
    ensures
        match (r, split_parent_spec(path@)) {
            (Ok((a, b)), Ok((x, y))) => a@ == x && b@ == y,
            (Err(e), Err(f)) => e == f,
            _ => false,
        },
{
    let n = path.unicode_len();
    proof {
        lemma_last_index(path@, '/', n as int);
    }
    let mut k = n;
    while k > 0 && path.get_char(k - 1) != '/'
        invariant
            k <= n == path@.len(),
            last_index(path@, '/', k as int) == last_index(path@, '/', n as int),
        decreases k,
    {
        k = k - 1;
    }
    if k == 0 {
        return Err("need absolute path");
    }
    let pos = k - 1;
    if pos == 0 {
        return Err("need absolute path");
    }
    Ok((path.substring_char(0, pos), path.substring_char(pos + 1, n)))
}

/// A new entry's name: not empty and at most 255 bytes.
pub open spec fn entry_name_ok(name: Seq<char>) -> bool {
    name.len() > 0 && vstd::utf8::encode_utf8(name).len() <= 255
}

/// Whether a new entry may have this name.
pub fn check_entry_name(name: &str) -> (r: bool)
    ensures
        r == entry_name_ok(name@),
{
    name.unicode_len() > 0 && name.as_bytes().len() <= 255
}

/// Bit `k` of a bitmap is clear (bits counted from the lowest of byte 0).
pub open spec fn bit_clear(b: Seq<u8>, k: int) -> bool {
    b[k / 8] & (1u8 << ((k % 8) as u8)) == 0
}

/// The first clear bit among the first `max_bits` bits of the first
/// `nbytes` bytes.
pub fn find_clear_bit(buf: &[u8], nbytes: usize, max_bits: u32) -> (r: Option<u32>)
    requires
        nbytes <= buf@.len(),
        nbytes <= 0x2000_0000,
    ensures
        match r {
            Some(k) => k < max_bits && k < 8 * nbytes && bit_clear(buf@, k as int)
                && forall|j: int| 0 <= j < k ==> !bit_clear(buf@, j),
            None => forall|j: int| 0 <= j < max_bits && j < 8 * nbytes ==> !bit_clear(buf@, j),
        },
{
    let mut byte_idx: usize = 0;
    while byte_idx < nbytes
        invariant
            byte_idx <= nbytes <= buf@.len(),
            nbytes <= 0x2000_0000,
            forall|j: int| 0 <= j < max_bits && j < 8 * byte_idx ==> !bit_clear(buf@, j),
        decreases nbytes - byte_idx,
    {
        let byte = buf[byte_idx];
        let mut bit: u32 = 0;
        while bit < 8
            invariant
                bit <= 8,
                byte_idx < nbytes <= buf@.len(),
                nbytes <= 0x2000_0000,
                byte == buf@[byte_idx as int],
                forall|j: int| 0 <= j < max_bits && j < 8 * byte_idx + bit ==> !bit_clear(buf@, j),
            ensures
                forall|j: int| 0 <= j < max_bits && j < 8 * byte_idx + 8 ==> !bit_clear(buf@, j),
            decreases 8 - bit,
        {
            let k = (byte_idx as u32) * 8 + bit;
            if k >= max_bits {
                break;
            }
            let mask: u8 = 1u8 << (bit as u8);
            assert((k as int) / 8 == byte_idx && (k as int) % 8 == bit);
            if byte & mask == 0 {
                return Some(k);
            }
            bit = bit + 1;
        }
        byte_idx = byte_idx + 1;
    }
    None
}

/// Sets (`value`) or clears bit `bit` of a bitmap.
pub fn set_bit_value(buf: &mut Vec<u8>, bit: u32, value: bool)
    requires
        bit / 8 < old(buf)@.len(),
    ensures
        final(buf)@ == old(buf)@.update((bit / 8) as int, if value {
            old(buf)@[(bit / 8) as int] | (1u8 << ((bit % 8) as u8))
        } else {
            old(buf)@[(bit / 8) as int] & !(1u8 << ((bit % 8) as u8))
        }),
{
    let i = (bit / 8) as usize;
    let mask: u8 = 1u8 << ((bit % 8) as u8);
    let b = buf[i];
    if value {
        buf.set(i, b | mask);
    } else {
        buf.set(i, b & !mask);
    }
}

/// The length of a directory record for a name of `n` bytes: eight bytes of
/// header and the name, rounded up to a multiple of four.
pub open spec fn rec_len_for(n: int) -> int {
    (8 + n + 3) / 4 * 4
}

/// The bytes of a new directory record.
pub open spec fn dir_record_bytes(ino: u32, rec: u16, name: Seq<u8>, ft: u8) -> Seq<u8> {
    le32_bytes(ino) + le16_bytes(rec) + seq![name.len() as u8, ft] + name
        + Seq::new((rec - 8 - name.len()) as nat, |i: int| 0u8)
}

/// Appends a record for `name` (inode `ino`, file type `ft`) to a
/// directory's data; a record shorter than 12 bytes (an empty name) is
/// refused.
pub fn dir_add_entry(raw: &mut Vec<u8>, name: &[u8], ino: u32, ft: u8) -> (r: Result<(), &'static str>)
    requires
        name@.len() <= 255,
        old(raw)@.len() + 264 <= usize::MAX,
    ensures
        rec_len_for(name@.len() as int) < 12 ==> r == Err::<(), &'static str>("entry too small") && final(raw)@ == old(raw)@,
        rec_len_for(name@.len() as int) >= 12 ==> r is Ok
            && final(raw)@ == old(raw)@ + dir_record_bytes(ino, rec_len_for(name@.len() as int) as u16, name@, ft),
{
    let entry_size = 8 + name.len();
    let e3: usize = entry_size + 3;
    let rounded = e3 & !3usize;
    assert(rounded == e3 / 4 * 4) by (bit_vector)
        requires
            rounded == e3 & !3usize,
            e3 <= 266,
    ;
    let rec_len = rounded as u16;
    if rec_len < 12 {
        return Err("entry too small");
    }
    let ghost r0 = raw@;
    let new_offset = raw.len();
    let mut k: usize = 0;
    while k < rounded
        invariant
            k <= rounded,
            raw@ == r0 + Seq::new(k as nat, |i: int| 0u8),
        decreases rounded - k,
    {
        raw.push(0);
        k = k + 1;
        assert(raw@ =~= r0 + Seq::new(k as nat, |i: int| 0u8));
    }
    write_le32(raw, new_offset, ino);
    write_le16(raw, new_offset + 4, rec_len);
    raw.set(new_offset + 6, name.len() as u8);
    raw.set(new_offset + 7, ft);
    copy_to(raw, new_offset + 8, name);
    assert(raw@ =~= r0 + dir_record_bytes(ino, rec_len, name@, ft));
    Ok(())
}

/// The offset of the first record named `name` among the first `len`
/// bytes, scanning from `off` as the directory listing does (names compared
/// byte for byte).
pub open spec fn find_named(raw: Seq<u8>, len: int, name: Seq<u8>, off: int) -> Option<int>
    decreases len - off,
{
    if off < 0 || off + 8 > len {
        None
    } else if le32(raw, off) == 0 || le16(raw, off + 4) == 0 {
        None
    } else if off + 8 + raw[off + 6] <= raw.len() && raw.subrange(off + 8, off + 8 + raw[off + 6]) == name {
        Some(off)
    } else if off + le16(raw, off + 4) <= len {
        find_named(raw, len, name, off + le16(raw, off + 4))
    } else {
        None
    }
}

/// The offset of the record whose length ends exactly at `target`,
/// scanning from `scan`.
pub open spec fn pred_of(raw: Seq<u8>, target: int, scan: int) -> Option<int>
    decreases target - scan,
{
    if scan < 0 || scan >= target || le16(raw, scan + 4) == 0 {
        None
    } else if scan + le16(raw, scan + 4) == target {
        Some(scan)
    } else if scan + le16(raw, scan + 4) > target {
        None
    } else {
        pred_of(raw, target, scan + le16(raw, scan + 4))
    }
}

proof fn lemma_find_named(raw: Seq<u8>, len: int, name: Seq<u8>, off: int)
    ensures
        find_named(raw, len, name, off) matches Some(f) ==> off <= f && 0 <= f && f + 8 <= len
            && le32(raw, f) != 0 && le16(raw, f + 4) != 0,
    decreases len - off,
{
    if !(off < 0 || off + 8 > len) && !(le32(raw, off) == 0 || le16(raw, off + 4) == 0) {
        if !(off + 8 + raw[off + 6] <= raw.len() && raw.subrange(off + 8, off + 8 + raw[off + 6]) == name) {
            if off + le16(raw, off + 4) <= len {
                lemma_find_named(raw, len, name, off + le16(raw, off + 4));
            }
        }
    }
}

/// Removing the record at `f` would not overflow its predecessor's length.
pub open spec fn remove_fits(raw: Seq<u8>, len: int, name: Seq<u8>) -> bool {
    match find_named(raw, len, name, 0) {
        Some(f) => f + le16(raw, f + 4) < len ==> match pred_of(raw, f, 0) {
            Some(p) => le16(raw, p + 4) + le16(raw, f + 4) <= 0xFFFF,
            None => true,
        },
        None => true,
    }
}

/// The directory data after the record at `f` is removed: unless it is the
/// last record, the record before it grows to cover it; its inode becomes
/// 0.
pub open spec fn removed(raw: Seq<u8>, len: int, f: int) -> Seq<u8> {
    let merged = if f + le16(raw, f + 4) < len {
        match pred_of(raw, f, 0) {
            Some(p) => splice(raw, p + 4, le16_bytes((le16(raw, p + 4) + le16(raw, f + 4)) as u16)),
            None => raw,
        }
    } else {
        raw
    };
    splice(merged, f, le32_bytes(0))
}

fn bytes_eq(raw: &Vec<u8>, start: usize, name: &[u8]) -> (r: bool)
    requires
        start + name@.len() <= raw@.len(),
    ensures
        r == (raw@.subrange(start as int, start + name@.len()) == name@),
{
    let n = raw.len();
    let mut k: usize = 0;
    while k < name.len()
        invariant
            start + name@.len() <= raw@.len(),
            n == raw@.len(),
            k <= name@.len(),
            forall|j: int| 0 <= j < k ==> raw@[start + j] == name@[j],
        decreases name@.len() - k,
    {
        if raw[start + k] != name[k] {
            assert(raw@.subrange(start as int, start + name@.len())[k as int] != name@[k as int]);
            return false;
        }
        k = k + 1;
    }
    assert(raw@.subrange(start as int, start + name@.len()) =~= name@);
    true
}

/// Removes the record named `name` from a directory's first `len` bytes
/// and returns its inode number.
pub fn dir_remove_entry(raw: &mut Vec<u8>, len: usize, name: &[u8]) -> (r: Result<u32, &'static str>)
    requires
        len <= old(raw)@.len(),
        remove_fits(old(raw)@, len as int, name@),
    ensures
        match find_named(old(raw)@, len as int, name@, 0) {
            None => r == Err::<u32, &'static str>("file not found in directory") && final(raw)@ == old(raw)@,
            Some(f) => r == Ok::<u32, &'static str>(le32(old(raw)@, f)) && final(raw)@ == removed(old(raw)@, len as int, f),
        },
{
    let n = raw.len();
    let ghost r0 = raw@;
    let mut off: usize = 0;
    let mut found: Option<usize> = None;
    while found.is_none() && off < len && len - off >= 8
        invariant
            raw@ == r0,
            n == r0.len(),
            len <= n,
            off <= len,
            match found {
                Some(f) => find_named(r0, len as int, name@, 0) == Some(f as int),
                None => find_named(r0, len as int, name@, 0) == find_named(r0, len as int, name@, off as int),
            },
        decreases len - off + (if found is None { 1int } else { 0int }),
    {
        let ino = read_le32(raw.as_slice(), off);
        let rl = read_le16(raw.as_slice(), off + 4);
        if ino == 0 || rl == 0 {
            assert(find_named(r0, len as int, name@, off as int) is None);
            off = len;
        } else {
            let nl = raw[off + 6] as usize;
            if nl <= n - (off + 8) && nl == name.len() && bytes_eq(raw, off + 8, name) {
                found = Some(off);
            } else {
                if nl <= n - (off + 8) && nl != name.len() {
                    assert(r0.subrange(off + 8, off + 8 + nl).len() != name@.len());
                }
                if (rl as usize) > len - off {
                    off = len;
                } else {
                    off = off + rl as usize;
                }
            }
        }
    }
    let f = match found {
        None => {
            assert(find_named(r0, len as int, name@, off as int) is None);
            return Err("file not found in directory");
        },
        Some(f) => f,
    };
    proof {
        lemma_find_named(r0, len as int, name@, 0);
    }
    let ino = read_le32(raw.as_slice(), f);
    let rl_f = read_le16(raw.as_slice(), f + 4);
    if (rl_f as usize) < len - f {
        let mut scan: usize = 0;
        let mut done = false;
        while !done && scan < f
            invariant
                raw@ == r0,
                n == r0.len(),
                f + 8 <= len <= n,
                rl_f == le16(r0, f + 4),
                ino == le32(r0, f as int),
                r0 == old(raw)@,
                f + rl_f < len,
                find_named(r0, len as int, name@, 0) == Some(f as int),
                remove_fits(r0, len as int, name@),
                !done ==> pred_of(r0, f as int, 0) == pred_of(r0, f as int, scan as int),
                done ==> pred_of(r0, f as int, 0) is None,
            decreases f - scan + (if done { 0int } else { 1int }),
        {
            let rl = read_le16(raw.as_slice(), scan + 4);
            if rl == 0 {
                done = true;
            } else if (rl as usize) == f - scan {
                proof {
                    assert(pred_of(r0, f as int, scan as int) == Some(scan as int));
                    assert(rl + rl_f <= 0xFFFF);
                }
                write_le16(raw, scan + 4, rl + rl_f);
                write_le32(raw, f, 0);
                assert(raw@ =~= removed(r0, len as int, f as int));
                return Ok(ino);
            } else if (rl as usize) > f - scan {
                done = true;
            } else {
                scan = scan + rl as usize;
            }
        }
        assert(pred_of(r0, f as int, 0) is None);
    }
    write_le32(raw, f, 0);
    assert(raw@ =~= removed(r0, len as int, f as int));
    Ok(ino)
}

/// Whether `remove_fits` holds, for checking before `dir_remove_entry`.
pub fn check_remove_fits(raw: &Vec<u8>, len: usize, name: &[u8]) -> (r: bool)
    requires
        len <= raw@.len(),
    ensures
        r == remove_fits(raw@, len as int, name@),
{
    let n = raw.len();
    let ghost r0 = raw@;
    let mut off: usize = 0;
    let mut found: Option<usize> = None;
    while found.is_none() && off < len && len - off >= 8
        invariant
            raw@ == r0,
            n == r0.len(),
            len <= n,
            off <= len,
            match found {
                Some(f) => find_named(r0, len as int, name@, 0) == Some(f as int),
                None => find_named(r0, len as int, name@, 0) == find_named(r0, len as int, name@, off as int),
            },
        decreases len - off + (if found is None { 1int } else { 0int }),
    {
        let ino = read_le32(raw.as_slice(), off);
        let rl = read_le16(raw.as_slice(), off + 4);
        if ino == 0 || rl == 0 {
            off = len;
        } else {
            let nl = raw[off + 6] as usize;
            if nl <= n - (off + 8) && nl == name.len() && bytes_eq(raw, off + 8, name) {
                found = Some(off);
            } else {
                if nl <= n - (off + 8) && nl != name.len() {
                    assert(r0.subrange(off + 8, off + 8 + nl).len() != name@.len());
                }
                if (rl as usize) > len - off {
                    off = len;
                } else {
                    off = off + rl as usize;
                }
            }
        }
    }
    let f = match found {
        None => {
            assert(find_named(r0, len as int, name@, off as int) is None);
            return true;
        },
        Some(f) => f,
    };
    proof {
        lemma_find_named(r0, len as int, name@, 0);
    }
    let rl_f = read_le16(raw.as_slice(), f + 4);
    if (rl_f as usize) >= len - f {
        return true;
    }
    let mut scan: usize = 0;
    while scan < f
        invariant
            raw@ == r0,
            n == r0.len(),
            f + 8 <= len <= n,
            find_named(r0, len as int, name@, 0) == Some(f as int),
            rl_f == le16(r0, f + 4),
            f + rl_f < len,
            pred_of(r0, f as int, 0) == pred_of(r0, f as int, scan as int),
        decreases f - scan,
    {
        let rl = read_le16(raw.as_slice(), scan + 4);
        if rl == 0 || (rl as usize) > f - scan {
            return true;
        }
        if (rl as usize) == f - scan {
            return (rl as u32) + (rl_f as u32) <= 0xFFFF;
        }
        scan = scan + rl as usize;
    }
    true
}

} // verus!
