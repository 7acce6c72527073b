//! The ext2/3 driver's disk operations, written against the blocks an
//! operation has been given so far. An operation that needs a block it has
//! not been given stops and names it; the caller reads that block (or
//! records that it could not) and runs the operation again from the start.
//! Blocks the operation writes go to the cache, where later reads of the
//! same operation see them, and to a log that the caller writes out.

use vstd::prelude::*;
use crate::fs::ext3::{
    Ext3Fs, Inode, BgDescriptor, BlockRef, le16, le32, parse_bg_desc, parse_inode, indirect_entry,
    BG_DESC_SIZE, INODE_SIZE, INDIRECT_BLOCK, S_IFDIR, FT_DIR, FT_REG, copy_to,
};
use crate::net::wire::splice;
use crate::fs::ext3::{dir_entries_from, parse_dir, DirRecord, record_view, file_type_of};
use crate::shell::args::{find_from, find_char, lemma_find_from};
use crate::shell::history::str_eq;
use crate::text::utf8_text;
use vstd::utf8::{valid_utf8, decode_utf8};
use crate::fs::vfs::FsError;
use crate::fs::ext3::{bit_clear, find_clear_bit, set_bit_value, encode_inode, inode_bytes};
use crate::fs::ext3::{
    split_parent, split_parent_spec, check_entry_name, entry_name_ok, rec_len_for, dir_record_bytes,
    dir_add_entry, dir_remove_entry, check_remove_fits, remove_fits, find_named as find_named_record, removed,
    new_file_inode,
};
use vstd::utf8::encode_utf8;
use crate::net::tcp::zeroed;

verus! {

/// What a block holds for an operation: its bytes, or nothing when it could
/// not be read.
pub type Cached = Option<Vec<u8>>;

/// The blocks given to or written by an operation, later entries
/// overriding earlier ones for the same block, and the writes in order.
pub struct BlockCache {
    block_size: usize,
    blocks: Vec<(u32, Cached)>,
    writes: Vec<(u32, Vec<u8>)>,
}

pub open spec fn cached_view(e: (u32, Cached)) -> (u32, Option<Seq<u8>>) {
    (e.0, match e.1 { Some(v) => Some(v@), None => None })
}

/// The latest entry for block `n`: `None` if the block was never given,
/// `Some(None)` if it could not be read.
pub open spec fn blk(d: Seq<(u32, Option<Seq<u8>>)>, n: u32) -> Option<Option<Seq<u8>>>
    decreases d.len(),
{
    if d.len() == 0 {
        None
    } else if d.last().0 == n {
        Some(d.last().1)
    } else {
        blk(d.drop_last(), n)
    }
}

/// The blocks an operation sees, latest last.
pub type Disk = Seq<(u32, Option<Seq<u8>>)>;

/// The writes among appended cache entries.
pub open spec fn writes_in(s: Disk) -> Seq<(u32, Seq<u8>)> {
    s.map_values(|e: (u32, Option<Seq<u8>>)| (e.0, e.1.unwrap()))
}

/// Why an operation stopped before finishing.
#[derive(Debug, Clone, Copy)]
pub enum Stop {
    /// It needs this block.
    Need(u32),
    /// It failed with this message.
    Fail(&'static str),
}

/// Reading block `n`: its bytes, the block to fetch, or the read error.
pub open spec fn read_spec(d: Seq<(u32, Option<Seq<u8>>)>, n: u32) -> Result<Seq<u8>, Stop> {
    match blk(d, n) {
        None => Err(Stop::Need(n)),
        Some(None) => Err(Stop::Fail("ATA read error")),
        Some(Some(b)) => Ok(b),
    }
}

impl BlockCache {
    pub closed spec fn view(&self) -> Seq<(u32, Option<Seq<u8>>)> {
        self.blocks@.map_values(|e: (u32, Cached)| cached_view(e))
    }

    pub closed spec fn log(&self) -> Seq<(u32, Seq<u8>)> {
        self.writes@.map_values(|e: (u32, Vec<u8>)| (e.0, e.1@))
    }

    pub closed spec fn size(&self) -> usize {
        self.block_size
    }

    /// Every block held has the block size.
    pub closed spec fn wf(&self) -> bool {
        forall|i: int| 0 <= i < self.blocks@.len() ==> match #[trigger] self.blocks@[i].1 {
            Some(v) => v@.len() == self.block_size,
            None => true,
        }
    }

    /// `after` extends `before` by writes only, each logged in order.
    pub open spec fn logged(before: &BlockCache, after: &BlockCache) -> bool {
        &&& after@.len() >= before@.len()
        &&& after@.subrange(0, before@.len() as int) == before@
        &&& after.log() == before.log() + writes_in(after@.subrange(before@.len() as int, after@.len() as int))
        &&& after.size() == before.size()
    }

    /// An empty cache for blocks of `block_size` bytes.
    pub fn new(block_size: usize) -> (r: Self)
        ensures
            r.wf(),
            r.size() == block_size,
            r@ == Seq::<(u32, Option<Seq<u8>>)>::empty(),
            r.log() == Seq::<(u32, Seq<u8>)>::empty(),
    {
        let r = BlockCache { block_size, blocks: Vec::new(), writes: Vec::new() };
        assert(r@ =~= Seq::<(u32, Option<Seq<u8>>)>::empty());
        assert(r.log() =~= Seq::<(u32, Seq<u8>)>::empty());
        r
    }

    /// Gives the operation block `n` as read from the disk, or `None` when
    /// the read failed.
    pub fn supply(&mut self, n: u32, data: Option<Vec<u8>>)
        requires
            old(self).wf(),
            data matches Some(v) ==> v@.len() == old(self).size(),
        ensures
            final(self).wf(),
            final(self).size() == old(self).size(),
            final(self)@ == old(self)@.push((n, match data { Some(v) => Some(v@), None => None })),
            final(self).log() == old(self).log(),
    {
        let ghost before = self@;
        self.blocks.push((n, data));
        assert(self@ =~= before.push((n, match data { Some(v) => Some(v@), None => None })));
    }

    /// The blocks written, in order, for the caller to put on the disk.
    pub fn written(&self) -> (r: &Vec<(u32, Vec<u8>)>)
        ensures
            r@.map_values(|e: (u32, Vec<u8>)| (e.0, e.1@)) == self.log(),
    {
        &self.writes
    }

    /// Block `n`: its bytes, or why the operation stops.
    pub fn read(&self, n: u32) -> (r: Result<Vec<u8>, Stop>)
        requires
            self.wf(),
        ensures
            match (r, read_spec(self@, n)) {
                (Ok(v), Ok(b)) => v@ == b && v@.len() == self.size(),
                (Err(e), Err(f)) => e == f,
                _ => false,
            },
    {
        let mut i = self.blocks.len();
        assert(self@.subrange(0, i as int) =~= self@);
        while i > 0
            invariant
                i <= self.blocks@.len(),
                self.wf(),
                blk(self@, n) == blk(self@.subrange(0, i as int), n),
            decreases i,
        {
            let ghost d = self@.subrange(0, i as int);
            assert(d.drop_last() =~= self@.subrange(0, i - 1));
            if self.blocks[i - 1].0 == n {
                return match &self.blocks[i - 1].1 {
                    Some(v) => Ok(vstd::slice::slice_to_vec(v.as_slice())),
                    None => Err(Stop::Fail("ATA read error")),
                };
            }
            i = i - 1;
        }
        Err(Stop::Need(n))
    }

    /// Writes block `n`: later reads see `data`, and the write is logged.
    pub fn write(&mut self, n: u32, data: Vec<u8>)
        requires
            old(self).wf(),
            data@.len() == old(self).size(),
        ensures
            final(self).wf(),
            final(self).size() == old(self).size(),
            final(self)@ == old(self)@.push((n, Some(data@))),
            final(self).log() == old(self).log().push((n, data@)),
    {
        let ghost before = self@;
        let ghost lb = self.log();
        let copy = vstd::slice::slice_to_vec(data.as_slice());
        self.blocks.push((n, Some(data)));
        self.writes.push((n, copy));
        assert(self@ =~= before.push((n, Some(data@))));
        assert(self.log() =~= lb.push((n, data@)));
    }
}


/// The geometry the disk operations rely on: blocks of 1 to 64 KiB made of
/// whole sectors, the descriptor table in block 1 or 2, and inodes in every
/// group.
pub open spec fn geometry_ok(fs: Ext3Fs) -> bool {
    &&& 1024 <= fs.block_size <= 65536
    &&& fs.block_size % 512 == 0
    &&& fs.bg_desc_table_block <= 2
    &&& fs.inodes_per_group > 0
}

/// Whether `geometry_ok` holds.
pub fn check_geometry(fs: &Ext3Fs) -> (r: bool)
    ensures
        r == geometry_ok(*fs),
{
    1024 <= fs.block_size && fs.block_size <= 65536 && fs.block_size % 512 == 0 && fs.bg_desc_table_block <= 2
        && fs.inodes_per_group > 0
}

/// The descriptor of group `group`, read from the descriptor table.
pub open spec fn bg_spec(fs: Ext3Fs, d: Seq<(u32, Option<Seq<u8>>)>, group: u32) -> Result<BgDescriptor, Stop> {
    let per = (fs.block_size / BG_DESC_SIZE) as u32;
    let b = (fs.bg_desc_table_block + group / per) as u32;
    let off = ((group % per) * BG_DESC_SIZE) as int;
    match read_spec(d, b) {
        Err(e) => Err(e),
        Ok(buf) => Ok(BgDescriptor { block_bitmap: le32(buf, off), inode_bitmap: le32(buf, off + 4), inode_table: le32(buf, off + 8) }),
    }
}

fn read_bg_desc(fs: &Ext3Fs, cache: &BlockCache, group: u32) -> (r: Result<BgDescriptor, Stop>)
    requires
        geometry_ok(*fs),
        cache.wf(),
        cache.size() == fs.block_size,
    ensures
        match (r, bg_spec(*fs, cache@, group)) {
            (Ok(a), Ok(b)) => a == b,
            (Err(e), Err(f)) => e == f,
            _ => false,
        },
{
    assert(group / ((fs.block_size / BG_DESC_SIZE) as u32) <= 0xFFFF_FFFFu32 / 32) by (nonlinear_arith)
        requires
            1024 <= fs.block_size <= 65536,
            BG_DESC_SIZE == 32,
    {
        let per = (fs.block_size / 32) as u32;
        assert(per >= 32);
        assert(group / per <= group / 32) by {
            vstd::arithmetic::div_mod::lemma_div_is_ordered_by_denominator(group as int, 32, per as int);
        }
    }
    let (b, off) = fs.bg_desc_location(group);
    let buf = match cache.read(b) {
        Ok(v) => v,
        Err(e) => return Err(e),
    };
    assert(off + BG_DESC_SIZE <= buf@.len()) by (nonlinear_arith)
        requires
            off == (group % ((fs.block_size / BG_DESC_SIZE) as u32)) * BG_DESC_SIZE,
            buf@.len() == fs.block_size,
            1024 <= fs.block_size <= 65536,
            BG_DESC_SIZE == 32,
    {
        let per = (fs.block_size / 32) as u32;
        assert(per > 0);
        assert(group % per < per);
        assert((group % per) * 32 + 32 <= per * 32);
    }
    Ok(parse_bg_desc(buf.as_slice(), off))
}

/// `n` is the inode record at `off` of `buf`.
pub open spec fn inode_is(n: Inode, buf: Seq<u8>, off: int) -> bool {
    &&& n == (Inode { block: n.block, ..crate::fs::ext3::inode_at(buf, off) })
    &&& forall|k: int| 0 <= k < 15 ==> n.block@[k] == le32(buf, off + 40 + 4 * k)
}

/// The inode record at `off` of `buf`.
pub open spec fn inode_of(buf: Seq<u8>, off: int) -> Inode {
    choose|n: Inode| inode_is(n, buf, off)
}

proof fn lemma_inode_of(n: Inode, buf: Seq<u8>, off: int)
    requires
        inode_is(n, buf, off),
    ensures
        inode_of(buf, off) == n,
{
    let m = inode_of(buf, off);
    assert(inode_is(m, buf, off));
    assert(m.block =~= n.block);
}

/// Inode `ino` (counted from 1): its group's descriptor gives the inode
/// table, in which it lies at `(ino - 1) % inodes_per_group`.
pub open spec fn inode_spec(fs: Ext3Fs, d: Seq<(u32, Option<Seq<u8>>)>, ino: u32) -> Result<Inode, Stop> {
    let group = ((ino - 1) / (fs.inodes_per_group as int)) as u32;
    let idx = ((ino - 1) % (fs.inodes_per_group as int)) as u32;
    match bg_spec(fs, d, group) {
        Err(e) => Err(e),
        Ok(bg) => {
            let per = (fs.block_size / INODE_SIZE) as u32;
            let b = bg.inode_table + idx / per;
            if b > u32::MAX {
                Err(Stop::Fail("inode table beyond the disk"))
            } else {
                match read_spec(d, b as u32) {
                    Err(e) => Err(e),
                    Ok(buf) => Ok(inode_of(buf, ((idx % per) * INODE_SIZE) as int)),
                }
            }
        },
    }
}

fn read_inode(fs: &Ext3Fs, cache: &BlockCache, ino: u32) -> (r: Result<Inode, Stop>)
    requires
        geometry_ok(*fs),
        cache.wf(),
        cache.size() == fs.block_size,
        ino >= 1,
    ensures
        match (r, inode_spec(*fs, cache@, ino)) {
            (Ok(a), Ok(b)) => a == b,
            (Err(e), Err(f)) => e == f,
            _ => false,
        },
{
    let (group, idx) = fs.inode_group(ino);
    let bg = match read_bg_desc(fs, cache, group) {
        Ok(g) => g,
        Err(e) => return Err(e),
    };
    let per = (fs.block_size / INODE_SIZE) as u32;
    let step = idx / per;
    if bg.inode_table > u32::MAX - step {
        return Err(Stop::Fail("inode table beyond the disk"));
    }
    let (b, off) = fs.inode_slot(idx, bg.inode_table);
    let buf = match cache.read(b) {
        Ok(v) => v,
        Err(e) => return Err(e),
    };
    assert(off + INODE_SIZE <= buf@.len()) by (nonlinear_arith)
        requires
            off == (idx % per) * INODE_SIZE,
            per == (fs.block_size / INODE_SIZE) as u32,
            buf@.len() == fs.block_size,
            1024 <= fs.block_size <= 65536,
            INODE_SIZE == 116,
    {
        assert(per > 0);
        assert(idx % per < per);
        assert((idx % per) * 116 + 116 <= per * 116);
    }
    let n = parse_inode(buf.as_slice(), off);
    proof {
        lemma_inode_of(n, buf@, off as int);
    }
    Ok(n)
}


/// The disk block holding block `k` of a file: one of the twelve direct
/// pointers, an entry of the single indirect block (a missing indirect
/// block is a hole), nothing beyond.
pub open spec fn file_block_spec(fs: Ext3Fs, d: Seq<(u32, Option<Seq<u8>>)>, n: Inode, k: u32) -> Result<u32, Stop> {
    if k < 12 {
        Ok(n.block@[k as int])
    } else if k - 12 < fs.block_size / 4 {
        let ind = n.block@[INDIRECT_BLOCK as int];
        if ind == 0 {
            Err(Stop::Fail("hole in file"))
        } else {
            match read_spec(d, ind) {
                Err(e) => Err(e),
                Ok(buf) => Ok(le32(buf, 4 * (k - 12))),
            }
        }
    } else {
        Err(Stop::Fail("double indirect not supported"))
    }
}

fn file_block(fs: &Ext3Fs, cache: &BlockCache, n: &Inode, k: u32) -> (r: Result<u32, Stop>)
    requires
        geometry_ok(*fs),
        cache.wf(),
        cache.size() == fs.block_size,
    ensures
        match (r, file_block_spec(*fs, cache@, *n, k)) {
            (Ok(a), Ok(b)) => a == b,
            (Err(e), Err(f)) => e == f,
            _ => false,
        },
{
    match fs.block_ref(n, k) {
        Ok(BlockRef::Direct(b)) => Ok(b),
        Ok(BlockRef::Indirect(ind, i)) => {
            let buf = match cache.read(ind) {
                Ok(v) => v,
                Err(e) => return Err(e),
            };
            Ok(indirect_entry(buf.as_slice(), i))
        },
        Err(e) => Err(Stop::Fail(e)),
    }
}

/// Blocks a file of `size` bytes spans.
pub open spec fn span(size: int, bs: int) -> int {
    (size + bs - 1) / bs
}

/// The file's bytes from its block `k` on, added to `acc`: each block
/// that is not a hole is copied in (up to the file's end), holes stay zero.
pub open spec fn file_from(fs: Ext3Fs, d: Seq<(u32, Option<Seq<u8>>)>, n: Inode, k: nat, acc: Seq<u8>) -> Result<Seq<u8>, Stop>
    decreases span(n.size as int, fs.block_size as int) - k,
{
    if k >= span(n.size as int, fs.block_size as int) || fs.block_size == 0 {
        Ok(acc)
    } else {
        match file_block_spec(fs, d, n, k as u32) {
            Err(e) => Err(e),
            Ok(b) => if b == 0 {
                file_from(fs, d, n, k + 1, acc)
            } else {
                match read_spec(d, b) {
                    Err(e) => Err(e),
                    Ok(buf) => {
                        let off = k * fs.block_size;
                        let len = if n.size - off < fs.block_size { n.size - off } else { fs.block_size as int };
                        file_from(fs, d, n, k + 1, splice(acc, off as int, buf.subrange(0, len)))
                    },
                }
            },
        }
    }
}

/// A file's contents: `size` bytes, zero where it has holes.
pub open spec fn file_spec(fs: Ext3Fs, d: Seq<(u32, Option<Seq<u8>>)>, n: Inode) -> Result<Seq<u8>, Stop> {
    file_from(fs, d, n, 0, Seq::new(n.size as nat, |i: int| 0u8))
}

fn read_file_inode(fs: &Ext3Fs, cache: &BlockCache, n: &Inode) -> (r: Result<Vec<u8>, Stop>)
    requires
        geometry_ok(*fs),
        cache.wf(),
        cache.size() == fs.block_size,
    ensures
        match (r, file_spec(*fs, cache@, *n)) {
            (Ok(a), Ok(b)) => a@ == b,
            (Err(e), Err(f)) => e == f,
            _ => false,
        },
        r matches Ok(a) ==> a@.len() == n.size,
{
    let size = n.size as usize;
    let bs = fs.block_size;
    let total: u64 = n.size as u64 + bs as u64 - 1;
    let blocks64: u64 = total / (bs as u64);
    assert(blocks64 < 0x100_0000) by (nonlinear_arith)
        requires
            blocks64 == total / (bs as u64),
            total <= 0xFFFF_FFFF + 65536,
            bs >= 1024,
    {
        assert((total as int) / (bs as int) <= (total as int) / 1024) by {
            vstd::arithmetic::div_mod::lemma_div_is_ordered_by_denominator(total as int, 1024, bs as int);
        }
    }
    let blocks = blocks64 as usize;
    assert(blocks == span(n.size as int, bs as int));
    let mut buf = zeroed(size);
    let mut k: usize = 0;
    while k < blocks
        invariant
            geometry_ok(*fs),
            cache.wf(),
            cache.size() == fs.block_size,
            bs == fs.block_size,
            size == n.size,
            blocks == span(n.size as int, bs as int),
            k <= blocks,
            buf@.len() == size,
            file_spec(*fs, cache@, *n) == file_from(*fs, cache@, *n, k as nat, buf@),
        decreases blocks - k,
    {
        let b = match file_block(fs, cache, n, k as u32) {
            Ok(b) => b,
            Err(e) => return Err(e),
        };
        if b != 0 {
            let blk = match cache.read(b) {
                Ok(v) => v,
                Err(e) => return Err(e),
            };
            assert(k * bs < size) by (nonlinear_arith)
                requires
                    k < blocks,
                    blocks == (size + bs - 1) / (bs as int),
                    bs >= 1,
            {
                assert(k + 1 <= (size + bs - 1) / (bs as int));
                assert((k + 1) * bs <= size + bs - 1);
            }
            let off = k * bs;
            let len = if size - off < bs { size - off } else { bs };
            let part = vstd::slice::slice_subrange(blk.as_slice(), 0, len);
            copy_to(&mut buf, off, part);
        }
        k = k + 1;
    }
    Ok(buf)
}


/// How a directory listing shows an entry's name: the text its bytes
/// encode, or `<invalid>`.
pub open spec fn name_text(b: Seq<u8>) -> Seq<char> {
    if valid_utf8(b) { decode_utf8(b) } else { "<invalid>"@ }
}

pub open spec fn entry_text(e: (Seq<u8>, u32, u8)) -> (Seq<char>, u32, u8) {
    (name_text(e.0), e.1, e.2)
}

/// The entries of a directory inode: its contents read as a list of
/// records (see `dir_entries_from`), `.` and `..` left out.
pub open spec fn dir_spec(fs: Ext3Fs, d: Seq<(u32, Option<Seq<u8>>)>, n: Inode) -> Result<Seq<(Seq<char>, u32, u8)>, Stop> {
    match file_spec(fs, d, n) {
        Err(e) => Err(e),
        Ok(raw) => Ok(dir_entries_from(raw, n.size as int, 0).map_values(|e: (Seq<u8>, u32, u8)| entry_text(e))),
    }
}

pub open spec fn listing_view(v: Seq<(String, u32, u8)>) -> Seq<(Seq<char>, u32, u8)> {
    v.map_values(|e: (String, u32, u8)| (e.0@, e.1, e.2))
}

proof fn lemma_entries_nonzero(raw: Seq<u8>, len: int, off: int)
    ensures
        forall|i: int| 0 <= i < dir_entries_from(raw, len, off).len() ==> #[trigger] dir_entries_from(raw, len, off)[i].1 != 0,
    decreases len - off,
{
    if off < 0 || !(off < len && off + 8 <= len) {
    } else if le32(raw, off) == 0 || le16(raw, off + 4) == 0 {
    } else {
        let ns = off + 8;
        let ne = ns + raw[off + 6];
        let rest = if off + le16(raw, off + 4) <= len {
            dir_entries_from(raw, len, off + le16(raw, off + 4))
        } else {
            Seq::empty()
        };
        if off + le16(raw, off + 4) <= len {
            lemma_entries_nonzero(raw, len, off + le16(raw, off + 4));
        }
        assert(forall|i: int| 0 <= i < rest.len() ==> #[trigger] rest[i].1 != 0);
        let all = dir_entries_from(raw, len, off);
        if ne <= raw.len() && !crate::fs::ext3::is_dot_name(raw.subrange(ns, ne)) {
            assert(all == seq![(raw.subrange(ns, ne), le32(raw, off), raw[off + 7])] + rest);
            assert forall|i: int| 0 <= i < all.len() implies #[trigger] all[i].1 != 0 by {
                if i > 0 {
                    assert(all[i] == rest[i - 1]);
                }
            }
        } else {
            assert(all == rest);
        }
    }
}

fn read_dir(fs: &Ext3Fs, cache: &BlockCache, n: &Inode) -> (r: Result<Vec<(String, u32, u8)>, Stop>)
    requires
        geometry_ok(*fs),
        cache.wf(),
        cache.size() == fs.block_size,
    ensures
        match (r, dir_spec(*fs, cache@, *n)) {
            (Ok(a), Ok(b)) => listing_view(a@) == b,
            (Err(e), Err(f)) => e == f,
            _ => false,
        },
        r matches Ok(a) ==> forall|i: int| 0 <= i < a@.len() ==> #[trigger] a@[i].1 != 0,
{
    let raw = match read_file_inode(fs, cache, n) {
        Ok(v) => v,
        Err(e) => return Err(e),
    };
    let recs = parse_dir(raw.as_slice(), n.size as usize);
    let ghost all = dir_entries_from(raw@, n.size as int, 0);
    proof {
        lemma_entries_nonzero(raw@, n.size as int, 0);
    }
    let mut out: Vec<(String, u32, u8)> = Vec::new();
    let mut i: usize = 0;
    while i < recs.len()
        invariant
            recs@.map_values(|d: DirRecord| record_view(d)) == all,
            i <= recs@.len(),
            listing_view(out@) == all.subrange(0, i as int).map_values(|e: (Seq<u8>, u32, u8)| entry_text(e)),
            forall|k: int| 0 <= k < all.len() ==> #[trigger] all[k].1 != 0,
            forall|k: int| 0 <= k < out@.len() ==> #[trigger] out@[k].1 != 0,
        decreases recs@.len() - i,
    {
        let rec = &recs[i];
        assert(record_view(recs@[i as int]) == all[i as int]);
        let name = match utf8_text(rec.name.as_slice()) {
            Some(t) => t,
            None => "<invalid>".to_owned(),
        };
        let ghost before = listing_view(out@);
        out.push((name, rec.inode, rec.file_type));
        assert(listing_view(out@) =~= before.push(entry_text(all[i as int])));
        assert(all.subrange(0, i + 1).map_values(|e: (Seq<u8>, u32, u8)| entry_text(e))
            =~= all.subrange(0, i as int).map_values(|e: (Seq<u8>, u32, u8)| entry_text(e)).push(entry_text(all[i as int])));
        i = i + 1;
    }
    assert(all.subrange(0, i as int) =~= all);
    Ok(out)
}

/// The parts of `p` between slashes, from position `i` on.
pub open spec fn parts_from(p: Seq<char>, i: int) -> Seq<Seq<char>>
    decreases p.len() - i,
{
    if i < 0 || i > p.len() {
        Seq::empty()
    } else {
        let j = find_from(p, '/', i);
        if j >= p.len() || j < i {
            seq![p.subrange(i, p.len() as int)]
        } else {
            seq![p.subrange(i, j)] + parts_from(p, j + 1)
        }
    }
}

fn split_slash(s: &str) -> (r: Vec<String>)
    ensures
        r@.map_values(|t: String| t@) == parts_from(s@, 0),
{
    let n = s.unicode_len();
    let mut out: Vec<String> = Vec::new();
    let mut i: usize = 0;
    let ghost all = parts_from(s@, 0);
    let mut done = false;
    while !done
        invariant
            n == s@.len(),
            i <= n,
            all == parts_from(s@, 0),
            !done ==> all == out@.map_values(|t: String| t@) + parts_from(s@, i as int),
            done ==> all == out@.map_values(|t: String| t@),
        decreases n - i + (if done { 0int } else { 1int }),
    {
        let j = find_char(s, '/', i);
        proof {
            lemma_find_from(s@, '/', i as int);
        }
        let part = s.substring_char(i, j).to_owned();
        let ghost before = out@.map_values(|t: String| t@);
        out.push(part);
        assert(out@.map_values(|t: String| t@) =~= before.push(s@.subrange(i as int, j as int)));
        if j >= n {
            assert(parts_from(s@, i as int) == seq![s@.subrange(i as int, n as int)]);
            assert(before + parts_from(s@, i as int) =~= before.push(s@.subrange(i as int, j as int)));
            done = true;
        } else {
            assert(parts_from(s@, i as int) == seq![s@.subrange(i as int, j as int)] + parts_from(s@, j + 1));
            assert(before + parts_from(s@, i as int) =~= before.push(s@.subrange(i as int, j as int)) + parts_from(s@, j + 1));
            i = j + 1;
        }
    }
    out
}

/// The first entry named `name`.
pub open spec fn first_named(entries: Seq<(Seq<char>, u32, u8)>, name: Seq<char>, k: int) -> Option<(u32, u8)>
    decreases entries.len() - k,
{
    if k < 0 || k >= entries.len() {
        None
    } else if entries[k].0 == name {
        Some((entries[k].1, entries[k].2))
    } else {
        first_named(entries, name, k + 1)
    }
}

fn find_named(entries: &Vec<(String, u32, u8)>, name: &str) -> (r: Option<(u32, u8)>)
    ensures
        r == first_named(listing_view(entries@), name@, 0),
        r matches Some((ino, _)) ==> exists|i: int| 0 <= i < entries@.len() && entries@[i].1 == ino,
{
    let mut i: usize = 0;
    while i < entries.len()
        invariant
            i <= entries@.len(),
            first_named(listing_view(entries@), name@, 0) == first_named(listing_view(entries@), name@, i as int),
        decreases entries@.len() - i,
    {
        if str_eq(entries[i].0.as_str(), name) {
            return Some((entries[i].1, entries[i].2));
        }
        i = i + 1;
    }
    None
}

/// The type a walk reports for an inode: directory or regular file.
pub open spec fn kind_of(n: Inode) -> u8 {
    if n.mode & S_IFDIR != 0 { FT_DIR } else { FT_REG }
}

/// Following the parts of a path from part `k` on, starting at inode `ino`:
/// empty parts are skipped; each other part must name an entry of the
/// current directory.
pub open spec fn walk_from(fs: Ext3Fs, d: Seq<(u32, Option<Seq<u8>>)>, ino: u32, n: Inode, parts: Seq<Seq<char>>, k: int)
    -> Result<(u32, Inode, u8), Stop>
    decreases parts.len() - k,
{
    if k < 0 || k >= parts.len() {
        Ok((ino, n, kind_of(n)))
    } else if parts[k].len() == 0 {
        walk_from(fs, d, ino, n, parts, k + 1)
    } else if n.mode & S_IFDIR == 0 {
        Err(Stop::Fail("not a directory"))
    } else {
        match dir_spec(fs, d, n) {
            Err(e) => Err(e),
            Ok(entries) => match first_named(entries, parts[k], 0) {
                None => Err(Stop::Fail("file not found")),
                Some((next, _)) => match inode_spec(fs, d, next) {
                    Err(e) => Err(e),
                    Ok(m) => walk_from(fs, d, next, m, parts, k + 1),
                },
            },
        }
    }
}

/// Walking `path` from inode `start`: the inode reached, with its number
/// and type.
pub open spec fn walk_spec(fs: Ext3Fs, d: Seq<(u32, Option<Seq<u8>>)>, start: u32, path: Seq<char>) -> Result<(u32, Inode, u8), Stop> {
    match inode_spec(fs, d, start) {
        Err(e) => Err(e),
        Ok(n) => if path.len() == 0 || path == "/"@ {
            Ok((start, n, kind_of(n)))
        } else {
            walk_from(fs, d, start, n, parts_from(path, 0), 0)
        },
    }
}

fn walk(fs: &Ext3Fs, cache: &BlockCache, start: u32, path: &str) -> (r: Result<(u32, Inode, u8), Stop>)
    requires
        geometry_ok(*fs),
        cache.wf(),
        cache.size() == fs.block_size,
        start >= 1,
    ensures
        match (r, walk_spec(*fs, cache@, start, path@)) {
            (Ok(a), Ok(b)) => a == b,
            (Err(e), Err(f)) => e == f,
            _ => false,
        },
        r matches Ok(a) ==> a.0 >= 1,
{
    let mut cur_ino = start;
    let mut cur = match read_inode(fs, cache, start) {
        Ok(n) => n,
        Err(e) => return Err(e),
    };
    if path.unicode_len() == 0 || str_eq(path, "/") {
        return Ok((cur_ino, cur, file_type_of(cur.mode)));
    }
    let parts = split_slash(path);
    let ghost pv = parts@.map_values(|t: String| t@);
    let mut k: usize = 0;
    while k < parts.len()
        invariant
            geometry_ok(*fs),
            cache.wf(),
            cache.size() == fs.block_size,
            pv == parts@.map_values(|t: String| t@),
            pv == parts_from(path@, 0),
            k <= parts@.len(),
            cur_ino >= 1,
            walk_spec(*fs, cache@, start, path@) == walk_from(*fs, cache@, cur_ino, cur, pv, k as int),
        decreases parts@.len() - k,
    {
        let part = parts[k].as_str();
        if part.unicode_len() == 0 {
            k = k + 1;
            continue;
        }
        if cur.mode & S_IFDIR == 0 {
            return Err(Stop::Fail("not a directory"));
        }
        let entries = match read_dir(fs, cache, &cur) {
            Ok(e) => e,
            Err(e) => return Err(e),
        };
        match find_named(&entries, part) {
            None => return Err(Stop::Fail("file not found")),
            Some((next, _)) => {
                let m = match read_inode(fs, cache, next) {
                    Ok(m) => m,
                    Err(e) => return Err(e),
                };
                cur_ino = next;
                cur = m;
            },
        }
        k = k + 1;
    }
    Ok((cur_ino, cur, file_type_of(cur.mode)))
}


/// Where an operation stands after a run: finished with its result, or
/// waiting for a block.
pub enum Progress<T> {
    Done(T),
    Need(u32),
}

/// A file's contents by path; a directory is refused.
pub open spec fn read_file_spec(fs: Ext3Fs, d: Seq<(u32, Option<Seq<u8>>)>, path: Seq<char>) -> Progress<Result<Seq<u8>, &'static str>> {
    match walk_spec(fs, d, 2, path) {
        Err(Stop::Need(b)) => Progress::Need(b),
        Err(Stop::Fail(m)) => Progress::Done(Err(m)),
        Ok((_, n, ft)) => if ft == FT_DIR {
            Progress::Done(Err("is a directory"))
        } else {
            match file_spec(fs, d, n) {
                Err(Stop::Need(b)) => Progress::Need(b),
                Err(Stop::Fail(m)) => Progress::Done(Err(m)),
                Ok(data) => Progress::Done(Ok(data)),
            }
        },
    }
}

/// Reads the file at `path` (from the root directory, inode 2).
pub fn read_file(fs: &Ext3Fs, cache: &BlockCache, path: &str) -> (r: Progress<Result<Vec<u8>, &'static str>>)
    requires
        geometry_ok(*fs),
        cache.wf(),
        cache.size() == fs.block_size,
    ensures
        match (r, read_file_spec(*fs, cache@, path@)) {
            (Progress::Need(a), Progress::Need(b)) => a == b,
            (Progress::Done(Ok(a)), Progress::Done(Ok(b))) => a@ == b,
            (Progress::Done(Err(a)), Progress::Done(Err(b))) => a == b,
            _ => false,
        },
{
    match walk(fs, cache, 2, path) {
        Err(Stop::Need(b)) => Progress::Need(b),
        Err(Stop::Fail(m)) => Progress::Done(Err(m)),
        Ok((_, n, ft)) => if ft == FT_DIR {
            Progress::Done(Err("is a directory"))
        } else {
            match read_file_inode(fs, cache, &n) {
                Err(Stop::Need(b)) => Progress::Need(b),
                Err(Stop::Fail(m)) => Progress::Done(Err(m)),
                Ok(data) => Progress::Done(Ok(data)),
            }
        },
    }
}

/// The entries of the directory at `path`; a file is refused.
pub open spec fn list_dir_spec(fs: Ext3Fs, d: Seq<(u32, Option<Seq<u8>>)>, path: Seq<char>)
    -> Progress<Result<Seq<(Seq<char>, u32, u8)>, &'static str>> {
    match walk_spec(fs, d, 2, path) {
        Err(Stop::Need(b)) => Progress::Need(b),
        Err(Stop::Fail(m)) => Progress::Done(Err(m)),
        Ok((_, n, _)) => if n.mode & S_IFDIR == 0 {
            Progress::Done(Err("not a directory"))
        } else {
            match dir_spec(fs, d, n) {
                Err(Stop::Need(b)) => Progress::Need(b),
                Err(Stop::Fail(m)) => Progress::Done(Err(m)),
                Ok(v) => Progress::Done(Ok(v)),
            }
        },
    }
}

/// Lists the directory at `path`: each entry's name, inode and type.
pub fn list_dir(fs: &Ext3Fs, cache: &BlockCache, path: &str) -> (r: Progress<Result<Vec<(String, u32, u8)>, &'static str>>)
    requires
        geometry_ok(*fs),
        cache.wf(),
        cache.size() == fs.block_size,
    ensures
        match (r, list_dir_spec(*fs, cache@, path@)) {
            (Progress::Need(a), Progress::Need(b)) => a == b,
            (Progress::Done(Ok(a)), Progress::Done(Ok(b))) => listing_view(a@) == b,
            (Progress::Done(Err(a)), Progress::Done(Err(b))) => a == b,
            _ => false,
        },
{
    match walk(fs, cache, 2, path) {
        Err(Stop::Need(b)) => Progress::Need(b),
        Err(Stop::Fail(m)) => Progress::Done(Err(m)),
        Ok((_, n, _)) => if n.mode & S_IFDIR == 0 {
            Progress::Done(Err("not a directory"))
        } else {
            match read_dir(fs, cache, &n) {
                Err(Stop::Need(b)) => Progress::Need(b),
                Err(Stop::Fail(m)) => Progress::Done(Err(m)),
                Ok(v) => Progress::Done(Ok(v)),
            }
        },
    }
}

/// The file-system view of a read: a path that does not lead to a file
/// is not found, a failing data read is an I/O error.
pub open spec fn fs_read_spec(fs: Ext3Fs, d: Seq<(u32, Option<Seq<u8>>)>, path: Seq<char>) -> Progress<Result<Seq<u8>, FsError>> {
    match walk_spec(fs, d, 2, path) {
        Err(Stop::Need(b)) => Progress::Need(b),
        Err(Stop::Fail(_)) => Progress::Done(Err(FsError::NotFound)),
        Ok((_, n, ft)) => if ft == FT_DIR {
            Progress::Done(Err(FsError::NotFound))
        } else {
            match file_spec(fs, d, n) {
                Err(Stop::Need(b)) => Progress::Need(b),
                Err(Stop::Fail(_)) => Progress::Done(Err(FsError::Io)),
                Ok(data) => Progress::Done(Ok(data)),
            }
        },
    }
}

/// Reads a file as the file-system interface does (see `fs_read_spec`).
pub fn fs_read(fs: &Ext3Fs, cache: &BlockCache, path: &str) -> (r: Progress<Result<Vec<u8>, FsError>>)
    requires
        geometry_ok(*fs),
        cache.wf(),
        cache.size() == fs.block_size,
    ensures
        match (r, fs_read_spec(*fs, cache@, path@)) {
            (Progress::Need(a), Progress::Need(b)) => a == b,
            (Progress::Done(Ok(a)), Progress::Done(Ok(b))) => a@ == b,
            (Progress::Done(Err(a)), Progress::Done(Err(b))) => a == b,
            _ => false,
        },
{
    match walk(fs, cache, 2, path) {
        Err(Stop::Need(b)) => Progress::Need(b),
        Err(Stop::Fail(_)) => Progress::Done(Err(FsError::NotFound)),
        Ok((_, n, ft)) => if ft == FT_DIR {
            Progress::Done(Err(FsError::NotFound))
        } else {
            match read_file_inode(fs, cache, &n) {
                Err(Stop::Need(b)) => Progress::Need(b),
                Err(Stop::Fail(_)) => Progress::Done(Err(FsError::Io)),
                Ok(data) => Progress::Done(Ok(data)),
            }
        },
    }
}

/// A root entry as the file-system listing shows it: directories get a
/// trailing `/`; sizes are not read and show as 0.
pub open spec fn root_row(e: (Seq<char>, u32, u8)) -> (Seq<char>, usize) {
    (if e.2 == FT_DIR { e.0.push('/') } else { e.0 }, 0usize)
}

/// The root directory listing; nothing when it cannot be read.
pub open spec fn fs_list_spec(fs: Ext3Fs, d: Seq<(u32, Option<Seq<u8>>)>) -> Progress<Seq<(Seq<char>, usize)>> {
    match inode_spec(fs, d, 2) {
        Err(Stop::Need(b)) => Progress::Need(b),
        Err(Stop::Fail(_)) => Progress::Done(Seq::empty()),
        Ok(n) => match dir_spec(fs, d, n) {
            Err(Stop::Need(b)) => Progress::Need(b),
            Err(Stop::Fail(_)) => Progress::Done(Seq::empty()),
            Ok(v) => Progress::Done(v.map_values(|e: (Seq<char>, u32, u8)| root_row(e))),
        },
    }
}

/// Lists the root directory as the file-system interface does.
pub fn fs_list(fs: &Ext3Fs, cache: &BlockCache) -> (r: Progress<Vec<(String, usize)>>)
    requires
        geometry_ok(*fs),
        cache.wf(),
        cache.size() == fs.block_size,
    ensures
        match (r, fs_list_spec(*fs, cache@)) {
            (Progress::Need(a), Progress::Need(b)) => a == b,
            (Progress::Done(a), Progress::Done(b)) => a@.map_values(|e: (String, usize)| (e.0@, e.1)) == b,
            _ => false,
        },
{
    let root = match read_inode(fs, cache, 2) {
        Err(Stop::Need(b)) => return Progress::Need(b),
        Err(Stop::Fail(_)) => {
            let v: Vec<(String, usize)> = Vec::new();
            assert(v@.map_values(|e: (String, usize)| (e.0@, e.1)) =~= Seq::<(Seq<char>, usize)>::empty());
            return Progress::Done(v);
        },
        Ok(n) => n,
    };
    let entries = match read_dir(fs, cache, &root) {
        Err(Stop::Need(b)) => return Progress::Need(b),
        Err(Stop::Fail(_)) => {
            let v: Vec<(String, usize)> = Vec::new();
            assert(v@.map_values(|e: (String, usize)| (e.0@, e.1)) =~= Seq::<(Seq<char>, usize)>::empty());
            return Progress::Done(v);
        },
        Ok(v) => v,
    };
    let ghost lv = listing_view(entries@);
    let mut out: Vec<(String, usize)> = Vec::new();
    let mut i: usize = 0;
    while i < entries.len()
        invariant
            lv == listing_view(entries@),
            i <= entries@.len(),
            out@.map_values(|e: (String, usize)| (e.0@, e.1)) == lv.subrange(0, i as int).map_values(|e: (Seq<char>, u32, u8)| root_row(e)),
        decreases entries@.len() - i,
    {
        let mut name = entries[i].0.clone();
        if entries[i].2 == FT_DIR {
            crate::shell::editor::push_char(&mut name, '/');
        }
        let ghost before = out@.map_values(|e: (String, usize)| (e.0@, e.1));
        assert(lv[i as int] == (entries@[i as int].0@, entries@[i as int].1, entries@[i as int].2));
        out.push((name, 0));
        assert(out@.map_values(|e: (String, usize)| (e.0@, e.1)) =~= before.push(root_row(lv[i as int])));
        assert(lv.subrange(0, i + 1).map_values(|e: (Seq<char>, u32, u8)| root_row(e))
            =~= lv.subrange(0, i as int).map_values(|e: (Seq<char>, u32, u8)| root_row(e)).push(root_row(lv[i as int])));
        i = i + 1;
    }
    assert(lv.subrange(0, i as int) =~= lv);
    Progress::Done(out)
}


proof fn lemma_logged_refl(c: &BlockCache)
    ensures
        BlockCache::logged(c, c),
{
    assert(c@.subrange(0, c@.len() as int) =~= c@);
    assert(writes_in(c@.subrange(c@.len() as int, c@.len() as int)) =~= Seq::<(u32, Seq<u8>)>::empty());
    assert(c.log() + Seq::<(u32, Seq<u8>)>::empty() =~= c.log());
}

proof fn lemma_logged_trans(a: &BlockCache, b: &BlockCache, c: &BlockCache)
    requires
        BlockCache::logged(a, b),
        BlockCache::logged(b, c),
    ensures
        BlockCache::logged(a, c),
{
    assert(c@.subrange(0, a@.len() as int) =~= b@.subrange(0, a@.len() as int));
    let x = b@.subrange(a@.len() as int, b@.len() as int);
    let y = c@.subrange(b@.len() as int, c@.len() as int);
    assert(c@.subrange(a@.len() as int, c@.len() as int) =~= x + y);
    assert(writes_in(x + y) =~= writes_in(x) + writes_in(y));
    assert(a.log() + writes_in(x) + writes_in(y) =~= a.log() + (writes_in(x) + writes_in(y)));
}

proof fn lemma_logged_write(a: &BlockCache, b: &BlockCache, n: u32, data: Seq<u8>)
    requires
        b@ == a@.push((n, Some(data))),
        b.log() == a.log().push((n, data)),
        b.size() == a.size(),
    ensures
        BlockCache::logged(a, b),
{
    assert(b@.subrange(0, a@.len() as int) =~= a@);
    assert(writes_in(b@.subrange(a@.len() as int, b@.len() as int)) =~= seq![(n, data)]);
    assert(a.log().push((n, data)) =~= a.log() + seq![(n, data)]);
}

/// Bit `bit` of `b` set (`value`) or cleared.
pub open spec fn with_bit(b: Seq<u8>, bit: u32, value: bool) -> Seq<u8> {
    b.update((bit / 8) as int, if value {
        b[(bit / 8) as int] | (1u8 << ((bit % 8) as u8))
    } else {
        b[(bit / 8) as int] & !(1u8 << ((bit % 8) as u8))
    })
}

/// Setting or clearing one bit of a bitmap block; a bit past the block
/// fails.
pub open spec fn bitmap_set_spec(fs: Ext3Fs, d: Disk, b: u32, bit: u32, value: bool) -> (Disk, Result<(), Stop>) {
    match read_spec(d, b) {
        Err(e) => (d, Err(e)),
        Ok(buf) => if bit / 8 >= fs.block_size {
            (d, Err(Stop::Fail("bit outside the bitmap")))
        } else {
            (d.push((b, Some(with_bit(buf, bit, value)))), Ok(()))
        },
    }
}

fn bitmap_set(fs: &Ext3Fs, cache: &mut BlockCache, b: u32, bit: u32, value: bool) -> (r: Result<(), Stop>)
    requires
        geometry_ok(*fs),
        old(cache).wf(),
        old(cache).size() == fs.block_size,
    ensures
        final(cache).wf(),
        BlockCache::logged(old(cache), final(cache)),
        final(cache)@ == bitmap_set_spec(*fs, old(cache)@, b, bit, value).0,
        match (r, bitmap_set_spec(*fs, old(cache)@, b, bit, value).1) {
            (Ok(_), Ok(_)) => true,
            (Err(e), Err(f)) => e == f,
            _ => false,
        },
{
    proof { lemma_logged_refl(cache); }
    let mut buf = match cache.read(b) {
        Ok(v) => v,
        Err(e) => return Err(e),
    };
    if (bit / 8) as usize >= fs.block_size {
        return Err(Stop::Fail("bit outside the bitmap"));
    }
    set_bit_value(&mut buf, bit, value);
    let ghost c0 = *cache;
    let ghost nb = buf@;
    cache.write(b, buf);
    proof { lemma_logged_write(&c0, cache, b, nb); }
    Ok(())
}

/// The first clear bit among the first `max_bits` bits of the first `n`
/// bytes of `b`.
pub open spec fn first_clear(b: Seq<u8>, n: int, max_bits: u32) -> Option<u32> {
    if exists|k: u32| k < max_bits && k < 8 * n && bit_clear(b, k as int) {
        Some(choose|k: u32| k < max_bits && k < 8 * n && bit_clear(b, k as int)
            && forall|j: int| 0 <= j < k ==> !bit_clear(b, j))
    } else {
        None
    }
}

proof fn lemma_first_clear(b: Seq<u8>, n: int, max_bits: u32, k: u32)
    requires
        k < max_bits && k < 8 * n && bit_clear(b, k as int),
        forall|j: int| 0 <= j < k ==> !bit_clear(b, j),
    ensures
        first_clear(b, n, max_bits) == Some(k),
{
    let c = choose|k: u32| k < max_bits && k < 8 * n && bit_clear(b, k as int)
        && forall|j: int| 0 <= j < k ==> !bit_clear(b, j);
    assert(c < max_bits && c < 8 * n && bit_clear(b, c as int) && forall|j: int| 0 <= j < c ==> !bit_clear(b, j));
    if c < k {
        assert(!bit_clear(b, c as int));
    }
    if k < c {
        assert(!bit_clear(b, k as int));
    }
}

/// Taking the first clear bit of a bitmap block and setting it.
pub open spec fn bitmap_alloc_spec(fs: Ext3Fs, d: Disk, b: u32, max_bits: u32) -> (Disk, Result<u32, Stop>) {
    match read_spec(d, b) {
        Err(e) => (d, Err(e)),
        Ok(buf) => match first_clear(buf, fs.block_size as int, max_bits) {
            None => (d, Err(Stop::Fail("no free bits in bitmap"))),
            Some(k) => (d.push((b, Some(with_bit(buf, k, true)))), Ok(k)),
        },
    }
}

fn bitmap_alloc(fs: &Ext3Fs, cache: &mut BlockCache, b: u32, max_bits: u32) -> (r: Result<u32, Stop>)
    requires
        geometry_ok(*fs),
        old(cache).wf(),
        old(cache).size() == fs.block_size,
    ensures
        final(cache).wf(),
        BlockCache::logged(old(cache), final(cache)),
        final(cache)@ == bitmap_alloc_spec(*fs, old(cache)@, b, max_bits).0,
        match (r, bitmap_alloc_spec(*fs, old(cache)@, b, max_bits).1) {
            (Ok(x), Ok(y)) => x == y,
            (Err(e), Err(f)) => e == f,
            _ => false,
        },
        r matches Ok(x) ==> x < max_bits,
{
    proof { lemma_logged_refl(cache); }
    let mut buf = match cache.read(b) {
        Ok(v) => v,
        Err(e) => return Err(e),
    };
    match find_clear_bit(buf.as_slice(), fs.block_size, max_bits) {
        None => Err(Stop::Fail("no free bits in bitmap")),
        Some(k) => {
            proof { lemma_first_clear(buf@, fs.block_size as int, max_bits, k); }
            set_bit_value(&mut buf, k, true);
            let ghost c0 = *cache;
            let ghost nb = buf@;
            cache.write(b, buf);
            proof { lemma_logged_write(&c0, cache, b, nb); }
            Ok(k)
        },
    }
}


/// A free block, taken from group 0's block bitmap.
#[verifier::opaque]
pub open spec fn alloc_block_spec(fs: Ext3Fs, d: Disk) -> (Disk, Result<u32, Stop>) {
    match bg_spec(fs, d, 0) {
        Err(e) => (d, Err(e)),
        Ok(bg) => bitmap_alloc_spec(fs, d, bg.block_bitmap, fs.blocks_per_group),
    }
}

fn alloc_block(fs: &Ext3Fs, cache: &mut BlockCache) -> (r: Result<u32, Stop>)
    requires
        geometry_ok(*fs),
        old(cache).wf(),
        old(cache).size() == fs.block_size,
    ensures
        final(cache).wf(),
        BlockCache::logged(old(cache), final(cache)),
        final(cache)@ == alloc_block_spec(*fs, old(cache)@).0,
        match (r, alloc_block_spec(*fs, old(cache)@).1) {
            (Ok(x), Ok(y)) => x == y,
            (Err(e), Err(f)) => e == f,
            _ => false,
        },
        r matches Ok(x) ==> x < fs.blocks_per_group,
{
    reveal(alloc_block_spec);
    proof { lemma_logged_refl(cache); }
    let bg = match read_bg_desc(fs, cache, 0) {
        Ok(g) => g,
        Err(e) => return Err(e),
    };
    bitmap_alloc(fs, cache, bg.block_bitmap, fs.blocks_per_group)
}

/// A free inode, taken from group 0's inode bitmap (numbers start at 1).
#[verifier::opaque]
pub open spec fn alloc_inode_spec(fs: Ext3Fs, d: Disk) -> (Disk, Result<u32, Stop>) {
    match bg_spec(fs, d, 0) {
        Err(e) => (d, Err(e)),
        Ok(bg) => {
            let (d1, r) = bitmap_alloc_spec(fs, d, bg.inode_bitmap, fs.inodes_per_group);
            (d1, match r { Ok(k) => Ok((k + 1) as u32), Err(e) => Err(e) })
        },
    }
}

fn alloc_inode(fs: &Ext3Fs, cache: &mut BlockCache) -> (r: Result<u32, Stop>)
    requires
        geometry_ok(*fs),
        old(cache).wf(),
        old(cache).size() == fs.block_size,
    ensures
        final(cache).wf(),
        BlockCache::logged(old(cache), final(cache)),
        final(cache)@ == alloc_inode_spec(*fs, old(cache)@).0,
        match (r, alloc_inode_spec(*fs, old(cache)@).1) {
            (Ok(x), Ok(y)) => x == y,
            (Err(e), Err(f)) => e == f,
            _ => false,
        },
        r matches Ok(x) ==> x >= 1,
{
    reveal(alloc_inode_spec);
    proof { lemma_logged_refl(cache); }
    let bg = match read_bg_desc(fs, cache, 0) {
        Ok(g) => g,
        Err(e) => return Err(e),
    };
    match bitmap_alloc(fs, cache, bg.inode_bitmap, fs.inodes_per_group) {
        Ok(k) => Ok(k + 1),
        Err(e) => Err(e),
    }
}

/// Marks block `b` free in group 0's block bitmap.
#[verifier::opaque]
pub open spec fn free_block_spec(fs: Ext3Fs, d: Disk, b: u32) -> (Disk, Result<(), Stop>) {
    match bg_spec(fs, d, 0) {
        Err(e) => (d, Err(e)),
        Ok(bg) => bitmap_set_spec(fs, d, bg.block_bitmap, b, false),
    }
}

fn free_block(fs: &Ext3Fs, cache: &mut BlockCache, b: u32) -> (r: Result<(), Stop>)
    requires
        geometry_ok(*fs),
        old(cache).wf(),
        old(cache).size() == fs.block_size,
    ensures
        final(cache).wf(),
        BlockCache::logged(old(cache), final(cache)),
        final(cache)@ == free_block_spec(*fs, old(cache)@, b).0,
        match (r, free_block_spec(*fs, old(cache)@, b).1) {
            (Ok(_), Ok(_)) => true,
            (Err(e), Err(f)) => e == f,
            _ => false,
        },
{
    reveal(free_block_spec);
    proof { lemma_logged_refl(cache); }
    let bg = match read_bg_desc(fs, cache, 0) {
        Ok(g) => g,
        Err(e) => return Err(e),
    };
    bitmap_set(fs, cache, bg.block_bitmap, b, false)
}

/// Marks inode `ino` free in its group's inode bitmap.
#[verifier::opaque]
pub open spec fn free_inode_spec(fs: Ext3Fs, d: Disk, ino: u32) -> (Disk, Result<(), Stop>) {
    let group = ((ino - 1) / (fs.inodes_per_group as int)) as u32;
    let idx = ((ino - 1) % (fs.inodes_per_group as int)) as u32;
    match bg_spec(fs, d, group) {
        Err(e) => (d, Err(e)),
        Ok(bg) => bitmap_set_spec(fs, d, bg.inode_bitmap, idx, false),
    }
}

fn free_inode(fs: &Ext3Fs, cache: &mut BlockCache, ino: u32) -> (r: Result<(), Stop>)
    requires
        geometry_ok(*fs),
        old(cache).wf(),
        old(cache).size() == fs.block_size,
        ino >= 1,
    ensures
        final(cache).wf(),
        BlockCache::logged(old(cache), final(cache)),
        final(cache)@ == free_inode_spec(*fs, old(cache)@, ino).0,
        match (r, free_inode_spec(*fs, old(cache)@, ino).1) {
            (Ok(_), Ok(_)) => true,
            (Err(e), Err(f)) => e == f,
            _ => false,
        },
{
    reveal(free_inode_spec);
    proof { lemma_logged_refl(cache); }
    let (group, idx) = fs.inode_group(ino);
    let bg = match read_bg_desc(fs, cache, group) {
        Ok(g) => g,
        Err(e) => return Err(e),
    };
    bitmap_set(fs, cache, bg.inode_bitmap, idx, false)
}

/// Writes inode `ino`'s record into its place in the inode table.
#[verifier::opaque]
pub open spec fn write_inode_spec(fs: Ext3Fs, d: Disk, ino: u32, n: Inode) -> (Disk, Result<(), Stop>) {
    let group = ((ino - 1) / (fs.inodes_per_group as int)) as u32;
    let idx = ((ino - 1) % (fs.inodes_per_group as int)) as u32;
    match bg_spec(fs, d, group) {
        Err(e) => (d, Err(e)),
        Ok(bg) => {
            let per = (fs.block_size / INODE_SIZE) as u32;
            let b = bg.inode_table + idx / per;
            if b > u32::MAX {
                (d, Err(Stop::Fail("inode table beyond the disk")))
            } else {
                match read_spec(d, b as u32) {
                    Err(e) => (d, Err(e)),
                    Ok(buf) => (d.push((b as u32, Some(splice(buf, ((idx % per) * INODE_SIZE) as int, inode_bytes(n))))), Ok(())),
                }
            }
        },
    }
}

proof fn lemma_slot_fits(idx: u32, bs: int)
    requires
        1024 <= bs <= 65536,
    ensures
        (idx % ((bs / 116) as u32)) * 116 + 116 <= bs,
{
    let per = (bs / 116) as u32;
    assert(per > 0 && per * 116 <= bs) by (nonlinear_arith)
        requires per == (bs / 116) as u32, 1024 <= bs <= 65536;
    assert((idx % per) * 116 + 116 <= per * 116) by (nonlinear_arith)
        requires per > 0;
}

/// Block `b` with `n`'s record written at `off`.
pub open spec fn put_record_spec(d: Disk, b: u32, off: int, n: Inode) -> (Disk, Result<(), Stop>) {
    match read_spec(d, b) {
        Err(e) => (d, Err(e)),
        Ok(buf) => (d.push((b, Some(splice(buf, off, inode_bytes(n))))), Ok(())),
    }
}

fn put_record(cache: &mut BlockCache, b: u32, off: usize, n: &Inode) -> (r: Result<(), Stop>)
    requires
        old(cache).wf(),
        off + INODE_SIZE <= old(cache).size(),
    ensures
        final(cache).wf(),
        BlockCache::logged(old(cache), final(cache)),
        final(cache)@ == put_record_spec(old(cache)@, b, off as int, *n).0,
        match (r, put_record_spec(old(cache)@, b, off as int, *n).1) {
            (Ok(_), Ok(_)) => true,
            (Err(e), Err(f)) => e == f,
            _ => false,
        },
{
    proof { lemma_logged_refl(cache); }
    let mut buf = match cache.read(b) {
        Ok(v) => v,
        Err(e) => return Err(e),
    };
    encode_inode(n, &mut buf, off);
    let ghost c0 = *cache;
    let ghost nb = buf@;
    cache.write(b, buf);
    proof { lemma_logged_write(&c0, cache, b, nb); }
    Ok(())
}

fn write_inode(fs: &Ext3Fs, cache: &mut BlockCache, ino: u32, n: &Inode) -> (r: Result<(), Stop>)
    requires
        geometry_ok(*fs),
        old(cache).wf(),
        old(cache).size() == fs.block_size,
        ino >= 1,
    ensures
        final(cache).wf(),
        BlockCache::logged(old(cache), final(cache)),
        final(cache)@ == write_inode_spec(*fs, old(cache)@, ino, *n).0,
        match (r, write_inode_spec(*fs, old(cache)@, ino, *n).1) {
            (Ok(_), Ok(_)) => true,
            (Err(e), Err(f)) => e == f,
            _ => false,
        },
{
    reveal(write_inode_spec);
    proof { lemma_logged_refl(cache); }
    let (group, idx) = fs.inode_group(ino);
    let bg = match read_bg_desc(fs, cache, group) {
        Ok(g) => g,
        Err(e) => return Err(e),
    };
    let per = (fs.block_size / INODE_SIZE) as u32;
    let step = idx / per;
    if bg.inode_table > u32::MAX - step {
        return Err(Stop::Fail("inode table beyond the disk"));
    }
    let (b, off) = fs.inode_slot(idx, bg.inode_table);
    proof { lemma_slot_fits(idx, fs.block_size as int); }
    put_record(cache, b, off, n)
}


/// `n` with block pointer `k` set to `v`.
pub open spec fn with_block(n: Inode, k: int, v: u32) -> Inode {
    choose|m: Inode| m == (Inode { block: m.block, ..n }) && m.block@ == n.block@.update(k, v)
}

proof fn lemma_with_block(n: Inode, k: int, v: u32, m: Inode)
    requires
        m == (Inode { block: m.block, ..n }),
        m.block@ == n.block@.update(k, v),
    ensures
        with_block(n, k, v) == m,
{
    let c = with_block(n, k, v);
    assert(c == (Inode { block: c.block, ..n }) && c.block@ == n.block@.update(k, v));
    assert(c.block =~= m.block);
}

/// Giving every one of the first `needed` blocks (from `k` on) a disk block:
/// a missing direct block gets a newly allocated one (its number plus
/// one); past the direct blocks the allocation is made and then refused.
pub open spec fn grow_from(fs: Ext3Fs, d: Disk, n: Inode, needed: nat, k: nat) -> (Disk, Result<Inode, Stop>)
    decreases needed - k,
{
    if k >= needed {
        (d, Ok(n))
    } else {
        let existing = if k < 12 { n.block@[k as int] } else { 0u32 };
        if existing != 0 {
            grow_from(fs, d, n, needed, k + 1)
        } else {
            let (d1, r) = alloc_block_spec(fs, d);
            match r {
                Err(e) => (d1, Err(e)),
                Ok(nb) => if k < 12 {
                    grow_from(fs, d1, with_block(n, k as int, (nb + 1) as u32), needed, k + 1)
                } else {
                    (d1, Err(Stop::Fail("no indirect block write support")))
                },
            }
        }
    }
}

/// The block written for part `k` of `data`: its bytes from `k * bs`, up to
/// `bs` of them, then zeros.
pub open spec fn chunk_block(data: Seq<u8>, k: int, bs: int) -> Seq<u8> {
    let off = k * bs;
    let len = if data.len() - off < bs { data.len() - off } else { bs };
    splice(Seq::new(bs as nat, |i: int| 0u8), 0, data.subrange(off, off + len))
}

/// Writing the parts of `data` from `k` on into the file's direct blocks.
pub open spec fn put_from(fs: Ext3Fs, d: Disk, n: Inode, data: Seq<u8>, needed: nat, k: nat) -> (Disk, Result<(), Stop>)
    decreases needed - k,
{
    if k >= needed {
        (d, Ok(()))
    } else if k >= 12 {
        (d, Err(Stop::Fail("indirect not writable")))
    } else {
        put_from(fs, d.push((n.block@[k as int], Some(chunk_block(data, k as int, fs.block_size as int)))), n, data, needed, k + 1)
    }
}

/// Freeing the direct blocks from `k` up to `old_blocks` that the file no
/// longer needs.
pub open spec fn trim_from(fs: Ext3Fs, d: Disk, n: Inode, k: nat, old_blocks: nat) -> (Disk, Result<Inode, Stop>)
    decreases old_blocks - k,
{
    if k >= old_blocks {
        (d, Ok(n))
    } else if k < 12 && n.block@[k as int] != 0 {
        let (d1, r) = free_block_spec(fs, d, n.block@[k as int]);
        match r {
            Err(e) => (d1, Err(e)),
            Ok(_) => trim_from(fs, d1, with_block(n, k as int, 0), k + 1, old_blocks),
        }
    } else {
        trim_from(fs, d, n, k + 1, old_blocks)
    }
}

/// Replacing a file's contents with `data`: blocks are added as needed,
/// the data written block by block, blocks past the new end freed, and the
/// size set.
#[verifier::opaque]
pub open spec fn write_data_spec(fs: Ext3Fs, d: Disk, n: Inode, data: Seq<u8>) -> (Disk, Result<Inode, Stop>) {
    let bs = fs.block_size as int;
    let needed = span(data.len() as int, bs) as nat;
    let (d1, r1) = grow_from(fs, d, n, needed, 0);
    match r1 {
        Err(e) => (d1, Err(e)),
        Ok(n1) => {
            let (d2, r2) = put_from(fs, d1, n1, data, needed, 0);
            match r2 {
                Err(e) => (d2, Err(e)),
                Ok(_) => {
                    let (d3, r3) = trim_from(fs, d2, n1, needed, span(n1.size as int, bs) as nat);
                    match r3 {
                        Err(e) => (d3, Err(e)),
                        Ok(n3) => (d3, Ok(Inode { size: data.len() as u32, ..n3 })),
                    }
                },
            }
        },
    }
}

proof fn lemma_chunk_fits(k: int, needed: int, len: int, bs: int)
    requires
        0 <= k < needed,
        needed == (len + bs - 1) / bs,
        bs >= 1,
        len >= 0,
    ensures
        k * bs < len,
{
    assert(k * bs < len) by (nonlinear_arith)
        requires
            0 <= k < needed,
            needed == (len + bs - 1) / bs,
            bs >= 1,
            len >= 0,
    {
        assert(k + 1 <= (len + bs - 1) / bs);
        assert((k + 1) * bs <= len + bs - 1);
    }
}

fn span_of(len: usize, bs: usize) -> (r: usize)
    requires
        len <= 0xFFFF_FFFF,
        1024 <= bs <= 65536,
    ensures
        r == span(len as int, bs as int),
        r <= 0x100_0000,
{
    let total: u64 = len as u64 + bs as u64 - 1;
    let q: u64 = total / (bs as u64);
    assert(q <= 0x100_0000) by (nonlinear_arith)
        requires
            q == total / (bs as u64),
            total <= 0xFFFF_FFFF + 65536,
            bs >= 1024,
    {
        assert((total as int) / (bs as int) <= (total as int) / 1024) by {
            vstd::arithmetic::div_mod::lemma_div_is_ordered_by_denominator(total as int, 1024, bs as int);
        }
    }
    q as usize
}

fn write_data(fs: &Ext3Fs, cache: &mut BlockCache, n: &mut Inode, data: &[u8]) -> (r: Result<(), Stop>)
    requires
        geometry_ok(*fs),
        old(cache).wf(),
        old(cache).size() == fs.block_size,
        data@.len() <= 0xFFFF_FFFF,
    ensures
        final(cache).wf(),
        BlockCache::logged(old(cache), final(cache)),
        final(cache)@ == write_data_spec(*fs, old(cache)@, *old(n), data@).0,
        match (r, write_data_spec(*fs, old(cache)@, *old(n), data@).1) {
            (Ok(_), Ok(m)) => *final(n) == m,
            (Err(e), Err(f)) => e == f,
            _ => false,
        },
{
    reveal(write_data_spec);
    proof { lemma_logged_refl(cache); }
    let ghost c0 = *cache;
    let ghost n0 = *n;
    let bs = fs.block_size;
    let needed = span_of(data.len(), bs);
    let ghost spec_all = write_data_spec(*fs, c0@, n0, data@);
    let ghost g = grow_from(*fs, c0@, n0, needed as nat, 0);
    let mut k: usize = 0;
    while k < needed
        invariant
            geometry_ok(*fs),
            cache.wf(),
            cache.size() == fs.block_size,
            bs == fs.block_size,
            k <= needed,
            BlockCache::logged(&c0, cache),
            c0 == *old(cache),
            n0 == *old(n),
            spec_all == write_data_spec(*fs, c0@, n0, data@),
            data@.len() <= 0xFFFF_FFFF,
            needed == span(data@.len() as int, bs as int),
            g == grow_from(*fs, c0@, n0, needed as nat, 0),
            g == grow_from(*fs, cache@, *n, needed as nat, k as nat),
            n.size == n0.size,
        decreases needed - k,
    {
        proof { reveal(write_data_spec); }
        let existing: u32 = if k < 12 { n.block[k] } else { 0 };
        if existing == 0 {
            let ghost c1 = *cache;
            let r = alloc_block(fs, cache);
            proof { lemma_logged_trans(&c0, &c1, cache); }
            match r {
                Err(e) => return Err(e),
                Ok(nb) => {
                    if k < 12 {
                        let ghost before = *n;
                        n.block[k] = nb + 1;
                        proof { lemma_with_block(before, k as int, (nb + 1) as u32, *n); }
                    } else {
                        return Err(Stop::Fail("no indirect block write support"));
                    }
                },
            }
        }
        k = k + 1;
    }
    let ghost n1 = *n;
    let ghost c1 = *cache;
    proof { lemma_logged_refl(cache); }
    assert(g == (c1@, Ok::<Inode, Stop>(n1)));
    let ghost p = put_from(*fs, c1@, n1, data@, needed as nat, 0);
    let mut k: usize = 0;
    while k < needed
        invariant
            geometry_ok(*fs),
            cache.wf(),
            cache.size() == fs.block_size,
            bs == fs.block_size,
            k <= needed,
            needed == span(data@.len() as int, bs as int),
            data@.len() <= 0xFFFF_FFFF,
            BlockCache::logged(&c0, cache),
            BlockCache::logged(&c1, cache),
            c0 == *old(cache),
            n0 == *old(n),
            spec_all == write_data_spec(*fs, c0@, n0, data@),
            g == grow_from(*fs, c0@, n0, needed as nat, 0),
            g == (c1@, Ok::<Inode, Stop>(n1)),
            *n == n1,
            p == put_from(*fs, c1@, n1, data@, needed as nat, 0),
            p == put_from(*fs, cache@, n1, data@, needed as nat, k as nat),
        decreases needed - k,
    {
        proof { reveal(write_data_spec); }
        if k >= 12 {
            return Err(Stop::Fail("indirect not writable"));
        }
        let target = n.block[k];
        proof { lemma_chunk_fits(k as int, needed as int, data@.len() as int, bs as int); }
        let off = k * bs;
        let len = if data.len() - off < bs { data.len() - off } else { bs };
        let mut content = zeroed(bs);
        let part = vstd::slice::slice_subrange(data, off, off + len);
        copy_to(&mut content, 0, part);
        assert(content@ == chunk_block(data@, k as int, bs as int));
        let ghost cb = *cache;
        let ghost cv = content@;
        cache.write(target, content);
        proof {
            lemma_logged_write(&cb, cache, target, cv);
            lemma_logged_trans(&c0, &cb, cache);
            lemma_logged_trans(&c1, &cb, cache);
        }
        k = k + 1;
    }
    let ghost c2 = *cache;
    assert(p == (c2@, Ok::<(), Stop>(())));
    let old_blocks = span_of(n.size as usize, bs);
    let ghost t = trim_from(*fs, c2@, n1, needed as nat, old_blocks as nat);
    let mut k: usize = needed;
    while k < old_blocks
        invariant
            geometry_ok(*fs),
            cache.wf(),
            cache.size() == fs.block_size,
            bs == fs.block_size,
            needed <= k || old_blocks <= k || k == needed,
            BlockCache::logged(&c0, cache),
            c0 == *old(cache),
            n0 == *old(n),
            spec_all == write_data_spec(*fs, c0@, n0, data@),
            g == grow_from(*fs, c0@, n0, needed as nat, 0),
            g == (c1@, Ok::<Inode, Stop>(n1)),
            p == put_from(*fs, c1@, n1, data@, needed as nat, 0),
            p == (c2@, Ok::<(), Stop>(())),
            needed == span(data@.len() as int, bs as int),
            old_blocks == span(n1.size as int, bs as int),
            t == trim_from(*fs, c2@, n1, needed as nat, old_blocks as nat),
            t == trim_from(*fs, cache@, *n, k as nat, old_blocks as nat),
            n.size == n1.size,
        decreases old_blocks - k,
    {
        proof { reveal(write_data_spec); }
        if k < 12 && n.block[k] != 0 {
            let ghost cb = *cache;
            let r = free_block(fs, cache, n.block[k]);
            proof { lemma_logged_trans(&c0, &cb, cache); }
            match r {
                Err(e) => return Err(e),
                Ok(_) => {
                    let ghost before = *n;
                    n.block[k] = 0;
                    proof { lemma_with_block(before, k as int, 0, *n); }
                },
            }
        }
        k = k + 1;
    }
    n.size = data.len() as u32;
    Ok(())
}


/// Adding an entry for `name` (inode `ino`, type `ft`) at the end of a
/// directory's data and writing the data back.
#[verifier::opaque]
pub open spec fn dir_add_spec(fs: Ext3Fs, d: Disk, dir: Inode, name: Seq<u8>, ino: u32, ft: u8) -> (Disk, Result<Inode, Stop>) {
    match file_spec(fs, d, dir) {
        Err(e) => (d, Err(e)),
        Ok(raw) => if raw.len() > 0xFFFF_0000 {
            (d, Err(Stop::Fail("directory too large")))
        } else if rec_len_for(name.len() as int) < 12 {
            (d, Err(Stop::Fail("entry too small")))
        } else {
            write_data_spec(fs, d, dir, raw + dir_record_bytes(ino, rec_len_for(name.len() as int) as u16, name, ft))
        },
    }
}

fn dir_add(fs: &Ext3Fs, cache: &mut BlockCache, dir: &mut Inode, name: &[u8], ino: u32, ft: u8) -> (r: Result<(), Stop>)
    requires
        geometry_ok(*fs),
        old(cache).wf(),
        old(cache).size() == fs.block_size,
        name@.len() <= 255,
    ensures
        final(cache).wf(),
        BlockCache::logged(old(cache), final(cache)),
        final(cache)@ == dir_add_spec(*fs, old(cache)@, *old(dir), name@, ino, ft).0,
        match (r, dir_add_spec(*fs, old(cache)@, *old(dir), name@, ino, ft).1) {
            (Ok(_), Ok(m)) => *final(dir) == m,
            (Err(e), Err(f)) => e == f,
            _ => false,
        },
{
    reveal(dir_add_spec);
    proof { lemma_logged_refl(cache); }
    let mut raw = match read_file_inode(fs, cache, dir) {
        Ok(v) => v,
        Err(e) => return Err(e),
    };
    if raw.len() > 0xFFFF_0000 {
        return Err(Stop::Fail("directory too large"));
    }
    match dir_add_entry(&mut raw, name, ino, ft) {
        Err(m) => Err(Stop::Fail(m)),
        Ok(_) => {
            proof {
                assert(dir_record_bytes(ino, rec_len_for(name@.len() as int) as u16, name@, ft).len() <= 266) by {
                    assert(rec_len_for(name@.len() as int) <= 264);
                }
            }
            write_data(fs, cache, dir, raw.as_slice())
        },
    }
}

proof fn lemma_find_named_bounds(raw: Seq<u8>, len: int, name: Seq<u8>, off: int)
    ensures
        find_named_record(raw, len, name, off) matches Some(f) ==> off <= f && f + 8 <= len,
    decreases len - off,
{
    if off < 0 || off + 8 > len {
    } else if le32(raw, off) == 0 || le16(raw, off + 4) == 0 {
    } else if off + 8 + raw[off + 6] <= raw.len() && raw.subrange(off + 8, off + 8 + raw[off + 6]) == name {
    } else if off + le16(raw, off + 4) <= len {
        lemma_find_named_bounds(raw, len, name, off + le16(raw, off + 4));
    }
}

proof fn lemma_pred_bounds(raw: Seq<u8>, target: int, scan: int)
    ensures
        crate::fs::ext3::pred_of(raw, target, scan) matches Some(p) ==> scan <= p < target,
    decreases target - scan,
{
    if scan < 0 || scan >= target || le16(raw, scan + 4) == 0 {
    } else if scan + le16(raw, scan + 4) == target {
    } else if scan + le16(raw, scan + 4) > target {
    } else {
        lemma_pred_bounds(raw, target, scan + le16(raw, scan + 4));
    }
}

/// Removing the entry named `name` from a directory's data and writing the
/// data back; gives the directory inode and the removed entry's inode.
#[verifier::opaque]
pub open spec fn dir_remove_spec(fs: Ext3Fs, d: Disk, dir: Inode, name: Seq<u8>) -> (Disk, Result<(Inode, u32), Stop>) {
    match file_spec(fs, d, dir) {
        Err(e) => (d, Err(e)),
        Ok(raw) => if !remove_fits(raw, dir.size as int, name) {
            (d, Err(Stop::Fail("directory record too long")))
        } else {
            match find_named_record(raw, dir.size as int, name, 0) {
                None => (d, Err(Stop::Fail("file not found in directory"))),
                Some(f) => {
                    let (d1, r) = write_data_spec(fs, d, dir, removed(raw, dir.size as int, f));
                    match r {
                        Err(e) => (d1, Err(e)),
                        Ok(m) => (d1, Ok((m, le32(raw, f)))),
                    }
                },
            }
        },
    }
}

fn dir_remove(fs: &Ext3Fs, cache: &mut BlockCache, dir: &mut Inode, name: &[u8]) -> (r: Result<u32, Stop>)
    requires
        geometry_ok(*fs),
        old(cache).wf(),
        old(cache).size() == fs.block_size,
    ensures
        final(cache).wf(),
        BlockCache::logged(old(cache), final(cache)),
        final(cache)@ == dir_remove_spec(*fs, old(cache)@, *old(dir), name@).0,
        match (r, dir_remove_spec(*fs, old(cache)@, *old(dir), name@).1) {
            (Ok(x), Ok((m, y))) => *final(dir) == m && x == y,
            (Err(e), Err(f)) => e == f,
            _ => false,
        },
{
    reveal(dir_remove_spec);
    proof { lemma_logged_refl(cache); }
    let mut raw = match read_file_inode(fs, cache, dir) {
        Ok(v) => v,
        Err(e) => return Err(e),
    };
    let len = dir.size as usize;
    if !check_remove_fits(&raw, len, name) {
        return Err(Stop::Fail("directory record too long"));
    }
    let ghost raw0 = raw@;
    match dir_remove_entry(&mut raw, len, name) {
        Err(m) => Err(Stop::Fail(m)),
        Ok(ino) => {
            assert(raw@.len() == raw0.len()) by {
                let f = find_named_record(raw0, len as int, name@, 0)->0;
                lemma_find_named_bounds(raw0, len as int, name@, 0);
                lemma_pred_bounds(raw0, f, 0);
                assert(removed(raw0, len as int, f).len() == raw0.len());
            }
            match write_data(fs, cache, dir, raw.as_slice()) {
                Err(e) => Err(e),
                Ok(_) => Ok(ino),
            }
        },
    }
}


/// A new empty regular file's inode: mode 0100644, one link, all else zero.
pub open spec fn is_fresh(m: Inode) -> bool {
    &&& m.mode == 0x81A4
    &&& m.links_count == 1
    &&& m.size == 0
    &&& m.uid == 0 && m.gid == 0 && m.atime == 0 && m.ctime == 0 && m.mtime == 0 && m.dtime == 0
    &&& m.sectors == 0 && m.flags == 0 && m.osd1 == 0 && m.generation == 0 && m.file_acl == 0
    &&& m.size_high == 0 && m.faddr == 0
    &&& forall|k: int| 0 <= k < 15 ==> m.block@[k] == 0
}

pub open spec fn fresh_inode() -> Inode {
    choose|m: Inode| is_fresh(m)
}

proof fn lemma_fresh(m: Inode)
    requires
        is_fresh(m),
    ensures
        fresh_inode() == m,
{
    let c = fresh_inode();
    assert(is_fresh(c));
    assert(c.block =~= m.block);
}

/// Whether some entry is named `name`.
pub open spec fn has_entry(entries: Seq<(Seq<char>, u32, u8)>, name: Seq<char>) -> bool {
    exists|i: int| 0 <= i < entries.len() && (#[trigger] entries[i]).0 == name
}

/// The creation once the parent is known: a new inode is allocated and
/// written, the entry added to the parent and the parent's inode written.
#[verifier::opaque]
pub open spec fn create_tail_spec(fs: Ext3Fs, d: Disk, pino: u32, pn: Inode, name: Seq<char>) -> (Disk, Result<(), Stop>) {
    let (d1, r1) = alloc_inode_spec(fs, d);
    match r1 {
        Err(e) => (d1, Err(e)),
        Ok(ino) => {
            let (d2, r2) = write_inode_spec(fs, d1, ino, fresh_inode());
            match r2 {
                Err(e) => (d2, Err(e)),
                Ok(_) => {
                    let (d3, r3) = dir_add_spec(fs, d2, pn, encode_utf8(name), ino, FT_REG);
                    match r3 {
                        Err(e) => (d3, Err(e)),
                        Ok(pn2) => write_inode_spec(fs, d3, pino, pn2),
                    }
                },
            }
        },
    }
}

#[verifier::opaque]
/// Creating an empty regular file: the path splits into a parent
/// directory and a name; the parent must be a directory without an entry
/// of that name; a new inode is allocated and written, the entry added
/// and the parent's inode written back.
pub open spec fn create_spec(fs: Ext3Fs, d: Disk, path: Seq<char>) -> (Disk, Result<(), Stop>) {
    match split_parent_spec(path) {
        Err(m) => (d, Err(Stop::Fail(m))),
        Ok((parent, name)) => if !entry_name_ok(name) {
            (d, Err(Stop::Fail("invalid name")))
        } else {
            match walk_spec(fs, d, 2, parent) {
                Err(e) => (d, Err(e)),
                Ok((pino, pn, _)) => if pn.mode & S_IFDIR == 0 {
                    (d, Err(Stop::Fail("parent not a directory")))
                } else {
                    match dir_spec(fs, d, pn) {
                        Err(e) => (d, Err(e)),
                        Ok(entries) => if has_entry(entries, name) {
                            (d, Err(Stop::Fail("file exists")))
                        } else {
                            create_tail_spec(fs, d, pino, pn, name)
                        },
                    }
                },
            }
        },
    }
}

fn any_named(entries: &Vec<(String, u32, u8)>, name: &str) -> (r: bool)
    ensures
        r == has_entry(listing_view(entries@), name@),
{
    let mut i: usize = 0;
    while i < entries.len()
        invariant
            i <= entries@.len(),
            forall|j: int| 0 <= j < i ==> (#[trigger] entries@[j]).0@ != name@,
        decreases entries@.len() - i,
    {
        if str_eq(entries[i].0.as_str(), name) {
            assert(listing_view(entries@)[i as int].0 == name@);
            return true;
        }
        i = i + 1;
    }
    assert forall|j: int| 0 <= j < listing_view(entries@).len() implies #[trigger] listing_view(entries@)[j].0 != name@ by {
        assert(listing_view(entries@)[j].0 == entries@[j].0@);
    }
    false
}

fn create_tail(fs: &Ext3Fs, cache: &mut BlockCache, pino: u32, pn: Inode, name: &str) -> (r: Result<(), Stop>)
    requires
        geometry_ok(*fs),
        old(cache).wf(),
        old(cache).size() == fs.block_size,
        pino >= 1,
        entry_name_ok(name@),
    ensures
        final(cache).wf(),
        BlockCache::logged(old(cache), final(cache)),
        final(cache)@ == create_tail_spec(*fs, old(cache)@, pino, pn, name@).0,
        match (r, create_tail_spec(*fs, old(cache)@, pino, pn, name@).1) {
            (Ok(_), Ok(_)) => true,
            (Err(e), Err(f)) => e == f,
            _ => false,
        },
{
    reveal(create_tail_spec);
    proof { lemma_logged_refl(cache); }
    let ghost c0 = *cache;
    let mut pn = pn;
    let ino = match alloc_inode(fs, cache) {
        Err(e) => return Err(e),
        Ok(i) => i,
    };
    let ghost c1 = *cache;
    let fresh = new_file_inode();
    proof { lemma_fresh(fresh); }
    let r2 = write_inode(fs, cache, ino, &fresh);
    proof { lemma_logged_trans(&c0, &c1, cache); }
    if let Err(e) = r2 {
        return Err(e);
    }
    let ghost c2 = *cache;
    let r3 = dir_add(fs, cache, &mut pn, name.as_bytes(), ino, FT_REG);
    proof { lemma_logged_trans(&c0, &c2, cache); }
    if let Err(e) = r3 {
        return Err(e);
    }
    let ghost c3 = *cache;
    let r4 = write_inode(fs, cache, pino, &pn);
    proof { lemma_logged_trans(&c0, &c3, cache); }
    r4
}

fn create_in(fs: &Ext3Fs, cache: &mut BlockCache, path: &str) -> (r: Result<(), Stop>)
    requires
        geometry_ok(*fs),
        old(cache).wf(),
        old(cache).size() == fs.block_size,
    ensures
        final(cache).wf(),
        BlockCache::logged(old(cache), final(cache)),
        final(cache)@ == create_spec(*fs, old(cache)@, path@).0,
        match (r, create_spec(*fs, old(cache)@, path@).1) {
            (Ok(_), Ok(_)) => true,
            (Err(e), Err(f)) => e == f,
            _ => false,
        },
{
    reveal(create_spec);
    proof { lemma_logged_refl(cache); }
    let ghost c0 = *cache;
    let (parent, name) = match split_parent(path) {
        Err(m) => return Err(Stop::Fail(m)),
        Ok(p) => p,
    };
    if !check_entry_name(name) {
        return Err(Stop::Fail("invalid name"));
    }
    let (pino, pn, _) = match walk(fs, cache, 2, parent) {
        Err(e) => return Err(e),
        Ok(w) => w,
    };
    if pn.mode & S_IFDIR == 0 {
        return Err(Stop::Fail("parent not a directory"));
    }
    let entries = match read_dir(fs, cache, &pn) {
        Err(e) => return Err(e),
        Ok(v) => v,
    };
    if any_named(&entries, name) {
        return Err(Stop::Fail("file exists"));
    }
    create_tail(fs, cache, pino, pn, name)
}


/// Writing `data` over the file at `path`, which must exist and not be a
/// directory; its inode is written back.
#[verifier::opaque]
pub open spec fn write_existing_spec(fs: Ext3Fs, d: Disk, path: Seq<char>, data: Seq<u8>) -> (Disk, Result<(), Stop>) {
    match walk_spec(fs, d, 2, path) {
        Err(e) => (d, Err(e)),
        Ok((ino, n, ft)) => if ft == FT_DIR {
            (d, Err(Stop::Fail("cannot write to directory")))
        } else {
            let (d1, r1) = write_data_spec(fs, d, n, data);
            match r1 {
                Err(e) => (d1, Err(e)),
                Ok(m) => write_inode_spec(fs, d1, ino, m),
            }
        },
    }
}

fn write_existing(fs: &Ext3Fs, cache: &mut BlockCache, path: &str, data: &[u8]) -> (r: Result<(), Stop>)
    requires
        geometry_ok(*fs),
        old(cache).wf(),
        old(cache).size() == fs.block_size,
        data@.len() <= 0xFFFF_FFFF,
    ensures
        final(cache).wf(),
        BlockCache::logged(old(cache), final(cache)),
        final(cache)@ == write_existing_spec(*fs, old(cache)@, path@, data@).0,
        match (r, write_existing_spec(*fs, old(cache)@, path@, data@).1) {
            (Ok(_), Ok(_)) => true,
            (Err(e), Err(f)) => e == f,
            _ => false,
        },
{
    reveal(write_existing_spec);
    proof { lemma_logged_refl(cache); }
    let ghost c0 = *cache;
    let (ino, mut n, ft) = match walk(fs, cache, 2, path) {
        Err(e) => return Err(e),
        Ok(w) => w,
    };
    if ft == FT_DIR {
        return Err(Stop::Fail("cannot write to directory"));
    }
    let r1 = write_data(fs, cache, &mut n, data);
    if let Err(e) = r1 {
        return Err(e);
    }
    let ghost c1 = *cache;
    let r2 = write_inode(fs, cache, ino, &n);
    proof { lemma_logged_trans(&c0, &c1, cache); }
    r2
}

/// Writing a file: a path that does not lead anywhere is created first.
pub open spec fn write_spec(fs: Ext3Fs, d: Disk, path: Seq<char>, data: Seq<u8>) -> (Disk, Result<(), Stop>) {
    match walk_spec(fs, d, 2, path) {
        Err(Stop::Need(b)) => (d, Err(Stop::Need(b))),
        Err(Stop::Fail(_)) => {
            let (d1, r1) = create_spec(fs, d, path);
            match r1 {
                Err(e) => (d1, Err(e)),
                Ok(_) => write_existing_spec(fs, d1, path, data),
            }
        },
        Ok(_) => write_existing_spec(fs, d, path, data),
    }
}

/// Freeing a file's direct data blocks from block `k` on.
pub open spec fn free_data_from(fs: Ext3Fs, d: Disk, n: Inode, k: nat, blocks: nat) -> (Disk, Result<(), Stop>)
    decreases blocks - k,
{
    if k >= blocks {
        (d, Ok(()))
    } else if k < 12 && n.block@[k as int] != 0 {
        let (d1, r) = free_block_spec(fs, d, n.block@[k as int]);
        match r {
            Err(e) => (d1, Err(e)),
            Ok(_) => free_data_from(fs, d1, n, k + 1, blocks),
        }
    } else {
        free_data_from(fs, d, n, k + 1, blocks)
    }
}

/// Deleting the regular file at `path` once both it and its parent are
/// found: its data blocks and inode are freed, its entry removed from the
/// parent, and the parent's inode written back.
#[verifier::opaque]
pub open spec fn delete_tail_spec(fs: Ext3Fs, d: Disk, pino: u32, pn: Inode, ino: u32, fnode: Inode, name: Seq<char>)
    -> (Disk, Result<(), Stop>) {
    let (d1, r1) = free_data_from(fs, d, fnode, 0, span(fnode.size as int, fs.block_size as int) as nat);
    match r1 {
        Err(e) => (d1, Err(e)),
        Ok(_) => {
            let (d2, r2) = free_inode_spec(fs, d1, ino);
            match r2 {
                Err(e) => (d2, Err(e)),
                Ok(_) => {
                    let (d3, r3) = dir_remove_spec(fs, d2, pn, encode_utf8(name));
                    match r3 {
                        Err(e) => (d3, Err(e)),
                        Ok((pn2, _)) => write_inode_spec(fs, d3, pino, pn2),
                    }
                },
            }
        },
    }
}

/// Deleting a regular file: the parent and the file are looked up, a
/// directory is refused.
#[verifier::opaque]
pub open spec fn delete_spec(fs: Ext3Fs, d: Disk, path: Seq<char>) -> (Disk, Result<(), Stop>) {
    match split_parent_spec(path) {
        Err(m) => (d, Err(Stop::Fail(m))),
        Ok((parent, name)) => match walk_spec(fs, d, 2, parent) {
            Err(e) => (d, Err(e)),
            Ok((pino, pn, _)) => match walk_spec(fs, d, 2, path) {
                Err(e) => (d, Err(e)),
                Ok((ino, fnode, _)) => if fnode.mode & S_IFDIR != 0 {
                    (d, Err(Stop::Fail("cannot delete directory (not implemented)")))
                } else {
                    delete_tail_spec(fs, d, pino, pn, ino, fnode, name)
                },
            },
        },
    }
}

fn delete_tail(fs: &Ext3Fs, cache: &mut BlockCache, pino: u32, pn: Inode, ino: u32, fnode: &Inode, name: &str)
    -> (r: Result<(), Stop>)
    requires
        geometry_ok(*fs),
        old(cache).wf(),
        old(cache).size() == fs.block_size,
        pino >= 1,
        ino >= 1,
    ensures
        final(cache).wf(),
        BlockCache::logged(old(cache), final(cache)),
        final(cache)@ == delete_tail_spec(*fs, old(cache)@, pino, pn, ino, *fnode, name@).0,
        match (r, delete_tail_spec(*fs, old(cache)@, pino, pn, ino, *fnode, name@).1) {
            (Ok(_), Ok(_)) => true,
            (Err(e), Err(f)) => e == f,
            _ => false,
        },
{
    reveal(delete_tail_spec);
    proof { lemma_logged_refl(cache); }
    let ghost c0 = *cache;
    let mut pn = pn;
    let blocks = span_of(fnode.size as usize, fs.block_size);
    let ghost fd = free_data_from(*fs, c0@, *fnode, 0, blocks as nat);
    let mut k: usize = 0;
    while k < blocks
        invariant
            geometry_ok(*fs),
            cache.wf(),
            cache.size() == fs.block_size,
            k <= blocks,
            BlockCache::logged(&c0, cache),
            c0 == *old(cache),
            blocks == span(fnode.size as int, fs.block_size as int),
            fd == free_data_from(*fs, c0@, *fnode, 0, blocks as nat),
            fd == free_data_from(*fs, cache@, *fnode, k as nat, blocks as nat),
        decreases blocks - k,
    {
        proof { reveal(delete_tail_spec); }
        if k < 12 && fnode.block[k] != 0 {
            let ghost cb = *cache;
            let r = free_block(fs, cache, fnode.block[k]);
            proof { lemma_logged_trans(&c0, &cb, cache); }
            if let Err(e) = r {
                return Err(e);
            }
        }
        k = k + 1;
    }
    let ghost c1 = *cache;
    let r2 = free_inode(fs, cache, ino);
    proof { lemma_logged_trans(&c0, &c1, cache); }
    if let Err(e) = r2 {
        return Err(e);
    }
    let ghost c2 = *cache;
    let r3 = dir_remove(fs, cache, &mut pn, name.as_bytes());
    proof { lemma_logged_trans(&c0, &c2, cache); }
    if let Err(e) = r3 {
        return Err(e);
    }
    let ghost c3 = *cache;
    let r4 = write_inode(fs, cache, pino, &pn);
    proof { lemma_logged_trans(&c0, &c3, cache); }
    r4
}

fn delete_in(fs: &Ext3Fs, cache: &mut BlockCache, path: &str) -> (r: Result<(), Stop>)
    requires
        geometry_ok(*fs),
        old(cache).wf(),
        old(cache).size() == fs.block_size,
    ensures
        final(cache).wf(),
        BlockCache::logged(old(cache), final(cache)),
        final(cache)@ == delete_spec(*fs, old(cache)@, path@).0,
        match (r, delete_spec(*fs, old(cache)@, path@).1) {
            (Ok(_), Ok(_)) => true,
            (Err(e), Err(f)) => e == f,
            _ => false,
        },
{
    reveal(delete_spec);
    proof { lemma_logged_refl(cache); }
    let (parent, name) = match split_parent(path) {
        Err(m) => return Err(Stop::Fail(m)),
        Ok(p) => p,
    };
    let (pino, pn, _) = match walk(fs, cache, 2, parent) {
        Err(e) => return Err(e),
        Ok(w) => w,
    };
    let (ino, fnode, _) = match walk(fs, cache, 2, path) {
        Err(e) => return Err(e),
        Ok(w) => w,
    };
    if fnode.mode & S_IFDIR != 0 {
        return Err(Stop::Fail("cannot delete directory (not implemented)"));
    }
    delete_tail(fs, cache, pino, pn, ino, &fnode, name)
}

/// The outcome of a run of a writing operation: finished (with the cache's
/// writes to put on the disk) or waiting for a block.
pub open spec fn outcome(r: Result<(), Stop>) -> Progress<Result<(), &'static str>> {
    match r {
        Err(Stop::Need(b)) => Progress::Need(b),
        Err(Stop::Fail(m)) => Progress::Done(Err(m)),
        Ok(_) => Progress::Done(Ok(())),
    }
}

fn to_progress(r: Result<(), Stop>) -> (p: Progress<Result<(), &'static str>>)
    ensures
        p == outcome(r),
{
    match r {
        Err(Stop::Need(b)) => Progress::Need(b),
        Err(Stop::Fail(m)) => Progress::Done(Err(m)),
        Ok(_) => Progress::Done(Ok(())),
    }
}

/// Creates an empty regular file at `path` (see `create_spec`).
pub fn create_file(fs: &Ext3Fs, cache: &mut BlockCache, path: &str) -> (r: Progress<Result<(), &'static str>>)
    requires
        geometry_ok(*fs),
        old(cache).wf(),
        old(cache).size() == fs.block_size,
    ensures
        final(cache).wf(),
        BlockCache::logged(old(cache), final(cache)),
        final(cache)@ == create_spec(*fs, old(cache)@, path@).0,
        r == outcome(create_spec(*fs, old(cache)@, path@).1),
{
    let r = create_in(fs, cache, path);
    to_progress(r)
}

/// Writes `data` as the contents of the file at `path`, creating it if
/// needed (see `write_spec`).
pub fn write_file(fs: &Ext3Fs, cache: &mut BlockCache, path: &str, data: &[u8]) -> (r: Progress<Result<(), &'static str>>)
    requires
        geometry_ok(*fs),
        old(cache).wf(),
        old(cache).size() == fs.block_size,
        data@.len() <= 0xFFFF_FFFF,
    ensures
        final(cache).wf(),
        BlockCache::logged(old(cache), final(cache)),
        final(cache)@ == write_spec(*fs, old(cache)@, path@, data@).0,
        r == outcome(write_spec(*fs, old(cache)@, path@, data@).1),
{
    proof { lemma_logged_refl(cache); }
    let ghost c0 = *cache;
    match walk(fs, cache, 2, path) {
        Err(Stop::Need(b)) => Progress::Need(b),
        Err(Stop::Fail(_)) => {
            let r1 = create_in(fs, cache, path);
            match r1 {
                Err(e) => to_progress(Err(e)),
                Ok(_) => {
                    let ghost c1 = *cache;
                    let r2 = write_existing(fs, cache, path, data);
                    proof { lemma_logged_trans(&c0, &c1, cache); }
                    to_progress(r2)
                },
            }
        },
        Ok(_) => {
            let r = write_existing(fs, cache, path, data);
            to_progress(r)
        },
    }
}

/// Deletes the regular file at `path` (see `delete_spec`).
pub fn delete_file(fs: &Ext3Fs, cache: &mut BlockCache, path: &str) -> (r: Progress<Result<(), &'static str>>)
    requires
        geometry_ok(*fs),
        old(cache).wf(),
        old(cache).size() == fs.block_size,
    ensures
        final(cache).wf(),
        BlockCache::logged(old(cache), final(cache)),
        final(cache)@ == delete_spec(*fs, old(cache)@, path@).0,
        r == outcome(delete_spec(*fs, old(cache)@, path@).1),
{
    let r = delete_in(fs, cache, path);
    to_progress(r)
}

/// The file-system view of a writing operation: any failure is an I/O
/// error.
pub fn io_result(r: Progress<Result<(), &'static str>>) -> (p: Progress<Result<(), FsError>>)
    ensures
        match r {
            Progress::Need(b) => p == Progress::<Result<(), FsError>>::Need(b),
            Progress::Done(Ok(_)) => p == Progress::<Result<(), FsError>>::Done(Ok(())),
            Progress::Done(Err(_)) => p == Progress::<Result<(), FsError>>::Done(Err(FsError::Io)),
        },
{
    match r {
        Progress::Need(b) => Progress::Need(b),
        Progress::Done(Ok(_)) => Progress::Done(Ok(())),
        Progress::Done(Err(_)) => Progress::Done(Err(FsError::Io)),
    }
}


/// What an operation reads of a block it wrote is what it wrote.
pub proof fn read_after_write(d: Disk, n: u32, data: Seq<u8>)
    ensures
        read_spec(d.push((n, Some(data))), n) == Ok::<Seq<u8>, Stop>(data),
{
    assert(d.push((n, Some(data))).drop_last() =~= d);
}

/// Writing block `n` leaves what is read of every other block unchanged.
pub proof fn write_keeps_other_blocks(d: Disk, n: u32, data: Seq<u8>, other: u32)
    requires
        other != n,
    ensures
        read_spec(d.push((n, Some(data))), other) == read_spec(d, other),
{
    assert(d.push((n, Some(data))).drop_last() =~= d);
}


/// `with_block` changes the block pointer it names and nothing else.
proof fn lemma_with_block_fields(n: Inode, k: int, v: u32)
    requires
        0 <= k < 15,
    ensures
        with_block(n, k, v) == (Inode { block: with_block(n, k, v).block, ..n }),
        with_block(n, k, v).block@ == n.block@.update(k, v),
{
    broadcast use vstd::array::axiom_spec_array_update;
    let w = Inode { block: vstd::array::spec_array_update(n.block, k, v), ..n };
    lemma_with_block(n, k, v, w);
}

/// Growing a file leaves its size as it was.
proof fn lemma_grow_keeps_size(fs: Ext3Fs, d: Disk, n: Inode, needed: nat, k: nat)
    ensures
        grow_from(fs, d, n, needed, k).1 matches Ok(m) ==> m.size == n.size,
    decreases needed - k,
{
    if k < needed {
        let existing = if k < 12 { n.block@[k as int] } else { 0u32 };
        if existing != 0 {
            lemma_grow_keeps_size(fs, d, n, needed, k + 1);
        } else {
            let (d1, r) = alloc_block_spec(fs, d);
            if let Ok(nb) = r {
                if k < 12 {
                    lemma_with_block_fields(n, k as int, (nb + 1) as u32);
                    lemma_grow_keeps_size(fs, d1, with_block(n, k as int, (nb + 1) as u32), needed, k + 1);
                }
            }
        }
    }
}

/// The writes of the data's parts from `k` on, in order.
pub open spec fn part_writes(fs: Ext3Fs, n: Inode, data: Seq<u8>, needed: nat, k: nat) -> Disk {
    Seq::new((needed - k) as nat, |j: int| (n.block@[k + j], Some(chunk_block(data, k + j, fs.block_size as int))))
}

/// Writing the parts succeeds only within the direct blocks, and appends
/// one write per part.
proof fn lemma_put_from(fs: Ext3Fs, d: Disk, n: Inode, data: Seq<u8>, needed: nat, k: nat)
    requires
        k <= needed,
        put_from(fs, d, n, data, needed, k).1 is Ok,
    ensures
        needed <= 12 || k == needed,
        put_from(fs, d, n, data, needed, k).0 == d + part_writes(fs, n, data, needed, k),
    decreases needed - k,
{
    if k < needed {
        let w = (n.block@[k as int], Some(chunk_block(data, k as int, fs.block_size as int)));
        lemma_put_from(fs, d.push(w), n, data, needed, k + 1);
        assert(d.push(w) + part_writes(fs, n, data, needed, k + 1) =~= d + part_writes(fs, n, data, needed, k));
    } else {
        assert(part_writes(fs, n, data, needed, k) =~= Seq::<(u32, Option<Seq<u8>>)>::empty());
        assert(d + part_writes(fs, n, data, needed, k) =~= d);
    }
}

/// A block written once among appended entries reads as that write.
proof fn lemma_blk_appended(d: Disk, s: Disk, x: u32, i: int)
    requires
        0 <= i < s.len(),
        s[i].0 == x,
        forall|j: int| i < j < s.len() ==> (#[trigger] s[j]).0 != x,
    ensures
        blk(d + s, x) == Some(s[i].1),
    decreases s.len(),
{
    assert((d + s).last() == s.last());
    if i < s.len() - 1 {
        assert((d + s).drop_last() =~= d + s.drop_last());
        assert(s.drop_last()[i] == s[i]);
        assert forall|j: int| i < j < s.drop_last().len() implies (#[trigger] s.drop_last()[j]).0 != x by {
            assert(s.drop_last()[j] == s[j]);
        }
        lemma_blk_appended(d, s.drop_last(), x, i);
    }
}

/// The file's bytes read so far: the data up to `upto`, zeros after.
pub open spec fn filled(data: Seq<u8>, upto: int) -> Seq<u8> {
    Seq::new(data.len(), |i: int| if i < upto { data[i] } else { 0u8 })
}

/// Reading a file whose blocks from `k` on hold the data's parts gives the
/// data.
proof fn lemma_file_from_parts(fs: Ext3Fs, d: Disk, m: Inode, data: Seq<u8>, k: nat)
    requires
        geometry_ok(fs),
        m.size == data.len(),
        span(data.len() as int, fs.block_size as int) <= 12,
        k <= span(data.len() as int, fs.block_size as int),
        forall|j: int| k <= j < span(data.len() as int, fs.block_size as int) ==> m.block@[j] != 0
            && read_spec(d, #[trigger] m.block@[j]) == Ok::<Seq<u8>, Stop>(chunk_block(data, j, fs.block_size as int)),
    ensures
        file_from(fs, d, m, k, filled(data, k * fs.block_size)) == Ok::<Seq<u8>, Stop>(data),
    decreases span(m.size as int, fs.block_size as int) - k,
{
    let bs = fs.block_size as int;
    let len = data.len() as int;
    let needed = span(len, bs);
    if k >= needed {
        assert(k * bs >= len) by (nonlinear_arith)
            requires
                k >= needed,
                needed == (len + bs - 1) / bs,
                bs >= 1,
                len >= 0,
        {
            vstd::arithmetic::div_mod::lemma_fundamental_div_mod(len + bs - 1, bs);
            assert(bs * needed + (len + bs - 1) % bs == len + bs - 1);
            assert(k * bs >= needed * bs);
        }
        assert(filled(data, k * fs.block_size) =~= data);
    } else {
        lemma_chunk_fits(k as int, needed, len, bs);
        let b = m.block@[k as int];
        assert(read_spec(d, b) == Ok::<Seq<u8>, Stop>(chunk_block(data, k as int, bs)));
        assert(file_block_spec(fs, d, m, k as u32) == Ok::<u32, Stop>(b));
        let off = k * bs;
        let part = if len - off < bs { len - off } else { bs };
        let chunk = chunk_block(data, k as int, bs);
        assert(chunk.subrange(0, part) =~= data.subrange(off, off + part));
        assert((k + 1) * bs == off + bs) by (nonlinear_arith)
            requires
                off == k * bs;
        let next = splice(filled(data, off), off, chunk.subrange(0, part));
        assert(next =~= filled(data, (k + 1) * fs.block_size));
        lemma_file_from_parts(fs, d, m, data, k + 1);
    }
}

/// Entries appended after `d` that all go to block `b`.
pub open spec fn appended_to(d: Disk, e: Disk, b: u32) -> bool {
    &&& e.len() >= d.len()
    &&& e.subrange(0, d.len() as int) == d
    &&& forall|i: int| d.len() <= i < e.len() ==> (#[trigger] e[i]).0 == b
}

/// Entries appended for other blocks leave what is read of `x` unchanged.
proof fn lemma_blk_other_appended(d: Disk, e: Disk, b: u32, x: u32)
    requires
        appended_to(d, e, b),
        x != b,
    ensures
        blk(e, x) == blk(d, x),
    decreases e.len(),
{
    if e.len() > d.len() {
        assert(e.drop_last().subrange(0, d.len() as int) =~= d);
        lemma_blk_other_appended(d, e.drop_last(), b, x);
    } else {
        assert(e =~= d);
    }
}

/// Group 0's descriptor is read the same after writes to other blocks.
proof fn lemma_bg_kept(fs: Ext3Fs, d: Disk, e: Disk, b: u32)
    requires
        geometry_ok(fs),
        appended_to(d, e, b),
        b != fs.bg_desc_table_block,
    ensures
        bg_spec(fs, e, 0) == bg_spec(fs, d, 0),
{
    let per = (fs.block_size / BG_DESC_SIZE) as u32;
    assert(per > 0);
    assert(0u32 / per == 0);
    lemma_blk_other_appended(d, e, b, fs.bg_desc_table_block);
}

/// Appending in two steps to the same block appends to it.
proof fn lemma_appended_trans(d: Disk, e: Disk, f: Disk, b: u32)
    requires
        appended_to(d, e, b),
        appended_to(e, f, b),
    ensures
        appended_to(d, f, b),
{
    assert(f.subrange(0, d.len() as int) =~= f.subrange(0, e.len() as int).subrange(0, d.len() as int));
    assert forall|i: int| d.len() <= i < f.len() implies (#[trigger] f[i]).0 == b by {
        if i < e.len() {
            assert(f[i] == f.subrange(0, e.len() as int)[i]);
        }
    }
}

/// Taking a free block writes group 0's block bitmap only.
proof fn lemma_alloc_writes(fs: Ext3Fs, d: Disk, bg: BgDescriptor)
    requires
        bg_spec(fs, d, 0) == Ok::<BgDescriptor, Stop>(bg),
    ensures
        appended_to(d, alloc_block_spec(fs, d).0, bg.block_bitmap),
{
    reveal(alloc_block_spec);
    let d1 = alloc_block_spec(fs, d).0;
    assert(d1.subrange(0, d.len() as int) =~= d);
}

/// Marking a block free writes group 0's block bitmap only.
proof fn lemma_free_writes(fs: Ext3Fs, d: Disk, b: u32, bg: BgDescriptor)
    requires
        bg_spec(fs, d, 0) == Ok::<BgDescriptor, Stop>(bg),
    ensures
        appended_to(d, free_block_spec(fs, d, b).0, bg.block_bitmap),
{
    reveal(free_block_spec);
    let d1 = free_block_spec(fs, d, b).0;
    assert(d1.subrange(0, d.len() as int) =~= d);
}

/// Growing a file writes group 0's block bitmap and nothing else.
proof fn lemma_grow_writes(fs: Ext3Fs, d: Disk, n: Inode, needed: nat, k: nat, bg: BgDescriptor)
    requires
        geometry_ok(fs),
        bg_spec(fs, d, 0) == Ok::<BgDescriptor, Stop>(bg),
        bg.block_bitmap != fs.bg_desc_table_block,
    ensures
        appended_to(d, grow_from(fs, d, n, needed, k).0, bg.block_bitmap),
    decreases needed - k,
{
    let e = grow_from(fs, d, n, needed, k).0;
    if k >= needed {
        assert(e.subrange(0, d.len() as int) =~= d);
    } else {
        let existing = if k < 12 { n.block@[k as int] } else { 0u32 };
        if existing != 0 {
            lemma_grow_writes(fs, d, n, needed, k + 1, bg);
        } else {
            let (d1, r) = alloc_block_spec(fs, d);
            lemma_alloc_writes(fs, d, bg);
            match r {
                Err(_) => {},
                Ok(nb) => if k < 12 {
                    lemma_bg_kept(fs, d, d1, bg.block_bitmap);
                    lemma_grow_writes(fs, d1, with_block(n, k as int, (nb + 1) as u32), needed, k + 1, bg);
                    lemma_appended_trans(d, d1, e, bg.block_bitmap);
                },
            }
        }
    }
}

/// Cutting a file down keeps its block pointers below `k`.
proof fn lemma_trim_keeps_blocks(fs: Ext3Fs, d: Disk, n: Inode, k: nat, old_blocks: nat)
    requires
        trim_from(fs, d, n, k, old_blocks).1 is Ok,
    ensures
        forall|j: int| 0 <= j < k && j < 15 ==> (#[trigger] trim_from(fs, d, n, k, old_blocks).1->Ok_0.block@[j]) == n.block@[j],
    decreases old_blocks - k,
{
    if k < old_blocks {
        if k < 12 && n.block@[k as int] != 0 {
            let (d1, r) = free_block_spec(fs, d, n.block@[k as int]);
            let n1 = with_block(n, k as int, 0);
            lemma_with_block_fields(n, k as int, 0);
            lemma_trim_keeps_blocks(fs, d1, n1, k + 1, old_blocks);
            assert forall|j: int| 0 <= j < k && j < 15 implies (#[trigger] trim_from(fs, d, n, k, old_blocks).1->Ok_0.block@[j]) == n.block@[j] by {
                assert(n1.block@[j] == n.block@[j]);
            }
        } else {
            lemma_trim_keeps_blocks(fs, d, n, k + 1, old_blocks);
        }
    }
}

/// Cutting a file down writes group 0's block bitmap and nothing else.
proof fn lemma_trim_writes(fs: Ext3Fs, d: Disk, n: Inode, k: nat, old_blocks: nat, bg: BgDescriptor)
    requires
        geometry_ok(fs),
        bg_spec(fs, d, 0) == Ok::<BgDescriptor, Stop>(bg),
        bg.block_bitmap != fs.bg_desc_table_block,
    ensures
        appended_to(d, trim_from(fs, d, n, k, old_blocks).0, bg.block_bitmap),
    decreases old_blocks - k,
{
    let e = trim_from(fs, d, n, k, old_blocks).0;
    if k >= old_blocks {
        assert(e.subrange(0, d.len() as int) =~= d);
    } else if k < 12 && n.block@[k as int] != 0 {
        let (d1, r) = free_block_spec(fs, d, n.block@[k as int]);
        lemma_free_writes(fs, d, n.block@[k as int], bg);
        lemma_bg_kept(fs, d, d1, bg.block_bitmap);
        match r {
            Err(_) => {},
            Ok(_) => {
                let n1 = with_block(n, k as int, 0);
                lemma_trim_writes(fs, d1, n1, k + 1, old_blocks, bg);
                lemma_appended_trans(d, d1, e, bg.block_bitmap);
            },
        }
    } else {
        lemma_trim_writes(fs, d, n, k + 1, old_blocks, bg);
    }
}

/// Entries appended for blocks other than `x` leave what is read of `x`
/// unchanged.
proof fn lemma_blk_avoid(d: Disk, s: Disk, x: u32)
    requires
        forall|i: int| 0 <= i < s.len() ==> (#[trigger] s[i]).0 != x,
    ensures
        blk(d + s, x) == blk(d, x),
    decreases s.len(),
{
    if s.len() == 0 {
        assert(d + s =~= d);
    } else {
        assert((d + s).drop_last() =~= d + s.drop_last());
        assert((d + s).last() == s.last());
        assert forall|i: int| 0 <= i < s.drop_last().len() implies (#[trigger] s.drop_last()[i]).0 != x by {
            assert(s.drop_last()[i] == s[i]);
        }
        lemma_blk_avoid(d, s.drop_last(), x);
    }
}

/// What is read of a file after its data is replaced is the new data,
/// where the direct blocks the file ends up with are all set and all
/// different, and, if the file loses blocks (which marks them free in group
/// 0's block bitmap), that bitmap and the descriptor table are blocks of
/// their own.
pub proof fn write_data_then_read(fs: Ext3Fs, d: Disk, n: Inode, data: Seq<u8>)
    requires
        geometry_ok(fs),
        data.len() <= u32::MAX,
        write_data_spec(fs, d, n, data).1 is Ok,
        forall|j: int| 0 <= j < span(data.len() as int, fs.block_size as int)
            ==> (#[trigger] write_data_spec(fs, d, n, data).1->Ok_0.block@[j]) != 0,
        forall|i: int, j: int| 0 <= i < j < span(data.len() as int, fs.block_size as int)
            ==> write_data_spec(fs, d, n, data).1->Ok_0.block@[i] != write_data_spec(fs, d, n, data).1->Ok_0.block@[j],
        span(data.len() as int, fs.block_size as int) < span(n.size as int, fs.block_size as int) ==> {
            &&& bg_spec(fs, d, 0) is Ok
            &&& bg_spec(fs, d, 0)->Ok_0.block_bitmap != fs.bg_desc_table_block
            &&& forall|j: int| 0 <= j < span(data.len() as int, fs.block_size as int) ==> {
                &&& (#[trigger] write_data_spec(fs, d, n, data).1->Ok_0.block@[j]) != bg_spec(fs, d, 0)->Ok_0.block_bitmap
                &&& write_data_spec(fs, d, n, data).1->Ok_0.block@[j] != fs.bg_desc_table_block
            }
        },
    ensures
        file_spec(fs, write_data_spec(fs, d, n, data).0, write_data_spec(fs, d, n, data).1->Ok_0)
            == Ok::<Seq<u8>, Stop>(data),
{
    reveal(write_data_spec);
    let bs = fs.block_size as int;
    let needed = span(data.len() as int, bs) as nat;
    let (d1, r1) = grow_from(fs, d, n, needed, 0);
    let n1 = r1->Ok_0;
    lemma_grow_keeps_size(fs, d, n, needed, 0);
    let (d2, r2) = put_from(fs, d1, n1, data, needed, 0);
    lemma_put_from(fs, d1, n1, data, needed, 0);
    let old_blocks = span(n1.size as int, bs) as nat;
    let (d3, r3) = trim_from(fs, d2, n1, needed, old_blocks);
    let n3 = r3->Ok_0;
    let m = Inode { size: data.len() as u32, ..n3 };
    let w = write_data_spec(fs, d, n, data).1->Ok_0;
    assert(write_data_spec(fs, d, n, data) == (d3, Ok::<Inode, Stop>(m)));
    assert(w == m);
    let s = part_writes(fs, n1, data, needed, 0);
    if needed < old_blocks {
        let bg = bg_spec(fs, d, 0)->Ok_0;
        lemma_grow_writes(fs, d, n, needed, 0, bg);
        lemma_bg_kept(fs, d, d1, bg.block_bitmap);
        assert forall|i: int| 0 <= i < s.len() implies (#[trigger] s[i]).0 != fs.bg_desc_table_block by {
            assert(s[i].0 == n1.block@[i]);
            lemma_trim_keeps_blocks(fs, d2, n1, needed, old_blocks);
            assert(n3.block@[i] == n1.block@[i]);
            assert(w.block@[i] != fs.bg_desc_table_block);
        }
        lemma_blk_avoid(d1, s, fs.bg_desc_table_block);
        assert(bg_spec(fs, d2, 0) == bg_spec(fs, d1, 0)) by {
            let per = (fs.block_size / BG_DESC_SIZE) as u32;
            assert(per > 0);
            assert(0u32 / per == 0);
        }
        lemma_trim_writes(fs, d2, n1, needed, old_blocks, bg);
    } else {
        assert(d3 == d2 && n3 == n1);
    }
    assert forall|j: int| 0 <= j < needed implies m.block@[j] == n1.block@[j] by {
        lemma_trim_keeps_blocks(fs, d2, n1, needed, old_blocks);
        assert(n3.block@[j] == n1.block@[j]);
    }
    assert forall|i: int, j: int| 0 <= i < j < needed implies #[trigger] m.block@[i] != #[trigger] m.block@[j] by {
        assert(w.block@[i] != w.block@[j]);
    }
    assert forall|j: int| 0 <= j < needed implies m.block@[j] != 0
        && read_spec(d3, #[trigger] m.block@[j]) == Ok::<Seq<u8>, Stop>(chunk_block(data, j, bs)) by {
        assert(w.block@[j] != 0);
        assert(s[j].0 == m.block@[j]);
        assert forall|i: int| j < i < s.len() implies (#[trigger] s[i]).0 != m.block@[j] by {
            assert(s[i].0 == n1.block@[i]);
            assert(m.block@[j] != m.block@[i]);
        }
        lemma_blk_appended(d1, s, m.block@[j], j);
        if needed < old_blocks {
            let bg = bg_spec(fs, d, 0)->Ok_0;
            lemma_trim_writes(fs, d2, n1, needed, old_blocks, bg);
            assert(w.block@[j] != bg.block_bitmap);
            lemma_blk_other_appended(d2, d3, bg.block_bitmap, m.block@[j]);
        }
    }
    assert(filled(data, 0 * fs.block_size) =~= Seq::new(m.size as nat, |i: int| 0u8));
    lemma_file_from_parts(fs, d3, m, data, 0);
}

} // verus!
