//! The FAT32 volume driver: cluster chains in the file-allocation table,
//! 32-byte directory entries, and file operations built on them.
//!
//! The disk is a trait over 512-byte sector reads and writes; its hardware
//! implementation (ATA port I/O) lives outside this crate, while `MemDisk`
//! is an in-memory disk the logic runs against.  Names are handled as
//! bytes: a short name is the classic 11-byte 8.3 form.

use vstd::prelude::*;

verus! {

use vstd::string::StringSliceAdditionalSpecFns;

/// The number of bytes in one sector.
pub const SECTOR_SIZE: usize = 512;

/// First FAT value that marks the end of a cluster chain.
pub const CHAIN_END: u32 = 0x0FFF_FFF8;

/// The FAT value written to terminate a chain.
pub const CHAIN_END_MARK: u32 = 0x0FFF_FFFF;

/// The mask hiding the four reserved high bits of a FAT entry.
pub const FAT_ENTRY_MASK: u32 = 0x0FFF_FFFF;

/// A disk of 512-byte sectors.  `sector` is the model: the bytes every
/// sector holds, total over all sector numbers.
pub trait BlockDevice: Sized {
    /// The bytes of each sector.  A hardware device outside the verifier
    /// leaves this at the default: nothing is then known of its contents.
    open spec fn sector(&self, lba: u32) -> Seq<u8> {
        vstd::pervasive::arbitrary()
    }

    /// Whether the device is in working shape; every sector then holds
    /// exactly 512 bytes.  The default claims nothing, so a device that
    /// keeps the default cannot back a verified volume.
    open spec fn dev_wf(&self) -> bool {
        false
    }


    /// Read one sector.
    fn read_sector(&mut self, lba: u32) -> (r: Vec<u8>)
        requires
            old(self).dev_wf(),
        ensures
            final(self).dev_wf(),
            forall|l: u32| final(self).sector(l) == old(self).sector(l),
            r@ == old(self).sector(lba),
    ;

    /// Write one sector.
    fn write_sector(&mut self, lba: u32, buf: &Vec<u8>)
        requires
            old(self).dev_wf(),
            buf@.len() == 512,
        ensures
            final(self).dev_wf(),
            final(self).sector(lba) == buf@,
            forall|l: u32| l != lba ==> final(self).sector(l) == old(self).sector(l),
    ;
}

/// Every sector of the device holds exactly 512 bytes.
pub open spec fn sectors_sized<D: BlockDevice>(dev: D) -> bool {
    forall|l: u32| (#[trigger] dev.sector(l)).len() == 512
}

/// An all-zero sector.
pub open spec fn zero_sector() -> Seq<u8> {
    Seq::new(512, |i: int| 0u8)
}

/// A disk held in memory: sector `l` is row `l` of the vector, and
/// everything past the end reads as zeroes.
pub struct MemDisk {
    pub rows: Vec<Vec<u8>>,
}

impl MemDisk {
    /// A disk with `count` zeroed sectors.
    pub fn new(count: usize) -> (r: MemDisk)
        ensures
            r.dev_wf(),
            sectors_sized(r),
            r.rows@.len() == count,
            forall|l: u32| r.sector(l) == zero_sector(),
    {
        let mut rows: Vec<Vec<u8>> = Vec::new();
        let mut i: usize = 0;
        while i < count
            invariant
                i <= count,
                rows@.len() == i,
                forall|k: int| 0 <= k < i ==> (#[trigger] rows@[k])@ == zero_sector(),
            decreases count - i,
        {
            rows.push(zero_row());
            i = i + 1;
        }
        MemDisk { rows }
    }
}

/// One zeroed 512-byte row.
fn zero_row() -> (r: Vec<u8>)
    ensures
        r@ == zero_sector(),
{
    let mut row: Vec<u8> = Vec::new();
    let mut j: usize = 0;
    while j < SECTOR_SIZE
        invariant
            j <= 512,
            row@.len() == j,
            forall|k: int| 0 <= k < j ==> row@[k] == 0u8,
        decreases 512 - j,
    {
        row.push(0u8);
        j = j + 1;
    }
    proof {
        assert(row@ =~= zero_sector());
    }
    row
}

impl BlockDevice for MemDisk {
    open spec fn sector(&self, lba: u32) -> Seq<u8> {
        if lba < self.rows@.len() {
            self.rows@[lba as int]@
        } else {
            zero_sector()
        }
    }

    open spec fn dev_wf(&self) -> bool {
        forall|k: int| 0 <= k < self.rows@.len() ==> (#[trigger] self.rows@[k])@.len() == 512
    }

    fn read_sector(&mut self, lba: u32) -> (r: Vec<u8>) {
        if (lba as usize) < self.rows.len() {
            let row = &self.rows[lba as usize];
            let mut out: Vec<u8> = Vec::new();
            let mut j: usize = 0;
            let n = row.len();
            while j < n
                invariant
                    j <= n,
                    n == row@.len(),
                    out@.len() == j,
                    forall|k: int| 0 <= k < j ==> out@[k] == row@[k],
                decreases n - j,
            {
                out.push(row[j]);
                j = j + 1;
            }
            proof {
                assert(out@ =~= row@);
            }
            out
        } else {
            zero_row()
        }
    }

    fn write_sector(&mut self, lba: u32, buf: &Vec<u8>) {
        let ghost pre = *old(self);
        if (lba as usize) < self.rows.len() {
            let mut copy: Vec<u8> = Vec::new();
            let mut j: usize = 0;
            while j < SECTOR_SIZE
                invariant
                    j <= 512,
                    buf@.len() == 512,
                    copy@.len() == j,
                    forall|k: int| 0 <= k < j ==> copy@[k] == buf@[k],
                decreases 512 - j,
            {
                copy.push(buf[j]);
                j = j + 1;
            }
            proof {
                assert(copy@ =~= buf@);
            }
            self.rows[lba as usize] = copy;
            proof {
                assert forall|k: int| 0 <= k < self.rows@.len() implies (
                #[trigger] self.rows@[k])@.len() == 512 by {
                    if k != lba as int {
                        assert(self.rows@[k] == old(self).rows@[k]);
                    }
                }
            }
        } else {
            // Writes past the end grow the disk with zeroed sectors first.
            while self.rows.len() <= lba as usize
                invariant
                    pre.dev_wf(),
                    self.rows@.len() >= pre.rows@.len(),
                    forall|k: int| 0 <= k < pre.rows@.len() ==> self.rows@[k] == pre.rows@[k],
                    forall|k: int|
                        pre.rows@.len() <= k < self.rows@.len() ==> (#[trigger] self.rows@[k])@
                            == zero_sector(),
                decreases lba as int + 1 - self.rows@.len(),
            {
                self.rows.push(zero_row());
            }
            let mut copy: Vec<u8> = Vec::new();
            let mut j: usize = 0;
            while j < SECTOR_SIZE
                invariant
                    j <= 512,
                    buf@.len() == 512,
                    copy@.len() == j,
                    forall|k: int| 0 <= k < j ==> copy@[k] == buf@[k],
                decreases 512 - j,
            {
                copy.push(buf[j]);
                j = j + 1;
            }
            proof {
                assert(copy@ =~= buf@);
            }
            let ghost grown = *self;
            self.rows[lba as usize] = copy;
            proof {
                assert forall|k: int| 0 <= k < self.rows@.len() implies (
                #[trigger] self.rows@[k])@.len() == 512 by {
                    if k != lba as int {
                        assert(self.rows@[k] == grown.rows@[k]);
                        if k < pre.rows@.len() {
                            assert(grown.rows@[k] == pre.rows@[k]);
                        } else {
                            assert((grown.rows@[k])@ == zero_sector());
                        }
                    }
                }
                assert forall|l: u32| l != lba implies self.sector(l) == pre.sector(l) by {}
            }
        }
    }
}

/// The 32-bit little-endian value at offset `i` of a sector.
pub open spec fn le32_at(s: Seq<u8>, i: int) -> u32 {
    ((s[i] as int) + (s[i + 1] as int) * 0x100 + (s[i + 2] as int) * 0x1_0000 + (s[i + 3] as int)
        * 0x100_0000) as u32
}

/// The 16-bit little-endian value at offset `i` of a sector.
pub open spec fn le16_at(s: Seq<u8>, i: int) -> u16 {
    ((s[i] as int) + (s[i + 1] as int) * 0x100) as u16
}

/// One 8.3 directory entry, decoded: the raw 11-byte name, the attribute
/// byte, the two halves of the starting cluster, and the file size.
#[derive(Debug, Clone)]
pub struct DirectoryEntry {
    pub name: Vec<u8>,
    pub attr: u8,
    pub cluster_high: u16,
    pub cluster_low: u16,
    pub file_size: u32,
}

impl DirectoryEntry {
    /// Whether the entry names a directory: attribute bit 0x10.
    pub fn is_directory(&self) -> (r: bool)
        ensures
            r == (self.attr & 0x10 != 0),
    {
        self.attr & 0x10 != 0
    }

    /// The first cluster of the entry's data: the two 16-bit halves
    /// joined.
    pub fn starting_cluster(&self) -> (r: u32)
        ensures
            r == self.spec_starting_cluster(),
    {
        proof {
            let h = self.cluster_high;
            let l = self.cluster_low;
            assert(((h as u32) << 16u32) == (h as u32) * 0x1_0000 && (h as u32) * 0x1_0000 + (
            l as u32) < 0x1_0000_0000 && (((h as u32) << 16u32) | (l as u32)) == ((h as u32)
                << 16u32) + (l as u32)) by (bit_vector);
        }
        ((self.cluster_high as u32) << 16u32) | (self.cluster_low as u32)
    }

    pub open spec fn spec_starting_cluster(self) -> u32 {
        (self.cluster_high as u32 * 0x1_0000 + self.cluster_low as u32) as u32
    }

    /// The display name: the 8-byte base and 3-byte extension with
    /// surrounding blanks removed, joined by a dot when the extension is
    /// not empty.
    pub fn filename(&self) -> (r: Vec<u8>)
        requires
            self.name@.len() == 11,
        ensures
            r@ == spec_filename(self.name@),
    {
        let base = trim_spaces(&self.name, 0, 8);
        let ext = trim_spaces(&self.name, 8, 11);
        let mut out = base;
        if ext.len() > 0 {
            out.push(0x2eu8);
            let mut k: usize = 0;
            let n = ext.len();
            while k < n
                invariant
                    k <= n,
                    n == ext@.len(),
                    out@ == trim_blanks(self.name@.subrange(0, 8)) + seq![0x2eu8] + ext@.subrange(
                        0,
                        k as int,
                    ),
                decreases n - k,
            {
                let b = ext[k];
                out.push(b);
                proof {
                    assert(ext@.subrange(0, k + 1 as int) == ext@.subrange(0, k as int).push(b));
                }
                k = k + 1;
            }
            proof {
                assert(ext@.subrange(0, n as int) == ext@);
            }
        }
        out
    }
}

/// Blanks removed from both ends of a byte sequence.
pub open spec fn trim_blanks(s: Seq<u8>) -> Seq<u8>
    decreases s.len(),
{
    if s.len() == 0 {
        s
    } else if s[0] == 0x20u8 {
        trim_blanks(s.subrange(1, s.len() as int))
    } else if s[s.len() - 1] == 0x20u8 {
        trim_blanks(s.subrange(0, s.len() - 1))
    } else {
        s
    }
}

/// The display form of an 11-byte short name.
pub open spec fn spec_filename(name: Seq<u8>) -> Seq<u8> {
    let base = trim_blanks(name.subrange(0, 8));
    let ext = trim_blanks(name.subrange(8, 11));
    if ext.len() == 0 {
        base
    } else {
        base + seq![0x2eu8] + ext
    }
}

/// The bytes of `name[from..to]` with blanks removed from both ends.
fn trim_spaces(name: &Vec<u8>, from: usize, to: usize) -> (r: Vec<u8>)
    requires
        from <= to <= name@.len(),
    ensures
        r@ == trim_blanks(name@.subrange(from as int, to as int)),
    decreases to - from,
{
    if from == to {
        let empty: Vec<u8> = Vec::new();
        proof {
            assert(name@.subrange(from as int, to as int) =~= Seq::<u8>::empty());
        }
        return empty;
    }
    if name[from] == 0x20u8 {
        let r = trim_spaces(name, from + 1, to);
        proof {
            assert(name@.subrange(from as int, to as int).subrange(
                1,
                name@.subrange(from as int, to as int).len() as int,
            ) =~= name@.subrange(from as int + 1, to as int));
        }
        return r;
    }
    if name[to - 1] == 0x20u8 {
        let r = trim_spaces(name, from, to - 1);
        proof {
            assert(name@.subrange(from as int, to as int).subrange(
                0,
                name@.subrange(from as int, to as int).len() - 1,
            ) =~= name@.subrange(from as int, to as int - 1));
        }
        return r;
    }
    let mut out: Vec<u8> = Vec::new();
    let mut k: usize = from;
    while k < to
        invariant
            from <= k <= to <= name@.len(),
            out@ == name@.subrange(from as int, k as int),
        decreases to - k,
    {
        let b = name[k];
        out.push(b);
        proof {
            assert(name@.subrange(from as int, k + 1 as int) == name@.subrange(
                from as int,
                k as int,
            ).push(b));
        }
        k = k + 1;
    }
    proof {
        let s = name@.subrange(from as int, to as int);
        assert(s[0] != 0x20u8 && s[s.len() - 1] != 0x20u8);
        assert(trim_blanks(s) == s);
    }
    out
}

/// Position of a FAT entry on disk: its sector and byte offset.
pub open spec fn fat_entry_lba(fat_start_lba: u32, cluster: u32) -> u32 {
    (fat_start_lba + (cluster * 4) as int / 512) as u32
}

pub open spec fn fat_entry_off(cluster: u32) -> int {
    (cluster * 4) as int % 512
}

/// The file-allocation table: where it starts and how big it is.
#[derive(Debug, Clone, Copy, PartialEq, Eq, Structural)]
pub struct FAT {
    pub fat_start_lba: u32,
    pub fat_size_sectors: u32,
    pub bytes_per_sector: u16,
}

impl FAT {
    /// Geometry the driver can work with: 512-byte sectors, a table that
    /// stays within the 32-bit sector space.
    pub open spec fn wf(self) -> bool {
        &&& self.bytes_per_sector == 512
        &&& 1 <= self.fat_size_sectors <= 0x3f_ffff
        &&& self.fat_start_lba + self.fat_size_sectors <= u32::MAX
    }

    /// The number of entries the table holds.
    pub open spec fn spec_entries(self) -> int {
        self.fat_size_sectors as int * 128
    }

    pub fn new(fat_start_lba: u32, fat_size_sectors: u32, bytes_per_sector: u16) -> (r: FAT)
        ensures
            r.fat_start_lba == fat_start_lba,
            r.fat_size_sectors == fat_size_sectors,
            r.bytes_per_sector == bytes_per_sector,
    {
        FAT { fat_start_lba, fat_size_sectors, bytes_per_sector }
    }

    /// The value of a FAT entry under the given device: the masked 32-bit
    /// little-endian word at the entry's place.
    pub open spec fn spec_entry<D: BlockDevice>(self, dev: D, cluster: u32) -> u32 {
        le32_at(
            dev.sector(fat_entry_lba(self.fat_start_lba, cluster)),
            fat_entry_off(cluster),
        ) & FAT_ENTRY_MASK
    }

    /// Read the FAT entry of `cluster`.
    pub fn read_entry<D: BlockDevice>(&self, device: &mut D, cluster: u32) -> (r: u32)
        requires
            self.wf(),
            old(device).dev_wf(),
            sectors_sized(*old(device)),
            cluster < self.spec_entries(),
        ensures
            final(device).dev_wf(),
            sectors_sized(*final(device)),
            forall|l: u32| final(device).sector(l) == old(device).sector(l),
            r == self.spec_entry(*old(device), cluster),
            r <= FAT_ENTRY_MASK,
    {
        proof {
            lemma_fat_offset_bound(cluster);
            lemma_fat_sector_bound(cluster, self.fat_size_sectors);
        }
        let fat_offset = cluster * 4;
        let sector = fat_offset / self.bytes_per_sector as u32;
        let offset = (fat_offset % self.bytes_per_sector as u32) as usize;
        let buf = device.read_sector(self.fat_start_lba + sector);
        let b0 = buf[offset] as u32;
        let b1 = buf[offset + 1] as u32;
        let b2 = buf[offset + 2] as u32;
        let b3 = buf[offset + 3] as u32;
        let raw = b0 + b1 * 0x100 + b2 * 0x1_0000 + b3 * 0x100_0000;
        proof {
            let v = le32_at(old(device).sector(fat_entry_lba(self.fat_start_lba, cluster)), fat_entry_off(cluster));
            assert((v & 0x0fff_ffff) <= 0x0fff_ffff) by (bit_vector);
        }
        raw & FAT_ENTRY_MASK
    }

    /// Write the FAT entry of `cluster`; the entry reads back masked, and
    /// every other entry keeps its value.
    pub fn write_entry<D: BlockDevice>(&self, device: &mut D, cluster: u32, value: u32)
        requires
            self.wf(),
            old(device).dev_wf(),
            sectors_sized(*old(device)),
            cluster < self.spec_entries(),
        ensures
            final(device).dev_wf(),
            sectors_sized(*final(device)),
            self.spec_entry(*final(device), cluster) == value & FAT_ENTRY_MASK,
            forall|c2: u32|
                c2 != cluster && c2 < self.spec_entries() ==> self.spec_entry(*final(device), c2)
                    == self.spec_entry(*old(device), c2),
            forall|l: u32|
                l != fat_entry_lba(self.fat_start_lba, cluster) ==> final(device).sector(l) == old(
                    device,
                ).sector(l),
    {
        proof {
            lemma_fat_offset_bound(cluster);
            lemma_fat_sector_bound(cluster, self.fat_size_sectors);
        }
        let fat_offset = cluster * 4;
        let sector = fat_offset / self.bytes_per_sector as u32;
        let offset = (fat_offset % self.bytes_per_sector as u32) as usize;
        let lba = self.fat_start_lba + sector;
        let mut buf = device.read_sector(lba);
        let ghost orig = buf@;
        buf[offset] = (value & 0xff) as u8;
        buf[offset + 1] = ((value >> 8) & 0xff) as u8;
        buf[offset + 2] = ((value >> 16) & 0xff) as u8;
        buf[offset + 3] = ((value >> 24) & 0xff) as u8;
        device.write_sector(lba, &buf);
        proof {
            lemma_le32_patch(value);
            assert(buf@ == orig.update(offset as int, buf@[offset as int]).update(
                offset + 1,
                buf@[offset + 1],
            ).update(offset + 2, buf@[offset + 2]).update(offset + 3, buf@[offset + 3]));
            assert forall|c2: u32|
                c2 != cluster && c2 < self.spec_entries() implies self.spec_entry(
                *final(device),
                c2,
            ) == self.spec_entry(*old(device), c2) by {
                lemma_fat_offset_bound(c2);
                if fat_entry_lba(self.fat_start_lba, c2) == fat_entry_lba(
                    self.fat_start_lba,
                    cluster,
                ) {
                    lemma_fat_entries_disjoint(cluster, c2);
                }
            }
        }
    }
}

/// A FAT entry's four bytes lie within its sector.
proof fn lemma_fat_offset_bound(cluster: u32)
    ensures
        0 <= fat_entry_off(cluster),
        fat_entry_off(cluster) + 4 <= 512,
        fat_entry_off(cluster) % 4 == 0,
        (cluster * 4) as int / 512 == cluster as int / 128,
        fat_entry_off(cluster) == 4 * (cluster as int % 128),
{
    let c = cluster as int;
    vstd::arithmetic::div_mod::lemma_mod_breakdown(4 * c, 4, 128);
    assert(4 * c == c * 4);
    assert((4 * c) % 4 == 0) by {
        lemma_mod_multiples_basic_fat(c);
    }
    vstd::arithmetic::div_mod::lemma_div_denominator(4 * c, 4, 128);
    assert((4 * c) / 4 == c) by (nonlinear_arith);
    assert(c % 128 < 128) by {
        vstd::arithmetic::div_mod::lemma_mod_bound(c, 128);
    }
}

/// An in-range entry's sector lies within the table.
proof fn lemma_fat_sector_bound(cluster: u32, fat_size_sectors: u32)
    requires
        cluster < fat_size_sectors as int * 128,
    ensures
        (cluster * 4) as int / 512 < fat_size_sectors,
{
    lemma_fat_offset_bound(cluster);
    vstd::arithmetic::div_mod::lemma_multiply_divide_lt(
        cluster as int,
        128,
        fat_size_sectors as int,
    );
    assert(128 * (fat_size_sectors as int) == fat_size_sectors as int * 128) by (nonlinear_arith);
}

/// Four times anything is a multiple of four.
proof fn lemma_mod_multiples_basic_fat(c: int)
    ensures
        (4 * c) % 4 == 0,
{
    vstd::arithmetic::div_mod::lemma_mod_multiples_basic(c, 4);
    assert(c * 4 == 4 * c) by (nonlinear_arith);
}

/// Two different entries of the same FAT sector occupy disjoint
/// four-byte windows.
proof fn lemma_fat_entries_disjoint(c1: u32, c2: u32)
    requires
        c1 != c2,
        (c1 * 4) as int / 512 == (c2 * 4) as int / 512,
    ensures
        fat_entry_off(c1) + 4 <= fat_entry_off(c2) || fat_entry_off(c2) + 4 <= fat_entry_off(c1),
{
    lemma_fat_offset_bound(c1);
    lemma_fat_offset_bound(c2);
    vstd::arithmetic::div_mod::lemma_fundamental_div_mod(c1 as int, 128);
    vstd::arithmetic::div_mod::lemma_fundamental_div_mod(c2 as int, 128);
    assert(c1 as int % 128 != c2 as int % 128);
}

/// Patching the four bytes of one entry gives a sector whose entry word
/// is the patched value, while words in disjoint windows keep their value.
proof fn lemma_le32_patch(value: u32)
    ensures
        (value & 0xff) as u8 as int + ((value >> 8) & 0xff) as u8 as int * 0x100 + ((value >> 16)
            & 0xff) as u8 as int * 0x1_0000 + ((value >> 24) & 0xff) as u8 as int * 0x100_0000
            == value,
{
    assert((value & 0xff) as u8 as u64 + ((value >> 8) & 0xff) as u8 as u64 * 0x100 + ((value
        >> 16) & 0xff) as u8 as u64 * 0x1_0000 + ((value >> 24) & 0xff) as u8 as u64 * 0x100_0000
        == value as u64) by (bit_vector);
}

/// An uppercased ASCII byte.
pub open spec fn spec_upper(b: u8) -> u8 {
    if 97 <= b <= 122 {
        (b - 32) as u8
    } else {
        b
    }
}

fn upper(b: u8) -> (r: u8)
    ensures
        r == spec_upper(b),
{
    if b >= 97 && b <= 122 {
        b - 32
    } else {
        b
    }
}

/// The number of dots among the first `i` bytes.
pub open spec fn dots_upto(s: Seq<u8>, i: int) -> int
    decreases i,
{
    if i <= 0 {
        0
    } else {
        dots_upto(s, i - 1) + if s[i - 1] == 46u8 {
            1int
        } else {
            0int
        }
    }
}

/// The index of the first dot at or after `i`, or the length if none.
pub open spec fn first_dot_from(s: Seq<u8>, i: int) -> int
    decreases s.len() - i,
{
    if i < 0 || i >= s.len() {
        s.len() as int
    } else if s[i] == 46u8 {
        i
    } else {
        first_dot_from(s, i + 1)
    }
}

/// The 11-byte 8.3 form of a name: with exactly one dot, the base and
/// extension are uppercased into the 8- and 3-byte fields; otherwise the
/// first eleven bytes are uppercased in place.  Blanks pad the rest.
pub open spec fn spec_to_short_name(s: Seq<u8>) -> Seq<u8> {
    if dots_upto(s, s.len() as int) == 1 {
        let p = first_dot_from(s, 0);
        Seq::new(
            11,
            |i: int|
                if i < 8 {
                    if i < p {
                        spec_upper(s[i])
                    } else {
                        32u8
                    }
                } else {
                    if p + 1 + (i - 8) < s.len() && i - 8 < 3 {
                        spec_upper(s[p + 1 + (i - 8)])
                    } else {
                        32u8
                    }
                },
        )
    } else {
        Seq::new(
            11,
            |i: int|
                if i < s.len() {
                    spec_upper(s[i])
                } else {
                    32u8
                },
        )
    }
}

/// Build the 11-byte short form of a name.
pub fn to_short_name(name: &[u8]) -> (r: Vec<u8>)
    requires
        name@.len() <= 0xffff,
    ensures
        r@.len() == 11,
        r@ == spec_to_short_name(name@),
{
    let n = name.len();
    let mut dots: usize = 0;
    let mut first_dot: usize = n;
    let mut i: usize = 0;
    while i < n
        invariant
            i <= n,
            n == name@.len(),
            dots == dots_upto(name@, i as int),
            dots <= i,
            first_dot == (if dots_upto(name@, i as int) == 0 {
                n as int
            } else {
                first_dot_from(name@, 0)
            }),
            first_dot <= n,
        decreases n - i,
    {
        if name[i] == 46u8 {
            if dots == 0 {
                first_dot = i;
                proof {
                    lemma_first_dot(name@, i as int);
                }
            }
            dots = dots + 1;
        }
        i = i + 1;
    }
    let mut out: Vec<u8> = Vec::new();
    if dots == 1 {
        let p = first_dot;
        let mut k: usize = 0;
        while k < 8
            invariant
                k <= 8,
                p <= n <= 0xffff,
                n == name@.len(),
                out@.len() == k,
                forall|j: int|
                    0 <= j < k ==> out@[j] == (if j < p {
                        spec_upper(name@[j])
                    } else {
                        32u8
                    }),
            decreases 8 - k,
        {
            if k < p {
                out.push(upper(name[k]));
            } else {
                out.push(32u8);
            }
            k = k + 1;
        }
        let mut e: usize = 0;
        while e < 3
            invariant
                e <= 3,
                p <= n <= 0xffff,
                n == name@.len(),
                out@.len() == 8 + e,
                forall|j: int|
                    0 <= j < 8 ==> out@[j] == (if j < p {
                        spec_upper(name@[j])
                    } else {
                        32u8
                    }),
                forall|j: int|
                    8 <= j < 8 + e ==> out@[j] == (if p + 1 + (j - 8) < n {
                        spec_upper(name@[p + 1 + (j - 8)])
                    } else {
                        32u8
                    }),
        decreases 3 - e,
        {
            if p + 1 + e < n {
                out.push(upper(name[p + 1 + e]));
            } else {
                out.push(32u8);
            }
            e = e + 1;
        }
        proof {
            assert(out@ =~= spec_to_short_name(name@));
        }
    } else {
        let mut k: usize = 0;
        while k < 11
            invariant
                k <= 11,
                n == name@.len(),
                n <= 0xffff,
                out@.len() == k,
                forall|j: int|
                    0 <= j < k ==> out@[j] == (if j < n {
                        spec_upper(name@[j])
                    } else {
                        32u8
                    }),
            decreases 11 - k,
        {
            if k < n {
                out.push(upper(name[k]));
            } else {
                out.push(32u8);
            }
            k = k + 1;
        }
        proof {
            assert(out@ =~= spec_to_short_name(name@));
        }
    }
    out
}

/// A dot first seen at `i` is the first dot of the whole name.
proof fn lemma_first_dot(s: Seq<u8>, i: int)
    requires
        0 <= i < s.len(),
        s[i] == 46u8,
        dots_upto(s, i) == 0,
    ensures
        first_dot_from(s, 0) == i,
{
    lemma_first_dot_from(s, 0, i);
}

proof fn lemma_first_dot_from(s: Seq<u8>, k: int, i: int)
    requires
        0 <= k <= i < s.len(),
        s[i] == 46u8,
        dots_upto(s, i) == 0,
    ensures
        first_dot_from(s, k) == i,
    decreases i - k,
{
    if k < i {
        lemma_no_dot_upto(s, i, k);
        lemma_first_dot_from(s, k + 1, i);
    }
}

/// With no dots among the first `i` bytes, byte `k < i` is not a dot.
proof fn lemma_no_dot_upto(s: Seq<u8>, i: int, k: int)
    requires
        0 <= k < i <= s.len(),
        dots_upto(s, i) == 0,
    ensures
        s[k] != 46u8,
    decreases i,
{
    lemma_dots_monotone(s, 0, k);
    lemma_dots_monotone(s, k + 1, i);
}

/// Dot counts only grow with the prefix length.
proof fn lemma_dots_monotone(s: Seq<u8>, i: int, j: int)
    requires
        0 <= i <= j,
    ensures
        dots_upto(s, i) <= dots_upto(s, j),
    decreases j - i,
{
    if i < j {
        lemma_dots_monotone(s, i, j - 1);
    }
}

/// The path's bytes with slashes removed from both ends.
pub open spec fn trim_slashes(s: Seq<u8>) -> Seq<u8>
    decreases s.len(),
{
    if s.len() == 0 {
        s
    } else if s[0] == 47u8 {
        trim_slashes(s.subrange(1, s.len() as int))
    } else if s[s.len() - 1] == 47u8 {
        trim_slashes(s.subrange(0, s.len() - 1))
    } else {
        s
    }
}

/// Split a path into the directory part and the final name, at the last
/// slash of the trimmed path; a path without a slash lives in the root.
pub fn split_path(path: &str) -> (r: (Vec<u8>, Vec<u8>))
    ensures
        r.0@.len() <= path.spec_bytes().len() + 1,
        r.1@.len() <= path.spec_bytes().len(),
{
    let bytes = path.as_bytes();
    let trimmed = trim_slash_bytes(bytes);
    let n = trimmed.len();
    let mut last: usize = n;
    let mut i: usize = 0;
    while i < n
        invariant
            i <= n,
            n == trimmed@.len(),
            last <= n,
        decreases n - i,
    {
        if trimmed[i] == 47u8 {
            last = i;
        }
        i = i + 1;
    }
    if last == n {
        let mut root: Vec<u8> = Vec::new();
        root.push(47u8);
        proof {
            lemma_trim_slashes_len(bytes@);
        }
        (root, trimmed)
    } else {
        let mut dir: Vec<u8> = Vec::new();
        let mut file: Vec<u8> = Vec::new();
        let mut k: usize = 0;
        while k < last
            invariant
                k <= last < n,
                n == trimmed@.len(),
                dir@.len() == k,
            decreases last - k,
        {
            dir.push(trimmed[k]);
            k = k + 1;
        }
        let mut k2: usize = last + 1;
        while k2 < n
            invariant
                last < k2 <= n,
                n == trimmed@.len(),
                file@.len() == k2 - last - 1,
            decreases n - k2,
        {
            file.push(trimmed[k2]);
            k2 = k2 + 1;
        }
        proof {
            lemma_trim_slashes_len(bytes@);
        }
        (dir, file)
    }
}

/// Trimming never lengthens.
proof fn lemma_trim_slashes_len(s: Seq<u8>)
    ensures
        trim_slashes(s).len() <= s.len(),
    decreases s.len(),
{
    if s.len() > 0 {
        if s[0] == 47u8 {
            lemma_trim_slashes_len(s.subrange(1, s.len() as int));
        } else if s[s.len() - 1] == 47u8 {
            lemma_trim_slashes_len(s.subrange(0, s.len() - 1));
        }
    }
}

/// Slashes removed from both ends of a byte string.
fn trim_slash_bytes(s: &[u8]) -> (r: Vec<u8>)
    ensures
        r@ == trim_slashes(s@),
{
    let from: usize = 0;
    let to: usize = s.len();
    let r = trim_slash_range(s, from, to);
    proof {
        assert(s@.subrange(0, s@.len() as int) =~= s@);
    }
    r
}

fn trim_slash_range(s: &[u8], from: usize, to: usize) -> (r: Vec<u8>)
    requires
        from <= to <= s@.len(),
    ensures
        r@ == trim_slashes(s@.subrange(from as int, to as int)),
    decreases to - from,
{
    if from == to {
        let empty: Vec<u8> = Vec::new();
        proof {
            assert(s@.subrange(from as int, to as int) =~= Seq::<u8>::empty());
        }
        return empty;
    }
    if s[from] == 47u8 {
        let r = trim_slash_range(s, from + 1, to);
        proof {
            assert(s@.subrange(from as int, to as int).subrange(
                1,
                s@.subrange(from as int, to as int).len() as int,
            ) =~= s@.subrange(from as int + 1, to as int));
        }
        return r;
    }
    if s[to - 1] == 47u8 {
        let r = trim_slash_range(s, from, to - 1);
        proof {
            assert(s@.subrange(from as int, to as int).subrange(
                0,
                s@.subrange(from as int, to as int).len() - 1,
            ) =~= s@.subrange(from as int, to as int - 1));
        }
        return r;
    }
    let mut out: Vec<u8> = Vec::new();
    let mut k: usize = from;
    while k < to
        invariant
            from <= k <= to <= s@.len(),
            out@ == s@.subrange(from as int, k as int),
        decreases to - k,
    {
        let b = s[k];
        out.push(b);
        proof {
            assert(s@.subrange(from as int, k + 1 as int) == s@.subrange(from as int, k as int).push(
                b,
            ));
        }
        k = k + 1;
    }
    proof {
        let t = s@.subrange(from as int, to as int);
        assert(t[0] != 47u8 && t[t.len() - 1] != 47u8);
    }
    out
}

/// The slash-separated components of the trimmed path.
pub fn path_components(path: &str) -> (r: Vec<Vec<u8>>)
    requires
        path.spec_bytes().len() <= 0xffff,
    ensures
        forall|k: int| 0 <= k < r@.len() ==> (#[trigger] r@[k])@.len() <= 0xffff,
{
    let bytes = path.as_bytes();
    let trimmed = trim_slash_bytes(bytes);
    proof {
        lemma_trim_slashes_len(bytes@);
    }
    let n = trimmed.len();
    let mut out: Vec<Vec<u8>> = Vec::new();
    let mut cur: Vec<u8> = Vec::new();
    let mut i: usize = 0;
    while i < n
        invariant
            i <= n,
            n == trimmed@.len(),
            n <= 0xffff,
            cur@.len() <= i,
            forall|k: int| 0 <= k < out@.len() ==> (#[trigger] out@[k])@.len() <= 0xffff,
        decreases n - i,
    {
        if trimmed[i] == 47u8 {
            out.push(cur);
            cur = Vec::new();
        } else {
            cur.push(trimmed[i]);
        }
        i = i + 1;
    }
    if n > 0 {
        out.push(cur);
    }
    out
}

/// A mounted FAT32 volume over a sector device.
pub struct FAT32Volume<D: BlockDevice> {
    pub fat: FAT,
    pub cluster_size: usize,
    pub root_dir_cluster: u32,
    pub device: D,
    pub sectors_per_cluster: u8,
    pub bytes_per_sector: u16,
    pub reserved_sector_count: u16,
    pub fat_size_sectors: u32,
    pub num_fats: u8,
}

impl<D: BlockDevice> FAT32Volume<D> {
    /// Geometry this driver works with: 512-byte sectors, clusters of at
    /// most 4096 bytes, a consistent FAT, and a data region within the
    /// 32-bit sector space.
    pub open spec fn wf(self) -> bool {
        &&& self.fat.wf()
        &&& self.bytes_per_sector == 512
        &&& self.fat.bytes_per_sector == 512
        &&& self.fat.fat_start_lba == self.reserved_sector_count
        &&& self.fat.fat_size_sectors == self.fat_size_sectors
        &&& 1 <= self.sectors_per_cluster
        &&& self.cluster_size == 512 * self.sectors_per_cluster
        &&& self.cluster_size <= 4096
        &&& self.reserved_sector_count as int + self.num_fats as int
            * self.fat_size_sectors as int + self.fat.spec_entries()
            * self.sectors_per_cluster as int <= u32::MAX
        &&& self.device.dev_wf()
        &&& sectors_sized(self.device)
    }

    /// Everything but the device.
    pub open spec fn same_config(self, other: Self) -> bool {
        &&& self.fat == other.fat
        &&& self.cluster_size == other.cluster_size
        &&& self.root_dir_cluster == other.root_dir_cluster
        &&& self.sectors_per_cluster == other.sectors_per_cluster
        &&& self.bytes_per_sector == other.bytes_per_sector
        &&& self.reserved_sector_count == other.reserved_sector_count
        &&& self.fat_size_sectors == other.fat_size_sectors
        &&& self.num_fats == other.num_fats
    }

    /// Configuration and every sector unchanged.
    pub open spec fn same_state(self, other: Self) -> bool {
        &&& self.same_config(other)
        &&& forall|l: u32| self.device.sector(l) == other.device.sector(l)
    }

    /// The number of FAT entries, and so a bound on cluster numbers.
    pub open spec fn spec_total_clusters(self) -> int {
        self.fat.spec_entries()
    }

    /// Whether a cluster number can be worked with.
    pub fn cluster_in_range(&self, cluster: u32) -> (r: bool)
        requires
            self.wf(),
        ensures
            r == (2 <= cluster && cluster < self.spec_total_clusters()),
    {
        cluster >= 2 && cluster < self.fat.fat_size_sectors * 128
    }

    /// The FAT successor of `current`, or `None` at the end of the chain.
    pub fn next_cluster(&mut self, current: u32) -> (r: Option<u32>)
        requires
            old(self).wf(),
            current < old(self).spec_total_clusters(),
        ensures
            final(self).wf(),
            final(self).same_state(*old(self)),
            ({
                let v = old(self).fat.spec_entry(old(self).device, current);
                r == (if v >= CHAIN_END {
                    None::<u32>
                } else {
                    Some(v)
                })
            }),
    {
        let val = self.fat.read_entry(&mut self.device, current);
        if val >= CHAIN_END {
            None
        } else {
            Some(val)
        }
    }

    /// Point `current`'s FAT entry at `next`.
    pub fn set_next_cluster(&mut self, current: u32, next: u32)
        requires
            old(self).wf(),
            current < old(self).spec_total_clusters(),
        ensures
            final(self).wf(),
            final(self).same_config(*old(self)),
            final(self).fat.spec_entry(final(self).device, current) == next & FAT_ENTRY_MASK,
            forall|c2: u32|
                c2 != current && c2 < old(self).spec_total_clusters() ==> final(self).fat.spec_entry(final(self).device, c2) == old(self).fat.spec_entry(
                    old(self).device,
                    c2,
                ),
    {
        self.fat.write_entry(&mut self.device, current, next);
    }

    /// Find the first free cluster at or above 2, mark it as a chain end
    /// and return it; `None` when the table has no free entry.
    pub fn allocate_cluster(&mut self) -> (r: Option<u32>)
        requires
            old(self).wf(),
        ensures
            final(self).wf(),
            final(self).same_config(*old(self)),
            match r {
                Some(i) => 2 <= i && i < old(self).spec_total_clusters() && old(self).fat.spec_entry(old(self).device, i) == 0 && final(self).fat.spec_entry(
                    final(self).device,
                    i,
                ) == CHAIN_END_MARK && (forall|j: u32|
                    2 <= j < i ==> old(self).fat.spec_entry(old(self).device, j) != 0) && (
                forall|c2: u32|
                    c2 != i && c2 < old(self).spec_total_clusters() ==> final(self).fat.spec_entry(final(self).device, c2) == old(self).fat.spec_entry(
                        old(self).device,
                        c2,
                    )),
                None => final(self).same_state(*old(self)) && (forall|j: u32|
                    2 <= j < old(self).spec_total_clusters() ==> old(self).fat.spec_entry(
                        old(self).device,
                        j,
                    ) != 0),
            },
    {
        let total_entries = self.fat.fat_size_sectors * 128;
        let mut i: u32 = 2;
        while i < total_entries
            invariant
                2 <= i <= total_entries,
                total_entries == old(self).spec_total_clusters(),
                self.wf(),
                self.same_state(*old(self)),
                forall|j: u32|
                    2 <= j < i ==> old(self).fat.spec_entry(old(self).device, j) != 0,
            decreases total_entries - i,
        {
            let val = self.fat.read_entry(&mut self.device, i);
            if val == 0 {
                self.fat.write_entry(&mut self.device, i, CHAIN_END_MARK);
                proof {
                    assert(CHAIN_END_MARK & FAT_ENTRY_MASK == CHAIN_END_MARK) by (bit_vector);
                }
                return Some(i);
            }
            i = i + 1;
        }
        None
    }

    /// Walk the chain from `cluster`, freeing each entry, stopping at a
    /// chain end; a walk longer than the table must have hit a cycle and
    /// stops there.
    pub fn free_cluster_chain(&mut self, cluster: u32)
        requires
            old(self).wf(),
        ensures
            final(self).wf(),
            final(self).same_config(*old(self)),
            cluster < CHAIN_END && cluster < old(self).spec_total_clusters() ==> final(self).fat.spec_entry(final(self).device, cluster) == 0,
    {
        let total_entries = self.fat.fat_size_sectors * 128;
        let mut current = cluster;
        let mut steps: u32 = 0;
        while steps <= total_entries
            invariant
                self.wf(),
                self.same_config(*old(self)),
                total_entries == old(self).spec_total_clusters(),
                steps > 0 ==> (cluster < CHAIN_END && cluster < total_entries
                    ==> self.fat.spec_entry(self.device, cluster) == 0),
                steps == 0 ==> *self == *old(self) && current == cluster,
            decreases total_entries + 1 - steps,
        {
            let ghost at_start = *self;
            if current >= CHAIN_END || current >= total_entries {
                return;
            }
            let next = self.fat.read_entry(&mut self.device, current);
            self.fat.write_entry(&mut self.device, current, 0);
            proof {
                assert(0u32 & 0x0fff_ffff == 0u32) by (bit_vector);
                if cluster < CHAIN_END && cluster < total_entries {
                    if current == cluster {
                        assert(self.fat.spec_entry(self.device, cluster) == 0);
                    } else {
                        assert(steps > 0);
                        assert(at_start.fat.spec_entry(at_start.device, cluster) == 0);
                        assert(self.fat.spec_entry(self.device, cluster) == 0);
                    }
                }
            }
            if next >= CHAIN_END {
                return;
            }
            current = next;
            if steps == u32::MAX {
                return;
            }
            steps = steps + 1;
        }
    }

    /// The first sector of a cluster's data.
    pub fn first_sector_of_cluster(&self, cluster: u32) -> (r: u32)
        requires
            self.wf(),
            2 <= cluster < self.spec_total_clusters(),
        ensures
            r == self.spec_first_sector(cluster),
    {
        proof {
            self.lemma_first_sector_bound(cluster);
        }
        let data_start = self.reserved_sector_count as u32 + (self.num_fats as u32
            * self.fat_size_sectors);
        data_start + (cluster - 2) * self.sectors_per_cluster as u32
    }

    /// The data region's sector arithmetic stays within `u32`.
    pub proof fn lemma_first_sector_bound(self, cluster: u32)
        requires
            self.wf(),
            2 <= cluster < self.spec_total_clusters(),
        ensures
            self.spec_first_sector(cluster) as int == self.reserved_sector_count as int
                + self.num_fats as int * self.fat_size_sectors as int + (cluster - 2)
                * self.sectors_per_cluster as int,
            self.spec_first_sector(cluster) as int + self.sectors_per_cluster as int
                <= u32::MAX,
    {
        let c = (cluster - 2) as int;
        let e = self.fat.spec_entries();
        let spc = self.sectors_per_cluster as int;
        assert(c * spc + spc <= e * spc) by (nonlinear_arith)
            requires
                c + 1 <= e,
                spc >= 1,
        ;
        assert(c * spc >= 0) by (nonlinear_arith)
            requires
                c >= 0,
                spc >= 0,
        ;
    }

    pub open spec fn spec_first_sector(self, cluster: u32) -> u32 {
        (self.reserved_sector_count as int + self.num_fats as int * self.fat_size_sectors as int
            + (cluster - 2) * self.sectors_per_cluster as int) as u32
    }

    /// The bytes of one cluster, sector by sector.
    pub fn read_cluster(&mut self, cluster: u32) -> (r: Vec<u8>)
        requires
            old(self).wf(),
            2 <= cluster < old(self).spec_total_clusters(),
        ensures
            final(self).wf(),
            final(self).same_state(*old(self)),
            r@.len() == old(self).cluster_size,
            forall|i: int|
                #![trigger r@.subrange(i * 512, (i + 1) * 512)]
                0 <= i < old(self).sectors_per_cluster ==> r@.subrange(i * 512, (i + 1) * 512)
                    == old(self).device.sector(
                    ((old(self).spec_first_sector(cluster) + i) as u32),
                ),
    {
        proof {
            self.lemma_first_sector_bound(cluster);
        }
        let start_lba = self.first_sector_of_cluster(cluster);
        let mut buf: Vec<u8> = Vec::new();
        let spc = self.sectors_per_cluster;
        let mut i: u8 = 0;
        while i < spc
            invariant
                i <= spc,
                self.wf(),
                self.same_state(*old(self)),
                spc == old(self).sectors_per_cluster,
                start_lba == old(self).spec_first_sector(cluster),
                start_lba as int + spc as int <= u32::MAX,
                2 <= cluster < old(self).spec_total_clusters(),
                buf@.len() == i as int * 512,
                forall|k: int|
                    #![trigger buf@.subrange(k * 512, (k + 1) * 512)]
                    0 <= k < i ==> buf@.subrange(k * 512, (k + 1) * 512) == old(self).device.sector(
                        ((start_lba + k) as u32),
                    ),
            decreases spc - i,
        {
            let sector = self.device.read_sector(start_lba + i as u32);
            proof {
                assert(sector@.len() == 512);
            }
            let ghost prefix = buf@;
            let mut j: usize = 0;
            while j < SECTOR_SIZE
                invariant
                    j <= 512,
                    sector@.len() == 512,
                    buf@.len() == prefix.len() + j,
                    buf@ == prefix + sector@.subrange(0, j as int),
                decreases 512 - j,
            {
                let b = sector[j];
                buf.push(b);
                proof {
                    assert(sector@.subrange(0, j + 1 as int) == sector@.subrange(0, j as int).push(
                        b,
                    ));
                    assert(prefix + sector@.subrange(0, j + 1 as int) == (prefix
                        + sector@.subrange(0, j as int)).push(b));
                }
                j = j + 1;
            }
            proof {
                assert(sector@.subrange(0, 512) =~= sector@);
                assert forall|k: int|
                    #![trigger buf@.subrange(k * 512, (k + 1) * 512)]
                    0 <= k < i as int + 1 implies buf@.subrange(k * 512, (k + 1) * 512) == old(
                    self,
                ).device.sector(((start_lba + k) as u32)) by {
                    if k < i as int {
                        assert(buf@.subrange(k * 512, (k + 1) * 512) =~= prefix.subrange(
                            k * 512,
                            (k + 1) * 512,
                        ));
                    } else {
                        assert(buf@.subrange(k * 512, (k + 1) * 512) =~= sector@);
                    }
                }
            }
            i = i + 1;
        }
        buf
    }

    /// Write the first `cluster_size` bytes of `data` into a cluster,
    /// sector by sector.
    pub fn write_cluster(&mut self, cluster: u32, data: &Vec<u8>)
        requires
            old(self).wf(),
            2 <= cluster < old(self).spec_total_clusters(),
            data@.len() >= old(self).cluster_size,
        ensures
            final(self).wf(),
            final(self).same_config(*old(self)),
            forall|i: int|
                #![trigger data@.subrange(i * 512, (i + 1) * 512)]
                0 <= i < old(self).sectors_per_cluster ==> final(self).device.sector(
                    ((old(self).spec_first_sector(cluster) + i) as u32),
                ) == data@.subrange(i * 512, (i + 1) * 512),
            forall|l: u32|
                (l < old(self).spec_first_sector(cluster) || l >= old(self).spec_first_sector(
                    cluster,
                ) + old(self).sectors_per_cluster) ==> final(self).device.sector(l) == old(self).device.sector(l),
    {
        proof {
            self.lemma_first_sector_bound(cluster);
        }
        let start_lba = self.first_sector_of_cluster(cluster);
        let spc = self.sectors_per_cluster;
        let mut i: u8 = 0;
        while i < spc
            invariant
                i <= spc,
                self.wf(),
                self.same_config(*old(self)),
                spc == old(self).sectors_per_cluster,
                start_lba == old(self).spec_first_sector(cluster),
                start_lba as int + spc as int <= u32::MAX,
                2 <= cluster < old(self).spec_total_clusters(),
                data@.len() >= old(self).cluster_size,
                old(self).cluster_size == 512 * spc,
                forall|k: int|
                    #![trigger data@.subrange(k * 512, (k + 1) * 512)]
                    0 <= k < i ==> self.device.sector(((start_lba + k) as u32)) == data@.subrange(
                        k * 512,
                        (k + 1) * 512,
                    ),
                forall|l: u32|
                    (l < start_lba || l >= start_lba + spc) ==> self.device.sector(l) == old(self).device.sector(l),
            decreases spc - i,
        {
            let mut sector_data: Vec<u8> = Vec::new();
            let base = i as usize * 512;
            let mut j: usize = 0;
            while j < SECTOR_SIZE
                invariant
                    j <= 512,
                    base == i as int * 512,
                    base + 512 <= data@.len(),
                    sector_data@.len() == j,
                    forall|k: int| 0 <= k < j ==> sector_data@[k] == data@[base + k],
                decreases 512 - j,
            {
                sector_data.push(data[base + j]);
                j = j + 1;
            }
            proof {
                assert(sector_data@ =~= data@.subrange(i as int * 512, (i as int + 1) * 512));
            }
            let ghost before = self.device;
            self.device.write_sector(start_lba + i as u32, &sector_data);
            proof {
                assert forall|k: int|
                    #![trigger data@.subrange(k * 512, (k + 1) * 512)]
                    0 <= k < i as int + 1 implies self.device.sector(((start_lba + k) as u32))
                    == data@.subrange(k * 512, (k + 1) * 512) by {
                    if k < i as int {
                        assert(((start_lba + k) as u32) != ((start_lba + i as int) as u32));
                    }
                }
            }
            i = i + 1;
        }
    }
}

/// Byte-for-byte equality of two byte vectors.
pub fn bytes_eq(a: &Vec<u8>, b: &Vec<u8>) -> (r: bool)
    ensures
        r == (a@ =~= b@),
{
    if a.len() != b.len() {
        return false;
    }
    let n = a.len();
    let mut i: usize = 0;
    while i < n
        invariant
            i <= n,
            n == a@.len() == b@.len(),
            forall|k: int| 0 <= k < i ==> a@[k] == b@[k],
        decreases n - i,
    {
        if a[i] != b[i] {
            return false;
        }
        i = i + 1;
    }
    proof {
        assert(a@ =~= b@);
    }
    true
}

/// The directory entry encoded at byte offset `off` of a cluster.
pub fn decode_entry(data: &Vec<u8>, off: usize) -> (r: DirectoryEntry)
    requires
        off + 32 <= data@.len(),
    ensures
        r.name@ == data@.subrange(off as int, off as int + 11),
        r.attr == data@[off as int + 11],
        r.cluster_high == le16_at(data@, off as int + 20),
        r.cluster_low == le16_at(data@, off as int + 26),
        r.file_size == le32_at(data@, off as int + 28),
        r.name@.len() == 11,
{
    let total = data.len();
    let mut name: Vec<u8> = Vec::new();
    let mut k: usize = 0;
    while k < 11
        invariant
            k <= 11,
            total == data@.len(),
            off + 32 <= data@.len(),
            name@.len() == k,
            forall|j: int| 0 <= j < k ==> name@[j] == data@[off + j],
        decreases 11 - k,
    {
        name.push(data[off + k]);
        k = k + 1;
    }
    proof {
        assert(name@ =~= data@.subrange(off as int, off as int + 11));
    }
    let attr = data[off + 11];
    let cluster_high = data[off + 20] as u16 + data[off + 21] as u16 * 0x100;
    let cluster_low = data[off + 26] as u16 + data[off + 27] as u16 * 0x100;
    let file_size = data[off + 28] as u32 + data[off + 29] as u32 * 0x100 + data[off + 30] as u32
        * 0x1_0000 + data[off + 31] as u32 * 0x100_0000;
    DirectoryEntry { name, attr, cluster_high, cluster_low, file_size }
}

/// Write the 32-byte encoding of an entry at byte offset `off`; only the
/// fields the driver uses are stored, as in the on-disk layout.
pub fn encode_entry(data: &mut Vec<u8>, off: usize, entry: &DirectoryEntry)
    requires
        off + 32 <= old(data)@.len(),
        entry.name@.len() == 11,
    ensures
        final(data)@.len() == old(data)@.len(),
{
    let total = data.len();
    let mut k: usize = 0;
    while k < 11
        invariant
            k <= 11,
            total == data@.len(),
            entry.name@.len() == 11,
            off + 32 <= data@.len(),
            data@.len() == old(data)@.len(),
        decreases 11 - k,
    {
        data[off + k] = entry.name[k];
        k = k + 1;
    }
    data[off + 11] = entry.attr;
    data[off + 20] = (entry.cluster_high & 0xff) as u8;
    data[off + 21] = (entry.cluster_high / 0x100) as u8;
    data[off + 26] = (entry.cluster_low & 0xff) as u8;
    data[off + 27] = (entry.cluster_low / 0x100) as u8;
    data[off + 28] = (entry.file_size & 0xff) as u8;
    data[off + 29] = ((entry.file_size / 0x100) & 0xff) as u8;
    data[off + 30] = ((entry.file_size / 0x1_0000) & 0xff) as u8;
    data[off + 31] = ((entry.file_size / 0x100_0000) & 0xff) as u8;
}

/// Write a `.` or `..` entry at byte offset `off`: the name blank-padded,
/// the directory attribute, and the cluster halves.
pub fn write_dot_entry(buf: &mut Vec<u8>, off: usize, name: &[u8], attr: u8, cluster: u32)
    requires
        off + 32 <= old(buf)@.len(),
        name@.len() <= 11,
    ensures
        final(buf)@.len() == old(buf)@.len(),
{
    let mut raw: Vec<u8> = Vec::new();
    let mut k: usize = 0;
    while k < 11
        invariant
            k <= 11,
            raw@.len() == k,
            name@.len() <= 11,
        decreases 11 - k,
    {
        if k < name.len() {
            raw.push(name[k]);
        } else {
            raw.push(32u8);
        }
        k = k + 1;
    }
    let entry = DirectoryEntry {
        name: raw,
        attr,
        cluster_high: (cluster / 0x1_0000) as u16,
        cluster_low: (cluster % 0x1_0000) as u16,
        file_size: 0,
    };
    proof {
        assert(cluster as int / 0x1_0000 <= 0xffff) by (nonlinear_arith)
            requires
                cluster <= u32::MAX,
        ;
    }
    encode_entry(buf, off, &entry);
}

impl<D: BlockDevice> FAT32Volume<D> {
    /// Decode the live entries of the directory starting at `cluster`,
    /// following its chain; deleted and long-name entries are skipped,
    /// and the first zero name byte ends the listing.
    pub fn read_directory(&mut self, cluster: u32) -> (r: Vec<DirectoryEntry>)
        requires
            old(self).wf(),
        ensures
            final(self).wf(),
            final(self).same_state(*old(self)),
            forall|k: int| 0 <= k < r@.len() ==> (#[trigger] r@[k]).name@.len() == 11,
    {
        let mut entries: Vec<DirectoryEntry> = Vec::new();
        let total_entries = self.fat.fat_size_sectors * 128;
        let mut current = cluster;
        let mut steps: u32 = 0;
        while steps <= total_entries
            invariant
                self.wf(),
                self.same_state(*old(self)),
                total_entries == old(self).spec_total_clusters(),
                forall|k: int| 0 <= k < entries@.len() ==> (#[trigger] entries@[k]).name@.len() == 11,
            decreases total_entries + 1 - steps,
        {
            if current >= CHAIN_END || current < 2 || current >= total_entries {
                return entries;
            }
            let data = self.read_cluster(current);
            let count = self.cluster_size / 32;
            let mut i: usize = 0;
            while i < count
                invariant
                    i <= count,
                    self.wf(),
                    self.same_state(*old(self)),
                    count == self.cluster_size / 32,
                    self.cluster_size <= 4096,
                    data@.len() == self.cluster_size,
                    forall|k: int|
                        0 <= k < entries@.len() ==> (#[trigger] entries@[k]).name@.len() == 11,
                decreases count - i,
            {
                let offset = i * 32;
                proof {
                    assert(i * 32 + 32 <= count * 32) by (nonlinear_arith)
                        requires
                            i < count,
                    ;
                    assert(count * 32 <= self.cluster_size) by (nonlinear_arith)
                        requires
                            count == self.cluster_size / 32,
                    ;
                }
                if data[offset] == 0x00 {
                    return entries;
                }
                if data[offset] == 0xE5 || data[offset + 11] == 0x0F {
                    i = i + 1;
                    continue;
                }
                let entry = decode_entry(&data, offset);
                entries.push(entry);
                i = i + 1;
            }
            match self.next_cluster(current) {
                Some(next) => {
                    current = next;
                },
                None => {
                    return entries;
                },
            }
            steps = steps + 1;
        }
        entries
    }

    /// The cluster of the directory named by `path`; `/` names the root.
    pub fn find_directory_cluster(&mut self, path: &str) -> (r: Result<u32, &'static str>)
        requires
            old(self).wf(),
            path.spec_bytes().len() <= 0xffff,
        ensures
            final(self).wf(),
            final(self).same_state(*old(self)),
    {
        let components = path_components(path);
        let mut cluster = self.root_dir_cluster;
        let n = components.len();
        let mut ci: usize = 0;
        while ci < n
            invariant
                ci <= n,
                n == components@.len(),
                self.wf(),
                self.same_state(*old(self)),
                forall|k: int| 0 <= k < n ==> (#[trigger] components@[k])@.len() <= 0xffff,
            decreases n - ci,
        {
            let entries = self.read_directory(cluster);
            let short = to_short_name(components[ci].as_slice());
            let mut found = false;
            let en = entries.len();
            let mut ei: usize = 0;
            while ei < en
                invariant
                    ei <= en,
                    en == entries@.len(),
                    forall|k: int|
                        0 <= k < entries@.len() ==> (#[trigger] entries@[k]).name@.len() == 11,
                decreases en - ei,
            {
                let e = &entries[ei];
                if bytes_eq(&e.name, &short) && e.is_directory() {
                    cluster = e.starting_cluster();
                    found = true;
                    break;
                }
                ei = ei + 1;
            }
            if !found {
                return Err("Directory not found");
            }
            ci = ci + 1;
        }
        Ok(cluster)
    }

    /// Walk `path` from the root and return the entry it names.
    pub fn find_path(&mut self, path: &str) -> (r: Option<DirectoryEntry>)
        requires
            old(self).wf(),
            path.spec_bytes().len() <= 0xffff,
        ensures
            final(self).wf(),
            final(self).same_state(*old(self)),
            match r {
                Some(e) => e.name@.len() == 11,
                None => true,
            },
    {
        let components = path_components(path);
        let mut cluster = self.root_dir_cluster;
        let n = components.len();
        if n == 0 {
            return None;
        }
        let mut ci: usize = 0;
        while ci < n
            invariant
                ci <= n,
                n == components@.len(),
                self.wf(),
                self.same_state(*old(self)),
                forall|k: int| 0 <= k < n ==> (#[trigger] components@[k])@.len() <= 0xffff,
            decreases n - ci,
        {
            let entries = self.read_directory(cluster);
            let short = to_short_name(components[ci].as_slice());
            let mut found = false;
            let en = entries.len();
            let mut ei: usize = 0;
            let last = ci + 1 == n;
            while ei < en
                invariant
                    ei <= en,
                    en == entries@.len(),
                    self.wf(),
                    self.same_state(*old(self)),
                    forall|k: int|
                        0 <= k < entries@.len() ==> (#[trigger] entries@[k]).name@.len() == 11,
                decreases en - ei,
            {
                let e = &entries[ei];
                if bytes_eq(&e.name, &short) {
                    if !last {
                        if e.is_directory() {
                            cluster = e.starting_cluster();
                            found = true;
                            break;
                        } else {
                            return None;
                        }
                    } else {
                        let out = decode_clone(e);
                        return Some(out);
                    }
                }
                ei = ei + 1;
            }
            if !found {
                return None;
            }
            ci = ci + 1;
        }
        None
    }

    /// Whether `path` names an existing entry.
    pub fn file_exists(&mut self, path: &str) -> (r: bool)
        requires
            old(self).wf(),
            path.spec_bytes().len() <= 0xffff,
        ensures
            final(self).wf(),
            final(self).same_state(*old(self)),
    {
        self.find_path(path).is_some()
    }
}

/// An owned copy of a directory entry.
fn decode_clone(e: &DirectoryEntry) -> (r: DirectoryEntry)
    ensures
        r.name@ == e.name@,
        r.attr == e.attr,
        r.cluster_high == e.cluster_high,
        r.cluster_low == e.cluster_low,
        r.file_size == e.file_size,
{
    let mut name: Vec<u8> = Vec::new();
    let n = e.name.len();
    let mut i: usize = 0;
    while i < n
        invariant
            i <= n,
            n == e.name@.len(),
            name@ == e.name@.subrange(0, i as int),
        decreases n - i,
    {
        let b = e.name[i];
        name.push(b);
        proof {
            assert(e.name@.subrange(0, i + 1 as int) == e.name@.subrange(0, i as int).push(b));
        }
        i = i + 1;
    }
    proof {
        assert(e.name@.subrange(0, n as int) =~= e.name@);
    }
    DirectoryEntry {
        name,
        attr: e.attr,
        cluster_high: e.cluster_high,
        cluster_low: e.cluster_low,
        file_size: e.file_size,
    }
}

impl<D: BlockDevice> FAT32Volume<D> {
    /// The directory cluster reached by the first `upto` components.
    fn walk_dir(&mut self, components: &Vec<Vec<u8>>, upto: usize) -> (r: Result<
        u32,
        &'static str,
    >)
        requires
            old(self).wf(),
            upto <= components@.len(),
            forall|k: int| 0 <= k < components@.len() ==> (#[trigger] components@[k])@.len() <= 0xffff,
        ensures
            final(self).wf(),
            final(self).same_state(*old(self)),
    {
        let mut cluster = self.root_dir_cluster;
        let mut ci: usize = 0;
        while ci < upto
            invariant
                ci <= upto <= components@.len(),
                self.wf(),
                self.same_state(*old(self)),
                forall|k: int|
                    0 <= k < components@.len() ==> (#[trigger] components@[k])@.len() <= 0xffff,
            decreases upto - ci,
        {
            let entries = self.read_directory(cluster);
            let short = to_short_name(components[ci].as_slice());
            let mut found = false;
            let en = entries.len();
            let mut ei: usize = 0;
            while ei < en
                invariant
                    ei <= en,
                    en == entries@.len(),
                    forall|k: int|
                        0 <= k < entries@.len() ==> (#[trigger] entries@[k]).name@.len() == 11,
                decreases en - ei,
            {
                let e = &entries[ei];
                if bytes_eq(&e.name, &short) && e.is_directory() {
                    cluster = e.starting_cluster();
                    found = true;
                    break;
                }
                ei = ei + 1;
            }
            if !found {
                return Err("Parent dir not found");
            }
            ci = ci + 1;
        }
        Ok(cluster)
    }

    /// Encode `entries` into the single cluster `cluster`; too many
    /// entries for one cluster is an error.
    pub fn write_directory(&mut self, cluster: u32, entries: &Vec<DirectoryEntry>) -> (r: Result<
        (),
        &'static str,
    >)
        requires
            old(self).wf(),
            forall|k: int| 0 <= k < entries@.len() ==> (#[trigger] entries@[k]).name@.len() == 11,
        ensures
            final(self).wf(),
            final(self).same_config(*old(self)),
    {
        if !self.cluster_in_range(cluster) {
            return Err("cluster out of range");
        }
        let mut data = zero_cluster(self.cluster_size);
        let n = entries.len();
        let mut i: usize = 0;
        let mut offset: usize = 0;
        while i < n
            invariant
                i <= n,
                n == entries@.len(),
                offset == i * 32,
                offset <= data@.len(),
                self.wf(),
                self.same_config(*old(self)),
                2 <= cluster < self.spec_total_clusters(),
                data@.len() == self.cluster_size,
                self.cluster_size <= 4096,
                forall|k: int|
                    0 <= k < entries@.len() ==> (#[trigger] entries@[k]).name@.len() == 11,
            decreases n - i,
        {
            if offset > data.len() - 32 || data.len() < 32 {
                return Err("Too many entries in directory");
            }
            encode_entry(&mut data, offset, &entries[i]);
            offset = offset + 32;
            i = i + 1;
        }
        self.write_cluster(cluster, &data);
        Ok(())
    }

    /// Put `entry` into the first free slot of the directory chain
    /// starting at `cluster`.
    pub fn write_directory_entry(&mut self, cluster: u32, entry: &DirectoryEntry) -> (r: Result<
        (),
        &'static str,
    >)
        requires
            old(self).wf(),
            entry.name@.len() == 11,
        ensures
            final(self).wf(),
            final(self).same_config(*old(self)),
    {
        let total_entries = self.fat.fat_size_sectors * 128;
        let mut current = cluster;
        let mut steps: u32 = 0;
        while steps <= total_entries
            invariant
                self.wf(),
                self.same_config(*old(self)),
                total_entries == old(self).spec_total_clusters(),
                entry.name@.len() == 11,
            decreases total_entries + 1 - steps,
        {
            if current >= CHAIN_END || current < 2 || current >= total_entries {
                return Err("Insufficient space for creating DirectoryEntry");
            }
            let mut data = self.read_cluster(current);
            let count = self.cluster_size / 32;
            let mut i: usize = 0;
            while i < count
                invariant
                    i <= count,
                    self.wf(),
                    self.same_config(*old(self)),
                    2 <= current < old(self).spec_total_clusters(),
                    count == self.cluster_size / 32,
                    self.cluster_size <= 4096,
                    data@.len() == self.cluster_size,
                    entry.name@.len() == 11,
                decreases count - i,
            {
                let offset = i * 32;
                proof {
                    lemma_entry_offset_in_cluster(i as int, count as int, self.cluster_size as int);
                }
                if data[offset] == 0x00 || data[offset] == 0xE5 {
                    encode_entry(&mut data, offset, entry);
                    self.write_cluster(current, &data);
                    return Ok(());
                }
                i = i + 1;
            }
            match self.next_cluster(current) {
                Some(next) => {
                    current = next;
                },
                None => {
                    return Err("Insufficient space for creating DirectoryEntry");
                },
            }
            steps = steps + 1;
        }
        Err("Insufficient space for creating DirectoryEntry")
    }

    /// Create a directory at `path`: allocate its cluster, write the `.`
    /// and `..` entries, and add it to its parent.
    pub fn create_directory(&mut self, path: &str) -> (r: Result<(), &'static str>)
        requires
            old(self).wf(),
            path.spec_bytes().len() <= 0xffff,
        ensures
            final(self).wf(),
            final(self).same_config(*old(self)),
    {
        let components = path_components(path);
        let n = components.len();
        if n == 0 {
            return Err("Parent dir not found");
        }
        let parent_cluster = match self.walk_dir(&components, n - 1) {
            Ok(c) => c,
            Err(e) => {
                return Err(e);
            },
        };
        let new_cluster = match self.allocate_cluster() {
            Some(c) => c,
            None => {
                return Err("No clusters available");
            },
        };
        let mut dir_data = zero_cluster(self.cluster_size);
        let dot = vec![46u8];
        let dotdot = vec![46u8, 46u8];
        write_dot_entry(&mut dir_data, 0, dot.as_slice(), 0x10, new_cluster);
        write_dot_entry(&mut dir_data, 32, dotdot.as_slice(), 0x10, parent_cluster);
        self.write_cluster(new_cluster, &dir_data);
        let name_raw = to_short_name(components[n - 1].as_slice());
        let entry = DirectoryEntry {
            name: name_raw,
            attr: 0x10,
            cluster_high: (new_cluster / 0x1_0000) as u16,
            cluster_low: (new_cluster % 0x1_0000) as u16,
            file_size: 0,
        };
        proof {
            lemma_cluster_halves(new_cluster);
        }
        self.write_directory_entry(parent_cluster, &entry)
    }

    /// Create a file at `path` with a chain long enough for `size` bytes.
    pub fn create_file(&mut self, path: &str, size: u32) -> (r: Result<(), &'static str>)
        requires
            old(self).wf(),
            path.spec_bytes().len() <= 0xffff,
        ensures
            final(self).wf(),
            final(self).same_config(*old(self)),
    {
        let components = path_components(path);
        let n = components.len();
        if n == 0 {
            return Err("Parent dir not found");
        }
        let parent_cluster = match self.walk_dir(&components, n - 1) {
            Ok(c) => c,
            Err(e) => {
                return Err(e);
            },
        };
        let cs = self.cluster_size as u64;
        let clusters_needed = ((size as u64 + cs - 1) / cs) as u64;
        let mut chain_last: u32 = 0;
        let mut start_cluster: u32 = 0;
        let mut made: u64 = 0;
        while made < clusters_needed
            invariant
                self.wf(),
                self.same_config(*old(self)),
            decreases clusters_needed - made,
        {
            let cluster = match self.allocate_cluster() {
                Some(c) => c,
                None => {
                    return Err("No clusters available");
                },
            };
            if made == 0 {
                start_cluster = cluster;
            } else {
                if chain_last < self.fat.fat_size_sectors * 128 {
                    self.set_next_cluster(chain_last, cluster);
                }
            }
            chain_last = cluster;
            made = made + 1;
        }
        if made > 0 {
            if chain_last < self.fat.fat_size_sectors * 128 {
                self.set_next_cluster(chain_last, CHAIN_END_MARK);
            }
        }
        let name_raw = to_short_name(components[n - 1].as_slice());
        let entry = DirectoryEntry {
            name: name_raw,
            attr: 0x20,
            cluster_high: (start_cluster / 0x1_0000) as u16,
            cluster_low: (start_cluster % 0x1_0000) as u16,
            file_size: size,
        };
        proof {
            lemma_cluster_halves(start_cluster);
        }
        self.write_directory_entry(parent_cluster, &entry)
    }

    /// Read the bytes of the file at `path`.
    pub fn read_file(&mut self, path: &str) -> (r: Result<Vec<u8>, &'static str>)
        requires
            old(self).wf(),
            path.spec_bytes().len() <= 0xffff,
        ensures
            final(self).wf(),
            final(self).same_state(*old(self)),
            match r {
                Ok(data) => data@.len() <= u32::MAX,
                Err(_) => true,
            },
    {
        let entry = match self.find_path(path) {
            Some(e) => e,
            None => {
                return Err("File not found");
            },
        };
        if entry.is_directory() {
            return Err("Directory, not a file");
        }
        let total_entries = self.fat.fat_size_sectors * 128;
        let mut remaining = entry.file_size;
        let mut cluster = entry.starting_cluster();
        let mut result: Vec<u8> = Vec::new();
        let mut steps: u32 = 0;
        while steps <= total_entries
            invariant
                self.wf(),
                self.same_state(*old(self)),
                total_entries == old(self).spec_total_clusters(),
                result@.len() + remaining <= u32::MAX,
            decreases total_entries + 1 - steps,
        {
            if cluster >= CHAIN_END || cluster < 2 || cluster >= total_entries || remaining == 0 {
                return Ok(result);
            }
            let data = self.read_cluster(cluster);
            let to_copy = if remaining < self.cluster_size as u32 {
                remaining
            } else {
                self.cluster_size as u32
            };
            let mut j: usize = 0;
            let ghost res_pre = result@;
            while j < to_copy as usize
                invariant
                    j <= to_copy as usize,
                    to_copy as int <= data@.len(),
                    result@.len() == res_pre.len() + j,
                decreases to_copy as int - j,
            {
                result.push(data[j]);
                j = j + 1;
            }
            remaining = remaining - to_copy;
            match self.next_cluster(cluster) {
                Some(next) => {
                    cluster = next;
                },
                None => {
                    return Ok(result);
                },
            }
            steps = steps + 1;
        }
        Ok(result)
    }

    /// Point the directory entry named by `path` at `cluster`.
    pub fn set_entry_cluster(&mut self, path: &str, cluster: u32) -> (r: Result<
        (),
        &'static str,
    >)
        requires
            old(self).wf(),
            path.spec_bytes().len() <= 0xffff,
        ensures
            final(self).wf(),
            final(self).same_config(*old(self)),
    {
        let components = path_components(path);
        let n = components.len();
        if n == 0 {
            return Err("File not found in the directory");
        }
        let cluster_dir = match self.walk_dir(&components, n - 1) {
            Ok(c) => c,
            Err(e) => {
                return Err(e);
            },
        };
        let mut entries = self.read_directory(cluster_dir);
        let short = to_short_name(components[n - 1].as_slice());
        let en = entries.len();
        let mut ei: usize = 0;
        while ei < en
            invariant
                ei <= en,
                en == entries@.len(),
                self.wf(),
                self.same_config(*old(self)),
                forall|k: int|
                    0 <= k < entries@.len() ==> (#[trigger] entries@[k]).name@.len() == 11,
            decreases en - ei,
        {
            if bytes_eq(&entries[ei].name, &short) {
                proof {
                    lemma_cluster_halves(cluster);
                }
                let lo = (cluster % 0x1_0000) as u16;
                let hi = (cluster / 0x1_0000) as u16;
                let patched = DirectoryEntry {
                    name: decode_clone(&entries[ei]).name,
                    attr: entries[ei].attr,
                    cluster_high: hi,
                    cluster_low: lo,
                    file_size: entries[ei].file_size,
                };
                entries[ei] = patched;
                return self.write_directory(cluster_dir, &entries);
            }
            ei = ei + 1;
        }
        Err("File not found in the directory")
    }
}

/// An entry's byte window lies within the cluster.
proof fn lemma_entry_offset_in_cluster(i: int, count: int, cluster_size: int)
    requires
        0 <= i < count,
        count == cluster_size / 32,
        cluster_size >= 0,
    ensures
        i * 32 + 32 <= cluster_size,
        i * 32 >= 0,
{
    assert(i * 32 + 32 <= count * 32) by (nonlinear_arith)
        requires
            i < count,
    ;
    assert(count * 32 <= cluster_size) by (nonlinear_arith)
        requires
            count == cluster_size / 32,
            cluster_size >= 0,
    ;
    assert(i * 32 >= 0) by (nonlinear_arith)
        requires
            i >= 0,
    ;
}

/// The two 16-bit halves of a cluster number fit their fields.
proof fn lemma_cluster_halves(c: u32)
    ensures
        c as int / 0x1_0000 <= 0xffff,
        c as int % 0x1_0000 <= 0xffff,
{
    assert(c as int / 0x1_0000 <= 0xffff) by (nonlinear_arith)
        requires
            c <= u32::MAX,
    ;
}

/// A zeroed buffer of one cluster.
fn zero_cluster(cluster_size: usize) -> (r: Vec<u8>)
    requires
        cluster_size <= 4096,
    ensures
        r@.len() == cluster_size,
        forall|k: int| 0 <= k < cluster_size ==> r@[k] == 0u8,
{
    let mut out: Vec<u8> = Vec::new();
    let mut j: usize = 0;
    while j < cluster_size
        invariant
            j <= cluster_size,
            out@.len() == j,
            forall|k: int| 0 <= k < j ==> out@[k] == 0u8,
        decreases cluster_size - j,
    {
        out.push(0u8);
        j = j + 1;
    }
    out
}

impl<D: BlockDevice> FAT32Volume<D> {
    /// Overwrite the file at `path` with `data`: reuse its chain, grow it
    /// cluster by cluster if the data needs more, trim and free the tail
    /// if it needs fewer, and record the new size.
    pub fn write_file(&mut self, path: &str, data: &Vec<u8>) -> (r: Result<(), &'static str>)
        requires
            old(self).wf(),
            path.spec_bytes().len() <= 0xffff,
            data@.len() <= 0x1000_0000,
        ensures
            final(self).wf(),
            final(self).same_config(*old(self)),
    {
        let entry = match self.find_path(path) {
            Some(e) => e,
            None => {
                return Err("File not found");
            },
        };
        if entry.is_directory() {
            return Err("Cant write in directory");
        }
        let total_entries = self.fat.fat_size_sectors * 128;
        let mut current_cluster = entry.starting_cluster();
        if current_cluster < 2 {
            current_cluster = match self.allocate_cluster() {
                Some(c) => c,
                None => {
                    return Err("No clusters available");
                },
            };
            self.set_next_cluster(current_cluster, CHAIN_END_MARK);
            match self.set_entry_cluster(path, current_cluster) {
                Ok(()) => {},
                Err(e) => {
                    return Err(e);
                },
            }
        }
        // Collect the existing chain, 128 clusters at most.
        let mut chain: Vec<u32> = Vec::new();
        chain.push(current_cluster);
        let mut steps: u32 = 0;
        while steps <= total_entries
            invariant
                self.wf(),
                self.same_config(*old(self)),
                total_entries == old(self).spec_total_clusters(),
                chain@.len() >= 1,
                chain@.len() <= 128,
            decreases total_entries + 1 - steps,
        {
            if current_cluster >= total_entries {
                break;
            }
            match self.next_cluster(current_cluster) {
                Some(next) => {
                    if next >= CHAIN_END {
                        break;
                    }
                    current_cluster = next;
                    if chain.len() >= 128 {
                        return Err("Clusters chain is too long");
                    }
                    chain.push(current_cluster);
                },
                None => {
                    break;
                },
            }
            steps = steps + 1;
        }
        let cs = self.cluster_size as u64;
        let clusters_needed = ((data.len() as u64 + cs - 1) / cs) as usize;
        if clusters_needed > 128 {
            return Err("Clusters chain is too long");
        }
        while chain.len() < clusters_needed
            invariant
                self.wf(),
                self.same_config(*old(self)),
                chain@.len() >= 1,
                clusters_needed <= 128,
            decreases clusters_needed - chain@.len(),
        {
            let new_cluster = match self.allocate_cluster() {
                Some(c) => c,
                None => {
                    return Err("No clusters available");
                },
            };
            let prev = chain[chain.len() - 1];
            if prev < self.fat.fat_size_sectors * 128 {
                self.set_next_cluster(prev, new_cluster);
            }
            self.set_next_cluster(new_cluster, CHAIN_END_MARK);
            chain.push(new_cluster);
        }
        // Write the data cluster by cluster.
        let mut offset: usize = 0;
        let mut i: usize = 0;
        while i < clusters_needed
            invariant
                i <= clusters_needed,
                clusters_needed <= chain@.len(),
                self.wf(),
                self.same_config(*old(self)),
                self.cluster_size <= 4096,
                self.cluster_size >= 1,
                data@.len() <= 0x1000_0000,
                offset <= data@.len(),
                offset == i * self.cluster_size || offset == data@.len(),
            decreases clusters_needed - i,
        {
            let cluster = chain[i];
            if !self.cluster_in_range(cluster) {
                return Err("cluster out of range");
            }
            let mut block = zero_cluster(self.cluster_size);
            let to_copy = if data.len() - offset < self.cluster_size {
                data.len() - offset
            } else {
                self.cluster_size
            };
            let mut j: usize = 0;
            while j < to_copy
                invariant
                    j <= to_copy,
                    offset + to_copy <= data@.len(),
                    data@.len() <= 0x1000_0000,
                    block@.len() == self.cluster_size,
                    to_copy <= self.cluster_size,
                decreases to_copy - j,
            {
                block[j] = data[offset + j];
                j = j + 1;
            }
            self.write_cluster(cluster, &block);
            proof {
                assert((i + 1) * self.cluster_size == i * self.cluster_size
                    + self.cluster_size) by (nonlinear_arith);
            }
            offset = offset + to_copy;
            i = i + 1;
        }
        // Trim the leftover tail of the old chain.
        if chain.len() > clusters_needed && clusters_needed > 0 {
            let last_kept = chain[clusters_needed - 1];
            if last_kept < self.fat.fat_size_sectors * 128 {
                self.set_next_cluster(last_kept, CHAIN_END_MARK);
            }
            let mut t: usize = clusters_needed;
            let cn = chain.len();
            while t < cn
                invariant
                    t <= cn,
                    cn == chain@.len(),
                    self.wf(),
                    self.same_config(*old(self)),
                decreases cn - t,
            {
                self.free_cluster_chain(chain[t]);
                t = t + 1;
            }
        }
        if data.len() > u32::MAX as usize {
            return Err("File is too large");
        }
        self.update_file_size(path, data.len() as u32)
    }

    /// Remove the file named by `path` from its directory and free its
    /// chain.
    pub fn delete_file(&mut self, path: &str) -> (r: Result<(), &'static str>)
        requires
            old(self).wf(),
            path.spec_bytes().len() <= 0xffff,
        ensures
            final(self).wf(),
            final(self).same_config(*old(self)),
    {
        let components = path_components(path);
        let n = components.len();
        if n == 0 {
            return Err("Entry not found");
        }
        let parent_cluster = match self.walk_dir(&components, n - 1) {
            Ok(c) => c,
            Err(e) => {
                return Err(e);
            },
        };
        let name = decode_clone_bytes(&components[n - 1]);
        self.delete_entry_from_dir(parent_cluster, &name)
    }

    /// Remove the directory named by `path`, which must hold nothing but
    /// its `.` and `..` entries.
    pub fn delete_directory(&mut self, path: &str) -> (r: Result<(), &'static str>)
        requires
            old(self).wf(),
            path.spec_bytes().len() <= 0xffff,
        ensures
            final(self).wf(),
            final(self).same_config(*old(self)),
    {
        let entry = match self.find_path(path) {
            Some(e) => e,
            None => {
                return Err("Directory not found");
            },
        };
        if !entry.is_directory() {
            return Err("Not a directory");
        }
        let cluster = entry.starting_cluster();
        let entries = self.read_directory(cluster);
        let en = entries.len();
        let mut ei: usize = 0;
        let dot = vec![46u8];
        let dotdot = vec![46u8, 46u8];
        while ei < en
            invariant
                ei <= en,
                en == entries@.len(),
                self.wf(),
                self.same_config(*old(self)),
                forall|k: int|
                    0 <= k < entries@.len() ==> (#[trigger] entries@[k]).name@.len() == 11,
                dot@.len() == 1,
                dotdot@.len() == 2,
            decreases en - ei,
        {
            let name = entries[ei].filename();
            if !bytes_eq(&name, &dot) && !bytes_eq(&name, &dotdot) {
                return Err("Directory is not empty");
            }
            ei = ei + 1;
        }
        let components = path_components(path);
        let n = components.len();
        if n == 0 {
            return Err("Entry not found");
        }
        let parent_cluster = match self.walk_dir(&components, n - 1) {
            Ok(c) => c,
            Err(e) => {
                return Err(e);
            },
        };
        let name = decode_clone_bytes(&components[n - 1]);
        self.delete_entry_from_dir(parent_cluster, &name)
    }

    /// Find `name` in the directory chain at `parent_cluster`, free the
    /// entry's chain and mark the entry deleted.
    pub fn delete_entry_from_dir(&mut self, parent_cluster: u32, name: &Vec<u8>) -> (r: Result<
        (),
        &'static str,
    >)
        requires
            old(self).wf(),
            name@.len() <= 0xffff,
        ensures
            final(self).wf(),
            final(self).same_config(*old(self)),
    {
        let raw_name = to_short_name(name.as_slice());
        let total_entries = self.fat.fat_size_sectors * 128;
        let mut current = parent_cluster;
        let mut steps: u32 = 0;
        while steps <= total_entries
            invariant
                self.wf(),
                self.same_config(*old(self)),
                total_entries == old(self).spec_total_clusters(),
                raw_name@.len() == 11,
            decreases total_entries + 1 - steps,
        {
            if current >= CHAIN_END || current < 2 || current >= total_entries {
                return Err("Entry not found");
            }
            let mut data = self.read_cluster(current);
            let count = self.cluster_size / 32;
            let mut i: usize = 0;
            while i < count
                invariant
                    i <= count,
                    self.wf(),
                    self.same_config(*old(self)),
                    2 <= current < old(self).spec_total_clusters(),
                    count == self.cluster_size / 32,
                    self.cluster_size <= 4096,
                    data@.len() == self.cluster_size,
                    raw_name@.len() == 11,
                decreases count - i,
            {
                let offset = i * 32;
                proof {
                    lemma_entry_offset_in_cluster(i as int, count as int, self.cluster_size as int);
                }
                if data[offset] == 0x00 || data[offset] == 0xE5 || data[offset + 11] == 0x0F {
                    i = i + 1;
                    continue;
                }
                let entry = decode_entry(&data, offset);
                if bytes_eq(&entry.name, &raw_name) {
                    let first_cluster = entry.starting_cluster();
                    self.free_cluster_chain(first_cluster);
                    let mut data = data;
                    data[offset] = 0xE5;
                    self.write_cluster(current, &data);
                    return Ok(());
                }
                i = i + 1;
            }
            match self.next_cluster(current) {
                Some(next) => {
                    current = next;
                },
                None => {
                    return Err("Entry not found");
                },
            }
            steps = steps + 1;
        }
        Err("Entry not found")
    }

    /// Record a new size in the directory entry named by `path`.
    pub fn update_file_size(&mut self, path: &str, new_size: u32) -> (r: Result<
        (),
        &'static str,
    >)
        requires
            old(self).wf(),
            path.spec_bytes().len() <= 0xffff,
        ensures
            final(self).wf(),
            final(self).same_config(*old(self)),
    {
        let components = path_components(path);
        let n = components.len();
        if n == 0 {
            return Err("DirectoryEntry not found");
        }
        let parent_cluster = match self.walk_dir(&components, n - 1) {
            Ok(c) => c,
            Err(e) => {
                return Err(e);
            },
        };
        let raw_name = to_short_name(components[n - 1].as_slice());
        let total_entries = self.fat.fat_size_sectors * 128;
        let mut current = parent_cluster;
        let mut steps: u32 = 0;
        while steps <= total_entries
            invariant
                self.wf(),
                self.same_config(*old(self)),
                total_entries == old(self).spec_total_clusters(),
                raw_name@.len() == 11,
            decreases total_entries + 1 - steps,
        {
            if current >= CHAIN_END || current < 2 || current >= total_entries {
                return Err("DirectoryEntry not found");
            }
            let mut data = self.read_cluster(current);
            let count = self.cluster_size / 32;
            let mut i: usize = 0;
            while i < count
                invariant
                    i <= count,
                    self.wf(),
                    self.same_config(*old(self)),
                    2 <= current < old(self).spec_total_clusters(),
                    count == self.cluster_size / 32,
                    self.cluster_size <= 4096,
                    data@.len() == self.cluster_size,
                    raw_name@.len() == 11,
                decreases count - i,
            {
                let offset = i * 32;
                proof {
                    lemma_entry_offset_in_cluster(i as int, count as int, self.cluster_size as int);
                }
                if data[offset] == 0x00 || data[offset] == 0xE5 || data[offset + 11] == 0x0F {
                    i = i + 1;
                    continue;
                }
                let entry = decode_entry(&data, offset);
                if bytes_eq(&entry.name, &raw_name) {
                    let mut data = data;
                    data[offset + 28] = (new_size & 0xff) as u8;
                    data[offset + 29] = ((new_size / 0x100) & 0xff) as u8;
                    data[offset + 30] = ((new_size / 0x1_0000) & 0xff) as u8;
                    data[offset + 31] = ((new_size / 0x100_0000) & 0xff) as u8;
                    self.write_cluster(current, &data);
                    return Ok(());
                }
                i = i + 1;
            }
            match self.next_cluster(current) {
                Some(next) => {
                    current = next;
                },
                None => {
                    return Err("DirectoryEntry not found");
                },
            }
            steps = steps + 1;
        }
        Err("DirectoryEntry not found")
    }

    /// The display names in the directory at `path`, directories marked
    /// with a trailing slash; `.` and `..` are left out.
    pub fn list_dir(&mut self, path: &str) -> (r: Result<Vec<Vec<u8>>, &'static str>)
        requires
            old(self).wf(),
            path.spec_bytes().len() <= 0xffff,
        ensures
            final(self).wf(),
            final(self).same_state(*old(self)),
    {
        let components = path_components(path);
        let cluster = if components.len() == 0 {
            self.root_dir_cluster
        } else {
            let entry = match self.find_path(path) {
                Some(e) => e,
                None => {
                    return Err("Directory not found");
                },
            };
            if !entry.is_directory() {
                return Err("Not a directory");
            }
            entry.starting_cluster()
        };
        let entries = self.read_directory(cluster);
        let mut names: Vec<Vec<u8>> = Vec::new();
        let en = entries.len();
        let mut ei: usize = 0;
        let dot = vec![46u8];
        let dotdot = vec![46u8, 46u8];
        while ei < en
            invariant
                ei <= en,
                en == entries@.len(),
                forall|k: int|
                    0 <= k < entries@.len() ==> (#[trigger] entries@[k]).name@.len() == 11,
            decreases en - ei,
        {
            let mut name = entries[ei].filename();
            if !bytes_eq(&name, &dot) && !bytes_eq(&name, &dotdot) {
                if entries[ei].is_directory() {
                    name.push(47u8);
                }
                names.push(name);
            }
            ei = ei + 1;
        }
        Ok(names)
    }
}

/// An owned copy of a byte vector.
fn decode_clone_bytes(v: &Vec<u8>) -> (r: Vec<u8>)
    ensures
        r@ == v@,
{
    let mut out: Vec<u8> = Vec::new();
    let n = v.len();
    let mut i: usize = 0;
    while i < n
        invariant
            i <= n,
            n == v@.len(),
            out@ == v@.subrange(0, i as int),
        decreases n - i,
    {
        let b = v[i];
        out.push(b);
        proof {
            assert(v@.subrange(0, i + 1 as int) == v@.subrange(0, i as int).push(b));
        }
        i = i + 1;
    }
    proof {
        assert(v@.subrange(0, n as int) =~= v@);
    }
    out
}

/// Decode the volume boot record and mount the volume; geometry this
/// driver cannot work with is refused.
pub fn mount_fat32<D: BlockDevice>(device: D) -> (r: Result<FAT32Volume<D>, &'static str>)
    requires
        device.dev_wf(),
        sectors_sized(device),
    ensures
        match r {
            Ok(v) => v.wf() && (forall|l: u32| v.device.sector(l) == device.sector(l))
                && v.bytes_per_sector == le16_at(device.sector(0), 11) && v.sectors_per_cluster
                == device.sector(0)[13] && v.reserved_sector_count == le16_at(device.sector(0), 14)
                && v.num_fats == device.sector(0)[16] && v.fat_size_sectors == le32_at(
                device.sector(0),
                36,
            ) && v.root_dir_cluster == le32_at(device.sector(0), 44),
            Err(_) => true,
        },
{
    let mut device = device;
    let vbr = device.read_sector(0);
    let bytes_per_sector = vbr[11] as u16 + vbr[12] as u16 * 0x100;
    let sectors_per_cluster = vbr[13];
    let reserved_sector_count = vbr[14] as u16 + vbr[15] as u16 * 0x100;
    let num_fats = vbr[16];
    let fat_size_sectors = vbr[36] as u32 + vbr[37] as u32 * 0x100 + vbr[38] as u32 * 0x1_0000
        + vbr[39] as u32 * 0x100_0000;
    let root_dir_cluster = vbr[44] as u32 + vbr[45] as u32 * 0x100 + vbr[46] as u32 * 0x1_0000
        + vbr[47] as u32 * 0x100_0000;
    if bytes_per_sector != 512 {
        return Err("unsupported sector size");
    }
    if sectors_per_cluster < 1 || sectors_per_cluster > 8 {
        return Err("unsupported cluster size");
    }
    if fat_size_sectors < 1 || fat_size_sectors > 0x3f_ffff {
        return Err("unsupported table size");
    }
    proof {
        assert(num_fats as int * fat_size_sectors as int <= 255 * 0x3f_ffff) by (nonlinear_arith)
            requires
                num_fats <= 255,
                fat_size_sectors <= 0x3f_ffff,
        ;
        assert(fat_size_sectors as int * 128 * sectors_per_cluster as int <= 0x3f_ffff * 128
            * 8) by (nonlinear_arith)
            requires
                fat_size_sectors <= 0x3f_ffff,
                sectors_per_cluster <= 8,
        ;
    }
    let data_end: u64 = reserved_sector_count as u64 + num_fats as u64 * fat_size_sectors as u64
        + fat_size_sectors as u64 * 128 * sectors_per_cluster as u64;
    if data_end > u32::MAX as u64 {
        return Err("volume too large");
    }
    let fat_start_lba = reserved_sector_count as u32;
    let fat = FAT::new(fat_start_lba, fat_size_sectors, bytes_per_sector);
    proof {
        assert(bytes_per_sector as int * sectors_per_cluster as int == 512
            * sectors_per_cluster as int) by (nonlinear_arith)
            requires
                bytes_per_sector == 512,
        ;
        assert(512 * sectors_per_cluster as int <= 4096) by (nonlinear_arith)
            requires
                sectors_per_cluster <= 8,
        ;
        assert(fat_size_sectors as int * 128 * sectors_per_cluster as int == (
        fat_size_sectors as int * 128) * sectors_per_cluster as int) by (nonlinear_arith);
    }
    Ok(
        FAT32Volume {
            fat,
            cluster_size: bytes_per_sector as usize * sectors_per_cluster as usize,
            root_dir_cluster,
            device,
            sectors_per_cluster,
            bytes_per_sector,
            reserved_sector_count,
            fat_size_sectors,
            num_fats,
        },
    )
}

} // verus!
