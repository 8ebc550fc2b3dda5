//! A minimal FAT16 reader and writer over the same sector-device trait as
//! the FAT32 driver: root-directory scan, cluster chains of 16-bit
//! entries.

use vstd::prelude::*;

verus! {

use crate::fat32::BlockDevice;
use crate::fat32::sectors_sized;

/// A mounted FAT16 file system.
pub struct Fat16Fs<D: BlockDevice> {
    pub device: D,
    pub fat_start: u32,
    pub root_dir_start: u32,
    pub data_start: u32,
    pub root_dir_sectors: u32,
}

impl<D: BlockDevice> Fat16Fs<D> {
    pub open spec fn wf(self) -> bool {
        &&& self.device.dev_wf()
        &&& sectors_sized(self.device)
        &&& self.root_dir_sectors <= 0x1000
        &&& self.root_dir_start + self.root_dir_sectors <= u32::MAX
        &&& self.fat_start <= 0xffff
        &&& self.data_start <= 0x1_0000_0000 - 0x1_0000
    }

    /// Decode the boot sector and compute the layout.  Geometry the
    /// reader cannot work with is refused.
    pub fn new(device: D) -> (r: Result<Fat16Fs<D>, &'static str>)
        requires
            device.dev_wf(),
            sectors_sized(device),
        ensures
            match r {
                Ok(fs) => fs.wf() && (forall|l: u32| fs.device.sector(l) == device.sector(l)),
                Err(_) => true,
            },
    {
        let mut device = device;
        let sector = device.read_sector(0);
        let bytes_per_sector = sector[11] as u32 + sector[12] as u32 * 0x100;
        let reserved_sectors = sector[14] as u32 + sector[15] as u32 * 0x100;
        let fat_count = sector[16] as u32;
        let root_dir_entries = sector[17] as u32 + sector[18] as u32 * 0x100;
        let fat_size = sector[22] as u32 + sector[23] as u32 * 0x100;
        if bytes_per_sector != 512 {
            return Err("unsupported sector size");
        }
        proof {
            assert(fat_count as int * fat_size as int <= 255 * 0xffff) by (nonlinear_arith)
                requires
                    fat_count <= 255,
                    fat_size <= 0xffff,
            ;
        }
        let root_dir_sectors = (root_dir_entries * 32 + (bytes_per_sector - 1)) / bytes_per_sector;
        let root_dir_start = reserved_sectors + fat_count * fat_size;
        let data_start = root_dir_start + root_dir_sectors;
        Ok(
            Fat16Fs {
                device,
                fat_start: reserved_sectors,
                root_dir_start,
                data_start,
                root_dir_sectors,
            },
        )
    }

    /// Read the file with the given 11-byte name from the root directory;
    /// `None` when no entry carries that name.
    pub fn read_file(&mut self, name: &Vec<u8>) -> (r: Option<Vec<u8>>)
        requires
            old(self).wf(),
            name@.len() == 11,
        ensures
            final(self).wf(),
            forall|l: u32| final(self).device.sector(l) == old(self).device.sector(l),
            final(self).fat_start == old(self).fat_start,
            final(self).root_dir_start == old(self).root_dir_start,
            final(self).data_start == old(self).data_start,
            final(self).root_dir_sectors == old(self).root_dir_sectors,
    {
        let rds = self.root_dir_sectors;
        let mut i: u32 = 0;
        while i < rds
            invariant
                i <= rds,
                self.wf(),
                rds == self.root_dir_sectors,
                forall|l: u32| self.device.sector(l) == old(self).device.sector(l),
                self.fat_start == old(self).fat_start,
                self.root_dir_start == old(self).root_dir_start,
                self.data_start == old(self).data_start,
                self.root_dir_sectors == old(self).root_dir_sectors,
                name@.len() == 11,
            decreases rds - i,
        {
            let sector = self.device.read_sector(self.root_dir_start + i);
            let mut j: usize = 0;
            while j < 16
                invariant
                    j <= 16,
                    self.wf(),
                    sector@.len() == 512,
                    forall|l: u32| self.device.sector(l) == old(self).device.sector(l),
                    self.fat_start == old(self).fat_start,
                    self.root_dir_start == old(self).root_dir_start,
                    self.data_start == old(self).data_start,
                    self.root_dir_sectors == old(self).root_dir_sectors,
                    name@.len() == 11,
                decreases 16 - j,
            {
                let offset = j * 32;
                let mut matches = true;
                let mut k: usize = 0;
                while k < 11
                    invariant
                        k <= 11,
                        offset + 32 <= 512,
                        sector@.len() == 512,
                        name@.len() == 11,
                    decreases 11 - k,
                {
                    if sector[offset + k] != name[k] {
                        matches = false;
                        break;
                    }
                    k = k + 1;
                }
                if matches {
                    let first_cluster = sector[offset + 26] as u32 + sector[offset + 27] as u32
                        * 0x100;
                    let size = sector[offset + 28] as u32 + sector[offset + 29] as u32 * 0x100
                        + sector[offset + 30] as u32 * 0x1_0000 + sector[offset + 31] as u32
                        * 0x100_0000;
                    return Some(self.read_chain(first_cluster, size));
                }
                j = j + 1;
            }
            i = i + 1;
        }
        None
    }

    /// Follow a 16-bit cluster chain, collecting `size` bytes; corrupt
    /// chains end the read early.
    fn read_chain(&mut self, first_cluster: u32, size: u32) -> (r: Vec<u8>)
        requires
            old(self).wf(),
        ensures
            final(self).wf(),
            forall|l: u32| final(self).device.sector(l) == old(self).device.sector(l),
            final(self).fat_start == old(self).fat_start,
            final(self).root_dir_start == old(self).root_dir_start,
            final(self).data_start == old(self).data_start,
            final(self).root_dir_sectors == old(self).root_dir_sectors,
    {
        let mut out: Vec<u8> = Vec::new();
        let mut current: u32 = first_cluster;
        let mut read: u32 = 0;
        let mut steps: u32 = 0;
        while steps <= 0xffff
            invariant
                self.wf(),
                forall|l: u32| self.device.sector(l) == old(self).device.sector(l),
                self.fat_start == old(self).fat_start,
                self.root_dir_start == old(self).root_dir_start,
                self.data_start == old(self).data_start,
                self.root_dir_sectors == old(self).root_dir_sectors,
                read <= size,
                out@.len() == read,
            decreases 0xffff + 1 - steps,
        {
            if read >= size || current < 2 || current >= 0xfff8 {
                return out;
            }
            let lba = self.data_start + (current - 2);
            let sector = self.device.read_sector(lba);
            let to_copy = if size - read < 512 {
                (size - read) as usize
            } else {
                512
            };
            let mut k: usize = 0;
            let ghost before = out@;
            while k < to_copy
                invariant
                    k <= to_copy,
                    to_copy <= 512,
                    sector@.len() == 512,
                    out@.len() == before.len() + k,
                decreases to_copy - k,
            {
                out.push(sector[k]);
                k = k + 1;
            }
            read = read + to_copy as u32;
            // Next link of the chain.
            let fat_offset = current * 2;
            let fat_sector = fat_offset / 512;
            let ent_offset = (fat_offset % 512) as usize;
            let fs = self.device.read_sector(self.fat_start + fat_sector);
            proof {
                assert(current * 2 % 512 + 2 <= 512) by (nonlinear_arith)
                    requires
                        current < 0xfff8,
                ;
            }
            current = fs[ent_offset] as u32 + fs[ent_offset + 1] as u32 * 0x100;
            steps = steps + 1;
        }
        out
    }

    /// Write `data` as a new root-directory file named `name`, in the
    /// first free cluster and directory slot; an existing file of that
    /// name, a full directory or a full table make it fail.
    pub fn write_file(&mut self, name: &Vec<u8>, data: &Vec<u8>) -> (r: bool)
        requires
            old(self).wf(),
            name@.len() == 11,
            data@.len() <= 512,
        ensures
            final(self).wf(),
            final(self).fat_start == old(self).fat_start,
            final(self).root_dir_start == old(self).root_dir_start,
            final(self).data_start == old(self).data_start,
            final(self).root_dir_sectors == old(self).root_dir_sectors,
    {
        // Refuse a second file of the same name.
        let rds = self.root_dir_sectors;
        let mut i: u32 = 0;
        while i < rds
            invariant
                i <= rds,
                self.wf(),
                rds == self.root_dir_sectors,
                self.fat_start == old(self).fat_start,
                self.root_dir_start == old(self).root_dir_start,
                self.data_start == old(self).data_start,
                self.root_dir_sectors == old(self).root_dir_sectors,
                name@.len() == 11,
                data@.len() <= 512,
            decreases rds - i,
        {
            let sector = self.device.read_sector(self.root_dir_start + i);
            let mut j: usize = 0;
            while j < 16
                invariant
                    j <= 16,
                    sector@.len() == 512,
                    name@.len() == 11,
                    self.wf(),
                    self.fat_start == old(self).fat_start,
                    self.root_dir_start == old(self).root_dir_start,
                    self.data_start == old(self).data_start,
                    self.root_dir_sectors == old(self).root_dir_sectors,
                decreases 16 - j,
            {
                let offset = j * 32;
                let mut matches = true;
                let mut k: usize = 0;
                while k < 11
                    invariant
                        k <= 11,
                        offset + 32 <= 512,
                        sector@.len() == 512,
                        name@.len() == 11,
                    decreases 11 - k,
                {
                    if sector[offset + k] != name[k] {
                        matches = false;
                        break;
                    }
                    k = k + 1;
                }
                if matches {
                    return false;
                }
                j = j + 1;
            }
            i = i + 1;
        }
        // Find a free 16-bit table entry.
        let mut cluster_num: u32 = 0;
        let mut found = false;
        let mut fi: u32 = 0;
        while fi < 9 && !found
            invariant
                fi <= 9,
                self.wf(),
                self.fat_start == old(self).fat_start,
                self.root_dir_start == old(self).root_dir_start,
                self.data_start == old(self).data_start,
                self.root_dir_sectors == old(self).root_dir_sectors,
                found ==> 2 <= cluster_num < 0xfff8,
            decreases 9 - fi, (if found { 0int } else { 1int }),
        {
            let mut fat_sector = self.device.read_sector(self.fat_start + fi);
            let mut e: usize = 2;
            while e < 256 && !found
                invariant
                    2 <= e <= 256,
                    fi < 9,
                    self.wf(),
                    fat_sector@.len() == 512,
                    self.fat_start == old(self).fat_start,
                    self.root_dir_start == old(self).root_dir_start,
                    self.data_start == old(self).data_start,
                    self.root_dir_sectors == old(self).root_dir_sectors,
                    found ==> 2 <= cluster_num < 0xfff8,
                decreases 256 - e,
            {
                let lo = fat_sector[e * 2];
                let hi = fat_sector[e * 2 + 1];
                if lo == 0 && hi == 0 {
                    cluster_num = fi * 256 + e as u32;
                    if cluster_num >= 2 && cluster_num < 0xfff8 {
                        // Mark it as the chain end.
                        fat_sector[e * 2] = 0xF8;
                        fat_sector[e * 2 + 1] = 0xFF;
                        self.device.write_sector(self.fat_start + fi, &fat_sector);
                        found = true;
                    }
                }
                e = e + 1;
            }
            if !found {
                fi = fi + 1;
            }
        }
        if !found {
            return false;
        }
        // Write the single data sector.
        let lba = self.data_start + (cluster_num - 2);
        let mut data_sector: Vec<u8> = Vec::new();
        let mut k: usize = 0;
        while k < 512
            invariant
                k <= 512,
                data@.len() <= 512,
                data_sector@.len() == k,
            decreases 512 - k,
        {
            if k < data.len() {
                data_sector.push(data[k]);
            } else {
                data_sector.push(0u8);
            }
            k = k + 1;
        }
        self.device.write_sector(lba, &data_sector);
        // Add the directory entry in the first free slot.
        let mut i2: u32 = 0;
        while i2 < rds
            invariant
                i2 <= rds,
                self.wf(),
                rds == self.root_dir_sectors,
                self.fat_start == old(self).fat_start,
                self.root_dir_start == old(self).root_dir_start,
                self.data_start == old(self).data_start,
                self.root_dir_sectors == old(self).root_dir_sectors,
                name@.len() == 11,
                data@.len() <= 512,
                2 <= cluster_num < 0xfff8,
            decreases rds - i2,
        {
            let mut root_sector = self.device.read_sector(self.root_dir_start + i2);
            let mut j: usize = 0;
            while j < 16
                invariant
                    j <= 16,
                    self.wf(),
                    root_sector@.len() == 512,
                    i2 < rds,
                    rds == self.root_dir_sectors,
                    self.fat_start == old(self).fat_start,
                    self.root_dir_start == old(self).root_dir_start,
                    self.data_start == old(self).data_start,
                    self.root_dir_sectors == old(self).root_dir_sectors,
                    name@.len() == 11,
                    data@.len() <= 512,
                    2 <= cluster_num < 0xfff8,
                decreases 16 - j,
            {
                let offset = j * 32;
                if root_sector[offset] == 0x00 || root_sector[offset] == 0xE5 {
                    let mut k2: usize = 0;
                    while k2 < 11
                        invariant
                            k2 <= 11,
                            offset + 32 <= 512,
                            root_sector@.len() == 512,
                            name@.len() == 11,
                        decreases 11 - k2,
                    {
                        root_sector[offset + k2] = name[k2];
                        k2 = k2 + 1;
                    }
                    root_sector[offset + 11] = 0x20;
                    root_sector[offset + 26] = (cluster_num % 0x100) as u8;
                    root_sector[offset + 27] = ((cluster_num / 0x100) % 0x100) as u8;
                    let size = data.len() as u32;
                    root_sector[offset + 28] = (size & 0xff) as u8;
                    root_sector[offset + 29] = ((size / 0x100) & 0xff) as u8;
                    root_sector[offset + 30] = ((size / 0x1_0000) & 0xff) as u8;
                    root_sector[offset + 31] = ((size / 0x100_0000) & 0xff) as u8;
                    self.device.write_sector(self.root_dir_start + i2, &root_sector);
                    return true;
                }
                j = j + 1;
            }
            i2 = i2 + 1;
        }
        false
    }
}

} // verus!
