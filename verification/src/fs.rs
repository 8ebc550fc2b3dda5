//! The first, smallest filesystem the kernel had: a FAT12 reader over the
//! sector-device trait, scanning a fixed-size root directory.

use vstd::prelude::*;

verus! {

use crate::fat32::BlockDevice;
use crate::fat32::sectors_sized;

/// A mounted FAT12 file system.
pub struct Fat12Fs<D: BlockDevice> {
    pub device: D,
    pub fat_start: u32,
    pub data_start: u32,
    pub root_dir_start: u32,
}

impl<D: BlockDevice> Fat12Fs<D> {
    pub open spec fn wf(self) -> bool {
        &&& self.device.dev_wf()
        &&& sectors_sized(self.device)
        &&& self.fat_start <= 0xffff
        &&& self.root_dir_start <= 0x1ff_ffff
        &&& self.data_start <= 0x1ff_ffff
    }

    /// Decode the boot sector and compute the layout.
    pub fn new(device: D) -> (r: Result<Fat12Fs<D>, &'static str>)
        requires
            device.dev_wf(),
            sectors_sized(device),
        ensures
            match r {
                Ok(fs) => fs.wf() && (forall|l: u32| fs.device.sector(l) == device.sector(l)),
                Err(_) => true,
            },
    {
        let mut device = device;
        let sector = device.read_sector(0);
        let bytes_per_sector = sector[11] as u32 + sector[12] as u32 * 0x100;
        let reserved_sectors = sector[14] as u32 + sector[15] as u32 * 0x100;
        let fat_count = sector[16] as u32;
        let root_dir_entries = sector[17] as u32 + sector[18] as u32 * 0x100;
        let fat_size = sector[22] as u32 + sector[23] as u32 * 0x100;
        if bytes_per_sector != 512 {
            return Err("unsupported sector size");
        }
        proof {
            assert(fat_count as int * fat_size as int <= 255 * 0xffff) by (nonlinear_arith)
                requires
                    fat_count <= 255,
                    fat_size <= 0xffff,
            ;
        }
        let root_dir_sectors = (root_dir_entries * 32 + (bytes_per_sector - 1)) / bytes_per_sector;
        let root_dir_start = reserved_sectors + fat_count * fat_size;
        let data_start = root_dir_start + root_dir_sectors;
        Ok(Fat12Fs { device, fat_start: reserved_sectors, data_start, root_dir_start })
    }

    /// Read the file with the given 11-byte name out of the fixed 14
    /// root-directory sectors; `None` when no entry carries that name.
    pub fn read_file(&mut self, name: &Vec<u8>) -> (r: Option<Vec<u8>>)
        requires
            old(self).wf(),
            name@.len() == 11,
        ensures
            final(self).wf(),
            forall|l: u32| final(self).device.sector(l) == old(self).device.sector(l),
            final(self).fat_start == old(self).fat_start,
            final(self).data_start == old(self).data_start,
            final(self).root_dir_start == old(self).root_dir_start,
    {
        let mut i: u32 = 0;
        while i < 14
            invariant
                i <= 14,
                self.wf(),
                forall|l: u32| self.device.sector(l) == old(self).device.sector(l),
                self.fat_start == old(self).fat_start,
                self.data_start == old(self).data_start,
                self.root_dir_start == old(self).root_dir_start,
                name@.len() == 11,
            decreases 14 - i,
        {
            let sector = self.device.read_sector(self.root_dir_start + i);
            let mut j: usize = 0;
            while j < 16
                invariant
                    j <= 16,
                    self.wf(),
                    sector@.len() == 512,
                    forall|l: u32| self.device.sector(l) == old(self).device.sector(l),
                    self.fat_start == old(self).fat_start,
                    self.data_start == old(self).data_start,
                    self.root_dir_start == old(self).root_dir_start,
                    name@.len() == 11,
                decreases 16 - j,
            {
                let offset = j * 32;
                let mut matches = true;
                let mut k: usize = 0;
                while k < 11
                    invariant
                        k <= 11,
                        offset + 32 <= 512,
                        sector@.len() == 512,
                        name@.len() == 11,
                    decreases 11 - k,
                {
                    if sector[offset + k] != name[k] {
                        matches = false;
                        break;
                    }
                    k = k + 1;
                }
                if matches {
                    let first_cluster = sector[offset + 26] as u32 + sector[offset + 27] as u32
                        * 0x100;
                    let size = sector[offset + 28] as u32 + sector[offset + 29] as u32 * 0x100
                        + sector[offset + 30] as u32 * 0x1_0000 + sector[offset + 31] as u32
                        * 0x100_0000;
                    return Some(self.read_chain(first_cluster, size));
                }
                j = j + 1;
            }
            i = i + 1;
        }
        None
    }

    /// Follow a 12-bit cluster chain, collecting `size` bytes; corrupt
    /// chains end the read early.
    fn read_chain(&mut self, first_cluster: u32, size: u32) -> (r: Vec<u8>)
        requires
            old(self).wf(),
        ensures
            final(self).wf(),
            forall|l: u32| final(self).device.sector(l) == old(self).device.sector(l),
            final(self).fat_start == old(self).fat_start,
            final(self).data_start == old(self).data_start,
            final(self).root_dir_start == old(self).root_dir_start,
    {
        let mut out: Vec<u8> = Vec::new();
        let mut current: u32 = first_cluster;
        let mut read: u32 = 0;
        let mut steps: u32 = 0;
        while steps <= 0xfff
            invariant
                self.wf(),
                forall|l: u32| self.device.sector(l) == old(self).device.sector(l),
                self.fat_start == old(self).fat_start,
                self.data_start == old(self).data_start,
                self.root_dir_start == old(self).root_dir_start,
                read <= size,
                out@.len() == read,
            decreases 0xfff + 1 - steps,
        {
            if read >= size || current < 2 || current >= 0xff8 {
                return out;
            }
            let lba = self.data_start + (current - 2);
            let sector = self.device.read_sector(lba);
            let to_copy = if size - read < 512 {
                (size - read) as usize
            } else {
                512
            };
            let mut k: usize = 0;
            let ghost before = out@;
            while k < to_copy
                invariant
                    k <= to_copy,
                    to_copy <= 512,
                    sector@.len() == 512,
                    out@.len() == before.len() + k,
                decreases to_copy - k,
            {
                out.push(sector[k]);
                k = k + 1;
            }
            read = read + to_copy as u32;
            // Every 12-bit entry straddles a byte and a half of the table.
            let fat_offset = (current * 3) / 2;
            let fat_sector_num = fat_offset / 512;
            let fat_entry_offset = (fat_offset % 512) as usize;
            let fs = self.device.read_sector(self.fat_start + fat_sector_num);
            if fat_entry_offset + 1 >= 512 {
                // An entry straddling the last byte of a table sector is
                // left unfollowed.
                return out;
            }
            let fat_entry = fs[fat_entry_offset] as u32 + fs[fat_entry_offset + 1] as u32 * 0x100;
            current = if current % 2 != 0 {
                fat_entry / 16
            } else {
                fat_entry % 0x1000
            };
            steps = steps + 1;
        }
        out
    }
}

} // verus!
