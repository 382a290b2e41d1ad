//! What is known of the disks of the machine, and the figures of the one chosen.

use vstd::prelude::*;

verus! {

/// One disk as the system reports it.
#[derive(Debug, Clone)]
pub struct DiskInfo {
    pub name: String,
    pub mount_point: String,
    pub total_space: u64,
    pub available_space: u64,
}

/// The disks of the machine, and the space figures of the one last loaded.
pub struct SystemInfoService {
    disks: Vec<DiskInfo>,
    total_disk_space: u64,
    free_disk_space: u64,
    used_disk_space: u64,
}

impl SystemInfoService {
    /// A service over the given list of disks, with no disk loaded yet.
    pub fn new(disks: Vec<DiskInfo>) -> (s: Self)
        ensures
            s.disks() == disks@,
            s.total() == 0,
            s.free() == 0,
            s.used() == 0,
    {
        SystemInfoService { disks, total_disk_space: 0, free_disk_space: 0, used_disk_space: 0 }
    }

    pub closed spec fn disks(&self) -> Seq<DiskInfo> {
        self.disks@
    }

    pub closed spec fn total(&self) -> u64 {
        self.total_disk_space
    }

    pub closed spec fn free(&self) -> u64 {
        self.free_disk_space
    }

    pub closed spec fn used(&self) -> u64 {
        self.used_disk_space
    }

    pub fn get_available_disks(&self) -> (r: &[DiskInfo])
        ensures
            r@ == self.disks(),
    {
        self.disks.as_slice()
    }

    pub fn disk_selection(&self, selection: usize) -> (r: Option<&DiskInfo>)
        ensures
            selection < self.disks().len() ==> r == Some(&self.disks()[selection as int]),
            selection >= self.disks().len() ==> r.is_none(),
    {
        if selection < self.disks.len() {
            Some(&self.disks[selection])
        } else {
            None
        }
    }

    /// Loads the figures of the disk at `selection`; `false`, with nothing
    /// changed, when there is no such disk.
    pub fn load_disk_stats(&mut self, selection: usize) -> (loaded: bool)
        requires
            selection < old(self).disks().len() ==> old(self).disks()[selection as int].available_space
                <= old(self).disks()[selection as int].total_space,
        ensures
            loaded == (selection < old(self).disks().len()),
            final(self).disks() == old(self).disks(),
            loaded ==> final(self).total() == old(self).disks()[selection as int].total_space
                && final(self).free() == old(self).disks()[selection as int].available_space
                && final(self).used() == final(self).total() - final(self).free(),
            !loaded ==> final(self).total() == old(self).total() && final(self).free() == old(
                self,
            ).free() && final(self).used() == old(self).used(),
    {
        if selection < self.disks.len() {
            let total = self.disks[selection].total_space;
            let free = self.disks[selection].available_space;
            self.total_disk_space = total;
            self.free_disk_space = free;
            self.used_disk_space = total - free;
            true
        } else {
            false
        }
    }

    pub fn get_total_disk_space(&self) -> (r: u64)
        ensures
            r == self.total(),
    {
        self.total_disk_space
    }

    pub fn get_free_disk_space(&self) -> (r: u64)
        ensures
            r == self.free(),
    {
        self.free_disk_space
    }

    pub fn get_used_disk_space(&self) -> (r: u64)
        ensures
            r == self.used(),
    {
        self.used_disk_space
    }
}

} // verus!
