//! Disk and partition listing and the shrink plan on Linux, computed from the
//! device tree that `lsblk` reports.
use vstd::prelude::*;
use crate::blockdev::{child_seq, is_root_mount, preorder_forest, present_mounts, system_tree, BlockDevice, BlockDevices, DeviceType};
use crate::models::{copy_opt_string, opt_string_view, BitLockerState, Disk, DiskError, DiskView, Partition, PartitionView};
use crate::seqs::{first_where, lemma_first_where};
use crate::text::{
    all_digits, chars_of, decimal, decimal_string, digits_value, is_digit, lemma_decimal_digits, occurs_at, push_str,
    replace_all, replace_text, same_text, string_push,
};

verus! {

/// Gibibytes in `size`, truncated to 32 bits as a cast to `u32` does.
pub open spec fn gb_of(size: u64) -> u32 {
    ((size as int / 0x4000_0000) % 0x1_0000_0000) as u32
}

/// `size / 2^30` cast to `u32`.
pub fn size_in_gb(size: u64) -> (r: u32)
    ensures
        r == gb_of(size),
{
    let q = size / 0x4000_0000;
    (q % 0x1_0000_0000) as u32
}

/// The identifier that stays the same across boots: WWN, else serial, else
/// UUID.
pub open spec fn spec_stable_id(d: BlockDevice) -> Option<Seq<char>> {
    match d.wwn {
        Some(w) => Some(w@),
        None => match d.serial {
            Some(s) => Some(s@),
            None => opt_string_view(d.uuid),
        },
    }
}

/// Whether `d` may be listed: disks, and loop devices in debug mode.
pub open spec fn is_listed_type(d: BlockDevice, debug: bool) -> bool {
    d.device_type == DeviceType::Disk || (debug && d.device_type == DeviceType::Loop)
}

/// The disk record for top-level device `d`, when it is listed.
pub open spec fn linux_disk_view(d: BlockDevice, debug: bool) -> Option<DiskView> {
    if !is_listed_type(d, debug) {
        None
    } else {
        let id = match spec_stable_id(d) {
            Some(i) => Some(i),
            None => if debug && d.device_type == DeviceType::Loop {
                Some(d.name@)
            } else {
                None
            },
        };
        match id {
            Some(i) => Some(
                DiskView {
                    stable_id: i,
                    name: d.name@,
                    total_gb: gb_of(d.size),
                    free_gb: 0,
                    is_system_drive: system_tree(d),
                    is_gpt: false,
                },
            ),
            None => None,
        }
    }
}

/// The disk records for the top-level devices of `s`, in order.
pub open spec fn linux_disks(s: Seq<BlockDevice>, debug: bool) -> Seq<DiskView>
    decreases s.len(),
{
    if s.len() == 0 {
        Seq::empty()
    } else {
        let rest = linux_disks(s.drop_last(), debug);
        match linux_disk_view(s.last(), debug) {
            Some(v) => rest.push(v),
            None => rest,
        }
    }
}

/// The identifier a device is looked up by: its stable id, else its name
/// for loop devices, else the empty text.
pub open spec fn lookup_id(d: BlockDevice) -> Seq<char> {
    match spec_stable_id(d) {
        Some(i) => i,
        None => if d.device_type == DeviceType::Loop {
            d.name@
        } else {
            Seq::empty()
        },
    }
}

/// The partition record for child `c`, when it is a partition with a UUID.
pub open spec fn linux_partition_view(c: BlockDevice) -> Option<PartitionView> {
    if c.device_type != DeviceType::Part {
        None
    } else {
        match c.uuid {
            Some(u) => {
                let mounts = present_mounts(c.mountpoints@);
                Some(
                    PartitionView {
                        id: u@,
                        drive_letter: if mounts.len() > 0 { Some(mounts[0]) } else { None },
                        size_gb: gb_of(c.size),
                        file_system: match c.fstype {
                            Some(f) => f@,
                            None => "Unknown"@,
                        },
                        label: Seq::empty(),
                        offset_bytes: 0,
                        size_bytes: c.size,
                        free_bytes: 0,
                        bitlocker_state: BitLockerState::Unprotected,
                    },
                )
            },
            None => None,
        }
    }
}

/// The partition records for the children `s`, in order.
pub open spec fn linux_partitions(s: Seq<BlockDevice>) -> Seq<PartitionView>
    decreases s.len(),
{
    if s.len() == 0 {
        Seq::empty()
    } else {
        let rest = linux_partitions(s.drop_last());
        match linux_partition_view(s.last()) {
            Some(v) => rest.push(v),
            None => rest,
        }
    }
}

/// How a filesystem is shrunk.
#[derive(Debug)]
pub enum ShrinkStrategy {
    /// Checked and resized while unmounted.
    Offline { check_args: Vec<&'static str>, resize_args: Vec<&'static str> },
    /// Resized while mounted.
    Online { resize_args: Vec<&'static str> },
    /// Shrinking is not possible; the reason.
    Unsupported(String),
}

/// A step of shrinking a Linux partition.
#[derive(Debug, Clone, Copy, PartialEq, Eq, Structural)]
pub enum LinuxShrinkStep {
    /// The filesystem check of an offline strategy ran.
    FilesystemChecked,
    /// The filesystem was resized.
    FilesystemResized,
    /// `parted` moved the partition's end.
    PartitionEndMoved,
    /// `partprobe` re-read the partition table.
    TableReread,
}

/// What shrinking a Linux partition does next.
#[derive(Debug, Clone, Copy, PartialEq, Eq, Structural)]
pub enum LinuxShrinkNext {
    /// Check the unmounted filesystem.
    CheckFilesystem,
    /// Resize the filesystem (mounted, for an online strategy).
    ResizeFilesystem,
    /// Move the partition's end with `parted`.
    MovePartitionEnd,
    /// Have the kernel re-read the partition table.
    RereadTable,
    /// The partition has its new size.
    Done,
    /// Report the failure.
    Fail,
}

/// The first step of a strategy: an offline one checks the filesystem
/// first, an online one resizes it at once, and an unsupported one fails.
pub open spec fn first_shrink_step(s: ShrinkStrategy) -> LinuxShrinkNext {
    match s {
        ShrinkStrategy::Offline { .. } => LinuxShrinkNext::CheckFilesystem,
        ShrinkStrategy::Online { .. } => LinuxShrinkNext::ResizeFilesystem,
        ShrinkStrategy::Unsupported(_) => LinuxShrinkNext::Fail,
    }
}

/// The step after `step`: check, resize, move the end, re-read the table,
/// in that order; any failed step ends the shrink.
pub open spec fn linux_shrink_next_spec(step: LinuxShrinkStep, ok: bool) -> LinuxShrinkNext {
    if !ok {
        LinuxShrinkNext::Fail
    } else {
        match step {
            LinuxShrinkStep::FilesystemChecked => LinuxShrinkNext::ResizeFilesystem,
            LinuxShrinkStep::FilesystemResized => LinuxShrinkNext::MovePartitionEnd,
            LinuxShrinkStep::PartitionEndMoved => LinuxShrinkNext::RereadTable,
            LinuxShrinkStep::TableReread => LinuxShrinkNext::Done,
        }
    }
}

/// The first step of shrinking with `strategy`.
pub fn shrink_start(strategy: &ShrinkStrategy) -> (r: LinuxShrinkNext)
    ensures
        r == first_shrink_step(*strategy),
{
    match strategy {
        ShrinkStrategy::Offline { .. } => LinuxShrinkNext::CheckFilesystem,
        ShrinkStrategy::Online { .. } => LinuxShrinkNext::ResizeFilesystem,
        ShrinkStrategy::Unsupported(_) => LinuxShrinkNext::Fail,
    }
}

/// The step after `step`, which succeeded when `ok`.
pub fn shrink_next(step: LinuxShrinkStep, ok: bool) -> (r: LinuxShrinkNext)
    ensures
        r == linux_shrink_next_spec(step, ok),
{
    if !ok {
        return LinuxShrinkNext::Fail;
    }
    match step {
        LinuxShrinkStep::FilesystemChecked => LinuxShrinkNext::ResizeFilesystem,
        LinuxShrinkStep::FilesystemResized => LinuxShrinkNext::MovePartitionEnd,
        LinuxShrinkStep::PartitionEndMoved => LinuxShrinkNext::RereadTable,
        LinuxShrinkStep::TableReread => LinuxShrinkNext::Done,
    }
}

/// The views of a list of string slices.
pub open spec fn views(s: Seq<&str>) -> Seq<Seq<char>> {
    s.map_values(|x: &str| x@)
}

/// Whether `s` is the shrink strategy for filesystem type `fs`.
pub open spec fn is_strategy_for(s: ShrinkStrategy, fs: Seq<char>) -> bool {
    if fs == "ext2"@ || fs == "ext3"@ || fs == "ext4"@ {
        s matches ShrinkStrategy::Offline { check_args, resize_args }
            && views(check_args@) == seq!["e2fsck"@, "-f"@, "-p"@, "{dev}"@]
            && views(resize_args@) == seq!["resize2fs"@, "{dev}"@, "{size}"@]
    } else if fs == "ntfs"@ {
        s matches ShrinkStrategy::Offline { check_args, resize_args }
            && views(check_args@) == seq!["ntfsresize"@, "-f"@, "-i"@, "{dev}"@]
            && views(resize_args@) == seq!["ntfsresize"@, "-f"@, "-s"@, "{size}"@, "{dev}"@]
    } else if fs == "btrfs"@ {
        s matches ShrinkStrategy::Online { resize_args }
            && views(resize_args@) == seq!["btrfs"@, "filesystem"@, "resize"@, "{size}"@, "{mnt}"@]
    } else if fs == "xfs"@ || fs == "zfs_member"@ {
        s matches ShrinkStrategy::Unsupported(m) && m@ == "This filesystem fundamentally does not support shrinking."@
    } else {
        s matches ShrinkStrategy::Unsupported(m) && m@ == "Shrinking not yet implemented for this filesystem."@
    }
}

/// The shrink strategy for a filesystem type: ext2/3/4 and NTFS are checked
/// and resized offline, btrfs is resized online, XFS and ZFS cannot shrink,
/// and any other type is not handled.
pub fn get_shrink_strategy(fstype: &str) -> (r: ShrinkStrategy)
    ensures
        is_strategy_for(r, fstype@),
{
    if same_text(fstype, "ext2") || same_text(fstype, "ext3") || same_text(fstype, "ext4") {
        let check_args = vec!["e2fsck", "-f", "-p", "{dev}"];
        let resize_args = vec!["resize2fs", "{dev}", "{size}"];
        assert(views(check_args@) == seq!["e2fsck"@, "-f"@, "-p"@, "{dev}"@]);
        assert(views(resize_args@) == seq!["resize2fs"@, "{dev}"@, "{size}"@]);
        ShrinkStrategy::Offline { check_args, resize_args }
    } else if same_text(fstype, "ntfs") {
        let check_args = vec!["ntfsresize", "-f", "-i", "{dev}"];
        let resize_args = vec!["ntfsresize", "-f", "-s", "{size}", "{dev}"];
        assert(views(check_args@) == seq!["ntfsresize"@, "-f"@, "-i"@, "{dev}"@]);
        assert(views(resize_args@) == seq!["ntfsresize"@, "-f"@, "-s"@, "{size}"@, "{dev}"@]);
        ShrinkStrategy::Offline { check_args, resize_args }
    } else if same_text(fstype, "btrfs") {
        let resize_args = vec!["btrfs", "filesystem", "resize", "{size}", "{mnt}"];
        assert(views(resize_args@) == seq!["btrfs"@, "filesystem"@, "resize"@, "{size}"@, "{mnt}"@]);
        ShrinkStrategy::Online { resize_args }
    } else if same_text(fstype, "xfs") || same_text(fstype, "zfs_member") {
        ShrinkStrategy::Unsupported(String::from_str("This filesystem fundamentally does not support shrinking."))
    } else {
        ShrinkStrategy::Unsupported(String::from_str("Shrinking not yet implemented for this filesystem."))
    }
}

/// The text that stands for `{size}`: the size in GiB followed by `G`.
pub open spec fn size_arg(size_gb: u32) -> Seq<char> {
    decimal(size_gb as nat).push('G')
}

/// An argument with `{dev}`, `{size}` and `{mnt}` filled in, in that order.
pub open spec fn expand_arg(arg: Seq<char>, dev: Seq<char>, size_gb: u32, mnt: Seq<char>) -> Seq<char> {
    replace_all(replace_all(replace_all(arg, "{dev}"@, dev), "{size}"@, size_arg(size_gb)), "{mnt}"@, mnt)
}

/// The command line of a strategy step: the program name, then every
/// argument with its placeholders filled in.
pub fn expand_strategy_args(args: &Vec<&'static str>, dev: &str, size_gb: u32, mnt: &str) -> (r: Vec<String>)
    requires
        args@.len() >= 1,
    ensures
        r@.len() == args@.len() - 1,
        forall|i: int| 0 <= i < r@.len() ==> (#[trigger] r@[i])@ == expand_arg(args@[i + 1]@, dev@, size_gb, mnt@),
{
    let mut size_text = decimal_string(size_gb as u64);
    string_push(&mut size_text, 'G');
    let mut out: Vec<String> = Vec::new();
    let mut i: usize = 1;
    proof {
        reveal_strlit("{dev}");
        reveal_strlit("{size}");
        reveal_strlit("{mnt}");
    }
    while i < args.len()
        invariant
            1 <= i <= args@.len(),
            out@.len() == i - 1,
            size_text@ == size_arg(size_gb),
            forall|j: int| 0 <= j < out@.len() ==> (#[trigger] out@[j])@ == expand_arg(args@[j + 1]@, dev@, size_gb, mnt@),
        decreases args.len() - i,
    {
        proof {
            reveal_strlit("{dev}");
            reveal_strlit("{size}");
            reveal_strlit("{mnt}");
        }
        let a = replace_text(args[i], "{dev}", dev);
        let b = replace_text(a.as_str(), "{size}", size_text.as_str());
        let c = replace_text(b.as_str(), "{mnt}", mnt);
        out.push(c);
        i = i + 1;
    }
    out
}

/// Whether a strategy step ended well: success, or `e2fsck` exiting with 1
/// (errors corrected).
pub fn step_succeeded(program: &str, success: bool, exit_code: Option<i32>) -> (r: bool)
    ensures
        r == (success || (program@ == "e2fsck"@ && exit_code.unwrap_or(-1i32) == 1i32)),
{
    if success {
        return true;
    }
    let code = match exit_code {
        Some(c) => c,
        None => -1,
    };
    same_text(program, "e2fsck") && code == 1
}

/// The temporary mountpoint used for an online resize of an unmounted
/// filesystem.
pub fn temp_mount_point(uuid: &str) -> (r: String)
    ensures
        r@ == "/tmp/isekai_fs_"@ + uuid@,
{
    let mut out = String::from_str("/tmp/isekai_fs_");
    push_str(&mut out, uuid);
    out
}

/// The last sector of a partition shrunk to `target_size_gb` GiB, keeping a
/// 100 MiB safety margin.
pub open spec fn spec_end_sector(start: u64, target_size_gb: u32, sector_size: u64) -> int {
    start + (target_size_gb as int * 0x4000_0000) / (sector_size as int) + 0x640_0000int / (sector_size as int)
}

/// Everything a shrink needs to know about the partition.
#[derive(Debug)]
pub struct ShrinkTarget {
    /// `/dev/<partition>`.
    pub device_path: String,
    /// `/dev/<disk>`.
    pub parent_disk: String,
    pub fstype: String,
    pub active_mounts: Vec<String>,
    pub start_sector: u64,
    pub logical_sector_size: u64,
    pub partn: u32,
}

/// Linux implementation of the disk manager.
pub struct LinuxDiskManager {
    debug_mode: bool,
}

impl LinuxDiskManager {
    /// A manager; in debug mode loop devices are listed too.
    pub fn new(debug_mode: bool) -> (r: Self)
        ensures
            r.debug() == debug_mode,
    {
        LinuxDiskManager { debug_mode }
    }

    /// Whether the manager runs in debug mode.
    pub closed spec fn debug(&self) -> bool {
        self.debug_mode
    }

    /// The stable identifier of a device: WWN, else serial, else UUID.
    pub fn get_stable_id(device: &BlockDevice) -> (r: Option<String>)
        ensures
            opt_string_view(r) == spec_stable_id(*device),
    {
        match &device.wwn {
            Some(w) => Some(w.clone()),
            None => match &device.serial {
                Some(s) => Some(s.clone()),
                None => copy_opt_string(&device.uuid),
            },
        }
    }

    /// The disk record of one top-level device, when it is listed.
    fn disk_for(&self, device: &BlockDevice) -> (r: Option<Disk>)
        ensures
            match r {
                Some(d) => linux_disk_view(*device, self.debug()) == Some(d@),
                None => linux_disk_view(*device, self.debug()) is None,
            },
    {
        let is_loop = device.device_type == DeviceType::Loop;
        if !(device.is_disk() || (self.debug_mode && is_loop)) {
            return None;
        }
        let stable_id = match Self::get_stable_id(device) {
            Some(id) => id,
            None => {
                if self.debug_mode && is_loop {
                    device.name.clone()
                } else {
                    return None;
                }
            },
        };
        Some(Disk {
            stable_id,
            name: device.name.clone(),
            total_gb: size_in_gb(device.size),
            free_gb: 0,
            is_system_drive: device.is_system(),
            is_gpt: false,
        })
    }

    /// The disks among the top-level devices: disks (and loop devices in
    /// debug mode) that have a stable identifier (loop devices fall back to
    /// their name).
    pub fn disks_from_devices(&self, devices: &BlockDevices) -> (r: Vec<Disk>)
        ensures
            r@.map_values(|d: Disk| d@) == linux_disks(devices.blockdevices@, self.debug()),
    {
        let list = devices.iter();
        let mut out: Vec<Disk> = Vec::new();
        let mut i: usize = 0;
        while i < list.len()
            invariant
                list@ == devices.blockdevices@,
                i <= list@.len(),
                out@.map_values(|d: Disk| d@) == linux_disks(list@.take(i as int), self.debug()),
            decreases list.len() - i,
        {
            assert(list@.take(i + 1).drop_last() == list@.take(i as int));
            let ghost prev = out@;
            match self.disk_for(&list[i]) {
                Some(d) => {
                    out.push(d);
                    assert(out@.map_values(|d: Disk| d@) == prev.map_values(|d: Disk| d@).push(d@));
                },
                None => {},
            }
            i = i + 1;
        }
        assert(list@.take(list@.len() as int) == list@);
        out
    }

    /// Whether `device` is the listed disk with identifier `disk_id`.
    pub open spec fn is_target_disk(debug: bool, disk_id: Seq<char>) -> spec_fn(BlockDevice) -> bool {
        |d: BlockDevice| is_listed_type(d, debug) && lookup_id(d) == disk_id
    }

    /// The identifier a device is looked up by.
    fn lookup_id_of(device: &BlockDevice) -> (r: String)
        ensures
            r@ == lookup_id(*device),
    {
        match Self::get_stable_id(device) {
            Some(id) => id,
            None => {
                if device.device_type == DeviceType::Loop {
                    device.name.clone()
                } else {
                    String::new()
                }
            },
        }
    }

    /// The partitions of the disk `disk_id`: the first listed device, in the
    /// walk order of the tree, whose lookup identifier is `disk_id`; its
    /// direct children that are partitions with a UUID become records.
    pub fn partitions_from_devices(&self, devices: &BlockDevices, disk_id: &str) -> (r: Result<Vec<Partition>, DiskError>)
        ensures
            match first_where(preorder_forest(devices.blockdevices@), Self::is_target_disk(self.debug(), disk_id@)) {
                Some(k) => r matches Ok(parts) && parts@.map_values(|p: Partition| p@) == linux_partitions(child_seq(preorder_forest(devices.blockdevices@)[k])),
                None => r matches Err(DiskError::DiskNotFound(id)) && id@ == disk_id@,
            },
    {
        let all = devices.iter_all();
        let ghost walk = preorder_forest(devices.blockdevices@);
        let ghost p = Self::is_target_disk(self.debug(), disk_id@);
        let mut i: usize = 0;
        while i < all.len()
            invariant
                i <= all@.len(),
                crate::blockdev::derefs(all@) == walk,
                walk == preorder_forest(devices.blockdevices@),
                p == Self::is_target_disk(self.debug(), disk_id@),
                forall|j: int| 0 <= j < i ==> !p(#[trigger] walk[j]),
            decreases all.len() - i,
        {
            let d = all[i];
            assert(*d == walk[i as int]);
            let allowed = d.is_disk() || (self.debug_mode && d.device_type == DeviceType::Loop);
            let id = Self::lookup_id_of(d);
            if allowed && same_text(id.as_str(), disk_id) {
                assert(is_listed_type(walk[i as int], self.debug()));
                assert(lookup_id(walk[i as int]) == disk_id@);
                assert(p(walk[i as int]));
                proof {
                    lemma_first_where(walk, p, i as int);
                }
                let parts = Self::partitions_of(d);
                return Ok(parts);
            }
            i = i + 1;
        }
        proof {
            lemma_first_where(walk, p, i as int);
        }
        Err(DiskError::DiskNotFound(String::from_str(disk_id)))
    }

    /// The partition records of the children of `disk`.
    fn partitions_of(disk: &BlockDevice) -> (r: Vec<Partition>)
        ensures
            r@.map_values(|p: Partition| p@) == linux_partitions(child_seq(*disk)),
    {
        let children = disk.children_iter();
        let mut out: Vec<Partition> = Vec::new();
        let mut i: usize = 0;
        while i < children.len()
            invariant
                children@ == child_seq(*disk),
                i <= children@.len(),
                out@.map_values(|p: Partition| p@) == linux_partitions(children@.take(i as int)),
            decreases children.len() - i,
        {
            assert(children@.take(i + 1).drop_last() == children@.take(i as int));
            let child = &children[i];
            let ghost prev = out@;
            if child.is_partition() {
                match &child.uuid {
                    Some(u) => {
                        let mounts = child.active_mountpoints();
                        let drive_letter = if mounts.len() > 0 {
                            Some(String::from_str(mounts[0]))
                        } else {
                            None
                        };
                        let file_system = match &child.fstype {
                            Some(f) => f.clone(),
                            None => String::from_str("Unknown"),
                        };
                        let part = Partition {
                            id: u.clone(),
                            drive_letter,
                            size_gb: size_in_gb(child.size),
                            file_system,
                            label: String::new(),
                            offset_bytes: 0,
                            size_bytes: child.size,
                            free_bytes: 0,
                            bitlocker_state: BitLockerState::Unprotected,
                        };
                        proof {
                            if mounts@.len() > 0 {
                                assert(crate::blockdev::str_views(mounts@)[0] == mounts@[0]@);
                            }
                        }
                        out.push(part);
                        assert(out@.map_values(|p: Partition| p@) == prev.map_values(|p: Partition| p@).push(part@));
                    },
                    None => {},
                }
            }
            i = i + 1;
        }
        assert(children@.take(children@.len() as int) == children@);
        out
    }
}


/// The identifier a shrink request names a disk by: its stable id, else
/// (in debug mode) the name of a loop device, else the empty text.
pub open spec fn shrink_lookup_id(d: BlockDevice, debug: bool) -> Seq<char> {
    match spec_stable_id(d) {
        Some(i) => i,
        None => if debug && d.device_type == DeviceType::Loop {
            d.name@
        } else {
            Seq::empty()
        },
    }
}

/// Whether child `c` has the UUID `uuid`.
pub open spec fn has_uuid(uuid: Seq<char>) -> spec_fn(BlockDevice) -> bool {
    |c: BlockDevice| opt_string_view(c.uuid) == Some(uuid)
}

/// Whether `d` is the disk `disk_id` and has a child with UUID `uuid`.
pub open spec fn holds_partition(debug: bool, disk_id: Seq<char>, uuid: Seq<char>) -> spec_fn(BlockDevice) -> bool {
    |d: BlockDevice| shrink_lookup_id(d, debug) == disk_id && first_where(child_seq(d), has_uuid(uuid)) is Some
}

/// The logical sector size to compute with: the reported one when positive,
/// else 512.
pub open spec fn sector_size_of(d: BlockDevice) -> u64 {
    match d.log_sec {
        Some(s) => if s > 0 { s } else { 512 },
        None => 512,
    }
}

/// Whether `r` is what a shrink lookup of partition `uuid` on disk `disk_id`
/// yields: the first device of the walk that is that disk and has such a
/// child, and its first such child; the partition must report its number, start
/// sector and filesystem type.
pub open spec fn shrink_target_matches(
    r: Result<ShrinkTarget, DiskError>,
    walk: Seq<BlockDevice>,
    debug: bool,
    disk_id: Seq<char>,
    uuid: Seq<char>,
) -> bool {
    match first_where(walk, holds_partition(debug, disk_id, uuid)) {
        None => r matches Err(DiskError::PartitionNotFound(a, b)) && a@ == uuid
            && b@ == "Could not find partition "@ + uuid + " on disk "@ + disk_id,
        Some(k) => {
            let disk = walk[k];
            let c = child_seq(disk)[first_where(child_seq(disk), has_uuid(uuid))->0];
            if c.partn is None {
                r matches Err(DiskError::DataValidation(m)) && m@ == "Partition "@ + uuid + " has no partn value"@
            } else if c.start is None {
                r matches Err(DiskError::DataValidation(m)) && m@ == "Partition "@ + uuid + " has no start sector"@
            } else if c.fstype is None {
                r matches Err(DiskError::DataValidation(m)) && m@ == "Partition "@ + uuid + " has no fstype value"@
            } else {
                r matches Ok(t) && {
                    &&& t.device_path@ == "/dev/"@ + c.name@
                    &&& t.parent_disk@ == "/dev/"@ + disk.name@
                    &&& t.fstype@ == c.fstype->0@
                    &&& t.active_mounts@.map_values(|m: String| m@) == present_mounts(c.mountpoints@)
                    &&& t.start_sector == c.start->0
                    &&& t.logical_sector_size == sector_size_of(disk)
                    &&& t.partn == c.partn->0
                }
            }
        },
    }
}

/// `prefix + a + middle + b` as a string.
fn join4(prefix: &str, a: &str, middle: &str, b: &str) -> (r: String)
    ensures
        r@ == prefix@ + a@ + middle@ + b@,
{
    let mut out = String::from_str(prefix);
    push_str(&mut out, a);
    push_str(&mut out, middle);
    push_str(&mut out, b);
    out
}

/// `prefix + a` as a string.
fn join2(prefix: &str, a: &str) -> (r: String)
    ensures
        r@ == prefix@ + a@,
{
    let mut out = String::from_str(prefix);
    push_str(&mut out, a);
    out
}

/// `prefix + a + suffix` as a string.
fn join3(prefix: &str, a: &str, suffix: &str) -> (r: String)
    ensures
        r@ == prefix@ + a@ + suffix@,
{
    let mut out = String::from_str(prefix);
    push_str(&mut out, a);
    push_str(&mut out, suffix);
    out
}

impl LinuxDiskManager {
    /// The identifier a shrink request names a disk by.
    fn shrink_lookup_id_of(&self, device: &BlockDevice) -> (r: String)
        ensures
            r@ == shrink_lookup_id(*device, self.debug()),
    {
        match Self::get_stable_id(device) {
            Some(id) => id,
            None => {
                if self.debug_mode && device.device_type == DeviceType::Loop {
                    device.name.clone()
                } else {
                    String::new()
                }
            },
        }
    }

    /// The first child of `disk` with UUID `uuid`.
    fn child_with_uuid<'a>(disk: &'a BlockDevice, uuid: &str) -> (r: Option<&'a BlockDevice>)
        ensures
            match first_where(child_seq(*disk), has_uuid(uuid@)) {
                Some(j) => r matches Some(c) && *c == child_seq(*disk)[j],
                None => r is None,
            },
    {
        let children = disk.children_iter();
        let ghost p = has_uuid(uuid@);
        let mut j: usize = 0;
        while j < children.len()
            invariant
                children@ == child_seq(*disk),
                j <= children@.len(),
                p == has_uuid(uuid@),
                forall|q: int| 0 <= q < j ==> !p(#[trigger] children@[q]),
            decreases children.len() - j,
        {
            let c = &children[j];
            let matches = match &c.uuid {
                Some(u) => same_text(u.as_str(), uuid),
                None => false,
            };
            if matches {
                assert(p(children@[j as int]));
                proof {
                    lemma_first_where(children@, p, j as int);
                }
                return Some(c);
            }
            j = j + 1;
        }
        proof {
            lemma_first_where(children@, p, j as int);
        }
        None
    }

    /// Finds the partition `partition_id` (a UUID) on disk `disk_id` and
    /// gathers what a shrink needs.
    pub fn find_shrink_target(&self, devices: &BlockDevices, disk_id: &str, partition_id: &str) -> (r: Result<ShrinkTarget, DiskError>)
        ensures
            shrink_target_matches(r, preorder_forest(devices.blockdevices@), self.debug(), disk_id@, partition_id@),
            r matches Ok(t) ==> t.logical_sector_size > 0,
    {
        let all = devices.iter_all();
        let ghost walk = preorder_forest(devices.blockdevices@);
        let ghost p = holds_partition(self.debug(), disk_id@, partition_id@);
        let mut i: usize = 0;
        while i < all.len()
            invariant
                i <= all@.len(),
                crate::blockdev::derefs(all@) == walk,
                walk == preorder_forest(devices.blockdevices@),
                p == holds_partition(self.debug(), disk_id@, partition_id@),
                forall|j: int| 0 <= j < i ==> !p(#[trigger] walk[j]),
            decreases all.len() - i,
        {
            let disk = all[i];
            assert(*disk == walk[i as int]);
            let id = self.shrink_lookup_id_of(disk);
            if same_text(id.as_str(), disk_id) {
                if let Some(child) = Self::child_with_uuid(disk, partition_id) {
                    assert(p(walk[i as int]));
                    proof {
                        lemma_first_where(walk, p, i as int);
                    }
                    let partn = match child.partn {
                        Some(n) => n,
                        None => {
                            return Err(DiskError::DataValidation(join3("Partition ", partition_id, " has no partn value")));
                        },
                    };
                    let start_sector = match child.start {
                        Some(n) => n,
                        None => {
                            return Err(DiskError::DataValidation(join3("Partition ", partition_id, " has no start sector")));
                        },
                    };
                    let fstype = match &child.fstype {
                        Some(f) => f.clone(),
                        None => {
                            return Err(DiskError::DataValidation(join3("Partition ", partition_id, " has no fstype value")));
                        },
                    };
                    let logical_sector_size: u64 = match disk.log_sec {
                        Some(s) => if s > 0 { s } else { 512 },
                        None => 512,
                    };
                    let mounts = child.active_mountpoints();
                    let mut active_mounts: Vec<String> = Vec::new();
                    let mut q: usize = 0;
                    while q < mounts.len()
                        invariant
                            q <= mounts@.len(),
                            active_mounts@.map_values(|m: String| m@) == crate::blockdev::str_views(mounts@).take(q as int),
                        decreases mounts.len() - q,
                    {
                        let ghost prev = active_mounts@;
                        active_mounts.push(String::from_str(mounts[q]));
                        assert(active_mounts@.map_values(|m: String| m@) == prev.map_values(|m: String| m@).push(mounts@[q as int]@));
                        assert(crate::blockdev::str_views(mounts@).take(q + 1) == crate::blockdev::str_views(mounts@).take(q as int).push(mounts@[q as int]@));
                        q = q + 1;
                    }
                    assert(crate::blockdev::str_views(mounts@).take(mounts@.len() as int) == crate::blockdev::str_views(mounts@));
                    return Ok(ShrinkTarget {
                        device_path: join2("/dev/", child.name.as_str()),
                        parent_disk: join2("/dev/", disk.name.as_str()),
                        fstype,
                        active_mounts,
                        start_sector,
                        logical_sector_size,
                        partn,
                    });
                } else {
                    assert(!p(walk[i as int]));
                }
            } else {
                assert(!p(walk[i as int]));
            }
            i = i + 1;
        }
        proof {
            lemma_first_where(walk, p, i as int);
        }
        Err(DiskError::PartitionNotFound(String::from_str(partition_id), join4("Could not find partition ", partition_id, " on disk ", disk_id)))
    }

    /// The last sector of the partition after the shrink: its start plus the
    /// target size and a 100 MiB margin, both in sectors.
    pub fn end_sector(start_sector: u64, target_size_gb: u32, logical_sector_size: u64) -> (r: u64)
        requires
            logical_sector_size > 0,
            spec_end_sector(start_sector, target_size_gb, logical_sector_size) <= u64::MAX,
        ensures
            r == spec_end_sector(start_sector, target_size_gb, logical_sector_size),
    {
        let target_sectors = (target_size_gb as u64) * 1024 * 1024 * 1024 / logical_sector_size;
        let safety_buffer_sectors = (100 * 1024 * 1024) / logical_sector_size;
        start_sector + target_sectors + safety_buffer_sectors
    }

    /// `end_sector` where it is defined: `None` for a sector size of 0 or an
    /// end that does not fit in `u64`.
    pub fn checked_end_sector(start_sector: u64, target_size_gb: u32, logical_sector_size: u64) -> (r: Option<u64>)
        ensures
            r == (if logical_sector_size > 0 && spec_end_sector(start_sector, target_size_gb, logical_sector_size)
                <= u64::MAX {
                Some(spec_end_sector(start_sector, target_size_gb, logical_sector_size) as u64)
            } else {
                None
            }),
    {
        if logical_sector_size == 0 {
            return None;
        }
        assert((target_size_gb as u64) * 1024 * 1024 * 1024 <= 0xffff_ffffu64 * 0x4000_0000) by (nonlinear_arith);
        let target_sectors = (target_size_gb as u64) * 1024 * 1024 * 1024 / logical_sector_size;
        let safety_buffer_sectors = (100 * 1024 * 1024) / logical_sector_size;
        match start_sector.checked_add(target_sectors) {
            Some(a) => a.checked_add(safety_buffer_sectors),
            None => None,
        }
    }

    /// The `parted` arguments that move the end of partition `partn` of
    /// `parent_disk` to `end_sector`.
    pub fn parted_args(parent_disk: &str, partn: u32, end_sector: u64) -> (r: Vec<String>)
        ensures
            r@.map_values(|a: String| a@) == seq![
                "---pretend-input-tty"@,
                parent_disk@,
                "resizepart"@,
                decimal(partn as nat),
                decimal(end_sector as nat).push('s'),
            ],
    {
        let mut out: Vec<String> = Vec::new();
        out.push(String::from_str("---pretend-input-tty"));
        out.push(String::from_str(parent_disk));
        out.push(String::from_str("resizepart"));
        out.push(decimal_string(partn as u64));
        let mut end = decimal_string(end_sector);
        string_push(&mut end, 's');
        out.push(end);
        assert(out@.map_values(|a: String| a@) =~= seq![
            "---pretend-input-tty"@,
            parent_disk@,
            "resizepart"@,
            decimal(partn as nat),
            decimal(end_sector as nat).push('s'),
        ]);
        out
    }
}


/// Replacing a pattern that occurs nowhere leaves the text as it is.
proof fn lemma_replace_absent(s: Seq<char>, p: Seq<char>, r: Seq<char>)
    requires
        forall|i: int| !occurs_at(s, p, i),
    ensures
        replace_all(s, p, r) == s,
    decreases s.len(),
{
    if p.len() > 0 && s.len() > 0 {
        assert forall|i: int| !occurs_at(s.drop_first(), p, i) by {
            if occurs_at(s.drop_first(), p, i) {
                assert(s.subrange(i + 1, i + 1 + p.len()) == s.drop_first().subrange(i, i + p.len()));
                assert(occurs_at(s, p, i + 1));
            }
        }
        lemma_replace_absent(s.drop_first(), p, r);
        assert(seq![s[0]] + s.drop_first() == s);
    }
}

/// Replacing a whole text that is exactly the pattern gives the
/// replacement.
proof fn lemma_replace_whole(p: Seq<char>, r: Seq<char>)
    requires
        p.len() > 0,
    ensures
        replace_all(p, p, r) == r,
{
    assert(p.subrange(0, p.len() as int) == p);
    assert(occurs_at(p, p, 0));
    assert(p.skip(p.len() as int) == Seq::<char>::empty());
    assert(replace_all(Seq::<char>::empty(), p, r) == Seq::<char>::empty());
    assert(replace_all(p, p, r) == r + replace_all(p.skip(p.len() as int), p, r));
    assert(r + Seq::<char>::empty() == r);
}

/// The `{size}` argument of a shrink command names the target size in
/// gigabytes: it becomes the decimal digits of `size_gb` followed by the
/// unit `G`, whatever the device and mount point.
pub proof fn lemma_size_placeholder_names_gigabytes(dev: Seq<char>, size_gb: u32, mnt: Seq<char>)
    ensures
        ({
            let t = expand_arg("{size}"@, dev, size_gb, mnt);
            &&& t.len() >= 2
            &&& t.last() == 'G'
            &&& all_digits(t.drop_last())
            &&& digits_value(t.drop_last()) == size_gb
        }),
{
    reveal_strlit("{size}");
    reveal_strlit("{dev}");
    reveal_strlit("{mnt}");
    let a = "{size}"@;
    let d = "{dev}"@;
    let m = "{mnt}"@;
    assert forall|i: int| !occurs_at(a, d, i) by {
        if occurs_at(a, d, i) {
            assert(a.subrange(i, i + d.len())[1] == d[1]);
            assert(a[i + 1] == d[1]);
        }
    }
    lemma_replace_absent(a, d, dev);
    let x = decimal(size_gb as nat).push('G');
    lemma_replace_whole(a, x);
    lemma_decimal_digits(size_gb as nat);
    assert(x.drop_last() == decimal(size_gb as nat));
    assert forall|i: int| !occurs_at(x, m, i) by {
        if occurs_at(x, m, i) {
            assert(x.subrange(i, i + m.len())[0] == m[0]);
            assert(x[i] == '{');
            if i < x.len() - 1 {
                assert(x[i] == decimal(size_gb as nat)[i]);
                assert(is_digit(decimal(size_gb as nat)[i]));
            }
        }
    }
    lemma_replace_absent(x, m, mnt);
}


/// In a shrink command line, every `{size}` argument names the target size
/// in gigabytes: the decimal digits of `size_gb`, then `G`.
pub proof fn lemma_command_size_in_gigabytes(
    args: Seq<&str>,
    dev: Seq<char>,
    size_gb: u32,
    mnt: Seq<char>,
    r: Seq<String>,
)
    requires
        args.len() >= 1,
        r.len() == args.len() - 1,
        forall|i: int| 0 <= i < r.len() ==> (#[trigger] r[i])@ == expand_arg(args[i + 1]@, dev, size_gb, mnt),
    ensures
        forall|i: int| 0 <= i < r.len() && args[i + 1]@ == "{size}"@ ==> {
            &&& (#[trigger] r[i])@.len() >= 2
            &&& r[i]@.last() == 'G'
            &&& all_digits(r[i]@.drop_last())
            &&& digits_value(r[i]@.drop_last()) == size_gb
        },
{
    lemma_size_placeholder_names_gigabytes(dev, size_gb, mnt);
}

} // verus!
