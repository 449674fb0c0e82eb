//! Windows disk management: listing disks and partitions from the WMI
//! storage records, and the decisions of the shrink, wipe and uninstall
//! steps.
use vstd::prelude::*;
use crate::labels::{clean_letter, opt_lower, opt_view, partition_label, PartitionUtils};
use crate::linux::gb_of;
use crate::models::{
    copy_opt_string, disk_views, opt_string_view, partition_views, BitLockerState, Disk, DiskView, Partition,
    PartitionView,
};
use crate::seqs::{
    first_where, lemma_first_where, lemma_stable_sort_elements, lemma_stable_sort_map_second, map_second, stable_sort,
    stable_sort_by_key,
};
use crate::text::{
    chars_of, contains_chars, decimal, decimal_string, eq_ignore_ascii_case, push_str, same_text, spec_contains,
    spec_eq_ignore_ascii_case, string_from_chars, string_push, to_lowercase, trim_char_chars, trim_chars,
    unicode_lowercase,
};

verus! {

/// `MSFT_PhysicalDisk`: the medium of a disk.
#[allow(non_snake_case)]
#[derive(Debug)]
pub struct MsftPhysicalDisk {
    pub MediaType: Option<u16>,
}

/// `MSFT_Disk`.
#[allow(non_snake_case)]
#[derive(Debug)]
pub struct MsftDisk {
    pub Number: u32,
    pub FriendlyName: Option<String>,
    pub Size: Option<u64>,
    pub IsSystem: Option<bool>,
    pub IsBoot: Option<bool>,
    pub BusType: Option<u16>,
    pub PartitionStyle: Option<u16>,
}

/// `MSFT_Partition`.
#[allow(non_snake_case)]
#[derive(Debug)]
pub struct MsftPartition {
    pub DiskNumber: u32,
    pub PartitionNumber: u32,
    pub Offset: Option<u64>,
    pub Size: Option<u64>,
    pub DriveLetter: Option<String>,
    pub GptType: Option<String>,
    pub MbrType: Option<u16>,
}

/// `MSFT_Volume`.
#[allow(non_snake_case)]
#[derive(Debug)]
pub struct MsftVolume {
    pub DriveLetter: Option<String>,
    pub FileSystem: Option<String>,
    pub SizeRemaining: Option<u64>,
    pub FileSystemLabel: Option<String>,
}

/// `Win32_EncryptableVolume`.
#[derive(Debug)]
pub struct EncryptableVolume {
    pub path: String,
    pub drive_letter: Option<String>,
    pub protection_status: Option<u32>,
}

/// The name shown for a disk.
pub open spec fn friendly_name(d: MsftDisk) -> Seq<char> {
    match d.FriendlyName {
        Some(n) => n@,
        None => "Unknown"@,
    }
}

/// Whether a disk is virtual: bus type 14 or 15, or "virtual" in its name.
pub open spec fn is_virtual_disk(d: MsftDisk) -> bool {
    let bus = match d.BusType {
        Some(b) => b,
        None => 0,
    };
    bus == 14 || bus == 15 || spec_contains(unicode_lowercase(friendly_name(d)), "virtual"@)
}

/// The disk record of a WMI disk.
pub open spec fn wmi_disk_view(d: MsftDisk) -> DiskView {
    DiskView {
        stable_id: decimal(d.Number as nat),
        name: friendly_name(d),
        total_gb: gb_of(d.Size.unwrap_or(0)),
        free_gb: 0,
        is_system_drive: d.IsSystem.unwrap_or(false) || d.IsBoot.unwrap_or(false),
        is_gpt: d.PartitionStyle.unwrap_or(0) == 2,
    }
}

/// The listed disks of `s` keyed by number, in WMI order: virtual disks
/// only in debug mode.
pub open spec fn listed_wmi_disks(s: Seq<MsftDisk>, debug: bool) -> Seq<(u32, DiskView)>
    decreases s.len(),
{
    if s.len() == 0 {
        Seq::empty()
    } else {
        let rest = listed_wmi_disks(s.drop_last(), debug);
        if is_virtual_disk(s.last()) && !debug {
            rest
        } else {
            rest.push((s.last().Number, wmi_disk_view(s.last())))
        }
    }
}

/// The second components of a keyed sequence.
pub open spec fn seconds<T>(s: Seq<(u32, T)>) -> Seq<T> {
    s.map_values(|e: (u32, T)| e.1)
}

/// The drive letter a volume or partition reports, once cleaned.
pub open spec fn letter_of(dl: Option<String>) -> Seq<char> {
    match dl {
        Some(d) => clean_letter(d@),
        None => Seq::empty(),
    }
}

/// Whether volume `v` has the drive letter `letter`.
pub open spec fn volume_has_letter(letter: Seq<char>) -> spec_fn(MsftVolume) -> bool {
    |v: MsftVolume| v.DriveLetter is Some && letter_of(v.DriveLetter) == letter
}

/// The partition record of a WMI partition, given the volumes and the
/// BitLocker state found for its drive letter.
pub open spec fn wmi_partition_view(p: MsftPartition, vols: Seq<MsftVolume>, bitlocker: Option<BitLockerState>) -> PartitionView {
    let letter = letter_of(p.DriveLetter);
    let has_letter = p.DriveLetter is Some && letter.len() > 0;
    let vol_index = first_where(vols, volume_has_letter(letter));
    let vol = if has_letter && vol_index is Some { Some(vols[vol_index->0]) } else { None };
    let fs = match vol {
        Some(v) => match v.FileSystem {
            Some(f) => f@,
            None => "Unknown"@,
        },
        None => "Unknown"@,
    };
    let free = match vol {
        Some(v) => v.SizeRemaining.unwrap_or(0),
        None => 0,
    };
    let label = match vol {
        Some(v) => match v.FileSystemLabel {
            Some(l) => l@,
            None => partition_label(opt_string_view(p.DriveLetter), opt_string_lower(p.GptType), p.MbrType == Some(4u16) || p.MbrType == Some(39u16)),
        },
        None => partition_label(opt_string_view(p.DriveLetter), opt_string_lower(p.GptType), p.MbrType == Some(4u16) || p.MbrType == Some(39u16)),
    };
    PartitionView {
        id: decimal(p.PartitionNumber as nat),
        drive_letter: if has_letter { Some(letter + seq![':']) } else { None },
        size_gb: gb_of(p.Size.unwrap_or(0)),
        file_system: fs,
        label,
        offset_bytes: p.Offset.unwrap_or(0),
        size_bytes: p.Size.unwrap_or(0),
        free_bytes: free,
        bitlocker_state: if has_letter {
            match bitlocker {
                Some(b) => b,
                None => BitLockerState::Unprotected,
            }
        } else {
            BitLockerState::Unprotected
        },
    }
}

/// The Unicode-lowercased view of an optional string.
pub open spec fn opt_string_lower(s: Option<String>) -> Option<Seq<char>> {
    match s {
        Some(x) => Some(unicode_lowercase(x@)),
        None => None,
    }
}

/// The partition records of `parts` keyed by partition number, in WMI order.
pub open spec fn keyed_wmi_partitions(
    parts: Seq<MsftPartition>,
    vols: Seq<MsftVolume>,
    states: Seq<Option<BitLockerState>>,
) -> Seq<(u32, PartitionView)>
    decreases parts.len(),
{
    if parts.len() == 0 {
        Seq::empty()
    } else {
        let n = parts.len() - 1;
        keyed_wmi_partitions(parts.drop_last(), vols, states).push(
            (parts[n].PartitionNumber, wmi_partition_view(parts[n], vols, states[n])),
        )
    }
}

/// Whether a partition carries one of the live installation labels.
pub open spec fn is_live_partition(p: PartitionView) -> bool {
    spec_contains(p.label, "LINUX_LIVE"@) || spec_contains(p.label, "LINUX_EFI"@)
}

/// The number a partition identifier reads as (0 when it is not a number).
pub open spec fn id_number(id: Seq<char>) -> u32 {
    match crate::text::spec_parse_unsigned(id, u32::MAX as nat) {
        Some(n) => n as u32,
        None => 0,
    }
}

/// The live partitions of `s`, keyed so that ascending keys mean descending
/// partition numbers.
pub open spec fn live_partitions_keyed(s: Seq<PartitionView>) -> Seq<(u32, PartitionView)>
    decreases s.len(),
{
    if s.len() == 0 {
        Seq::empty()
    } else {
        let rest = live_partitions_keyed(s.drop_last());
        if is_live_partition(s.last()) {
            rest.push(((u32::MAX - id_number(s.last().id)) as u32, s.last()))
        } else {
            rest
        }
    }
}

/// Whether `p` is the Windows `C:` partition.
pub open spec fn is_c_drive(p: PartitionView) -> bool {
    p.drive_letter == Some(seq!['C', ':'])
}

/// Whether `p` holds an NTFS filesystem (name compared without ASCII case).
pub open spec fn is_ntfs(p: PartitionView) -> bool {
    spec_eq_ignore_ascii_case(p.file_system, seq!['N', 'T', 'F', 'S'])
}

/// The largest NTFS partition of `s`; of equally large ones, the last.
pub open spec fn largest_ntfs(s: Seq<PartitionView>) -> Option<int>
    decreases s.len(),
{
    if s.len() == 0 {
        None
    } else {
        let best = largest_ntfs(s.drop_last());
        let k = s.len() - 1;
        if is_ntfs(s[k]) {
            match best {
                None => Some(k),
                Some(b) => if s[k].size_bytes >= s[b].size_bytes {
                    Some(k)
                } else {
                    Some(b)
                },
            }
        } else {
            best
        }
    }
}

/// The partition that gets the reclaimed space: `C:`, else the largest NTFS
/// partition.
pub open spec fn main_partition(s: Seq<PartitionView>) -> Option<int> {
    match first_where(s, |p: PartitionView| is_c_drive(p)) {
        Some(k) => Some(k),
        None => largest_ntfs(s),
    }
}


/// The cleaned drive letter of `dl` and where it lies in `dl`.
fn clean_letter_of(dl: &String) -> (r: Vec<char>)
    ensures
        r@ == clean_letter(dl@),
{
    let raw = chars_of(dl.as_str());
    let nul_free = trim_char_chars(&raw, '\0');
    trim_chars(&nul_free)
}

/// Windows implementation of the disk manager.
pub struct WindowsDiskManager {
    debug_mode: bool,
}

/// Why a wipe was refused.
#[derive(Debug, Clone, Copy, PartialEq, Eq, Structural)]
pub enum WipeRefusal {
    /// The disk holds the running Windows installation.
    ActiveOsDisk,
}

/// How a fallback shrink ended up, compared with the requested size.
#[derive(Debug, Clone, Copy, PartialEq, Eq, Structural)]
pub enum ShrinkCheck {
    /// Within 5 MiB of the requested size.
    WithinTolerance,
    /// DiskPart reported success but the size is off by more than 5 MiB.
    SilentFailure,
}

/// A step of shrinking a Windows partition.
#[derive(Debug, Clone, Copy, PartialEq, Eq, Structural)]
pub enum ShrinkStep {
    /// `Resize-Partition` ran.
    ResizePartition,
    /// The DiskPart `shrink` fallback ran.
    DiskpartShrink,
    /// The partition's size after the fallback was compared with the target.
    SizeChecked(ShrinkCheck),
}

/// What shrinking does next.
#[derive(Debug, Clone, Copy, PartialEq, Eq, Structural)]
pub enum ShrinkNext {
    /// The partition has its new size.
    Done,
    /// Try the DiskPart `shrink` fallback.
    RunDiskpartFallback,
    /// Re-read the partition and compare its size with the target.
    CheckSize,
    /// Report the failure.
    Fail,
}

/// The decision after a shrink step: `Resize-Partition` is tried first and
/// DiskPart only when it fails; a DiskPart shrink that reports success is
/// checked, and one that left the size more than 5 MiB off is a silent
/// failure.
pub open spec fn shrink_next_spec(step: ShrinkStep, ok: bool) -> ShrinkNext {
    match step {
        ShrinkStep::ResizePartition => if ok { ShrinkNext::Done } else { ShrinkNext::RunDiskpartFallback },
        ShrinkStep::DiskpartShrink => if ok { ShrinkNext::CheckSize } else { ShrinkNext::Fail },
        ShrinkStep::SizeChecked(c) => if ok && c == ShrinkCheck::WithinTolerance {
            ShrinkNext::Done
        } else {
            ShrinkNext::Fail
        },
    }
}

impl WindowsDiskManager {
    /// What shrinking does after `step`, which succeeded when `ok` (for a
    /// size check, `ok` is whether the partition could be re-read).
    pub fn shrink_next(step: ShrinkStep, ok: bool) -> (r: ShrinkNext)
        ensures
            r == shrink_next_spec(step, ok),
    {
        match step {
            ShrinkStep::ResizePartition => if ok { ShrinkNext::Done } else { ShrinkNext::RunDiskpartFallback },
            ShrinkStep::DiskpartShrink => if ok { ShrinkNext::CheckSize } else { ShrinkNext::Fail },
            ShrinkStep::SizeChecked(c) => {
                let within = match c {
                    ShrinkCheck::WithinTolerance => true,
                    ShrinkCheck::SilentFailure => false,
                };
                if ok && within { ShrinkNext::Done } else { ShrinkNext::Fail }
            },
        }
    }

    /// A manager; in debug mode virtual disks are listed too.
    pub fn new(debug_mode: bool) -> (r: Self)
        ensures
            r.debug() == debug_mode,
    {
        WindowsDiskManager { debug_mode }
    }

    /// Whether the manager runs in debug mode.
    pub closed spec fn debug(&self) -> bool {
        self.debug_mode
    }

    /// Whether a WMI disk is virtual.
    fn disk_is_virtual(d: &MsftDisk) -> (r: bool)
        ensures
            r == is_virtual_disk(*d),
    {
        let bus: u16 = match d.BusType {
            Some(b) => b,
            None => 0,
        };
        if bus == 14 || bus == 15 {
            return true;
        }
        let lowered = match &d.FriendlyName {
            Some(n) => to_lowercase(n.as_str()),
            None => to_lowercase("Unknown"),
        };
        let text = chars_of(lowered.as_str());
        contains_chars(&text, &chars_of("virtual"))
    }

    /// The disk record of a WMI disk.
    fn disk_record(d: &MsftDisk) -> (r: Disk)
        ensures
            r@ == wmi_disk_view(*d),
    {
        let name = match &d.FriendlyName {
            Some(n) => n.clone(),
            None => String::from_str("Unknown"),
        };
        let size_bytes: u64 = match d.Size {
            Some(s) => s,
            None => 0,
        };
        let is_sys = match d.IsSystem {
            Some(b) => b,
            None => false,
        } || match d.IsBoot {
            Some(b) => b,
            None => false,
        };
        let style: u16 = match d.PartitionStyle {
            Some(p) => p,
            None => 0,
        };
        Disk {
            stable_id: decimal_string(d.Number as u64),
            name,
            total_gb: crate::linux::size_in_gb(size_bytes),
            free_gb: 0,
            is_system_drive: is_sys,
            is_gpt: style == 2,
        }
    }

    /// The disks to list, sorted by disk number (stable): virtual disks (bus
    /// type 14 or 15, or "virtual" in the name) only in debug mode.
    pub fn disks_from_wmi(&self, wmi_disks: &Vec<MsftDisk>) -> (r: Vec<Disk>)
        ensures
            disk_views(r@) == seconds(stable_sort(listed_wmi_disks(wmi_disks@, self.debug()))),
    {
        let ghost g = |d: Disk| d@;
        let mut keyed: Vec<(u32, Disk)> = Vec::new();
        let mut i: usize = 0;
        while i < wmi_disks.len()
            invariant
                i <= wmi_disks@.len(),
                g == |d: Disk| d@,
                map_second(keyed@, g) == listed_wmi_disks(wmi_disks@.take(i as int), self.debug()),
            decreases wmi_disks.len() - i,
        {
            assert(wmi_disks@.take(i + 1).drop_last() == wmi_disks@.take(i as int));
            let d = &wmi_disks[i];
            let ghost prev = keyed@;
            if !(Self::disk_is_virtual(d) && !self.debug_mode) {
                let rec = Self::disk_record(d);
                keyed.push((d.Number, rec));
                assert(map_second(keyed@, g) == map_second(prev, g).push((d.Number, rec@)));
            }
            i = i + 1;
        }
        assert(wmi_disks@.take(wmi_disks@.len() as int) == wmi_disks@);
        let sorted = stable_sort_by_key(keyed);
        proof {
            lemma_stable_sort_map_second(keyed@, g);
        }
        Self::strip_keys_disks(sorted)
    }

    fn strip_keys_disks(v: Vec<(u32, Disk)>) -> (r: Vec<Disk>)
        ensures
            disk_views(r@) == seconds(map_second(v@, |d: Disk| d@)),
    {
        let ghost orig = v@;
        let n = v.len();
        let mut src = v;
        let mut out: Vec<Disk> = Vec::new();
        let mut k: usize = 0;
        assert(orig.skip(0) == orig);
        while src.len() > 0
            invariant
                k <= n,
                orig.len() == n,
                src@ == orig.skip(k as int),
                src@.len() + k == n,
                disk_views(out@) == seconds(map_second(orig.take(k as int), |d: Disk| d@)),
            decreases src.len(),
        {
            let (key, d) = src.remove(0);
            assert((key, d) == orig[k as int]);
            let ghost prev = out@;
            out.push(d);
            assert(orig.take(k + 1) == orig.take(k as int).push(orig[k as int]));
            assert(disk_views(out@) == disk_views(prev).push(d@));
            k = k + 1;
        }
        assert(orig.take(n as int) == orig);
        out
    }

    /// The cleaned drive letter of a partition, followed by `:`, when it has
    /// one.
    pub fn drive_letter_of(part: &MsftPartition) -> (r: Option<String>)
        ensures
            opt_string_view(r) == (if part.DriveLetter is Some && letter_of(part.DriveLetter).len() > 0 {
                Some(letter_of(part.DriveLetter) + seq![':'])
            } else {
                None
            }),
    {
        match &part.DriveLetter {
            Some(dl) => {
                let t = clean_letter_of(dl);
                if t.len() > 0 {
                    let mut s = string_from_chars(&t);
                    string_push(&mut s, ':');
                    Some(s)
                } else {
                    None
                }
            },
            None => None,
        }
    }

    /// The first volume with drive letter `letter`.
    fn volume_for<'a>(volumes: &'a Vec<MsftVolume>, letter: &Vec<char>) -> (r: Option<&'a MsftVolume>)
        ensures
            match first_where(volumes@, volume_has_letter(letter@)) {
                Some(k) => r matches Some(v) && *v == volumes@[k],
                None => r is None,
            },
    {
        let ghost p = volume_has_letter(letter@);
        let mut i: usize = 0;
        while i < volumes.len()
            invariant
                i <= volumes@.len(),
                p == volume_has_letter(letter@),
                forall|j: int| 0 <= j < i ==> !p(#[trigger] volumes@[j]),
            decreases volumes.len() - i,
        {
            let v = &volumes[i];
            let hit = match &v.DriveLetter {
                Some(d) => {
                    let c = clean_letter_of(d);
                    crate::text::seq_equal(&c, letter)
                },
                None => false,
            };
            if hit {
                assert(p(volumes@[i as int]));
                proof {
                    lemma_first_where(volumes@, p, i as int);
                }
                return Some(v);
            }
            i = i + 1;
        }
        proof {
            lemma_first_where(volumes@, p, i as int);
        }
        None
    }

    /// The partition record of one WMI partition: drive letter, filesystem,
    /// free space and label come from the volume with the same letter; the
    /// label falls back to the naming rules; the BitLocker state is the one
    /// found for its letter.
    pub fn partition_record(part: &MsftPartition, volumes: &Vec<MsftVolume>, bitlocker: Option<BitLockerState>) -> (r: Partition)
        ensures
            r@ == wmi_partition_view(*part, volumes@, bitlocker),
    {
        let size_bytes: u64 = match part.Size {
            Some(s) => s,
            None => 0,
        };
        let mut fs = String::from_str("Unknown");
        let mut drive_letter: Option<String> = None;
        let mut free_bytes: u64 = 0;
        let mut vol_label: Option<String> = None;
        let mut has_letter = false;
        if let Some(dl) = &part.DriveLetter {
            let t = clean_letter_of(dl);
            if t.len() > 0 {
                has_letter = true;
                let mut s = string_from_chars(&t);
                string_push(&mut s, ':');
                drive_letter = Some(s);
                if let Some(vol) = Self::volume_for(volumes, &t) {
                    if let Some(f) = &vol.FileSystem {
                        fs = f.clone();
                    }
                    if let Some(free) = vol.SizeRemaining {
                        free_bytes = free;
                    }
                    vol_label = copy_opt_string(&vol.FileSystemLabel);
                }
            }
        }
        let label = match vol_label {
            Some(l) => l,
            None => {
                let dl: Option<&str> = match &part.DriveLetter {
                    Some(d) => Some(d.as_str()),
                    None => None,
                };
                let gpt: Option<&str> = match &part.GptType {
                    Some(g) => Some(g.as_str()),
                    None => None,
                };
                PartitionUtils::determine_partition_label(dl, gpt, part.MbrType)
            },
        };
        let state = if has_letter {
            match bitlocker {
                Some(b) => b,
                None => BitLockerState::Unprotected,
            }
        } else {
            BitLockerState::Unprotected
        };
        let r = Partition {
            id: decimal_string(part.PartitionNumber as u64),
            drive_letter,
            size_gb: crate::linux::size_in_gb(size_bytes),
            file_system: fs,
            label,
            offset_bytes: match part.Offset {
                Some(o) => o,
                None => 0,
            },
            size_bytes,
            free_bytes,
            bitlocker_state: state,
        };
        let ghost w = wmi_partition_view(*part, volumes@, bitlocker);
        assert(r@.id == w.id);
        assert(r@.drive_letter == w.drive_letter);
        assert(r@.size_gb == w.size_gb);
        assert(r@.file_system == w.file_system);
        assert(r@.label == w.label);
        assert(r@.free_bytes == w.free_bytes);
        assert(r@.bitlocker_state == w.bitlocker_state);
        r
    }

    /// The partition records of a disk, sorted by partition number (stable);
    /// `bitlocker[i]` is the state found for partition `i`'s drive letter.
    pub fn partitions_from_wmi(
        parts: &Vec<MsftPartition>,
        volumes: &Vec<MsftVolume>,
        bitlocker: &Vec<Option<BitLockerState>>,
    ) -> (r: Vec<Partition>)
        requires
            bitlocker@.len() == parts@.len(),
        ensures
            partition_views(r@) == seconds(stable_sort(keyed_wmi_partitions(parts@, volumes@, bitlocker@))),
    {
        let ghost g = |p: Partition| p@;
        let mut keyed: Vec<(u32, Partition)> = Vec::new();
        let mut i: usize = 0;
        while i < parts.len()
            invariant
                i <= parts@.len(),
                bitlocker@.len() == parts@.len(),
                g == |p: Partition| p@,
                map_second(keyed@, g) == keyed_wmi_partitions(parts@.take(i as int), volumes@, bitlocker@),
            decreases parts.len() - i,
        {
            assert(parts@.take(i + 1).drop_last() == parts@.take(i as int));
            assert(parts@.take(i + 1)[i as int] == parts@[i as int]);
            let ghost prev = keyed@;
            let rec = Self::partition_record(&parts[i], volumes, bitlocker[i]);
            keyed.push((parts[i].PartitionNumber, rec));
            assert(map_second(keyed@, g) == map_second(prev, g).push((parts@[i as int].PartitionNumber, rec@)));
            i = i + 1;
        }
        assert(parts@.take(parts@.len() as int) == parts@);
        let sorted = stable_sort_by_key(keyed);
        proof {
            lemma_stable_sort_map_second(keyed@, g);
        }
        Self::strip_keys_partitions(sorted)
    }

    fn strip_keys_partitions(v: Vec<(u32, Partition)>) -> (r: Vec<Partition>)
        ensures
            partition_views(r@) == seconds(map_second(v@, |p: Partition| p@)),
    {
        let ghost orig = v@;
        let n = v.len();
        let mut src = v;
        let mut out: Vec<Partition> = Vec::new();
        let mut k: usize = 0;
        assert(orig.skip(0) == orig);
        while src.len() > 0
            invariant
                k <= n,
                orig.len() == n,
                src@ == orig.skip(k as int),
                src@.len() + k == n,
                partition_views(out@) == seconds(map_second(orig.take(k as int), |p: Partition| p@)),
            decreases src.len(),
        {
            let (key, p) = src.remove(0);
            assert((key, p) == orig[k as int]);
            let ghost prev = out@;
            out.push(p);
            assert(orig.take(k + 1) == orig.take(k as int).push(orig[k as int]));
            assert(partition_views(out@) == partition_views(prev).push(p@));
            k = k + 1;
        }
        assert(orig.take(n as int) == orig);
        out
    }

    /// Refuses to wipe the disk that holds the running Windows.
    pub fn check_wipe_target(disk_id: u32, os_disk_id: u32) -> (r: Result<(), WipeRefusal>)
        ensures
            r is Err <==> disk_id == os_disk_id,
    {
        if disk_id == os_disk_id {
            Err(WipeRefusal::ActiveOsDisk)
        } else {
            Ok(())
        }
    }

    /// Whether a physical disk is a spinning drive (media type 3) — judged by
    /// the first record found.
    pub fn is_mechanical(records: &Vec<MsftPhysicalDisk>) -> (r: bool)
        ensures
            r == (records@.len() > 0 && records@[0].MediaType == Some(3u16)),
    {
        if records.len() == 0 {
            return false;
        }
        match records[0].MediaType {
            Some(m) => m == 3,
            None => false,
        }
    }

    /// How many MB a fallback shrink must remove to bring a partition of
    /// `current_bytes` down to `target_bytes`.
    pub fn fallback_shrink_mb(current_bytes: u64, target_bytes: u64) -> (r: u64)
        ensures
            r == (if current_bytes >= target_bytes { current_bytes - target_bytes } else { 0 }) / 0x10_0000,
    {
        current_bytes.saturating_sub(target_bytes) / (1024 * 1024)
    }

    /// Whether a partition of `actual_bytes` is within 5 MiB of
    /// `target_bytes` after a fallback shrink.
    pub fn check_shrunk_size(actual_bytes: u64, target_bytes: u64) -> (r: ShrinkCheck)
        ensures
            r == (if (if actual_bytes >= target_bytes { actual_bytes - target_bytes } else { target_bytes - actual_bytes }) > 0x50_0000 {
                ShrinkCheck::SilentFailure
            } else {
                ShrinkCheck::WithinTolerance
            }),
    {
        let diff = if actual_bytes >= target_bytes { actual_bytes - target_bytes } else { target_bytes - actual_bytes };
        if diff > 5 * 1024 * 1024 {
            ShrinkCheck::SilentFailure
        } else {
            ShrinkCheck::WithinTolerance
        }
    }

    /// The `chkdsk` arguments for a drive: a read-only online scan for NTFS,
    /// a fix with forced dismount otherwise.
    pub fn repair_args(drive_letter: &str, file_system: &str) -> (r: Vec<String>)
        ensures
            r@.map_values(|a: String| a@) == seq![crate::text::trim_end_char(drive_letter@, '\\')]
                + (if spec_eq_ignore_ascii_case(file_system@, "NTFS"@) { seq!["/scan"@, "/perf"@] } else { seq!["/f"@, "/x"@] }),
    {
        let letter_chars = chars_of(drive_letter);
        let letter = crate::text::trim_end_char_chars(&letter_chars, '\\');
        let mut out: Vec<String> = Vec::new();
        out.push(string_from_chars(&letter));
        if eq_ignore_ascii_case(file_system, "NTFS") {
            out.push(String::from_str("/scan"));
            out.push(String::from_str("/perf"));
        } else {
            out.push(String::from_str("/f"));
            out.push(String::from_str("/x"));
        }
        assert(out@.map_values(|a: String| a@) =~= seq![crate::text::trim_end_char(drive_letter@, '\\')]
            + (if spec_eq_ignore_ascii_case(file_system@, "NTFS"@) { seq!["/scan"@, "/perf"@] } else { seq!["/f"@, "/x"@] }));
        out
    }

    /// The number a partition identifier reads as (0 when it is not one).
    fn id_number_of(id: &String) -> (r: u32)
        ensures
            r == id_number(id@),
    {
        let cs = chars_of(id.as_str());
        assert(cs@.subrange(0, cs@.len() as int) == cs@);
        match crate::text::parse_unsigned(&cs, 0, cs.len(), 0xffff_ffff) {
            Some(n) => n as u32,
            None => 0,
        }
    }

    /// Whether a partition carries one of the live installation labels.
    fn is_live(p: &Partition) -> (r: bool)
        ensures
            r == is_live_partition(p@),
    {
        let label = chars_of(p.label.as_str());
        contains_chars(&label, &chars_of("LINUX_LIVE")) || contains_chars(&label, &chars_of("LINUX_EFI"))
    }

    /// The live-installation partitions to delete, highest partition number
    /// first (stable among equal numbers).
    pub fn parts_to_delete(partitions: &Vec<Partition>) -> (r: Vec<Partition>)
        ensures
            partition_views(r@) == seconds(stable_sort(live_partitions_keyed(partition_views(partitions@)))),
    {
        let ghost g = |p: Partition| p@;
        let ghost views = partition_views(partitions@);
        let mut keyed: Vec<(u32, Partition)> = Vec::new();
        let mut i: usize = 0;
        while i < partitions.len()
            invariant
                i <= partitions@.len(),
                g == |p: Partition| p@,
                views == partition_views(partitions@),
                map_second(keyed@, g) == live_partitions_keyed(views.take(i as int)),
            decreases partitions.len() - i,
        {
            assert(views.take(i + 1).drop_last() == views.take(i as int));
            assert(views.take(i + 1).last() == partitions@[i as int]@);
            let p = &partitions[i];
            let ghost prev = keyed@;
            if Self::is_live(p) {
                let key: u32 = 0xffff_ffff - Self::id_number_of(&p.id);
                let copy = p.duplicate();
                keyed.push((key, copy));
                assert(map_second(keyed@, g) == map_second(prev, g).push((key, copy@)));
            }
            i = i + 1;
        }
        assert(views.take(views.len() as int) == views);
        let sorted = stable_sort_by_key(keyed);
        proof {
            lemma_stable_sort_map_second(keyed@, g);
        }
        Self::strip_keys_partitions(sorted)
    }

    /// The partition that receives the reclaimed space: the `C:` partition,
    /// else the largest NTFS partition (the last of equally large ones).
    pub fn main_partition_index(partitions: &Vec<Partition>) -> (r: Option<usize>)
        ensures
            match main_partition(partition_views(partitions@)) {
                Some(k) => r == Some(k as usize),
                None => r is None,
            },
    {
        let ghost views = partition_views(partitions@);
        let ghost pc = |p: PartitionView| is_c_drive(p);
        let mut i: usize = 0;
        while i < partitions.len()
            invariant
                i <= partitions@.len(),
                views == partition_views(partitions@),
                pc == |p: PartitionView| is_c_drive(p),
                forall|j: int| 0 <= j < i ==> !pc(#[trigger] views[j]),
            decreases partitions.len() - i,
        {
            let is_c = match &partitions[i].drive_letter {
                Some(d) => {
                    let cs = chars_of(d.as_str());
                    let r = cs.len() == 2 && cs[0] == 'C' && cs[1] == ':';
                    assert(r == (cs@ == seq!['C', ':'])) by {
                        if cs@ == seq!['C', ':'] {
                            assert(cs@[0] == 'C' && cs@[1] == ':');
                        }
                        if r {
                            assert(cs@ =~= seq!['C', ':']);
                        }
                    }
                    r
                },
                None => false,
            };
            assert(views[i as int] == partitions@[i as int]@);
            if is_c {
                assert(pc(views[i as int]));
                proof {
                    lemma_first_where(views, pc, i as int);
                }
                return Some(i);
            }
            i = i + 1;
        }
        proof {
            lemma_first_where(views, pc, i as int);
        }
        let mut best: Option<usize> = None;
        let mut k: usize = 0;
        while k < partitions.len()
            invariant
                k <= partitions@.len(),
                views == partition_views(partitions@),
                match largest_ntfs(views.take(k as int)) {
                    Some(b) => best == Some(b as usize),
                    None => best is None,
                },
                best matches Some(b) ==> b < k,
            decreases partitions.len() - k,
        {
            let ghost t = views.take(k + 1);
            assert(t.drop_last() == views.take(k as int));
            assert(t[k as int] == partitions@[k as int]@);
            proof {
                if let Some(b) = largest_ntfs(views.take(k as int)) {
                    lemma_largest_in_range(views.take(k as int));
                    assert(t[b] == views.take(k as int)[b]);
                }
            }
            if eq_ignore_ascii_case(partitions[k].file_system.as_str(), "NTFS") {
                assert(is_ntfs(views[k as int])) by {
                    reveal_strlit("NTFS");
                }
                best = match best {
                    None => Some(k),
                    Some(b) => if partitions[k].size_bytes >= partitions[b].size_bytes {
                        Some(k)
                    } else {
                        Some(b)
                    },
                };
            } else {
                assert(!is_ntfs(views[k as int])) by {
                    reveal_strlit("NTFS");
                }
            }
            k = k + 1;
        }
        assert(views.take(views.len() as int) == views);
        best
    }
}

proof fn lemma_largest_in_range(s: Seq<PartitionView>)
    ensures
        largest_ntfs(s) matches Some(b) ==> 0 <= b < s.len(),
    decreases s.len(),
{
    if s.len() > 0 {
        lemma_largest_in_range(s.drop_last());
    }
}

/// What `serde_json::from_str::<serde_json::Value>` followed by indexing
/// with `key` and `as_u64` gives for `text`: `None` when the text is not
/// JSON; `Some(None)` when the member is missing or not an unsigned
/// integer.
pub uninterp spec fn json_u64_member(text: Seq<char>, key: Seq<char>) -> Option<Option<u64>>;

/// Parses `text` as JSON with `serde_json` and reads its member `key` as an
/// unsigned integer. Claims only that the result is `json_u64_member` of
/// the arguments.
#[verifier::external_body]
fn read_json_u64(text: &str, key: &str) -> (r: Option<Option<u64>>)
    ensures
        r == json_u64_member(text@, key@),
{
    match serde_json::from_str::<serde_json::Value>(text) {
        Ok(v) => Some(v[key].as_u64()),
        Err(_) => None,
    }
}

/// A drive letter without its trailing colons, then its trailing
/// backslashes.
pub open spec fn bare_drive(letter: Seq<char>) -> Seq<char> {
    crate::text::trim_end_char(crate::text::trim_end_char(letter, ':'), '\\')
}

/// The script that prints the supported sizes of the partition of drive
/// `letter` as compact JSON.
pub open spec fn supported_size_script(letter: Seq<char>) -> Seq<char> {
    "$size = Get-PartitionSupportedSize -DriveLetter '"@ + bare_drive(letter)
        + "' -ErrorAction Stop; [PSCustomObject]@{ SizeMin = $size.SizeMin; SizeMax = $size.SizeMax } | ConvertTo-Json -Compress"@
}

/// Whether a partition with identifier `expected` is listed (always, when
/// none is expected).
pub open spec fn partition_listed(parts: Seq<Partition>, expected: Option<Seq<char>>) -> bool {
    match expected {
        None => true,
        Some(e) => exists|i: int| 0 <= i < parts.len() && (#[trigger] parts[i]).id@ == e,
    }
}

/// Whether partition `p`'s label names the volume `label`.
pub open spec fn has_label(label: Seq<char>) -> spec_fn(Partition) -> bool {
    |p: Partition| spec_contains(p.label@, label)
}

impl WindowsDiskManager {
    /// The disk number of `disk_id`; an identifier that is not one names no
    /// disk.
    pub fn disk_index(disk_id: &str) -> (r: Result<u32, crate::models::DiskError>)
        ensures
            match crate::text::spec_parse_unsigned(disk_id@, u32::MAX as nat) {
                Some(n) => r == Ok::<u32, crate::models::DiskError>(n as u32),
                None => r matches Err(crate::models::DiskError::DiskNotFound(d)) && d@ == disk_id@,
            },
    {
        let cs = chars_of(disk_id);
        assert(cs@.subrange(0, cs@.len() as int) =~= cs@);
        match crate::text::parse_unsigned(&cs, 0, cs.len(), u32::MAX as u64) {
            Some(n) => Ok(n as u32),
            None => Err(crate::models::DiskError::DiskNotFound(String::from_str(disk_id))),
        }
    }

    /// The waits, in milliseconds, before each fresh listing of a disk's
    /// partitions.
    pub fn sync_delays_ms() -> (r: Vec<u64>)
        ensures
            r@ == seq![500u64, 1000, 2000, 3000, 5000],
    {
        let r = vec![500u64, 1000, 2000, 3000, 5000];
        assert(r@ =~= seq![500u64, 1000, 2000, 3000, 5000]);
        r
    }

    /// Whether a fresh listing shows the expected partition.
    pub fn partition_present(parts: &Vec<Partition>, expected: Option<&str>) -> (r: bool)
        ensures
            r == partition_listed(parts@, opt_view(expected)),
    {
        match expected {
            None => true,
            Some(e) => {
                let mut i: usize = 0;
                while i < parts.len()
                    invariant
                        expected == Some(e),
                        i <= parts@.len(),
                        forall|j: int| 0 <= j < i ==> (#[trigger] parts@[j]).id@ != e@,
                    decreases parts.len() - i,
                {
                    if same_text(parts[i].id.as_str(), e) {
                        assert(parts@[i as int].id@ == e@);
                        return true;
                    }
                    i = i + 1;
                }
                false
            },
        }
    }

    /// The letter of the first partition whose label contains `label`
    /// (`None` when there is none, or it has no letter yet).
    pub fn labeled_letter(parts: &Vec<Partition>, label: &str) -> (r: Option<String>)
        ensures
            opt_string_view(r) == match first_where(parts@, has_label(label@)) {
                Some(i) => opt_string_view(parts@[i].drive_letter),
                None => None,
            },
    {
        let lc = chars_of(label);
        let mut i: usize = 0;
        while i < parts.len()
            invariant
                lc@ == label@,
                i <= parts@.len(),
                forall|j: int| 0 <= j < i ==> !has_label(label@)(#[trigger] parts@[j]),
            decreases parts.len() - i,
        {
            let pc = chars_of(parts[i].label.as_str());
            if contains_chars(&pc, &lc) {
                proof {
                    lemma_first_where(parts@, has_label(label@), i as int);
                }
                return copy_opt_string(&parts[i].drive_letter);
            }
            i = i + 1;
        }
        proof {
            lemma_first_where(parts@, has_label(label@), i as int);
        }
        None
    }

    /// Whether the new partitions can be used: the payload has a letter,
    /// and on UEFI hosts so has the driver partition.
    pub fn live_letters_ready(payload: &Option<String>, efi: &Option<String>, is_uefi: bool) -> (r: bool)
        ensures
            r == (payload is Some && (!is_uefi || efi is Some)),
    {
        payload.is_some() && (!is_uefi || efi.is_some())
    }

    /// The error when the new partitions got no letters in time.
    pub fn live_letters_timeout() -> (r: crate::models::DiskError)
        ensures
            r matches crate::models::DiskError::DiskNotFound(m) && m@ == "Failed to mount FAT32 partitions. WMI timeout."@,
    {
        crate::models::DiskError::DiskNotFound(String::from_str("Failed to mount FAT32 partitions. WMI timeout."))
    }

    /// The supported-size script for drive `drive_letter`.
    pub fn shrink_size_script(drive_letter: &str) -> (r: String)
        ensures
            r@ == supported_size_script(drive_letter@),
    {
        let cs = chars_of(drive_letter);
        let a = crate::text::trim_end_char_chars(&cs, ':');
        let b = crate::text::trim_end_char_chars(&a, '\\');
        let letter = string_from_chars(&b);
        let mut out = String::from_str("$size = Get-PartitionSupportedSize -DriveLetter '");
        push_str(&mut out, letter.as_str());
        push_str(
            &mut out,
            "' -ErrorAction Stop; [PSCustomObject]@{ SizeMin = $size.SizeMin; SizeMax = $size.SizeMax } | ConvertTo-Json -Compress",
        );
        out
    }

    /// The smallest size the partition can shrink to, read from the
    /// script's output: its `SizeMin` (the largest value when absent); an
    /// output that is not JSON is refused.
    pub fn max_shrink_from_output(stdout: &str) -> (r: Result<u64, crate::models::DiskError>)
        ensures
            match json_u64_member(crate::text::trim_ws(stdout@), "SizeMin"@) {
                Some(m) => r == Ok::<u64, crate::models::DiskError>(match m {
                    Some(n) => n,
                    None => u64::MAX,
                }),
                None => r matches Err(crate::models::DiskError::DataValidation(e))
                    && e@ == "Failed to parse shrink size from Windows API"@,
            },
    {
        let cs = chars_of(stdout);
        let t = trim_chars(&cs);
        let text = string_from_chars(&t);
        match read_json_u64(text.as_str(), "SizeMin") {
            Some(m) => Ok(match m {
                Some(n) => n,
                None => u64::MAX,
            }),
            None => Err(crate::models::DiskError::DataValidation(
                String::from_str("Failed to parse shrink size from Windows API"),
            )),
        }
    }

    /// The error when the supported-size query fails.
    pub fn shrink_size_query_failed() -> (r: crate::models::DiskError)
        ensures
            r matches crate::models::DiskError::DataValidation(m) && m@ == "Failed to calculate maximum shrink size"@,
    {
        crate::models::DiskError::DataValidation(String::from_str("Failed to calculate maximum shrink size"))
    }
}

impl WindowsDiskManager {
    /// The PowerShell command that resizes partition `partition_id` of disk
    /// `disk_id` to `target_size_bytes`.
    pub fn resize_command(disk_id: &str, partition_id: &str, target_size_bytes: u64) -> (r: String)
        ensures
            r@ == "Resize-Partition -DiskNumber "@ + disk_id@ + " -PartitionNumber "@ + partition_id@ + " -Size "@
                + decimal(target_size_bytes as nat),
    {
        let mut out = String::from_str("Resize-Partition -DiskNumber ");
        push_str(&mut out, disk_id);
        push_str(&mut out, " -PartitionNumber ");
        push_str(&mut out, partition_id);
        push_str(&mut out, " -Size ");
        let n = decimal_string(target_size_bytes);
        push_str(&mut out, n.as_str());
        out
    }
}


/// The second components of a keyed sequence hold exactly the payloads of
/// its elements.
proof fn lemma_seconds_contains<T>(s: Seq<(u32, T)>, v: T)
    ensures
        seconds(s).contains(v) <==> exists|x: (u32, T)| #[trigger] s.contains(x) && x.1 == v,
{
    if seconds(s).contains(v) {
        let i = choose|i: int| 0 <= i < seconds(s).len() && seconds(s)[i] == v;
        assert(s.contains(s[i]));
    }
    if exists|x: (u32, T)| #[trigger] s.contains(x) && x.1 == v {
        let x = choose|x: (u32, T)| #[trigger] s.contains(x) && x.1 == v;
        let i = choose|i: int| 0 <= i < s.len() && s[i] == x;
        assert(seconds(s)[i] == v);
    }
}

proof fn lemma_live_keyed_members(v: Seq<PartitionView>)
    ensures
        forall|i: int| 0 <= i < v.len() && (spec_contains(v[i].label, "LINUX_LIVE"@) || spec_contains(v[i].label, "LINUX_EFI"@))
            ==> exists|x: (u32, PartitionView)| #[trigger] live_partitions_keyed(v).contains(x) && x.1 == v[i],
        forall|x: (u32, PartitionView)| #[trigger] live_partitions_keyed(v).contains(x) ==> v.contains(x.1)
            && (spec_contains(x.1.label, "LINUX_LIVE"@) || spec_contains(x.1.label, "LINUX_EFI"@)),
    decreases v.len(),
{
    if v.len() > 0 {
        let p = v.drop_last();
        lemma_live_keyed_members(p);
        let rest = live_partitions_keyed(p);
        let last = v.last();
        let k = live_partitions_keyed(v);
        assert forall|i: int| 0 <= i < v.len() && (spec_contains(v[i].label, "LINUX_LIVE"@) || spec_contains(v[i].label, "LINUX_EFI"@))
            implies exists|x: (u32, PartitionView)| #[trigger] k.contains(x) && x.1 == v[i] by {
            if i < v.len() - 1 {
                assert(p[i] == v[i]);
                let x = choose|x: (u32, PartitionView)| #[trigger] rest.contains(x) && x.1 == p[i];
                let q = choose|q: int| 0 <= q < rest.len() && rest[q] == x;
                assert(k[q] == x);
                assert(k.contains(x));
            } else {
                let x = ((u32::MAX - id_number(last.id)) as u32, last);
                assert(k == rest.push(x));
                assert(k[rest.len() as int] == x);
                assert(k.contains(x));
            }
        }
        assert forall|x: (u32, PartitionView)| #[trigger] k.contains(x) implies v.contains(x.1)
            && (spec_contains(x.1.label, "LINUX_LIVE"@) || spec_contains(x.1.label, "LINUX_EFI"@)) by {
            let q = choose|q: int| 0 <= q < k.len() && k[q] == x;
            if q < rest.len() {
                assert(rest[q] == x);
                assert(rest.contains(x));
                let j = choose|j: int| 0 <= j < p.len() && p[j] == x.1;
                assert(v[j] == x.1);
            } else {
                assert(v[v.len() - 1] == x.1);
            }
        }
    }
}

/// Uninstalling deletes exactly the partitions labelled for the live
/// installation: every partition of the disk whose label contains
/// `LINUX_LIVE` or `LINUX_EFI` is chosen, and every chosen partition is a
/// partition of the disk with such a label.
pub proof fn lemma_parts_to_delete_are_the_live_ones(parts: Seq<Partition>, r: Seq<Partition>)
    requires
        partition_views(r) == seconds(stable_sort(live_partitions_keyed(partition_views(parts)))),
    ensures
        forall|i: int| 0 <= i < parts.len() && (spec_contains(parts[i].label@, "LINUX_LIVE"@) || spec_contains(
            parts[i].label@,
            "LINUX_EFI"@,
        )) ==> #[trigger] partition_views(r).contains(parts[i]@),
        forall|j: int| 0 <= j < r.len() ==> partition_views(parts).contains(#[trigger] r[j]@) && (spec_contains(
            r[j].label@,
            "LINUX_LIVE"@,
        ) || spec_contains(r[j].label@, "LINUX_EFI"@)),
{
    let v = partition_views(parts);
    let keyed = live_partitions_keyed(v);
    let sorted = stable_sort(keyed);
    lemma_live_keyed_members(v);
    lemma_stable_sort_elements(keyed);
    assert forall|i: int| 0 <= i < parts.len() && (spec_contains(parts[i].label@, "LINUX_LIVE"@) || spec_contains(
        parts[i].label@,
        "LINUX_EFI"@,
    )) implies #[trigger] partition_views(r).contains(parts[i]@) by {
        assert(v[i] == parts[i]@);
        let x = choose|x: (u32, PartitionView)| #[trigger] keyed.contains(x) && x.1 == v[i];
        assert(sorted.contains(x));
        lemma_seconds_contains(sorted, parts[i]@);
    }
    assert forall|j: int| 0 <= j < r.len() implies partition_views(parts).contains(#[trigger] r[j]@) && (spec_contains(
        r[j].label@,
        "LINUX_LIVE"@,
    ) || spec_contains(r[j].label@, "LINUX_EFI"@)) by {
        assert(partition_views(r)[j] == r[j]@);
        assert(partition_views(r).contains(r[j]@));
        lemma_seconds_contains(sorted, r[j]@);
        let x = choose|x: (u32, PartitionView)| #[trigger] sorted.contains(x) && x.1 == r[j]@;
        assert(keyed.contains(x));
    }
}

proof fn lemma_listed_members(s: Seq<MsftDisk>, debug: bool)
    ensures
        forall|j: int| 0 <= j < s.len() && (debug || !is_virtual_disk(s[j])) ==> #[trigger] listed_wmi_disks(s, debug).contains(
            (s[j].Number, wmi_disk_view(s[j])),
        ),
        forall|x: (u32, DiskView)| #[trigger] listed_wmi_disks(s, debug).contains(x) ==> exists|j: int|
            0 <= j < s.len() && x == (s[j].Number, wmi_disk_view(#[trigger] s[j])),
    decreases s.len(),
{
    if s.len() > 0 {
        let p = s.drop_last();
        lemma_listed_members(p, debug);
        let rest = listed_wmi_disks(p, debug);
        let k = listed_wmi_disks(s, debug);
        assert forall|j: int| 0 <= j < s.len() && (debug || !is_virtual_disk(s[j])) implies #[trigger] k.contains(
            (s[j].Number, wmi_disk_view(s[j])),
        ) by {
            let y = (s[j].Number, wmi_disk_view(s[j]));
            if j < s.len() - 1 {
                assert(p[j] == s[j]);
                assert(rest.contains(y));
                let q = choose|q: int| 0 <= q < rest.len() && rest[q] == y;
                assert(k[q] == y);
            } else {
                assert(k[rest.len() as int] == y);
            }
        }
        assert forall|x: (u32, DiskView)| #[trigger] k.contains(x) implies exists|j: int|
            0 <= j < s.len() && x == (s[j].Number, wmi_disk_view(#[trigger] s[j])) by {
            let q = choose|q: int| 0 <= q < k.len() && k[q] == x;
            if q < rest.len() {
                assert(rest[q] == x);
                assert(rest.contains(x));
                let j = choose|j: int| 0 <= j < p.len() && x == (p[j].Number, wmi_disk_view(#[trigger] p[j]));
                assert(s[j] == p[j]);
            } else {
                assert(x == (s[s.len() - 1].Number, wmi_disk_view(s[s.len() - 1])));
            }
        }
    }
}

/// A listed disk comes from a WMI disk and reports it faithfully: its
/// identifier is the WMI disk number, it is a system drive when WMI marks
/// it as the system or the boot disk, and it is GPT exactly when its WMI
/// partition style is 2 (GPT); every disk that is listed (every one in
/// debug mode, the non-virtual ones otherwise) appears.
pub proof fn lemma_listed_disks_report_wmi(wmi: Seq<MsftDisk>, debug: bool, r: Seq<Disk>)
    requires
        disk_views(r) == seconds(stable_sort(listed_wmi_disks(wmi, debug))),
    ensures
        forall|i: int| 0 <= i < r.len() ==> exists|j: int| #![trigger wmi[j]] 0 <= j < wmi.len()
            && (#[trigger] r[i]).stable_id@ == decimal(wmi[j].Number as nat)
            && r[i].is_gpt == (wmi[j].PartitionStyle == Some(2u16))
            && r[i].is_system_drive == (wmi[j].IsSystem == Some(true) || wmi[j].IsBoot == Some(true)),
        forall|j: int| 0 <= j < wmi.len() && (debug || !is_virtual_disk(wmi[j])) ==> exists|i: int| #![trigger r[i]] 0 <= i < r.len()
            && r[i].stable_id@ == decimal((#[trigger] wmi[j]).Number as nat)
            && r[i].is_gpt == (wmi[j].PartitionStyle == Some(2u16)),
{
    let listed = listed_wmi_disks(wmi, debug);
    let sorted = stable_sort(listed);
    lemma_listed_members(wmi, debug);
    lemma_stable_sort_elements(listed);
    assert forall|i: int| 0 <= i < r.len() implies exists|j: int| #![trigger wmi[j]] 0 <= j < wmi.len()
        && (#[trigger] r[i]).stable_id@ == decimal(wmi[j].Number as nat)
        && r[i].is_gpt == (wmi[j].PartitionStyle == Some(2u16))
        && r[i].is_system_drive == (wmi[j].IsSystem == Some(true) || wmi[j].IsBoot == Some(true)) by {
        assert(disk_views(r)[i] == r[i]@);
        assert(disk_views(r).contains(r[i]@));
        lemma_seconds_contains(sorted, r[i]@);
        let x = choose|x: (u32, DiskView)| #[trigger] sorted.contains(x) && x.1 == r[i]@;
        assert(listed.contains(x));
        let j = choose|j: int| 0 <= j < wmi.len() && x == (wmi[j].Number, wmi_disk_view(#[trigger] wmi[j]));
        assert(wmi[j] == wmi[j]);
    }
    assert forall|j: int| 0 <= j < wmi.len() && (debug || !is_virtual_disk(wmi[j])) implies exists|i: int| #![trigger r[i]] 0 <= i < r.len()
        && r[i].stable_id@ == decimal((#[trigger] wmi[j]).Number as nat)
        && r[i].is_gpt == (wmi[j].PartitionStyle == Some(2u16)) by {
        let y = (wmi[j].Number, wmi_disk_view(wmi[j]));
        assert(listed.contains(y));
        assert(sorted.contains(y));
        lemma_seconds_contains(sorted, y.1);
        assert(disk_views(r).contains(y.1));
        let i = choose|i: int| 0 <= i < disk_views(r).len() && disk_views(r)[i] == y.1;
        assert(disk_views(r)[i] == r[i]@);
    }
}

} // verus!
