//! Domain records shared by the disk managers, the planner and the IPC layer.
use vstd::prelude::*;
use crate::text::{decimal, decimal_string, push_str, spec_starts_with};

verus! {

/// `std::io::Error`, carried inside `DiskError::OsError`.
#[verifier::external_type_specification]
#[verifier::external_body]
pub struct ExIoError(std::io::Error);

/// Volume label of the live payload partition.
pub const PARTITION_LABEL_LIVE: &'static str = "LINUX_LIVE";

/// Volume label of the FAT32 EFI driver partition.
pub const PARTITION_LABEL_EFI: &'static str = "LINUX_EFI";

/// Errors of the disk workflows.
#[derive(Debug)]
pub enum DiskError {
    /// The drive is locked by BitLocker or LUKS.
    DriveEncrypted(String),
    /// Not enough space; sizes in the units the caller reports.
    InsufficientSpace { required: u32, available: u32 },
    /// The process lacks administrator rights.
    PermissionDenied,
    /// No disk with the given identifier.
    DiskNotFound(String),
    /// An error of the operating system.
    OsError(std::io::Error),
    /// No partition with the given identifier on the given disk.
    PartitionNotFound(String, String),
    /// Data that fails a consistency check.
    DataValidation(String),
    /// A WMI query failed.
    WmiError(String),
}

/// BitLocker protection of a volume.
#[derive(Debug, Clone, Copy, PartialEq, Eq, Structural)]
pub enum BitLockerState {
    /// Safe to modify.
    Unprotected,
    /// Needs unlock.
    Locked,
    /// Needs suspend.
    Protected,
}

/// Control state of a running workflow.
#[derive(Debug, Clone, Copy, PartialEq, Eq, Structural)]
pub enum WorkflowState {
    Running,
    Paused,
    Cancelled,
}

/// Storage medium of a disk.
#[derive(Debug, Clone, Copy, PartialEq, Eq, Structural)]
pub enum DiskType {
    NVME,
    SSD,
    HDD,
    USB,
    Unknown,
}

/// A physical disk as listed to the user.
#[derive(Debug, Clone)]
pub struct Disk {
    pub stable_id: String,
    pub name: String,
    pub total_gb: u32,
    pub free_gb: u32,
    pub is_system_drive: bool,
    pub is_gpt: bool,
}

/// A partition of a disk as listed to the user.
#[derive(Debug, Clone)]
pub struct Partition {
    pub id: String,
    pub drive_letter: Option<String>,
    pub size_gb: u32,
    pub file_system: String,
    pub label: String,
    pub offset_bytes: u64,
    pub size_bytes: u64,
    pub free_bytes: u64,
    pub bitlocker_state: BitLockerState,
}

/// Where the live boot partition can go, and how much room is left for Linux.
#[derive(Debug, Clone, Copy, PartialEq, Eq, Structural)]
pub struct InstallPlan {
    pub has_boot_space: bool,
    pub has_requested_linux_space: bool,
    pub boot_partition_offset_bytes: u64,
    pub linux_space_bytes: u64,
}

/// The distribution facts shown to the user interface.
#[derive(Debug, Clone)]
pub struct PublicConfig {
    pub available: bool,
    pub version: String,
    pub secure_boot: bool,
}

/// One distribution of the remote catalogue.
#[derive(Debug, Clone)]
pub struct DistroSpec {
    pub version: String,
    pub secure_boot: bool,
    pub mirrors: Vec<String>,
    pub checksum: String,
}


/// The mathematical content of a `Disk`.
pub ghost struct DiskView {
    pub stable_id: Seq<char>,
    pub name: Seq<char>,
    pub total_gb: u32,
    pub free_gb: u32,
    pub is_system_drive: bool,
    pub is_gpt: bool,
}

impl View for Disk {
    type V = DiskView;

    open spec fn view(&self) -> DiskView {
        DiskView {
            stable_id: self.stable_id@,
            name: self.name@,
            total_gb: self.total_gb,
            free_gb: self.free_gb,
            is_system_drive: self.is_system_drive,
            is_gpt: self.is_gpt,
        }
    }
}

/// The view of an optional string.
pub open spec fn opt_string_view(s: Option<String>) -> Option<Seq<char>> {
    match s {
        Some(x) => Some(x@),
        None => None,
    }
}

/// The mathematical content of a `Partition`.
pub ghost struct PartitionView {
    pub id: Seq<char>,
    pub drive_letter: Option<Seq<char>>,
    pub size_gb: u32,
    pub file_system: Seq<char>,
    pub label: Seq<char>,
    pub offset_bytes: u64,
    pub size_bytes: u64,
    pub free_bytes: u64,
    pub bitlocker_state: BitLockerState,
}

impl View for Partition {
    type V = PartitionView;

    open spec fn view(&self) -> PartitionView {
        PartitionView {
            id: self.id@,
            drive_letter: opt_string_view(self.drive_letter),
            size_gb: self.size_gb,
            file_system: self.file_system@,
            label: self.label@,
            offset_bytes: self.offset_bytes,
            size_bytes: self.size_bytes,
            free_bytes: self.free_bytes,
            bitlocker_state: self.bitlocker_state,
        }
    }
}

/// The views of a list of disks.
pub open spec fn disk_views(s: Seq<Disk>) -> Seq<DiskView> {
    s.map_values(|d: Disk| d@)
}

/// The views of a list of partitions.
pub open spec fn partition_views(s: Seq<Partition>) -> Seq<PartitionView> {
    s.map_values(|p: Partition| p@)
}

/// A copy of an optional string.
pub fn copy_opt_string(s: &Option<String>) -> (r: Option<String>)
    ensures
        r == *s,
{
    match s {
        Some(v) => Some(v.clone()),
        None => None,
    }
}


impl Partition {
    /// A copy of this record.
    pub fn duplicate(&self) -> (r: Partition)
        ensures
            r@ == self@,
    {
        Partition {
            id: self.id.clone(),
            drive_letter: copy_opt_string(&self.drive_letter),
            size_gb: self.size_gb,
            file_system: self.file_system.clone(),
            label: self.label.clone(),
            offset_bytes: self.offset_bytes,
            size_bytes: self.size_bytes,
            free_bytes: self.free_bytes,
            bitlocker_state: self.bitlocker_state,
        }
    }
}

impl Disk {
    /// A copy of this record.
    pub fn duplicate(&self) -> (r: Disk)
        ensures
            r@ == self@,
    {
        Disk {
            stable_id: self.stable_id.clone(),
            name: self.name.clone(),
            total_gb: self.total_gb,
            free_gb: self.free_gb,
            is_system_drive: self.is_system_drive,
            is_gpt: self.is_gpt,
        }
    }
}

/// `std::io::Error`'s `Display` text. Nothing is claimed of it: the text
/// comes from the operating system and its language settings.
#[verifier::external_body]
fn io_error_text(e: &std::io::Error) -> (r: String) {
    e.to_string()
}

/// The text of an error, where it does not depend on the operating system:
/// `Some(text)` for every variant but `OsError`.
pub open spec fn error_text(e: DiskError) -> Option<Seq<char>> {
    match e {
        DiskError::DriveEncrypted(d) => Some("Drive "@ + d@ + " is locked by BitLocker or LUKS"@),
        DiskError::InsufficientSpace { required, available } => Some(
            "Insufficient space: need "@ + decimal(required as nat) + "GB, has "@ + decimal(available as nat) + "GB"@,
        ),
        DiskError::PermissionDenied => Some("OS Permission denied. Are we running as Admin/Root?"@),
        DiskError::DiskNotFound(d) => Some("Disk "@ + d@ + " was not found"@),
        DiskError::OsError(_) => None,
        DiskError::PartitionNotFound(p, d) => Some("Partition "@ + p@ + " was not found on disk "@ + d@),
        DiskError::DataValidation(m) => Some(m@),
        DiskError::WmiError(m) => Some(m@),
    }
}

/// Whether `m` is the message of `e`: its fixed text, or for an operating
/// system error a message that begins with `Underlying OS error: `.
pub open spec fn is_error_message(e: DiskError, m: Seq<char>) -> bool {
    match error_text(e) {
        Some(t) => m == t,
        None => spec_starts_with(m, "Underlying OS error: "@),
    }
}

impl DiskError {
    /// The error's message, as shown to the user.
    pub fn message(&self) -> (r: String)
        ensures
            is_error_message(*self, r@),
    {
        match self {
            DiskError::DriveEncrypted(d) => {
                let mut out = String::from_str("Drive ");
                push_str(&mut out, d.as_str());
                push_str(&mut out, " is locked by BitLocker or LUKS");
                out
            },
            DiskError::InsufficientSpace { required, available } => {
                let mut out = String::from_str("Insufficient space: need ");
                let r = decimal_string(*required as u64);
                push_str(&mut out, r.as_str());
                push_str(&mut out, "GB, has ");
                let a = decimal_string(*available as u64);
                push_str(&mut out, a.as_str());
                push_str(&mut out, "GB");
                out
            },
            DiskError::PermissionDenied => String::from_str("OS Permission denied. Are we running as Admin/Root?"),
            DiskError::DiskNotFound(d) => {
                let mut out = String::from_str("Disk ");
                push_str(&mut out, d.as_str());
                push_str(&mut out, " was not found");
                out
            },
            DiskError::OsError(e) => {
                let mut out = String::from_str("Underlying OS error: ");
                let t = io_error_text(e);
                push_str(&mut out, t.as_str());
                proof {
                    reveal_strlit("Underlying OS error: ");
                    assert(out@.subrange(0, 21) =~= "Underlying OS error: "@);
                }
                out
            },
            DiskError::PartitionNotFound(p, d) => {
                let mut out = String::from_str("Partition ");
                push_str(&mut out, p.as_str());
                push_str(&mut out, " was not found on disk ");
                push_str(&mut out, d.as_str());
                out
            },
            DiskError::DataValidation(m) => String::from_str(m.as_str()),
            DiskError::WmiError(m) => String::from_str(m.as_str()),
        }
    }
}

} // verus!
