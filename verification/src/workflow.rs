//! The long-running workflows: their kinds, the guard that reports their
//! start and end, and the decisions of the shrink-and-install and uninstall
//! workflows between their disk operations.
use vstd::prelude::*;
use crate::events::IPCEvent;
use crate::models::{is_error_message, BitLockerState, DiskError, Partition};
use crate::text::{chars_of, ends_with_chars, parse_unsigned, spec_ends_with, spec_parse_unsigned, string_from_chars, trim_end_char, trim_end_char_chars, same_text, decimal, decimal_string, push_str};

verus! {

/// The kinds of workflow the daemon runs.
#[derive(Debug, Clone, Copy, PartialEq, Eq, Structural)]
pub enum WorkflowType {
    ShrinkAndInstall,
    DownloadIso,
    WipeDisk,
    Uninstall,
}

/// The message reported when a workflow ends without reporting its end.
pub open spec fn terminated_message() -> Seq<char> {
    "Workflow was unexpectedly terminated or panicked."@
}

/// Reports the start of a workflow and, exactly once, its end: through
/// `finish`, or through `drop_event` when the guard is dropped unfinished.
pub struct WorkflowGuard {
    is_completed: bool,
}

impl WorkflowGuard {
    /// Whether the end was reported.
    pub closed spec fn completed(&self) -> bool {
        self.is_completed
    }

    /// Opens a guard for a workflow of kind `workflow`, with the start event
    /// to report.
    pub fn start(workflow: WorkflowType) -> (r: (WorkflowGuard, IPCEvent))
        ensures
            !r.0.completed(),
            r.1 == (IPCEvent::WorkflowStarted { workflow_type: workflow }),
    {
        (WorkflowGuard { is_completed: false }, IPCEvent::WorkflowStarted { workflow_type: workflow })
    }

    /// Closes the guard, with the end event to report.
    pub fn finish(self, success: bool, message: Option<String>) -> (r: IPCEvent)
        ensures
            r == (IPCEvent::WorkflowEnded { success, message }),
    {
        IPCEvent::WorkflowEnded { success, message }
    }

    /// The event reported when the guard is dropped: a failed end for an
    /// unfinished workflow, nothing for a finished one.
    pub fn drop_event(&self) -> (r: Option<IPCEvent>)
        ensures
            self.completed() ==> r is None,
            !self.completed() ==> (r matches Some(IPCEvent::WorkflowEnded { success, message })
                && !success && opt_text(message) == Some(terminated_message())),
    {
        if self.is_completed {
            None
        } else {
            Some(IPCEvent::WorkflowEnded {
                success: false,
                message: Some(String::from_str("Workflow was unexpectedly terminated or panicked.")),
            })
        }
    }
}

/// The view of an optional string.
pub open spec fn opt_text(s: Option<String>) -> Option<Seq<char>> {
    match s {
        Some(t) => Some(t@),
        None => None,
    }
}

/// A workflow that can be run by `WorkflowRunner`.
pub trait ExecutableWorkflow {
    /// The kind reported at its start.
    fn workflow_type(&self) -> WorkflowType;
}

/// Runs a workflow between a start and an end report.
pub struct WorkflowRunner;

/// Whether `e` is the end event of a run whose result was `result`: the
/// success flag is whether it succeeded, and a failure carries the error's
/// message.
pub open spec fn ends_run(e: IPCEvent, result: Result<(), DiskError>) -> bool {
    e matches IPCEvent::WorkflowEnded { success, message } && success == (result is Ok) && match result {
        Ok(_) => message is None,
        Err(err) => message matches Some(m) && is_error_message(err, m@),
    }
}

impl WorkflowRunner {
    /// Starts a run of a workflow of kind `workflow_type` (the kind its
    /// `ExecutableWorkflow::workflow_type` gives): its guard and the start
    /// event.
    pub fn begin(workflow_type: WorkflowType) -> (r: (WorkflowGuard, IPCEvent))
        ensures
            !r.0.completed(),
            r.1 == (IPCEvent::WorkflowStarted { workflow_type }),
    {
        WorkflowGuard::start(workflow_type)
    }

    /// Ends a run with the result its workflow returned: the result, handed
    /// back, and the end event.
    pub fn conclude(guard: WorkflowGuard, result: Result<(), DiskError>) -> (r: (Result<(), DiskError>, IPCEvent))
        ensures
            r.0 == result,
            ends_run(r.1, result),
    {
        let message = match &result {
            Ok(_) => None,
            Err(err) => Some(err.message()),
        };
        let e = guard.finish(result.is_ok(), message);
        (result, e)
    }
}

/// Installs the live system beside Windows from a local ISO image (or a
/// drive where one is already mounted).
pub struct ShrinkInstallWorkflow {
    pub disk_id: String,
    pub partition_id: String,
    pub iso_path: String,
}

/// Removes the live system and its boot entries from a disk.
pub struct UninstallWorkflow {
    pub disk_id: String,
}

impl ExecutableWorkflow for ShrinkInstallWorkflow {
    fn workflow_type(&self) -> (r: WorkflowType)
        ensures
            r == WorkflowType::ShrinkAndInstall,
    {
        WorkflowType::ShrinkAndInstall
    }
}

impl ExecutableWorkflow for UninstallWorkflow {
    fn workflow_type(&self) -> (r: WorkflowType)
        ensures
            r == WorkflowType::Uninstall,
    {
        WorkflowType::Uninstall
    }
}

/// One mebibyte.
pub const MB_BYTES: u64 = 1048576;

/// The room kept free beside the payload: 512 MiB.
pub const PAYLOAD_BUFFER_BYTES: u64 = 536870912;

/// The number of bytes that encode `c` in UTF-8.
pub open spec fn utf8_width(c: char) -> nat {
    let u = c as u32;
    if u < 0x80 {
        1
    } else if u < 0x800 {
        2
    } else if u < 0x10000 {
        3
    } else {
        4
    }
}

/// The length of `s` in UTF-8 bytes.
pub open spec fn utf8_len(s: Seq<char>) -> nat
    decreases s.len(),
{
    if s.len() == 0 {
        0
    } else {
        utf8_len(s.drop_last()) + utf8_width(s.last())
    }
}

/// A prefix is no longer than the whole.
pub proof fn lemma_utf8_len_prefix(s: Seq<char>, i: int)
    requires
        0 <= i <= s.len(),
    ensures
        utf8_len(s.take(i)) <= utf8_len(s),
    decreases s.len(),
{
    if i < s.len() {
        assert(s.drop_last().take(i) =~= s.take(i));
        lemma_utf8_len_prefix(s.drop_last(), i);
    } else {
        assert(s.take(i) =~= s);
    }
}

/// Whether `s` takes at most three bytes in UTF-8.
fn fits_three_bytes(cs: &Vec<char>) -> (r: bool)
    ensures
        r == (utf8_len(cs@) <= 3),
{
    let mut count: u64 = 0;
    let mut i: usize = 0;
    assert(cs@.take(0) =~= Seq::<char>::empty());
    while i < cs.len()
        invariant
            i <= cs@.len(),
            count == utf8_len(cs@.take(i as int)),
            count <= 3,
        decreases cs.len() - i,
    {
        let u = cs[i] as u32;
        let w: u64 = if u < 0x80 { 1 } else if u < 0x800 { 2 } else if u < 0x10000 { 3 } else { 4 };
        assert(cs@.take(i + 1).drop_last() =~= cs@.take(i as int));
        count = count + w;
        i = i + 1;
        if count > 3 {
            proof {
                lemma_utf8_len_prefix(cs@, i as int);
            }
            return false;
        }
    }
    assert(cs@.take(i as int) =~= cs@);
    true
}

/// Whether an ISO path names a drive where the image is already mounted:
/// at most three bytes, ending in `:` or `:\`.
pub open spec fn names_mounted_drive(path: Seq<char>) -> bool {
    utf8_len(path) <= 3 && (spec_ends_with(path, ":"@) || spec_ends_with(path, ":\\"@))
}

impl ShrinkInstallWorkflow {
    /// Whether the ISO path is a drive already mounted rather than an image
    /// to mount.
    pub fn is_pre_mounted(&self) -> (r: bool)
        ensures
            r == names_mounted_drive(self.iso_path@),
    {
        let cs = chars_of(self.iso_path.as_str());
        let colon = chars_of(":");
        let colon_slash = chars_of(":\\");
        fits_three_bytes(&cs) && (ends_with_chars(&cs, &colon) || ends_with_chars(&cs, &colon_slash))
    }

    /// The drive letter of a pre-mounted ISO path: the path without its
    /// trailing backslashes.
    pub fn mounted_drive_letter(&self) -> (r: String)
        ensures
            r@ == trim_end_char(self.iso_path@, '\\'),
    {
        let cs = chars_of(self.iso_path.as_str());
        let t = trim_end_char_chars(&cs, '\\');
        string_from_chars(&t)
    }

    /// The space to free for a payload of `payload_size_bytes` (the payload
    /// and a 512 MiB buffer) and the boot partition's size in MiB; an empty
    /// or unreadable payload is refused.
    pub fn calculate_requirements(payload_size_bytes: u64) -> (r: Result<(u64, u32), DiskError>)
        requires
            payload_size_bytes + PAYLOAD_BUFFER_BYTES <= u64::MAX,
        ensures
            payload_size_bytes == 0 <==> r is Err,
            r matches Err(e) ==> e matches DiskError::DataValidation(m)
                && m@ == "Failed to read ISO contents or ISO is empty."@,
            r matches Ok((required, boot_mb)) ==> required == payload_size_bytes + PAYLOAD_BUFFER_BYTES
                && boot_mb == ((required / MB_BYTES) as u32),
    {
        if payload_size_bytes == 0 {
            return Err(DiskError::DataValidation(String::from_str("Failed to read ISO contents or ISO is empty.")));
        }
        let required = payload_size_bytes + PAYLOAD_BUFFER_BYTES;
        let boot_mb = (required / MB_BYTES) as u32;
        Ok((required, boot_mb))
    }

    /// The index of the partition to shrink among the disk's partitions.
    pub fn find_target(&self, partitions: &Vec<Partition>) -> (r: Result<usize, DiskError>)
        ensures
            r matches Ok(i) ==> i < partitions.len() && partitions@[i as int].id@ == self.partition_id@
                && forall|j: int| 0 <= j < i ==> partitions@[j].id@ != self.partition_id@,
            r matches Err(e) ==> (forall|j: int| 0 <= j < partitions.len() ==> partitions@[j].id@ != self.partition_id@)
                && (e matches DiskError::PartitionNotFound(p, d) && p@ == self.partition_id@ && d@ == self.disk_id@),
    {
        let mut i: usize = 0;
        while i < partitions.len()
            invariant
                i <= partitions.len(),
                forall|j: int| 0 <= j < i ==> partitions@[j].id@ != self.partition_id@,
            decreases partitions.len() - i,
        {
            if same_text(partitions[i].id.as_str(), self.partition_id.as_str()) {
                return Ok(i);
            }
            i = i + 1;
        }
        Err(DiskError::PartitionNotFound(self.partition_id.clone(), self.disk_id.clone()))
    }

    /// The first pre-flight check: the partition must be larger than the
    /// space to free (sizes reported in MiB).
    pub fn check_space(target: &Partition, required_bytes: u64) -> (r: Result<(), DiskError>)
        ensures
            target.size_bytes > required_bytes <==> r is Ok,
            r matches Err(e) ==> (e matches DiskError::InsufficientSpace { required, available }
                && required == ((required_bytes / MB_BYTES) as u32)
                && available == ((target.size_bytes / MB_BYTES) as u32)),
    {
        if target.size_bytes <= required_bytes {
            return Err(DiskError::InsufficientSpace {
                required: (required_bytes / MB_BYTES) as u32,
                available: (target.size_bytes / MB_BYTES) as u32,
            });
        }
        Ok(())
    }

    /// The second pre-flight check: BitLocker must not protect the volume
    /// (its state as just read).
    pub fn check_unprotected(state: BitLockerState) -> (r: Result<(), DiskError>)
        ensures
            state == BitLockerState::Unprotected <==> r is Ok,
            r matches Err(e) ==> (e matches DiskError::DriveEncrypted(m)
                && m@ == "BitLocker must be disabled or suspended before starting the installation."@),
    {
        if state != BitLockerState::Unprotected {
            return Err(DiskError::DriveEncrypted(String::from_str(
                "BitLocker must be disabled or suspended before starting the installation.",
            )));
        }
        Ok(())
    }

    /// The drive the repair and shrink queries run on: the partition's
    /// letter, or `C:`.
    pub fn target_letter(target: &Partition) -> (r: String)
        ensures
            r@ == match target.drive_letter {
                Some(l) => l@,
                None => "C:"@,
            },
    {
        match &target.drive_letter {
            Some(l) => l.clone(),
            None => String::from_str("C:"),
        }
    }

    /// Refuses a shrink below the smallest size Windows allows.
    pub fn check_shrink_floor(target_size_bytes: u64, min_size_bytes: u64) -> (r: Result<(), DiskError>)
        ensures
            target_size_bytes >= min_size_bytes <==> r is Ok,
            r matches Err(e) ==> e matches DiskError::DataValidation(m) && m@
                == "Windows refuses to shrink the volume this much due to unmoveable system files. The smallest possible size is "@
                + decimal((min_size_bytes / MB_BYTES) as nat) + "MB"@,
    {
        if target_size_bytes < min_size_bytes {
            let mut m = String::from_str(
                "Windows refuses to shrink the volume this much due to unmoveable system files. The smallest possible size is ",
            );
            let n = decimal_string(min_size_bytes / MB_BYTES);
            push_str(&mut m, n.as_str());
            push_str(&mut m, "MB");
            return Err(DiskError::DataValidation(m));
        }
        Ok(())
    }

    /// The disk number of the workflow's disk identifier.
    pub fn disk_number(&self) -> (r: Result<u32, DiskError>)
        ensures
            match spec_parse_unsigned(self.disk_id@, u32::MAX as nat) {
                Some(n) => r == Ok::<u32, DiskError>(n as u32),
                None => r matches Err(DiskError::DataValidation(m)) && m@ == "Invalid Disk ID parameter"@,
            },
    {
        let cs = chars_of(self.disk_id.as_str());
        assert(cs@.subrange(0, cs@.len() as int) =~= cs@);
        match parse_unsigned(&cs, 0, cs.len(), u32::MAX as u64) {
            Some(n) => Ok(n as u32),
            None => Err(DiskError::DataValidation(String::from_str("Invalid Disk ID parameter"))),
        }
    }

    /// The payload partition's size: on UEFI hosts 50 MiB of the boot room
    /// go to the EFI driver partition.
    pub fn payload_size_mb(boot_size_mb: u32, is_uefi: bool) -> (r: u32)
        ensures
            r == (if is_uefi { if boot_size_mb >= 50 { (boot_size_mb - 50) as u32 } else { 0 } } else { boot_size_mb }),
    {
        if is_uefi {
            boot_size_mb.saturating_sub(50)
        } else {
            boot_size_mb
        }
    }

    /// The drive the boot entry is written for: the new EFI partition on
    /// UEFI hosts (which must have a letter), else the Windows partition's
    /// letter or `C:`.
    pub fn boot_target_drive(is_uefi: bool, efi_letter: &Option<String>, target: &Partition) -> (r: Result<String, DiskError>)
        ensures
            is_uefi ==> match efi_letter {
                Some(l) => r matches Ok(d) && d@ == l@,
                None => r matches Err(DiskError::DataValidation(m)) && m@ == "Missing FAT32 EFI partition letter"@,
            },
            !is_uefi ==> (r matches Ok(d) && d@ == match target.drive_letter {
                Some(l) => l@,
                None => "C:"@,
            }),
    {
        if is_uefi {
            match efi_letter {
                Some(l) => Ok(l.clone()),
                None => Err(DiskError::DataValidation(String::from_str("Missing FAT32 EFI partition letter"))),
            }
        } else {
            Ok(Self::target_letter(target))
        }
    }
}

/// The ISO image is not bootable.
pub open spec fn not_bootable_message() -> Seq<char> {
    "ISO is not bootable or missing EFI/boot configuration."@
}

/// The error for an image that failed the bootability check.
pub fn not_bootable_error() -> (r: DiskError)
    ensures
        r matches DiskError::DataValidation(m) && m@ == not_bootable_message(),
{
    DiskError::DataValidation(String::from_str("ISO is not bootable or missing EFI/boot configuration."))
}

} // verus!
