//! The DiskPart scripts the Windows workflows run.
use vstd::prelude::*;
use crate::text::{decimal, decimal_string, push_str};

verus! {

/// Appends the decimal rendering of `n`.
fn push_decimal(out: &mut String, n: u64)
    ensures
        final(out)@ == old(out)@ + decimal(n as nat),
{
    let d = decimal_string(n);
    push_str(out, d.as_str());
}

/// The script that erases a disk and gives it a fresh partition table.
pub open spec fn wipe_script_text(disk_id: u32, style: Seq<char>) -> Seq<char> {
    "select disk "@ + decimal(disk_id as nat) + "\nclean\nconvert "@ + style + "\nexit\n"@
}

/// The partition table style for the firmware: GPT under UEFI, MBR otherwise.
pub open spec fn partition_style(is_uefi: bool) -> Seq<char> {
    if is_uefi {
        "gpt"@
    } else {
        "mbr"@
    }
}

/// Erases disk `disk_id` and converts it to GPT (UEFI) or MBR (legacy BIOS).
pub fn wipe_script(disk_id: u32, is_uefi: bool) -> (r: String)
    ensures
        r@ == wipe_script_text(disk_id, partition_style(is_uefi)),
{
    let mut out = String::from_str("select disk ");
    push_decimal(&mut out, disk_id as u64);
    push_str(&mut out, "\nclean\nconvert ");
    if is_uefi {
        push_str(&mut out, "gpt");
    } else {
        push_str(&mut out, "mbr");
    }
    push_str(&mut out, "\nexit\n");
    out
}

/// The script that creates the live payload partition and, under UEFI, the
/// 50 MB EFI driver partition.
pub open spec fn live_partitions_script_text(disk_id: u32, payload_mb: u32, is_uefi: bool) -> Seq<char> {
    let head = "select disk "@ + decimal(disk_id as nat) + "\ncreate partition primary size="@ + decimal(payload_mb as nat)
        + "\nformat fs=fat32 quick label=\"LINUX_LIVE\"\nassign\n"@;
    if is_uefi {
        head + "create partition primary size=50\nformat fs=fat32 quick label=\"LINUX_EFI\"\nassign\nexit\n"@
    } else {
        head + "exit\n"@
    }
}

/// Creates the live boot partitions on disk `disk_id`.
pub fn live_partitions_script(disk_id: u32, payload_mb: u32, is_uefi: bool) -> (r: String)
    ensures
        r@ == live_partitions_script_text(disk_id, payload_mb, is_uefi),
{
    let mut out = String::from_str("select disk ");
    push_decimal(&mut out, disk_id as u64);
    push_str(&mut out, "\ncreate partition primary size=");
    push_decimal(&mut out, payload_mb as u64);
    push_str(&mut out, "\nformat fs=fat32 quick label=\"LINUX_LIVE\"\nassign\n");
    if is_uefi {
        push_str(&mut out, "create partition primary size=50\nformat fs=fat32 quick label=\"LINUX_EFI\"\nassign\nexit\n");
    } else {
        push_str(&mut out, "exit\n");
    }
    out
}

/// The script that removes the live volumes of a failed installation.
pub open spec fn rollback_script_text(disk_id: u32) -> Seq<char> {
    "select disk "@ + decimal(disk_id as nat)
        + "\nselect volume LINUX_LIVE\ndelete volume\nselect volume LINUX_EFI\ndelete volume\nexit\n"@
}

/// Removes the live volumes from disk `disk_id`.
pub fn rollback_script(disk_id: u32) -> (r: String)
    ensures
        r@ == rollback_script_text(disk_id),
{
    let mut out = String::from_str("select disk ");
    push_decimal(&mut out, disk_id as u64);
    push_str(&mut out, "\nselect volume LINUX_LIVE\ndelete volume\nselect volume LINUX_EFI\ndelete volume\nexit\n");
    out
}

/// The script that grows a partition into the free space after it.
pub open spec fn extend_script_text(disk_id: Seq<char>, partition_id: Seq<char>) -> Seq<char> {
    "select disk "@ + disk_id + "\nselect partition "@ + partition_id + "\nextend\nexit\n"@
}

/// Grows partition `partition_id` of disk `disk_id`.
pub fn extend_script(disk_id: &str, partition_id: &str) -> (r: String)
    ensures
        r@ == extend_script_text(disk_id@, partition_id@),
{
    let mut out = String::from_str("select disk ");
    push_str(&mut out, disk_id);
    push_str(&mut out, "\nselect partition ");
    push_str(&mut out, partition_id);
    push_str(&mut out, "\nextend\nexit\n");
    out
}

/// The script that shrinks a partition by `amount_mb` megabytes.
pub open spec fn shrink_script_text(disk_id: Seq<char>, partition_id: Seq<char>, amount_mb: u64) -> Seq<char> {
    "select disk "@ + disk_id + "\nselect partition "@ + partition_id + "\nshrink desired="@ + decimal(amount_mb as nat) + "\nexit\n"@
}

/// Shrinks partition `partition_id` of disk `disk_id` by `amount_mb` MB.
pub fn shrink_script(disk_id: &str, partition_id: &str, amount_mb: u64) -> (r: String)
    ensures
        r@ == shrink_script_text(disk_id@, partition_id@, amount_mb),
{
    let mut out = String::from_str("select disk ");
    push_str(&mut out, disk_id);
    push_str(&mut out, "\nselect partition ");
    push_str(&mut out, partition_id);
    push_str(&mut out, "\nshrink desired=");
    push_decimal(&mut out, amount_mb);
    push_str(&mut out, "\nexit\n");
    out
}

/// The script that deletes a partition, protected or not.
pub open spec fn delete_script_text(disk_id: Seq<char>, partition_id: Seq<char>) -> Seq<char> {
    "select disk "@ + disk_id + "\nselect partition "@ + partition_id + "\ndelete partition override\nexit\n"@
}

/// Deletes partition `partition_id` of disk `disk_id`.
pub fn delete_script(disk_id: &str, partition_id: &str) -> (r: String)
    ensures
        r@ == delete_script_text(disk_id@, partition_id@),
{
    let mut out = String::from_str("select disk ");
    push_str(&mut out, disk_id);
    push_str(&mut out, "\nselect partition ");
    push_str(&mut out, partition_id);
    push_str(&mut out, "\ndelete partition override\nexit\n");
    out
}

/// The name of the temporary script file for a run tagged `identifier`.
pub fn script_file_name(identifier: &str) -> (r: String)
    ensures
        r@ == "dp_"@ + identifier@ + ".txt"@,
{
    let mut out = String::from_str("dp_");
    push_str(&mut out, identifier);
    push_str(&mut out, ".txt");
    out
}

} // verus!
