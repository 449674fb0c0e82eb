//! Copying the live payload: the `robocopy` and `attrib` invocations, the
//! reading of `robocopy`'s exit code, and the size counted for progress.
use vstd::prelude::*;
use crate::boot::{drive_root, drive_root_text};
use crate::models::{DiskError, DiskType};
use crate::text::{decimal, push_str};

verus! {

/// Copies the payload of a mounted image to the live partition.
pub struct PayloadManager;

/// The views of a list of strings.
pub open spec fn string_list(s: Seq<String>) -> Seq<Seq<char>> {
    s.map_values(|x: String| x@)
}

/// The threading flag: one thread on a spinning disk, eight otherwise.
pub open spec fn thread_flag(disk_type: DiskType) -> Seq<char> {
    if disk_type == DiskType::HDD {
        "/MT:1"@
    } else {
        "/MT:8"@
    }
}

/// Files above this size (50 MiB) have their valid data length probed.
pub const VDL_PROBE_THRESHOLD: u64 = 52428800;

/// The size of the header of a region query's output.
pub const REGION_OUTPUT_BYTES: u32 = 16;

/// The size of one region entry of a region query's output.
pub const REGION_INFO_BYTES: u32 = 24;

/// The sum of the first `n` lengths, each taken as unsigned.
pub open spec fn sum_lengths(lengths: Seq<i64>, n: int) -> int
    decreases n,
{
    if n <= 0 {
        0
    } else {
        sum_lengths(lengths, n - 1) + (lengths[n - 1] as u64)
    }
}

/// The entries of a region query's output that may be read: as many as it
/// reports, but no more than the returned bytes hold (and no more than
/// were parsed).
pub open spec fn readable_entries(bytes_returned: u32, entry_count: u32, parsed: nat) -> int {
    let room = (bytes_returned - REGION_OUTPUT_BYTES) / (REGION_INFO_BYTES as int);
    let n = if (entry_count as int) < room { entry_count as int } else { room };
    if n < parsed { n } else { parsed as int }
}

impl PayloadManager {
    /// The `robocopy` arguments that copy drive `source` to drive `target`:
    /// subdirectories included, three retries two seconds apart, no
    /// progress or listings, threads by disk type.
    pub fn robocopy_args(source_drive_letter: &str, target_drive_letter: &str, disk_type: DiskType) -> (r: Vec<String>)
        ensures
            string_list(r@) == seq![
                drive_root_text(source_drive_letter@),
                drive_root_text(target_drive_letter@),
                "/E"@,
                "/R:3"@,
                "/W:2"@,
                "/NP"@,
                "/NFL"@,
                "/NDL"@,
                thread_flag(disk_type),
            ],
    {
        let mt = if disk_type == DiskType::HDD { "/MT:1" } else { "/MT:8" };
        let mut out: Vec<String> = Vec::new();
        out.push(drive_root(source_drive_letter));
        out.push(drive_root(target_drive_letter));
        out.push(String::from_str("/E"));
        out.push(String::from_str("/R:3"));
        out.push(String::from_str("/W:2"));
        out.push(String::from_str("/NP"));
        out.push(String::from_str("/NFL"));
        out.push(String::from_str("/NDL"));
        out.push(String::from_str(mt));
        assert(string_list(out@) =~= seq![
            drive_root_text(source_drive_letter@),
            drive_root_text(target_drive_letter@),
            "/E"@,
            "/R:3"@,
            "/W:2"@,
            "/NP"@,
            "/NFL"@,
            "/NDL"@,
            thread_flag(disk_type),
        ]);
        out
    }

    /// Refuses an empty payload.
    pub fn check_payload_size(total_bytes: u64) -> (r: Result<(), DiskError>)
        ensures
            r is Ok <==> total_bytes > 0,
            r matches Err(e) ==> e matches DiskError::DataValidation(m) && m@ == "Source ISO appears to be empty!"@,
    {
        if total_bytes == 0 {
            return Err(DiskError::DataValidation(String::from_str("Source ISO appears to be empty!")));
        }
        Ok(())
    }

    /// Whether `robocopy` failed: exit codes from 8 up are failures (0 to
    /// 7 report kinds of success); a process without exit code counts as -1.
    pub fn robocopy_failed(exit_code: Option<i32>) -> (r: bool)
        ensures
            r == (match exit_code {
                Some(c) => c,
                None => -1i32,
            } >= 8),
    {
        let code = match exit_code {
            Some(c) => c,
            None => -1,
        };
        code >= 8
    }

    /// The message of a failed copy.
    pub fn robocopy_failure_message(exit_code: i32) -> (r: String)
        requires
            exit_code >= 8,
        ensures
            r@ == "Robocopy failed with code "@ + decimal(exit_code as nat) + "."@,
    {
        let mut m = String::from_str("Robocopy failed with code ");
        let n = crate::text::decimal_string(exit_code as u64);
        push_str(&mut m, n.as_str());
        push_str(&mut m, ".");
        m
    }

    /// The `attrib` arguments that clear the read-only flag of everything
    /// under `target_path`.
    pub fn attrib_args(target_path: &str) -> (r: Vec<String>)
        ensures
            string_list(r@) == seq!["-R"@, target_path@ + "*"@, "/S"@, "/D"@],
    {
        let mut glob = String::from_str(target_path);
        push_str(&mut glob, "*");
        let mut out: Vec<String> = Vec::new();
        out.push(String::from_str("-R"));
        out.push(glob);
        out.push(String::from_str("/S"));
        out.push(String::from_str("/D"));
        assert(string_list(out@) =~= seq!["-R"@, target_path@ + "*"@, "/S"@, "/D"@]);
        out
    }

    /// The size counted for one file of `eof_size` bytes, and whether its
    /// valid data length was wanted but could not be read: large files count
    /// their valid data length (`vdl`, when the probe gave one), others their
    /// size.
    pub fn counted_file_size(eof_size: u64, vdl: Option<u64>) -> (r: (u64, bool))
        ensures
            eof_size <= VDL_PROBE_THRESHOLD ==> r == (eof_size, false),
            eof_size > VDL_PROBE_THRESHOLD ==> r == match vdl {
                Some(v) => (v, false),
                None => (eof_size, true),
            },
    {
        if eof_size > VDL_PROBE_THRESHOLD {
            match vdl {
                Some(v) => (v, false),
                None => (eof_size, true),
            }
        } else {
            (eof_size, false)
        }
    }

    /// The valid data length a region query reports: the lengths of the
    /// entries it returned, summed; `None` when it returned less than its
    /// header.
    pub fn valid_data_length(bytes_returned: u32, region_entry_count: u32, lengths: &Vec<i64>) -> (r: Option<u64>)
        requires
            bytes_returned >= REGION_OUTPUT_BYTES ==> sum_lengths(
                lengths@,
                readable_entries(bytes_returned, region_entry_count, lengths@.len()),
            ) <= u64::MAX,
        ensures
            bytes_returned < REGION_OUTPUT_BYTES ==> r is None,
            bytes_returned >= REGION_OUTPUT_BYTES ==> r == Some(
                sum_lengths(lengths@, readable_entries(bytes_returned, region_entry_count, lengths@.len())) as u64,
            ),
    {
        if bytes_returned < REGION_OUTPUT_BYTES {
            return None;
        }
        let room = (bytes_returned - REGION_OUTPUT_BYTES) / REGION_INFO_BYTES;
        let mut n: usize = if region_entry_count < room { region_entry_count as usize } else { room as usize };
        if lengths.len() < n {
            n = lengths.len();
        }
        assert(n as int == readable_entries(bytes_returned, region_entry_count, lengths@.len()));
        let ghost total = sum_lengths(lengths@, n as int);
        let mut sum: u64 = 0;
        let mut i: usize = 0;
        while i < n
            invariant
                n <= lengths@.len(),
                i <= n,
                total == sum_lengths(lengths@, n as int),
                total <= u64::MAX,
                sum == sum_lengths(lengths@, i as int),
            decreases n - i,
        {
            proof {
                lemma_sum_lengths_grows(lengths@, i as int + 1, n as int);
            }
            sum = sum + lengths[i] as u64;
            i = i + 1;
        }
        Some(sum)
    }
}

/// A longer prefix sums to no less.
proof fn lemma_sum_lengths_grows(lengths: Seq<i64>, i: int, n: int)
    requires
        0 <= i <= n,
    ensures
        sum_lengths(lengths, i) <= sum_lengths(lengths, n),
    decreases n - i,
{
    if i < n {
        lemma_sum_lengths_grows(lengths, i, n - 1);
    }
}

} // verus!
