//! Downloading a distribution: the catalogue shown to the user, the file
//! name of an image, the bookkeeping of a resumable download, and the
//! checksum check at its end.
use vstd::prelude::*;
use crate::hashing::{sha256_digest, Sha256Stream};
use crate::models::{DiskError, DistroSpec, PublicConfig, WorkflowState};
use crate::text::{
    chars_of, decimal, decimal_string, ends_with_chars, eq_ignore_ascii_case_chars, push_str, same_text,
    spec_ends_with, spec_eq_ignore_ascii_case, string_from_range, trim_end_char,
};

verus! {

/// The lowercase hexadecimal digit of `n < 16`.
pub open spec fn hex_digit(n: u8) -> char {
    if n < 10 {
        (('0' as u8) + n) as char
    } else {
        (('a' as u8) + n - 10) as char
    }
}

/// `bytes` in lowercase hexadecimal, two digits per byte, high nibble first.
pub open spec fn hex_text(bytes: Seq<u8>) -> Seq<char>
    decreases bytes.len(),
{
    if bytes.len() == 0 {
        Seq::empty()
    } else {
        hex_text(bytes.drop_last()) + seq![hex_digit(bytes.last() / 16), hex_digit(bytes.last() % 16)]
    }
}

/// `const_hex::encode`, which its documentation describes as the bytes in
/// lowercase hexadecimal, each byte as two digits: that is what is claimed.
#[verifier::external_body]
fn hex_encode(bytes: &[u8]) -> (r: String)
    ensures
        r@ == hex_text(bytes@),
{
    const_hex::encode(bytes)
}

/// Whether a digest matches the expected checksum, compared in hexadecimal
/// without regard to ASCII case.
pub open spec fn checksum_matches(digest: Seq<u8>, expected: Seq<char>) -> bool {
    spec_eq_ignore_ascii_case(hex_text(digest), expected)
}

/// A digest in lowercase hexadecimal.
pub fn digest_hex(digest: &[u8]) -> (r: String)
    ensures
        r@ == hex_text(digest@),
{
    hex_encode(digest)
}

/// Whether `digest` is the one `expected` (hexadecimal, any case) names.
pub fn digest_matches(digest: &[u8], expected: &str) -> (r: bool)
    ensures
        r == checksum_matches(digest@, expected@),
{
    let h = hex_encode(digest);
    let a = chars_of(h.as_str());
    let b = chars_of(expected);
    eq_ignore_ascii_case_chars(&a, &b)
}

/// The last segment of a URL that is not empty (the text after the last
/// `/` once trailing slashes are dropped).
pub open spec fn last_segment(url: Seq<char>) -> Seq<char> {
    let t = trim_end_char(url, '/');
    match last_index_of_slash(t) {
        Some(i) => t.skip(i + 1),
        None => t,
    }
}

/// The index of the last `/` in `s`.
pub open spec fn last_index_of_slash(s: Seq<char>) -> Option<int>
    decreases s.len(),
{
    if s.len() == 0 {
        None
    } else if s.last() == '/' {
        Some(s.len() - 1)
    } else {
        last_index_of_slash(s.drop_last())
    }
}

/// The file an image is saved as: the mirror URL's last segment when it
/// names an `.iso`, else the distribution's identifier with `.iso`.
pub open spec fn image_file_name(mirror: Seq<char>, distro_id: Seq<char>) -> Seq<char> {
    if spec_ends_with(last_segment(mirror), ".iso"@) {
        last_segment(mirror)
    } else {
        distro_id + ".iso"@
    }
}

/// What a download does next under the workflow's control state.
#[derive(Debug, Clone, Copy, PartialEq, Eq, Structural)]
pub enum DownloadControl {
    /// Delete the partial file and fail.
    Abort,
    /// Wait for the state to change.
    Wait,
    /// Request the remaining bytes.
    Proceed,
}

/// The bytes of a download received so far, and the size it is to reach.
#[derive(Debug, Clone, Copy, PartialEq, Eq, Structural)]
pub struct DownloadProgress {
    pub downloaded: u64,
    pub total: u64,
}

/// The progress after a response: a server that ignored the range request
/// restarts the download from the first byte; otherwise a download whose
/// size was not known yet learns it from the response's length.
pub open spec fn after_response(p: DownloadProgress, partial_content: bool, content_length: Option<u64>) -> DownloadProgress {
    if p.downloaded > 0 && !partial_content {
        DownloadProgress { downloaded: 0, total: p.total }
    } else if p.total == p.downloaded {
        DownloadProgress {
            downloaded: p.downloaded,
            total: (p.downloaded + match content_length {
                Some(n) => n,
                None => 0,
            }) as u64,
        }
    } else {
        p
    }
}

impl DownloadProgress {
    /// The progress of a download that finds `existing_bytes` already on
    /// disk (all of which are to be hashed again before resuming).
    pub fn resume_from(existing_bytes: u64) -> (r: DownloadProgress)
        ensures
            r.downloaded == existing_bytes,
            r.total == existing_bytes,
    {
        DownloadProgress { downloaded: existing_bytes, total: existing_bytes }
    }

    /// The `Range` header of the next request, when bytes were received.
    pub fn range_header(&self) -> (r: Option<String>)
        ensures
            self.downloaded == 0 ==> r is None,
            self.downloaded > 0 ==> (r matches Some(h) && h@ == "bytes="@ + decimal(self.downloaded as nat) + "-"@),
    {
        if self.downloaded == 0 {
            return None;
        }
        let mut h = String::from_str("bytes=");
        let n = decimal_string(self.downloaded);
        push_str(&mut h, n.as_str());
        push_str(&mut h, "-");
        Some(h)
    }

    /// Takes in a successful response; returns whether the download starts
    /// over (the partial file and the hash are then discarded).
    pub fn on_response(&mut self, partial_content: bool, content_length: Option<u64>) -> (restart: bool)
        requires
            content_length matches Some(n) ==> old(self).downloaded + n <= u64::MAX,
        ensures
            *final(self) == after_response(*old(self), partial_content, content_length),
            restart == (old(self).downloaded > 0 && !partial_content),
    {
        if self.downloaded > 0 && !partial_content {
            self.downloaded = 0;
            return true;
        }
        if self.total == self.downloaded {
            let n = match content_length {
                Some(n) => n,
                None => 0,
            };
            self.total = self.downloaded + n;
        }
        false
    }

    /// Counts a received chunk of `len` bytes.
    pub fn on_chunk(&mut self, len: u64)
        requires
            old(self).downloaded + len <= u64::MAX,
        ensures
            final(self).downloaded == old(self).downloaded + len,
            final(self).total == old(self).total,
    {
        self.downloaded = self.downloaded + len;
    }

    /// Whether the download is done: still running and every byte received.
    pub fn is_complete(&self, state: WorkflowState) -> (r: bool)
        ensures
            r == (state == WorkflowState::Running && self.downloaded >= self.total),
    {
        state == WorkflowState::Running && self.downloaded >= self.total
    }
}

/// Fetches the distribution catalogue and the images it lists.
pub struct NetworkManager;

/// The catalogue entry shown for a distribution.
pub open spec fn is_public_of(p: PublicConfig, s: DistroSpec) -> bool {
    p.available && p.version@ == s.version@ && p.secure_boot == s.secure_boot
}

/// Whether no two catalogue entries share an identifier (as in the map the
/// catalogue is read from).
pub open spec fn distinct_ids(entries: Seq<(String, DistroSpec)>) -> bool {
    forall|i: int, j: int|
        0 <= i < j < entries.len() ==> (#[trigger] entries[i]).0@ != (#[trigger] entries[j]).0@
}

impl NetworkManager {
    /// The catalogue address tried first.
    pub fn primary_config_url() -> (r: &'static str)
        ensures
            r@ == "https://in-kraft.github.io/Isekai/assets/distros.json"@,
    {
        "https://in-kraft.github.io/Isekai/assets/distros.json"
    }

    /// The catalogue address tried when the first fails.
    pub fn fallback_config_url() -> (r: &'static str)
        ensures
            r@ == "https://raw.githubusercontent.com/iN-Kraft/Isekai/master/assets/distros.json"@,
    {
        "https://raw.githubusercontent.com/iN-Kraft/Isekai/master/assets/distros.json"
    }

    /// What the user interface is shown of a distribution: available, with
    /// its version and Secure Boot support.
    pub fn public_config_of(spec: &DistroSpec) -> (r: PublicConfig)
        ensures
            is_public_of(r, *spec),
    {
        PublicConfig { available: true, version: spec.version.clone(), secure_boot: spec.secure_boot }
    }

    /// The public view of every catalogue entry, keys kept, in order (so a
    /// catalogue with distinct identifiers gives distinct keys).
    pub fn public_entries(entries: &Vec<(String, DistroSpec)>) -> (r: Vec<(String, PublicConfig)>)
        ensures
            r@.len() == entries@.len(),
            forall|i: int| 0 <= i < entries@.len() ==> (#[trigger] r@[i]).0@ == entries@[i].0@ && is_public_of(
                r@[i].1,
                entries@[i].1,
            ),
            distinct_ids(entries@) ==> forall|i: int, j: int|
                0 <= i < j < r@.len() ==> (#[trigger] r@[i]).0@ != (#[trigger] r@[j]).0@,
    {
        let mut out: Vec<(String, PublicConfig)> = Vec::new();
        let mut i: usize = 0;
        while i < entries.len()
            invariant
                i <= entries@.len(),
                out@.len() == i,
                forall|j: int| 0 <= j < i ==> (#[trigger] out@[j]).0@ == entries@[j].0@ && is_public_of(
                    out@[j].1,
                    entries@[j].1,
                ),
            decreases entries.len() - i,
        {
            let (id, spec) = &entries[i];
            out.push((id.clone(), Self::public_config_of(spec)));
            i = i + 1;
        }
        out
    }

    /// The catalogue entry of `distro_id`: the first one with that
    /// identifier, which in a catalogue of distinct identifiers is the only
    /// one.
    pub fn find_distro(entries: &Vec<(String, DistroSpec)>, distro_id: &str) -> (r: Result<usize, DiskError>)
        ensures
            r matches Ok(i) ==> i < entries@.len() && entries@[i as int].0@ == distro_id@,
            r matches Ok(i) ==> forall|j: int| 0 <= j < i ==> entries@[j].0@ != distro_id@,
            r matches Ok(i) ==> (distinct_ids(entries@) ==> forall|j: int|
                0 <= j < entries@.len() && j != i ==> entries@[j].0@ != distro_id@),
            r is Err <==> forall|j: int| 0 <= j < entries@.len() ==> entries@[j].0@ != distro_id@,
            r matches Err(e) ==> e matches DiskError::DataValidation(m) && m@ == "Distribution '"@ + distro_id@
                + "' not found in remote config."@,
    {
        let mut i: usize = 0;
        while i < entries.len()
            invariant
                i <= entries@.len(),
                forall|j: int| 0 <= j < i ==> entries@[j].0@ != distro_id@,
            decreases entries.len() - i,
        {
            if same_text(entries[i].0.as_str(), distro_id) {
                return Ok(i);
            }
            i = i + 1;
        }
        let mut m = String::from_str("Distribution '");
        push_str(&mut m, distro_id);
        push_str(&mut m, "' not found in remote config.");
        Err(DiskError::DataValidation(m))
    }

    /// The name an image downloaded from `mirror` is saved under.
    pub fn download_file_name(mirror: &str, distro_id: &str) -> (r: String)
        ensures
            r@ == image_file_name(mirror@, distro_id@),
    {
        let cs = chars_of(mirror);
        let mut end: usize = cs.len();
        assert(cs@.take(cs@.len() as int) =~= cs@);
        while end > 0 && cs[end - 1] == '/'
            invariant
                end <= cs@.len(),
                trim_end_char(cs@, '/') == trim_end_char(cs@.take(end as int), '/'),
            decreases end,
        {
            assert(cs@.take(end as int).drop_last() =~= cs@.take(end - 1));
            end = end - 1;
        }
        let ghost t = cs@.take(end as int);
        assert(trim_end_char(cs@, '/') == t) by {
            assert(cs@.take(cs@.len() as int) =~= cs@);
            if end > 0 {
                assert(t.last() != '/');
            }
        }
        let mut start: usize = end;
        assert(t.take(end as int) =~= t);
        while start > 0 && cs[start - 1] != '/'
            invariant
                start <= end <= cs@.len(),
                t == cs@.take(end as int),
                last_index_of_slash(t) == last_index_of_slash(t.take(start as int)),
            decreases start,
        {
            assert(t.take(start as int).drop_last() =~= t.take(start - 1));
            start = start - 1;
        }
        proof {
            if start > 0 {
                assert(t.take(start as int).last() == '/');
                assert(last_index_of_slash(t) == Some(start - 1));
            } else {
                assert(t.take(0) =~= Seq::<char>::empty());
            }
        }
        let segment = string_from_range(&cs, start, end);
        assert(segment@ == last_segment(mirror@)) by {
            if start > 0 {
                assert(t.skip(start as int) =~= cs@.subrange(start as int, end as int));
            } else {
                assert(t =~= cs@.subrange(0, end as int));
            }
        }
        let seg_chars = chars_of(segment.as_str());
        let iso = chars_of(".iso");
        if ends_with_chars(&seg_chars, &iso) {
            segment
        } else {
            let mut out = String::from_str(distro_id);
            push_str(&mut out, ".iso");
            out
        }
    }

    /// The address, checksum and file name of a download from the mirror
    /// `mirror` of distribution `distro_id`.
    pub fn download_target(distro_id: &str, spec: &DistroSpec, mirror: &str) -> (r: (String, String, String))
        ensures
            r.0@ == mirror@,
            r.1@ == spec.checksum@,
            r.2@ == image_file_name(mirror@, distro_id@),
    {
        (String::from_str(mirror), spec.checksum.clone(), Self::download_file_name(mirror, distro_id))
    }

    /// The error when no mirror answers.
    pub fn all_mirrors_offline() -> (r: DiskError)
        ensures
            r matches DiskError::DataValidation(m) && m@ == "All download mirrors are currently offline."@,
    {
        DiskError::DataValidation(String::from_str("All download mirrors are currently offline."))
    }

    /// What a download does under the control state: a cancelled one
    /// aborts, a paused one waits, a running one goes on.
    pub fn control(state: WorkflowState) -> (r: DownloadControl)
        ensures
            r == match state {
                WorkflowState::Cancelled => DownloadControl::Abort,
                WorkflowState::Paused => DownloadControl::Wait,
                WorkflowState::Running => DownloadControl::Proceed,
            },
    {
        match state {
            WorkflowState::Cancelled => DownloadControl::Abort,
            WorkflowState::Paused => DownloadControl::Wait,
            WorkflowState::Running => DownloadControl::Proceed,
        }
    }

    /// The error of a cancelled download.
    pub fn cancelled_error() -> (r: DiskError)
        ensures
            r matches DiskError::DataValidation(m) && m@ == "Download Cancelled."@,
    {
        DiskError::DataValidation(String::from_str("Download Cancelled."))
    }

    /// The error of a response with a failure status (`status` as the HTTP
    /// library prints it).
    pub fn status_error(status: &str) -> (r: DiskError)
        ensures
            r matches DiskError::DataValidation(m) && m@ == "Server returned error status: "@ + status@,
    {
        let mut m = String::from_str("Server returned error status: ");
        push_str(&mut m, status);
        DiskError::DataValidation(m)
    }

    /// The end of a download, over the SHA-256 computation fed with the
    /// downloaded bytes: the digest in lowercase hexadecimal (for the log),
    /// and the verdict. The image is kept when its digest matches the
    /// catalogue's checksum (in hexadecimal, any case); otherwise it is
    /// refused as corrupted.
    pub fn verify_checksum(hasher: Sha256Stream, expected: &str) -> (r: (String, Result<(), DiskError>))
        ensures
            r.0@ == hex_text(sha256_digest(hasher.input())),
            r.1 is Ok <==> checksum_matches(sha256_digest(hasher.input()), expected@),
            r.1 matches Err(e) ==> e matches DiskError::DataValidation(m) && m@
                == "Checksum mismatch. File was corrupted during download."@,
    {
        let digest = hasher.finalize();
        let hex = digest_hex(digest.as_slice());
        if digest_matches(digest.as_slice(), expected) {
            (hex, Ok(()))
        } else {
            (hex, Err(DiskError::DataValidation(String::from_str("Checksum mismatch. File was corrupted during download."))))
        }
    }
}

/// A download whose bytes hash to exactly the catalogue's checksum is
/// accepted, and so is one whose checksum differs only in letter case.
pub proof fn lemma_matching_digest_accepted(data: Seq<u8>, expected: Seq<char>)
    requires
        spec_eq_ignore_ascii_case(hex_text(sha256_digest(data)), expected),
    ensures
        checksum_matches(sha256_digest(data), expected),
        checksum_matches(sha256_digest(data), hex_text(sha256_digest(data))),
{
}

} // verus!
