//! ISO images: the PowerShell commands that mount and dismount them, the
//! reading of the mounted drive letter, the check that an image is
//! bootable, and the comparison of its checksum.
use vstd::prelude::*;
use crate::hashing::{sha256_digest, Sha256Stream};
use crate::network::{checksum_matches, digest_hex, digest_matches, hex_text};
use crate::text::{chars_of, push_str, string_from_chars, trim_chars, trim_ws};

verus! {

/// Mounts, checks and dismounts ISO images.
pub struct IsoManager;

/// The views of a list of strings.
pub open spec fn string_list(s: Seq<String>) -> Seq<Seq<char>> {
    s.map_values(|x: String| x@)
}

/// The views of a list of string slices.
pub open spec fn str_list(s: Seq<&str>) -> Seq<Seq<char>> {
    s.map_values(|x: &str| x@)
}

/// The script that mounts the image at `iso_path` and prints the letter of
/// its first volume.
pub open spec fn mount_script_text(iso_path: Seq<char>) -> Seq<char> {
    "$vol = (Mount-DiskImage -ImagePath '"@ + iso_path
        + "' -StorageType ISO -PassThru | Get-Volume -ErrorAction Stop | Select-Object -First 1); if ($vol) { Write-Output $vol.DriveLetter }"@
}

/// The script that dismounts the image at `iso_path`, quietly.
pub open spec fn dismount_script_text(iso_path: Seq<char>) -> Seq<char> {
    "Dismount-DiskImage -ImagePath '"@ + iso_path + "' -ErrorAction SilentlyContinue"@
}

/// The entries whose presence at an image's root marks it bootable.
pub open spec fn boot_indicators() -> Seq<Seq<char>> {
    seq!["isolinux"@, "boot"@, "EFI"@, "efi"@, "casper"@, "live"@, "squashfs"@]
}

/// A separator stripped from a drive letter: `\`, `/` or `:`.
pub open spec fn is_separator(c: char) -> bool {
    c == '\\' || c == '/' || c == ':'
}

/// `s` without its leading separators.
pub open spec fn trim_start_separators(s: Seq<char>) -> Seq<char>
    decreases s.len(),
{
    if s.len() > 0 && is_separator(s[0]) {
        trim_start_separators(s.drop_first())
    } else {
        s
    }
}

/// `s` without its trailing separators.
pub open spec fn trim_end_separators(s: Seq<char>) -> Seq<char>
    decreases s.len(),
{
    if s.len() > 0 && is_separator(s.last()) {
        trim_end_separators(s.drop_last())
    } else {
        s
    }
}

/// The root of the drive named by `letter` once separators are stripped
/// from both ends.
pub open spec fn iso_root_text(letter: Seq<char>) -> Seq<char> {
    trim_end_separators(trim_start_separators(letter)) + ":\\"@
}

impl IsoManager {
    /// The PowerShell arguments that run `script`.
    pub fn powershell_args(script: &str) -> (r: Vec<String>)
        ensures
            string_list(r@) == seq!["-NoProfile"@, "-NonInteractive"@, "-Command"@, script@],
    {
        let mut out: Vec<String> = Vec::new();
        out.push(String::from_str("-NoProfile"));
        out.push(String::from_str("-NonInteractive"));
        out.push(String::from_str("-Command"));
        out.push(String::from_str(script));
        assert(string_list(out@) =~= seq!["-NoProfile"@, "-NonInteractive"@, "-Command"@, script@]);
        out
    }

    /// The mount script for the image at `iso_path`.
    pub fn mount_script(iso_path: &str) -> (r: String)
        ensures
            r@ == mount_script_text(iso_path@),
    {
        let mut out = String::from_str("$vol = (Mount-DiskImage -ImagePath '");
        push_str(&mut out, iso_path);
        push_str(
            &mut out,
            "' -StorageType ISO -PassThru | Get-Volume -ErrorAction Stop | Select-Object -First 1); if ($vol) { Write-Output $vol.DriveLetter }",
        );
        out
    }

    /// The dismount script for the image at `iso_path`.
    pub fn dismount_script(iso_path: &str) -> (r: String)
        ensures
            r@ == dismount_script_text(iso_path@),
    {
        let mut out = String::from_str("Dismount-DiskImage -ImagePath '");
        push_str(&mut out, iso_path);
        push_str(&mut out, "' -ErrorAction SilentlyContinue");
        out
    }

    /// The drive letter printed by the mount script: its output without
    /// surrounding whitespace, `None` when nothing is left (the image got
    /// no letter and is dismounted again).
    pub fn mounted_letter(stdout: &str) -> (r: Option<String>)
        ensures
            trim_ws(stdout@).len() == 0 ==> r is None,
            trim_ws(stdout@).len() > 0 ==> (r matches Some(l) && l@ == trim_ws(stdout@)),
    {
        let cs = chars_of(stdout);
        let t = trim_chars(&cs);
        if t.len() == 0 {
            None
        } else {
            Some(string_from_chars(&t))
        }
    }

    /// The root probed for the boot indicators of the drive `drive_letter`.
    pub fn iso_root(drive_letter: &str) -> (r: String)
        ensures
            r@ == iso_root_text(drive_letter@),
    {
        let cs = chars_of(drive_letter);
        let mut lo: usize = 0;
        assert(cs@.skip(0) =~= cs@);
        while lo < cs.len() && (cs[lo] == '\\' || cs[lo] == '/' || cs[lo] == ':')
            invariant
                lo <= cs@.len(),
                trim_start_separators(cs@) == trim_start_separators(cs@.skip(lo as int)),
            decreases cs.len() - lo,
        {
            assert(cs@.skip(lo as int).drop_first() =~= cs@.skip(lo + 1));
            lo = lo + 1;
        }
        let ghost s = cs@.skip(lo as int);
        assert(trim_start_separators(cs@) == s);
        let mut hi: usize = cs.len();
        assert(cs@.subrange(lo as int, hi as int) =~= s);
        while hi > lo && (cs[hi - 1] == '\\' || cs[hi - 1] == '/' || cs[hi - 1] == ':')
            invariant
                lo <= hi <= cs@.len(),
                s == cs@.skip(lo as int),
                trim_end_separators(s) == trim_end_separators(cs@.subrange(lo as int, hi as int)),
            decreases hi - lo,
        {
            assert(cs@.subrange(lo as int, hi as int).drop_last() =~= cs@.subrange(lo as int, hi - 1));
            hi = hi - 1;
        }
        let mut t: Vec<char> = Vec::new();
        let mut k: usize = lo;
        while k < hi
            invariant
                lo <= k <= hi <= cs@.len(),
                t@ == cs@.subrange(lo as int, k as int),
            decreases hi - k,
        {
            t.push(cs[k]);
            assert(cs@.subrange(lo as int, k + 1) =~= t@);
            k = k + 1;
        }
        let mut out = string_from_chars(&t);
        push_str(&mut out, ":\\");
        out
    }

    /// The indicators probed under the root, in order.
    pub fn boot_indicators() -> (r: Vec<&'static str>)
        ensures
            str_list(r@) == boot_indicators(),
    {
        let r = vec!["isolinux", "boot", "EFI", "efi", "casper", "live", "squashfs"];
        assert(str_list(r@) =~= boot_indicators());
        r
    }

    /// Whether the image is bootable, given which indicators exist: any
    /// one suffices.
    pub fn is_bootable(found: &Vec<bool>) -> (r: bool)
        ensures
            r == exists|i: int| 0 <= i < found@.len() && found@[i],
    {
        let mut i: usize = 0;
        while i < found.len()
            invariant
                i <= found@.len(),
                forall|j: int| 0 <= j < i ==> !found@[j],
            decreases found.len() - i,
        {
            if found[i] {
                return true;
            }
            i = i + 1;
        }
        false
    }

    /// The SHA-256 checksum, in lowercase hexadecimal, of the bytes fed to
    /// `stream` (the image's contents, read in chunks).
    pub fn calculate_sha256(stream: Sha256Stream) -> (r: String)
        ensures
            r@ == hex_text(sha256_digest(stream.input())),
    {
        let digest = stream.finalize();
        digest_hex(digest.as_slice())
    }

    /// Whether the SHA-256 digest of the bytes fed to `stream` is the one
    /// `expected_hash` names (hexadecimal, any case).
    pub fn verify_iso_hash(stream: Sha256Stream, expected_hash: &str) -> (r: bool)
        ensures
            r == checksum_matches(sha256_digest(stream.input()), expected_hash@),
    {
        let digest = stream.finalize();
        digest_matches(digest.as_slice(), expected_hash)
    }
}

} // verus!
