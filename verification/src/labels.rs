//! Human-readable names for partitions that have no volume label.
use vstd::prelude::*;
use crate::text::{
    chars_of, contains_chars, push_str, spec_contains, string_from_chars, to_lowercase, trim_char,
    trim_char_chars, trim_chars, trim_ws, unicode_lowercase,
};

verus! {

/// A drive letter as WMI reports it, cleaned of NUL padding and whitespace.
pub open spec fn clean_letter(dl: Seq<char>) -> Seq<char> {
    trim_ws(trim_char(dl, '\0'))
}

/// The label derived from the drive letter, when it decides.
pub open spec fn letter_label(dl: Option<Seq<char>>) -> Option<Seq<char>> {
    match dl {
        Some(d) => {
            let t = clean_letter(d);
            if t == seq!['C'] {
                Some("C: (Windows/NTFS)"@)
            } else if t.len() > 0 {
                Some(t + ": drive"@)
            } else {
                None
            }
        },
        None => None,
    }
}

/// The label derived from an already lowercased GPT type GUID, when it decides.
pub open spec fn gpt_label(lower: Option<Seq<char>>) -> Option<Seq<char>> {
    match lower {
        Some(l) => if spec_contains(l, "de94bba4"@) {
            Some("Recovery"@)
        } else if spec_contains(l, "e3c9e316"@) {
            Some("Microsoft Reversed"@)
        } else if spec_contains(l, "c12a7328"@) {
            Some("EFI System (ESP)"@)
        } else {
            None
        },
        None => None,
    }
}

/// The label for a partition from its drive letter, lowercased GPT type and
/// recovery flag (the MBR/partition type says "recovery").
pub open spec fn partition_label(dl: Option<Seq<char>>, gpt_lower: Option<Seq<char>>, is_recovery_type: bool) -> Seq<char> {
    match letter_label(dl) {
        Some(l) => l,
        None => match gpt_label(gpt_lower) {
            Some(l) => l,
            None => if is_recovery_type {
                "Recovery"@
            } else {
                "Partition"@
            },
        },
    }
}

/// The view of an optional string slice.
pub open spec fn opt_view(s: Option<&str>) -> Option<Seq<char>> {
    match s {
        Some(x) => Some(x@),
        None => None,
    }
}

/// The Unicode-lowercased view of an optional string slice.
pub open spec fn opt_lower(s: Option<&str>) -> Option<Seq<char>> {
    match s {
        Some(x) => Some(unicode_lowercase(x@)),
        None => None,
    }
}

/// Namespace of partition naming rules.
pub struct PartitionUtils;

impl PartitionUtils {
    /// Names a partition: by its drive letter (`C` is the Windows partition),
    /// else by the well-known GPT type it carries (`gpt_lower` is the type
    /// GUID already lowercased), else as a recovery partition when
    /// `is_recovery_type`, else plainly as a partition.
    pub fn label_for(drive_letter: Option<&str>, gpt_lower: Option<&str>, is_recovery_type: bool) -> (r: String)
        ensures
            r@ == partition_label(opt_view(drive_letter), opt_view(gpt_lower), is_recovery_type),
    {
        if let Some(dl) = drive_letter {
            let raw = chars_of(dl);
            let nul_free = trim_char_chars(&raw, '\0');
            let trimmed = trim_chars(&nul_free);
            if trimmed.len() == 1 && trimmed[0] == 'C' {
                assert(trimmed@ =~= seq!['C']);
                return String::from_str("C: (Windows/NTFS)");
            } else if trimmed.len() > 0 {
                assert(trimmed@ != seq!['C']);
                let mut out = string_from_chars(&trimmed);
                push_str(&mut out, ": drive");
                return out;
            }
        }
        if let Some(gpt) = gpt_lower {
            let g = chars_of(gpt);
            if contains_chars(&g, &chars_of("de94bba4")) {
                return String::from_str("Recovery");
            } else if contains_chars(&g, &chars_of("e3c9e316")) {
                return String::from_str("Microsoft Reversed");
            } else if contains_chars(&g, &chars_of("c12a7328")) {
                return String::from_str("EFI System (ESP)");
            }
        }
        if is_recovery_type {
            String::from_str("Recovery")
        } else {
            String::from_str("Partition")
        }
    }

    /// Names a partition from its WMI facts; MBR types 4 and 39 mark
    /// recovery partitions.
    pub fn determine_partition_label(drive_letter: Option<&str>, gpt_type: Option<&str>, mbr_type: Option<u16>) -> (r: String)
        ensures
            r@ == partition_label(
                opt_view(drive_letter),
                opt_lower(gpt_type),
                mbr_type == Some(4u16) || mbr_type == Some(39u16),
            ),
    {
        let lowered: Option<String> = match gpt_type {
            Some(g) => Some(to_lowercase(g)),
            None => None,
        };
        let lowered_ref: Option<&str> = match &lowered {
            Some(l) => Some(l.as_str()),
            None => None,
        };
        let is_recovery = match mbr_type {
            Some(pt) => pt == 4 || pt == 39,
            None => false,
        };
        Self::label_for(drive_letter, lowered_ref, is_recovery)
    }
}

/// Names a partition from its WMI facts; partition type 4 marks a recovery
/// partition.
pub fn determine_partition_label(drive_letter: Option<&str>, gpt_type: Option<&str>, part_type: Option<u32>) -> (r: String)
    ensures
        r@ == partition_label(opt_view(drive_letter), opt_lower(gpt_type), part_type == Some(4u32)),
{
    let lowered: Option<String> = match gpt_type {
        Some(g) => Some(to_lowercase(g)),
        None => None,
    };
    let lowered_ref: Option<&str> = match &lowered {
        Some(l) => Some(l.as_str()),
        None => None,
    };
    let is_recovery = match part_type {
        Some(pt) => pt == 4,
        None => false,
    };
    PartitionUtils::label_for(drive_letter, lowered_ref, is_recovery)
}

} // verus!
