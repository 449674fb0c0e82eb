//! BitLocker and AutoPlay: which encryptable volume a drive letter names,
//! what its lock and protection status mean for the installer, the
//! commands that unlock or suspend it, and the AutoRun policy that is
//! switched off while partitions appear and restored afterwards.
use vstd::prelude::*;
use crate::models::{BitLockerState, DiskError};
use crate::seqs::{first_where, lemma_first_where};
use crate::text::{
    chars_of, contains_chars, eq_ignore_ascii_case_chars, push_str, spec_contains, spec_eq_ignore_ascii_case, string_from_chars, trim_end_char,
    trim_end_char_chars,
};
use crate::windows::EncryptableVolume;

verus! {

/// Queries and commands on BitLocker-protected volumes.
pub struct BitLocker;

/// A drive letter without its trailing colons and then backslashes.
pub open spec fn bare_letter(s: Seq<char>) -> Seq<char> {
    trim_end_char(trim_end_char(s, ':'), '\\')
}

/// Whether an encryptable volume is the one of drive `target`: the letters
/// agree, ignoring ASCII case and trailing `:` and `\`.
pub open spec fn volume_of(target: Seq<char>) -> spec_fn(EncryptableVolume) -> bool {
    |v: EncryptableVolume| v.drive_letter matches Some(d) && spec_eq_ignore_ascii_case(bare_letter(d@), bare_letter(target))
}

/// A WMI integer as the lock status query returns it.
#[derive(Debug, Clone, Copy, PartialEq, Eq, Structural)]
pub enum LockVariant {
    UI4(u32),
    I4(i32),
    UI8(u64),
    I8(i64),
    /// Any other kind of value.
    Other,
}

/// The lock status a variant carries: the integer truncated to 32 bits, or
/// 0 for a value of another kind.
pub open spec fn lock_value(v: LockVariant) -> u32 {
    match v {
        LockVariant::UI4(x) => x,
        LockVariant::I4(x) => x as u32,
        LockVariant::UI8(x) => x as u32,
        LockVariant::I8(x) => x as u32,
        LockVariant::Other => 0,
    }
}

/// The protection state of a volume: locked when its lock status is 1,
/// else protected when its protection status is 1; a drive with no
/// encryptable volume is unprotected.
pub open spec fn volume_state(volume: Option<EncryptableVolume>, lock_status: Option<u32>) -> BitLockerState {
    match volume {
        None => BitLockerState::Unprotected,
        Some(v) => if lock_status == Some(1u32) {
            BitLockerState::Locked
        } else if v.protection_status == Some(1u32) {
            BitLockerState::Protected
        } else {
            BitLockerState::Unprotected
        },
    }
}

/// The views of a list of strings.
pub open spec fn string_list(s: Seq<String>) -> Seq<Seq<char>> {
    s.map_values(|x: String| x@)
}

/// `letter` without its trailing colons, then its trailing backslashes.
fn bare_letter_chars(letter: &str) -> (r: Vec<char>)
    ensures
        r@ == bare_letter(letter@),
{
    let cs = chars_of(letter);
    let a = trim_end_char_chars(&cs, ':');
    trim_end_char_chars(&a, '\\')
}

impl BitLocker {
    /// The letter a state query is made for: the drive letter without its
    /// trailing backslashes; no letter means no query (unprotected).
    pub fn query_letter(drive_letter: Option<&str>) -> (r: Option<String>)
        ensures
            match drive_letter {
                Some(l) => r matches Some(x) && x@ == trim_end_char(l@, '\\'),
                None => r is None,
            },
    {
        match drive_letter {
            Some(l) => {
                let cs = chars_of(l);
                let t = trim_end_char_chars(&cs, '\\');
                Some(string_from_chars(&t))
            },
            None => None,
        }
    }

    /// Whether the volume letter `volume_letter` names drive `target`.
    pub fn letters_match(volume_letter: &str, target: &str) -> (r: bool)
        ensures
            r == spec_eq_ignore_ascii_case(bare_letter(volume_letter@), bare_letter(target@)),
    {
        let a = bare_letter_chars(volume_letter);
        let b = bare_letter_chars(target);
        eq_ignore_ascii_case_chars(&a, &b)
    }

    /// The first encryptable volume of drive `target`.
    pub fn find_volume(volumes: &Vec<EncryptableVolume>, target: &str) -> (r: Option<usize>)
        ensures
            match first_where(volumes@, volume_of(target@)) {
                Some(i) => r == Some(i as usize),
                None => r is None,
            },
    {
        let mut i: usize = 0;
        while i < volumes.len()
            invariant
                i <= volumes@.len(),
                forall|j: int| 0 <= j < i ==> !volume_of(target@)(#[trigger] volumes@[j]),
            decreases volumes.len() - i,
        {
            let hit = match &volumes[i].drive_letter {
                Some(d) => Self::letters_match(d.as_str(), target),
                None => false,
            };
            if hit {
                proof {
                    lemma_first_where(volumes@, volume_of(target@), i as int);
                }
                return Some(i);
            }
            i = i + 1;
        }
        proof {
            lemma_first_where(volumes@, volume_of(target@), i as int);
        }
        None
    }

    /// The lock status of a query result.
    pub fn lock_status_value(v: LockVariant) -> (r: u32)
        ensures
            r == lock_value(v),
    {
        match v {
            LockVariant::UI4(x) => x,
            LockVariant::I4(x) => x as u32,
            LockVariant::UI8(x) => x as u32,
            LockVariant::I8(x) => x as u32,
            LockVariant::Other => 0,
        }
    }

    /// The protection state of the volume found for a drive, given the lock
    /// status its query returned (`None` when the query returned nothing).
    pub fn decide_state(volume: Option<&EncryptableVolume>, lock_status: Option<u32>) -> (r: BitLockerState)
        ensures
            r == volume_state(
                match volume {
                    Some(v) => Some(*v),
                    None => None,
                },
                lock_status,
            ),
    {
        match volume {
            None => BitLockerState::Unprotected,
            Some(v) => {
                if lock_status == Some(1u32) {
                    BitLockerState::Locked
                } else if v.protection_status == Some(1u32) {
                    BitLockerState::Protected
                } else {
                    BitLockerState::Unprotected
                }
            },
        }
    }

    /// The result of an unlock prompt, given the state read afterwards: a
    /// drive still locked means the user gave up.
    pub fn unlock_outcome(letter: &str, state_after: BitLockerState) -> (r: Result<(), DiskError>)
        ensures
            state_after == BitLockerState::Locked <==> r is Err,
            r matches Err(e) ==> e matches DiskError::DriveEncrypted(m) && m@ == "User aborted unlock for drive: "@
                + letter@,
    {
        if state_after == BitLockerState::Locked {
            let mut m = String::from_str("User aborted unlock for drive: ");
            push_str(&mut m, letter);
            return Err(DiskError::DriveEncrypted(m));
        }
        Ok(())
    }

    /// The verdict on a drive from the text `manage-bde -status` printed:
    /// an encrypted drive is refused.
    pub fn status_refusal(letter: &str, status_text: &str) -> (r: Result<(), DiskError>)
        ensures
            r is Err <==> (spec_contains(status_text@, "Conversion Status:    Encrypted"@) || spec_contains(
                status_text@,
                "Fully Encrypted"@,
            )),
            r matches Err(e) ==> e matches DiskError::DriveEncrypted(m) && m@ == letter@,
    {
        let t = chars_of(status_text);
        let a = chars_of("Conversion Status:    Encrypted");
        let b = chars_of("Fully Encrypted");
        if contains_chars(&t, &a) || contains_chars(&t, &b) {
            return Err(DiskError::DriveEncrypted(String::from_str(letter)));
        }
        Ok(())
    }

    /// The `manage-bde` arguments that suspend protection of drive `letter`
    /// until the next reboot.
    pub fn suspend_args(letter: &str) -> (r: Vec<String>)
        ensures
            string_list(r@) == seq!["-protectors"@, "-disable"@, letter@, "-RebootCount"@, "1"@],
    {
        let mut out: Vec<String> = Vec::new();
        out.push(String::from_str("-protectors"));
        out.push(String::from_str("-disable"));
        out.push(String::from_str(letter));
        out.push(String::from_str("-RebootCount"));
        out.push(String::from_str("1"));
        assert(string_list(out@) =~= seq!["-protectors"@, "-disable"@, letter@, "-RebootCount"@, "1"@]);
        out
    }
}

/// A change to the `NoDriveTypeAutoRun` policy value.
#[derive(Debug, Clone, Copy, PartialEq, Eq, Structural)]
pub enum RegistryAction {
    /// Write this value.
    Write(u32),
    /// Delete the value.
    Remove,
}

/// The value after an action.
pub open spec fn apply_action(a: RegistryAction) -> Option<u32> {
    match a {
        RegistryAction::Write(v) => Some(v),
        RegistryAction::Remove => None,
    }
}

/// Suppresses Windows AutoRun while new partitions appear, and knows how
/// to put the policy back.
pub struct AutoPlayGuard {
    original_value: Option<u32>,
}

impl AutoPlayGuard {
    /// The policy value found when the guard was engaged.
    pub closed spec fn original(&self) -> Option<u32> {
        self.original_value
    }

    /// The guard engaged over the value `found`.
    pub closed spec fn engaged(found: Option<u32>) -> AutoPlayGuard {
        AutoPlayGuard { original_value: found }
    }

    /// The action that puts back what the guard found.
    pub closed spec fn restoring(&self) -> RegistryAction {
        match self.original_value {
            Some(v) => RegistryAction::Write(v),
            None => RegistryAction::Remove,
        }
    }

    /// Engages the guard over the value found in the registry (`None` when
    /// there was none or it could not be read): the action that disables
    /// AutoRun for every drive type.
    pub fn engage(found: Option<u32>) -> (r: (AutoPlayGuard, RegistryAction))
        ensures
            r.0 == AutoPlayGuard::engaged(found),
            r.0.original() == found,
            r.1 == RegistryAction::Write(255),
    {
        (AutoPlayGuard { original_value: found }, RegistryAction::Write(255))
    }

    /// The action that restores the policy: the original value, or its
    /// removal when there was none.
    pub fn restore_action(&self) -> (r: RegistryAction)
        ensures
            r == self.restoring(),
            apply_action(r) == self.original(),
    {
        match self.original_value {
            Some(v) => RegistryAction::Write(v),
            None => RegistryAction::Remove,
        }
    }
}

/// Engaging the guard over whatever value was found and later restoring it
/// leaves the policy value as it was found; while engaged, AutoRun is off
/// for every drive type.
pub proof fn lemma_autoplay_restores(found: Option<u32>)
    ensures
        apply_action(AutoPlayGuard::engaged(found).restoring()) == found,
        apply_action(RegistryAction::Write(255)) == Some(255u32),
{
}

} // verus!
