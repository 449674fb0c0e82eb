use isekai::bitlocker::{AutoPlayGuard, BitLocker, LockVariant, RegistryAction};
use isekai::models::{BitLockerState, DiskError};
use isekai::validation::{critical_component, ComponentStatus, LinuxValidator, ValidationError, ValidationReport, WindowsValidator};
use isekai::windows::EncryptableVolume;

fn volume(letter: Option<&str>, protection: Option<u32>) -> EncryptableVolume {
    EncryptableVolume {
        path: "Win32_EncryptableVolume.DeviceID=\"x\"".to_string(),
        drive_letter: letter.map(|l| l.to_string()),
        protection_status: protection,
    }
}

#[test]
fn query_letter_drops_backslashes() {
    assert_eq!(BitLocker::query_letter(Some("C:\\")), Some("C:".to_string()));
    assert_eq!(BitLocker::query_letter(None), None);
}

#[test]
fn volume_letters_compare_loosely() {
    assert!(BitLocker::letters_match("c:", "C:"));
    assert!(BitLocker::letters_match("c\\", "C:"));
    assert!(!BitLocker::letters_match("c:", "C:\\"));
    assert!(BitLocker::letters_match("D:", "d"));
    assert!(!BitLocker::letters_match("D:", "E:"));
    let vols = vec![volume(None, None), volume(Some("E:"), Some(0)), volume(Some("c:"), Some(1))];
    assert_eq!(BitLocker::find_volume(&vols, "C:"), Some(2));
    assert_eq!(BitLocker::find_volume(&vols, "Z:"), None);
}

#[test]
fn lock_status_values() {
    assert_eq!(BitLocker::lock_status_value(LockVariant::UI4(1)), 1);
    assert_eq!(BitLocker::lock_status_value(LockVariant::I4(-1)), u32::MAX);
    assert_eq!(BitLocker::lock_status_value(LockVariant::UI8((1u64 << 32) + 1)), 1);
    assert_eq!(BitLocker::lock_status_value(LockVariant::Other), 0);
}

#[test]
fn protection_state_decisions() {
    let v = volume(Some("C:"), Some(1));
    assert_eq!(BitLocker::decide_state(None, Some(1)), BitLockerState::Unprotected);
    assert_eq!(BitLocker::decide_state(Some(&v), Some(1)), BitLockerState::Locked);
    assert_eq!(BitLocker::decide_state(Some(&v), Some(0)), BitLockerState::Protected);
    assert_eq!(BitLocker::decide_state(Some(&v), None), BitLockerState::Protected);
    let off = volume(Some("C:"), Some(0));
    assert_eq!(BitLocker::decide_state(Some(&off), None), BitLockerState::Unprotected);
}

#[test]
fn unlock_and_suspend() {
    assert!(BitLocker::unlock_outcome("D:", BitLockerState::Protected).is_ok());
    match BitLocker::unlock_outcome("D:", BitLockerState::Locked) {
        Err(DiskError::DriveEncrypted(m)) => assert_eq!(m, "User aborted unlock for drive: D:"),
        other => panic!("unexpected {:?}", other),
    }
    assert_eq!(BitLocker::suspend_args("C:"), vec!["-protectors", "-disable", "C:", "-RebootCount", "1"]);
    assert!(BitLocker::status_refusal("C:", "Conversion Status:    Fully Decrypted").is_ok());
    match BitLocker::status_refusal("C:", "Conversion Status:    Encrypted") {
        Err(DiskError::DriveEncrypted(m)) => assert_eq!(m, "C:"),
        other => panic!("unexpected {:?}", other),
    }
    assert!(BitLocker::status_refusal("C:", "Percentage: 100% Fully Encrypted").is_err());
}

#[test]
fn autoplay_restores_what_it_found() {
    let (guard, engage) = AutoPlayGuard::engage(Some(145));
    assert_eq!(engage, RegistryAction::Write(255));
    assert_eq!(guard.restore_action(), RegistryAction::Write(145));
    let (guard, _) = AutoPlayGuard::engage(None);
    assert_eq!(guard.restore_action(), RegistryAction::Remove);
}

#[test]
fn linux_report() {
    assert_eq!(LinuxValidator::required_commands(), vec!["parted", "partprobe", "e2fsck", "resize2fs", "mount", "umount", "btrfs"]);
    let found = vec![Some("/usr/sbin/parted".to_string()); 7];
    let r = LinuxValidator::report(found);
    assert_eq!(r.os_name, "Linux");
    assert_eq!(r.components.len(), 7);
    assert!(r.is_ready);
    assert!(matches!(r.components[0].status, ComponentStatus::Installed(ref p) if p == "/usr/sbin/parted"));
    let mut partial = vec![Some("/bin/x".to_string()); 6];
    partial.push(None);
    let r = LinuxValidator::report(partial);
    assert!(!r.is_ready);
    assert_eq!(r.components[6].name, "btrfs");
    assert!(matches!(r.components[6].status, ComponentStatus::Missing));
    let r = LinuxValidator::report(vec![]);
    assert!(!r.is_ready);
}

#[test]
fn windows_report() {
    let r = WindowsValidator::report(Some("C:\\Windows\\powershell.exe".to_string()), true);
    assert_eq!(r.os_name, "Windows");
    assert!(r.is_ready);
    assert_eq!(r.components[1].name, "WMI Storage API");
    assert!(matches!(r.components[1].status, ComponentStatus::Installed(ref p) if p == "System API"));
    assert!(!WindowsValidator::report(None, true).is_ready);
    assert!(!WindowsValidator::report(Some("p".to_string()), false).is_ready);
}

#[test]
fn optional_components_do_not_block() {
    let mut optional = critical_component("extra", None);
    optional.is_critical = false;
    let r = ValidationReport::assemble("Linux", vec![critical_component("a", Some("/a".to_string())), optional]);
    assert!(r.is_ready);
}

#[test]
fn validation_error_text() {
    assert_eq!(ValidationError::CheckFailed("x".to_string()).message(), "System validation failed: x");
}
