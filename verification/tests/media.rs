use isekai::hashing::Sha256Stream;
use isekai::iso::IsoManager;
use isekai::models::{DiskError, DiskType, DistroSpec, WorkflowState};
use isekai::network::{digest_hex, digest_matches, DownloadControl, DownloadProgress, NetworkManager};
use isekai::payload::PayloadManager;

fn spec(version: &str) -> DistroSpec {
    DistroSpec {
        version: version.to_string(),
        secure_boot: true,
        mirrors: vec!["https://a/x.iso".to_string()],
        checksum: "AB01".to_string(),
    }
}

#[test]
fn hex_is_lowercase_two_digits_per_byte() {
    assert_eq!(digest_hex(&[0x00, 0x0f, 0xab, 0xff]), "000fabff");
    assert_eq!(digest_hex(&[]), "");
}

#[test]
fn checksum_compare_ignores_case() {
    assert!(digest_matches(&[0xab, 0x01], "AB01"));
    assert!(digest_matches(&[0xab, 0x01], "ab01"));
    assert!(!digest_matches(&[0xab, 0x01], "ab02"));
}

const ABC_SHA256: &str = "ba7816bf8f01cfea414140de5dae2223b00361a396177a9cb410ff61f20015ad";
const EMPTY_SHA256: &str = "e3b0c44298fc1c149afbf4c8996fb92427ae41e4649b934ca495991b7852b855";

fn stream_of(chunks: &[&[u8]]) -> Sha256Stream {
    let mut s = Sha256Stream::new();
    for c in chunks {
        s.update(c);
    }
    s
}

#[test]
fn sha256_of_known_inputs() {
    assert_eq!(IsoManager::calculate_sha256(stream_of(&[])), EMPTY_SHA256);
    assert_eq!(IsoManager::calculate_sha256(stream_of(&[b"abc"])), ABC_SHA256);
    let digest = stream_of(&[b"abc"]).finalize();
    assert_eq!(digest.len(), 32);
    assert_eq!(digest_hex(&digest), ABC_SHA256);
}

#[test]
fn sha256_chunks_concatenate() {
    assert_eq!(IsoManager::calculate_sha256(stream_of(&[b"a", b"", b"bc"])), ABC_SHA256);
    assert_ne!(IsoManager::calculate_sha256(stream_of(&[b"ab"])), ABC_SHA256);
}

#[test]
fn download_checksum_verdict() {
    let (hex, verdict) = NetworkManager::verify_checksum(stream_of(&[b"abc"]), &ABC_SHA256.to_uppercase());
    assert_eq!(hex, ABC_SHA256);
    assert!(verdict.is_ok());
    let (hex, verdict) = NetworkManager::verify_checksum(stream_of(&[b"abd"]), ABC_SHA256);
    assert_ne!(hex, ABC_SHA256);
    match verdict {
        Err(DiskError::DataValidation(m)) => assert_eq!(m, "Checksum mismatch. File was corrupted during download."),
        other => panic!("unexpected {:?}", other),
    }
}

#[test]
fn iso_hash_verdict() {
    assert!(IsoManager::verify_iso_hash(stream_of(&[b"abc"]), ABC_SHA256));
    assert!(IsoManager::verify_iso_hash(stream_of(&[b"ab", b"c"]), &ABC_SHA256.to_uppercase()));
    assert!(!IsoManager::verify_iso_hash(stream_of(&[b"abc"]), EMPTY_SHA256));
}

#[test]
fn image_file_names() {
    assert_eq!(NetworkManager::download_file_name("https://mirror/iso/Fedora-42.iso", "fedora"), "Fedora-42.iso");
    assert_eq!(NetworkManager::download_file_name("https://mirror/iso/Fedora-42.iso//", "fedora"), "Fedora-42.iso");
    assert_eq!(NetworkManager::download_file_name("https://mirror/latest/", "fedora"), "fedora.iso");
    assert_eq!(NetworkManager::download_file_name("", "arch"), "arch.iso");
    assert_eq!(NetworkManager::download_file_name("x.iso", "arch"), "x.iso");
}

#[test]
fn catalogue_entries() {
    let entries = vec![("fedora".to_string(), spec("42")), ("arch".to_string(), spec("2025.01"))];
    let public = NetworkManager::public_entries(&entries);
    assert_eq!(public.len(), 2);
    assert_eq!(public[1].0, "arch");
    assert!(public[1].1.available);
    assert_eq!(public[1].1.version, "2025.01");
    assert!(public[1].1.secure_boot);
    assert_eq!(NetworkManager::find_distro(&entries, "arch").unwrap(), 1);
    match NetworkManager::find_distro(&entries, "mint") {
        Err(DiskError::DataValidation(m)) => assert_eq!(m, "Distribution 'mint' not found in remote config."),
        other => panic!("unexpected {:?}", other),
    }
}

#[test]
fn download_targets_and_errors() {
    let (url, checksum, file) = NetworkManager::download_target("fedora", &spec("42"), "https://a/x.iso");
    assert_eq!(url, "https://a/x.iso");
    assert_eq!(checksum, "AB01");
    assert_eq!(file, "x.iso");
    assert!(matches!(NetworkManager::all_mirrors_offline(), DiskError::DataValidation(ref m) if m == "All download mirrors are currently offline."));
    assert!(matches!(NetworkManager::cancelled_error(), DiskError::DataValidation(ref m) if m == "Download Cancelled."));
    assert!(matches!(NetworkManager::status_error("404 Not Found"), DiskError::DataValidation(ref m) if m == "Server returned error status: 404 Not Found"));
    assert_eq!(NetworkManager::primary_config_url(), "https://in-kraft.github.io/Isekai/assets/distros.json");
}

#[test]
fn control_states() {
    assert_eq!(NetworkManager::control(WorkflowState::Cancelled), DownloadControl::Abort);
    assert_eq!(NetworkManager::control(WorkflowState::Paused), DownloadControl::Wait);
    assert_eq!(NetworkManager::control(WorkflowState::Running), DownloadControl::Proceed);
}

#[test]
fn resumable_download_bookkeeping() {
    let mut p = DownloadProgress::resume_from(0);
    assert_eq!(p.range_header(), None);
    assert!(!p.on_response(false, Some(1000)));
    assert_eq!(p, DownloadProgress { downloaded: 0, total: 1000 });
    p.on_chunk(600);
    assert!(!p.is_complete(WorkflowState::Running));
    p.on_chunk(400);
    assert!(p.is_complete(WorkflowState::Running));
    assert!(!p.is_complete(WorkflowState::Paused));

    let mut r = DownloadProgress::resume_from(300);
    assert_eq!(r.range_header().as_deref(), Some("bytes=300-"));
    assert!(!r.on_response(true, Some(700)));
    assert_eq!(r, DownloadProgress { downloaded: 300, total: 1000 });

    let mut s = DownloadProgress::resume_from(300);
    assert!(s.on_response(false, Some(1000)));
    assert_eq!(s, DownloadProgress { downloaded: 0, total: 300 });
}

#[test]
fn iso_scripts() {
    assert_eq!(
        IsoManager::mount_script("C:\\a.iso"),
        "$vol = (Mount-DiskImage -ImagePath 'C:\\a.iso' -StorageType ISO -PassThru | Get-Volume -ErrorAction Stop | Select-Object -First 1); if ($vol) { Write-Output $vol.DriveLetter }"
    );
    assert_eq!(
        IsoManager::dismount_script("C:\\a.iso"),
        "Dismount-DiskImage -ImagePath 'C:\\a.iso' -ErrorAction SilentlyContinue"
    );
    assert_eq!(IsoManager::powershell_args("x"), vec!["-NoProfile", "-NonInteractive", "-Command", "x"]);
}

#[test]
fn mounted_letters_and_roots() {
    assert_eq!(IsoManager::mounted_letter("  E \r\n"), Some("E".to_string()));
    assert_eq!(IsoManager::mounted_letter(" \r\n"), None);
    assert_eq!(IsoManager::iso_root("E:\\"), "E:\\");
    assert_eq!(IsoManager::iso_root("/:E/"), "E:\\");
    assert_eq!(IsoManager::iso_root(":"), ":\\");
}

#[test]
fn bootable_indicators() {
    assert_eq!(IsoManager::boot_indicators(), vec!["isolinux", "boot", "EFI", "efi", "casper", "live", "squashfs"]);
    assert!(IsoManager::is_bootable(&vec![false, false, true]));
    assert!(!IsoManager::is_bootable(&vec![false; 7]));
    assert!(!IsoManager::is_bootable(&vec![]));
}

#[test]
fn robocopy_invocation() {
    assert_eq!(
        PayloadManager::robocopy_args("E:", "F", DiskType::HDD),
        vec!["E:\\", "F:\\", "/E", "/R:3", "/W:2", "/NP", "/NFL", "/NDL", "/MT:1"]
    );
    assert_eq!(PayloadManager::robocopy_args("E", "F", DiskType::NVME)[8], "/MT:8");
    assert!(PayloadManager::robocopy_failed(Some(8)));
    assert!(PayloadManager::robocopy_failed(Some(16)));
    assert!(!PayloadManager::robocopy_failed(Some(7)));
    assert!(!PayloadManager::robocopy_failed(Some(0)));
    assert!(!PayloadManager::robocopy_failed(None));
    assert_eq!(PayloadManager::robocopy_failure_message(8), "Robocopy failed with code 8.");
    assert_eq!(PayloadManager::attrib_args("F:\\"), vec!["-R", "F:\\*", "/S", "/D"]);
    match PayloadManager::check_payload_size(0) {
        Err(DiskError::DataValidation(m)) => assert_eq!(m, "Source ISO appears to be empty!"),
        other => panic!("unexpected {:?}", other),
    }
    assert!(PayloadManager::check_payload_size(1).is_ok());
}

#[test]
fn counted_sizes() {
    assert_eq!(PayloadManager::counted_file_size(100, None), (100, false));
    assert_eq!(PayloadManager::counted_file_size(52428800, None), (52428800, false));
    assert_eq!(PayloadManager::counted_file_size(52428801, Some(7)), (7, false));
    assert_eq!(PayloadManager::counted_file_size(52428801, None), (52428801, true));
    assert_eq!(PayloadManager::valid_data_length(8, 3, &vec![1, 2, 3]), None);
    assert_eq!(PayloadManager::valid_data_length(16 + 24 * 2, 3, &vec![10, 20, 30]), Some(30));
    assert_eq!(PayloadManager::valid_data_length(16 + 24 * 3, 2, &vec![10, 20, 30]), Some(30));
    assert_eq!(PayloadManager::valid_data_length(16 + 24 * 16, 16, &vec![5; 3]), Some(15));
}
