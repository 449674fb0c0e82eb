use isekai::blockdev::{memchr_dot, parse_size_string, BlockDevice, BlockDevices, DeviceType, MajMin, SizeText};
use isekai::boot::{
    delete_entry_args, drive_root, extract_braced, guids_to_delete, BootManager, BootStrategyKind, BraceSlice,
    LegacyBootManager, UefiBootManager,
};
use isekai::diskpart::{
    delete_script, extend_script, live_partitions_script, rollback_script, script_file_name, shrink_script, wipe_script,
};
use isekai::labels::{determine_partition_label, PartitionUtils};
use isekai::linux::{
    get_shrink_strategy, shrink_next, shrink_start, step_succeeded, temp_mount_point, LinuxDiskManager, LinuxShrinkNext,
    LinuxShrinkStep, ShrinkStrategy,
};
use isekai::models::{BitLockerState, InstallPlan, Partition};
use isekai::planner::{calculate_required_shrink_bytes, get_contiguous_install_plan, PartitionPlanner};
use isekai::windows::{MsftPhysicalDisk, ShrinkCheck, ShrinkNext, ShrinkStep, WindowsDiskManager};

fn device(name: &str, t: DeviceType, mounts: Vec<Option<&str>>, children: Option<Vec<BlockDevice>>) -> BlockDevice {
    BlockDevice {
        name: name.to_string(),
        maj_min: MajMin::new(8, 0),
        uuid: None,
        wwn: None,
        serial: None,
        fstype: None,
        rm: false,
        size: 1024,
        ro: false,
        device_type: t,
        mountpoints: mounts.into_iter().map(|m| m.map(|s| s.to_string())).collect(),
        partn: None,
        start: None,
        log_sec: None,
        children,
    }
}

fn ntfs(id: &str, offset: u64, size: u64) -> Partition {
    Partition {
        id: id.to_string(),
        drive_letter: None,
        size_gb: 0,
        file_system: "NTFS".to_string(),
        label: "Partition".to_string(),
        offset_bytes: offset,
        size_bytes: size,
        free_bytes: 0,
        bitlocker_state: BitLockerState::Unprotected,
    }
}

#[test]
fn maj_min_round_trip() {
    let m = MajMin::parse("259:3").unwrap();
    assert_eq!(m, MajMin::new(259, 3));
    assert_eq!(m.to_text(), "259:3");
    assert!(MajMin::parse("8").is_err());
    assert!(MajMin::parse("8:1:2").is_err());
    assert!(MajMin::parse("a:1").is_err());
    assert_eq!(DeviceType::Raid10.as_str(), "raid10");
}

#[test]
fn size_strings() {
    assert!(matches!(parse_size_string("500G"), Some(SizeText::Bytes(536870912000))));
    assert!(matches!(parse_size_string(" 10 MiB "), Some(SizeText::Bytes(10485760))));
    assert!(matches!(parse_size_string("7"), Some(SizeText::Bytes(7))));
    assert!(matches!(parse_size_string("3.5T"), Some(SizeText::Scaled { ref number, multiplier: 1099511627776 }) if number == "3.5"));
    assert!(parse_size_string("1.2.3").is_none());
    assert!(matches!(parse_size_string(".5k"), Some(SizeText::Scaled { ref number, multiplier: 1024 }) if number == ".5"));
    assert!(parse_size_string("").is_none());
    assert!(parse_size_string("12X").is_none());
    assert!(parse_size_string("16384P").is_none());
    assert!(matches!(parse_size_string("16383P"), Some(SizeText::Bytes(18445618173802708992))));
    assert_eq!(memchr_dot(b"12.5"), Some(2));
    assert_eq!(memchr_dot(b"125"), None);
}

#[test]
fn device_tree_queries() {
    let root_part = device("sda2", DeviceType::Part, vec![Some("/")], None);
    let boot_part = device("sda1", DeviceType::Part, vec![Some("/boot/efi")], None);
    let sda = device("sda", DeviceType::Disk, vec![None], Some(vec![boot_part, root_part]));
    let data = device("sdb1", DeviceType::Part, vec![None], None);
    let sdb = device("sdb", DeviceType::Disk, vec![None], Some(vec![data]));
    assert!(sda.is_system());
    assert!(!sdb.is_system());
    assert!(sda.has_children());
    assert!(sda.is_disk() && !sda.is_partition());
    assert_eq!(sda.find_child("sda2").unwrap().name, "sda2");
    assert!(sda.find_descendant("sdb1").is_none());
    assert!(sda.find_child("sda1").is_some() && sda.find_descendant("sda1").is_some());
    assert_eq!(sda.find_descendant("sda").unwrap().name, "sda");
    assert_eq!(sda.children_iter()[0].active_mountpoints(), vec!["/boot/efi"]);
    assert!(!sdb.is_mounted());
    let all = BlockDevices { blockdevices: vec![sda, sdb] };
    assert_eq!(all.len(), 2);
    assert!(!all.is_empty());
    assert_eq!(all.iter_all().len(), 5);
    assert_eq!(all.system().len(), 1);
    assert_eq!(all.non_system()[0].name, "sdb");
    assert_eq!(all.find_by_name("sdb").unwrap().name, "sdb");
    assert!(all.find_by_name("sdb1").is_none());
    assert_eq!(all.find_anywhere("sdb").unwrap().name, "sdb");
    assert_eq!(all.find_anywhere("sdb1").unwrap().name, "sdb1");
    assert!(BlockDevices::default().is_empty());
}

#[test]
fn descendants_walk_depth_first() {
    let leaf = device("md0", DeviceType::Raid1, vec![], None);
    let p1 = device("sda1", DeviceType::Part, vec![], Some(vec![leaf]));
    let p2 = device("sda2", DeviceType::Part, vec![], None);
    let sda = device("sda", DeviceType::Disk, vec![], Some(vec![p1, p2]));
    let names: Vec<&str> = sda.descendants().collect_all().iter().map(|d| d.name.as_str()).collect();
    assert_eq!(names, vec!["sda", "sda1", "md0", "sda2"]);
}

#[test]
fn stable_ids_and_strategies() {
    let mut d = device("sda", DeviceType::Disk, vec![], None);
    assert_eq!(LinuxDiskManager::get_stable_id(&d), None);
    d.uuid = Some("u".to_string());
    d.serial = Some("s".to_string());
    assert_eq!(LinuxDiskManager::get_stable_id(&d), Some("s".to_string()));
    d.wwn = Some("w".to_string());
    assert_eq!(LinuxDiskManager::get_stable_id(&d), Some("w".to_string()));
    assert!(matches!(get_shrink_strategy("ext4"), ShrinkStrategy::Offline { ref check_args, .. } if check_args[0] == "e2fsck"));
    assert!(matches!(get_shrink_strategy("btrfs"), ShrinkStrategy::Online { .. }));
    assert!(matches!(get_shrink_strategy("xfs"), ShrinkStrategy::Unsupported(ref m) if m == "This filesystem fundamentally does not support shrinking."));
    assert!(matches!(get_shrink_strategy("vfat"), ShrinkStrategy::Unsupported(ref m) if m == "Shrinking not yet implemented for this filesystem."));
    assert!(step_succeeded("e2fsck", false, Some(1)));
    assert!(!step_succeeded("resize2fs", false, Some(1)));
    assert_eq!(temp_mount_point("abc"), "/tmp/isekai_fs_abc");
}

#[test]
fn partition_labels() {
    assert_eq!(PartitionUtils::determine_partition_label(Some("C\0"), None, None), "C: (Windows/NTFS)");
    assert_eq!(PartitionUtils::determine_partition_label(Some(" D "), None, None), "D: drive");
    assert_eq!(
        PartitionUtils::determine_partition_label(None, Some("{DE94BBA4-06D1-4D40-A16A-BFD50179D6AC}"), None),
        "Recovery"
    );
    assert_eq!(
        PartitionUtils::determine_partition_label(Some(""), Some("{C12A7328-F81F-11D2-BA4B-00A0C93EC93B}"), None),
        "EFI System (ESP)"
    );
    assert_eq!(PartitionUtils::determine_partition_label(None, Some("{E3C9E316-0B5C-4DB8-817D-F92DF00215AE}"), None), "Microsoft Reversed");
    assert_eq!(PartitionUtils::determine_partition_label(None, None, Some(39)), "Recovery");
    assert_eq!(PartitionUtils::determine_partition_label(None, None, Some(7)), "Partition");
    assert_eq!(determine_partition_label(None, None, Some(4)), "Recovery");
}

#[test]
fn shrink_requirements() {
    assert_eq!(calculate_required_shrink_bytes(20, 1), 22566404096);
    assert_eq!(PartitionPlanner::calculate_required_shrink_bytes(10240, 512), 11292114944);
}

#[test]
fn plan_in_trailing_gap() {
    let parts = vec![ntfs("1", 1048576, 53687091200)];
    let plan = PartitionPlanner::get_contiguous_install_plan(107374182400, &parts, 53688139776, 512, 20480);
    assert_eq!(
        plan,
        InstallPlan {
            has_boot_space: true,
            has_requested_linux_space: true,
            boot_partition_offset_bytes: 106820534272,
            linux_space_bytes: 53132394496,
        }
    );
    let none = PartitionPlanner::get_contiguous_install_plan(53688139776, &parts, 53688139776, 512, 20480);
    assert!(!none.has_boot_space);
    assert_eq!(none.linux_space_bytes, 0);
}

#[test]
fn diskpart_scripts() {
    assert_eq!(wipe_script(1, true), "select disk 1\nclean\nconvert gpt\nexit\n");
    assert_eq!(wipe_script(1, false), "select disk 1\nclean\nconvert mbr\nexit\n");
    assert_eq!(
        live_partitions_script(1, 4558, false),
        "select disk 1\ncreate partition primary size=4558\nformat fs=fat32 quick label=\"LINUX_LIVE\"\nassign\nexit\n"
    );
    assert_eq!(
        rollback_script(3),
        "select disk 3\nselect volume LINUX_LIVE\ndelete volume\nselect volume LINUX_EFI\ndelete volume\nexit\n"
    );
    assert_eq!(extend_script("0", "2"), "select disk 0\nselect partition 2\nextend\nexit\n");
    assert_eq!(shrink_script("0", "2", 1024), "select disk 0\nselect partition 2\nshrink desired=1024\nexit\n");
    assert_eq!(delete_script("0", "5"), "select disk 0\nselect partition 5\ndelete partition override\nexit\n");
    assert_eq!(script_file_name("wipe_0"), "dp_wipe_0.txt");
}

#[test]
fn windows_decisions() {
    assert!(WindowsDiskManager::check_wipe_target(0, 0).is_err());
    assert!(WindowsDiskManager::check_wipe_target(1, 0).is_ok());
    assert!(WindowsDiskManager::is_mechanical(&vec![MsftPhysicalDisk { MediaType: Some(3) }]));
    assert!(!WindowsDiskManager::is_mechanical(&vec![]));
    assert_eq!(WindowsDiskManager::fallback_shrink_mb(300 * 1048576, 100 * 1048576), 200);
    assert_eq!(WindowsDiskManager::check_shrunk_size(100 * 1048576, 104 * 1048576), ShrinkCheck::WithinTolerance);
    assert_eq!(WindowsDiskManager::check_shrunk_size(100 * 1048576, 106 * 1048576), ShrinkCheck::SilentFailure);
    assert_eq!(WindowsDiskManager::repair_args("C:\\", "ntfs"), vec!["C:", "/scan", "/perf"]);
    assert_eq!(WindowsDiskManager::repair_args("D:", "FAT32"), vec!["D:", "/f", "/x"]);
    assert_eq!(WindowsDiskManager::disk_index("12").unwrap(), 12);
    assert!(WindowsDiskManager::disk_index("x").is_err());
    assert_eq!(WindowsDiskManager::sync_delays_ms(), vec![500, 1000, 2000, 3000, 5000]);
}

#[test]
fn live_partition_letters() {
    let mut live = ntfs("4", 0, 0);
    live.label = "LINUX_LIVE".to_string();
    live.drive_letter = Some("F:".to_string());
    let mut efi = ntfs("5", 0, 0);
    efi.label = "LINUX_EFI".to_string();
    let parts = vec![ntfs("1", 0, 0), live, efi];
    assert_eq!(WindowsDiskManager::labeled_letter(&parts, "LINUX_LIVE"), Some("F:".to_string()));
    assert_eq!(WindowsDiskManager::labeled_letter(&parts, "LINUX_EFI"), None);
    assert!(WindowsDiskManager::partition_present(&parts, Some("5")));
    assert!(!WindowsDiskManager::partition_present(&parts, Some("9")));
    assert!(WindowsDiskManager::partition_present(&parts, None));
    assert!(WindowsDiskManager::live_letters_ready(&Some("F:".to_string()), &None, false));
    assert!(!WindowsDiskManager::live_letters_ready(&Some("F:".to_string()), &None, true));
}

#[test]
fn shrink_size_query() {
    assert_eq!(
        WindowsDiskManager::shrink_size_script("C:"),
        "$size = Get-PartitionSupportedSize -DriveLetter 'C' -ErrorAction Stop; [PSCustomObject]@{ SizeMin = $size.SizeMin; SizeMax = $size.SizeMax } | ConvertTo-Json -Compress"
    );
    assert_eq!(WindowsDiskManager::max_shrink_from_output(" {\"SizeMin\":123,\"SizeMax\":456}\r\n").unwrap(), 123);
    assert_eq!(WindowsDiskManager::max_shrink_from_output("{\"SizeMax\":456}").unwrap(), u64::MAX);
    assert!(WindowsDiskManager::max_shrink_from_output("not json").is_err());
}

#[test]
fn boot_entries() {
    assert_eq!(BootManager::get_strategy(true), BootStrategyKind::Uefi);
    assert_eq!(BootManager::get_strategy(false), BootStrategyKind::Legacy);
    assert!(matches!(extract_braced("The entry {abc-1} was copied"), BraceSlice::Found(ref g) if g == "{abc-1}"));
    assert!(matches!(extract_braced("no braces"), BraceSlice::Missing));
    assert!(matches!(extract_braced("} x {"), BraceSlice::Reversed));
    assert_eq!(delete_entry_args("{g}"), vec!["/delete", "{g}"]);
    assert_eq!(drive_root("E:"), "E:\\");
    assert_eq!(UefiBootManager::copy_entry_args("Project Isekai"), vec!["/copy", "{bootmgr}", "/d", "Project Isekai"]);
    assert_eq!(UefiBootManager::efi_boot_dir("S"), "S:\\EFI\\Boot");
    assert_eq!(
        LegacyBootManager::entry_commands("{g}", "C:\\")[0],
        vec!["/set", "{g}", "device", "partition=C:"]
    );
    assert_eq!(UefiBootManager::entry_commands("{g}", "S:", "P")[3], vec!["/set", "{fwbootmgr}", "displayorder", "{g}", "/addfirst"]);
}

#[test]
fn boot_entries_to_delete() {
    let out = "Windows Boot Manager\n--------------------\nidentifier              {bootmgr}\ndescription             Project Isekai\n\nFirmware Application (101fffff)\n-------------------------------\nidentifier              {1234-abcd}\ndescription             Project Isekai\n\nWindows Boot Loader\n-------------------\nidentifier              {current}\ndescription             Windows 11\n";
    assert_eq!(guids_to_delete(out, "Project Isekai"), Some(vec!["{1234-abcd}".to_string()]));
    assert_eq!(guids_to_delete(out, "Nothing"), Some(vec![]));
}

#[test]
fn gib_planner_matches_mib_planner() {
    let parts = vec![ntfs("1", 1048576, 53687091200)];
    let gib = get_contiguous_install_plan(107374182400, &parts, 53688139776, 1, 20);
    let mib = PartitionPlanner::get_contiguous_install_plan(107374182400, &parts, 53688139776, 1024, 20480);
    assert_eq!(gib, mib);
    assert_eq!(calculate_required_shrink_bytes(20, 1), PartitionPlanner::calculate_required_shrink_bytes(20480, 1024));
}

#[test]
fn windows_shrink_sequence() {
    assert_eq!(WindowsDiskManager::shrink_next(ShrinkStep::ResizePartition, true), ShrinkNext::Done);
    assert_eq!(WindowsDiskManager::shrink_next(ShrinkStep::ResizePartition, false), ShrinkNext::RunDiskpartFallback);
    assert_eq!(WindowsDiskManager::shrink_next(ShrinkStep::DiskpartShrink, true), ShrinkNext::CheckSize);
    assert_eq!(WindowsDiskManager::shrink_next(ShrinkStep::DiskpartShrink, false), ShrinkNext::Fail);
    let ok = ShrinkStep::SizeChecked(ShrinkCheck::WithinTolerance);
    let silent = ShrinkStep::SizeChecked(ShrinkCheck::SilentFailure);
    assert_eq!(WindowsDiskManager::shrink_next(ok, true), ShrinkNext::Done);
    assert_eq!(WindowsDiskManager::shrink_next(silent, true), ShrinkNext::Fail);
}

#[test]
fn linux_shrink_sequence() {
    assert_eq!(shrink_start(&get_shrink_strategy("ext4")), LinuxShrinkNext::CheckFilesystem);
    assert_eq!(shrink_start(&get_shrink_strategy("btrfs")), LinuxShrinkNext::ResizeFilesystem);
    assert_eq!(shrink_start(&get_shrink_strategy("xfs")), LinuxShrinkNext::Fail);
    assert_eq!(shrink_next(LinuxShrinkStep::FilesystemChecked, true), LinuxShrinkNext::ResizeFilesystem);
    assert_eq!(shrink_next(LinuxShrinkStep::FilesystemResized, true), LinuxShrinkNext::MovePartitionEnd);
    assert_eq!(shrink_next(LinuxShrinkStep::PartitionEndMoved, true), LinuxShrinkNext::RereadTable);
    assert_eq!(shrink_next(LinuxShrinkStep::TableReread, true), LinuxShrinkNext::Done);
    assert_eq!(shrink_next(LinuxShrinkStep::FilesystemChecked, false), LinuxShrinkNext::Fail);
    assert_eq!(shrink_next(LinuxShrinkStep::TableReread, false), LinuxShrinkNext::Fail);
}

#[test]
fn room_after_anchor_is_used_without_touching_partitions() {
    let gib: u64 = 1 << 30;
    let first = ntfs("1", 1048576, 50 * gib);
    let second = ntfs("2", 120 * gib, 10 * gib);
    let anchor = first.offset_bytes + first.size_bytes;
    let parts = vec![first, second];
    let plan = PartitionPlanner::get_contiguous_install_plan(200 * gib, &parts, anchor, 512, 20480);
    assert!(plan.has_boot_space && plan.has_requested_linux_space);
    let start = plan.boot_partition_offset_bytes - plan.linux_space_bytes;
    assert_eq!(start, anchor);
    let end = plan.boot_partition_offset_bytes + 512 * 1048576 + 16 * 1048576;
    assert!(end <= 120 * gib);
    assert_eq!(plan.boot_partition_offset_bytes % 1048576, 0);
}

#[test]
fn checked_end_sector_values() {
    assert_eq!(LinuxDiskManager::checked_end_sector(2048, 10, 512), Some(21178368));
    assert_eq!(LinuxDiskManager::end_sector(2048, 10, 512), 21178368);
    assert_eq!(LinuxDiskManager::checked_end_sector(2048, 10, 4096), Some(2048 + 2621440 + 25600));
    assert_eq!(LinuxDiskManager::checked_end_sector(2048, 10, 0), None);
    assert_eq!(LinuxDiskManager::checked_end_sector(u64::MAX, 1, 512), None);
}

#[test]
fn size_strings_integer_forms() {
    assert!(matches!(parse_size_string("\t 12   kib \n"), Some(SizeText::Bytes(12288))));
    assert!(matches!(parse_size_string("3Gb"), Some(SizeText::Bytes(3221225472))));
    assert!(matches!(parse_size_string("4 t"), Some(SizeText::Bytes(4398046511104))));
    assert!(matches!(parse_size_string("0B"), Some(SizeText::Bytes(0))));
    assert!(matches!(parse_size_string("007M"), Some(SizeText::Bytes(7340032))));
    assert!(matches!(parse_size_string("18446744073709551615"), Some(SizeText::Bytes(18446744073709551615))));
    assert!(parse_size_string("18446744073709551615k").is_none());
}

#[test]
fn size_strings_rejected_forms() {
    for s in ["", "   ", "-1G", "+5G", "12X", "16E", "1e3", "G", "1.2.3G", "."] {
        assert!(parse_size_string(s).is_none(), "{:?} should be rejected", s);
    }
}
