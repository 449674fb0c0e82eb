use isekai::events::{log_line, IPCEvent, LogSeverity, Logger, TelemetryLevel};
use isekai::models::{BitLockerState, DiskError, Partition};
use isekai::saga::{
    begin_installation, compensation_command_of, next_install_action, Compensation, InstallAction, InstallStep,
    RollbackCommand, SagaOrchestrator,
};
use isekai::workflow::{
    not_bootable_error, ExecutableWorkflow, ShrinkInstallWorkflow, UninstallWorkflow, WorkflowGuard, WorkflowRunner,
    WorkflowType, MB_BYTES, PAYLOAD_BUFFER_BYTES,
};

fn workflow(iso_path: &str) -> ShrinkInstallWorkflow {
    ShrinkInstallWorkflow { disk_id: "0".to_string(), partition_id: "3".to_string(), iso_path: iso_path.to_string() }
}

fn partition(id: &str, letter: Option<&str>, size_bytes: u64, state: BitLockerState) -> Partition {
    Partition {
        id: id.to_string(),
        drive_letter: letter.map(|l| l.to_string()),
        size_gb: (size_bytes / 1024 / 1024 / 1024) as u32,
        file_system: "NTFS".to_string(),
        label: "C: (Windows/NTFS)".to_string(),
        offset_bytes: 1048576,
        size_bytes,
        free_bytes: 0,
        bitlocker_state: state,
    }
}

#[test]
fn event_messages() {
    assert_eq!(
        IPCEvent::WorkflowStarted { workflow_type: WorkflowType::ShrinkAndInstall }.message(),
        "Starting workflow: ShrinkAndInstall"
    );
    assert_eq!(IPCEvent::WorkflowEnded { success: false, message: None }.message(), "Workflow completed. Success: false");
    assert_eq!(
        IPCEvent::StepShrinkingPartition { partition_id: "3".to_string() }.message(),
        "Shrinking Windows partition 3..."
    );
    assert_eq!(
        IPCEvent::ProgressCopyingPayload { copied_bytes: 1, total_bytes: 2, percent: 42 }.message(),
        "Copying Payload: 42%"
    );
    assert_eq!(
        IPCEvent::ProgressDownload { downloaded_bytes: 5, total_bytes: 10, percent: 50, eta_seconds: 120 }.message(),
        "Downloading: 50% (ETA: 120s)"
    );
    assert_eq!(IPCEvent::Warning { message: "careful".to_string() }.message(), "careful");
    assert_eq!(IPCEvent::StepMountingISO.message(), "Mounting and verifying ISO payload...");
}

#[test]
fn event_levels() {
    assert_eq!(IPCEvent::WorkflowStarted { workflow_type: WorkflowType::Uninstall }.level(), TelemetryLevel::Start);
    assert_eq!(IPCEvent::WorkflowEnded { success: true, message: None }.level(), TelemetryLevel::End);
    assert_eq!(IPCEvent::StepCopyingPayload.level(), TelemetryLevel::Step);
    assert_eq!(IPCEvent::Warning { message: String::new() }.level(), TelemetryLevel::Warn);
    assert_eq!(IPCEvent::SystemHardwareChanged.level(), TelemetryLevel::Info);
    assert_eq!(
        IPCEvent::ProgressCopyingPayload { copied_bytes: 0, total_bytes: 0, percent: 0 }.level(),
        TelemetryLevel::Progress
    );
}

#[test]
fn log_lines_carry_prefixes() {
    assert_eq!(log_line(TelemetryLevel::Start, "go"), (LogSeverity::Info, "[START] go".to_string()));
    assert_eq!(log_line(TelemetryLevel::Step, "go"), (LogSeverity::Info, ">>> go".to_string()));
    assert_eq!(log_line(TelemetryLevel::End, "go"), (LogSeverity::Info, "[END] go".to_string()));
    assert_eq!(log_line(TelemetryLevel::Progress, "go"), (LogSeverity::Debug, "[PROGRESS] go".to_string()));
    assert_eq!(log_line(TelemetryLevel::Warn, "go"), (LogSeverity::Warn, "go".to_string()));
}

#[test]
fn logger_defaults() {
    assert_eq!(Logger::default_filter(true), "debug,rustyline=warn,wmi=warn");
    assert_eq!(Logger::default_filter(false), "info,rustyline=warn,wmi=warn");
    assert_eq!(Logger::log_file_name(), "daemon.log");
    assert!(Logger::console_shows_time(true));
}

#[test]
fn guard_reports_start_and_single_end() {
    let (guard, start) = WorkflowGuard::start(WorkflowType::WipeDisk);
    assert!(matches!(start, IPCEvent::WorkflowStarted { workflow_type: WorkflowType::WipeDisk }));
    match guard.drop_event() {
        Some(IPCEvent::WorkflowEnded { success, message }) => {
            assert!(!success);
            assert_eq!(message.as_deref(), Some("Workflow was unexpectedly terminated or panicked."));
        }
        other => panic!("unexpected {:?}", other),
    }
    match guard.finish(true, None) {
        IPCEvent::WorkflowEnded { success, message } => {
            assert!(success);
            assert!(message.is_none());
        }
        other => panic!("unexpected {:?}", other),
    }
}

#[test]
fn runner_reports_success_and_failure() {
    let (guard, start) = WorkflowRunner::begin(UninstallWorkflow { disk_id: "1".to_string() }.workflow_type());
    assert!(matches!(start, IPCEvent::WorkflowStarted { workflow_type: WorkflowType::Uninstall }));
    let (result, end) = WorkflowRunner::conclude(guard, Ok(()));
    assert!(result.is_ok());
    assert!(matches!(end, IPCEvent::WorkflowEnded { success: true, message: None }));

    let (guard, _) = WorkflowRunner::begin(WorkflowType::ShrinkAndInstall);
    let (result, end) = WorkflowRunner::conclude(guard, Err(DiskError::DiskNotFound("7".to_string())));
    assert!(matches!(result, Err(DiskError::DiskNotFound(ref d)) if d == "7"));
    match end {
        IPCEvent::WorkflowEnded { success, message } => {
            assert!(!success);
            assert_eq!(message.as_deref(), Some("Disk 7 was not found"));
        }
        other => panic!("unexpected {:?}", other),
    }
}

#[test]
fn workflow_kinds() {
    assert_eq!(workflow("x.iso").workflow_type(), WorkflowType::ShrinkAndInstall);
    assert_eq!(UninstallWorkflow { disk_id: "0".to_string() }.workflow_type(), WorkflowType::Uninstall);
}

#[test]
fn mounted_drive_paths() {
    assert!(workflow("E:").is_pre_mounted());
    assert!(workflow("E:\\").is_pre_mounted());
    assert!(!workflow("E").is_pre_mounted());
    assert!(!workflow("C:\\a.iso").is_pre_mounted());
    assert!(!workflow("ÉÉ:").is_pre_mounted());
    assert!(workflow("É:").is_pre_mounted());
    assert_eq!(workflow("E:\\").mounted_drive_letter(), "E:");
}

#[test]
fn requirements_add_buffer() {
    let (required, boot_mb) = ShrinkInstallWorkflow::calculate_requirements(4 * 1024 * MB_BYTES).unwrap();
    assert_eq!(required, 4 * 1024 * MB_BYTES + PAYLOAD_BUFFER_BYTES);
    assert_eq!(boot_mb, 4096 + 512);
    match ShrinkInstallWorkflow::calculate_requirements(0) {
        Err(DiskError::DataValidation(m)) => assert_eq!(m, "Failed to read ISO contents or ISO is empty."),
        other => panic!("unexpected {:?}", other),
    }
    let (_, boot_mb) = ShrinkInstallWorkflow::calculate_requirements(1).unwrap();
    assert_eq!(boot_mb, 512);
}

#[test]
fn target_partition_found_by_id() {
    let parts = vec![
        partition("1", None, 100 * MB_BYTES, BitLockerState::Unprotected),
        partition("3", Some("C:"), 200 * MB_BYTES, BitLockerState::Unprotected),
    ];
    assert_eq!(workflow("x").find_target(&parts).unwrap(), 1);
    let mut w = workflow("x");
    w.partition_id = "9".to_string();
    match w.find_target(&parts) {
        Err(DiskError::PartitionNotFound(p, d)) => {
            assert_eq!(p, "9");
            assert_eq!(d, "0");
        }
        other => panic!("unexpected {:?}", other),
    }
}

#[test]
fn preflight_space_and_bitlocker() {
    let small = partition("3", Some("C:"), 1000 * MB_BYTES, BitLockerState::Unprotected);
    match ShrinkInstallWorkflow::check_space(&small, 1000 * MB_BYTES) {
        Err(DiskError::InsufficientSpace { required, available }) => {
            assert_eq!(required, 1000);
            assert_eq!(available, 1000);
        }
        other => panic!("unexpected {:?}", other),
    }
    let big = partition("3", Some("C:"), 5000 * MB_BYTES, BitLockerState::Unprotected);
    assert!(ShrinkInstallWorkflow::check_space(&big, 1000 * MB_BYTES).is_ok());
    match ShrinkInstallWorkflow::check_unprotected(BitLockerState::Protected) {
        Err(DiskError::DriveEncrypted(m)) => {
            assert_eq!(m, "BitLocker must be disabled or suspended before starting the installation.")
        }
        other => panic!("unexpected {:?}", other),
    }
    assert!(ShrinkInstallWorkflow::check_unprotected(BitLockerState::Locked).is_err());
    assert!(ShrinkInstallWorkflow::check_unprotected(BitLockerState::Unprotected).is_ok());
}

#[test]
fn insufficient_space_message_names_units_as_written() {
    let e = DiskError::InsufficientSpace { required: 5, available: 3 };
    assert_eq!(e.message(), "Insufficient space: need 5GB, has 3GB");
}

#[test]
fn target_letter_defaults_to_c() {
    let p = partition("3", None, 0, BitLockerState::Unprotected);
    assert_eq!(ShrinkInstallWorkflow::target_letter(&p), "C:");
    let p = partition("3", Some("D:"), 0, BitLockerState::Unprotected);
    assert_eq!(ShrinkInstallWorkflow::target_letter(&p), "D:");
}

#[test]
fn shrink_floor_refusal() {
    assert!(ShrinkInstallWorkflow::check_shrink_floor(10 * MB_BYTES, 10 * MB_BYTES).is_ok());
    match ShrinkInstallWorkflow::check_shrink_floor(5 * MB_BYTES, 30 * MB_BYTES + 1) {
        Err(DiskError::DataValidation(m)) => assert_eq!(
            m,
            "Windows refuses to shrink the volume this much due to unmoveable system files. The smallest possible size is 30MB"
        ),
        other => panic!("unexpected {:?}", other),
    }
}

#[test]
fn disk_numbers() {
    assert_eq!(workflow("x").disk_number().unwrap(), 0);
    let mut w = workflow("x");
    w.disk_id = "+12".to_string();
    assert_eq!(w.disk_number().unwrap(), 12);
    w.disk_id = "disk1".to_string();
    match w.disk_number() {
        Err(DiskError::DataValidation(m)) => assert_eq!(m, "Invalid Disk ID parameter"),
        other => panic!("unexpected {:?}", other),
    }
    w.disk_id = "4294967296".to_string();
    assert!(w.disk_number().is_err());
}

#[test]
fn payload_size_leaves_room_for_driver_partition() {
    assert_eq!(ShrinkInstallWorkflow::payload_size_mb(4608, true), 4558);
    assert_eq!(ShrinkInstallWorkflow::payload_size_mb(4608, false), 4608);
    assert_eq!(ShrinkInstallWorkflow::payload_size_mb(30, true), 0);
}

#[test]
fn boot_target_drive_by_firmware() {
    let p = partition("3", Some("C:"), 0, BitLockerState::Unprotected);
    assert_eq!(ShrinkInstallWorkflow::boot_target_drive(true, &Some("F:".to_string()), &p).unwrap(), "F:");
    match ShrinkInstallWorkflow::boot_target_drive(true, &None, &p) {
        Err(DiskError::DataValidation(m)) => assert_eq!(m, "Missing FAT32 EFI partition letter"),
        other => panic!("unexpected {:?}", other),
    }
    assert_eq!(ShrinkInstallWorkflow::boot_target_drive(false, &None, &p).unwrap(), "C:");
}

#[test]
fn not_bootable_message() {
    match not_bootable_error() {
        DiskError::DataValidation(m) => assert_eq!(m, "ISO is not bootable or missing EFI/boot configuration."),
        other => panic!("unexpected {:?}", other),
    }
}

#[test]
fn saga_rolls_back_last_first() {
    let mut saga = SagaOrchestrator::new();
    saga.push(Compensation::RestoreBcdBackup { backup_path: "bcd.bak".to_string() });
    saga.push(Compensation::ExtendSystemPartition { disk_id: "0".to_string(), partition_id: "3".to_string() });
    saga.push(Compensation::DeletePartitions { disk_id: 0, is_uefi: true });
    let order = saga.into_rollback_order();
    assert_eq!(
        order,
        vec![
            Compensation::DeletePartitions { disk_id: 0, is_uefi: true },
            Compensation::ExtendSystemPartition { disk_id: "0".to_string(), partition_id: "3".to_string() },
            Compensation::RestoreBcdBackup { backup_path: "bcd.bak".to_string() },
        ]
    );
    assert!(SagaOrchestrator::new().into_rollback_order().is_empty());
}

#[test]
fn compensation_commands() {
    assert_eq!(
        compensation_command_of(&Compensation::DeletePartitions { disk_id: 2, is_uefi: false }),
        RollbackCommand::Diskpart {
            script: "select disk 2\nselect volume LINUX_LIVE\ndelete volume\nselect volume LINUX_EFI\ndelete volume\nexit\n"
                .to_string(),
            identifier: "rollback_2".to_string(),
        }
    );
    assert_eq!(
        compensation_command_of(&Compensation::ExtendSystemPartition { disk_id: "0".to_string(), partition_id: "3".to_string() }),
        RollbackCommand::Diskpart {
            script: "select disk 0\nselect partition 3\nextend\nexit\n".to_string(),
            identifier: "extend_0".to_string(),
        }
    );
    assert_eq!(
        compensation_command_of(&Compensation::RestoreBcdBackup { backup_path: "C:\\b.bak".to_string() }),
        RollbackCommand::Bcdedit {
            args: vec!["/import".to_string(), "C:\\b.bak".to_string()],
            remove_after: "C:\\b.bak".to_string(),
        }
    );
}

#[test]
fn error_messages() {
    assert_eq!(DiskError::DriveEncrypted("D:".to_string()).message(), "Drive D: is locked by BitLocker or LUKS");
    assert_eq!(DiskError::PermissionDenied.message(), "OS Permission denied. Are we running as Admin/Root?");
    assert_eq!(DiskError::PartitionNotFound("3".to_string(), "0".to_string()).message(), "Partition 3 was not found on disk 0");
    assert_eq!(DiskError::DataValidation("x".to_string()).message(), "x");
    let os = DiskError::OsError(std::io::Error::new(std::io::ErrorKind::Other, "boom"));
    assert!(os.message().starts_with("Underlying OS error: "));
}

fn shrunk() -> InstallStep {
    InstallStep::PartitionShrunk { disk_id: "0".to_string(), partition_id: "3".to_string() }
}

#[test]
fn installation_registers_undo_after_each_disk_change() {
    let mut saga = begin_installation("C:\\bcd.bak".to_string());
    assert_eq!(next_install_action(&mut saga, InstallStep::DiskNumberRead, true), InstallAction::Continue);
    assert_eq!(next_install_action(&mut saga, shrunk(), true), InstallAction::Continue);
    let created = InstallStep::PartitionsCreated { disk_id: 0, is_uefi: true };
    assert_eq!(next_install_action(&mut saga, created, true), InstallAction::Continue);
    assert_eq!(next_install_action(&mut saga, InstallStep::PayloadCopied, true), InstallAction::Continue);
    assert_eq!(next_install_action(&mut saga, InstallStep::BootConfigWritten, true), InstallAction::Done);
    assert_eq!(
        saga.into_rollback_order(),
        vec![
            Compensation::DeletePartitions { disk_id: 0, is_uefi: true },
            Compensation::ExtendSystemPartition { disk_id: "0".to_string(), partition_id: "3".to_string() },
            Compensation::RestoreBcdBackup { backup_path: "C:\\bcd.bak".to_string() },
        ]
    );
}

#[test]
fn failed_shrink_fails_without_rollback() {
    let mut saga = begin_installation("b".to_string());
    assert_eq!(next_install_action(&mut saga, InstallStep::DiskNumberRead, false), InstallAction::Fail);
    assert_eq!(next_install_action(&mut saga, shrunk(), false), InstallAction::Fail);
    assert_eq!(saga.into_rollback_order(), vec![Compensation::RestoreBcdBackup { backup_path: "b".to_string() }]);
}

#[test]
fn failures_after_the_shrink_roll_back() {
    let mut saga = begin_installation("b".to_string());
    assert_eq!(next_install_action(&mut saga, shrunk(), true), InstallAction::Continue);
    let created = InstallStep::PartitionsCreated { disk_id: 1, is_uefi: false };
    assert_eq!(next_install_action(&mut saga, created, false), InstallAction::Abort);
    assert_eq!(next_install_action(&mut saga, InstallStep::PayloadCopied, false), InstallAction::Abort);
    assert_eq!(next_install_action(&mut saga, InstallStep::BootDriveChosen, false), InstallAction::Fail);
    assert_eq!(next_install_action(&mut saga, InstallStep::BootBinariesInjected, false), InstallAction::Abort);
    assert_eq!(next_install_action(&mut saga, InstallStep::WindowsBcdPatched, false), InstallAction::Abort);
    assert_eq!(next_install_action(&mut saga, InstallStep::BootConfigWritten, false), InstallAction::Abort);
    assert_eq!(saga.into_rollback_order().len(), 2);
}
