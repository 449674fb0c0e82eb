use std::collections::HashMap;
use isekai::ipc::{
    admit_installation, build_error, disks_response, distro_info_response, empty_success, outcome_response,
    partitions_response, AppState, IPCRequest, InstallSource, IpcServer, ResponseData, WorkflowSlot, PIPE_NAME,
};
use isekai::models::{Disk, DiskError, PublicConfig, WorkflowState};

#[test]
fn error_response_carries_id_and_message() {
    let r = build_error("req-1", "bad".to_string());
    assert_eq!(r.id, "req-1");
    assert!(!r.success);
    assert!(r.data.is_none());
    assert_eq!(r.error.as_deref(), Some("bad"));
}

#[test]
fn empty_success_response() {
    let r = empty_success("req-2");
    assert_eq!(r.id, "req-2");
    assert!(r.success);
    assert!(matches!(r.data, Some(ResponseData::Empty)));
    assert!(r.error.is_none());
}

#[test]
fn outcome_responses() {
    assert!(outcome_response("a", Ok(())).success);
    let r = outcome_response("a", Err(DiskError::DiskNotFound("9".to_string())));
    assert!(!r.success);
    assert_eq!(r.error.as_deref(), Some("Disk 9 was not found"));
}

#[test]
fn listing_responses() {
    let disk = Disk {
        stable_id: "0".to_string(),
        name: "Samsung".to_string(),
        total_gb: 476,
        free_gb: 0,
        is_system_drive: true,
        is_gpt: true,
    };
    let r = disks_response("d", Ok(vec![disk]));
    assert!(r.success);
    match r.data {
        Some(ResponseData::Disks(d)) => assert_eq!(d[0].name, "Samsung"),
        other => panic!("unexpected {:?}", other),
    }
    let r = partitions_response("p", Err(DiskError::PermissionDenied));
    assert!(!r.success);
    assert_eq!(r.error.as_deref(), Some("OS Permission denied. Are we running as Admin/Root?"));
    let mut info = HashMap::new();
    info.insert("fedora".to_string(), PublicConfig { available: true, version: "42".to_string(), secure_boot: true });
    let r = distro_info_response("i", info);
    assert!(r.success);
    assert!(matches!(r.data, Some(ResponseData::DistroInfo(ref m)) if m.len() == 1));
}

#[test]
fn request_ids() {
    assert_eq!(IPCRequest::GetDisks { id: "1".to_string() }.id(), "1");
    assert_eq!(
        IPCRequest::ShrinkInstallRemote {
            id: "7".to_string(),
            disk_id: "0".to_string(),
            partition_id: "3".to_string(),
            distro_id: "fedora".to_string()
        }
        .id(),
        "7"
    );
}

#[test]
fn one_installation_at_a_time() {
    let mut slot = WorkflowSlot::new();
    assert_eq!(slot.current(), None);
    assert!(slot.try_begin(InstallSource::Local).is_none());
    assert_eq!(slot.current(), Some(WorkflowState::Running));
    assert_eq!(slot.try_begin(InstallSource::Local).as_deref(), Some("A workflow is already running."));
    assert_eq!(slot.try_begin(InstallSource::Remote).as_deref(), Some("An installation is already running."));
    assert_eq!(slot.current(), Some(WorkflowState::Running));
    slot.end();
    assert_eq!(slot.current(), None);
    assert!(slot.try_begin(InstallSource::Remote).is_none());
}

#[test]
fn refused_installation_is_answered_with_an_error() {
    let mut slot = WorkflowSlot::new();
    assert!(admit_installation(&mut slot, "a", InstallSource::Local).is_none());
    let r = admit_installation(&mut slot, "b", InstallSource::Remote).unwrap();
    assert_eq!(r.id, "b");
    assert!(!r.success);
    assert_eq!(r.error.as_deref(), Some("An installation is already running."));
    assert_eq!(slot.current(), Some(WorkflowState::Running));
}

#[test]
fn pause_toggles_and_cancel_sticks() {
    let mut slot = WorkflowSlot::new();
    slot.toggle_pause();
    slot.cancel();
    assert_eq!(slot.current(), None);
    slot.try_begin(InstallSource::Local);
    slot.toggle_pause();
    assert_eq!(slot.current(), Some(WorkflowState::Paused));
    slot.toggle_pause();
    assert_eq!(slot.current(), Some(WorkflowState::Running));
    slot.cancel();
    assert_eq!(slot.current(), Some(WorkflowState::Cancelled));
    slot.toggle_pause();
    assert_eq!(slot.current(), Some(WorkflowState::Paused));
}

#[test]
fn idle_state_and_server() {
    let s = AppState::default();
    assert!(s.active_workflow.is_none() && s.current_step.is_none());
    let server = IpcServer::new(5u8, PIPE_NAME);
    assert_eq!(server.pipe_name, "\\\\.\\pipe\\isekai_daemon");
    assert_eq!(server.disk_manager, 5u8);
    assert!(server.state.progress_percent.is_none());
}
