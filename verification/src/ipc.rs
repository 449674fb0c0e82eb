//! The daemon's request protocol: the requests a client sends, the
//! responses it gets back, and the single slot that admits one installation
//! at a time and carries its pause and cancel requests.
use vstd::prelude::*;
use std::collections::HashMap;
use crate::events::IPCEvent;
use crate::models::{disk_views, is_error_message, partition_views, Disk, DiskError, Partition, PublicConfig, WorkflowState};

verus! {

/// A request of a client.
#[derive(Debug, Clone)]
pub enum IPCRequest {
    GetDisks { id: String },
    GetPartitions { id: String, disk_id: String },
    UnlockBitlocker { id: String, drive_letter: String },
    SuspendBitlocker { id: String, drive_letter: String },
    GetDistroInfo { id: String },
    ShrinkInstallLocal { id: String, disk_id: String, partition_id: String, iso_path: String },
    ShrinkInstallRemote { id: String, disk_id: String, partition_id: String, distro_id: String },
    PauseWorkflow { id: String },
    CancelWorkflow { id: String },
    Uninstall { id: String, disk_id: String },
}

/// The payload of a successful response.
#[derive(Debug)]
pub enum ResponseData {
    Disks(Vec<Disk>),
    Partitions(Vec<Partition>),
    DistroInfo(HashMap<String, PublicConfig>),
    Empty,
}

/// The answer to one request, carrying the request's identifier.
#[derive(Debug)]
pub struct IPCResponse {
    pub id: String,
    pub success: bool,
    pub data: Option<ResponseData>,
    pub error: Option<String>,
}

/// A message to the client: a response or an event.
#[derive(Debug)]
pub enum OutgoingMessage {
    Response(IPCResponse),
    Event { payload: IPCEvent },
}

/// The identifier of a request.
pub open spec fn request_id(r: IPCRequest) -> Seq<char> {
    match r {
        IPCRequest::GetDisks { id } => id@,
        IPCRequest::GetPartitions { id, .. } => id@,
        IPCRequest::UnlockBitlocker { id, .. } => id@,
        IPCRequest::SuspendBitlocker { id, .. } => id@,
        IPCRequest::GetDistroInfo { id } => id@,
        IPCRequest::ShrinkInstallLocal { id, .. } => id@,
        IPCRequest::ShrinkInstallRemote { id, .. } => id@,
        IPCRequest::PauseWorkflow { id } => id@,
        IPCRequest::CancelWorkflow { id } => id@,
        IPCRequest::Uninstall { id, .. } => id@,
    }
}

impl IPCRequest {
    /// The identifier the response to this request carries.
    pub fn id(&self) -> (r: &str)
        ensures
            r@ == request_id(*self),
    {
        match self {
            IPCRequest::GetDisks { id } => id.as_str(),
            IPCRequest::GetPartitions { id, .. } => id.as_str(),
            IPCRequest::UnlockBitlocker { id, .. } => id.as_str(),
            IPCRequest::SuspendBitlocker { id, .. } => id.as_str(),
            IPCRequest::GetDistroInfo { id } => id.as_str(),
            IPCRequest::ShrinkInstallLocal { id, .. } => id.as_str(),
            IPCRequest::ShrinkInstallRemote { id, .. } => id.as_str(),
            IPCRequest::PauseWorkflow { id } => id.as_str(),
            IPCRequest::CancelWorkflow { id } => id.as_str(),
            IPCRequest::Uninstall { id, .. } => id.as_str(),
        }
    }
}

/// Whether `r` is the failure response to request `id` with message `m`.
pub open spec fn is_error_response(r: IPCResponse, id: Seq<char>, m: Seq<char>) -> bool {
    &&& r.id@ == id
    &&& !r.success
    &&& r.data is None
    &&& r.error matches Some(e) && e@ == m
}

/// Whether `r` is the success response to request `id` with no payload.
pub open spec fn is_empty_success(r: IPCResponse, id: Seq<char>) -> bool {
    &&& r.id@ == id
    &&& r.success
    &&& r.data matches Some(ResponseData::Empty)
    &&& r.error is None
}

/// The failure response to request `id`.
pub fn build_error(id: &str, error_msg: String) -> (r: IPCResponse)
    ensures
        is_error_response(r, id@, error_msg@),
{
    IPCResponse { id: String::from_str(id), success: false, data: None, error: Some(error_msg) }
}

/// The success response to request `id` with no payload.
pub fn empty_success(id: &str) -> (r: IPCResponse)
    ensures
        is_empty_success(r, id@),
{
    IPCResponse { id: String::from_str(id), success: true, data: Some(ResponseData::Empty), error: None }
}

/// The response to request `id` after an operation without payload: empty
/// success, or the failure with the error's message.
pub fn outcome_response(id: &str, outcome: Result<(), DiskError>) -> (r: IPCResponse)
    ensures
        outcome is Ok ==> is_empty_success(r, id@),
        outcome matches Err(e) ==> r.id@ == id@ && !r.success && r.data is None && (r.error matches Some(m)
            && is_error_message(e, m@)),
{
    match outcome {
        Ok(()) => empty_success(id),
        Err(e) => build_error(id, e.message()),
    }
}

/// The response to a disk listing.
pub fn disks_response(id: &str, outcome: Result<Vec<Disk>, DiskError>) -> (r: IPCResponse)
    ensures
        r.id@ == id@,
        r.success == outcome is Ok,
        outcome matches Ok(d) ==> r.error is None && (r.data matches Some(ResponseData::Disks(x)) && disk_views(x@)
            == disk_views(d@)),
        outcome matches Err(e) ==> r.data is None && (r.error matches Some(m) && is_error_message(e, m@)),
{
    match outcome {
        Ok(disks) => IPCResponse {
            id: String::from_str(id),
            success: true,
            data: Some(ResponseData::Disks(disks)),
            error: None,
        },
        Err(e) => build_error(id, e.message()),
    }
}

/// The response to a partition listing.
pub fn partitions_response(id: &str, outcome: Result<Vec<Partition>, DiskError>) -> (r: IPCResponse)
    ensures
        r.id@ == id@,
        r.success == outcome is Ok,
        outcome matches Ok(p) ==> r.error is None && (r.data matches Some(ResponseData::Partitions(x))
            && partition_views(x@) == partition_views(p@)),
        outcome matches Err(e) ==> r.data is None && (r.error matches Some(m) && is_error_message(e, m@)),
{
    match outcome {
        Ok(parts) => IPCResponse {
            id: String::from_str(id),
            success: true,
            data: Some(ResponseData::Partitions(parts)),
            error: None,
        },
        Err(e) => build_error(id, e.message()),
    }
}

/// The response to a catalogue request; it always succeeds.
pub fn distro_info_response(id: &str, info: HashMap<String, PublicConfig>) -> (r: IPCResponse)
    ensures
        r.id@ == id@,
        r.success,
        r.error is None,
        r.data matches Some(ResponseData::DistroInfo(m)) && m@ == info@,
{
    IPCResponse { id: String::from_str(id), success: true, data: Some(ResponseData::DistroInfo(info)), error: None }
}

/// The slot of the one installation that may run at a time, with the
/// control state its workflow watches.
pub struct WorkflowSlot {
    active: Option<WorkflowState>,
}

/// Which installation a refusal names.
#[derive(Debug, Clone, Copy, PartialEq, Eq, Structural)]
pub enum InstallSource {
    /// From a local or mounted ISO image.
    Local,
    /// From a downloaded image.
    Remote,
}

/// The message of a refused installation.
pub open spec fn busy_message(source: InstallSource) -> Seq<char> {
    match source {
        InstallSource::Local => "A workflow is already running."@,
        InstallSource::Remote => "An installation is already running."@,
    }
}

/// The control state after a pause request: a paused workflow resumes,
/// any other is paused.
pub open spec fn toggled(s: WorkflowState) -> WorkflowState {
    if s == WorkflowState::Paused {
        WorkflowState::Running
    } else {
        WorkflowState::Paused
    }
}

impl WorkflowSlot {
    /// The control state of the installation in the slot, if any.
    pub closed spec fn state(&self) -> Option<WorkflowState> {
        self.active
    }

    /// An empty slot.
    pub fn new() -> (r: WorkflowSlot)
        ensures
            r.state() is None,
    {
        WorkflowSlot { active: None }
    }

    /// The control state of the installation in the slot, if any.
    pub fn current(&self) -> (r: Option<WorkflowState>)
        ensures
            r == self.state(),
    {
        self.active
    }

    /// Admits an installation: on an empty slot it starts running and
    /// `None` is returned; an occupied slot is left as it was and the
    /// refusal's message is returned.
    pub fn try_begin(&mut self, source: InstallSource) -> (r: Option<String>)
        ensures
            old(self).state() is None ==> r is None && final(self).state() == Some(WorkflowState::Running),
            old(self).state() is Some ==> (r matches Some(m) && m@ == busy_message(source)) && final(self).state()
                == old(self).state(),
    {
        if self.active.is_some() {
            let m = match source {
                InstallSource::Local => String::from_str("A workflow is already running."),
                InstallSource::Remote => String::from_str("An installation is already running."),
            };
            Some(m)
        } else {
            self.active = Some(WorkflowState::Running);
            None
        }
    }

    /// A pause request: toggles between paused and running (a cancelled
    /// workflow is paused); nothing happens on an empty slot.
    pub fn toggle_pause(&mut self)
        ensures
            final(self).state() == match old(self).state() {
                Some(s) => Some(toggled(s)),
                None => None,
            },
    {
        if let Some(s) = self.active {
            self.active = Some(if s == WorkflowState::Paused { WorkflowState::Running } else { WorkflowState::Paused });
        }
    }

    /// A cancel request: the running installation is told to cancel;
    /// nothing happens on an empty slot.
    pub fn cancel(&mut self)
        ensures
            final(self).state() == match old(self).state() {
                Some(_) => Some(WorkflowState::Cancelled),
                None => None,
            },
    {
        if self.active.is_some() {
            self.active = Some(WorkflowState::Cancelled);
        }
    }

    /// Frees the slot when the installation ends.
    pub fn end(&mut self)
        ensures
            final(self).state() is None,
    {
        self.active = None;
    }
}

/// Admits the installation requested by `id` into `slot`: `None` when it
/// may start (the slot now holds it, running), or the failure response that
/// answers the request when another installation holds the slot (which is
/// left untouched).
pub fn admit_installation(slot: &mut WorkflowSlot, id: &str, source: InstallSource) -> (r: Option<IPCResponse>)
    ensures
        old(slot).state() is None ==> r is None && final(slot).state() == Some(WorkflowState::Running),
        old(slot).state() is Some ==> (r matches Some(resp) && is_error_response(resp, id@, busy_message(source)))
            && final(slot).state() == old(slot).state(),
{
    match slot.try_begin(source) {
        Some(m) => Some(build_error(id, m)),
        None => None,
    }
}

/// Two pause requests in a row leave a running or paused installation as
/// it was.
pub proof fn lemma_pause_twice_restores(s: WorkflowState)
    requires
        s != WorkflowState::Cancelled,
    ensures
        toggled(toggled(s)) == s,
{
}

/// A pause request moves a cancelled installation to paused, and a second
/// one resumes it: the cancel is lost.
pub proof fn lemma_pause_after_cancel(s: WorkflowState)
    requires
        s == WorkflowState::Cancelled,
    ensures
        toggled(s) == WorkflowState::Paused,
        toggled(toggled(s)) == WorkflowState::Running,
{
}

/// The workflow kinds a client is told about.
#[derive(Debug, Clone, Copy, PartialEq, Eq, Structural)]
pub enum WorkflowType {
    ShrinkAndInstall,
    DownloadIso,
    WipeDisk,
}

/// What a client is shown of the daemon's activity.
#[derive(Debug, Clone)]
pub struct AppState {
    pub active_workflow: Option<WorkflowType>,
    pub current_step: Option<String>,
    pub last_message: Option<String>,
    pub progress_percent: Option<u8>,
}

impl Default for AppState {
    /// Idle: no workflow, step, message or progress.
    fn default() -> (r: AppState)
        ensures
            r.active_workflow is None,
            r.current_step is None,
            r.last_message is None,
            r.progress_percent is None,
    {
        AppState { active_workflow: None, current_step: None, last_message: None, progress_percent: None }
    }
}

/// The daemon's server: the disk manager its requests use, the name of the
/// pipe it listens on, and the activity it shows (shared by the connections
/// it serves).
pub struct IpcServer<M> {
    pub disk_manager: M,
    pub pipe_name: String,
    pub state: AppState,
}

impl<M> IpcServer<M> {
    /// A server for `disk_manager` on pipe `pipe_name`, idle.
    pub fn new(disk_manager: M, pipe_name: &str) -> (r: IpcServer<M>)
        ensures
            r.disk_manager == disk_manager,
            r.pipe_name@ == pipe_name@,
            r.state.active_workflow is None,
            r.state.current_step is None,
            r.state.last_message is None,
            r.state.progress_percent is None,
    {
        IpcServer { disk_manager, pipe_name: String::from_str(pipe_name), state: AppState::default() }
    }
}

/// The name of the daemon's pipe.
pub const PIPE_NAME: &'static str = "\\\\.\\pipe\\isekai_daemon";

} // verus!
