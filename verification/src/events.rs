//! Telemetry: the events a workflow reports, their messages, and how each
//! is written to the log.
use vstd::prelude::*;
use crate::text::{decimal, decimal_string, push_str};
use crate::workflow::WorkflowType;

verus! {

/// How an event is logged.
#[derive(Debug, Clone, Copy, PartialEq, Eq, Structural)]
pub enum TelemetryLevel {
    Error,
    Warn,
    Info,
    Debug,
    Trace,
    /// A workflow began.
    Start,
    /// A workflow entered a new step.
    Step,
    /// A workflow ended.
    End,
    /// Progress of a long step.
    Progress,
}

/// The severity a log line is written with.
#[derive(Debug, Clone, Copy, PartialEq, Eq, Structural)]
pub enum LogSeverity {
    Error,
    Warn,
    Info,
    Debug,
    Trace,
}

/// The severity and the text prefix of each level.
pub open spec fn log_format(level: TelemetryLevel) -> (LogSeverity, Seq<char>) {
    match level {
        TelemetryLevel::Error => (LogSeverity::Error, Seq::empty()),
        TelemetryLevel::Warn => (LogSeverity::Warn, Seq::empty()),
        TelemetryLevel::Info => (LogSeverity::Info, Seq::empty()),
        TelemetryLevel::Debug => (LogSeverity::Debug, Seq::empty()),
        TelemetryLevel::Trace => (LogSeverity::Trace, Seq::empty()),
        TelemetryLevel::Start => (LogSeverity::Info, "[START] "@),
        TelemetryLevel::Step => (LogSeverity::Info, ">>> "@),
        TelemetryLevel::End => (LogSeverity::Info, "[END] "@),
        TelemetryLevel::Progress => (LogSeverity::Debug, "[PROGRESS] "@),
    }
}

/// The log line of a message at `level`, and the severity it is written
/// with.
pub fn log_line(level: TelemetryLevel, message: &str) -> (r: (LogSeverity, String))
    ensures
        r.0 == log_format(level).0,
        r.1@ == log_format(level).1 + message@,
{
    let (severity, prefix) = match level {
        TelemetryLevel::Error => (LogSeverity::Error, ""),
        TelemetryLevel::Warn => (LogSeverity::Warn, ""),
        TelemetryLevel::Info => (LogSeverity::Info, ""),
        TelemetryLevel::Debug => (LogSeverity::Debug, ""),
        TelemetryLevel::Trace => (LogSeverity::Trace, ""),
        TelemetryLevel::Start => (LogSeverity::Info, "[START] "),
        TelemetryLevel::Step => (LogSeverity::Info, ">>> "),
        TelemetryLevel::End => (LogSeverity::Info, "[END] "),
        TelemetryLevel::Progress => (LogSeverity::Debug, "[PROGRESS] "),
    };
    proof {
        reveal_strlit("");
    }
    let mut out = String::from_str(prefix);
    push_str(&mut out, message);
    (severity, out)
}

/// What a workflow reports to the log and to a connected client.
#[allow(non_camel_case_types)]
#[derive(Debug, Clone)]
pub enum IPCEvent {
    WorkflowStarted { workflow_type: WorkflowType },
    WorkflowEnded { success: bool, message: Option<String> },
    StepCleaningBootloader,
    StepDeletingPartitions,
    StepMountingISO,
    StepCalculatingSpace,
    StepPreFlightChecks,
    StepShrinkingPartition { partition_id: String },
    StepCreatingBootPartitions,
    StepCopyingPayload,
    StepConfiguringBootloader,
    Warning { message: String },
    ProgressCopyingPayload { copied_bytes: u64, total_bytes: u64, percent: u8 },
    SystemHardwareChanged,
    StepInitializingDownload,
    ProgressDownload { downloaded_bytes: u64, total_bytes: u64, percent: u8, eta_seconds: u64 },
}

/// The name a workflow type is printed with.
pub open spec fn workflow_type_name(t: WorkflowType) -> Seq<char> {
    match t {
        WorkflowType::ShrinkAndInstall => "ShrinkAndInstall"@,
        WorkflowType::DownloadIso => "DownloadIso"@,
        WorkflowType::WipeDisk => "WipeDisk"@,
        WorkflowType::Uninstall => "Uninstall"@,
    }
}

/// `true` or `false`.
pub open spec fn bool_text(b: bool) -> Seq<char> {
    if b { "true"@ } else { "false"@ }
}

/// The level of an event.
pub open spec fn event_level(e: IPCEvent) -> TelemetryLevel {
    match e {
        IPCEvent::WorkflowStarted { .. } => TelemetryLevel::Start,
        IPCEvent::WorkflowEnded { .. } => TelemetryLevel::End,
        IPCEvent::Warning { .. } => TelemetryLevel::Warn,
        IPCEvent::ProgressCopyingPayload { .. } => TelemetryLevel::Progress,
        IPCEvent::ProgressDownload { .. } => TelemetryLevel::Progress,
        IPCEvent::SystemHardwareChanged => TelemetryLevel::Info,
        _ => TelemetryLevel::Step,
    }
}

/// The human-readable message of an event.
pub open spec fn event_message(e: IPCEvent) -> Seq<char> {
    match e {
        IPCEvent::WorkflowStarted { workflow_type } => "Starting workflow: "@ + workflow_type_name(workflow_type),
        IPCEvent::WorkflowEnded { success, .. } => "Workflow completed. Success: "@ + bool_text(success),
        IPCEvent::StepCleaningBootloader => "Cleaning Windows Boot Manager entries..."@,
        IPCEvent::StepDeletingPartitions => "Deleting partitions and reclaiming space..."@,
        IPCEvent::StepMountingISO => "Mounting and verifying ISO payload..."@,
        IPCEvent::StepCalculatingSpace => "Analyzing disk space requirements..."@,
        IPCEvent::StepPreFlightChecks => "Running pre-flight checks and verifying filesystem..."@,
        IPCEvent::StepShrinkingPartition { partition_id } => "Shrinking Windows partition "@ + partition_id@ + "..."@,
        IPCEvent::StepCreatingBootPartitions => "Creating live boot partitions..."@,
        IPCEvent::StepCopyingPayload => "Cloning OS payload to new partition..."@,
        IPCEvent::StepConfiguringBootloader => "Configuring Windows Boot Manager..."@,
        IPCEvent::Warning { message } => message@,
        IPCEvent::ProgressCopyingPayload { percent, .. } => "Copying Payload: "@ + decimal(percent as nat) + "%"@,
        IPCEvent::SystemHardwareChanged => "Hardware changes detected. Refreshing system state..."@,
        IPCEvent::StepInitializingDownload => "Initializing download connection..."@,
        IPCEvent::ProgressDownload { percent, eta_seconds, .. } => "Downloading: "@ + decimal(percent as nat) + "% (ETA: "@
            + decimal(eta_seconds as nat) + "s)"@,
    }
}

impl IPCEvent {
    /// The level the event is logged at.
    pub fn level(&self) -> (r: TelemetryLevel)
        ensures
            r == event_level(*self),
    {
        match self {
            IPCEvent::WorkflowStarted { .. } => TelemetryLevel::Start,
            IPCEvent::WorkflowEnded { .. } => TelemetryLevel::End,
            IPCEvent::Warning { .. } => TelemetryLevel::Warn,
            IPCEvent::ProgressCopyingPayload { .. } => TelemetryLevel::Progress,
            IPCEvent::ProgressDownload { .. } => TelemetryLevel::Progress,
            IPCEvent::SystemHardwareChanged => TelemetryLevel::Info,
            _ => TelemetryLevel::Step,
        }
    }

    /// The event's message.
    pub fn message(&self) -> (r: String)
        ensures
            r@ == event_message(*self),
    {
        match self {
            IPCEvent::WorkflowStarted { workflow_type } => {
                let mut out = String::from_str("Starting workflow: ");
                let name = match workflow_type {
                    WorkflowType::ShrinkAndInstall => "ShrinkAndInstall",
                    WorkflowType::DownloadIso => "DownloadIso",
                    WorkflowType::WipeDisk => "WipeDisk",
                    WorkflowType::Uninstall => "Uninstall",
                };
                push_str(&mut out, name);
                out
            },
            IPCEvent::WorkflowEnded { success, .. } => {
                let mut out = String::from_str("Workflow completed. Success: ");
                push_str(&mut out, if *success { "true" } else { "false" });
                out
            },
            IPCEvent::StepCleaningBootloader => String::from_str("Cleaning Windows Boot Manager entries..."),
            IPCEvent::StepDeletingPartitions => String::from_str("Deleting partitions and reclaiming space..."),
            IPCEvent::StepMountingISO => String::from_str("Mounting and verifying ISO payload..."),
            IPCEvent::StepCalculatingSpace => String::from_str("Analyzing disk space requirements..."),
            IPCEvent::StepPreFlightChecks => String::from_str(
                "Running pre-flight checks and verifying filesystem...",
            ),
            IPCEvent::StepShrinkingPartition { partition_id } => {
                let mut out = String::from_str("Shrinking Windows partition ");
                push_str(&mut out, partition_id.as_str());
                push_str(&mut out, "...");
                out
            },
            IPCEvent::StepCreatingBootPartitions => String::from_str("Creating live boot partitions..."),
            IPCEvent::StepCopyingPayload => String::from_str("Cloning OS payload to new partition..."),
            IPCEvent::StepConfiguringBootloader => String::from_str("Configuring Windows Boot Manager..."),
            IPCEvent::Warning { message } => String::from_str(message.as_str()),
            IPCEvent::ProgressCopyingPayload { percent, .. } => {
                let mut out = String::from_str("Copying Payload: ");
                let p = decimal_string(*percent as u64);
                push_str(&mut out, p.as_str());
                push_str(&mut out, "%");
                out
            },
            IPCEvent::SystemHardwareChanged => String::from_str(
                "Hardware changes detected. Refreshing system state...",
            ),
            IPCEvent::StepInitializingDownload => String::from_str("Initializing download connection..."),
            IPCEvent::ProgressDownload { percent, eta_seconds, .. } => {
                let mut out = String::from_str("Downloading: ");
                let p = decimal_string(*percent as u64);
                push_str(&mut out, p.as_str());
                push_str(&mut out, "% (ETA: ");
                let e = decimal_string(*eta_seconds);
                push_str(&mut out, e.as_str());
                push_str(&mut out, "s)");
                out
            },
        }
    }
}

/// Sets up the log: the console and a daily file.
pub struct Logger;

impl Logger {
    /// The log filter used when the environment sets none: `debug` or
    /// `info`, with the line editor and WMI held to warnings.
    pub fn default_filter(debug_mode: bool) -> (r: String)
        ensures
            r@ == (if debug_mode { "debug"@ } else { "info"@ }) + ",rustyline=warn,wmi=warn"@,
    {
        let mut out = String::from_str(if debug_mode { "debug" } else { "info" });
        push_str(&mut out, ",rustyline=warn,wmi=warn");
        out
    }

    /// Whether console lines carry a time: only for the daemon.
    pub fn console_shows_time(is_daemon: bool) -> (r: bool)
        ensures
            r == is_daemon,
    {
        is_daemon
    }

    /// The name of the daily log file.
    pub fn log_file_name() -> (r: &'static str)
        ensures
            r@ == "daemon.log"@,
    {
        "daemon.log"
    }
}

} // verus!
