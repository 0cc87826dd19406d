//! The records the library hands to the interface.
use vstd::prelude::*;

verus! {

/// The answer to a liveness probe.
#[derive(Debug, Clone, PartialEq, Eq)]
pub struct HealthResponse {
    pub status: String,
}

/// One device as the device list shows it.
#[derive(Debug, Clone, PartialEq, Eq)]
pub struct DeviceSummary {
    pub id: String,
    pub udid: String,
    pub device_id: u32,
    pub connection: String,
    pub transports: Vec<String>,
    pub connectable: bool,
    pub paired: bool,
    pub name: Option<String>,
    pub model: Option<String>,
    pub ios: Option<String>,
}

/// The content of a [`DeviceSummary`].
pub struct DeviceSummaryView {
    pub id: Seq<char>,
    pub udid: Seq<char>,
    pub device_id: u32,
    pub connection: Seq<char>,
    pub transports: Seq<Seq<char>>,
    pub connectable: bool,
    pub paired: bool,
    pub name: Option<Seq<char>>,
    pub model: Option<Seq<char>>,
    pub ios: Option<Seq<char>>,
}

impl View for DeviceSummary {
    type V = DeviceSummaryView;

    open spec fn view(&self) -> DeviceSummaryView {
        DeviceSummaryView {
            id: self.id@,
            udid: self.udid@,
            device_id: self.device_id,
            connection: self.connection@,
            transports: self.transports.deep_view(),
            connectable: self.connectable,
            paired: self.paired,
            name: self.name.deep_view(),
            model: self.model.deep_view(),
            ios: self.ios.deep_view(),
        }
    }
}

/// A change in the device list, pushed to the interface.
#[derive(Debug, Clone, PartialEq, Eq)]
pub struct DeviceChangeEvent {
    pub kind: String,
    pub device: Option<DeviceSummary>,
    pub device_id: Option<u32>,
}

/// Storage capacity as AFC reports it.
#[derive(Debug, Clone, Copy, PartialEq, Eq, Structural)]
pub struct StorageSummary {
    pub total_bytes: u64,
    pub free_bytes: u64,
    pub used_bytes: u64,
    pub block_size: u64,
}

/// One entry of a device directory listing.
#[derive(Debug, Clone, PartialEq, Eq)]
pub struct RemoteFileEntry {
    pub name: String,
    pub path: String,
    pub kind: String,
    pub is_directory: bool,
    pub size: u64,
    pub modified: String,
    /// True when the entry is present in the directory but its metadata could
    /// not be read. The name is real; the size, kind, and timestamp are not.
    pub unreadable: bool,
}

/// An application that shares its documents through House Arrest.
#[derive(Debug, Clone, PartialEq, Eq)]
pub struct FileSharingApp {
    pub bundle_id: String,
    pub name: String,
}

/// One crash report in a listing.
#[derive(Debug, Clone, PartialEq, Eq)]
pub struct CrashReportSummary {
    pub name: String,
    pub path: String,
    pub kind: String,
    pub process: String,
    pub size_bytes: Option<u64>,
    pub modified: String,
}

/// The preview of one crash report.
#[derive(Debug, Clone, PartialEq, Eq)]
pub struct CrashReportContent {
    pub path: String,
    pub content: String,
    pub truncated: bool,
    pub size_bytes: u64,
}

/// Progress of a long operation, in whole percent.
#[derive(Debug, Clone, PartialEq, Eq)]
pub struct OperationProgress {
    pub operation: String,
    pub item: String,
    pub percent: u64,
}

/// One line of the live device log.
#[derive(Debug, Clone, PartialEq, Eq)]
pub struct DeviceLog {
    pub timestamp: String,
    pub level: String,
    pub process: String,
    pub pid: u32,
    pub message: String,
    pub subsystem: Option<String>,
    pub category: Option<String>,
}

/// The state of a long-running stream such as logs, JIT or location.
#[derive(Debug, Clone, PartialEq, Eq)]
pub struct StreamStatus {
    pub stream: String,
    pub state: String,
    pub message: Option<String>,
}

/// An application launched and attached for JIT.
#[derive(Debug, Clone, PartialEq, Eq)]
pub struct JitSession {
    pub bundle_id: String,
    pub pid: u64,
    pub response: Option<String>,
}

} // verus!
