//! The error every device command reports to the interface.
use vstd::prelude::*;

use idevice::IdeviceError;

verus! {

/// A failure reported to the interface: a machine-readable kind, a message for
/// the user, and whether repeating the same request can succeed.
#[derive(Debug, Clone)]
pub struct CommandError {
    pub kind: String,
    pub message: String,
    pub retryable: bool,
}

impl CommandError {
    /// Builds an error from its three parts.
    pub fn new(kind: &str, message: &str, retryable: bool) -> (e: CommandError)
        ensures
            e.kind@ == kind@,
            e.message@ == message@,
            e.retryable == retryable,
    {
        CommandError { kind: kind.to_owned(), message: message.to_owned(), retryable }
    }

    /// A device error: retryable exactly when the condition passes with time
    /// (the device is not found yet, has no connection yet, or is locked).
    pub fn from_device_condition(condition: DeviceCondition, message: String) -> (e: CommandError)
        ensures
            e.kind@ == "idevice"@,
            e.message@ == message@,
            e.retryable == !(condition is Other),
    {
        let retryable = match condition {
            DeviceCondition::DeviceNotFound => true,
            DeviceCondition::NoEstablishedConnection => true,
            DeviceCondition::DeviceLocked => true,
            DeviceCondition::Other => false,
        };
        CommandError { kind: "idevice".to_owned(), message, retryable }
    }

    /// The error a failed `idevice` call reports, with the library's own
    /// message for it.
    pub fn from_idevice(error: &IdeviceError) -> (e: CommandError)
        ensures
            e.kind@ == "idevice"@,
    {
        CommandError::from_device_condition(device_condition(error), idevice_message(error))
    }

    /// An error whose message is `prefix` followed by what went wrong.
    pub fn with_detail(kind: &str, prefix: &str, detail: &str, retryable: bool) -> (e: CommandError)
        ensures
            e.kind@ == kind@,
            e.message@ == prefix@ + detail@,
            e.retryable == retryable,
    {
        let mut message = prefix.to_owned();
        crate::text::append_str(&mut message, detail);
        CommandError { kind: kind.to_owned(), message, retryable }
    }

    /// A local I/O failure.
    pub fn io(message: &str) -> (e: CommandError)
        ensures
            e.kind@ == "io"@,
            e.message@ == message@,
            !e.retryable,
    {
        CommandError::new("io", message, false)
    }

    /// A configuration problem, such as an address that does not parse.
    pub fn configuration(message: &str) -> (e: CommandError)
        ensures
            e.kind@ == "configuration"@,
            e.message@ == message@,
            !e.retryable,
    {
        CommandError::new("configuration", message, false)
    }
}

/// The error type of the `idevice` crate.
#[verifier::external_type_specification]
#[verifier::external_body]
pub struct ExIdeviceError(IdeviceError);

/// The conditions of a device error that pass with time, and the rest.
#[derive(Debug)]
pub enum DeviceCondition {
    DeviceNotFound,
    NoEstablishedConnection,
    DeviceLocked,
    Other,
}

/// Tells apart the variants of `idevice::IdeviceError` that name a passing
/// condition. The error is opaque here, so nothing is stated of the result.
#[verifier::external_body]
fn device_condition(error: &IdeviceError) -> DeviceCondition {
    match error {
        IdeviceError::DeviceNotFound => DeviceCondition::DeviceNotFound,
        IdeviceError::NoEstablishedConnection => DeviceCondition::NoEstablishedConnection,
        IdeviceError::DeviceLocked => DeviceCondition::DeviceLocked,
        _ => DeviceCondition::Other,
    }
}

/// The message of an `idevice::IdeviceError` (its `Display` text, which
/// `thiserror` writes). The error is opaque here, so nothing is stated of it.
#[verifier::external_body]
fn idevice_message(error: &IdeviceError) -> String {
    error.to_string()
}

} // verus!
