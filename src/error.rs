//! The failures of the streaming engine.
use vstd::prelude::*;

verus! {

#[derive(Clone, Debug, PartialEq, Eq)]
pub enum StreamError {
    /// No device or channel named `name` is registered (a channel is named
    /// `device/channel`).
    NotFound { name: String },
    /// No device named `name` is registered; `registered` lists the names
    /// of the devices that are.
    DeviceNotFound { name: String, registered: Vec<String> },
    /// The operation needs an analog device and device `name` is digital,
    /// or the other way round.
    TypeMismatch { name: String },
    /// The new instruction overlaps the instruction `[start, end)`.
    Overlap { start: u64, end: u64 },
    /// The timeline ends in an open-ended instruction that starts no later
    /// than the new one.
    PendingOpenInstr,
    /// The stop time `stop` lies before the end of an instruction.
    Compile { stop: u64 },
    /// The reset time `time` lies before the end of an instruction, or too
    /// close to the largest time for the reset instruction.
    ResetTime { time: u64 },
    /// A channel with that name is already registered on the device.
    DuplicateChannel,
    /// A device with that name is already registered.
    DuplicateDevice,
    /// An argument is out of its range.
    Value,
    /// The run is not in a state that allows the operation.
    Runtime,
}

/// `r` is the failure that no device or channel named `name` exists.
pub open spec fn not_found<T>(r: Result<T, StreamError>, name: Seq<char>) -> bool {
    r matches Err(StreamError::NotFound { name: n }) && n@ == name
}

} // verus!
