//! Session controller: the process-wide running flag shared between the
//! controller and the single active reader, and the two public entry
//! points that start and stop a session.
//!
//! Cancellation is cooperative: `disconnect_serial` only clears the flag;
//! the worker observes it at its own pace (see `crate::reader`).

use vstd::prelude::*;

use crate::classify::is_virtual_path;
use crate::classify::is_virtual_port;

verus! {

/// Immutable per-connect configuration: the device path and the baud rate.
#[derive(Clone, Debug)]
pub struct SerialConfig {
    pub path: String,
    pub baud_rate: u32,
}

/// The sole shared mutable entity of the core: the running flag. It is
/// true for the whole lifetime of an active reader and false otherwise.
/// The caller shares it between the controller and the worker behind a
/// mutual-exclusion lock.
pub struct SerialState {
    pub running: bool,
}

impl Default for SerialState {
    /// At process start no session is active.
    fn default() -> (r: SerialState)
        ensures
            r.running == false,
    {
        SerialState { running: false }
    }
}

/// Which reader loop variant a connect call starts.
pub enum ReaderVariant {
    /// Hardware-backed device, opened through the serial layer.
    RealPort,
    /// Pseudo-terminal, opened as a plain file with a buffered line reader.
    VirtualPort,
}

/// What a connect call decides: the acknowledgement and the variant.
pub struct ConnectPlan {
    pub message: String,
    pub variant: ReaderVariant,
}

/// Start a session: set the running flag and pick the reader variant from
/// the classifier applied to the configured path — a pure function of the
/// path string. The call does not wait for the device to open; open
/// failures surface only through the worker's error event.
pub fn connect_serial(state: &mut SerialState, config: &SerialConfig) -> (plan: ConnectPlan)
    ensures
        final(state).running == true,
        plan.variant is VirtualPort <==> is_virtual_path(config.path@),
        plan.message@ == "连接成功"@,
{
    state.running = true;
    let variant = if is_virtual_port(config.path.as_str()) {
        ReaderVariant::VirtualPort
    } else {
        ReaderVariant::RealPort
    };
    ConnectPlan { message: "连接成功".to_owned(), variant }
}

/// Stop the session: clear the running flag and return at once, without
/// waiting for the worker. Idempotent — with no session active it
/// succeeds and changes nothing.
pub fn disconnect_serial(state: &mut SerialState) -> (msg: String)
    ensures
        final(state).running == false,
        old(state).running == false ==> *final(state) == *old(state),
        msg@ == "断开连接"@,
{
    state.running = false;
    "断开连接".to_owned()
}

} // verus!
