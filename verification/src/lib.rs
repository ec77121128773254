//! Verified core of the AEON system-monitoring daemon: log analysis, alarm
//! state machines, the socket protocol, backup planning and text helpers.

pub mod text;
pub mod log;
pub mod process;
pub mod alarm;
pub mod protocol;
pub mod backup;
pub mod cli;
pub mod system;
pub mod scan;
pub mod json;
