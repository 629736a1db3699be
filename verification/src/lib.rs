//! A stateless TCP SYN port scanner, written so that its decisions can be
//! verified: the sequences of hosts and ports to probe, the wire format of the
//! probes, and the scan engine that schedules, retries and reports them.
//!
//! The engine performs no I/O of its own. It is a state machine that names the
//! next action (send this segment, poll that socket, report these results) and
//! is told what came of it.
pub mod args;
pub mod config;
pub mod engine;
pub mod flags;
pub mod net;
pub mod packet;
pub mod report;
pub mod tcp_ext;
pub mod utils;
pub mod work;

pub use crate::config::cidr::CidrBlock;
pub use crate::config::host::HostIterator;
pub use crate::config::port::PortIterator;
pub use crate::engine::model::{Event, ScanError};
pub use crate::engine::worker::{Action, ArmadaWorker};
pub use crate::net::{IpAddress, IpFamily, Probe};
pub use crate::work::ArmadaWorkMessage;
