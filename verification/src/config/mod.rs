//! What a scan is asked to cover: the hosts and the ports.
pub mod cidr;
pub mod host;
pub mod port;
