//! Control daemon core for a supervised VPN client subprocess.
//!
//! The library holds the logic of the daemon: the session lifecycle state
//! machine, the supervisor decisions around spawning and stopping the
//! subprocess, the wire codec shared by command responses and broadcast
//! events, the command grammar of the control socket, the client registry
//! bookkeeping, and the configuration index. The surrounding process —
//! sockets, the subprocess itself, the file system — lives outside and
//! feeds plain values in and out.

pub mod codec;
pub mod command;
pub mod config;
pub mod dispatcher;
pub mod registry;
pub mod response;
pub mod status;
pub mod supervisor;
