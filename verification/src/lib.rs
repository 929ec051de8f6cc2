//! Drives a PJRT plugin: load it, create a client, compile, upload host
//! buffers, execute, copy the outputs back.
//!
//! A session keeps the plugin and a client resident so several executables
//! share one client, and input buffers (e.g. a proving key) can be uploaded
//! once and reused across runs. The crate deals only in raw bytes and
//! element-type tags.
//!
//! No procedure here makes a call into the plugin itself. Each stops with the
//! call it wants made and goes on when it is handed the reply (see
//! [`protocol`]), so what it does for every reply is proved, down to the order
//! of the calls. Whoever drives it makes the calls.
//!
//! * [`call`]: the calls and the replies.
//! * [`protocol`]: procedures that are suspended at each call.
//! * [`check`]: calls that must succeed.
//! * [`plugin`], [`client`], [`transfer`], [`run`], [`serialize`],
//!   [`session`]: the procedures.
//! * [`options`], [`memory`]: what a client is created with, and what its
//!   allocator reports.
//! * [`handles`]: what a caller holds.
//! * [`transcript`], [`ledger`]: runs as sequences of calls and replies, and
//!   what these add up to.
//! * [`exchanges`], [`failures`]: what every run exchanges with the plugin, call
//!   by call, and what makes it fail.
//! * [`laws`], [`discipline`]: what else holds of every run.
//! * [`process`]: what threads get that share the plugin.
//! * [`device`], [`results`]: a device that keeps what it is given, and what
//!   the runs on it return.

pub mod call;
pub mod check;
pub mod client;
pub mod device;
pub mod discipline;
pub mod exchanges;
pub mod failures;
pub mod handles;
pub mod laws;
pub mod ledger;
pub mod memory;
pub mod options;
pub mod plugin;
pub mod process;
pub mod protocol;
pub mod results;
pub mod run;
pub mod serialize;
pub mod session;
pub mod transcript;
pub mod transfer;

pub use crate::handles::{Buffer, Client, Executable, Pjrt, Session};
pub use crate::memory::MemoryStats;
pub use crate::options::{AllocatorKind, SessionOptions};
pub use crate::plugin::plugin_path;
pub use crate::session::run_bytecode;
pub use crate::transfer::Inputs;
