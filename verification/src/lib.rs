//! Monitrust: the verified core of a small self-hosted monitoring service.
//!
//! The library holds what the service decides: how the memory figures are
//! read out of a `/proc/meminfo` listing, when a watcher fires, which watcher
//! configurations are kept, which watcher runs next, and how a reporter is
//! built from its configuration. Reading files, sleeping, sending messages and
//! the floating-point memory thresholds live in the program around it.
pub mod alert_reporter;
pub mod scheduled_watcher;
pub mod scheduler;
pub mod watcher;
