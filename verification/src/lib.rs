//! A dynamically reconfigurable reverse-proxy gateway core: route matching,
//! IP allow/deny policy, four load-balancing strategies with per-target
//! liveness, the shared routing table, the persisted configuration
//! document, and the listener-lifecycle bookkeeping that replaces a port's
//! worker pool when its service changes.

pub mod allow_deny_ip;
pub mod app_config;
pub mod app_error;
pub mod handler;
pub mod headers;
pub mod log_service;
pub mod outside;
pub mod persist;
pub mod route;
pub mod text;
pub mod thread_local_info;
