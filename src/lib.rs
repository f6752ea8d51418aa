//! Traffic accounting for a paid mesh network: the client and exit traffic
//! watchers turn tunnel byte counters and routing-daemon prices into debt
//! updates, beside the default-route bookkeeping and the hello callback rule.
pub mod amount;
pub mod babel;
pub mod types;
pub mod client_watcher;
pub mod usage_history;
pub mod wg;
pub mod exit_watcher;
pub mod http_client;
pub mod kernel_route;
