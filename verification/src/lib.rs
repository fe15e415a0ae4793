//! Container-native agent router: instance state machines, inbound routing,
//! turn tracking, cross-agent chains and the engine write-ahead log.
pub mod text;
pub mod state_machine;
pub mod json;
pub mod channel;
pub mod feed;
pub mod instance_router;
pub mod lookup;
pub mod wire;
pub mod agent_host;
pub mod config;
pub mod host_router;
pub mod wal;
pub mod ws_client;
pub mod output;
pub mod grpc_service;
pub mod laws;
