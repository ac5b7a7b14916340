//! Verified core of a slot-partitioned service registry: slot tables and their
//! allocation, node leases, publisher/subscriber registries, routing and the
//! small decision procedures of the meta, data and session servers.

pub mod text;
pub mod config;
pub mod strings;
pub mod slot_table;
pub mod slot_allocator;
pub mod clock;
pub mod lease_manager;
pub mod data_server_manager;
pub mod meta_slot_manager;
pub mod data_slot_manager;
pub mod checksum;
pub mod session_slot_manager;
pub mod session_lease_manager;
pub mod model;
pub mod registry;
pub mod slot_diff;
pub mod keyed;
pub mod session_cache;
pub mod connection_service;
pub mod elector;
pub mod parse;
pub mod wire;
pub mod session_rpc;
pub mod data_rpc;
pub mod mcp;
pub mod mcp_format;
pub mod session_server_manager;
pub mod meta_rpc;
pub mod channel_pool;
pub mod push;
pub mod admin;
pub mod stream_registry;
pub mod json;
pub mod mcp_tools;
pub mod ticks;
