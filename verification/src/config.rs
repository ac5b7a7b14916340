//! Server configurations and their defaults.
use vstd::prelude::*;
use crate::text::{format_host_port, host_port};

verus! {

/// Name of the default data center.
pub const DEFAULT_DATA_CENTER: &'static str = "DefaultDataCenter";

/// Name of the default cluster.
pub const DEFAULT_CLUSTER_ID: &'static str = "DefaultCluster";

/// Meta server gRPC port.
pub const META_GRPC_PORT: u16 = 9611;

/// Meta server HTTP port.
pub const META_HTTP_PORT: u16 = 9612;

/// Data server gRPC port.
pub const DATA_GRPC_PORT: u16 = 9621;

/// Data server HTTP port.
pub const DATA_HTTP_PORT: u16 = 9622;

/// Session server gRPC port.
pub const SESSION_GRPC_PORT: u16 = 9601;

/// Session server HTTP port.
pub const SESSION_HTTP_PORT: u16 = 9602;

/// Session server lease, in seconds.
pub const SESSION_LEASE_SECS: u64 = 30;

/// Data server lease, in seconds.
pub const DATA_LEASE_SECS: u64 = 30;

/// Leader lock duration, in milliseconds.
pub const ELECTION_LOCK_DURATION_MS: i64 = 30000;

/// Push task timeout, in milliseconds.
pub const PUSH_TASK_TIMEOUT_MS: u64 = 3000;

/// Slot table sync interval, in seconds.
pub const SLOT_SYNC_INTERVAL_SECS: u64 = 6;

/// Data change debounce window, in milliseconds.
pub const DATA_CHANGE_DEBOUNCE_MS: u64 = 100;

/// Loopback address.
pub const LOCALHOST: &'static str = "127.0.0.1";

/// Meta server configuration.
#[derive(Debug)]
pub struct MetaServerConfig {
    pub data_center: String,
    pub cluster_id: String,
    pub local_address: String,
    pub grpc_port: u16,
    pub http_port: u16,
    pub meta_peers: Vec<String>,
    pub db_url: String,
    pub session_lease_secs: u64,
    pub data_lease_secs: u64,
    pub slot_num: u32,
    pub slot_replicas: u32,
    pub election_lock_duration_ms: i64,
    pub election_interval_ms: u64,
    pub eviction_interval_secs: u64,
}

impl Default for MetaServerConfig {
    fn default() -> (c: MetaServerConfig)
        ensures
            c.data_center@ == DEFAULT_DATA_CENTER@,
            c.cluster_id@ == DEFAULT_CLUSTER_ID@,
            c.local_address@ == LOCALHOST@,
            c.grpc_port == META_GRPC_PORT,
            c.http_port == META_HTTP_PORT,
            c.meta_peers@.len() == 1,
            c.meta_peers@[0]@ == host_port(LOCALHOST@, META_GRPC_PORT as nat),
            c.session_lease_secs == SESSION_LEASE_SECS,
            c.data_lease_secs == DATA_LEASE_SECS,
            c.slot_num == crate::meta_slot_manager::DEFAULT_SLOT_NUM,
            c.slot_replicas == crate::meta_slot_manager::DEFAULT_SLOT_REPLICAS,
            c.election_lock_duration_ms == ELECTION_LOCK_DURATION_MS,
            c.election_interval_ms == 1000,
            c.eviction_interval_secs == 5,
    {
        let mut peers: Vec<String> = Vec::new();
        peers.push(format_host_port(LOCALHOST, META_GRPC_PORT));
        MetaServerConfig {
            data_center: String::from_str(DEFAULT_DATA_CENTER),
            cluster_id: String::from_str(DEFAULT_CLUSTER_ID),
            local_address: String::from_str(LOCALHOST),
            grpc_port: META_GRPC_PORT,
            http_port: META_HTTP_PORT,
            meta_peers: peers,
            db_url: String::from_str("sqlite://sofa-registry-meta.db?mode=rwc"),
            session_lease_secs: SESSION_LEASE_SECS,
            data_lease_secs: DATA_LEASE_SECS,
            slot_num: crate::meta_slot_manager::DEFAULT_SLOT_NUM,
            slot_replicas: crate::meta_slot_manager::DEFAULT_SLOT_REPLICAS,
            election_lock_duration_ms: ELECTION_LOCK_DURATION_MS,
            election_interval_ms: 1000,
            eviction_interval_secs: 5,
        }
    }
}

impl MetaServerConfig {
    /// `local_address:grpc_port`.
    pub fn grpc_address(&self) -> (s: String)
        ensures
            s@ == host_port(self.local_address@, self.grpc_port as nat),
    {
        format_host_port(self.local_address.as_str(), self.grpc_port)
    }

    /// `local_address:http_port`.
    pub fn http_address(&self) -> (s: String)
        ensures
            s@ == host_port(self.local_address@, self.http_port as nat),
    {
        format_host_port(self.local_address.as_str(), self.http_port)
    }
}

/// Data server configuration.
#[derive(Debug)]
pub struct DataServerConfig {
    pub data_center: String,
    pub cluster_id: String,
    pub local_address: String,
    pub grpc_port: u16,
    pub http_port: u16,
    pub meta_server_addresses: Vec<String>,
    pub slot_sync_interval_secs: u64,
    pub data_change_debounce_ms: u64,
    pub session_lease_secs: u64,
    pub slot_num: u32,
}

impl DataServerConfig {
    /// The default configuration for a host whose detected address is
    /// `local_ip`; without one the loopback address is used.
    pub fn default_for(local_ip: Option<String>) -> (c: DataServerConfig)
        ensures
            c.local_address@ == (match local_ip {
                Some(ip) => ip@,
                None => LOCALHOST@,
            }),
            c.data_center@ == DEFAULT_DATA_CENTER@,
            c.cluster_id@ == DEFAULT_CLUSTER_ID@,
            c.grpc_port == DATA_GRPC_PORT,
            c.http_port == DATA_HTTP_PORT,
            c.meta_server_addresses@.len() == 1,
            c.meta_server_addresses@[0]@ == host_port(LOCALHOST@, META_GRPC_PORT as nat),
            c.slot_sync_interval_secs == SLOT_SYNC_INTERVAL_SECS,
            c.data_change_debounce_ms == DATA_CHANGE_DEBOUNCE_MS,
            c.session_lease_secs == SESSION_LEASE_SECS,
            c.slot_num == crate::meta_slot_manager::DEFAULT_SLOT_NUM,
    {
        let local_address = match local_ip {
            Some(ip) => ip,
            None => String::from_str(LOCALHOST),
        };
        let mut metas: Vec<String> = Vec::new();
        metas.push(format_host_port(LOCALHOST, META_GRPC_PORT));
        DataServerConfig {
            data_center: String::from_str(DEFAULT_DATA_CENTER),
            cluster_id: String::from_str(DEFAULT_CLUSTER_ID),
            local_address,
            grpc_port: DATA_GRPC_PORT,
            http_port: DATA_HTTP_PORT,
            meta_server_addresses: metas,
            slot_sync_interval_secs: SLOT_SYNC_INTERVAL_SECS,
            data_change_debounce_ms: DATA_CHANGE_DEBOUNCE_MS,
            session_lease_secs: SESSION_LEASE_SECS,
            slot_num: crate::meta_slot_manager::DEFAULT_SLOT_NUM,
        }
    }

    /// `local_address:grpc_port`.
    pub fn grpc_address(&self) -> (s: String)
        ensures
            s@ == host_port(self.local_address@, self.grpc_port as nat),
    {
        format_host_port(self.local_address.as_str(), self.grpc_port)
    }

    /// `local_address:http_port`.
    pub fn http_address(&self) -> (s: String)
        ensures
            s@ == host_port(self.local_address@, self.http_port as nat),
    {
        format_host_port(self.local_address.as_str(), self.http_port)
    }
}

/// Session server configuration.
#[derive(Debug)]
pub struct SessionServerConfig {
    pub data_center: String,
    pub cluster_id: String,
    pub local_address: String,
    pub grpc_port: u16,
    pub http_port: u16,
    pub meta_server_addresses: Vec<String>,
    pub push_task_timeout_ms: u64,
    pub push_task_buffer_size: usize,
    pub slot_num: u32,
    pub connection_idle_timeout_secs: u64,
}

impl Default for SessionServerConfig {
    fn default() -> (c: SessionServerConfig)
        ensures
            c.data_center@ == DEFAULT_DATA_CENTER@,
            c.cluster_id@ == DEFAULT_CLUSTER_ID@,
            c.local_address@ == LOCALHOST@,
            c.grpc_port == SESSION_GRPC_PORT,
            c.http_port == SESSION_HTTP_PORT,
            c.meta_server_addresses@.len() == 1,
            c.meta_server_addresses@[0]@ == host_port(LOCALHOST@, META_GRPC_PORT as nat),
            c.push_task_timeout_ms == PUSH_TASK_TIMEOUT_MS,
            c.push_task_buffer_size == 4096,
            c.slot_num == 256,
            c.connection_idle_timeout_secs == 90,
    {
        let mut metas: Vec<String> = Vec::new();
        metas.push(format_host_port(LOCALHOST, META_GRPC_PORT));
        SessionServerConfig {
            data_center: String::from_str(DEFAULT_DATA_CENTER),
            cluster_id: String::from_str(DEFAULT_CLUSTER_ID),
            local_address: String::from_str(LOCALHOST),
            grpc_port: SESSION_GRPC_PORT,
            http_port: SESSION_HTTP_PORT,
            meta_server_addresses: metas,
            push_task_timeout_ms: PUSH_TASK_TIMEOUT_MS,
            push_task_buffer_size: 4096,
            slot_num: 256,
            connection_idle_timeout_secs: 90,
        }
    }
}

impl SessionServerConfig {
    /// `local_address:grpc_port`.
    pub fn grpc_address(&self) -> (s: String)
        ensures
            s@ == host_port(self.local_address@, self.grpc_port as nat),
    {
        format_host_port(self.local_address.as_str(), self.grpc_port)
    }

    /// `local_address:http_port`.
    pub fn http_address(&self) -> (s: String)
        ensures
            s@ == host_port(self.local_address@, self.http_port as nat),
    {
        format_host_port(self.local_address.as_str(), self.http_port)
    }
}

/// Where the MCP server finds the admin HTTP APIs of the registry.
#[derive(Debug)]
pub struct McpConfig {
    pub meta_http_url: String,
    pub session_http_url: String,
    pub data_http_url: String,
}

/// Default meta server HTTP endpoint.
pub const DEFAULT_META_HTTP_URL: &'static str = "http://127.0.0.1:9612";

/// Default session server HTTP endpoint.
pub const DEFAULT_SESSION_HTTP_URL: &'static str = "http://127.0.0.1:9602";

/// Default data server HTTP endpoint.
pub const DEFAULT_DATA_HTTP_URL: &'static str = "http://127.0.0.1:9622";

impl Default for McpConfig {
    fn default() -> (c: McpConfig)
        ensures
            c.meta_http_url@ == DEFAULT_META_HTTP_URL@,
            c.session_http_url@ == DEFAULT_SESSION_HTTP_URL@,
            c.data_http_url@ == DEFAULT_DATA_HTTP_URL@,
    {
        McpConfig {
            meta_http_url: String::from_str(DEFAULT_META_HTTP_URL),
            session_http_url: String::from_str(DEFAULT_SESSION_HTTP_URL),
            data_http_url: String::from_str(DEFAULT_DATA_HTTP_URL),
        }
    }
}

impl Clone for McpConfig {
    fn clone(&self) -> (c: Self)
        ensures
            c == *self,
    {
        McpConfig {
            meta_http_url: self.meta_http_url.clone(),
            session_http_url: self.session_http_url.clone(),
            data_http_url: self.data_http_url.clone(),
        }
    }
}

} // verus!
