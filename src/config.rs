//! Configuration of the daemon and of deployment files. Paths are held as
//! their text.

use vstd::prelude::*;

verus! {

/// Daemon configuration.
#[derive(Debug, Clone)]
pub struct DaemonConfig {
    /// API server configuration
    pub api: ApiConfig,
    /// Runtime configuration
    pub runtime: RuntimeConfig,
    /// Network configuration
    pub network: NetworkConfig,
    /// Storage configuration
    pub storage: StorageConfig,
    /// Logging configuration
    pub logging: LoggingConfig,
}

impl Default for DaemonConfig {
    fn default() -> (r: Self)
        ensures
            default_api(r.api),
            default_runtime(r.runtime),
            default_network(r.network),
            default_storage(r.storage),
            default_logging(r.logging),
    {
        DaemonConfig {
            api: ApiConfig::default(),
            runtime: RuntimeConfig::default(),
            network: NetworkConfig::default(),
            storage: StorageConfig::default(),
            logging: LoggingConfig::default(),
        }
    }
}

/// API server configuration.
#[derive(Debug, Clone)]
pub struct ApiConfig {
    /// Address to bind the REST API server
    pub rest_address: String,
    /// Port for the REST API server
    pub rest_port: u16,
    /// Address to bind the gRPC server
    pub grpc_address: String,
    /// Port for the gRPC server
    pub grpc_port: u16,
    /// Enable CORS
    pub cors_enabled: bool,
    /// Allowed CORS origins
    pub cors_origins: Vec<String>,
}

/// The default API settings: REST on `0.0.0.0:9090`, gRPC on `0.0.0.0:9091`,
/// CORS enabled for every origin.
pub open spec fn default_api(c: ApiConfig) -> bool {
    &&& c.rest_address@ == "0.0.0.0"@
    &&& c.rest_port == 9090
    &&& c.grpc_address@ == "0.0.0.0"@
    &&& c.grpc_port == 9091
    &&& c.cors_enabled
    &&& c.cors_origins@.len() == 1
    &&& c.cors_origins@[0]@ == "*"@
}

impl Default for ApiConfig {
    fn default() -> (r: Self)
        ensures
            default_api(r),
    {
        let mut cors_origins: Vec<String> = Vec::new();
        cors_origins.push(String::from_str("*"));
        ApiConfig {
            rest_address: String::from_str("0.0.0.0"),
            rest_port: 9090,
            grpc_address: String::from_str("0.0.0.0"),
            grpc_port: 9091,
            cors_enabled: true,
            cors_origins,
        }
    }
}

/// Runtime configuration.
#[derive(Debug, Clone)]
pub struct RuntimeConfig {
    /// Runtime type (process or containerd)
    pub runtime_type: RuntimeType,
    /// Path to the llama.cpp server binary
    pub llama_server_path: Option<String>,
    /// Base port for worker allocation
    pub worker_base_port: u16,
    /// Maximum number of workers
    pub max_workers: u32,
    /// Worker idle timeout in seconds (for eviction)
    pub worker_idle_timeout_secs: u64,
}

/// The default runtime settings: processes, the server binary found on the
/// search path, 100 workers from port 30000, idle after an hour.
pub open spec fn default_runtime(c: RuntimeConfig) -> bool {
    &&& c.runtime_type == RuntimeType::Process
    &&& c.llama_server_path is None
    &&& c.worker_base_port == 30000
    &&& c.max_workers == 100
    &&& c.worker_idle_timeout_secs == 3600
}

impl Default for RuntimeConfig {
    fn default() -> (r: Self)
        ensures
            default_runtime(r),
    {
        RuntimeConfig {
            runtime_type: RuntimeType::Process,
            llama_server_path: None,
            worker_base_port: 30000,
            max_workers: 100,
            worker_idle_timeout_secs: 3600,
        }
    }
}

/// Runtime type.
#[derive(Debug, Clone, Copy, PartialEq, Eq, Structural)]
pub enum RuntimeType {
    /// Process-based runtime (macOS, Windows)
    Process,
    /// Container-based runtime (Linux with containerd)
    Containerd,
}

/// Network configuration.
#[derive(Debug, Clone)]
pub struct NetworkConfig {
    /// Address for the load balancer
    pub lb_address: String,
    /// Port for the load balancer
    pub lb_port: u16,
    /// Load balancing strategy
    pub lb_strategy: LoadBalanceStrategy,
    /// Health check interval in seconds
    pub health_check_interval_secs: u64,
    /// Health check timeout in seconds
    pub health_check_timeout_secs: u64,
}

/// The default network settings: a round-robin balancer on `0.0.0.0:8080`,
/// health checks every 10 s with a 5 s timeout.
pub open spec fn default_network(c: NetworkConfig) -> bool {
    &&& c.lb_address@ == "0.0.0.0"@
    &&& c.lb_port == 8080
    &&& c.lb_strategy == LoadBalanceStrategy::RoundRobin
    &&& c.health_check_interval_secs == 10
    &&& c.health_check_timeout_secs == 5
}

impl Default for NetworkConfig {
    fn default() -> (r: Self)
        ensures
            default_network(r),
    {
        NetworkConfig {
            lb_address: String::from_str("0.0.0.0"),
            lb_port: 8080,
            lb_strategy: LoadBalanceStrategy::RoundRobin,
            health_check_interval_secs: 10,
            health_check_timeout_secs: 5,
        }
    }
}

/// Load balancing strategy.
#[derive(Debug, Clone, Copy, PartialEq, Eq, Structural)]
pub enum LoadBalanceStrategy {
    /// Round-robin load balancing
    RoundRobin,
    /// Least connections load balancing
    LeastConnections,
    /// Random load balancing
    Random,
}

/// Storage configuration.
#[derive(Debug, Clone)]
pub struct StorageConfig {
    /// Path to model storage directory
    pub models_path: String,
    /// Maximum cache size in bytes
    pub max_cache_size: u64,
    /// Enable LRU eviction
    pub lru_eviction: bool,
}

/// 100 GiB.
pub const DEFAULT_MAX_CACHE_SIZE: u64 = 100 * 1024 * 1024 * 1024;

/// The default storage settings: models under `/var/lib/dmrlet/models`, a
/// 100 GiB cache with least-recently-used eviction.
pub open spec fn default_storage(c: StorageConfig) -> bool {
    &&& c.models_path@ == "/var/lib/dmrlet/models"@
    &&& c.max_cache_size == DEFAULT_MAX_CACHE_SIZE
    &&& c.lru_eviction
}

impl Default for StorageConfig {
    fn default() -> (r: Self)
        ensures
            default_storage(r),
    {
        StorageConfig {
            models_path: String::from_str("/var/lib/dmrlet/models"),
            max_cache_size: DEFAULT_MAX_CACHE_SIZE,
            lru_eviction: true,
        }
    }
}

/// Logging configuration.
#[derive(Debug, Clone)]
pub struct LoggingConfig {
    /// Log level
    pub level: String,
    /// Log format (json or text)
    pub format: String,
    /// Log file path (if any)
    pub file: Option<String>,
}

/// The default logging settings: `info` level, text format, no file.
pub open spec fn default_logging(c: LoggingConfig) -> bool {
    &&& c.level@ == "info"@
    &&& c.format@ == "text"@
    &&& c.file is None
}

impl Default for LoggingConfig {
    fn default() -> (r: Self)
        ensures
            default_logging(r),
    {
        LoggingConfig {
            level: String::from_str("info"),
            format: String::from_str("text"),
            file: None,
        }
    }
}

/// The contents of a deployment file.
#[derive(Debug, Clone)]
pub struct DeploymentConfig {
    /// Deployment settings
    pub deployment: DeploymentSettings,
    /// Resource settings
    pub resources: Option<ResourceSettings>,
    /// Backend settings
    pub backend: Option<BackendSettings>,
    /// Health check settings
    pub health: Option<HealthSettings>,
    /// Auto-scale settings
    pub autoscale: Option<AutoscaleSettings>,
}

/// The `[deployment]` table of a deployment file.
#[derive(Debug, Clone)]
pub struct DeploymentSettings {
    pub name: String,
    pub model: String,
    pub replicas: Option<u32>,
}

/// The `[resources]` table of a deployment file.
#[derive(Debug, Clone)]
pub struct ResourceSettings {
    pub memory: Option<String>,
    pub gpu_count: Option<u32>,
}

/// The `[backend]` table of a deployment file.
#[derive(Debug, Clone)]
pub struct BackendSettings {
    pub backend_type: Option<String>,
    pub context_size: Option<u32>,
}

/// The `[health]` table of a deployment file.
#[derive(Debug, Clone)]
pub struct HealthSettings {
    pub path: Option<String>,
    pub interval: Option<String>,
}

/// The `[autoscale]` table of a deployment file.
#[derive(Debug, Clone)]
pub struct AutoscaleSettings {
    pub enabled: Option<bool>,
    pub min_replicas: Option<u32>,
    pub max_replicas: Option<u32>,
}

} // verus!
