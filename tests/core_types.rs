use dmrlet::config::{DaemonConfig, LoadBalanceStrategy, RuntimeType, StorageConfig};
use dmrlet::gpu::{detect_apple_gpus, detect_gpus, GpuDevice, GpuInfo, GpuVendor};
use dmrlet::model::{
    BackendType, DeploymentPhase, DeploymentSpec, DeploymentStatus, Endpoint, Worker, WorkerStatus,
};
use dmrlet::DmrletError;

#[test]
fn test_default_daemon_config() {
    let config = DaemonConfig::default();
    assert_eq!(config.api.rest_port, 9090);
    assert_eq!(config.network.lb_port, 8080);
}

#[test]
fn default_daemon_config_other_sections() {
    let config = DaemonConfig::default();
    assert_eq!(config.api.rest_address, "0.0.0.0");
    assert_eq!(config.api.grpc_port, 9091);
    assert_eq!(config.api.cors_origins, vec!["*".to_string()]);
    assert_eq!(config.runtime.runtime_type, RuntimeType::Process);
    assert_eq!(config.runtime.worker_base_port, 30000);
    assert_eq!(config.runtime.max_workers, 100);
    assert_eq!(config.network.lb_strategy, LoadBalanceStrategy::RoundRobin);
    assert_eq!(config.storage.models_path, "/var/lib/dmrlet/models");
    assert_eq!(config.logging.level, "info");
    assert!(config.logging.file.is_none());
}

#[test]
fn default_storage_is_one_hundred_gib() {
    assert_eq!(StorageConfig::default().max_cache_size, 107_374_182_400);
}

#[test]
fn test_error_display() {
    let err = DmrletError::Config("invalid config".to_string());
    assert_eq!(err.to_string(), "Configuration error: invalid config");
}

#[test]
fn error_messages_of_each_kind() {
    assert_eq!(
        DmrletError::DeploymentNotFound("x".to_string()).to_string(),
        "Deployment not found: x"
    );
    assert_eq!(DmrletError::WorkerNotFound("w".to_string()).to_string(), "Worker not found: w");
    assert_eq!(
        DmrletError::ResourceExhausted("r".to_string()).to_string(),
        "Resource exhausted: r"
    );
    assert_eq!(DmrletError::Internal("i".to_string()).to_string(), "Internal error: i");
}

#[test]
fn test_error_from_io() {
    let io_err = std::io::Error::new(std::io::ErrorKind::NotFound, "file not found");
    let err: DmrletError = io_err.into();
    assert!(matches!(err, DmrletError::Io(_)));
}

#[test]
fn io_error_message_starts_with_kind() {
    let io_err = std::io::Error::new(std::io::ErrorKind::NotFound, "file not found");
    let err: DmrletError = io_err.into();
    assert_eq!(err.to_string(), "IO error: file not found");
}

#[test]
fn test_gpu_info_empty() {
    let info = GpuInfo::empty();
    assert_eq!(info.total_count, 0);
    assert!(info.devices.is_empty());
}

fn device(index: u32, available: bool) -> GpuDevice {
    GpuDevice {
        index,
        name: format!("GPU {}", index),
        memory_total: 1024,
        memory_free: 512,
        vendor: GpuVendor::Nvidia,
        available,
        utilization: Some(50),
    }
}

#[test]
fn test_available_indices() {
    let info = GpuInfo {
        devices: vec![
            GpuDevice {
                index: 0,
                name: "GPU 0".to_string(),
                memory_total: 1024,
                memory_free: 512,
                vendor: GpuVendor::Nvidia,
                available: true,
                utilization: Some(50),
            },
            GpuDevice {
                index: 1,
                name: "GPU 1".to_string(),
                memory_total: 1024,
                memory_free: 0,
                vendor: GpuVendor::Nvidia,
                available: false,
                utilization: Some(100),
            },
        ],
        total_count: 2,
        available_count: 1,
    };

    let indices = info.available_indices();
    assert_eq!(indices, vec![0]);
}

#[test]
fn available_indices_keep_device_order() {
    let info = GpuInfo {
        devices: vec![device(3, true), device(1, false), device(7, true), device(2, true)],
        total_count: 4,
        available_count: 3,
    };
    assert_eq!(info.available_indices(), vec![3, 7, 2]);
}

#[test]
fn test_gpu_vendor_display() {
    assert_eq!(GpuVendor::Nvidia.to_string(), "NVIDIA");
    assert_eq!(GpuVendor::Apple.to_string(), "Apple");
}

#[test]
fn probes_report_their_inventories() {
    let none = detect_gpus();
    assert_eq!(none.total_count, 0);
    assert!(none.devices.is_empty());
    let apple = detect_apple_gpus();
    assert_eq!(apple.total_count, 1);
    assert_eq!(apple.devices[0].name, "Apple Silicon GPU");
    assert_eq!(apple.devices[0].vendor, GpuVendor::Apple);
}

#[test]
fn test_deployment_spec_new() {
    let spec = DeploymentSpec::new("test-deployment".to_string(), "ai/llama3:8b".to_string());
    assert_eq!(spec.name, "test-deployment");
    assert_eq!(spec.model, "ai/llama3:8b");
    assert_eq!(spec.replicas, 1);
}

#[test]
fn deployment_spec_defaults() {
    let spec = DeploymentSpec::new("a".to_string(), "b".to_string());
    assert_eq!(spec.resources.gpu_count, 0);
    assert_eq!(spec.backend.backend_type, BackendType::LlamaCpp);
    assert_eq!(spec.backend.context_size, 4096);
    assert_eq!(spec.health.path, "/health");
    assert_eq!(spec.health.failure_threshold, 3);
    assert_eq!(spec.created_at, spec.updated_at);
    let other = DeploymentSpec::new("a".to_string(), "b".to_string());
    assert_ne!(spec.id, other.id);
}

#[test]
fn test_worker_new() {
    let deployment_id = uuid::Uuid::new_v4().as_u128();
    let worker = Worker::new(deployment_id, 0, 30000);
    assert_eq!(worker.deployment_id, deployment_id);
    assert_eq!(worker.index, 0);
    assert_eq!(worker.endpoint.port, 30000);
    assert_eq!(worker.status, WorkerStatus::Pending);
}

#[test]
fn test_endpoint_url() {
    let endpoint = Endpoint::new("127.0.0.1".to_string(), 30000);
    assert_eq!(endpoint.url(), "http://127.0.0.1:30000");

    let tls_endpoint = Endpoint {
        host: "localhost".to_string(),
        port: 443,
        tls: true,
    };
    assert_eq!(tls_endpoint.url(), "https://localhost:443");
}

#[test]
fn endpoint_url_small_port() {
    assert_eq!(Endpoint::new("h".to_string(), 7).url(), "http://h:7");
    assert_eq!(Endpoint::new("h".to_string(), 0).url(), "http://h:0");
}

#[test]
fn test_deployment_status() {
    let spec = DeploymentSpec::new("test".to_string(), "model".to_string());
    let workers = vec![];
    let status = DeploymentStatus::new(spec, workers);
    assert_eq!(status.phase, DeploymentPhase::Pending);
}

#[test]
fn deployment_status_counts_and_phase() {
    let mut spec = DeploymentSpec::new("test".to_string(), "model".to_string());
    spec.replicas = 3;
    let mut running = Worker::new(spec.id, 0, 30000);
    running.status = WorkerStatus::Running;
    let mut failed = Worker::new(spec.id, 1, 30001);
    failed.status = WorkerStatus::Error;
    let pending = Worker::new(spec.id, 2, 30002);
    let status = DeploymentStatus::new(spec, vec![running, failed, pending]);
    assert_eq!(status.ready_replicas, 1);
    assert_eq!(status.available_replicas, 2);
    assert_eq!(status.phase, DeploymentPhase::Progressing);
}

#[test]
fn deployment_status_ready_and_progressing_without_running() {
    let mut spec = DeploymentSpec::new("t".to_string(), "m".to_string());
    spec.replicas = 1;
    let mut w = Worker::new(spec.id, 0, 30000);
    w.status = WorkerStatus::Running;
    assert_eq!(DeploymentStatus::new(spec.clone(), vec![w]).phase, DeploymentPhase::Ready);
    let p = Worker::new(spec.id, 0, 30000);
    assert_eq!(DeploymentStatus::new(spec, vec![p]).phase, DeploymentPhase::Progressing);
}

#[test]
fn display_names() {
    assert_eq!(WorkerStatus::Terminating.to_string(), "Terminating");
    assert_eq!(DeploymentPhase::Progressing.to_string(), "Progressing");
    assert_eq!(BackendType::Vllm.to_string(), "vLLM");
    assert_eq!(BackendType::LlamaCpp.to_string(), "llama.cpp");
}
