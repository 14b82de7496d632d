use dmrlet::api::{
    default_context_size, default_name, default_replicas, find_by_name, parse_backend,
    CreateDeploymentRequest, DeploymentResponse, StatusResponse, WorkerResponse,
};
use dmrlet::gpu::GpuInfo;
use dmrlet::model::{BackendType, DeploymentSpec, DeploymentStatus, Worker, WorkerStatus};

fn request(backend: &str) -> CreateDeploymentRequest {
    CreateDeploymentRequest {
        name: "svc".to_string(),
        model: "ai/llama3:8b".to_string(),
        replicas: default_replicas(),
        gpu_count: 2,
        backend: backend.to_string(),
        context_size: default_context_size(),
    }
}

#[test]
fn request_becomes_spec() {
    let spec = request("VLLM").into_spec();
    assert_eq!(spec.name, "svc");
    assert_eq!(spec.replicas, 1);
    assert_eq!(spec.resources.gpu_count, 2);
    assert_eq!(spec.backend.context_size, 4096);
    assert_eq!(spec.backend.backend_type, BackendType::Vllm);
    assert_eq!(request("").into_spec().backend.backend_type, BackendType::LlamaCpp);
    assert_eq!(request("MLX").into_spec().backend.backend_type, BackendType::Mlx);
    assert_eq!(request("other").into_spec().backend.backend_type, BackendType::LlamaCpp);
}

#[test]
fn backend_names() {
    assert_eq!(parse_backend(&"llamacpp".to_string()), BackendType::LlamaCpp);
    assert_eq!(parse_backend(&"vllm".to_string()), BackendType::Vllm);
    assert_eq!(parse_backend(&"VLLM".to_string()), BackendType::LlamaCpp);
}

#[test]
fn responses_from_status_and_worker() {
    let mut spec = DeploymentSpec::new("n".to_string(), "m".to_string());
    spec.replicas = 2;
    let id = spec.id;
    let mut w = Worker::new(id, 0, 30000);
    w.status = WorkerStatus::Running;
    w.gpu_ids = vec![1];
    let status = DeploymentStatus::new(spec, vec![w.clone()]);
    let statuses = vec![status.clone()];
    let sys = StatusResponse::new("1.0".to_string(), &statuses, GpuInfo::empty());
    assert_eq!(sys.deployments, 1);
    assert_eq!(sys.workers, 1);
    let r = DeploymentResponse::from_status(status);
    assert_eq!(r.id, id);
    assert_eq!(r.ready_replicas, 1);
    assert_eq!(r.phase, "Progressing");
    let wr = WorkerResponse::from_worker(w);
    assert_eq!(wr.status, "Running");
    assert_eq!(wr.endpoint, "http://127.0.0.1:30000");
    assert_eq!(wr.gpu_ids, vec![1]);
    assert_eq!(find_by_name(&vec![r.clone()], &"n".to_string()), Some(id));
    assert_eq!(find_by_name(&vec![r], &"x".to_string()), None);
}

#[test]
fn names_from_models() {
    assert_eq!(default_name("ai/llama3:8b"), "llama3");
    assert_eq!(default_name("llama3"), "llama3");
    assert_eq!(default_name("a/b/c:d:e"), "c");
    assert_eq!(default_name("model/"), "");
}
