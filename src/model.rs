//! Deployments, workers, endpoints and the status derived from them.

use crate::stamp::{new_id, now_millis};
use crate::text::{decimal, u64_text};
use vstd::prelude::*;

verus! {

/// What a deployment asks for: a model, a replica count, and the resources,
/// backend and health checking of each worker.
#[derive(Debug)]
pub struct DeploymentSpec {
    /// Unique identifier for the deployment
    pub id: u128,
    /// Human-readable name
    pub name: String,
    /// Model reference (e.g., "ai/llama3:8b")
    pub model: String,
    /// Number of replicas
    pub replicas: u32,
    /// Resource requirements
    pub resources: ResourceRequirements,
    /// Backend configuration
    pub backend: BackendConfig,
    /// Health check configuration
    pub health: HealthConfig,
    /// Auto-scaling configuration
    pub autoscale: Option<AutoscaleConfig>,
    /// Creation time, in milliseconds since the Unix epoch
    pub created_at: i64,
    /// Last update time, in milliseconds since the Unix epoch
    pub updated_at: i64,
}

/// A deployment spec as a value.
pub struct DeploymentSpecView {
    pub id: u128,
    pub name: String,
    pub model: String,
    pub replicas: u32,
    pub resources: ResourceRequirementsView,
    pub backend: BackendConfigView,
    pub health: HealthConfig,
    pub autoscale: Option<AutoscaleConfig>,
    pub created_at: i64,
    pub updated_at: i64,
}

impl View for DeploymentSpec {
    type V = DeploymentSpecView;

    open spec fn view(&self) -> DeploymentSpecView {
        DeploymentSpecView {
            id: self.id,
            name: self.name,
            model: self.model,
            replicas: self.replicas,
            resources: self.resources@,
            backend: self.backend@,
            health: self.health,
            autoscale: self.autoscale,
            created_at: self.created_at,
            updated_at: self.updated_at,
        }
    }
}

impl Clone for DeploymentSpec {
    fn clone(&self) -> (r: Self)
        ensures
            r@ == self@,
    {
        DeploymentSpec {
            id: self.id,
            name: self.name.clone(),
            model: self.model.clone(),
            replicas: self.replicas,
            resources: self.resources.clone(),
            backend: self.backend.clone(),
            health: self.health.clone(),
            autoscale: self.autoscale,
            created_at: self.created_at,
            updated_at: self.updated_at,
        }
    }
}

impl DeploymentSpec {
    /// A spec for `model` under `name` with one replica and default settings,
    /// a fresh identifier, and the current time as its creation and update time.
    pub fn new(name: String, model: String) -> (r: Self)
        ensures
            r.name == name,
            r.model == model,
            r.replicas == 1,
            r.resources.memory is None,
            r.resources.gpu_count == 0,
            r.resources.gpu_ids@.len() == 0,
            r.backend.backend_type == BackendType::LlamaCpp,
            r.backend.context_size == 4096,
            r.backend.extra_args@.len() == 0,
            r.health@ == default_health(),
            r.autoscale is None,
            r.created_at == r.updated_at,
    {
        let now = now_millis();
        DeploymentSpec {
            id: new_id(),
            name,
            model,
            replicas: 1,
            resources: ResourceRequirements::default(),
            backend: BackendConfig::default(),
            health: HealthConfig::default(),
            autoscale: None,
            created_at: now,
            updated_at: now,
        }
    }
}

/// Resource requirements of each worker of a deployment.
#[derive(Debug)]
pub struct ResourceRequirements {
    /// Memory limit (e.g., "16Gi")
    pub memory: Option<String>,
    /// Number of GPUs required
    pub gpu_count: u32,
    /// Specific GPU IDs to use
    pub gpu_ids: Vec<u32>,
}

/// Resource requirements as a value.
pub struct ResourceRequirementsView {
    pub memory: Option<String>,
    pub gpu_count: u32,
    pub gpu_ids: Seq<u32>,
}

impl View for ResourceRequirements {
    type V = ResourceRequirementsView;

    open spec fn view(&self) -> ResourceRequirementsView {
        ResourceRequirementsView {
            memory: self.memory,
            gpu_count: self.gpu_count,
            gpu_ids: self.gpu_ids@,
        }
    }
}

impl Clone for ResourceRequirements {
    fn clone(&self) -> (r: Self)
        ensures
            r@ == self@,
    {
        let memory = match &self.memory {
            Some(m) => Some(m.clone()),
            None => None,
        };
        let gpu_ids = self.gpu_ids.clone();
        assert(gpu_ids@ =~= self.gpu_ids@);
        ResourceRequirements { memory, gpu_count: self.gpu_count, gpu_ids }
    }
}

impl Default for ResourceRequirements {
    fn default() -> (r: Self)
        ensures
            r.memory is None,
            r.gpu_count == 0,
            r.gpu_ids@.len() == 0,
    {
        ResourceRequirements { memory: None, gpu_count: 0, gpu_ids: Vec::new() }
    }
}

/// Backend configuration for inference.
#[derive(Debug)]
pub struct BackendConfig {
    /// Backend type (llama.cpp, vLLM, MLX)
    pub backend_type: BackendType,
    /// Context size for the model
    pub context_size: u32,
    /// Additional backend-specific arguments
    pub extra_args: Vec<String>,
}

/// Backend configuration as a value.
pub struct BackendConfigView {
    pub backend_type: BackendType,
    pub context_size: u32,
    pub extra_args: Seq<String>,
}

impl View for BackendConfig {
    type V = BackendConfigView;

    open spec fn view(&self) -> BackendConfigView {
        BackendConfigView {
            backend_type: self.backend_type,
            context_size: self.context_size,
            extra_args: self.extra_args@,
        }
    }
}

impl Clone for BackendConfig {
    fn clone(&self) -> (r: Self)
        ensures
            r@ == self@,
    {
        let extra_args = self.extra_args.clone();
        assert(extra_args@ =~= self.extra_args@);
        BackendConfig { backend_type: self.backend_type, context_size: self.context_size, extra_args }
    }
}

impl Default for BackendConfig {
    fn default() -> (r: Self)
        ensures
            r.backend_type == BackendType::LlamaCpp,
            r.context_size == 4096,
            r.extra_args@.len() == 0,
    {
        BackendConfig { backend_type: BackendType::LlamaCpp, context_size: 4096, extra_args: Vec::new() }
    }
}

/// Supported backend types.
#[derive(Debug, Clone, Copy, PartialEq, Eq, Structural)]
pub enum BackendType {
    LlamaCpp,
    Vllm,
    Mlx,
}

/// The display name of a backend type.
pub open spec fn backend_name(b: BackendType) -> Seq<char> {
    match b {
        BackendType::LlamaCpp => "llama.cpp"@,
        BackendType::Vllm => "vLLM"@,
        BackendType::Mlx => "MLX"@,
    }
}

impl BackendType {
    /// The display name of this backend type.
    pub fn to_string(&self) -> (r: String)
        ensures
            r@ == backend_name(*self),
    {
        match self {
            BackendType::LlamaCpp => String::from_str("llama.cpp"),
            BackendType::Vllm => String::from_str("vLLM"),
            BackendType::Mlx => String::from_str("MLX"),
        }
    }
}

/// Health check configuration.
#[derive(Debug)]
pub struct HealthConfig {
    /// Health check endpoint path
    pub path: String,
    /// Check interval in seconds
    pub interval_secs: u32,
    /// Timeout in seconds
    pub timeout_secs: u32,
    /// Number of failures before marking unhealthy
    pub failure_threshold: u32,
}

/// Health check configuration as plain values: path, interval, timeout and
/// failure threshold.
pub open spec fn health_values(h: HealthConfig) -> (Seq<char>, u32, u32, u32) {
    (h.path@, h.interval_secs, h.timeout_secs, h.failure_threshold)
}

/// The default health check: `/health` every 10 s, 5 s timeout, 3 failures.
pub open spec fn default_health() -> (Seq<char>, u32, u32, u32) {
    ("/health"@, 10, 5, 3)
}

impl View for HealthConfig {
    type V = (Seq<char>, u32, u32, u32);

    open spec fn view(&self) -> (Seq<char>, u32, u32, u32) {
        health_values(*self)
    }
}

impl Clone for HealthConfig {
    fn clone(&self) -> (r: Self)
        ensures
            r == *self,
    {
        HealthConfig {
            path: self.path.clone(),
            interval_secs: self.interval_secs,
            timeout_secs: self.timeout_secs,
            failure_threshold: self.failure_threshold,
        }
    }
}

impl Default for HealthConfig {
    fn default() -> (r: Self)
        ensures
            r@ == default_health(),
    {
        HealthConfig {
            path: String::from_str("/health"),
            interval_secs: 10,
            timeout_secs: 5,
            failure_threshold: 3,
        }
    }
}

/// Auto-scaling configuration.
#[derive(Debug, Clone, Copy)]
pub struct AutoscaleConfig {
    /// Whether auto-scaling is enabled
    pub enabled: bool,
    /// Minimum number of replicas
    pub min_replicas: u32,
    /// Maximum number of replicas
    pub max_replicas: u32,
    /// Target CPU utilization percentage
    pub target_cpu_utilization: Option<u32>,
    /// Target memory utilization percentage
    pub target_memory_utilization: Option<u32>,
}

/// One instance of a backend inference server, bound to a port and to a set
/// of GPUs.
#[derive(Debug)]
pub struct Worker {
    /// Unique worker identifier
    pub id: u128,
    /// Deployment this worker belongs to
    pub deployment_id: u128,
    /// Worker index within the deployment
    pub index: u32,
    /// Current status
    pub status: WorkerStatus,
    /// Network endpoint
    pub endpoint: Endpoint,
    /// Process ID (for process-based runtime)
    pub pid: Option<u32>,
    /// Container ID (for container-based runtime)
    pub container_id: Option<String>,
    /// Assigned GPU IDs
    pub gpu_ids: Vec<u32>,
    /// Creation time, in milliseconds since the Unix epoch
    pub created_at: i64,
    /// Last health check time, in milliseconds since the Unix epoch
    pub last_health_check: Option<i64>,
}

/// A worker as a value.
pub struct WorkerView {
    pub id: u128,
    pub deployment_id: u128,
    pub index: u32,
    pub status: WorkerStatus,
    pub endpoint: Endpoint,
    pub pid: Option<u32>,
    pub container_id: Option<String>,
    pub gpu_ids: Seq<u32>,
    pub created_at: i64,
    pub last_health_check: Option<i64>,
}

impl View for Worker {
    type V = WorkerView;

    open spec fn view(&self) -> WorkerView {
        WorkerView {
            id: self.id,
            deployment_id: self.deployment_id,
            index: self.index,
            status: self.status,
            endpoint: self.endpoint,
            pid: self.pid,
            container_id: self.container_id,
            gpu_ids: self.gpu_ids@,
            created_at: self.created_at,
            last_health_check: self.last_health_check,
        }
    }
}

impl Clone for Worker {
    fn clone(&self) -> (r: Self)
        ensures
            r@ == self@,
    {
        let container_id = match &self.container_id {
            Some(c) => Some(c.clone()),
            None => None,
        };
        let gpu_ids = self.gpu_ids.clone();
        assert(gpu_ids@ =~= self.gpu_ids@);
        Worker {
            id: self.id,
            deployment_id: self.deployment_id,
            index: self.index,
            status: self.status,
            endpoint: self.endpoint.clone(),
            pid: self.pid,
            container_id,
            gpu_ids,
            created_at: self.created_at,
            last_health_check: self.last_health_check,
        }
    }
}

impl Worker {
    /// A `Pending` worker of deployment `deployment_id` at `127.0.0.1:port`,
    /// with a fresh identifier, no GPUs, and the current time as its creation time.
    pub fn new(deployment_id: u128, index: u32, port: u16) -> (r: Self)
        ensures
            r.deployment_id == deployment_id,
            r.index == index,
            r.status == WorkerStatus::Pending,
            r.endpoint.host@ == "127.0.0.1"@,
            r.endpoint.port == port,
            !r.endpoint.tls,
            r.pid is None,
            r.container_id is None,
            r.gpu_ids@.len() == 0,
            r.last_health_check is None,
    {
        Worker {
            id: new_id(),
            deployment_id,
            index,
            status: WorkerStatus::Pending,
            endpoint: Endpoint::new(String::from_str("127.0.0.1"), port),
            pid: None,
            container_id: None,
            gpu_ids: Vec::new(),
            created_at: now_millis(),
            last_health_check: None,
        }
    }

    /// Whether the worker is running, the one state counted as healthy.
    pub fn is_healthy(&self) -> (r: bool)
        ensures
            r == (self.status == WorkerStatus::Running),
    {
        self.status == WorkerStatus::Running
    }
}

/// The life cycle of a worker.
#[derive(Debug, Clone, Copy, PartialEq, Eq, Structural)]
pub enum WorkerStatus {
    /// Worker is being created
    Pending,
    /// Worker is starting up
    Starting,
    /// Worker is running and healthy
    Running,
    /// Worker is unhealthy
    Unhealthy,
    /// Worker is being terminated
    Terminating,
    /// Worker has terminated
    Terminated,
    /// Worker encountered an error
    Error,
}

/// The display name of a worker status.
pub open spec fn status_name(s: WorkerStatus) -> Seq<char> {
    match s {
        WorkerStatus::Pending => "Pending"@,
        WorkerStatus::Starting => "Starting"@,
        WorkerStatus::Running => "Running"@,
        WorkerStatus::Unhealthy => "Unhealthy"@,
        WorkerStatus::Terminating => "Terminating"@,
        WorkerStatus::Terminated => "Terminated"@,
        WorkerStatus::Error => "Error"@,
    }
}

impl WorkerStatus {
    /// The display name of this status.
    pub fn to_string(&self) -> (r: String)
        ensures
            r@ == status_name(*self),
    {
        match self {
            WorkerStatus::Pending => String::from_str("Pending"),
            WorkerStatus::Starting => String::from_str("Starting"),
            WorkerStatus::Running => String::from_str("Running"),
            WorkerStatus::Unhealthy => String::from_str("Unhealthy"),
            WorkerStatus::Terminating => String::from_str("Terminating"),
            WorkerStatus::Terminated => String::from_str("Terminated"),
            WorkerStatus::Error => String::from_str("Error"),
        }
    }
}

/// The network endpoint of a worker.
#[derive(Debug)]
pub struct Endpoint {
    /// Host address
    pub host: String,
    /// Port number
    pub port: u16,
    /// Whether TLS is enabled
    pub tls: bool,
}

impl Clone for Endpoint {
    fn clone(&self) -> (r: Self)
        ensures
            r == *self,
    {
        Endpoint { host: self.host.clone(), port: self.port, tls: self.tls }
    }
}

/// The URL of an endpoint: `scheme://host:port`, the scheme `https` with TLS
/// and `http` without.
pub open spec fn endpoint_url(e: Endpoint) -> Seq<char> {
    (if e.tls {
        "https"@
    } else {
        "http"@
    }) + "://"@ + e.host@ + ":"@ + decimal(e.port as nat)
}

impl Endpoint {
    /// An endpoint at `host:port` without TLS.
    pub fn new(host: String, port: u16) -> (r: Self)
        ensures
            r.host == host,
            r.port == port,
            !r.tls,
    {
        Endpoint { host, port, tls: false }
    }

    /// The URL of this endpoint.
    pub fn url(&self) -> (r: String)
        ensures
            r@ == endpoint_url(*self),
    {
        let scheme = if self.tls {
            "https"
        } else {
            "http"
        };
        String::from_str(scheme).concat("://").concat(self.host.as_str()).concat(":").concat(
            u64_text(self.port as u64).as_str(),
        )
    }
}

/// The number of running workers.
pub open spec fn count_running(ws: Seq<Worker>) -> nat
    decreases ws.len(),
{
    if ws.len() == 0 {
        0
    } else {
        count_running(ws.drop_last()) + if ws.last().status == WorkerStatus::Running {
            1nat
        } else {
            0nat
        }
    }
}

/// Whether a worker counts as available: it is neither terminated nor failed.
pub open spec fn is_available(w: Worker) -> bool {
    w.status != WorkerStatus::Terminated && w.status != WorkerStatus::Error
}

/// The number of available workers.
pub open spec fn count_available(ws: Seq<Worker>) -> nat
    decreases ws.len(),
{
    if ws.len() == 0 {
        0
    } else {
        count_available(ws.drop_last()) + if is_available(ws.last()) {
            1nat
        } else {
            0nat
        }
    }
}

/// The phase of a deployment that wants `replicas` replicas and has `workers`
/// workers, `ready` of them running.
pub open spec fn phase_of(replicas: u32, ready: nat, workers: nat) -> DeploymentPhase {
    if ready == replicas {
        DeploymentPhase::Ready
    } else if ready > 0 {
        DeploymentPhase::Progressing
    } else if workers == 0 {
        DeploymentPhase::Pending
    } else {
        DeploymentPhase::Progressing
    }
}

/// A running count never exceeds the number of workers.
pub proof fn lemma_counts_bounded(ws: Seq<Worker>)
    ensures
        count_running(ws) <= ws.len(),
        count_available(ws) <= ws.len(),
    decreases ws.len(),
{
    if ws.len() > 0 {
        lemma_counts_bounded(ws.drop_last());
    }
}

/// A deployment spec with its current workers and the counts derived from them.
#[derive(Debug, Clone)]
pub struct DeploymentStatus {
    /// Deployment specification
    pub spec: DeploymentSpec,
    /// Current workers
    pub workers: Vec<Worker>,
    /// Number of ready replicas
    pub ready_replicas: u32,
    /// Number of available replicas
    pub available_replicas: u32,
    /// Overall deployment phase
    pub phase: DeploymentPhase,
}

impl DeploymentStatus {
    /// The status of `spec` with `workers`: running workers are ready, those
    /// neither terminated nor failed are available, and the phase follows.
    pub fn new(spec: DeploymentSpec, workers: Vec<Worker>) -> (r: Self)
        requires
            workers@.len() <= u32::MAX,
        ensures
            r.spec == spec,
            r.workers == workers,
            r.ready_replicas == count_running(workers@),
            r.available_replicas == count_available(workers@),
            r.phase == phase_of(spec.replicas, count_running(workers@), workers@.len()),
    {
        let mut ready: u32 = 0;
        let mut available: u32 = 0;
        let mut i: usize = 0;
        while i < workers.len()
            invariant
                i <= workers@.len() <= u32::MAX,
                ready == count_running(workers@.subrange(0, i as int)),
                available == count_available(workers@.subrange(0, i as int)),
            decreases workers@.len() - i,
        {
            let ghost prefix = workers@.subrange(0, i as int + 1);
            assert(prefix.drop_last() =~= workers@.subrange(0, i as int));
            proof {
                lemma_counts_bounded(workers@.subrange(0, i as int));
            }
            if workers[i].is_healthy() {
                ready = ready + 1;
            }
            let s = workers[i].status;
            if s != WorkerStatus::Terminated && s != WorkerStatus::Error {
                available = available + 1;
            }
            i = i + 1;
        }
        assert(workers@.subrange(0, i as int) =~= workers@);
        let phase = if ready == spec.replicas {
            DeploymentPhase::Ready
        } else if ready > 0 {
            DeploymentPhase::Progressing
        } else if workers.len() == 0 {
            DeploymentPhase::Pending
        } else {
            DeploymentPhase::Progressing
        };
        DeploymentStatus { spec, workers, ready_replicas: ready, available_replicas: available, phase }
    }
}

/// The convergence summary of a deployment.
#[derive(Debug, Clone, Copy, PartialEq, Eq, Structural)]
pub enum DeploymentPhase {
    /// Deployment is pending
    Pending,
    /// Deployment is progressing
    Progressing,
    /// All replicas are ready
    Ready,
    /// Deployment failed
    Failed,
}

/// The display name of a phase.
pub open spec fn phase_name(p: DeploymentPhase) -> Seq<char> {
    match p {
        DeploymentPhase::Pending => "Pending"@,
        DeploymentPhase::Progressing => "Progressing"@,
        DeploymentPhase::Ready => "Ready"@,
        DeploymentPhase::Failed => "Failed"@,
    }
}

impl DeploymentPhase {
    /// The display name of this phase.
    pub fn to_string(&self) -> (r: String)
        ensures
            r@ == phase_name(*self),
    {
        match self {
            DeploymentPhase::Pending => String::from_str("Pending"),
            DeploymentPhase::Progressing => String::from_str("Progressing"),
            DeploymentPhase::Ready => String::from_str("Ready"),
            DeploymentPhase::Failed => String::from_str("Failed"),
        }
    }
}

} // verus!
