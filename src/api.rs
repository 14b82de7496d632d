//! What the REST layer and the command line compute on the way in and out:
//! specs from requests, responses from statuses, default names.

use crate::gpu::GpuInfo;
use crate::model::{
    endpoint_url, phase_name, status_name, BackendType, DeploymentSpec, DeploymentStatus,
    ResourceRequirements, Worker,
};
use vstd::prelude::*;

verus! {

/// A request to create a deployment.
#[derive(Debug, Clone)]
pub struct CreateDeploymentRequest {
    /// Deployment name
    pub name: String,
    /// Model reference
    pub model: String,
    /// Number of replicas
    pub replicas: u32,
    /// Number of GPUs per worker
    pub gpu_count: u32,
    /// Backend type
    pub backend: String,
    /// Context size
    pub context_size: u32,
}

/// The replica count of a request that names none.
pub fn default_replicas() -> (r: u32)
    ensures
        r == 1,
{
    1
}

/// The context size of a request that names none.
pub fn default_context_size() -> (r: u32)
    ensures
        r == 4096,
{
    4096
}

/// What std's `str::to_lowercase` makes of a text.
pub uninterp spec fn lower_of(s: Seq<char>) -> Seq<char>;

/// Relies on std's `str::to_lowercase`: the lower-case form, which depends on
/// the characters alone and is empty exactly when the text is.
#[verifier::external_body]
fn lowercase(s: &str) -> (r: String)
    ensures
        r@ == lower_of(s@),
        r@.len() == 0 <==> s@.len() == 0,
{
    s.to_lowercase()
}

/// The backend that a lower-case backend name selects: `llama.cpp` or
/// `llamacpp`, `vllm`, `mlx`; any other name selects llama.cpp.
pub open spec fn backend_of(lowered: Seq<char>) -> BackendType {
    if lowered == "vllm"@ {
        BackendType::Vllm
    } else if lowered == "mlx"@ {
        BackendType::Mlx
    } else {
        BackendType::LlamaCpp
    }
}

/// The backend that a lower-case backend name selects.
pub fn parse_backend(lowered: &String) -> (r: BackendType)
    ensures
        r == backend_of(lowered@),
{
    if *lowered == String::from_str("vllm") {
        BackendType::Vllm
    } else if *lowered == String::from_str("mlx") {
        BackendType::Mlx
    } else {
        BackendType::LlamaCpp
    }
}

/// The backend a request asks for: llama.cpp when it names none, else the
/// one its name selects, case aside.
pub open spec fn requested_backend(backend: Seq<char>) -> BackendType {
    if backend.len() == 0 {
        BackendType::LlamaCpp
    } else {
        backend_of(lower_of(backend))
    }
}

impl CreateDeploymentRequest {
    /// A fresh deployment spec for this request: its name, model, replicas,
    /// GPUs per worker, context size and backend; everything else default.
    pub fn into_spec(self) -> (r: DeploymentSpec)
        ensures
            r.name == self.name,
            r.model == self.model,
            r.replicas == self.replicas,
            r.resources.memory is None,
            r.resources.gpu_count == self.gpu_count,
            r.resources.gpu_ids@.len() == 0,
            r.backend.context_size == self.context_size,
            r.backend.backend_type == requested_backend(self.backend@),
            r.backend.extra_args@.len() == 0,
            r.autoscale is None,
    {
        let backend_type = if self.backend.as_str().unicode_len() == 0 {
            BackendType::LlamaCpp
        } else {
            parse_backend(&lowercase(self.backend.as_str()))
        };
        let mut spec = DeploymentSpec::new(self.name, self.model);
        spec.replicas = self.replicas;
        spec.resources = ResourceRequirements {
            memory: None,
            gpu_count: self.gpu_count,
            gpu_ids: Vec::new(),
        };
        spec.backend.context_size = self.context_size;
        spec.backend.backend_type = backend_type;
        spec
    }
}

/// A request to scale a deployment.
#[derive(Debug, Clone, Copy)]
pub struct ScaleRequest {
    pub replicas: u32,
}

/// A deployment as the REST layer reports it.
#[derive(Debug, Clone)]
pub struct DeploymentResponse {
    pub id: u128,
    pub name: String,
    pub model: String,
    pub replicas: u32,
    pub ready_replicas: u32,
    pub phase: String,
}

impl DeploymentResponse {
    /// The report of `status`.
    pub fn from_status(status: DeploymentStatus) -> (r: Self)
        ensures
            r.id == status.spec.id,
            r.name == status.spec.name,
            r.model == status.spec.model,
            r.replicas == status.spec.replicas,
            r.ready_replicas == status.ready_replicas,
            r.phase@ == phase_name(status.phase),
    {
        let phase = status.phase.to_string();
        DeploymentResponse {
            id: status.spec.id,
            name: status.spec.name,
            model: status.spec.model,
            replicas: status.spec.replicas,
            ready_replicas: status.ready_replicas,
            phase,
        }
    }
}

/// A worker as the REST layer reports it.
#[derive(Debug, Clone)]
pub struct WorkerResponse {
    pub id: u128,
    pub index: u32,
    pub status: String,
    pub endpoint: String,
    pub gpu_ids: Vec<u32>,
}

impl WorkerResponse {
    /// The report of `w`: its status by name and its endpoint as a URL.
    pub fn from_worker(w: Worker) -> (r: Self)
        ensures
            r.id == w.id,
            r.index == w.index,
            r.status@ == status_name(w.status),
            r.endpoint@ == endpoint_url(w.endpoint),
            r.gpu_ids == w.gpu_ids,
    {
        let status = w.status.to_string();
        let endpoint = w.endpoint.url();
        WorkerResponse { id: w.id, index: w.index, status, endpoint, gpu_ids: w.gpu_ids }
    }
}

/// The system status that the REST layer reports.
#[derive(Debug, Clone)]
pub struct StatusResponse {
    pub version: String,
    pub deployments: usize,
    pub workers: usize,
    pub gpus: GpuInfo,
}

/// The number of workers over all statuses.
pub open spec fn workers_in(statuses: Seq<DeploymentStatus>) -> nat
    decreases statuses.len(),
{
    if statuses.len() == 0 {
        0
    } else {
        workers_in(statuses.drop_last()) + statuses.last().workers@.len()
    }
}

impl StatusResponse {
    /// The status of a system at `version` with these deployments and GPUs.
    pub fn new(version: String, statuses: &Vec<DeploymentStatus>, gpus: GpuInfo) -> (r: Self)
        requires
            workers_in(statuses@) <= usize::MAX,
        ensures
            r.version == version,
            r.deployments == statuses@.len(),
            r.workers == workers_in(statuses@),
            r.gpus == gpus,
    {
        let mut total: usize = 0;
        let mut i: usize = 0;
        while i < statuses.len()
            invariant
                i <= statuses@.len(),
                workers_in(statuses@) <= usize::MAX,
                total == workers_in(statuses@.subrange(0, i as int)),
            decreases statuses@.len() - i,
        {
            let ghost prefix = statuses@.subrange(0, i as int + 1);
            assert(prefix.drop_last() =~= statuses@.subrange(0, i as int));
            proof {
                lemma_workers_in_prefix(statuses@, i as int + 1);
            }
            total = total + statuses[i].workers.len();
            i = i + 1;
        }
        assert(statuses@.subrange(0, i as int) =~= statuses@);
        StatusResponse { version, deployments: statuses.len(), workers: total, gpus }
    }
}

/// A prefix never holds more workers than the whole.
proof fn lemma_workers_in_prefix(s: Seq<DeploymentStatus>, n: int)
    requires
        0 <= n <= s.len(),
    ensures
        workers_in(s.subrange(0, n)) <= workers_in(s),
    decreases s.len() - n,
{
    if n < s.len() {
        lemma_workers_in_prefix(s, n + 1);
        assert(s.subrange(0, n + 1).drop_last() =~= s.subrange(0, n));
    } else {
        assert(s.subrange(0, n) =~= s);
    }
}

/// The number of workers over all statuses, or `None` when it does not fit a
/// `usize`.
pub fn workers_total(statuses: &Vec<DeploymentStatus>) -> (r: Option<usize>)
    ensures
        r matches Some(n) ==> n == workers_in(statuses@),
        r is None ==> workers_in(statuses@) > usize::MAX,
{
    let mut total: usize = 0;
    let mut i: usize = 0;
    while i < statuses.len()
        invariant
            i <= statuses@.len(),
            total == workers_in(statuses@.subrange(0, i as int)),
        decreases statuses@.len() - i,
    {
        let ghost prefix = statuses@.subrange(0, i as int + 1);
        assert(prefix.drop_last() =~= statuses@.subrange(0, i as int));
        let n = statuses[i].workers.len();
        if total > usize::MAX - n {
            proof {
                lemma_workers_in_prefix(statuses@, i as int + 1);
            }
            return None;
        }
        total = total + n;
        i = i + 1;
    }
    assert(statuses@.subrange(0, i as int) =~= statuses@);
    Some(total)
}

/// The part of `s` after its last `sep`, or all of it.
pub open spec fn after_last(s: Seq<char>, sep: char) -> Seq<char>
    decreases s.len(),
{
    if s.len() == 0 {
        s
    } else if s.last() == sep {
        Seq::empty()
    } else {
        after_last(s.drop_last(), sep).push(s.last())
    }
}

/// The part of `s` before its first `sep`, or all of it.
pub open spec fn before_first(s: Seq<char>, sep: char) -> Seq<char>
    decreases s.len(),
{
    if s.len() == 0 {
        s
    } else if s[0] == sep {
        Seq::empty()
    } else {
        seq![s[0]] + before_first(s.drop_first(), sep)
    }
}

/// The name of a deployment of `model` when none is given: the last path
/// segment of the reference, without its tag (`ai/llama3:8b` gives `llama3`).
pub fn default_name(model: &str) -> (r: String)
    ensures
        r@ == before_first(after_last(model@, '/'), ':'),
{
    let n = model.unicode_len();
    let mut start: usize = n;
    assert(model@.subrange(0, n as int) =~= model@);
    assert(model@ + model@.subrange(n as int, n as int) =~= model@);
    while start > 0 && model.get_char(start - 1) != '/'
        invariant
            start <= n == model@.len(),
            after_last(model@, '/') == after_last(model@.subrange(0, start as int), '/')
                + model@.subrange(start as int, n as int),
            forall|k: int| start <= k < n ==> model@[k] != '/',
        decreases start,
    {
        let ghost pre = model@.subrange(0, start as int);
        assert(pre.drop_last() =~= model@.subrange(0, start as int - 1));
        assert(pre.last() == model@[start - 1]);
        assert(model@.subrange(start as int - 1, n as int) =~= seq![model@[start - 1]]
            + model@.subrange(start as int, n as int));
        assert(after_last(pre, '/') == after_last(pre.drop_last(), '/').push(pre.last()));
        assert(after_last(pre.drop_last(), '/').push(pre.last()) + model@.subrange(start as int, n as int)
            =~= after_last(pre.drop_last(), '/') + model@.subrange(start as int - 1, n as int));
        start = start - 1;
    }
    if start > 0 {
        let ghost pre = model@.subrange(0, start as int);
        assert(pre.last() == model@[start - 1]);
    }
    let ghost tail = model@.subrange(start as int, n as int);
    assert(after_last(model@, '/') =~= tail) by {
        if start == 0 {
            assert(model@.subrange(0, 0) =~= Seq::<char>::empty());
        }
    }
    let mut end: usize = start;
    while end < n && model.get_char(end) != ':'
        invariant
            start <= end <= n == model@.len(),
            tail == model@.subrange(start as int, n as int),
            before_first(tail, ':') == model@.subrange(start as int, end as int) + before_first(
                model@.subrange(end as int, n as int),
                ':',
            ),
        decreases n - end,
    {
        let ghost rest = model@.subrange(end as int, n as int);
        assert(rest[0] == model@[end as int]);
        assert(rest.drop_first() =~= model@.subrange(end as int + 1, n as int));
        assert(model@.subrange(start as int, end as int + 1) =~= model@.subrange(start as int, end as int)
            + seq![model@[end as int]]);
        end = end + 1;
    }
    if end < n {
        let ghost rest = model@.subrange(end as int, n as int);
        assert(rest[0] == model@[end as int]);
    } else {
        assert(model@.subrange(end as int, n as int) =~= Seq::<char>::empty());
    }
    let r = String::from_str(model.substring_char(start, end));
    assert(r@ =~= before_first(tail, ':'));
    r
}

/// The identifier of the first deployment named `name`, if any.
pub fn find_by_name(deployments: &Vec<DeploymentResponse>, name: &String) -> (r: Option<u128>)
    ensures
        r is None <==> forall|k: int| 0 <= k < deployments@.len() ==> deployments@[k].name@ != name@,
        r matches Some(id) ==> exists|k: int|
            0 <= k < deployments@.len() && deployments@[k].name@ == name@ && deployments@[k].id == id
                && forall|j: int| 0 <= j < k ==> deployments@[j].name@ != name@,
{
    let mut i: usize = 0;
    while i < deployments.len()
        invariant
            i <= deployments@.len(),
            forall|j: int| 0 <= j < i ==> deployments@[j].name@ != name@,
        decreases deployments@.len() - i,
    {
        if deployments[i].name == *name {
            return Some(deployments[i].id);
        }
        i = i + 1;
    }
    None
}

} // verus!
