//! The scheduler: the deployment and worker registries, the GPU allocator and
//! the port pool, kept consistent under create, scale, delete and status
//! updates.

use crate::error::{DmrletError, DmrletResult};
use crate::gpu::{detect_gpus, GpuInfo};
use crate::gpu_allocator::{
    increasing_indices, lemma_free_gpus, lemma_free_gpus_grow, lemma_without_prefix, GpuAllocator,
};
use crate::model::{
    count_available, count_running, phase_of, DeploymentPhase, DeploymentSpec, DeploymentStatus, Endpoint, Worker,
    WorkerStatus, WorkerView,
};
use crate::placement::{default_places, DefaultPlacementStrategy, PlacementStrategy};
use crate::pool::{
    free_ports, gpus_match, lemma_free_ports, lemma_free_ports_grow, lemma_free_ports_release,
    lemma_match_push, lemma_match_remove, lemma_match_same_holdings, ports_match,
};
use crate::text::{id_text, uuid_text};
use std::collections::HashSet;
use vstd::arithmetic::div_mod::lemma_fundamental_div_mod;
use vstd::prelude::*;

verus! {

broadcast use vstd::std_specs::hash::group_hash_axioms;

/// No two deployments share an identifier.
pub open spec fn unique_ids(ds: Seq<DeploymentSpec>) -> bool {
    forall|i: int, j: int| 0 <= i < j < ds.len() ==> ds[i].id != ds[j].id
}

/// Deployment `id` is stored.
pub open spec fn stored(ds: Seq<DeploymentSpec>, id: u128) -> bool {
    exists|k: int| 0 <= k < ds.len() && ds[k].id == id
}

/// Every worker belongs to a stored deployment.
pub open spec fn owners_stored(ds: Seq<DeploymentSpec>, ws: Seq<Worker>) -> bool {
    forall|i: int| 0 <= i < ws.len() ==> stored(ds, #[trigger] ws[i].deployment_id)
}

/// The position of deployment `id`, or -1 when there is none.
pub open spec fn deployment_index(ds: Seq<DeploymentSpec>, id: u128) -> int
    decreases ds.len(),
{
    if ds.len() == 0 {
        -1
    } else if ds.last().id == id {
        ds.len() - 1
    } else {
        deployment_index(ds.drop_last(), id)
    }
}

/// The registry after storing `spec`: it replaces the deployment with the same
/// identifier, or comes last.
pub open spec fn upsert(ds: Seq<DeploymentSpec>, spec: DeploymentSpec) -> Seq<DeploymentSpec> {
    let k = deployment_index(ds, spec.id);
    if k >= 0 {
        ds.update(k, spec)
    } else {
        ds.push(spec)
    }
}

/// `d` with its replica count set to `replicas`.
pub open spec fn with_replicas(d: DeploymentSpec, replicas: u32) -> DeploymentSpec {
    DeploymentSpec { replicas, ..d }
}

/// The workers of deployment `id`, in creation order.
pub open spec fn workers_of(ws: Seq<Worker>, id: u128) -> Seq<Worker>
    decreases ws.len(),
{
    if ws.len() == 0 {
        Seq::empty()
    } else if ws.last().deployment_id == id {
        workers_of(ws.drop_last(), id).push(ws.last())
    } else {
        workers_of(ws.drop_last(), id)
    }
}

/// The workers of every deployment but `id`, in creation order.
pub open spec fn workers_not_of(ws: Seq<Worker>, id: u128) -> Seq<Worker>
    decreases ws.len(),
{
    if ws.len() == 0 {
        Seq::empty()
    } else if ws.last().deployment_id == id {
        workers_not_of(ws.drop_last(), id)
    } else {
        workers_not_of(ws.drop_last(), id).push(ws.last())
    }
}

/// The registry without the `k` most recently created workers of `id`.
pub open spec fn drop_last_of(ws: Seq<Worker>, id: u128, k: nat) -> Seq<Worker>
    decreases ws.len(),
{
    if ws.len() == 0 || k == 0 {
        ws
    } else if ws.last().deployment_id == id {
        drop_last_of(ws.drop_last(), id, (k - 1) as nat)
    } else {
        drop_last_of(ws.drop_last(), id, k).push(ws.last())
    }
}

/// The endpoints of the running workers, in creation order.
pub open spec fn running_endpoints(ws: Seq<Worker>) -> Seq<Endpoint>
    decreases ws.len(),
{
    if ws.len() == 0 {
        Seq::empty()
    } else if ws.last().status == WorkerStatus::Running {
        running_endpoints(ws.drop_last()).push(ws.last().endpoint)
    } else {
        running_endpoints(ws.drop_last())
    }
}

/// The workers as values.
pub open spec fn views(ws: Seq<Worker>) -> Seq<WorkerView> {
    ws.map_values(|w: Worker| w@)
}

/// `w` with its status set to `status`.
pub open spec fn with_status(w: Worker, status: WorkerStatus) -> Worker {
    Worker { status, ..w }
}

/// How many workers of `gpu_count` GPUs fit in `ports` free ports and `gpus`
/// free GPUs.
pub open spec fn capacity(ports: nat, gpus: nat, gpu_count: nat) -> nat {
    if gpu_count == 0 {
        ports
    } else {
        vstd::math::min(ports as int, (gpus / gpu_count) as int) as nat
    }
}

/// The smaller of two counts.
pub open spec fn min_nat(a: nat, b: nat) -> nat {
    if a <= b {
        a
    } else {
        b
    }
}

/// Below capacity, one more worker fits exactly when a port and `gpu_count`
/// GPUs are left.
proof fn lemma_capacity(fp: nat, fg: nat, g: nat, p: nat)
    requires
        p <= capacity(fp, fg, g),
    ensures
        p <= fp,
        g * p <= fg,
        p < capacity(fp, fg, g) <==> (p < fp && g * p + g <= fg),
        g * (p + 1) == g * p + g,
{
    assert(g * (p + 1) == g * p + g) by (nonlinear_arith);
    if g > 0 {
        lemma_fundamental_div_mod(fg as int, g as int);
        let q = fg / g;
        let r = fg % g;
        assert(p <= q);
        assert(g * p <= g * q) by (nonlinear_arith)
            requires
                p <= q,
        ;
        assert(p + 1 <= q ==> g * (p + 1) <= g * q) by (nonlinear_arith);
        assert(g * (p + 1) <= fg ==> p + 1 <= q) by (nonlinear_arith)
            requires
                fg == g * q + r,
                r < g,
        ;
    }
}

/// A deployment's workers never outnumber the registry.
proof fn lemma_workers_of_len(ws: Seq<Worker>, id: u128)
    ensures
        workers_of(ws, id).len() <= ws.len(),
    decreases ws.len(),
{
    if ws.len() > 0 {
        lemma_workers_of_len(ws.drop_last(), id);
    }
}

/// The position found for a deployment holds it, and none is found only when
/// it is absent.
proof fn lemma_deployment_index(ds: Seq<DeploymentSpec>, id: u128)
    ensures
        -1 <= deployment_index(ds, id) < ds.len(),
        deployment_index(ds, id) >= 0 ==> ds[deployment_index(ds, id)].id == id,
        deployment_index(ds, id) < 0 ==> forall|k: int| 0 <= k < ds.len() ==> ds[k].id != id,
    decreases ds.len(),
{
    if ds.len() > 0 {
        lemma_deployment_index(ds.drop_last(), id);
        if ds.last().id != id {
            assert forall|k: int| 0 <= k < ds.len() - 1 implies ds[k] == ds.drop_last()[k] by {}
        }
    }
}

/// Manages deployments and the placement of their workers.
pub struct Scheduler {
    /// Deployments, in order of creation
    deployments: Vec<DeploymentSpec>,
    /// Workers, in order of creation
    workers: Vec<Worker>,
    /// GPU allocator
    gpu_allocator: GpuAllocator,
    /// Placement strategy
    placement_strategy: DefaultPlacementStrategy,
    /// First port for workers
    base_port: u16,
    /// End of the port range (exclusive)
    max_port: u16,
    /// Ports held by workers
    allocated_ports: HashSet<u16>,
}

impl Scheduler {
    /// The deployments, in order of creation.
    pub closed spec fn deployments(&self) -> Seq<DeploymentSpec> {
        self.deployments@
    }

    /// The workers, in order of creation.
    pub closed spec fn workers(&self) -> Seq<Worker> {
        self.workers@
    }

    /// The GPU allocator.
    pub closed spec fn allocator(&self) -> GpuAllocator {
        self.gpu_allocator
    }

    /// The ports in use.
    pub closed spec fn ports(&self) -> Set<u16> {
        self.allocated_ports@
    }

    /// The first port of the pool.
    pub closed spec fn base_port(&self) -> u16 {
        self.base_port
    }

    /// The end of the pool (exclusive).
    pub closed spec fn max_port(&self) -> u16 {
        self.max_port
    }

    /// The free ports of the pool, in increasing order.
    pub open spec fn free_ports(&self) -> Seq<u16> {
        free_ports(self.ports(), self.base_port() as int, self.max_port() as int)
    }

    /// How many more workers of `gpu_count` GPUs fit.
    pub open spec fn capacity_for(&self, gpu_count: u32) -> nat {
        capacity(self.free_ports().len(), self.allocator().free().len(), gpu_count as nat)
    }

    /// The scheduler is consistent: deployment identifiers are unique, every
    /// worker belongs to a stored deployment, each worker holds a distinct port of the pool and GPUs that no other worker
    /// holds, the pool and the allocator mark exactly what workers hold, and
    /// every port of the pool is either held or free.
    pub open spec fn wf(&self) -> bool {
        &&& self.allocator().wf()
        &&& self.base_port() <= self.max_port()
        &&& unique_ids(self.deployments())
        &&& owners_stored(self.deployments(), self.workers())
        &&& ports_match(
            self.workers(),
            self.ports(),
            self.base_port() as int,
            self.max_port() as int,
        )
        &&& gpus_match(self.workers(), self.allocator().allocated())
        &&& self.workers().len() + self.free_ports().len() == self.max_port() - self.base_port()
    }

    /// A scheduler over the ports `[base_port, base_port + max_workers)` and
    /// the GPUs that the probe reports.
    pub fn new(base_port: u16, max_workers: u32) -> (r: Self)
        requires
            base_port + max_workers <= u16::MAX,
        ensures
            r.wf(),
            r.base_port() == base_port,
            r.max_port() == base_port + max_workers,
            r.deployments().len() == 0,
            r.workers().len() == 0,
            r.allocator().devices().len() == 0,
            r.free_ports().len() == max_workers,
    {
        Self::with_gpus(base_port, max_workers, detect_gpus())
    }

    /// A scheduler over the ports `[base_port, base_port + max_workers)` and
    /// the GPUs of `gpu_info`.
    pub fn with_gpus(base_port: u16, max_workers: u32, gpu_info: GpuInfo) -> (r: Self)
        requires
            base_port + max_workers <= u16::MAX,
            increasing_indices(gpu_info.devices@),
            gpu_info.devices@.len() <= u32::MAX,
        ensures
            r.wf(),
            r.base_port() == base_port,
            r.max_port() == base_port + max_workers,
            r.deployments().len() == 0,
            r.workers().len() == 0,
            r.allocator().devices() == gpu_info.devices@,
            r.allocator().allocated() == Set::<u32>::empty(),
            r.free_ports().len() == max_workers,
    {
        let max_port = base_port + max_workers as u16;
        let r = Scheduler {
            deployments: Vec::new(),
            workers: Vec::new(),
            gpu_allocator: GpuAllocator::new(gpu_info),
            placement_strategy: DefaultPlacementStrategy,
            base_port,
            max_port,
            allocated_ports: HashSet::new(),
        };
        proof {
            lemma_all_ports_free(r.allocated_ports@, base_port as int, max_port as int);
        }
        r
    }

    /// The free ports of the pool, in increasing order.
    fn get_available_ports(&self) -> (r: Vec<u16>)
        requires
            self.base_port <= self.max_port,
        ensures
            r@ == self.free_ports(),
    {
        let mut r: Vec<u16> = Vec::new();
        let mut p: u16 = self.base_port;
        while p < self.max_port
            invariant
                self.base_port <= p <= self.max_port,
                r@ == free_ports(self.allocated_ports@, self.base_port as int, p as int),
            decreases self.max_port - p,
        {
            if !self.allocated_ports.contains(&p) {
                r.push(p);
            }
            p = p + 1;
        }
        r
    }

    /// The number of workers of deployment `id`.
    fn count_workers_of(&self, id: u128) -> (r: u32)
        requires
            self.wf(),
        ensures
            r == workers_of(self.workers(), id).len(),
    {
        let mut n: u32 = 0;
        let mut i: usize = 0;
        while i < self.workers.len()
            invariant
                self.wf(),
                i <= self.workers@.len(),
                n == workers_of(self.workers@.subrange(0, i as int), id).len(),
            decreases self.workers@.len() - i,
        {
            let ghost prefix = self.workers@.subrange(0, i as int + 1);
            assert(prefix.drop_last() =~= self.workers@.subrange(0, i as int));
            proof {
                lemma_workers_of_len(self.workers@.subrange(0, i as int), id);
            }
            if self.workers[i].deployment_id == id {
                n = n + 1;
            }
            i = i + 1;
        }
        assert(self.workers@.subrange(0, i as int) =~= self.workers@);
        n
    }

    /// The position of deployment `id`.
    fn find_deployment(&self, id: u128) -> (r: Option<usize>)
        ensures
            r matches Some(k) ==> k as int == deployment_index(self.deployments(), id),
            r is None <==> deployment_index(self.deployments(), id) < 0,
    {
        let mut i: usize = self.deployments.len();
        assert(self.deployments@.subrange(0, i as int) =~= self.deployments@);
        while i > 0
            invariant
                i <= self.deployments@.len(),
                deployment_index(self.deployments@, id) == deployment_index(
                    self.deployments@.subrange(0, i as int),
                    id,
                ),
            decreases i,
        {
            let ghost prefix = self.deployments@.subrange(0, i as int);
            assert(prefix.drop_last() =~= self.deployments@.subrange(0, i as int - 1));
            if self.deployments[i - 1].id == id {
                return Some(i - 1);
            }
            i = i - 1;
        }
        None
    }

    /// Places one worker of `spec`, indexed by the number of workers the
    /// deployment already has, at `127.0.0.1` without TLS, on the first free
    /// port with the first `gpu_count` free GPUs; all or nothing.
    fn schedule_worker(&mut self, spec: &DeploymentSpec) -> (r: DmrletResult<()>)
        requires
            old(self).wf(),
            stored(old(self).deployments(), spec.id),
        ensures
            final(self).wf(),
            final(self).deployments() == old(self).deployments(),
            final(self).base_port() == old(self).base_port(),
            final(self).max_port() == old(self).max_port(),
            final(self).allocator().devices() == old(self).allocator().devices(),
            default_places(
                spec.resources.gpu_count,
                old(self).allocator().free(),
                old(self).free_ports(),
            ) ==> {
                &&& r is Ok
                &&& final(self).workers().len() == old(self).workers().len() + 1
                &&& final(self).workers().drop_last() == old(self).workers()
                &&& final(self).workers().last().deployment_id == spec.id
                &&& final(self).workers().last().index == workers_of(old(self).workers(), spec.id).len()
                &&& final(self).workers().last().status == WorkerStatus::Pending
                &&& final(self).workers().last().endpoint.host@ == "127.0.0.1"@
                &&& !final(self).workers().last().endpoint.tls
                &&& final(self).workers().last().endpoint.port == old(self).free_ports()[0]
                &&& final(self).workers().last().gpu_ids@ == old(self).allocator().free().take(
                    spec.resources.gpu_count as int,
                )
                &&& final(self).free_ports() == old(self).free_ports().skip(1)
                &&& final(self).allocator().free() == old(self).allocator().free().skip(
                    spec.resources.gpu_count as int,
                )
            },
            !default_places(
                spec.resources.gpu_count,
                old(self).allocator().free(),
                old(self).free_ports(),
            ) ==> *final(self) == *old(self) && r matches Err(DmrletError::ResourceExhausted(_)),
    {
        let available_gpus = self.gpu_allocator.free_indices();
        let available_ports = self.get_available_ports();
        let existing = self.count_workers_of(spec.id);
        let decision = match self.placement_strategy.place(
            spec,
            existing,
            available_gpus.as_slice(),
            available_ports.as_slice(),
        ) {
            Some(d) => d,
            None => {
                return Err(
                    DmrletError::ResourceExhausted(
                        String::from_str("No resources available for worker"),
                    ),
                );
            },
        };
        let ghost old_self = *self;
        let ghost fp = available_ports@;
        let ghost fg = available_gpus@;
        let g = spec.resources.gpu_count;
        proof {
            lemma_free_gpus(self.gpu_allocator.devices(), self.gpu_allocator.allocated());
            lemma_free_ports(self.allocated_ports@, self.base_port as int, self.max_port as int);
        }
        if g > 0 {
            match self.gpu_allocator.allocate(g) {
                Ok(_) => {},
                Err(e) => {
                    return Err(e);
                },
            }
        }
        proof {
            lemma_free_gpus_grow(
                old_self.gpu_allocator.devices(),
                old_self.gpu_allocator.allocated(),
                fg.take(g as int).to_set(),
            );
            lemma_without_prefix(fg, g as int);
            if g == 0 {
                assert(fg.take(0).to_set() =~= Set::<u32>::empty());
                assert(old_self.gpu_allocator.allocated().union(Set::<u32>::empty())
                    =~= old_self.gpu_allocator.allocated());
                assert(fg.skip(0) =~= fg);
            }
        }
        let port = decision.port;
        self.allocated_ports.insert(port);
        proof {
            lemma_free_ports_grow(
                old_self.allocated_ports@,
                fp.take(1).to_set(),
                self.base_port as int,
                self.max_port as int,
            );
            lemma_without_prefix(fp, 1);
            assert(fp.take(1).to_set() =~= set![port]) by {
                assert(fp.take(1)[0] == port);
            }
            assert(old_self.allocated_ports@.union(set![port]) =~= self.allocated_ports@);
        }
        let mut worker = Worker::new(spec.id, decision.worker_index, port);
        worker.gpu_ids = decision.gpu_ids;
        proof {
            assert forall|j: int| 0 <= j < old_self.workers@.len() + 1 implies stored(
                self.deployments@,
                #[trigger] old_self.workers@.push(worker)[j].deployment_id,
            ) by {
                if j < old_self.workers@.len() {
                    assert(old_self.workers@.push(worker)[j] == old_self.workers@[j]);
                }
            }
            assert forall|k: int| 0 <= k < worker.gpu_ids@.len() implies !old_self.gpu_allocator.allocated().contains(
                #[trigger] worker.gpu_ids@[k],
            ) by {
                assert(worker.gpu_ids@[k] == fg[k]);
            }
            assert(fg.take(g as int).to_set() =~= worker.gpu_ids@.to_set());
            lemma_match_push(
                old_self.workers@,
                old_self.allocated_ports@,
                old_self.gpu_allocator.allocated(),
                self.base_port as int,
                self.max_port as int,
                worker,
            );
        }
        self.workers.push(worker);
        assert(self.workers@.drop_last() =~= old_self.workers@);
        Ok(())
    }

    /// Removes the worker at position `i`, giving back its port and GPUs.
    fn remove_worker(&mut self, i: usize)
        requires
            old(self).wf(),
            i < old(self).workers().len(),
        ensures
            final(self).wf(),
            final(self).workers() == old(self).workers().remove(i as int),
            final(self).deployments() == old(self).deployments(),
            final(self).base_port() == old(self).base_port(),
            final(self).max_port() == old(self).max_port(),
            final(self).allocator().devices() == old(self).allocator().devices(),
            final(self).free_ports().len() == old(self).free_ports().len() + 1,
    {
        let ghost old_self = *self;
        proof {
            lemma_match_remove(
                self.workers@,
                self.allocated_ports@,
                self.gpu_allocator.allocated(),
                self.base_port as int,
                self.max_port as int,
                i as int,
            );
        }
        let w = self.workers.remove(i);
        assert forall|j: int| 0 <= j < self.workers@.len() implies stored(
            self.deployments@,
            #[trigger] self.workers@[j].deployment_id,
        ) by {
            let jj = if j < i { j } else { j + 1 };
            assert(self.workers@[j] == old_self.workers@[jj]);
        }
        if w.gpu_ids.len() > 0 {
            self.gpu_allocator.release(w.gpu_ids.as_slice());
        } else {
            assert(w.gpu_ids@.to_set() =~= Set::<u32>::empty());
            assert(old_self.gpu_allocator.allocated().difference(Set::<u32>::empty())
                =~= old_self.gpu_allocator.allocated());
        }
        self.allocated_ports.remove(&w.endpoint.port);
        proof {
            lemma_free_ports_release(
                old_self.allocated_ports@,
                w.endpoint.port,
                self.base_port as int,
                self.max_port as int,
            );
        }
    }

    /// Stores `spec`, replacing a deployment with the same identifier.
    fn store_deployment(&mut self, spec: DeploymentSpec)
        requires
            old(self).wf(),
        ensures
            final(self).wf(),
            final(self).deployments() == upsert(old(self).deployments(), spec),
            stored(final(self).deployments(), spec.id),
            final(self).workers() == old(self).workers(),
            final(self).allocator() == old(self).allocator(),
            final(self).ports() == old(self).ports(),
            final(self).base_port() == old(self).base_port(),
            final(self).max_port() == old(self).max_port(),
    {
        let ghost ds = self.deployments@;
        proof {
            lemma_deployment_index(ds, spec.id);
        }
        match self.find_deployment(spec.id) {
            Some(k) => {
                let ghost sid = spec.id;
                assert(deployment_index(ds, sid) >= 0);
                assert(deployment_index(ds, sid) == k as int);
                self.deployments[k] = spec;
                assert(self.deployments@ =~= ds.update(k as int, spec));
                assert(ds[k as int].id == sid);
                assert forall|i: int, j: int|
                    0 <= i < j < self.deployments@.len() implies self.deployments@[i].id
                    != self.deployments@[j].id by {
                    assert(ds[i].id != ds[j].id);
                    assert(self.deployments@[i].id == ds[i].id);
                    assert(self.deployments@[j].id == ds[j].id);
                }
                assert forall|i: int| 0 <= i < self.workers@.len() implies stored(
                    self.deployments@,
                    #[trigger] self.workers@[i].deployment_id,
                ) by {
                    let m = choose|m: int|
                        0 <= m < ds.len() && ds[m].id == self.workers@[i].deployment_id;
                    assert(self.deployments@[m].id == ds[m].id);
                }
                assert(self.deployments@[k as int].id == sid);
            },
            None => {
                self.deployments.push(spec);
                assert forall|i: int, j: int|
                    0 <= i < j < self.deployments@.len() implies self.deployments@[i].id
                    != self.deployments@[j].id by {
                    if j < ds.len() {
                        assert(ds[i].id != ds[j].id);
                    } else {
                        assert(ds[i].id != spec.id);
                    }
                }
                assert forall|i: int| 0 <= i < self.workers@.len() implies stored(
                    self.deployments@,
                    #[trigger] self.workers@[i].deployment_id,
                ) by {
                    let m = choose|m: int|
                        0 <= m < ds.len() && ds[m].id == self.workers@[i].deployment_id;
                    assert(self.deployments@[m] == ds[m]);
                }
                assert(self.deployments@[ds.len() as int] == spec);
            },
        }
    }

    /// Stores `spec` and tries to place its `spec.replicas` workers one after
    /// another, indexed from the number of workers it already has (0 for a
    /// new deployment). A worker that does not fit is skipped:
    /// the deployment is created whatever was placed. As many workers are
    /// placed as the replicas ask for and the free ports and GPUs allow.
    pub fn create_deployment(&mut self, spec: DeploymentSpec) -> (r: DmrletResult<u128>)
        requires
            old(self).wf(),
        ensures
            final(self).wf(),
            r matches Ok(id) && id == spec.id,
            created(*old(self), spec, *final(self)),
    {
        let id = spec.id;
        let replicas = spec.replicas;
        let sched = spec.clone();
        self.store_deployment(spec);
        self.place_workers(&sched, 0, replicas);
        Ok(id)
    }

    /// Tries to place workers of `spec` with indices `from..to`, in order,
    /// skipping those that do not fit.
    fn place_workers(&mut self, spec: &DeploymentSpec, from: u32, to: u32)
        requires
            old(self).wf(),
            stored(old(self).deployments(), spec.id),
        ensures
            final(self).wf(),
            final(self).deployments() == old(self).deployments(),
            final(self).base_port() == old(self).base_port(),
            final(self).max_port() == old(self).max_port(),
            final(self).allocator().devices() == old(self).allocator().devices(),
            final(self).workers().subrange(0, old(self).workers().len() as int) == old(
                self,
            ).workers(),
            final(self).workers().len() == old(self).workers().len() + min_nat(
                if from <= to {
                    (to - from) as nat
                } else {
                    0
                },
                old(self).capacity_for(spec.resources.gpu_count),
            ),
            final(self).free_ports() == old(self).free_ports().skip(
                final(self).workers().len() - old(self).workers().len(),
            ),
            final(self).allocator().free() == old(self).allocator().free().skip(
                spec.resources.gpu_count * (final(self).workers().len() - old(self).workers().len()),
            ),
            forall|k: int|
                old(self).workers().len() <= k < final(self).workers().len() ==> placed_as(
                    *old(self),
                    spec.id,
                    workers_of(old(self).workers(), spec.id).len(),
                    spec.resources.gpu_count as nat,
                    #[trigger] final(self).workers()[k],
                    (k - old(self).workers().len()) as nat,
                ),
    {
        let ghost first = workers_of(old(self).workers@, spec.id).len();
        let ghost g = spec.resources.gpu_count as nat;
        let ghost fps = old(self).free_ports();
        let ghost fgs = old(self).allocator().free();
        let ghost n0 = self.workers@.len();
        let ghost ws0 = self.workers@;
        let ghost fp0 = self.free_ports().len();
        let ghost fg0 = self.gpu_allocator.free().len();
        let ghost cap0 = capacity(fp0, fg0, g);
        let mut i: u32 = from;
        while i < to
            invariant
                self.wf(),
                self.deployments@ == old(self).deployments@,
                self.base_port == old(self).base_port,
                self.max_port == old(self).max_port,
                self.gpu_allocator.devices() == old(self).gpu_allocator.devices(),
                from <= i <= to || (i == from && to < from),
                n0 == old(self).workers@.len(),
                self.workers@.len() - n0 == min_nat((i - from) as nat, cap0),
                self.workers@.subrange(0, n0 as int) == ws0,
                ws0 == old(self).workers@,
                cap0 == old(self).capacity_for(spec.resources.gpu_count),
                fps == old(self).free_ports(),
                fgs == old(self).allocator().free(),
                fp0 == fps.len(),
                fg0 == fgs.len(),
                self.workers@.len() - n0 <= fp0,
                g * (self.workers@.len() - n0) <= fg0,
                self.free_ports() == fps.skip(self.workers@.len() - n0),
                self.gpu_allocator.free() == fgs.skip(g * (self.workers@.len() - n0)),
                g == spec.resources.gpu_count,
                stored(self.deployments@, spec.id),
                first == workers_of(old(self).workers@, spec.id).len(),
                workers_of(self.workers@, spec.id).len() == first + (self.workers@.len() - n0),
                forall|k: int|
                    n0 <= k < self.workers@.len() ==> placed_as(
                        *old(self),
                        spec.id,
                        first,
                        g,
                        #[trigger] self.workers@[k],
                        (k - n0) as nat,
                    ),
            decreases to - i,
        {
            let ghost placed = (self.workers@.len() - n0) as nat;
            proof {
                lemma_capacity(fp0, fg0, g, placed);
            }
            let ghost before = self.workers@;
            let _ = self.schedule_worker(spec);
            proof {
                if placed < cap0 {
                    assert(self.workers@.drop_last() == before);
                    assert(self.workers@.subrange(0, n0 as int) =~= before.subrange(0, n0 as int));
                    let gi = g as int;
                    let pi = placed as int;
                    assert(fps.skip(pi).skip(1) =~= fps.skip(pi + 1));
                    assert(fgs.skip(gi * pi).skip(gi) =~= fgs.skip(gi * (pi + 1)));
                    assert(fgs.skip(gi * pi).take(gi) =~= fgs.subrange(gi * pi, gi * pi + gi));
                    assert(fps.skip(placed as int)[0] == fps[placed as int]);
                    assert forall|k: int| n0 <= k < self.workers@.len() implies placed_as(
                        *old(self),
                        spec.id,
                        first,
                        g,
                        #[trigger] self.workers@[k],
                        (k - n0) as nat,
                    ) by {
                        if k < before.len() {
                            assert(self.workers@[k] == before[k]);
                        }
                    }
                }
            }
            i = i + 1;
        }
        if to < from {
            assert(self.workers@ =~= ws0);
        }
    }

    /// Removes the `count` most recently created workers of deployment `id`
    /// (all of them, if it has fewer), giving back their ports and GPUs.
    fn remove_last_workers_of(&mut self, id: u128, count: u32)
        requires
            old(self).wf(),
        ensures
            final(self).wf(),
            final(self).workers() == drop_last_of(old(self).workers(), id, count as nat),
            final(self).deployments() == old(self).deployments(),
            final(self).base_port() == old(self).base_port(),
            final(self).max_port() == old(self).max_port(),
            final(self).allocator().devices() == old(self).allocator().devices(),
    {
        let ghost ws0 = self.workers@;
        let mut removed: u32 = 0;
        let mut i: usize = self.workers.len();
        assert(ws0.subrange(0, i as int) =~= ws0);
        assert(self.workers@.subrange(i as int, self.workers@.len() as int) =~= Seq::<Worker>::empty());
        assert(drop_last_of(ws0.subrange(0, i as int), id, count as nat) + Seq::<Worker>::empty()
            =~= drop_last_of(ws0.subrange(0, i as int), id, count as nat));
        while i > 0 && removed < count
            invariant
                self.wf(),
                self.deployments@ == old(self).deployments@,
                self.base_port == old(self).base_port,
                self.max_port == old(self).max_port,
                self.gpu_allocator.devices() == old(self).gpu_allocator.devices(),
                ws0 == old(self).workers@,
                i <= self.workers@.len(),
                i <= ws0.len(),
                removed <= count,
                self.workers@.subrange(0, i as int) == ws0.subrange(0, i as int),
                drop_last_of(ws0, id, count as nat) == drop_last_of(
                    ws0.subrange(0, i as int),
                    id,
                    (count - removed) as nat,
                ) + self.workers@.subrange(i as int, self.workers@.len() as int),
            decreases i,
        {
            i = i - 1;
            let ghost before = self.workers@;
            let ghost pre = ws0.subrange(0, i as int + 1);
            assert(pre.drop_last() =~= ws0.subrange(0, i as int));
            assert(pre.last() == before[i as int]) by {
                assert(before.subrange(0, i as int + 1)[i as int] == before[i as int]);
            }
            if self.workers[i].deployment_id == id {
                self.remove_worker(i);
                removed = removed + 1;
                assert(self.workers@.subrange(0, i as int) =~= before.subrange(0, i as int));
                assert(self.workers@.subrange(i as int, self.workers@.len() as int) =~= before.subrange(
                    i as int + 1,
                    before.len() as int,
                ));
            } else {
                assert(before.subrange(i as int, before.len() as int) =~= seq![before[i as int]]
                    + before.subrange(i as int + 1, before.len() as int));
                assert(drop_last_of(pre, id, (count - removed) as nat) == drop_last_of(
                    ws0.subrange(0, i as int),
                    id,
                    (count - removed) as nat,
                ).push(before[i as int]));
                assert(before.subrange(0, i as int + 1).subrange(0, i as int) =~= before.subrange(0, i as int));
            }
        }
        if removed == count {
            assert(drop_last_of(ws0.subrange(0, i as int), id, 0) == ws0.subrange(0, i as int));
        } else {
            assert(ws0.subrange(0, 0) =~= Seq::<Worker>::empty());
        }
        assert(self.workers@ =~= self.workers@.subrange(0, i as int) + self.workers@.subrange(
            i as int,
            self.workers@.len() as int,
        ));
    }

    /// Deletes deployment `id` and all its workers, giving back their ports
    /// and GPUs. Fails with `DeploymentNotFound` when `id` is unknown.
    pub fn delete_deployment(&mut self, id: u128) -> (r: DmrletResult<()>)
        requires
            old(self).wf(),
        ensures
            final(self).wf(),
            deployment_index(old(self).deployments(), id) < 0 ==> {
                &&& *final(self) == *old(self)
                &&& r matches Err(DmrletError::DeploymentNotFound(m)) && m@ == uuid_text(id)
            },
            deployment_index(old(self).deployments(), id) >= 0 ==> r is Ok && deleted(
                *old(self),
                id,
                *final(self),
            ),
    {
        let k = match self.find_deployment(id) {
            None => {
                return Err(DmrletError::DeploymentNotFound(id_text(id)));
            },
            Some(k) => k,
        };
        let ghost ds = self.deployments@;
        proof {
            lemma_deployment_index(ds, id);
        }
        let ghost ws0 = self.workers@;
        let ghost n = ws0.len() as int;
        let mut i: usize = 0;
        assert(ws0.subrange(0, 0) =~= Seq::<Worker>::empty());
        assert(self.workers@.subrange(0, 0) =~= Seq::<Worker>::empty());
        assert(self.workers@.subrange(0, n) =~= ws0);
        while i < self.workers.len()
            invariant
                self.wf(),
                k < ds.len(),
                ds == old(self).deployments@,
                ds[k as int].id == id,
                self.deployments@ == ds,
                self.base_port == old(self).base_port,
                self.max_port == old(self).max_port,
                self.gpu_allocator.devices() == old(self).gpu_allocator.devices(),
                ws0 == old(self).workers@,
                n == ws0.len(),
                i <= self.workers@.len() <= n,
                self.workers@.subrange(0, i as int) == workers_not_of(
                    ws0.subrange(0, i + n - self.workers@.len()),
                    id,
                ),
                self.workers@.subrange(i as int, self.workers@.len() as int) == ws0.subrange(
                    i + n - self.workers@.len(),
                    n,
                ),
            decreases self.workers@.len() - i,
        {
            let ghost before = self.workers@;
            let ghost j = i + n - before.len();
            assert(before[i as int] == ws0[j]) by {
                assert(before.subrange(i as int, before.len() as int)[0] == before[i as int]);
            }
            assert(ws0.subrange(0, j + 1).drop_last() =~= ws0.subrange(0, j));
            let ghost tail = before.subrange(i as int, before.len() as int);
            assert(tail == ws0.subrange(j, n));
            assert(before.subrange(i as int + 1, before.len() as int) =~= tail.subrange(1, tail.len() as int));
            assert(ws0.subrange(j + 1, n) =~= ws0.subrange(j, n).subrange(1, n - j));
            if self.workers[i].deployment_id == id {
                self.remove_worker(i);
                assert(self.workers@.subrange(0, i as int) =~= before.subrange(0, i as int));
                assert(self.workers@.subrange(i as int, self.workers@.len() as int) =~= ws0.subrange(
                    j + 1,
                    n,
                ));
            } else {
                assert(self.workers@.subrange(0, i as int + 1) =~= before.subrange(0, i as int).push(
                    before[i as int],
                ));
                assert(self.workers@.subrange(i as int + 1, self.workers@.len() as int) =~= ws0.subrange(
                    j + 1,
                    n,
                ));
                i = i + 1;
            }
        }
        assert(self.workers@.subrange(0, i as int) =~= self.workers@);
        assert(ws0.subrange(0, n) =~= ws0);
        proof {
            lemma_not_of_members(ws0, id);
        }
        self.deployments.remove(k);
        assert forall|a: int, b: int|
            0 <= a < b < self.deployments@.len() implies self.deployments@[a].id
            != self.deployments@[b].id by {
            let aa = if a < k { a } else { a + 1 };
            let bb = if b < k { b } else { b + 1 };
            assert(self.deployments@[a] == ds[aa] && self.deployments@[b] == ds[bb]);
        }
        assert forall|j: int| 0 <= j < self.workers@.len() implies stored(
            self.deployments@,
            #[trigger] self.workers@[j].deployment_id,
        ) by {
            let m = choose|m: int| 0 <= m < ws0.len() && ws0[m] == #[trigger] self.workers@[j] && ws0[m].deployment_id != id;
            let q = choose|q: int| 0 <= q < ds.len() && ds[q].id == self.workers@[j].deployment_id;
            assert(q != k);
            let qq = if q < k { q } else { q - 1 };
            assert(self.deployments@[qq] == ds[q]);
        }
        Ok(())
    }

    /// Sets the replica count of deployment `id` and converges its workers:
    /// places the missing ones (indices continue from the current count,
    /// those that do not fit are skipped), or removes the most recently
    /// created ones until the count matches. Fails with `DeploymentNotFound`
    /// when `id` is unknown.
    pub fn scale_deployment(&mut self, id: u128, replicas: u32) -> (r: DmrletResult<()>)
        requires
            old(self).wf(),
        ensures
            final(self).wf(),
            deployment_index(old(self).deployments(), id) < 0 ==> {
                &&& *final(self) == *old(self)
                &&& r matches Err(DmrletError::DeploymentNotFound(m)) && m@ == uuid_text(id)
            },
            deployment_index(old(self).deployments(), id) >= 0 ==> r is Ok && scaled(
                *old(self),
                id,
                replicas,
                *final(self),
            ),
    {
        let k = match self.find_deployment(id) {
            None => {
                return Err(DmrletError::DeploymentNotFound(id_text(id)));
            },
            Some(k) => k,
        };
        proof {
            lemma_deployment_index(self.deployments@, id);
        }
        let ghost ds = self.deployments@;
        self.deployments[k].replicas = replicas;
        assert(self.deployments@ =~= ds.update(k as int, with_replicas(ds[k as int], replicas)));
        assert forall|a: int, b: int|
            0 <= a < b < self.deployments@.len() implies self.deployments@[a].id
            != self.deployments@[b].id by {
            assert(ds[a].id != ds[b].id);
        }
        assert forall|j: int| 0 <= j < self.workers@.len() implies stored(
            self.deployments@,
            #[trigger] self.workers@[j].deployment_id,
        ) by {
            let q = choose|q: int| 0 <= q < ds.len() && ds[q].id == self.workers@[j].deployment_id;
            assert(self.deployments@[q].id == ds[q].id);
        }
        assert(self.deployments@[k as int].id == id);
        let spec = self.deployments[k].clone();
        let current = self.count_workers_of(id);
        if replicas > current {
            self.place_workers(&spec, current, replicas);
        } else if replicas < current {
            self.remove_last_workers_of(id, current - replicas);
        } else {
            assert(drop_last_of(self.workers@, id, 0) == self.workers@);
        }
        Ok(())
    }

    /// Copies of the workers of deployment `id`, in creation order.
    fn collect_workers_of(&self, id: u128) -> (r: Vec<Worker>)
        requires
            self.wf(),
        ensures
            views(r@) == views(workers_of(self.workers(), id)),
            r@.len() <= u32::MAX,
    {
        let mut r: Vec<Worker> = Vec::new();
        let mut i: usize = 0;
        while i < self.workers.len()
            invariant
                self.wf(),
                i <= self.workers@.len(),
                views(r@) == views(workers_of(self.workers@.subrange(0, i as int), id)),
                r@.len() == workers_of(self.workers@.subrange(0, i as int), id).len(),
            decreases self.workers@.len() - i,
        {
            let ghost prefix = self.workers@.subrange(0, i as int + 1);
            assert(prefix.drop_last() =~= self.workers@.subrange(0, i as int));
            if self.workers[i].deployment_id == id {
                let w = self.workers[i].clone();
                let ghost before = r@;
                r.push(w);
                assert(views(r@) =~= views(before).push(w@));
                assert(views(workers_of(prefix, id)) =~= views(
                    workers_of(self.workers@.subrange(0, i as int), id),
                ).push(self.workers@[i as int]@));
            }
            i = i + 1;
        }
        assert(self.workers@.subrange(0, i as int) =~= self.workers@);
        proof {
            lemma_workers_of_len(self.workers@, id);
        }
        r
    }

    /// The status of deployment `id`: its spec, copies of its workers, and
    /// the counts and phase derived from them. Fails with
    /// `DeploymentNotFound` when `id` is unknown.
    pub fn get_deployment_status(&self, id: u128) -> (r: DmrletResult<DeploymentStatus>)
        requires
            self.wf(),
        ensures
            deployment_index(self.deployments(), id) < 0 ==> (r matches Err(
                DmrletError::DeploymentNotFound(m),
            ) && m@ == uuid_text(id)),
            deployment_index(self.deployments(), id) >= 0 ==> (r matches Ok(st) && status_of(
                st,
                self.deployments()[deployment_index(self.deployments(), id)],
                self.workers(),
            )),
    {
        let k = match self.find_deployment(id) {
            None => {
                return Err(DmrletError::DeploymentNotFound(id_text(id)));
            },
            Some(k) => k,
        };
        proof {
            lemma_deployment_index(self.deployments@, id);
        }
        let spec = self.deployments[k].clone();
        let workers = self.collect_workers_of(id);
        let st = DeploymentStatus::new(spec, workers);
        proof {
            lemma_counts_by_view(st.workers@, workers_of(self.workers@, id));
        }
        Ok(st)
    }

    /// The status of every deployment, in creation order.
    pub fn list_deployments(&self) -> (r: Vec<DeploymentStatus>)
        requires
            self.wf(),
        ensures
            r@.len() == self.deployments().len(),
            forall|k: int|
                0 <= k < r@.len() ==> status_of(
                    #[trigger] r@[k],
                    self.deployments()[k],
                    self.workers(),
                ),
    {
        let mut r: Vec<DeploymentStatus> = Vec::new();
        let mut i: usize = 0;
        while i < self.deployments.len()
            invariant
                self.wf(),
                i <= self.deployments@.len(),
                r@.len() == i,
                forall|k: int|
                    0 <= k < i ==> status_of(#[trigger] r@[k], self.deployments@[k], self.workers@),
            decreases self.deployments@.len() - i,
        {
            let spec = self.deployments[i].clone();
            let workers = self.collect_workers_of(self.deployments[i].id);
            let st = DeploymentStatus::new(spec, workers);
            proof {
                lemma_counts_by_view(st.workers@, workers_of(self.workers@, self.deployments@[i as int].id));
            }
            r.push(st);
            i = i + 1;
        }
        r
    }

    /// Copies of the workers of deployment `id`, in creation order; none for
    /// an unknown deployment.
    pub fn get_workers(&self, deployment_id: u128) -> (r: Vec<Worker>)
        requires
            self.wf(),
        ensures
            views(r@) == views(workers_of(self.workers(), deployment_id)),
    {
        self.collect_workers_of(deployment_id)
    }

    /// The endpoints of the running workers, in creation order.
    pub fn get_all_endpoints(&self) -> (r: Vec<Endpoint>)
        ensures
            r@ == running_endpoints(self.workers()),
    {
        let mut r: Vec<Endpoint> = Vec::new();
        let mut i: usize = 0;
        while i < self.workers.len()
            invariant
                i <= self.workers@.len(),
                r@ == running_endpoints(self.workers@.subrange(0, i as int)),
            decreases self.workers@.len() - i,
        {
            let ghost prefix = self.workers@.subrange(0, i as int + 1);
            assert(prefix.drop_last() =~= self.workers@.subrange(0, i as int));
            if self.workers[i].status == WorkerStatus::Running {
                r.push(self.workers[i].endpoint.clone());
            }
            i = i + 1;
        }
        assert(self.workers@.subrange(0, i as int) =~= self.workers@);
        r
    }

    /// Sets the status of worker `worker_id`, whatever it was. Fails with
    /// `WorkerNotFound` when no worker has that identifier.
    pub fn update_worker_status(&mut self, worker_id: u128, status: WorkerStatus) -> (r: DmrletResult<()>)
        requires
            old(self).wf(),
        ensures
            final(self).wf(),
            final(self).deployments() == old(self).deployments(),
            final(self).allocator() == old(self).allocator(),
            final(self).ports() == old(self).ports(),
            final(self).base_port() == old(self).base_port(),
            final(self).max_port() == old(self).max_port(),
            has_worker(old(self).workers(), worker_id) ==> {
                &&& r is Ok
                &&& final(self).workers() == set_status(old(self).workers(), worker_id, status)
            },
            !has_worker(old(self).workers(), worker_id) ==> {
                &&& *final(self) == *old(self)
                &&& r matches Err(DmrletError::WorkerNotFound(m)) && m@ == uuid_text(worker_id)
            },
    {
        let ghost ws0 = self.workers@;
        let mut found = false;
        let mut i: usize = 0;
        while i < self.workers.len()
            invariant
                self.wf(),
                self.deployments@ == old(self).deployments@,
                self.gpu_allocator == old(self).gpu_allocator,
                self.allocated_ports == old(self).allocated_ports,
                self.base_port == old(self).base_port,
                self.max_port == old(self).max_port,
                ws0 == old(self).workers@,
                self.workers@.len() == ws0.len(),
                i <= ws0.len(),
                found == exists|k: int| 0 <= k < i && ws0[k].id == worker_id,
                !found ==> *self == *old(self),
                forall|k: int|
                    0 <= k < ws0.len() ==> #[trigger] self.workers@[k] == if k < i && ws0[k].id
                        == worker_id {
                        with_status(ws0[k], status)
                    } else {
                        ws0[k]
                    },
            decreases ws0.len() - i,
        {
            if self.workers[i].id == worker_id {
                let ghost before = self.workers@;
                self.workers[i].status = status;
                assert forall|j: int| 0 <= j < self.workers@.len() implies stored(
                    self.deployments@,
                    #[trigger] self.workers@[j].deployment_id,
                ) by {
                    assert(self.workers@[j].deployment_id == before[j].deployment_id);
                }
                proof {
                    lemma_match_same_holdings(
                        before,
                        self.workers@,
                        self.allocated_ports@,
                        self.gpu_allocator.allocated(),
                        self.base_port as int,
                        self.max_port as int,
                    );
                }
                found = true;
            }
            i = i + 1;
        }
        if found {
            assert(self.workers@ =~= set_status(ws0, worker_id, status));
            Ok(())
        } else {
            assert(self.workers@ =~= ws0);
            assert(!has_worker(ws0, worker_id));
            Err(DmrletError::WorkerNotFound(id_text(worker_id)))
        }
    }
}


/// The pool, the port range and the devices stay as they were.
pub open spec fn same_frame(s0: Scheduler, s1: Scheduler) -> bool {
    &&& s1.base_port() == s0.base_port()
    &&& s1.max_port() == s0.max_port()
    &&& s1.allocator().devices() == s0.allocator().devices()
}

/// `w` is the `j`-th worker placed for deployment `id` from state `s0`, with
/// worker indices counted from `first`: a `Pending` worker at `127.0.0.1`
/// without TLS, on the `j`-th free port of `s0`, holding the `j`-th run of
/// `gpu_count` free GPUs of `s0`.
pub open spec fn placed_as(s0: Scheduler, id: u128, first: nat, gpu_count: nat, w: Worker, j: nat) -> bool {
    &&& w.deployment_id == id
    &&& w.index == first + j
    &&& w.status == WorkerStatus::Pending
    &&& w.endpoint.host@ == "127.0.0.1"@
    &&& !w.endpoint.tls
    &&& w.endpoint.port == s0.free_ports()[j as int]
    &&& w.gpu_ids@ == s0.allocator().free().subrange(
        (gpu_count * j) as int,
        (gpu_count * j + gpu_count) as int,
    )
}

/// `s1` extends the workers of `s0` with `placed` new workers of deployment
/// `id`, placed one after another as `placed_as` says; they took the first
/// `placed` free ports and the first `gpu_count * placed` free GPUs.
pub open spec fn appended(
    s0: Scheduler,
    id: u128,
    first: nat,
    gpu_count: nat,
    placed: nat,
    s1: Scheduler,
) -> bool {
    let n0 = s0.workers().len();
    &&& s1.workers().len() == n0 + placed
    &&& s1.workers().subrange(0, n0 as int) == s0.workers()
    &&& s1.free_ports() == s0.free_ports().skip(placed as int)
    &&& s1.allocator().free() == s0.allocator().free().skip((gpu_count * placed) as int)
    &&& forall|k: int|
        n0 <= k < s1.workers().len() ==> placed_as(
            s0,
            id,
            first,
            gpu_count,
            #[trigger] s1.workers()[k],
            (k - n0) as nat,
        )
}

/// `s1` is `s0` after creating `spec`: the spec is stored, and as many new
/// workers as the replicas ask for and the free resources allow are placed,
/// indexed from the number of workers the deployment already had (none, for
/// a deployment that was not stored).
pub open spec fn created(s0: Scheduler, spec: DeploymentSpec, s1: Scheduler) -> bool {
    &&& same_frame(s0, s1)
    &&& s1.deployments() == upsert(s0.deployments(), spec)
    &&& appended(
        s0,
        spec.id,
        workers_of(s0.workers(), spec.id).len(),
        spec.resources.gpu_count as nat,
        min_nat(spec.replicas as nat, s0.capacity_for(spec.resources.gpu_count)),
        s1,
    )
}

/// `s1` is `s0` after deleting the known deployment `id`: the spec is gone,
/// and so is every worker of it.
pub open spec fn deleted(s0: Scheduler, id: u128, s1: Scheduler) -> bool {
    &&& same_frame(s0, s1)
    &&& s1.deployments() == s0.deployments().remove(deployment_index(s0.deployments(), id))
    &&& s1.workers() == workers_not_of(s0.workers(), id)
}

/// `s1` is `s0` after scaling the known deployment `id` to `replicas`: the
/// stored count changes; missing workers are placed as far as the free
/// resources allow, indexed from the current count; surplus workers are
/// removed, most recently created first.
pub open spec fn scaled(s0: Scheduler, id: u128, replicas: u32, s1: Scheduler) -> bool {
    let k = deployment_index(s0.deployments(), id);
    let cur = workers_of(s0.workers(), id).len();
    &&& same_frame(s0, s1)
    &&& s1.deployments() == s0.deployments().update(k, with_replicas(s0.deployments()[k], replicas))
    &&& replicas > cur ==> appended(
        s0,
        id,
        cur,
        s0.deployments()[k].resources.gpu_count as nat,
        min_nat(
            (replicas - cur) as nat,
            s0.capacity_for(s0.deployments()[k].resources.gpu_count),
        ),
        s1,
    )
    &&& replicas <= cur ==> s1.workers() == drop_last_of(s0.workers(), id, (cur - replicas) as nat)
}

/// `st` is the status of deployment `d` with the workers of `ws`: a copy of
/// its spec, copies of its workers in creation order, the number running as
/// ready, the number neither terminated nor failed as available, and the
/// phase that follows from them.
pub open spec fn status_of(st: DeploymentStatus, d: DeploymentSpec, ws: Seq<Worker>) -> bool {
    let mine = workers_of(ws, d.id);
    &&& st.spec@ == d@
    &&& views(st.workers@) == views(mine)
    &&& st.ready_replicas == count_running(mine)
    &&& st.available_replicas == count_available(mine)
    &&& st.phase == phase_of(d.replicas, count_running(mine), mine.len())
}

/// Whether some worker has identifier `id`.
pub open spec fn has_worker(ws: Seq<Worker>, id: u128) -> bool {
    exists|k: int| 0 <= k < ws.len() && ws[k].id == id
}

/// The registry with the status of every worker `id` set to `status`.
pub open spec fn set_status(ws: Seq<Worker>, id: u128, status: WorkerStatus) -> Seq<Worker> {
    Seq::new(ws.len(), |k: int| if ws[k].id == id { with_status(ws[k], status) } else { ws[k] })
}

/// Counts over workers depend only on what the workers are as values.
proof fn lemma_counts_by_view(a: Seq<Worker>, b: Seq<Worker>)
    requires
        views(a) == views(b),
    ensures
        count_running(a) == count_running(b),
        count_available(a) == count_available(b),
        a.len() == b.len(),
    decreases a.len(),
{
    assert(views(a).len() == a.len() && views(b).len() == b.len());
    if a.len() > 0 {
        assert(views(a.drop_last()) =~= views(a).drop_last());
        assert(views(b.drop_last()) =~= views(b).drop_last());
        lemma_counts_by_view(a.drop_last(), b.drop_last());
        assert(views(a)[a.len() - 1] == views(b)[b.len() - 1]);
        assert(a.last()@ == b.last()@);
    }
}

/// Every port of a range with nothing allocated is free.
proof fn lemma_all_ports_free(allocated: Set<u16>, lo: int, hi: int)
    requires
        allocated == Set::<u16>::empty(),
        lo <= hi,
    ensures
        free_ports(allocated, lo, hi).len() == hi - lo,
    decreases hi - lo,
{
    if hi > lo {
        lemma_all_ports_free(allocated, lo, hi - 1);
    }
}

} // verus!

verus! {

/// Appending workers of `id` appends them to its workers.
proof fn lemma_workers_of_append(a: Seq<Worker>, b: Seq<Worker>, id: u128)
    requires
        forall|k: int| 0 <= k < b.len() ==> (#[trigger] b[k]).deployment_id == id,
    ensures
        workers_of(a + b, id) == workers_of(a, id) + b,
    decreases b.len(),
{
    if b.len() == 0 {
        assert(a + b =~= a);
        assert(workers_of(a, id) + b =~= workers_of(a, id));
    } else {
        let b0 = b.drop_last();
        lemma_workers_of_append(a, b0, id);
        assert((a + b).drop_last() =~= a + b0);
        assert((a + b).last() == b.last());
        assert(b[b.len() - 1] == b.last());
        assert(workers_of(a, id) + b =~= (workers_of(a, id) + b0).push(b.last()));
    }
}

/// Dropping more recent workers of `id` than were appended drops all the
/// appended ones, then the rest from before.
proof fn lemma_drop_appended(a: Seq<Worker>, b: Seq<Worker>, id: u128, m: nat)
    requires
        forall|k: int| 0 <= k < b.len() ==> (#[trigger] b[k]).deployment_id == id,
    ensures
        drop_last_of(a + b, id, b.len() + m) == drop_last_of(a, id, m),
    decreases b.len(),
{
    if b.len() == 0 {
        assert(a + b =~= a);
    } else {
        let b0 = b.drop_last();
        lemma_drop_appended(a, b0, id, m);
        assert((a + b).drop_last() =~= a + b0);
        assert(b[b.len() - 1] == b.last());
        assert((a + b).last() == b.last());
    }
}

/// Dropping one recent worker of `id` removes its most recent worker, which
/// sits at a position after which no worker of `id` follows.
proof fn lemma_drop_one(ws: Seq<Worker>, id: u128) -> (j: int)
    requires
        workers_of(ws, id).len() >= 1,
    ensures
        0 <= j < ws.len(),
        ws[j].deployment_id == id,
        drop_last_of(ws, id, 1) == ws.remove(j),
        workers_of(ws.remove(j), id).len() == workers_of(ws, id).len() - 1,
    decreases ws.len(),
{
    let rest = ws.drop_last();
    if ws.last().deployment_id == id {
        assert(ws.remove(ws.len() - 1) =~= rest);
        assert(drop_last_of(rest, id, 0) == rest);
        ws.len() - 1
    } else {
        let j = lemma_drop_one(rest, id);
        assert(ws.remove(j) =~= rest.remove(j).push(ws.last()));
        assert(ws.remove(j).drop_last() =~= rest.remove(j));
        assert(ws[j] == rest[j]);
        j
    }
}

/// Each worker left by `workers_not_of` is a worker of another deployment.
proof fn lemma_not_of_members(ws: Seq<Worker>, id: u128)
    ensures
        forall|i: int|
            0 <= i < workers_not_of(ws, id).len() ==> exists|m: int|
                0 <= m < ws.len() && ws[m] == #[trigger] workers_not_of(ws, id)[i]
                    && ws[m].deployment_id != id,
        workers_of(workers_not_of(ws, id), id).len() == 0,
    decreases ws.len(),
{
    if ws.len() > 0 {
        let rest = ws.drop_last();
        lemma_not_of_members(rest, id);
        let w = workers_not_of(ws, id);
        let wr = workers_not_of(rest, id);
        assert forall|i: int| 0 <= i < w.len() implies exists|m: int|
            0 <= m < ws.len() && ws[m] == #[trigger] w[i] && ws[m].deployment_id != id by {
            if i < wr.len() {
                let m = choose|m: int| 0 <= m < rest.len() && rest[m] == wr[i] && rest[m].deployment_id != id;
                assert(ws[m] == rest[m]);
            } else {
                assert(ws[ws.len() - 1] == ws.last());
            }
        }
        if ws.last().deployment_id != id {
            assert(w.drop_last() =~= wr);
        }
    }
}

/// Two sets that both mark what the same workers hold are the same set.
proof fn lemma_match_unique(
    ws: Seq<Worker>,
    p1: Set<u16>,
    p2: Set<u16>,
    a1: Set<u32>,
    a2: Set<u32>,
    lo: int,
    hi: int,
)
    requires
        ports_match(ws, p1, lo, hi),
        ports_match(ws, p2, lo, hi),
        gpus_match(ws, a1),
        gpus_match(ws, a2),
    ensures
        p1 == p2,
        a1 == a2,
{
    assert(p1 =~= p2);
    assert(a1 =~= a2);
}

/// A deployment that is not stored has no workers.
proof fn lemma_unstored_has_no_workers(ds: Seq<DeploymentSpec>, ws: Seq<Worker>, id: u128)
    requires
        owners_stored(ds, ws),
        !stored(ds, id),
    ensures
        workers_of(ws, id).len() == 0,
    decreases ws.len(),
{
    if ws.len() > 0 {
        assert(owners_stored(ds, ws.drop_last())) by {
            assert forall|i: int| 0 <= i < ws.drop_last().len() implies stored(
                ds,
                #[trigger] ws.drop_last()[i].deployment_id,
            ) by {
                assert(ws.drop_last()[i] == ws[i]);
            }
        }
        lemma_unstored_has_no_workers(ds, ws.drop_last(), id);
        assert(stored(ds, ws[ws.len() - 1].deployment_id));
    }
}

/// A stored deployment is found, and one that is not is not.
proof fn lemma_stored_index(ds: Seq<DeploymentSpec>, id: u128)
    ensures
        stored(ds, id) <==> deployment_index(ds, id) >= 0,
{
    lemma_deployment_index(ds, id);
    if deployment_index(ds, id) >= 0 {
        assert(ds[deployment_index(ds, id)].id == id);
    }
}

/// Changing specs without changing their identifiers finds each one where it was.
proof fn lemma_same_ids(a: Seq<DeploymentSpec>, b: Seq<DeploymentSpec>, id: u128)
    requires
        a.len() == b.len(),
        forall|i: int| 0 <= i < a.len() ==> (#[trigger] a[i]).id == b[i].id,
    ensures
        deployment_index(a, id) == deployment_index(b, id),
    decreases a.len(),
{
    if a.len() > 0 {
        assert(a[a.len() - 1].id == b[b.len() - 1].id);
        assert forall|i: int| 0 <= i < a.drop_last().len() implies (#[trigger] a.drop_last()[i]).id
            == b.drop_last()[i].id by {
            assert(a.drop_last()[i] == a[i] && b.drop_last()[i] == b[i]);
        }
        lemma_same_ids(a.drop_last(), b.drop_last(), id);
    }
}

/// Creating a deployment that is not stored stores it last, and its workers
/// are exactly the ones the creation placed.
proof fn lemma_created_new(s0: Scheduler, spec: DeploymentSpec, s1: Scheduler)
    requires
        s0.wf(),
        created(s0, spec, s1),
        !stored(s0.deployments(), spec.id),
    ensures
        workers_of(s0.workers(), spec.id).len() == 0,
        workers_of(s1.workers(), spec.id) == s1.workers().subrange(
            s0.workers().len() as int,
            s1.workers().len() as int,
        ),
        deployment_index(s1.deployments(), spec.id) == s0.deployments().len(),
        s1.deployments()[s0.deployments().len() as int] == spec,
        stored(s1.deployments(), spec.id),
{
    lemma_unstored_has_no_workers(s0.deployments(), s0.workers(), spec.id);
    let n0 = s0.workers().len() as int;
    let ws1 = s1.workers();
    let added = ws1.subrange(n0, ws1.len() as int);
    assert(ws1 =~= s0.workers() + added);
    assert forall|k: int| 0 <= k < added.len() implies (#[trigger] added[k]).deployment_id
        == spec.id by {
        assert(added[k] == ws1[n0 + k]);
    }
    lemma_workers_of_append(s0.workers(), added, spec.id);
    assert(workers_of(ws1, spec.id) =~= added);
    lemma_stored_index(s0.deployments(), spec.id);
    let n = s0.deployments().len() as int;
    assert(s1.deployments() == s0.deployments().push(spec));
    assert(s1.deployments().drop_last() =~= s0.deployments());
    assert(s1.deployments()[n] == spec);
}

/// Creating a new deployment with room for all its replicas places exactly
/// that many workers, indexed from 0, on distinct ports of the pool that no
/// other worker holds; none of them runs yet, so the phase reported for it is
/// `Ready` only for zero replicas and `Progressing` otherwise.
pub proof fn create_places_every_replica(s0: Scheduler, spec: DeploymentSpec, s1: Scheduler)
    requires
        s0.wf(),
        s1.wf(),
        created(s0, spec, s1),
        !stored(s0.deployments(), spec.id),
        spec.replicas <= s0.capacity_for(spec.resources.gpu_count),
    ensures
        deployment_index(s1.deployments(), spec.id) >= 0,
        s1.deployments()[deployment_index(s1.deployments(), spec.id)] == spec,
        workers_of(s1.workers(), spec.id).len() == spec.replicas,
        forall|a: int|
            0 <= a < spec.replicas ==> (#[trigger] workers_of(s1.workers(), spec.id)[a]).index == a,
        forall|a: int, b: int|
            0 <= a < b < spec.replicas ==> #[trigger] workers_of(s1.workers(), spec.id)[a].endpoint.port
                != #[trigger] workers_of(s1.workers(), spec.id)[b].endpoint.port,
        forall|a: int|
            0 <= a < spec.replicas ==> s1.base_port() <= #[trigger] workers_of(
                s1.workers(),
                spec.id,
            )[a].endpoint.port < s1.max_port(),
        forall|a: int, m: int|
            0 <= a < spec.replicas && 0 <= m < s1.workers().len() && s1.workers()[m].deployment_id
                != spec.id ==> #[trigger] workers_of(s1.workers(), spec.id)[a].endpoint.port
                != #[trigger] s1.workers()[m].endpoint.port,
        count_running(workers_of(s1.workers(), spec.id)) == 0,
        phase_of(spec.replicas, 0, spec.replicas as nat) == (if spec.replicas == 0 {
            DeploymentPhase::Ready
        } else {
            DeploymentPhase::Progressing
        }),
{
    lemma_created_new(s0, spec, s1);
    let n0 = s0.workers().len() as int;
    let ws1 = s1.workers();
    let added = ws1.subrange(n0, ws1.len() as int);
    assert forall|a: int| 0 <= a < spec.replicas implies (#[trigger] added[a]).index == a by {
        assert(added[a] == ws1[n0 + a]);
    }
    assert forall|a: int, b: int| 0 <= a < b < spec.replicas implies #[trigger] added[a].endpoint.port
        != #[trigger] added[b].endpoint.port by {
        assert(added[a] == ws1[n0 + a] && added[b] == ws1[n0 + b]);
    }
    assert forall|a: int| 0 <= a < spec.replicas implies s1.base_port()
        <= #[trigger] added[a].endpoint.port < s1.max_port() by {
        assert(added[a] == ws1[n0 + a]);
    }
    assert forall|a: int, m: int|
        0 <= a < spec.replicas && 0 <= m < ws1.len() && ws1[m].deployment_id != spec.id implies #[trigger] added[a].endpoint.port
        != #[trigger] ws1[m].endpoint.port by {
        assert(added[a] == ws1[n0 + a]);
    }
    assert forall|k: int| 0 <= k < added.len() implies (#[trigger] added[k]).status
        == WorkerStatus::Pending by {
        assert(added[k] == ws1[n0 + k]);
    }
    lemma_running_pending(added);
}

/// On four free GPUs, two new deployments of one worker with two GPUs each
/// are both placed and take them all; a third new deployment asking for one
/// GPU then gets no worker, and the pools stay as they were.
pub proof fn gpu_pairs_fill_four_devices(
    s0: Scheduler,
    spec1: DeploymentSpec,
    s1: Scheduler,
    spec2: DeploymentSpec,
    s2: Scheduler,
    spec3: DeploymentSpec,
    s3: Scheduler,
)
    requires
        s0.wf(),
        s1.wf(),
        s2.wf(),
        s3.wf(),
        s0.allocator().free().len() == 4,
        s0.free_ports().len() >= 3,
        spec1.replicas == 1 && spec1.resources.gpu_count == 2,
        spec2.replicas == 1 && spec2.resources.gpu_count == 2,
        spec3.replicas == 1 && spec3.resources.gpu_count == 1,
        !stored(s0.deployments(), spec1.id),
        created(s0, spec1, s1),
        !stored(s1.deployments(), spec2.id),
        created(s1, spec2, s2),
        !stored(s2.deployments(), spec3.id),
        created(s2, spec3, s3),
    ensures
        workers_of(s1.workers(), spec1.id).len() == 1,
        workers_of(s1.workers(), spec1.id)[0].gpu_ids@ == s0.allocator().free().take(2),
        workers_of(s2.workers(), spec2.id).len() == 1,
        workers_of(s2.workers(), spec2.id)[0].gpu_ids@ == s0.allocator().free().skip(2),
        s2.allocator().free().len() == 0,
        workers_of(s3.workers(), spec3.id).len() == 0,
        s3.workers() == s2.workers(),
        s3.allocator().free() == s2.allocator().free(),
        s3.free_ports() == s2.free_ports(),
{
    let fg0 = s0.allocator().free();
    lemma_created_new(s0, spec1, s1);
    assert(capacity(s0.free_ports().len(), 4, 2) == 2);
    assert(s1.workers()[s0.workers().len() as int] == workers_of(s1.workers(), spec1.id)[0]);
    assert(fg0.subrange(0, 2) =~= fg0.take(2));
    assert(s1.allocator().free() =~= fg0.skip(2));
    lemma_created_new(s1, spec2, s2);
    assert(capacity(s1.free_ports().len(), 2, 2) == 1);
    assert(s2.workers()[s1.workers().len() as int] == workers_of(s2.workers(), spec2.id)[0]);
    assert(s1.allocator().free().subrange(0, 2) =~= fg0.skip(2));
    assert(s2.allocator().free() =~= s1.allocator().free().skip(2));
    lemma_created_new(s2, spec3, s3);
    assert(capacity(s2.free_ports().len(), 0, 1) == 0);
    assert(s3.workers() =~= s2.workers()) by {
        assert(s3.workers().subrange(0, s2.workers().len() as int) == s2.workers());
    }
    assert(s3.allocator().free() =~= s2.allocator().free().skip(0));
    assert(s3.free_ports() =~= s2.free_ports().skip(0));
}

/// No worker of a list of pending workers is running.
proof fn lemma_running_pending(ws: Seq<Worker>)
    requires
        forall|k: int| 0 <= k < ws.len() ==> (#[trigger] ws[k]).status == WorkerStatus::Pending,
    ensures
        count_running(ws) == 0,
    decreases ws.len(),
{
    if ws.len() > 0 {
        assert(ws[ws.len() - 1] == ws.last());
        lemma_running_pending(ws.drop_last());
    }
}

/// A deployment is ready once as many of its workers run as it wants.
pub proof fn phase_ready_when_all_running(replicas: u32, workers: Seq<Worker>)
    requires
        count_running(workers) == replicas,
    ensures
        phase_of(replicas, count_running(workers), workers.len()) == DeploymentPhase::Ready,
{
}

/// Scaling a deployment of two workers up to four and back down to one
/// leaves one worker, its first: the others are gone, and the port and GPUs
/// of the one that was there before go back to the pools, which then hold
/// one more free port than at the start.
pub proof fn scale_up_then_down_releases(
    s0: Scheduler,
    id: u128,
    s1: Scheduler,
    s2: Scheduler,
)
    requires
        s0.wf(),
        s1.wf(),
        s2.wf(),
        deployment_index(s0.deployments(), id) >= 0,
        workers_of(s0.workers(), id).len() == 2,
        scaled(s0, id, 4, s1),
        scaled(s1, id, 1, s2),
    ensures
        workers_of(s2.workers(), id).len() == 1,
        exists|j: int|
            0 <= j < s0.workers().len() && s0.workers()[j].deployment_id == id && s2.workers()
                == s0.workers().remove(j) && s2.ports() == s0.ports().remove(
                s0.workers()[j].endpoint.port,
            ) && s2.allocator().allocated() == s0.allocator().allocated().difference(
                s0.workers()[j].gpu_ids@.to_set(),
            ),
        s2.free_ports().len() == s0.free_ports().len() + 1,
{
    let n0 = s0.workers().len() as int;
    let ws1 = s1.workers();
    let added = ws1.subrange(n0, ws1.len() as int);
    assert(ws1 =~= s0.workers() + added);
    assert forall|k: int| 0 <= k < added.len() implies (#[trigger] added[k]).deployment_id == id by {
        assert(added[k] == ws1[n0 + k]);
    }
    lemma_workers_of_append(s0.workers(), added, id);
    let cur1 = workers_of(ws1, id).len();
    assert(cur1 == 2 + added.len());
    lemma_deployment_index(s0.deployments(), id);
    lemma_deployment_index(s1.deployments(), id);
    let k = deployment_index(s0.deployments(), id);
    assert(s1.deployments()[k].id == id);
    assert(deployment_index(s1.deployments(), id) == k) by {
        let k1 = deployment_index(s1.deployments(), id);
        assert(unique_ids(s1.deployments()));
        if k1 != k {
            assert(s1.deployments()[k1].id == id);
        }
    }
    lemma_drop_appended(s0.workers(), added, id, 1);
    assert(s2.workers() == drop_last_of(s0.workers(), id, 1));
    let j = lemma_drop_one(s0.workers(), id);
    lemma_match_remove(
        s0.workers(),
        s0.ports(),
        s0.allocator().allocated(),
        s0.base_port() as int,
        s0.max_port() as int,
        j,
    );
    lemma_match_unique(
        s2.workers(),
        s2.ports(),
        s0.ports().remove(s0.workers()[j].endpoint.port),
        s2.allocator().allocated(),
        s0.allocator().allocated().difference(s0.workers()[j].gpu_ids@.to_set()),
        s0.base_port() as int,
        s0.max_port() as int,
    );
}

/// Creating a new deployment of two replicas with room for them, scaling it
/// to four and back to one leaves one worker, the first one created, and one
/// replica asked for; the pools then hold exactly the ports and GPUs they
/// held before the creation, but for that one worker's port and GPUs.
pub proof fn create_scale_up_then_down(
    s0: Scheduler,
    spec: DeploymentSpec,
    s1: Scheduler,
    s2: Scheduler,
    s3: Scheduler,
)
    requires
        s0.wf(),
        s1.wf(),
        s2.wf(),
        s3.wf(),
        !stored(s0.deployments(), spec.id),
        spec.replicas == 2,
        2 <= s0.capacity_for(spec.resources.gpu_count),
        created(s0, spec, s1),
        scaled(s1, spec.id, 4, s2),
        scaled(s2, spec.id, 1, s3),
    ensures
        workers_of(s3.workers(), spec.id).len() == 1,
        s3.workers() == s0.workers().push(s1.workers()[s0.workers().len() as int]),
        s3.deployments()[deployment_index(s3.deployments(), spec.id)].replicas == 1,
        s3.ports() == s0.ports().insert(s0.free_ports()[0]),
        s3.allocator().allocated() == s0.allocator().allocated().union(
            s0.allocator().free().take(spec.resources.gpu_count as int).to_set(),
        ),
        s3.free_ports().len() == s0.free_ports().len() - 1,
        s3.allocator().free().len() == s0.allocator().free().len() - spec.resources.gpu_count,
{
    let id = spec.id;
    let g = spec.resources.gpu_count as int;
    let n0 = s0.workers().len() as int;
    let fp0 = s0.free_ports();
    let fg0 = s0.allocator().free();
    lemma_created_new(s0, spec, s1);
    assert(capacity(fp0.len(), fg0.len(), g as nat) >= 2);
    let w0 = s1.workers()[n0];
    let w1 = s1.workers()[n0 + 1];
    let base = s0.workers().push(w0);
    assert(s1.workers() =~= base.push(w1));
    assert(workers_of(s1.workers(), id).len() == 2);
    // the scale-up only appends workers of the deployment
    lemma_stored_index(s1.deployments(), id);
    let ws1 = s1.workers();
    let ws2 = s2.workers();
    let added = ws2.subrange(ws1.len() as int, ws2.len() as int);
    assert(ws2 =~= ws1 + added);
    assert forall|k: int| 0 <= k < added.len() implies (#[trigger] added[k]).deployment_id == id by {
        assert(added[k] == ws2[ws1.len() + k]);
    }
    lemma_workers_of_append(ws1, added, id);
    lemma_drop_appended(ws1, added, id, 1);
    assert(seq![w1] =~= ws1.subrange(n0 + 1, n0 + 2));
    assert(ws1 =~= base + seq![w1]);
    lemma_drop_appended(base, seq![w1], id, 0);
    assert(s3.workers() == base);
    assert(workers_of(base, id).len() == 1) by {
        assert(base.drop_last() =~= s0.workers());
    }
    // the replica count
    let k1 = deployment_index(s1.deployments(), id);
    lemma_deployment_index(s1.deployments(), id);
    let ds2 = s2.deployments();
    let ds3 = s3.deployments();
    assert(ds2 == s1.deployments().update(k1, with_replicas(s1.deployments()[k1], 4)));
    assert forall|i: int| 0 <= i < s1.deployments().len() implies (#[trigger] s1.deployments()[i]).id
        == ds2[i].id by {
        if i == k1 {
            assert(ds2[i] == with_replicas(s1.deployments()[k1], 4));
        }
    }
    lemma_same_ids(s1.deployments(), ds2, id);
    assert(ds3 == ds2.update(k1, with_replicas(ds2[k1], 1)));
    assert forall|i: int| 0 <= i < ds2.len() implies (#[trigger] ds2[i]).id == ds3[i].id by {
        if i == k1 {
            assert(ds3[i] == with_replicas(ds2[k1], 1));
        }
    }
    lemma_same_ids(ds2, ds3, id);
    assert(ds3[k1] == with_replicas(ds2[k1], 1));
    // the pools
    lemma_free_gpus(s0.allocator().devices(), s0.allocator().allocated());
    lemma_free_ports(s0.ports(), s0.base_port() as int, s0.max_port() as int);
    lemma_capacity(fp0.len(), fg0.len(), g as nat, 2);
    assert((g as nat) * 2 <= fg0.len());
    assert(g <= fg0.len()) by (nonlinear_arith)
        requires
            (g as nat) * 2 <= fg0.len(),
            g >= 0,
    ;
    assert(placed_as(s0, id, 0, g as nat, w0, 0));
    assert((g as nat) * 0nat == 0) by (nonlinear_arith);
    assert(w0.endpoint.port == fp0[0]);
    assert(w0.gpu_ids@ =~= fg0.take(g));
    assert forall|k: int| 0 <= k < w0.gpu_ids@.len() implies !s0.allocator().allocated().contains(
        #[trigger] w0.gpu_ids@[k],
    ) by {
        assert(w0.gpu_ids@[k] == fg0[k]);
    }
    lemma_match_push(
        s0.workers(),
        s0.ports(),
        s0.allocator().allocated(),
        s0.base_port() as int,
        s0.max_port() as int,
        w0,
    );
    lemma_match_unique(
        base,
        s3.ports(),
        s0.ports().insert(w0.endpoint.port),
        s3.allocator().allocated(),
        s0.allocator().allocated().union(w0.gpu_ids@.to_set()),
        s0.base_port() as int,
        s0.max_port() as int,
    );
    lemma_free_gpus_grow(s0.allocator().devices(), s0.allocator().allocated(), fg0.take(g).to_set());
    lemma_without_prefix(fg0, g);
    lemma_free_ports_grow(s0.ports(), fp0.take(1).to_set(), s0.base_port() as int, s0.max_port() as int);
    lemma_without_prefix(fp0, 1);
    assert(fp0.take(1).to_set() =~= set![fp0[0]]) by {
        assert(fp0.take(1)[0] == fp0[0]);
    }
    assert(s0.ports().union(set![fp0[0]]) =~= s0.ports().insert(fp0[0]));
}

/// The ports held by workers of deployment `id`.
pub open spec fn ports_of_deployment(ws: Seq<Worker>, id: u128) -> Set<u16> {
    Set::new(
        |p: u16| exists|k: int| 0 <= k < ws.len() && ws[k].deployment_id == id && ws[k].endpoint.port == p,
    )
}

/// The GPUs held by workers of deployment `id`.
pub open spec fn gpus_of_deployment(ws: Seq<Worker>, id: u128) -> Set<u32> {
    Set::new(
        |g: u32|
            exists|k: int, q: int|
                0 <= k < ws.len() && ws[k].deployment_id == id && 0 <= q < ws[k].gpu_ids@.len()
                    && ws[k].gpu_ids@[q] == g,
    )
}

/// Every worker of another deployment is kept by `workers_not_of`.
proof fn lemma_not_of_contains(ws: Seq<Worker>, id: u128)
    ensures
        forall|m: int|
            0 <= m < ws.len() && ws[m].deployment_id != id ==> exists|i: int|
                0 <= i < workers_not_of(ws, id).len() && workers_not_of(ws, id)[i] == #[trigger] ws[m],
    decreases ws.len(),
{
    if ws.len() > 0 {
        let rest = ws.drop_last();
        lemma_not_of_contains(rest, id);
        let w = workers_not_of(ws, id);
        let wr = workers_not_of(rest, id);
        assert forall|m: int| 0 <= m < ws.len() && ws[m].deployment_id != id implies exists|i: int|
            0 <= i < w.len() && w[i] == #[trigger] ws[m] by {
            if m < ws.len() - 1 {
                assert(ws[m] == rest[m]);
                let i = choose|i: int| 0 <= i < wr.len() && wr[i] == #[trigger] rest[m];
                if ws.last().deployment_id != id {
                    assert(w[i] == wr[i]);
                } else {
                    assert(w == wr);
                }
            } else {
                assert(w[w.len() - 1] == ws[m]);
            }
        }
    }
}

/// The `i`-th worker kept by `workers_not_of` is a worker of another deployment.
proof fn lemma_not_of_member(ws: Seq<Worker>, id: u128, i: int) -> (m: int)
    requires
        0 <= i < workers_not_of(ws, id).len(),
    ensures
        0 <= m < ws.len(),
        ws[m] == workers_not_of(ws, id)[i],
        ws[m].deployment_id != id,
{
    lemma_not_of_members(ws, id);
    choose|m: int| 0 <= m < ws.len() && ws[m] == #[trigger] workers_not_of(ws, id)[i] && ws[m].deployment_id != id
}

/// A worker of another deployment is kept by `workers_not_of`.
proof fn lemma_not_of_keeps(ws: Seq<Worker>, id: u128, m: int) -> (i: int)
    requires
        0 <= m < ws.len(),
        ws[m].deployment_id != id,
    ensures
        0 <= i < workers_not_of(ws, id).len(),
        workers_not_of(ws, id)[i] == ws[m],
{
    lemma_not_of_contains(ws, id);
    choose|i: int| 0 <= i < workers_not_of(ws, id).len() && workers_not_of(ws, id)[i] == #[trigger] ws[m]
}

/// After deleting the workers of `id`, the held ports are the ones held
/// before but for theirs.
proof fn lemma_deleted_ports(ws0: Seq<Worker>, ws1: Seq<Worker>, p0: Set<u16>, p1: Set<u16>, id: u128)
    requires
        forall|i: int, j: int|
            0 <= i < ws0.len() && 0 <= j < ws0.len() && i != j ==> #[trigger] ws0[i].endpoint.port
                != #[trigger] ws0[j].endpoint.port,
        forall|p: u16|
            #[trigger] p0.contains(p) <==> exists|i: int| 0 <= i < ws0.len() && ws0[i].endpoint.port == p,
        forall|p: u16|
            #[trigger] p1.contains(p) <==> exists|i: int| 0 <= i < ws1.len() && ws1[i].endpoint.port == p,
        ws1 == workers_not_of(ws0, id),
    ensures
        p1 == p0.difference(ports_of_deployment(ws0, id)),
{
    let gone = ports_of_deployment(ws0, id);
    assert forall|x: u16| p1.contains(x) implies #[trigger] p0.difference(gone).contains(x) by {
        let i = choose|i: int| 0 <= i < ws1.len() && ws1[i].endpoint.port == x;
        let m = lemma_not_of_member(ws0, id, i);
        assert(p0.contains(x));
        if gone.contains(x) {
            let k = choose|k: int| 0 <= k < ws0.len() && ws0[k].deployment_id == id && ws0[k].endpoint.port == x;
            assert(ws0[k].endpoint.port != ws0[m].endpoint.port);
        }
    }
    assert forall|x: u16| #[trigger] p0.difference(gone).contains(x) implies p1.contains(x) by {
        let m = choose|m: int| 0 <= m < ws0.len() && ws0[m].endpoint.port == x;
        let i = lemma_not_of_keeps(ws0, id, m);
        assert(ws1[i].endpoint.port == x);
    }
    assert(p1 =~= p0.difference(gone));
}

/// After deleting the workers of `id`, the granted GPUs are the ones granted
/// before but for theirs.
proof fn lemma_deleted_gpus(ws0: Seq<Worker>, ws1: Seq<Worker>, a0: Set<u32>, a1: Set<u32>, id: u128)
    requires
        gpus_match(ws0, a0),
        gpus_match(ws1, a1),
        ws1 == workers_not_of(ws0, id),
    ensures
        a1 == a0.difference(gpus_of_deployment(ws0, id)),
{
    lemma_not_of_contains(ws0, id);
    lemma_not_of_members(ws0, id);
    assert forall|x: u32| #[trigger] a1.contains(x) <==> a0.difference(gpus_of_deployment(ws0, id)).contains(x) by {
        if a1.contains(x) {
            let (i, q) = choose|i: int, q: int|
                0 <= i < ws1.len() && 0 <= q < ws1[i].gpu_ids@.len() && ws1[i].gpu_ids@[q] == x;
            let m = choose|m: int| 0 <= m < ws0.len() && ws0[m] == #[trigger] ws1[i] && ws0[m].deployment_id != id;
            assert(ws0[m].gpu_ids@[q] == x);
            assert(a0.contains(x));
            if gpus_of_deployment(ws0, id).contains(x) {
                let (k, r) = choose|k: int, r: int|
                    0 <= k < ws0.len() && ws0[k].deployment_id == id && 0 <= r < ws0[k].gpu_ids@.len()
                        && ws0[k].gpu_ids@[r] == x;
                assert(ws0[k].gpu_ids@[r] != ws0[m].gpu_ids@[q]);
            }
        }
        if a0.difference(gpus_of_deployment(ws0, id)).contains(x) {
            let (m, q) = choose|m: int, q: int|
                0 <= m < ws0.len() && 0 <= q < ws0[m].gpu_ids@.len() && ws0[m].gpu_ids@[q] == x;
            assert(ws0[m].deployment_id != id);
            let i = choose|i: int| 0 <= i < ws1.len() && ws1[i] == #[trigger] ws0[m];
            assert(ws1[i].gpu_ids@[q] == x);
        }
    }
    assert(a1 =~= a0.difference(gpus_of_deployment(ws0, id)));
}

/// Deleting a known deployment forgets it and every worker of it: looking it
/// up fails afterwards, and the pools keep exactly what they held but for the
/// ports and GPUs of its workers, which are free again.
pub proof fn delete_frees_everything(s0: Scheduler, id: u128, s1: Scheduler)
    requires
        s0.wf(),
        s1.wf(),
        deployment_index(s0.deployments(), id) >= 0,
        deleted(s0, id, s1),
    ensures
        deployment_index(s1.deployments(), id) < 0,
        workers_of(s1.workers(), id).len() == 0,
        forall|k: int|
            0 <= k < s0.workers().len() && (#[trigger] s0.workers()[k]).deployment_id == id ==> {
                &&& !s1.ports().contains(s0.workers()[k].endpoint.port)
                &&& forall|g: int|
                    0 <= g < s0.workers()[k].gpu_ids@.len() ==> !s1.allocator().allocated().contains(
                        #[trigger] s0.workers()[k].gpu_ids@[g],
                    )
            },
        s1.ports() == s0.ports().difference(ports_of_deployment(s0.workers(), id)),
        s1.allocator().allocated() == s0.allocator().allocated().difference(
            gpus_of_deployment(s0.workers(), id),
        ),
{
    lemma_deleted_ports(s0.workers(), s1.workers(), s0.ports(), s1.ports(), id);
    lemma_deleted_gpus(s0.workers(), s1.workers(), s0.allocator().allocated(), s1.allocator().allocated(), id);
    let ds0 = s0.deployments();
    let ds1 = s1.deployments();
    let k = deployment_index(ds0, id);
    lemma_deployment_index(ds0, id);
    lemma_deployment_index(ds1, id);
    if deployment_index(ds1, id) >= 0 {
        let k1 = deployment_index(ds1, id);
        let kk = if k1 < k { k1 } else { k1 + 1 };
        assert(ds1[k1] == ds0[kk]);
        assert(ds0[kk].id != ds0[k].id);
    }
    lemma_not_of_members(s0.workers(), id);
    let ws0 = s0.workers();
    let ws1 = s1.workers();
    assert forall|k: int| 0 <= k < ws0.len() && (#[trigger] ws0[k]).deployment_id == id implies {
        &&& !s1.ports().contains(ws0[k].endpoint.port)
        &&& forall|g: int|
            0 <= g < ws0[k].gpu_ids@.len() ==> !s1.allocator().allocated().contains(
                #[trigger] ws0[k].gpu_ids@[g],
            )
    } by {
        if s1.ports().contains(ws0[k].endpoint.port) {
            let i = choose|i: int| 0 <= i < ws1.len() && ws1[i].endpoint.port == ws0[k].endpoint.port;
            let m = choose|m: int| 0 <= m < ws0.len() && ws0[m] == #[trigger] ws1[i] && ws0[m].deployment_id != id;
            assert(ws0[m].endpoint.port != ws0[k].endpoint.port);
        }
        assert forall|g: int| 0 <= g < ws0[k].gpu_ids@.len() implies !s1.allocator().allocated().contains(
            #[trigger] ws0[k].gpu_ids@[g],
        ) by {
            let x = ws0[k].gpu_ids@[g];
            if s1.allocator().allocated().contains(x) {
                let (i, q) = choose|i: int, q: int|
                    0 <= i < ws1.len() && 0 <= q < ws1[i].gpu_ids@.len() && ws1[i].gpu_ids@[q] == x;
                let m = choose|m: int| 0 <= m < ws0.len() && ws0[m] == #[trigger] ws1[i] && ws0[m].deployment_id != id;
                assert(ws0[m].gpu_ids@[q] != ws0[k].gpu_ids@[g]);
            }
        }
    }
}

} // verus!
