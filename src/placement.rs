//! Placement: which GPUs and which port a new worker receives.

use crate::model::DeploymentSpec;
use vstd::prelude::*;

verus! {

/// The resources chosen for a new worker.
#[derive(Debug)]
pub struct PlacementDecision {
    /// Assigned GPU indices
    pub gpu_ids: Vec<u32>,
    /// Assigned port number
    pub port: u16,
    /// Worker index
    pub worker_index: u32,
}

/// A way of choosing resources for a new worker. Whatever it chooses comes
/// from what is offered: `gpu_count` of the offered GPUs and one offered port.
pub trait PlacementStrategy {
    /// The placement of a new worker of `spec`, which already has
    /// `existing_worker_count` workers, or `None` when it cannot be placed.
    fn place(
        &self,
        spec: &DeploymentSpec,
        existing_worker_count: u32,
        available_gpus: &[u32],
        available_ports: &[u16],
    ) -> (r: Option<PlacementDecision>)
        ensures
            r matches Some(d) ==> {
                &&& d.gpu_ids@.len() == spec.resources.gpu_count
                &&& forall|k: int| 0 <= k < d.gpu_ids@.len() ==> available_gpus@.contains(#[trigger] d.gpu_ids@[k])
                &&& available_ports@.contains(d.port)
                &&& d.worker_index == existing_worker_count
            },
    ;
}

/// Whether the default strategy places a worker: a port is offered, and at
/// least `gpu_count` GPUs are.
pub open spec fn default_places(gpu_count: u32, gpus: Seq<u32>, ports: Seq<u16>) -> bool {
    ports.len() > 0 && gpus.len() >= gpu_count
}

/// Greedy first fit: the first offered port and the first `gpu_count`
/// offered GPUs, all or nothing.
pub struct DefaultPlacementStrategy;

impl PlacementStrategy for DefaultPlacementStrategy {
    /// The default placement, stated exactly: `None` unless a port and
    /// `gpu_count` GPUs are offered; then the first port, a prefix of the
    /// GPUs, and the existing count as the worker index.
    fn place(
        &self,
        spec: &DeploymentSpec,
        existing_worker_count: u32,
        available_gpus: &[u32],
        available_ports: &[u16],
    ) -> (r: Option<PlacementDecision>)
        ensures
            r is Some <==> default_places(spec.resources.gpu_count, available_gpus@, available_ports@),
            r matches Some(d) ==> {
                &&& d.gpu_ids@ == available_gpus@.take(spec.resources.gpu_count as int)
                &&& d.port == available_ports@[0]
                &&& d.worker_index == existing_worker_count
            },
    {
        if available_ports.len() == 0 {
            return None;
        }
        let gpu_count = spec.resources.gpu_count as usize;
        if gpu_count > 0 && available_gpus.len() < gpu_count {
            return None;
        }
        let mut gpu_ids: Vec<u32> = Vec::new();
        let mut i: usize = 0;
        while i < gpu_count
            invariant
                gpu_count == spec.resources.gpu_count,
                gpu_count <= available_gpus@.len(),
                i <= gpu_count,
                gpu_ids@ == available_gpus@.take(i as int),
            decreases gpu_count - i,
        {
            gpu_ids.push(available_gpus[i]);
            assert(gpu_ids@ =~= available_gpus@.take(i as int + 1));
            i = i + 1;
        }
        Some(PlacementDecision { gpu_ids, port: available_ports[0], worker_index: existing_worker_count })
    }
}

} // verus!
