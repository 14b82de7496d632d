use dmrlet::gpu::{GpuDevice, GpuInfo, GpuVendor};
use dmrlet::gpu_allocator::GpuAllocator;
use dmrlet::model::{DeploymentPhase, DeploymentSpec, WorkerStatus};
use dmrlet::placement::{DefaultPlacementStrategy, PlacementStrategy};
use dmrlet::scheduler::Scheduler;
use dmrlet::DmrletError;

fn create_test_gpu_info(count: u32) -> GpuInfo {
    let devices: Vec<GpuDevice> = (0..count)
        .map(|i| GpuDevice {
            index: i,
            name: format!("Test GPU {}", i),
            memory_total: 16 * 1024 * 1024 * 1024,
            memory_free: 16 * 1024 * 1024 * 1024,
            vendor: GpuVendor::Nvidia,
            available: true,
            utilization: Some(0),
        })
        .collect();

    GpuInfo {
        total_count: count,
        available_count: count,
        devices,
    }
}

#[test]
fn test_gpu_allocator_empty() {
    let allocator = GpuAllocator::empty();
    assert_eq!(allocator.total_count(), 0);
    assert_eq!(allocator.available_count(), 0);
}

#[test]
fn test_allocate_gpus() {
    let gpu_info = create_test_gpu_info(4);
    let mut allocator = GpuAllocator::new(gpu_info);

    assert_eq!(allocator.available_count(), 4);

    let allocated = allocator.allocate(2).unwrap();
    assert_eq!(allocated.len(), 2);
    assert_eq!(allocator.available_count(), 2);
}

#[test]
fn test_release_gpus() {
    let gpu_info = create_test_gpu_info(2);
    let mut allocator = GpuAllocator::new(gpu_info);

    let allocated = allocator.allocate(2).unwrap();
    assert_eq!(allocator.available_count(), 0);

    allocator.release(&allocated);
    assert_eq!(allocator.available_count(), 2);
}

#[test]
fn test_allocate_insufficient_gpus() {
    let gpu_info = create_test_gpu_info(2);
    let mut allocator = GpuAllocator::new(gpu_info);

    let result = allocator.allocate(4);
    assert!(result.is_err());
}

#[test]
fn allocate_takes_lowest_free_indices_and_is_all_or_nothing() {
    let mut info = create_test_gpu_info(4);
    info.devices[1].available = false;
    let mut allocator = GpuAllocator::new(info);
    assert_eq!(allocator.available_count(), 3);
    assert_eq!(allocator.allocate(2).unwrap(), vec![0, 2]);
    match allocator.allocate(2) {
        Err(DmrletError::ResourceExhausted(m)) => {
            assert_eq!(m, "Not enough GPUs available: requested 2, available 1")
        }
        other => panic!("unexpected {:?}", other),
    }
    assert_eq!(allocator.available_count(), 1);
    assert_eq!(allocator.allocate(0).unwrap(), Vec::<u32>::new());
    assert_eq!(allocator.allocate(1).unwrap(), vec![3]);
    let info = allocator.get_gpu_info();
    let flags: Vec<bool> = info.iter().map(|s| s.allocated).collect();
    assert_eq!(flags, vec![true, false, true, true]);
}

#[test]
fn release_twice_or_unknown_changes_nothing_else() {
    let mut allocator = GpuAllocator::new(create_test_gpu_info(3));
    let granted = allocator.allocate(3).unwrap();
    assert_eq!(granted, vec![0, 1, 2]);
    allocator.release(&[1, 1, 42]);
    assert_eq!(allocator.available_count(), 1);
    allocator.release(&[1]);
    assert_eq!(allocator.available_count(), 1);
    assert_eq!(allocator.allocate(1).unwrap(), vec![1]);
    assert_eq!(allocator.total_count(), 3);
}

#[test]
fn test_default_placement_no_gpus() {
    let spec = DeploymentSpec::new("test".to_string(), "model".to_string());
    let strategy = DefaultPlacementStrategy;

    let decision = strategy.place(&spec, 0, &[], &[30000, 30001]);
    assert!(decision.is_some());

    let d = decision.unwrap();
    assert!(d.gpu_ids.is_empty());
    assert_eq!(d.port, 30000);
}

#[test]
fn test_default_placement_with_gpus() {
    let mut spec = DeploymentSpec::new("test".to_string(), "model".to_string());
    spec.resources.gpu_count = 2;

    let strategy = DefaultPlacementStrategy;
    let decision = strategy.place(&spec, 0, &[0, 1, 2, 3], &[30000]);

    assert!(decision.is_some());
    let d = decision.unwrap();
    assert_eq!(d.gpu_ids, vec![0, 1]);
}

#[test]
fn test_placement_insufficient_gpus() {
    let mut spec = DeploymentSpec::new("test".to_string(), "model".to_string());
    spec.resources.gpu_count = 4;

    let strategy = DefaultPlacementStrategy;
    let decision = strategy.place(&spec, 0, &[0, 1], &[30000]);

    assert!(decision.is_none());
}

#[test]
fn placement_without_ports_declines() {
    let spec = DeploymentSpec::new("t".to_string(), "m".to_string());
    assert!(DefaultPlacementStrategy.place(&spec, 3, &[0], &[]).is_none());
    let d = DefaultPlacementStrategy.place(&spec, 3, &[5], &[30007, 30001]).unwrap();
    assert_eq!(d.port, 30007);
    assert_eq!(d.worker_index, 3);
}

#[test]
fn test_create_deployment() {
    let mut scheduler = Scheduler::new(30000, 100);
    let spec = DeploymentSpec::new("test".to_string(), "model".to_string());

    let id = scheduler.create_deployment(spec).unwrap();
    let status = scheduler.get_deployment_status(id).unwrap();

    assert_eq!(status.spec.name, "test");
}

#[test]
fn test_delete_deployment() {
    let mut scheduler = Scheduler::new(30000, 100);
    let spec = DeploymentSpec::new("test".to_string(), "model".to_string());

    let id = scheduler.create_deployment(spec).unwrap();
    scheduler.delete_deployment(id).unwrap();

    let result = scheduler.get_deployment_status(id);
    assert!(result.is_err());
}

#[test]
fn test_scale_deployment() {
    let mut scheduler = Scheduler::new(30000, 100);
    let mut spec = DeploymentSpec::new("test".to_string(), "model".to_string());
    spec.replicas = 2;

    let id = scheduler.create_deployment(spec).unwrap();

    scheduler.scale_deployment(id, 4).unwrap();
    let status = scheduler.get_deployment_status(id).unwrap();
    assert_eq!(status.spec.replicas, 4);

    scheduler.scale_deployment(id, 1).unwrap();
    let status = scheduler.get_deployment_status(id).unwrap();
    assert_eq!(status.spec.replicas, 1);
}

#[test]
fn test_list_deployments() {
    let mut scheduler = Scheduler::new(30000, 100);

    let spec1 = DeploymentSpec::new("test1".to_string(), "model1".to_string());
    let spec2 = DeploymentSpec::new("test2".to_string(), "model2".to_string());

    scheduler.create_deployment(spec1).unwrap();
    scheduler.create_deployment(spec2).unwrap();

    let list = scheduler.list_deployments();
    assert_eq!(list.len(), 2);
}

#[test]
fn ports_exhausted_after_two_workers() {
    let mut scheduler = Scheduler::new(30000, 2);
    let mut spec = DeploymentSpec::new("t".to_string(), "m".to_string());
    spec.replicas = 3;
    let id = scheduler.create_deployment(spec).unwrap();
    let workers = scheduler.get_workers(id);
    let ports: Vec<u16> = workers.iter().map(|w| w.endpoint.port).collect();
    assert_eq!(ports, vec![30000, 30001]);
    let list = scheduler.list_deployments();
    assert_eq!(list.len(), 1);
    assert_eq!(list[0].spec.replicas, 3);
    assert_eq!(list[0].ready_replicas, 0);
    assert_eq!(list[0].phase, DeploymentPhase::Progressing);
}

#[test]
fn gpu_inventory_of_four_serves_two_pairs_then_none() {
    let mut scheduler = Scheduler::with_gpus(30000, 100, create_test_gpu_info(4));
    let mut first = DeploymentSpec::new("a".to_string(), "m".to_string());
    first.resources.gpu_count = 2;
    let mut second = DeploymentSpec::new("b".to_string(), "m".to_string());
    second.resources.gpu_count = 2;
    let mut third = DeploymentSpec::new("c".to_string(), "m".to_string());
    third.resources.gpu_count = 1;
    let a = scheduler.create_deployment(first).unwrap();
    let b = scheduler.create_deployment(second).unwrap();
    let c = scheduler.create_deployment(third).unwrap();
    assert_eq!(scheduler.get_workers(a)[0].gpu_ids, vec![0, 1]);
    assert_eq!(scheduler.get_workers(b)[0].gpu_ids, vec![2, 3]);
    assert!(scheduler.get_workers(c).is_empty());
    let status = scheduler.get_deployment_status(c).unwrap();
    assert_eq!(status.phase, DeploymentPhase::Pending);
}

#[test]
fn created_replicas_have_distinct_ports_in_range() {
    let mut scheduler = Scheduler::new(31000, 5);
    let mut spec = DeploymentSpec::new("t".to_string(), "m".to_string());
    spec.replicas = 3;
    let id = scheduler.create_deployment(spec).unwrap();
    let status = scheduler.get_deployment_status(id).unwrap();
    let mut ports: Vec<u16> = status.workers.iter().map(|w| w.endpoint.port).collect();
    assert_eq!(ports.len(), 3);
    ports.dedup();
    assert_eq!(ports, vec![31000, 31001, 31002]);
    let indices: Vec<u32> = status.workers.iter().map(|w| w.index).collect();
    assert_eq!(indices, vec![0, 1, 2]);
    assert!(status.workers.iter().all(|w| w.status == WorkerStatus::Pending));
    assert_eq!(status.phase, DeploymentPhase::Progressing);
    for w in &status.workers {
        scheduler.update_worker_status(w.id, WorkerStatus::Running).unwrap();
    }
    let status = scheduler.get_deployment_status(id).unwrap();
    assert_eq!(status.ready_replicas, 3);
    assert_eq!(status.phase, DeploymentPhase::Ready);
    assert_eq!(scheduler.get_all_endpoints().len(), 3);
}

#[test]
fn zero_replicas_is_ready() {
    let mut scheduler = Scheduler::new(30000, 1);
    let mut spec = DeploymentSpec::new("t".to_string(), "m".to_string());
    spec.replicas = 0;
    let id = scheduler.create_deployment(spec).unwrap();
    assert_eq!(scheduler.get_deployment_status(id).unwrap().phase, DeploymentPhase::Ready);
}

#[test]
fn scale_two_four_one_gives_resources_back() {
    let mut scheduler = Scheduler::with_gpus(30000, 10, create_test_gpu_info(8));
    let mut spec = DeploymentSpec::new("t".to_string(), "m".to_string());
    spec.replicas = 2;
    spec.resources.gpu_count = 2;
    let id = scheduler.create_deployment(spec).unwrap();
    let first = scheduler.get_workers(id)[0].id;
    scheduler.scale_deployment(id, 4).unwrap();
    let workers = scheduler.get_workers(id);
    assert_eq!(workers.len(), 4);
    let indices: Vec<u32> = workers.iter().map(|w| w.index).collect();
    assert_eq!(indices, vec![0, 1, 2, 3]);
    scheduler.scale_deployment(id, 1).unwrap();
    let workers = scheduler.get_workers(id);
    assert_eq!(workers.len(), 1);
    assert_eq!(workers[0].id, first);
    assert_eq!(workers[0].gpu_ids, vec![0, 1]);
    assert_eq!(workers[0].endpoint.port, 30000);
    let mut other = DeploymentSpec::new("o".to_string(), "m".to_string());
    other.replicas = 3;
    other.resources.gpu_count = 2;
    let o = scheduler.create_deployment(other).unwrap();
    let ports: Vec<u16> = scheduler.get_workers(o).iter().map(|w| w.endpoint.port).collect();
    assert_eq!(ports, vec![30001, 30002, 30003]);
}

#[test]
fn delete_unknown_and_known() {
    let mut scheduler = Scheduler::with_gpus(30000, 3, create_test_gpu_info(2));
    let unknown: u128 = 0x0123_4567_89ab_cdef_0011_2233_4455_6677;
    match scheduler.delete_deployment(unknown) {
        Err(DmrletError::DeploymentNotFound(m)) => {
            assert_eq!(m, "01234567-89ab-cdef-0011-223344556677")
        }
        other => panic!("unexpected {:?}", other),
    }
    let mut spec = DeploymentSpec::new("t".to_string(), "m".to_string());
    spec.replicas = 3;
    spec.resources.gpu_count = 1;
    let id = scheduler.create_deployment(spec).unwrap();
    assert_eq!(scheduler.get_workers(id).len(), 2);
    scheduler.delete_deployment(id).unwrap();
    assert!(matches!(
        scheduler.get_deployment_status(id),
        Err(DmrletError::DeploymentNotFound(_))
    ));
    assert!(scheduler.get_workers(id).is_empty());
    let mut again = DeploymentSpec::new("u".to_string(), "m".to_string());
    again.replicas = 3;
    again.resources.gpu_count = 1;
    let id2 = scheduler.create_deployment(again).unwrap();
    assert_eq!(scheduler.get_workers(id2).len(), 2);
}

#[test]
fn unknown_ids_fail() {
    let mut scheduler = Scheduler::new(30000, 3);
    assert!(matches!(
        scheduler.scale_deployment(5, 2),
        Err(DmrletError::DeploymentNotFound(_))
    ));
    match scheduler.update_worker_status(5, WorkerStatus::Running) {
        Err(DmrletError::WorkerNotFound(m)) => {
            assert_eq!(m, "00000000-0000-0000-0000-000000000005")
        }
        other => panic!("unexpected {:?}", other),
    }
}

#[test]
fn only_running_workers_are_endpoints() {
    let mut scheduler = Scheduler::new(30000, 4);
    let mut spec = DeploymentSpec::new("t".to_string(), "m".to_string());
    spec.replicas = 2;
    let id = scheduler.create_deployment(spec).unwrap();
    assert!(scheduler.get_all_endpoints().is_empty());
    let second = scheduler.get_workers(id)[1].id;
    scheduler.update_worker_status(second, WorkerStatus::Running).unwrap();
    let endpoints = scheduler.get_all_endpoints();
    assert_eq!(endpoints.len(), 1);
    assert_eq!(endpoints[0].port, 30001);
    assert_eq!(endpoints[0].url(), "http://127.0.0.1:30001");
}

#[test]
fn released_low_index_is_granted_first() {
    let mut allocator = GpuAllocator::new(create_test_gpu_info(4));
    assert_eq!(allocator.allocate(2).unwrap(), vec![0, 1]);
    assert_eq!(allocator.allocate(1).unwrap(), vec![2]);
    allocator.release(&[0]);
    assert_eq!(allocator.allocate(2).unwrap(), vec![0, 3]);
}

#[test]
fn new_workers_are_indexed_by_existing_count() {
    let mut scheduler = Scheduler::new(30000, 10);
    let mut spec = DeploymentSpec::new("t".to_string(), "m".to_string());
    spec.replicas = 3;
    let id = scheduler.create_deployment(spec).unwrap();
    scheduler.scale_deployment(id, 1).unwrap();
    scheduler.scale_deployment(id, 3).unwrap();
    let workers = scheduler.get_workers(id);
    let indices: Vec<u32> = workers.iter().map(|w| w.index).collect();
    assert_eq!(indices, vec![0, 1, 2]);
    assert!(workers.iter().all(|w| w.endpoint.host == "127.0.0.1" && !w.endpoint.tls));
}
