use dmrlet::balancer::LoadBalancer;
use dmrlet::config::LoadBalanceStrategy;
use dmrlet::discovery::ServiceDiscovery;
use dmrlet::model::Endpoint;

fn create_test_endpoints() -> Vec<Endpoint> {
    vec![
        Endpoint::new("127.0.0.1".to_string(), 30000),
        Endpoint::new("127.0.0.1".to_string(), 30001),
        Endpoint::new("127.0.0.1".to_string(), 30002),
    ]
}

#[test]
fn test_round_robin() {
    let mut lb = LoadBalancer::new(LoadBalanceStrategy::RoundRobin);
    let endpoints = create_test_endpoints();

    let e1 = lb.select(&endpoints).unwrap();
    let e2 = lb.select(&endpoints).unwrap();
    let e3 = lb.select(&endpoints).unwrap();
    let e4 = lb.select(&endpoints).unwrap();

    assert_eq!(e1.port, 30000);
    assert_eq!(e2.port, 30001);
    assert_eq!(e3.port, 30002);
    assert_eq!(e4.port, 30000);
}

#[test]
fn test_empty_endpoints() {
    let mut lb = LoadBalancer::default();
    let endpoints: Vec<Endpoint> = vec![];

    assert!(lb.select(&endpoints).is_none());
}

#[test]
fn least_connections_rotates_like_round_robin() {
    let mut lb = LoadBalancer::new(LoadBalanceStrategy::LeastConnections);
    let endpoints = create_test_endpoints();
    assert_eq!(lb.select(&endpoints).unwrap().port, 30000);
    assert_eq!(lb.select(&endpoints).unwrap().port, 30001);
    assert_eq!(lb.strategy(), LoadBalanceStrategy::LeastConnections);
}

#[test]
fn random_picks_by_seed() {
    let mut lb = LoadBalancer::new(LoadBalanceStrategy::Random);
    let endpoints = create_test_endpoints();
    assert_eq!(lb.select_with_seed(&endpoints, 7).unwrap().port, 30001);
    assert_eq!(lb.select_with_seed(&endpoints, 9).unwrap().port, 30000);
    let picked = lb.select(&endpoints).unwrap().port;
    assert!((30000..30003).contains(&picked));
}

#[test]
fn test_register_and_get() {
    let mut sd = ServiceDiscovery::new();
    let deployment_id = uuid::Uuid::new_v4().as_u128();
    let endpoint = Endpoint::new("127.0.0.1".to_string(), 30000);

    sd.register(deployment_id, endpoint);

    let endpoints = sd.get_endpoints(deployment_id);
    assert_eq!(endpoints.len(), 1);
    assert_eq!(endpoints[0].port, 30000);
}

#[test]
fn test_unregister() {
    let mut sd = ServiceDiscovery::new();
    let deployment_id = uuid::Uuid::new_v4().as_u128();

    sd.register(deployment_id, Endpoint::new("127.0.0.1".to_string(), 30000));
    sd.register(deployment_id, Endpoint::new("127.0.0.1".to_string(), 30001));

    sd.unregister(deployment_id, 30000);

    let endpoints = sd.get_endpoints(deployment_id);
    assert_eq!(endpoints.len(), 1);
    assert_eq!(endpoints[0].port, 30001);
}

#[test]
fn test_get_all_endpoints() {
    let mut sd = ServiceDiscovery::new();
    let id1 = uuid::Uuid::new_v4().as_u128();
    let id2 = uuid::Uuid::new_v4().as_u128();

    sd.register(id1, Endpoint::new("127.0.0.1".to_string(), 30000));
    sd.register(id2, Endpoint::new("127.0.0.1".to_string(), 30001));

    let all = sd.get_all_endpoints();
    assert_eq!(all.len(), 2);
}

#[test]
fn unregister_last_endpoint_and_clear() {
    let mut sd = ServiceDiscovery::default();
    sd.register(1, Endpoint::new("a".to_string(), 1));
    sd.register(2, Endpoint::new("b".to_string(), 2));
    sd.unregister(1, 1);
    assert!(sd.get_endpoints(1).is_empty());
    sd.unregister(9, 2);
    assert_eq!(sd.get_endpoints(2).len(), 1);
    sd.clear(2);
    assert!(sd.get_all_endpoints().is_empty());
}
