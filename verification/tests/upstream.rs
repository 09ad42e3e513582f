use kirin_gateway::config::types::{HealthCheckConfig, NodeConfig, UpstreamConfig};
use kirin_gateway::data_plane::upstream::{LoadBalancerKind, UpstreamCluster};

fn config(algorithm: &str, addr: &str) -> UpstreamConfig {
    UpstreamConfig {
        nodes: vec![NodeConfig {
            addr: addr.to_string(),
            weight: 1,
        }],
        algorithm: algorithm.to_string(),
        health_check: None,
    }
}

#[test]
fn test_unsupported_algorithm() {
    let upstream_cfg = UpstreamConfig {
        nodes: vec![NodeConfig {
            addr: "127.0.0.1:9001".to_string(),
            weight: 1,
        }],
        algorithm: "least_conn".to_string(),
        health_check: None,
    };

    let result = UpstreamCluster::from_config("test", &upstream_cfg);
    assert!(result.is_err());
}

#[test]
fn the_algorithm_names_the_balancer() {
    let kind = |algorithm: &str| {
        UpstreamCluster::from_config("c", &config(algorithm, "127.0.0.1:1"))
            .ok()
            .unwrap()
            .lb
    };
    assert_eq!(kind("round_robin"), LoadBalancerKind::RoundRobin);
    assert_eq!(kind(""), LoadBalancerKind::RoundRobin);
    assert_eq!(kind("consistent_hash"), LoadBalancerKind::Consistent);
    assert_eq!(
        UpstreamCluster::from_config("c", &config("Round_Robin", "127.0.0.1:1")).err().unwrap(),
        "不支持的负载均衡算法 'Round_Robin'，可选: round_robin, consistent_hash"
    );
}

#[test]
fn every_node_needs_an_address() {
    let mut cfg = config("round_robin", "[::1]:80");
    cfg.nodes.push(NodeConfig {
        addr: "localhost:80".to_string(),
        weight: 3,
    });
    assert_eq!(
        UpstreamCluster::from_config("c", &cfg).err().unwrap(),
        "节点地址 'localhost:80' 无效: ' InternalError context: invalid socket addr cause: invalid \
         socket address syntax'"
    );
    cfg.nodes.pop();
    cfg.health_check = Some(HealthCheckConfig::default());
    let cluster = UpstreamCluster::from_config("c", &cfg).ok().unwrap();
    assert!(cluster.has_health_check());
    assert_eq!(cluster.health_check().unwrap().interval_secs, 5);
    assert_eq!(cluster.health_check().unwrap().timeout_secs, 3);
    assert_eq!(cluster.nodes().len(), 1);
    let summary = cluster.summary();
    assert_eq!(summary.name, "c");
    assert_eq!(summary.nodes, vec!["[::1]:80"]);
}
