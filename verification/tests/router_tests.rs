use wasmerang::{Config, Router};

#[test]
fn test_cluster_name_generation() {
    let istio_router = Router::new(Config { is_istio: true });
    let (c1, c2) = istio_router.get_cluster_names();
    assert_eq!(c1, "outbound|8080||egress-router1.default.svc.cluster.local");
    assert_eq!(c2, "outbound|8080||egress-router2.default.svc.cluster.local");

    let standalone_router = Router::new(Config { is_istio: false });
    let (c1, c2) = standalone_router.get_cluster_names();
    assert_eq!(c1, "egress-router1");
    assert_eq!(c2, "egress-router2");
}

#[test]
fn test_routing_decision_logic() {
    let router = Router::new(Config { is_istio: false });
    let (cluster1, cluster2) = router.get_cluster_names();

    // Even octet -> cluster1
    assert_eq!(
        router.decide_route_cluster("10.0.0.2:12345"),
        Some(cluster1.clone())
    );
    // Odd octet -> cluster2
    assert_eq!(
        router.decide_route_cluster("192.168.1.1:54321"),
        Some(cluster2.clone())
    );
    // IPv6 even octet
    assert_eq!(
        router.decide_route_cluster("[::ffff:192.168.1.100]:8080"),
        Some(cluster1.clone())
    );
    // IPv6 odd octet
    assert_eq!(
        router.decide_route_cluster("[::ffff:192.168.1.101]:8080"),
        Some(cluster2.clone())
    );
}

#[test]
fn test_routing_decision_with_dest_logic() {
    let router = Router::new(Config { is_istio: false });

    // Even octet + HTTPS port -> cluster1
    assert_eq!(
        router.decide_route_cluster_with_dest("10.0.0.2:12345", 443),
        Some("egress-router1".to_string())
    );
    // Odd octet + HTTP port -> cluster2
    assert_eq!(
        router.decide_route_cluster_with_dest("10.0.0.3:12345", 80),
        Some("egress-router2".to_string())
    );
    // Even octet + unknown port -> cluster1 (defaults to HTTPS port)
    assert_eq!(
        router.decide_route_cluster_with_dest("10.0.0.4:12345", 1234),
        Some("egress-router1".to_string())
    );
}

#[test]
fn test_get_cluster_names_istio() {
    let router = Router::new(Config { is_istio: true });
    let (egress1, egress2) = router.get_cluster_names();
    assert_eq!(
        egress1,
        "outbound|8080||egress-router1.default.svc.cluster.local"
    );
    assert_eq!(
        egress2,
        "outbound|8080||egress-router2.default.svc.cluster.local"
    );
}

#[test]
fn test_decision_scenarios() {
    let standalone = Router::new(Config { is_istio: false });
    assert_eq!(
        standalone.decide_route_cluster("10.0.0.2:12345"),
        Some("egress-router1".to_string())
    );
    assert_eq!(
        standalone.decide_route_cluster("192.168.1.1:54321"),
        Some("egress-router2".to_string())
    );
    assert_eq!(
        standalone.decide_route_cluster("[::ffff:192.168.1.100]:8080"),
        Some("egress-router1".to_string())
    );
    assert_eq!(standalone.decide_route_cluster("invalid"), None);

    let istio = Router::new(Config { is_istio: true });
    assert_eq!(istio.decide_route_cluster("invalid"), None);
    assert_eq!(
        istio.decide_route_cluster_with_dest("10.0.0.2:12345", 443),
        Some("outbound|8080||egress-router1.default.svc.cluster.local".to_string())
    );
    assert_eq!(
        istio.decide_route_cluster_with_dest("10.0.0.3:12345", 80),
        Some("outbound|8081||egress-router2.default.svc.cluster.local".to_string())
    );
}

#[test]
fn test_cluster_names_differ() {
    for is_istio in [false, true] {
        let router = Router::new(Config { is_istio });
        let (first, second) = router.get_cluster_names();
        assert_ne!(first, second);
        assert!(!first.is_empty());
        assert!(!second.is_empty());
    }
}

#[test]
fn test_decisions_idempotent() {
    let istio = Router::new(Config { is_istio: true });
    let standalone = Router::new(Config { is_istio: false });
    for addr in ["10.0.0.2:12345", "192.168.1.1", "[::1]:443", "invalid", ""] {
        assert_eq!(
            istio.decide_route_cluster(addr),
            istio.decide_route_cluster(addr)
        );
        assert_eq!(
            standalone.decide_route_cluster(addr),
            standalone.decide_route_cluster(addr)
        );
        for port in [80u16, 443, 1234] {
            assert_eq!(
                istio.decide_route_cluster_with_dest(addr, port),
                istio.decide_route_cluster_with_dest(addr, port)
            );
            assert_eq!(
                standalone.decide_route_cluster_with_dest(addr, port),
                standalone.decide_route_cluster_with_dest(addr, port)
            );
        }
    }
    assert_eq!(istio.get_cluster_names(), istio.get_cluster_names());
    assert_eq!(
        Config::from_bytes(b"istio-mode"),
        Config::from_bytes(b"istio-mode")
    );
}
