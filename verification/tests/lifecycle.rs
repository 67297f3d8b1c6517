use futures::channel::oneshot;
use silverwind::app_config::{ApiService, Matcher, Route, ServiceConfig, ServiceType};
use silverwind::handler::Handler;
use silverwind::route::{AnomalyDetectionStatus, BaseRoute, LoadbalancerStrategy, PollBaseRoute,
    PollRoute};

fn target(endpoint: &str) -> PollBaseRoute {
    PollBaseRoute {
        base_route: BaseRoute {
            endpoint: endpoint.to_string(),
            try_file: None,
            base_route_id: endpoint.to_string(),
            is_alive: None,
            anomaly_detection_status: AnomalyDetectionStatus { consecutive_5xx: 0 },
        },
    }
}

fn sample_route(route_id: &str) -> Route {
    Route {
        route_id: route_id.to_string(),
        host_name: None,
        matcher: Some(Matcher { prefix: "api".to_string(), prefix_rewrite: "svc".to_string() }),
        allow_deny_list: None,
        liveness_status: silverwind::app_config::LivenessStatus { current_liveness_count: 0 },
        liveness_config: None,
        route_cluster: LoadbalancerStrategy::PollRoute(PollRoute {
            current_index: 0,
            routes: vec![target("a"), target("b")],
        }),
    }
}

fn sample_service(port: i32, id: &str) -> ApiService {
    ApiService {
        listen_port: port,
        api_service_id: id.to_string(),
        service_config: ServiceConfig {
            server_type: ServiceType::Http,
            cert_str: None,
            key_str: None,
            routes: vec![sample_route("r1")],
        },
    }
}

#[test]
fn new_handler_is_empty() {
    let mut h = Handler::new();
    assert_eq!(h.shared_app_config.api_service_config.len(), 0);
    assert_eq!(h.take_port_senders(8080).len(), 0);
}

#[test]
fn applying_a_service_registers_it_and_normalizes_routes() {
    let mut h = Handler::new();
    h.apply_api_service(sample_service(8080, "svc-1")).unwrap();
    assert_eq!(h.shared_app_config.api_service_config.len(), 1);
    let svc = h.shared_app_config.find_api_service(8080).unwrap();
    assert_eq!(svc.api_service_id, "svc-1");
    let m = svc.service_config.routes[0].matcher.as_ref().unwrap();
    assert_eq!(m.prefix, "/api/");
    assert_eq!(m.prefix_rewrite, "/svc");
    assert_eq!(svc.service_config.routes[0].liveness_status.current_liveness_count, 2);
    assert!(h.shared_app_config.find_api_service(9090).is_none());
}

#[test]
fn replacing_a_port_hands_back_the_old_pools_stop_senders() {
    let mut h = Handler::new();
    h.apply_api_service(sample_service(8080, "svc-1")).unwrap();
    // Two workers of the old pool register their stop channels.
    let (tx1, mut rx1) = oneshot::channel::<i32>();
    let (tx2, mut rx2) = oneshot::channel::<i32>();
    h.register_worker(8080, tx1);
    h.register_worker(8080, tx2);
    // A worker on another port is not touched by the replacement.
    let (tx3, mut rx3) = oneshot::channel::<i32>();
    h.register_worker(9090, tx3);
    let old = h.apply_api_service(sample_service(8080, "svc-2")).unwrap();
    assert_eq!(old.len(), 2);
    for sender in old {
        sender.send(1).unwrap();
    }
    assert_eq!(rx1.try_recv().unwrap(), Some(1));
    assert_eq!(rx2.try_recv().unwrap(), Some(1));
    assert_eq!(rx3.try_recv().unwrap(), None);
    // The new configuration replaced the old service on the port.
    assert_eq!(h.shared_app_config.api_service_config.len(), 1);
    let svc = h.shared_app_config.find_api_service(8080).unwrap();
    assert_eq!(svc.api_service_id, "svc-2");
    // The old pool's senders are gone from the registry.
    assert_eq!(h.take_port_senders(8080).len(), 0);
    assert_eq!(h.take_port_senders(9090).len(), 1);
}

#[test]
fn stop_port_workers_fires_every_stop_channel_of_the_port() {
    let mut h = Handler::new();
    let (tx1, mut rx1) = oneshot::channel::<i32>();
    let (tx2, mut rx2) = oneshot::channel::<i32>();
    h.register_worker(7070, tx1);
    h.register_worker(7070, tx2);
    assert_eq!(h.stop_port_workers(7070), 2);
    assert_eq!(rx1.try_recv().unwrap(), Some(1));
    assert_eq!(rx2.try_recv().unwrap(), Some(1));
    assert_eq!(h.stop_port_workers(7070), 0);
}

#[test]
fn tls_services_need_certificate_material() {
    let mut h = Handler::new();
    let mut svc = sample_service(8443, "tls-svc");
    svc.service_config.server_type = ServiceType::Https;
    let err = h.apply_api_service(svc).unwrap_err();
    assert_eq!(err.0, "the certificate and key are required for a tls service type!");
    assert_eq!(h.shared_app_config.api_service_config.len(), 0);
    // With material present the same service is accepted.
    let mut ok = sample_service(8443, "tls-svc");
    ok.service_config.server_type = ServiceType::Https;
    ok.service_config.cert_str = Some("cert".to_string());
    ok.service_config.key_str = Some("key".to_string());
    assert!(h.apply_api_service(ok).is_ok());
    assert_eq!(h.shared_app_config.api_service_config.len(), 1);
}

#[test]
fn delete_route_removes_it_from_every_service() {
    let mut h = Handler::new();
    let mut svc = sample_service(8080, "svc-1");
    svc.service_config.routes.push(sample_route("r2"));
    h.apply_api_service(svc).unwrap();
    h.apply_api_service(sample_service(9090, "svc-2")).unwrap();
    h.delete_route(&"r1".to_string());
    let s1 = h.shared_app_config.find_api_service(8080).unwrap();
    assert_eq!(s1.service_config.routes.len(), 1);
    assert_eq!(s1.service_config.routes[0].route_id, "r2");
    let s2 = h.shared_app_config.find_api_service(9090).unwrap();
    assert_eq!(s2.service_config.routes.len(), 0);
}

#[test]
fn update_route_replaces_the_route_in_place() {
    let mut h = Handler::new();
    h.apply_api_service(sample_service(8080, "svc-1")).unwrap();
    let mut replacement = sample_route("r1");
    replacement.host_name = Some("example\\.com".to_string());
    h.update_route(8080, replacement).unwrap();
    let svc = h.shared_app_config.find_api_service(8080).unwrap();
    assert_eq!(svc.service_config.routes.len(), 1);
    assert_eq!(svc.service_config.routes[0].host_name, Some("example\\.com".to_string()));
    // An unknown port or route id fails and changes nothing.
    assert!(h.update_route(9090, sample_route("r1")).is_err());
    assert!(h.update_route(8080, sample_route("missing")).is_err());
}
