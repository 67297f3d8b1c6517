use silverwind::app_config::{ApiService, Matcher, Route, ServiceConfig, ServiceType};
use silverwind::handler::Handler;
use silverwind::persist::emit::{emit_app_config, emit_i32, emit_string, emit_u64};
use silverwind::route::{AnomalyDetectionStatus, BaseRoute, LoadbalancerStrategy, PollBaseRoute,
    PollRoute, WeightRoute, WeightRouteNestedItem};

fn target(endpoint: &str, id: &str) -> BaseRoute {
    BaseRoute {
        endpoint: endpoint.to_string(),
        try_file: None,
        base_route_id: id.to_string(),
        is_alive: None,
        anomaly_detection_status: AnomalyDetectionStatus { consecutive_5xx: 0 },
    }
}

fn one_service_config() -> Handler {
    let mut h = Handler::new();
    let svc = ApiService {
        listen_port: 80,
        api_service_id: "s1".to_string(),
        service_config: ServiceConfig {
            server_type: ServiceType::Http,
            cert_str: None,
            key_str: None,
            routes: vec![Route {
                route_id: "r1".to_string(),
                host_name: None,
                matcher: Some(Matcher {
                    prefix: "/".to_string(),
                    prefix_rewrite: "/".to_string(),
                }),
                allow_deny_list: None,
                liveness_status: silverwind::app_config::LivenessStatus {
                    current_liveness_count: 0,
                },
                liveness_config: None,
                route_cluster: LoadbalancerStrategy::PollRoute(PollRoute {
                    current_index: 0,
                    routes: vec![PollBaseRoute { base_route: target("e", "b1") }],
                }),
            }],
        },
    };
    h.apply_api_service(svc).unwrap();
    h
}

#[test]
fn empty_config_document_is_canonical() {
    let h = Handler::new();
    assert_eq!(
        h.config_document(),
        "{\"static_config\":{\"access_log\":null,\"database_url\":null,\"admin_port\":\"\",\
         \"config_file_path\":null},\"api_service_config\":[]}"
    );
}

#[test]
fn one_service_document_is_canonical() {
    let h = one_service_config();
    let mut expected = String::new();
    expected.push_str("{\"static_config\":{\"access_log\":null,\"database_url\":null,");
    expected.push_str("\"admin_port\":\"\",\"config_file_path\":null},\"api_service_config\":[");
    expected.push_str("{\"listen_port\":80,\"api_service_id\":\"s1\",\"service_config\":");
    expected.push_str("{\"server_type\":\"Http\",\"cert_str\":null,\"key_str\":null,\"routes\":[");
    expected.push_str("{\"route_id\":\"r1\",\"host_name\":null,\"matcher\":");
    expected.push_str("{\"prefix\":\"/\",\"prefix_rewrite\":\"/\"},\"allow_deny_list\":null,");
    expected.push_str("\"liveness_status\":{\"current_liveness_count\":1},\"liveness_config\":null,");
    expected.push_str("\"route_cluster\":{\"type\":\"PollRoute\",\"routes\":[");
    expected.push_str("{\"endpoint\":\"e\",\"try_file\":null,\"base_route_id\":\"b1\"}]}}]}}]}");
    assert_eq!(h.config_document(), expected);
}

#[test]
fn the_document_is_json_and_yaml_readable() {
    let h = one_service_config();
    let doc = h.config_document();
    let json: Result<serde_json::Value, _> = serde_json::from_str(&doc);
    assert!(json.is_ok());
    let yaml: Result<serde_yaml::Value, _> = serde_yaml::from_str(&doc);
    assert!(yaml.is_ok());
}

#[test]
fn strings_are_escaped_in_the_document() {
    let s = "a\"b\\c".to_string();
    assert_eq!(emit_string(&s), "\"a\\\"b\\\\c\"");
    assert_eq!(emit_string(&"".to_string()), "\"\"");
    let json: serde_json::Value = serde_json::from_str(&emit_string(&s)).unwrap();
    assert_eq!(json, serde_json::Value::String("a\"b\\c".to_string()));
}

#[test]
fn numbers_have_their_decimal_spelling() {
    assert_eq!(emit_u64(0), "0");
    assert_eq!(emit_u64(42), "42");
    assert_eq!(emit_u64(u64::MAX), "18446744073709551615");
    assert_eq!(emit_i32(7), "7");
    assert_eq!(emit_i32(-1), "-1");
    assert_eq!(emit_i32(i32::MIN), "-2147483648");
    assert_eq!(emit_i32(i32::MAX), "2147483647");
}

#[test]
fn weight_strategy_documents_keep_the_schedule_cursors() {
    let mut config = silverwind::app_config::AppConfig {
        static_config: silverwind::app_config::StaticConifg {
            access_log: None,
            database_url: None,
            admin_port: "8870".to_string(),
            config_file_path: None,
        },
        api_service_config: Vec::new(),
    };
    config.api_service_config.push(ApiService {
        listen_port: 9000,
        api_service_id: "w".to_string(),
        service_config: ServiceConfig {
            server_type: ServiceType::Http,
            cert_str: None,
            key_str: None,
            routes: vec![Route {
                route_id: "wr".to_string(),
                host_name: None,
                matcher: None,
                allow_deny_list: None,
                liveness_status: silverwind::app_config::LivenessStatus {
                    current_liveness_count: 0,
                },
                liveness_config: None,
                route_cluster: LoadbalancerStrategy::WeightRoute(WeightRoute {
                    index: 1,
                    offset: 2,
                    routes: vec![WeightRouteNestedItem {
                        base_route: target("upstream:1", "wb"),
                        weight: 5,
                    }],
                }),
            }],
        },
    });
    let doc = emit_app_config(&config);
    assert!(doc.contains("{\"type\":\"WeightRoute\",\"index\":1,\"offset\":2,\"routes\":"));
    assert!(doc.contains("\"weight\":5"));
    assert!(doc.contains("\"admin_port\":\"8870\""));
    assert!(serde_json::from_str::<serde_json::Value>(&doc).is_ok());
}

#[test]
fn a_persisted_document_loads_back_as_the_same_routing_table() {
    let h = one_service_config();
    let doc = h.config_document();
    let loaded = silverwind::persist::parse::load_app_config(&doc).unwrap();
    assert_eq!(loaded, h.shared_app_config);
    // Loading the reloaded table's document gives the same table again.
    let doc2 = silverwind::persist::emit::emit_app_config(&loaded);
    assert_eq!(doc, doc2);
}

#[test]
fn loading_rejects_text_that_is_not_a_canonical_document() {
    assert!(silverwind::persist::parse::load_app_config(&"".to_string()).is_none());
    assert!(silverwind::persist::parse::load_app_config(&"{}".to_string()).is_none());
    let h = one_service_config();
    let mut doc = h.config_document();
    doc.push_str(" ");
    assert!(silverwind::persist::parse::load_app_config(&doc).is_none());
}
