use silverwind::app_config::{Matcher, Route};
use silverwind::headers::Headers;
use silverwind::route::{LoadbalancerStrategy, PollBaseRoute, PollRoute};
use silverwind::route::{AnomalyDetectionStatus, BaseRoute};

fn target(endpoint: &str) -> PollBaseRoute {
    PollBaseRoute {
        base_route: BaseRoute {
            endpoint: endpoint.to_string(),
            try_file: None,
            base_route_id: endpoint.to_string(),
            is_alive: None,
            anomaly_detection_status: AnomalyDetectionStatus { consecutive_5xx: 0 },
        },
    }
}

fn route(matcher: Option<Matcher>, host_name: Option<&str>) -> Route {
    Route {
        route_id: "r1".to_string(),
        host_name: host_name.map(|h| h.to_string()),
        matcher,
        allow_deny_list: None,
        liveness_status: silverwind::app_config::LivenessStatus { current_liveness_count: 0 },
        liveness_config: None,
        route_cluster: LoadbalancerStrategy::PollRoute(PollRoute {
            current_index: 0,
            routes: vec![target("a"), target("b")],
        }),
    }
}

fn matcher(prefix: &str, rewrite: &str) -> Option<Matcher> {
    Some(Matcher { prefix: prefix.to_string(), prefix_rewrite: rewrite.to_string() })
}

#[test]
fn from_normalizes_prefix_and_rewrite() {
    let r = Route::from(route(matcher("api", "svc"), None)).unwrap();
    let m = r.matcher.unwrap();
    assert_eq!(m.prefix, "/api/");
    assert_eq!(m.prefix_rewrite, "/svc");
}

#[test]
fn from_keeps_normalized_matcher_unchanged() {
    let once = Route::from(route(matcher("/api/", "/svc"), None)).unwrap();
    let m1 = once.matcher.clone().unwrap();
    let twice = Route::from(once).unwrap();
    let m2 = twice.matcher.unwrap();
    assert_eq!(m1.prefix, m2.prefix);
    assert_eq!(m1.prefix_rewrite, m2.prefix_rewrite);
}

#[test]
fn from_normalizes_empty_strings() {
    let r = Route::from(route(matcher("", ""), None)).unwrap();
    let m = r.matcher.unwrap();
    assert_eq!(m.prefix, "//");
    assert_eq!(m.prefix_rewrite, "/");
}

#[test]
fn from_counts_targets_for_liveness() {
    let r = Route::from(route(matcher("/api/", "/svc"), None)).unwrap();
    assert_eq!(r.liveness_status.current_liveness_count, 2);
}

#[test]
fn is_matched_rewrites_the_prefix() {
    let r = route(matcher("/api/", "/svc"), None);
    let got = r.is_matched("/api/users".to_string(), None).unwrap();
    assert_eq!(got, Some("/svcusers".to_string()));
}

#[test]
fn is_matched_returns_none_without_the_prefix() {
    let r = route(matcher("/api/", "/svc"), None);
    assert_eq!(r.is_matched("/other/users".to_string(), None).unwrap(), None);
    assert_eq!(r.is_matched("/ap".to_string(), None).unwrap(), None);
}

#[test]
fn is_matched_without_matcher_is_an_error() {
    let r = route(None, None);
    assert!(r.is_matched("/api/users".to_string(), None).is_err());
}

#[test]
fn is_matched_with_host_pattern_needs_matching_host_header() {
    let r = route(matcher("/api/", "/svc"), Some("example\\.com"));
    let mut hs = Headers::new();
    hs.insert("Host".to_string(), "example.com".to_string());
    assert_eq!(
        r.is_matched("/api/users".to_string(), Some(&hs)).unwrap(),
        Some("/svcusers".to_string())
    );
    let mut other = Headers::new();
    other.insert("Host".to_string(), "other.org".to_string());
    assert_eq!(r.is_matched("/api/users".to_string(), Some(&other)).unwrap(), None);
    // Header names compare case-insensitively, as HTTP requires.
    let mut lower = Headers::new();
    lower.insert("host".to_string(), "example.com".to_string());
    assert_eq!(
        r.is_matched("/api/users".to_string(), Some(&lower)).unwrap(),
        Some("/svcusers".to_string())
    );
}

#[test]
fn is_matched_with_host_pattern_and_no_headers_is_no_match() {
    let r = route(matcher("/api/", "/svc"), Some("example\\.com"));
    assert_eq!(r.is_matched("/api/users".to_string(), None).unwrap(), None);
    let empty = Headers::new();
    assert_eq!(r.is_matched("/api/users".to_string(), Some(&empty)).unwrap(), None);
}

#[test]
fn is_matched_with_invalid_host_pattern_is_an_error() {
    let r = route(matcher("/api/", "/svc"), Some("("));
    let mut hs = Headers::new();
    hs.insert("Host".to_string(), "example.com".to_string());
    assert!(r.is_matched("/api/users".to_string(), Some(&hs)).is_err());
}

#[test]
fn is_allowed_combines_policy_stages() {
    let mut r = route(matcher("/api/", "/svc"), None);
    // No policy at all: allowed.
    assert_eq!(r.is_allowed(&"1.2.3.4".to_string(), None, None).unwrap(), true);
    // A denying IP list wins over everything.
    r.allow_deny_list = Some(vec![silverwind::allow_deny_ip::AllowDenyObject {
        limit_type: silverwind::allow_deny_ip::AllowType::DenyAll,
        value: None,
    }]);
    assert_eq!(r.is_allowed(&"1.2.3.4".to_string(), Some(true), None).unwrap(), false);
    // With a permissive list, authentication and rate limiting decide.
    r.allow_deny_list = None;
    assert_eq!(r.is_allowed(&"1.2.3.4".to_string(), Some(false), None).unwrap(), false);
    assert_eq!(r.is_allowed(&"1.2.3.4".to_string(), Some(true), Some(true)).unwrap(), false);
    assert_eq!(r.is_allowed(&"1.2.3.4".to_string(), Some(true), Some(false)).unwrap(), true);
}
