use silverwind::headers::Headers;
use silverwind::route::{AnomalyDetectionStatus, BaseRoute, HeaderRoute, HeaderRouteNestedItem,
    HeaderValueMappingType, LoadbalancerStrategy, PollBaseRoute, PollRoute, RandomBaseRoute,
    RandomRoute, RegexMatch, SplitSegment, TextMatch, WeightRoute, WeightRouteNestedItem};

fn base(endpoint: &str, alive: Option<bool>) -> BaseRoute {
    BaseRoute {
        endpoint: endpoint.to_string(),
        try_file: None,
        base_route_id: endpoint.to_string(),
        is_alive: alive,
        anomaly_detection_status: AnomalyDetectionStatus { consecutive_5xx: 0 },
    }
}

fn no_headers() -> Headers {
    Headers::new()
}

#[test]
fn poll_visits_each_alive_target_once_per_cycle() {
    let mut poll = PollRoute {
        current_index: 0,
        routes: vec![
            PollBaseRoute { base_route: base("a", None) },
            PollBaseRoute { base_route: base("b", Some(true)) },
            PollBaseRoute { base_route: base("c", None) },
        ],
    };
    let hs = no_headers();
    let mut seen = Vec::new();
    for _ in 0..3 {
        seen.push(poll.get_route(&hs).unwrap().endpoint);
    }
    let mut sorted = seen.clone();
    sorted.sort();
    assert_eq!(sorted, vec!["a".to_string(), "b".to_string(), "c".to_string()]);
    // The next cycle repeats the same order.
    let mut again = Vec::new();
    for _ in 0..3 {
        again.push(poll.get_route(&hs).unwrap().endpoint);
    }
    assert_eq!(seen, again);
}

#[test]
fn poll_excludes_dead_targets_on_every_call() {
    let mut poll = PollRoute {
        current_index: 0,
        routes: vec![
            PollBaseRoute { base_route: base("a", None) },
            PollBaseRoute { base_route: base("b", None) },
            PollBaseRoute { base_route: base("c", None) },
        ],
    };
    let hs = no_headers();
    assert_eq!(poll.get_route(&hs).unwrap().endpoint, "b");
    // Killing a target mid-cycle shrinks the cycle on the next call.
    poll.routes[1].base_route.is_alive = Some(false);
    let first = poll.get_route(&hs).unwrap().endpoint;
    let second = poll.get_route(&hs).unwrap().endpoint;
    assert!(first != second);
    assert!(first == "a" || first == "c");
    assert!(second == "a" || second == "c");
}

#[test]
fn poll_fails_with_no_alive_target() {
    let mut poll = PollRoute {
        current_index: 0,
        routes: vec![PollBaseRoute { base_route: base("a", Some(false)) }],
    };
    let hs = no_headers();
    let err = poll.get_route(&hs).unwrap_err();
    assert_eq!(err.0, "Can not find alive host in the clusters");
}

#[test]
fn weight_route_serves_two_to_one() {
    let mut weight = WeightRoute {
        index: 0,
        offset: 0,
        routes: vec![
            WeightRouteNestedItem { base_route: base("a", None), weight: 2 },
            WeightRouteNestedItem { base_route: base("b", None), weight: 1 },
        ],
    };
    let hs = no_headers();
    let mut seen = Vec::new();
    for _ in 0..6 {
        seen.push(weight.get_route(&hs).unwrap().endpoint);
    }
    assert_eq!(
        seen,
        vec![
            "a".to_string(),
            "a".to_string(),
            "b".to_string(),
            "a".to_string(),
            "a".to_string(),
            "b".to_string()
        ]
    );
}

#[test]
fn weight_route_skips_dead_target() {
    let mut weight = WeightRoute {
        index: 0,
        offset: 0,
        routes: vec![
            WeightRouteNestedItem { base_route: base("a", None), weight: 2 },
            WeightRouteNestedItem { base_route: base("b", None), weight: 1 },
        ],
    };
    let hs = no_headers();
    weight.routes[0].base_route.is_alive = Some(false);
    for _ in 0..5 {
        assert_eq!(weight.get_route(&hs).unwrap().endpoint, "b");
    }
}

#[test]
fn weight_route_fails_when_nothing_is_selectable() {
    let hs = no_headers();
    let mut dead = WeightRoute {
        index: 0,
        offset: 0,
        routes: vec![
            WeightRouteNestedItem { base_route: base("a", Some(false)), weight: 2 },
            WeightRouteNestedItem { base_route: base("b", Some(false)), weight: 1 },
        ],
    };
    assert!(dead.get_route(&hs).is_err());
    let mut zero = WeightRoute {
        index: 0,
        offset: 0,
        routes: vec![WeightRouteNestedItem { base_route: base("a", None), weight: 0 }],
    };
    assert!(zero.get_route(&hs).is_err());
    let mut empty = WeightRoute { index: 0, offset: 0, routes: vec![] };
    assert!(empty.get_route(&hs).is_err());
}

#[test]
fn random_route_picks_an_alive_target() {
    let mut random = RandomRoute {
        routes: vec![
            RandomBaseRoute { base_route: base("a", Some(false)) },
            RandomBaseRoute { base_route: base("b", None) },
        ],
    };
    let hs = no_headers();
    for _ in 0..10 {
        assert_eq!(random.get_route(&hs).unwrap().endpoint, "b");
    }
}

#[test]
fn random_route_fails_with_no_alive_target() {
    let mut random = RandomRoute {
        routes: vec![RandomBaseRoute { base_route: base("a", Some(false)) }],
    };
    let hs = no_headers();
    assert!(random.get_route(&hs).is_err());
}

fn header_item(endpoint: &str, key: &str, rule: HeaderValueMappingType) -> HeaderRouteNestedItem {
    HeaderRouteNestedItem {
        base_route: base(endpoint, None),
        header_key: key.to_string(),
        header_value_mapping_type: rule,
    }
}

#[test]
fn header_text_rule_selects_matching_target_or_falls_back() {
    let mut header = HeaderRoute {
        routes: vec![
            header_item("a", "X-Env", HeaderValueMappingType::Text(TextMatch {
                value: "prod".to_string(),
            })),
            header_item("b", "X-Env", HeaderValueMappingType::Text(TextMatch {
                value: "never".to_string(),
            })),
        ],
    };
    let mut prod = Headers::new();
    prod.insert("X-Env".to_string(), "prod".to_string());
    assert_eq!(header.get_route(&prod).unwrap().endpoint, "a");
    let mut staging = Headers::new();
    staging.insert("X-Env".to_string(), "staging".to_string());
    // No rule matches: the first alive target serves.
    assert_eq!(header.get_route(&staging).unwrap().endpoint, "a");
    // An absent header also falls back to the first alive target.
    let none = no_headers();
    assert_eq!(header.get_route(&none).unwrap().endpoint, "a");
}

#[test]
fn header_rules_skip_dead_targets() {
    let mut header = HeaderRoute {
        routes: vec![
            header_item("a", "X-Env", HeaderValueMappingType::Text(TextMatch {
                value: "prod".to_string(),
            })),
            header_item("b", "X-Env", HeaderValueMappingType::Text(TextMatch {
                value: "prod".to_string(),
            })),
        ],
    };
    header.routes[0].base_route.is_alive = Some(false);
    let mut prod = Headers::new();
    prod.insert("X-Env".to_string(), "prod".to_string());
    assert_eq!(header.get_route(&prod).unwrap().endpoint, "b");
}

#[test]
fn header_regex_rule_matches_patterns() {
    let mut header = HeaderRoute {
        routes: vec![
            header_item("a", "X-Ver", HeaderValueMappingType::Regex(RegexMatch {
                value: "v[12]".to_string(),
            })),
            header_item("b", "X-Ver", HeaderValueMappingType::Regex(RegexMatch {
                value: "v3".to_string(),
            })),
        ],
    };
    let mut v3 = Headers::new();
    v3.insert("X-Ver".to_string(), "v3".to_string());
    assert_eq!(header.get_route(&v3).unwrap().endpoint, "b");
    let mut v1 = Headers::new();
    v1.insert("X-Ver".to_string(), "v1".to_string());
    assert_eq!(header.get_route(&v1).unwrap().endpoint, "a");
}

#[test]
fn header_invalid_regex_is_an_error() {
    let mut header = HeaderRoute {
        routes: vec![header_item("a", "X-Ver", HeaderValueMappingType::Regex(RegexMatch {
            value: "(".to_string(),
        }))],
    };
    let mut hs = Headers::new();
    hs.insert("X-Ver".to_string(), "v1".to_string());
    assert!(header.get_route(&hs).is_err());
}

#[test]
fn header_split_rule_requires_every_token() {
    let mut header = HeaderRoute {
        routes: vec![
            header_item("a", "X-Caps", HeaderValueMappingType::Split(SplitSegment {
                split_by: ",".to_string(),
                split_list: vec!["read".to_string(), "write".to_string()],
            })),
            header_item("b", "X-Caps", HeaderValueMappingType::Split(SplitSegment {
                split_by: ",".to_string(),
                split_list: vec!["read".to_string()],
            })),
        ],
    };
    let mut both = Headers::new();
    both.insert("X-Caps".to_string(), "write,read,admin".to_string());
    assert_eq!(header.get_route(&both).unwrap().endpoint, "a");
    let mut read_only = Headers::new();
    read_only.insert("X-Caps".to_string(), "read,admin".to_string());
    assert_eq!(header.get_route(&read_only).unwrap().endpoint, "b");
}

#[test]
fn header_route_fails_with_no_alive_target() {
    let mut header = HeaderRoute {
        routes: vec![header_item("a", "X-Env", HeaderValueMappingType::Text(TextMatch {
            value: "prod".to_string(),
        }))],
    };
    header.routes[0].base_route.is_alive = Some(false);
    let hs = no_headers();
    assert!(header.get_route(&hs).is_err());
}

#[test]
fn strategy_dispatch_reaches_each_variant() {
    let hs = no_headers();
    let mut poll = LoadbalancerStrategy::PollRoute(PollRoute {
        current_index: 0,
        routes: vec![PollBaseRoute { base_route: base("a", None) }],
    });
    assert_eq!(poll.get_route(&hs).unwrap().endpoint, "a");
    assert_eq!(poll.get_routes_len(), 1);
    let mut random = LoadbalancerStrategy::RandomRoute(RandomRoute {
        routes: vec![RandomBaseRoute { base_route: base("b", None) }],
    });
    assert_eq!(random.get_route(&hs).unwrap().endpoint, "b");
    let all = random.get_all_route().unwrap();
    assert_eq!(all.len(), 1);
    assert_eq!(all[0].endpoint, "b");
}

#[test]
fn get_all_route_reports_dead_targets_too() {
    let mut weight = WeightRoute {
        index: 0,
        offset: 0,
        routes: vec![
            WeightRouteNestedItem { base_route: base("a", Some(false)), weight: 1 },
            WeightRouteNestedItem { base_route: base("b", None), weight: 1 },
        ],
    };
    let all = weight.get_all_route().unwrap();
    assert_eq!(all.len(), 2);
    assert_eq!(all[0].endpoint, "a");
    assert_eq!(all[0].is_alive, Some(false));
    assert_eq!(all[1].endpoint, "b");
}
