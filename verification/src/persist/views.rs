//! Ghost views of the configuration: the same shape with mathematical
//! strings and sequences in place of `String` and `Vec`. Two
//! configurations with equal views are the same routing table.

use vstd::prelude::*;

use crate::allow_deny_ip::{AllowDenyObject, AllowType};
use crate::app_config::{ApiService, AppConfig, Matcher, Route, ServiceConfig, ServiceType,
    StaticConifg};
use crate::route::{BaseRoute, HeaderRouteNestedItem, HeaderValueMappingType, LoadbalancerStrategy,
    PollBaseRoute, RandomBaseRoute, WeightRouteNestedItem};

verus! {

/// One upstream target, as configured data: the runtime health state is
/// not part of the view, so equal views mean the same configured target.
pub struct BaseRouteView {
    pub endpoint: Seq<char>,
    pub try_file: Option<Seq<char>>,
    pub base_route_id: Seq<char>,
}

/// One weighted target, as data.
pub struct WeightItemView {
    pub base_route: BaseRouteView,
    pub weight: u64,
}

/// One header rule, as data.
pub enum HvView {
    Regex(Seq<char>),
    Text(Seq<char>),
    Split(Seq<char>, Seq<Seq<char>>),
}

/// One header-routed target, as data.
pub struct HeaderItemView {
    pub base_route: BaseRouteView,
    pub header_key: Seq<char>,
    pub rule: HvView,
}

/// A strategy, as configured data: the round-robin cursor is runtime
/// state and not part of the view; the weighted cursors belong to the
/// configured schedule and stay.
pub enum StrategyView {
    Poll(Seq<BaseRouteView>),
    Header(Seq<HeaderItemView>),
    Random(Seq<BaseRouteView>),
    Weight(u64, u64, Seq<WeightItemView>),
}

/// One allow/deny rule, as data.
pub struct AllowDenyView {
    pub limit_type: AllowType,
    pub value: Option<Seq<char>>,
}

/// A matcher, as data.
pub struct MatcherView {
    pub prefix: Seq<char>,
    pub prefix_rewrite: Seq<char>,
}

/// One route, as data.
pub struct RouteView {
    pub route_id: Seq<char>,
    pub host_name: Option<Seq<char>>,
    pub matcher: Option<MatcherView>,
    pub allow_deny_list: Option<Seq<AllowDenyView>>,
    pub liveness_status: i32,
    pub liveness_config: Option<i32>,
    pub route_cluster: StrategyView,
}

/// One service's configuration, as data.
pub struct ServiceConfigView {
    pub server_type: ServiceType,
    pub cert_str: Option<Seq<char>>,
    pub key_str: Option<Seq<char>>,
    pub routes: Seq<RouteView>,
}

/// One service, as data.
pub struct ApiServiceView {
    pub listen_port: i32,
    pub api_service_id: Seq<char>,
    pub service_config: ServiceConfigView,
}

/// The static settings, as data.
pub struct StaticConfigView {
    pub access_log: Option<Seq<char>>,
    pub database_url: Option<Seq<char>>,
    pub admin_port: Seq<char>,
    pub config_file_path: Option<Seq<char>>,
}

/// The whole configuration, as data.
pub struct AppConfigView {
    pub static_config: StaticConfigView,
    pub api_service_config: Seq<ApiServiceView>,
}

/// An optional string, as data.
pub open spec fn opt_str_view(o: Option<String>) -> Option<Seq<char>> {
    match o {
        None => None,
        Some(s) => Some(s@),
    }
}

/// One target, as data.
pub open spec fn base_route_view(b: BaseRoute) -> BaseRouteView {
    BaseRouteView {
        endpoint: b.endpoint@,
        try_file: opt_str_view(b.try_file),
        base_route_id: b.base_route_id@,
    }
}

/// One weighted target, as data.
pub open spec fn weight_item_view(t: WeightRouteNestedItem) -> WeightItemView {
    WeightItemView { base_route: base_route_view(t.base_route), weight: t.weight }
}

/// One header rule, as data.
pub open spec fn hv_view(h: HeaderValueMappingType) -> HvView {
    match h {
        HeaderValueMappingType::Regex(rm) => HvView::Regex(rm.value@),
        HeaderValueMappingType::Text(tm) => HvView::Text(tm.value@),
        HeaderValueMappingType::Split(seg) => HvView::Split(
            seg.split_by@,
            seg.split_list@.map_values(|x: String| x@),
        ),
    }
}

/// One header-routed target, as data.
pub open spec fn header_item_view(t: HeaderRouteNestedItem) -> HeaderItemView {
    HeaderItemView {
        base_route: base_route_view(t.base_route),
        header_key: t.header_key@,
        rule: hv_view(t.header_value_mapping_type),
    }
}

/// One allow/deny rule, as data.
pub open spec fn allow_deny_view(o: AllowDenyObject) -> AllowDenyView {
    AllowDenyView { limit_type: o.limit_type, value: opt_str_view(o.value) }
}

/// A strategy, as data.
pub open spec fn strategy_view(s: LoadbalancerStrategy) -> StrategyView {
    match s {
        LoadbalancerStrategy::PollRoute(p) => StrategyView::Poll(
            p.routes@.map_values(|t: PollBaseRoute| base_route_view(t.base_route)),
        ),
        LoadbalancerStrategy::HeaderRoute(h) => StrategyView::Header(
            h.routes@.map_values(|t: HeaderRouteNestedItem| header_item_view(t)),
        ),
        LoadbalancerStrategy::RandomRoute(r) => StrategyView::Random(
            r.routes@.map_values(|t: RandomBaseRoute| base_route_view(t.base_route)),
        ),
        LoadbalancerStrategy::WeightRoute(w) => StrategyView::Weight(
            w.index,
            w.offset,
            w.routes@.map_values(|t: WeightRouteNestedItem| weight_item_view(t)),
        ),
    }
}

/// One route, as data.
pub open spec fn route_view(r: Route) -> RouteView {
    RouteView {
        route_id: r.route_id@,
        host_name: opt_str_view(r.host_name),
        matcher: match r.matcher {
            None => None,
            Some(m) => Some(MatcherView { prefix: m.prefix@, prefix_rewrite: m.prefix_rewrite@ }),
        },
        allow_deny_list: match r.allow_deny_list {
            None => None,
            Some(l) => Some(l@.map_values(|o: AllowDenyObject| allow_deny_view(o))),
        },
        liveness_status: r.liveness_status.current_liveness_count,
        liveness_config: match r.liveness_config {
            None => None,
            Some(c) => Some(c.min_liveness_count),
        },
        route_cluster: strategy_view(r.route_cluster),
    }
}

/// One service's configuration, as data.
pub open spec fn service_config_view(c: ServiceConfig) -> ServiceConfigView {
    ServiceConfigView {
        server_type: c.server_type,
        cert_str: opt_str_view(c.cert_str),
        key_str: opt_str_view(c.key_str),
        routes: c.routes@.map_values(|r: Route| route_view(r)),
    }
}

/// One service, as data.
pub open spec fn api_service_view(s: ApiService) -> ApiServiceView {
    ApiServiceView {
        listen_port: s.listen_port,
        api_service_id: s.api_service_id@,
        service_config: service_config_view(s.service_config),
    }
}

/// The static settings, as data.
pub open spec fn static_config_view(c: StaticConifg) -> StaticConfigView {
    StaticConfigView {
        access_log: opt_str_view(c.access_log),
        database_url: opt_str_view(c.database_url),
        admin_port: c.admin_port@,
        config_file_path: opt_str_view(c.config_file_path),
    }
}

/// The whole configuration, as data.
pub open spec fn app_config_view(c: AppConfig) -> AppConfigView {
    AppConfigView {
        static_config: static_config_view(c.static_config),
        api_service_config: c.api_service_config@.map_values(|s: ApiService| api_service_view(s)),
    }
}

} // verus!
