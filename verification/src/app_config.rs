//! The routing table: routes with their matchers and policies, services,
//! and the root configuration aggregate keyed by listen port.

use vstd::prelude::*;

use crate::allow_deny_ip::{spec_is_allow, AllowDenyObject, AllowResult};
use crate::app_error::AppError;
use crate::headers::{spec_header_lookup, Headers};
use crate::outside::{regex_match, regex_matches, regex_pattern_ok};
use crate::route::{strategy_targets, LoadbalancerStrategy};
use crate::text::{str_starts_with, str_equal};

verus! {

/// A route's path rule: requests whose path starts with the normalized
/// `prefix` are forwarded with that prefix replaced by `prefix_rewrite`.
#[derive(Debug, PartialEq, Default)]
pub struct Matcher {
    pub prefix: String,
    pub prefix_rewrite: String,
}

impl Clone for Matcher {
    fn clone(&self) -> (res: Matcher)
        ensures
            res == *self,
    {
        Matcher { prefix: self.prefix.clone(), prefix_rewrite: self.prefix_rewrite.clone() }
    }
}

/// How many upstream targets of a route must stay alive.
#[derive(Debug, Clone, Copy, PartialEq, Eq, Structural, Default)]
pub struct LivenessConfig {
    pub min_liveness_count: i32,
}

/// The current alive count of a route, kept for health reporting; the
/// authoritative signal is each target's own `is_alive`.
#[derive(Debug, Clone, Copy, PartialEq, Eq, Structural, Default)]
pub struct LivenessStatus {
    pub current_liveness_count: i32,
}

/// One routing rule: its matcher and policies, and the load-balancing
/// strategy that owns the upstream targets. The authentication and
/// rate-limit capabilities of a route run outside this core; `is_allowed`
/// takes their verdicts as arguments.
#[derive(Debug, PartialEq)]
pub struct Route {
    pub route_id: String,
    pub host_name: Option<String>,
    pub matcher: Option<Matcher>,
    pub allow_deny_list: Option<Vec<AllowDenyObject>>,
    pub liveness_status: LivenessStatus,
    pub liveness_config: Option<LivenessConfig>,
    pub route_cluster: LoadbalancerStrategy,
}

/// A prefix normalized as the matcher stores it: ending with `/`, and
/// starting with `/`; both tests read the prefix as it was given.
pub open spec fn normalize_prefix(p: Seq<char>) -> Seq<char> {
    let with_end = if p.len() > 0 && p.last() == '/' {
        p
    } else {
        p.push('/')
    };
    if p.len() > 0 && p.first() == '/' {
        with_end
    } else {
        seq!['/'] + with_end
    }
}

/// A prefix rewrite normalized as the matcher stores it: starting with `/`.
pub open spec fn normalize_rewrite(p: Seq<char>) -> Seq<char> {
    if p.len() > 0 && p.first() == '/' {
        p
    } else {
        seq!['/'] + p
    }
}

/// Normalizing an already-normalized prefix changes nothing.
pub proof fn lemma_normalize_prefix_idempotent(p: Seq<char>)
    ensures
        normalize_prefix(normalize_prefix(p)) == normalize_prefix(p),
{
    let q = normalize_prefix(p);
    assert(q.len() > 0);
    assert(q.last() == '/');
    assert(q.first() == '/');
}

/// Normalizing an already-normalized prefix rewrite changes nothing.
pub proof fn lemma_normalize_rewrite_idempotent(p: Seq<char>)
    ensures
        normalize_rewrite(normalize_rewrite(p)) == normalize_rewrite(p),
{
    let q = normalize_rewrite(p);
    assert(q.len() > 0);
    assert(q.first() == '/');
}

/// Append `/` to `p` unless it already ends with one; then prepend `/`
/// unless it already started with one.
fn normalize_prefix_string(p: String) -> (r: String)
    ensures
        r@ == normalize_prefix(p@),
{
    let ghost p0 = p@;
    let slash = String::from_str("/");
    proof {
        reveal_strlit("/");
        assert(slash@ =~= seq!['/']);
    }
    let n = p.unicode_len();
    let ends = n > 0 && p.as_str().get_char(n - 1) == '/';
    let starts = n > 0 && p.as_str().get_char(0) == '/';
    let with_end = if ends {
        p
    } else {
        p.concat(slash.as_str())
    };
    proof {
        assert(with_end@ =~= (if p0.len() > 0 && p0.last() == '/' {
            p0
        } else {
            p0.push('/')
        }));
    }
    let r = if starts {
        with_end
    } else {
        slash.concat(with_end.as_str())
    };
    proof {
        assert(r@ =~= normalize_prefix(p0));
    }
    r
}

/// Prepend `/` to `p` unless it already starts with one.
fn normalize_rewrite_string(p: String) -> (r: String)
    ensures
        r@ == normalize_rewrite(p@),
{
    let ghost p0 = p@;
    let slash = String::from_str("/");
    proof {
        reveal_strlit("/");
        assert(slash@ =~= seq!['/']);
    }
    let n = p.unicode_len();
    let starts = n > 0 && p.as_str().get_char(0) == '/';
    let r = if starts {
        p
    } else {
        slash.concat(p.as_str())
    };
    proof {
        assert(r@ =~= normalize_rewrite(p0));
    }
    r
}

/// What matching one route against one request yields.
pub enum MatchOutcome {
    /// The route is unusable: it has no matcher, or its host pattern does
    /// not compile.
    Error,
    /// The route does not apply to this request.
    NoMatch,
    /// The route applies; the request continues with the rewritten path.
    Rewritten(Seq<char>),
}

/// The matcher's decision: the path must start with the route's prefix,
/// and, when a host pattern is set, the request must carry a `Host` header
/// that the pattern matches.
pub open spec fn spec_is_matched(
    route: Route,
    path: Seq<char>,
    entries: Option<Seq<crate::headers::HeaderEntry>>,
) -> MatchOutcome {
    match route.matcher {
        None => MatchOutcome::Error,
        Some(m) => if !m.prefix@.is_prefix_of(path) {
            MatchOutcome::NoMatch
        } else {
            let rewritten = m.prefix_rewrite@ + path.skip(m.prefix@.len() as int);
            match route.host_name {
                None => MatchOutcome::Rewritten(rewritten),
                Some(h) => match entries {
                    None => MatchOutcome::NoMatch,
                    Some(hs) => match spec_header_lookup(hs, "Host"@) {
                        None => MatchOutcome::NoMatch,
                        Some(hostv) => if !regex_pattern_ok(h@) {
                            MatchOutcome::Error
                        } else if regex_matches(h@, hostv) {
                            MatchOutcome::Rewritten(rewritten)
                        } else {
                            MatchOutcome::NoMatch
                        },
                    },
                },
            }
        },
    }
}

/// For a route with a matcher and no host rule, matching yields no result
/// exactly when the path does not start with the route's prefix; when it
/// does start with it, the result is the prefix rewrite followed by the
/// path with the prefix stripped.
pub proof fn lemma_match_prefix_law(
    route: Route,
    path: Seq<char>,
    entries: Option<Seq<crate::headers::HeaderEntry>>,
)
    requires
        route.matcher is Some,
        route.host_name is None,
    ensures
        (spec_is_matched(route, path, entries) is NoMatch) <==> !route.matcher->Some_0.prefix@.is_prefix_of(path),
        route.matcher->Some_0.prefix@.is_prefix_of(path) ==> spec_is_matched(route, path, entries)
            == MatchOutcome::Rewritten(
            route.matcher->Some_0.prefix_rewrite@ + path.skip(
                route.matcher->Some_0.prefix@.len() as int,
            ),
        ),
{
}

/// The outcome of an ordered allow/deny rule list for a client address:
/// the first definitive rule wins, and a list that never decides allows.
/// `None` is a configuration error in some rule reached by the scan.
pub open spec fn spec_ip_allowed(list: Seq<AllowDenyObject>, ip: Seq<char>) -> Option<bool>
    decreases list.len(),
{
    if list.len() == 0 {
        Some(true)
    } else {
        match spec_is_allow(list[0], ip) {
            None => None,
            Some(AllowResult::Allow) => Some(true),
            Some(AllowResult::Deny) => Some(false),
            Some(AllowResult::Notmapping) => spec_ip_allowed(list.skip(1), ip),
        }
    }
}

/// As `spec_ip_allowed`, with an absent list allowing everything.
pub open spec fn spec_list_allowed(list: Option<Vec<AllowDenyObject>>, ip: Seq<char>) -> Option<
    bool,
> {
    match list {
        None => Some(true),
        Some(l) => spec_ip_allowed(l@, ip),
    }
}

/// Scan an allow/deny list for a client address, by reference.
fn ip_allowed_scan(list: &Vec<AllowDenyObject>, ip: &String) -> (r: Result<bool, AppError>)
    ensures
        match r {
            Ok(b) => spec_ip_allowed(list@, ip@) == Some(b),
            Err(_) => spec_ip_allowed(list@, ip@) is None,
        },
{
    let n = list.len();
    let mut i: usize = 0;
    proof {
        assert(list@.skip(0) =~= list@);
    }
    while i < n
        invariant
            i <= n,
            n == list@.len(),
            spec_ip_allowed(list@, ip@) == spec_ip_allowed(list@.skip(i as int), ip@),
        decreases n - i,
    {
        proof {
            assert(list@.skip(i as int)[0] == list@[i as int]);
            assert(list@.skip(i as int).skip(1) =~= list@.skip(i + 1));
        }
        match list[i].is_allow(ip.clone()) {
            Ok(AllowResult::Allow) => {
                return Ok(true);
            },
            Ok(AllowResult::Deny) => {
                return Ok(false);
            },
            Ok(AllowResult::Notmapping) => {},
            Err(e) => {
                return Err(e);
            },
        }
        i = i + 1;
    }
    Ok(true)
}

/// Whether a client address passes an optional allow/deny list: the first
/// definitive rule wins; an absent or empty list, or a list that never
/// decides, allows.
pub fn ip_is_allowed(allow_deny_list: Option<Vec<AllowDenyObject>>, ip: String) -> (r: Result<
    bool,
    AppError,
>)
    ensures
        match r {
            Ok(b) => spec_list_allowed(allow_deny_list, ip@) == Some(b),
            Err(_) => spec_list_allowed(allow_deny_list, ip@) is None,
        },
{
    match &allow_deny_list {
        None => Ok(true),
        Some(list) => ip_allowed_scan(list, &ip),
    }
}

/// How a route readied for serving relates to the route as configured:
/// everything kept, the matcher normalized, and the liveness count set to
/// the number of targets.
pub open spec fn spec_route_ready(orig: Route, rt: Route) -> bool {
    &&& rt.route_id == orig.route_id
    &&& rt.host_name == orig.host_name
    &&& rt.allow_deny_list == orig.allow_deny_list
    &&& rt.liveness_config == orig.liveness_config
    &&& rt.route_cluster == orig.route_cluster
    &&& rt.liveness_status.current_liveness_count == strategy_targets(
        orig.route_cluster,
    ).len() as i32
    &&& (orig.matcher is None <==> rt.matcher is None)
    &&& (orig.matcher is Some ==> rt.matcher->Some_0.prefix@ == normalize_prefix(
        orig.matcher->Some_0.prefix@,
    ) && rt.matcher->Some_0.prefix_rewrite@ == normalize_rewrite(
        orig.matcher->Some_0.prefix_rewrite@,
    ))
}

/// How a service configuration readied for serving relates to the one as
/// configured: the same listener settings, each route readied in place.
pub open spec fn spec_service_config_ready(orig: ServiceConfig, sc: ServiceConfig) -> bool {
    &&& sc.server_type == orig.server_type
    &&& sc.cert_str == orig.cert_str
    &&& sc.key_str == orig.key_str
    &&& sc.routes@.len() == orig.routes@.len()
    &&& (forall|i: int|
        0 <= i < orig.routes@.len() ==> spec_route_ready(
            orig.routes@[i],
            #[trigger] sc.routes@[i],
        ))
}

impl Route {
    /// Take a route as configured and make it ready for serving: normalize
    /// its matcher and set the liveness count to the number of targets.
    pub fn from(route: Route) -> (r: Result<Route, AppError>)
        ensures
            r is Ok,
            spec_route_ready(route, r->Ok_0),
    {
        let Route {
            route_id,
            host_name,
            matcher,
            allow_deny_list,
            liveness_status: _,
            liveness_config,
            route_cluster,
        } = route;
        let new_matcher = match matcher {
            None => None,
            Some(m) => {
                let Matcher { prefix, prefix_rewrite } = m;
                Some(
                    Matcher {
                        prefix: normalize_prefix_string(prefix),
                        prefix_rewrite: normalize_rewrite_string(prefix_rewrite),
                    },
                )
            },
        };
        let count = route_cluster.get_routes_len();
        Ok(
            Route {
                route_id,
                host_name,
                matcher: new_matcher,
                allow_deny_list,
                liveness_status: LivenessStatus { current_liveness_count: count as i32 },
                liveness_config,
                route_cluster,
            },
        )
    }

    /// Match a request's path (and, if configured, its `Host` header)
    /// against this route. `Ok(Some(p))` carries the rewritten path,
    /// `Ok(None)` means the route does not apply, and `Err` reports a
    /// route without a matcher or with a host pattern that does not
    /// compile.
    pub fn is_matched(&self, path: String, headers_option: Option<&Headers>) -> (r: Result<
        Option<String>,
        AppError,
    >)
        ensures
            match spec_is_matched(
                *self,
                path@,
                match headers_option {
                    Some(h) => Some(h.entries@),
                    None => None,
                },
            ) {
                MatchOutcome::Error => r is Err,
                MatchOutcome::NoMatch => r is Ok && r->Ok_0 is None,
                MatchOutcome::Rewritten(s) => r is Ok && r->Ok_0 is Some && r->Ok_0->Some_0@ == s,
            },
    {
        let matcher = match &self.matcher {
            Some(m) => m,
            None => {
                return Err(AppError(String::from_str("The matcher counld not be none for http")));
            },
        };
        if !str_starts_with(path.as_str(), matcher.prefix.as_str()) {
            return Ok(None);
        }
        let plen = matcher.prefix.unicode_len();
        let n = path.unicode_len();
        let remainder = path.as_str().substring_char(plen, n);
        let final_path = matcher.prefix_rewrite.clone().concat(remainder);
        proof {
            assert(path@.subrange(plen as int, n as int) =~= path@.skip(plen as int));
        }
        match &self.host_name {
            None => Ok(Some(final_path)),
            Some(real_host_name) => {
                let hs = match headers_option {
                    Some(h) => h,
                    None => {
                        return Ok(None);
                    },
                };
                let host_value = match hs.get("Host") {
                    Some(v) => v,
                    None => {
                        return Ok(None);
                    },
                };
                match regex_match(real_host_name.as_str(), host_value.as_str()) {
                    None => Err(AppError(String::from_str("invalid host name pattern"))),
                    Some(true) => Ok(Some(final_path)),
                    Some(false) => Ok(None),
                }
            },
        }
    }

    /// The route's policy chain for one request: the IP allow/deny list,
    /// then the authentication verdict, then the negated rate-limit
    /// verdict. The two capability verdicts come from the caller, which
    /// runs the route's external authentication and rate-limit strategies;
    /// `None` means the capability is not configured or was not reached.
    pub fn is_allowed(
        &self,
        ip: &String,
        authentication_result: Option<bool>,
        ratelimit_result: Option<bool>,
    ) -> (r: Result<bool, AppError>)
        ensures
            match spec_list_allowed(self.allow_deny_list, ip@) {
                None => r is Err,
                Some(ipa) => r is Ok && r->Ok_0 == (ipa && authentication_result != Some(false)
                    && ratelimit_result != Some(true)),
            },
    {
        let ip_pass = match &self.allow_deny_list {
            None => true,
            Some(list) => match ip_allowed_scan(list, ip) {
                Ok(b) => b,
                Err(e) => {
                    return Err(e);
                },
            },
        };
        if !ip_pass {
            return Ok(false);
        }
        let auth_pass = match authentication_result {
            Some(b) => b,
            None => true,
        };
        if !auth_pass {
            return Ok(false);
        }
        let limit = match ratelimit_result {
            Some(b) => b,
            None => false,
        };
        Ok(!limit)
    }
}

/// What kind of listener a service runs.
#[derive(Debug, Clone, PartialEq, Eq, Structural, Default)]
pub enum ServiceType {
    #[default]
    Http,
    Https,
    Tcp,
    Http2,
    Http2Tls,
}

/// Whether a service type terminates TLS and so needs certificate material.
pub open spec fn spec_needs_tls(t: ServiceType) -> bool {
    t == ServiceType::Https || t == ServiceType::Http2Tls
}

/// One service's listener configuration and its ordered routes.
#[derive(Debug, PartialEq, Default)]
pub struct ServiceConfig {
    pub server_type: ServiceType,
    pub cert_str: Option<String>,
    pub key_str: Option<String>,
    pub routes: Vec<Route>,
}

impl ServiceConfig {
    /// Whether a service of a TLS type carries certificate and key
    /// material. Services of plain types need none.
    pub fn has_required_tls_material(&self) -> (r: bool)
        ensures
            r == (spec_needs_tls(self.server_type) ==> self.cert_str is Some && self.key_str
                is Some),
    {
        let needs = match self.server_type {
            ServiceType::Https => true,
            ServiceType::Http2Tls => true,
            _ => false,
        };
        if !needs {
            return true;
        }
        let has_cert = match &self.cert_str {
            Some(_) => true,
            None => false,
        };
        let has_key = match &self.key_str {
            Some(_) => true,
            None => false,
        };
        has_cert && has_key
    }

    /// Ready every route of a service for serving; see `Route::from`.
    pub fn from(service_config: ServiceConfig) -> (r: Result<ServiceConfig, AppError>)
        ensures
            r is Ok,
            spec_service_config_ready(service_config, r->Ok_0),
    {
        let ServiceConfig { server_type, cert_str, key_str, mut routes } = service_config;
        let mut out: Vec<Route> = Vec::new();
        let ghost orig = routes@;
        while routes.len() > 0
            invariant
                out@.len() + routes@.len() == orig.len(),
                routes@ == orig.skip(out@.len() as int),
                forall|i: int|
                    0 <= i < out@.len() ==> spec_route_ready(orig[i], #[trigger] out@[i]),
            decreases routes@.len(),
        {
            let ghost before = routes@;
            let item = routes.remove(0);
            proof {
                assert(before[0] == orig[out@.len() as int]);
                assert(before.skip(1) =~= orig.skip(out@.len() as int + 1));
            }
            match Route::from(item) {
                Ok(rt) => {
                    out.push(rt);
                },
                Err(e) => {
                    return Err(e);
                },
            }
        }
        Ok(ServiceConfig { server_type, cert_str, key_str, routes: out })
    }
}

/// One routed service: its unique listen port, its stable identifier, and
/// its configuration.
#[derive(Debug, PartialEq, Default)]
pub struct ApiService {
    pub listen_port: i32,
    pub api_service_id: String,
    pub service_config: ServiceConfig,
}

impl ApiService {
    /// Ready a whole service for serving; see `ServiceConfig::from`.
    pub fn from(api_service: ApiService) -> (r: Result<ApiService, AppError>)
        ensures
            r is Ok,
            r->Ok_0.listen_port == api_service.listen_port,
            r->Ok_0.api_service_id == api_service.api_service_id,
            spec_service_config_ready(api_service.service_config, r->Ok_0.service_config),
    {
        let ApiService { listen_port, api_service_id, service_config } = api_service;
        let service_config = match ServiceConfig::from(service_config) {
            Ok(sc) => sc,
            Err(e) => {
                return Err(e);
            },
        };
        Ok(ApiService { listen_port, api_service_id, service_config })
    }
}

/// Process-wide static settings.
#[derive(Debug, PartialEq, Default)]
pub struct StaticConifg {
    pub access_log: Option<String>,
    pub database_url: Option<String>,
    pub admin_port: String,
    pub config_file_path: Option<String>,
}

impl Clone for StaticConifg {
    fn clone(&self) -> (res: StaticConifg)
        ensures
            res == *self,
    {
        StaticConifg {
            access_log: match &self.access_log {
                Some(s) => Some(s.clone()),
                None => None,
            },
            database_url: match &self.database_url {
                Some(s) => Some(s.clone()),
                None => None,
            },
            admin_port: self.admin_port.clone(),
            config_file_path: match &self.config_file_path {
                Some(s) => Some(s.clone()),
                None => None,
            },
        }
    }
}

/// The root aggregate: static settings and the services, one per listen
/// port. The control plane is its only writer.
#[derive(Debug, PartialEq, Default)]
pub struct AppConfig {
    pub static_config: StaticConifg,
    pub api_service_config: Vec<ApiService>,
}

/// The position of the first service bound to `port`, if any.
pub open spec fn spec_find_service(services: Seq<ApiService>, port: int) -> Option<int>
    decreases services.len(),
{
    if services.len() == 0 {
        None
    } else if services[0].listen_port == port {
        Some(0)
    } else {
        match spec_find_service(services.skip(1), port) {
            Some(i) => Some(i + 1),
            None => None,
        }
    }
}

/// `spec_find_service` finds exactly the first service on the port.
pub proof fn lemma_find_service(services: Seq<ApiService>, port: int)
    ensures
        match spec_find_service(services, port) {
            Some(i) => 0 <= i < services.len() && services[i].listen_port == port && (forall|j: int|
                0 <= j < i ==> services[j].listen_port != port),
            None => forall|j: int|
                0 <= j < services.len() ==> services[j].listen_port != port,
        },
    decreases services.len(),
{
    if services.len() > 0 {
        lemma_find_service(services.skip(1), port);
        assert(forall|j: int|
            1 <= j < services.len() ==> services.skip(1)[j - 1] == services[j]);
    }
}

impl AppConfig {
    /// The service bound to `port`, if any.
    pub fn find_api_service(&self, port: i32) -> (r: Option<&ApiService>)
        ensures
            match r {
                Some(s) => {
                    let pos = spec_find_service(self.api_service_config@, port as int);
                    pos is Some && *s == self.api_service_config@[pos->Some_0]
                },
                None => spec_find_service(self.api_service_config@, port as int) is None,
            },
    {
        let n = self.api_service_config.len();
        let mut i: usize = 0;
        proof {
            assert(self.api_service_config@.skip(0) =~= self.api_service_config@);
        }
        while i < n
            invariant
                i <= n,
                n == self.api_service_config@.len(),
                spec_find_service(self.api_service_config@, port as int) == (match
                    spec_find_service(self.api_service_config@.skip(i as int), port as int) {
                    Some(k) => Some(k + i),
                    None => None,
                }),
            decreases n - i,
        {
            proof {
                assert(self.api_service_config@.skip(i as int)[0] == self.api_service_config@[
                    i as int
                ]);
                assert(self.api_service_config@.skip(i as int).skip(1)
                    =~= self.api_service_config@.skip(i + 1));
            }
            if self.api_service_config[i].listen_port == port {
                return Some(&self.api_service_config[i]);
            }
            i = i + 1;
        }
        None
    }

    /// Whether some service is bound to `port`.
    pub fn contains_port(&self, port: i32) -> (r: bool)
        ensures
            r == (spec_find_service(self.api_service_config@, port as int) is Some),
    {
        match self.find_api_service(port) {
            Some(_) => true,
            None => false,
        }
    }
}

} // verus!
