//! The process-wide handler state: the shared configuration and, per listen
//! port, the one-shot stop senders of the workers currently serving that
//! port. Replacing a service takes the stop senders of exactly that port
//! out, so the caller can halt the old pool before starting the new one.

use std::collections::HashMap;

use vstd::prelude::*;

use crate::app_config::{spec_find_service, spec_needs_tls, spec_service_config_ready, ApiService,
    AppConfig, Route, StaticConifg};
use crate::app_error::AppError;
use crate::outside::send_stop_signal;
use crate::persist::doc::enc_app_config;
use crate::persist::emit::emit_app_config;
use crate::persist::views::app_config_view;
use crate::text::str_equal;

verus! {

/// The stop channel of one listener worker.
pub type StopSender = futures::channel::oneshot::Sender<i32>;

/// The process-wide state: the routing table, and the stop senders of the
/// running workers, keyed by listen port. The surrounding process guards a
/// `Handler` with its reader/writer locks; the methods here are the
/// transitions those locks protect.
pub struct Handler {
    pub shared_app_config: AppConfig,
    pub senders: HashMap<i32, Vec<StopSender>>,
}

/// The position of the first route with this identifier, if any.
pub open spec fn spec_find_route(routes: Seq<Route>, route_id: Seq<char>) -> Option<int>
    decreases routes.len(),
{
    if routes.len() == 0 {
        None
    } else if routes[0].route_id@ == route_id {
        Some(0)
    } else {
        match spec_find_route(routes.skip(1), route_id) {
            Some(i) => Some(i + 1),
            None => None,
        }
    }
}

/// `spec_find_route` finds exactly the first route with the identifier.
pub proof fn lemma_find_route(routes: Seq<Route>, route_id: Seq<char>)
    ensures
        match spec_find_route(routes, route_id) {
            Some(i) => 0 <= i < routes.len() && routes[i].route_id@ == route_id && (forall|j: int|
                0 <= j < i ==> routes[j].route_id@ != route_id),
            None => forall|j: int| 0 <= j < routes.len() ==> routes[j].route_id@ != route_id,
        },
    decreases routes.len(),
{
    if routes.len() > 0 {
        lemma_find_route(routes.skip(1), route_id);
        assert(forall|j: int| 1 <= j < routes.len() ==> routes.skip(1)[j - 1] == routes[j]);
    }
}

impl Handler {
    /// A fresh handler: no services, no workers.
    pub fn new() -> (r: Handler)
        ensures
            r.shared_app_config.api_service_config@.len() == 0,
            r.senders@ == Map::<i32, Vec<StopSender>>::empty(),
    {
        Handler {
            shared_app_config: AppConfig {
                static_config: StaticConifg {
                    access_log: None,
                    database_url: None,
                    admin_port: String::new(),
                    config_file_path: None,
                },
                api_service_config: Vec::new(),
            },
            senders: HashMap::new(),
        }
    }

    /// A worker serving `port` registers its stop sender; the sender joins
    /// that port's list, and no other port's list changes.
    pub fn register_worker(&mut self, port: i32, sender: StopSender)
        ensures
            final(self).shared_app_config == old(self).shared_app_config,
            final(self).senders@.contains_key(port),
            final(self).senders@[port]@ == (if old(self).senders@.contains_key(port) {
                old(self).senders@[port]@
            } else {
                Seq::<StopSender>::empty()
            }).push(sender),
            final(self).senders@.remove(port) == old(self).senders@.remove(port),
    {
        let mut list = match self.senders.remove(&port) {
            Some(v) => v,
            None => Vec::new(),
        };
        list.push(sender);
        self.senders.insert(port, list);
        proof {
            assert(final(self).senders@.remove(port) =~= old(self).senders@.remove(port));
        }
    }

    /// Take the stop senders of exactly `port` out of the registry; the
    /// caller signals them to halt that port's old worker pool.
    pub fn take_port_senders(&mut self, port: i32) -> (r: Vec<StopSender>)
        ensures
            final(self).shared_app_config == old(self).shared_app_config,
            final(self).senders@ == old(self).senders@.remove(port),
            old(self).senders@.contains_key(port) ==> r == old(self).senders@[port],
            !old(self).senders@.contains_key(port) ==> r@.len() == 0,
    {
        let r = match self.senders.remove(&port) {
            Some(v) => v,
            None => Vec::new(),
        };
        proof {
            assert(final(self).senders@ =~= old(self).senders@.remove(port));
        }
        r
    }

    /// Halt the workers of `port`: take their stop senders out and fire
    /// each one. Returns how many workers were signalled.
    pub fn stop_port_workers(&mut self, port: i32) -> (count: usize)
        ensures
            final(self).shared_app_config == old(self).shared_app_config,
            final(self).senders@ == old(self).senders@.remove(port),
            old(self).senders@.contains_key(port) ==> count == old(self).senders@[port]@.len(),
            !old(self).senders@.contains_key(port) ==> count == 0,
    {
        let mut list = self.take_port_senders(port);
        let mut count: usize = 0;
        let total_now = list.len();
        let ghost total = total_now as nat;
        while list.len() > 0
            invariant
                count + list@.len() == total,
                total <= usize::MAX,
            decreases list@.len(),
        {
            let sender = list.remove(0);
            send_stop_signal(sender, 1);
            count = count + 1;
        }
        count
    }

    /// Install a service on its port, replacing any service already bound
    /// there, after checking that a TLS-terminating service carries its
    /// certificate material. Returns the stop senders of the port's old
    /// worker pool: the caller signals them, then starts the new pool.
    /// Fails exactly when the TLS material is missing, and then changes
    /// nothing.
    pub fn apply_api_service(&mut self, api_service: ApiService) -> (r: Result<
        Vec<StopSender>,
        AppError,
    >)
        ensures
            r is Err <==> !(spec_needs_tls(api_service.service_config.server_type)
                ==> api_service.service_config.cert_str is Some
                && api_service.service_config.key_str is Some),
            r is Err ==> *final(self) == *old(self),
            r is Ok ==> ({
                let port = api_service.listen_port;
                let olds = old(self).shared_app_config.api_service_config@;
                let news = final(self).shared_app_config.api_service_config@;
                let kept = olds.filter((|s: ApiService| s.listen_port != port));
                &&& news.len() == kept.len() + 1
                &&& news.subrange(0, kept.len() as int) == kept
                &&& news.last().listen_port == port
                &&& news.last().api_service_id == api_service.api_service_id
                &&& spec_service_config_ready(
                    api_service.service_config,
                    news.last().service_config,
                )
                &&& final(self).shared_app_config.static_config
                    == old(self).shared_app_config.static_config
                &&& final(self).senders@ == old(self).senders@.remove(port)
                &&& (old(self).senders@.contains_key(port) ==> r->Ok_0 == old(self).senders@[port])
                &&& (!old(self).senders@.contains_key(port) ==> r->Ok_0@.len() == 0)
            }),
    {
        if !api_service.service_config.has_required_tls_material() {
            return Err(
                AppError(
                    String::from_str(
                        "the certificate and key are required for a tls service type!",
                    ),
                ),
            );
        }
        let port = api_service.listen_port;
        let prepared = match ApiService::from(api_service) {
            Ok(s) => s,
            Err(e) => {
                return Err(e);
            },
        };
        let ghost orig = self.shared_app_config.api_service_config@;
        let mut kept: Vec<ApiService> = Vec::new();
        proof {
            assert(orig.filter((|s: ApiService| s.listen_port != port)) =~= kept@
                + self.shared_app_config.api_service_config@.filter(
                (|s: ApiService| s.listen_port != port),
            ));
        }
        while self.shared_app_config.api_service_config.len() > 0
            invariant
                orig.filter((|s: ApiService| s.listen_port != port)) == kept@
                    + self.shared_app_config.api_service_config@.filter(
                    (|s: ApiService| s.listen_port != port),
                ),
                self.shared_app_config.static_config == old(self).shared_app_config.static_config,
                self.senders@ == old(self).senders@,
            decreases self.shared_app_config.api_service_config@.len(),
        {
            let ghost before = self.shared_app_config.api_service_config@;
            let s = self.shared_app_config.api_service_config.remove(0);
            proof {
                before.skip(1).lemma_filter_prepend(s, (|s2: ApiService| s2.listen_port != port));
                assert(seq![s] + before.skip(1) =~= before);
            }
            if s.listen_port != port {
                kept.push(s);
            }
        }
        proof {
            assert(self.shared_app_config.api_service_config@.filter(
                (|s: ApiService| s.listen_port != port),
            ) =~= Seq::<ApiService>::empty());
            assert(orig.filter((|s: ApiService| s.listen_port != port)) =~= kept@);
        }
        kept.push(prepared);
        self.shared_app_config.api_service_config = kept;
        let old_senders = self.take_port_senders(port);
        proof {
            let news = self.shared_app_config.api_service_config@;
            let keptspec = orig.filter((|s: ApiService| s.listen_port != port));
            assert(news.subrange(0, keptspec.len() as int) =~= keptspec);
        }
        Ok(old_senders)
    }

    /// The persisted document of the current configuration: the canonical
    /// text that the document decoder reads back as exactly this routing
    /// table. The caller writes it to durable storage after releasing the
    /// lock, and a failure to write is logged, never propagated.
    pub fn config_document(&self) -> (r: String)
        ensures
            r@ == enc_app_config(app_config_view(self.shared_app_config)),
    {
        emit_app_config(&self.shared_app_config)
    }

    /// Remove every route carrying this identifier from every service;
    /// everything else stays as it is.
    pub fn delete_route(&mut self, route_id: &String)
        ensures
            final(self).senders@ == old(self).senders@,
            final(self).shared_app_config.static_config
                == old(self).shared_app_config.static_config,
            ({
                let olds = old(self).shared_app_config.api_service_config@;
                let news = final(self).shared_app_config.api_service_config@;
                &&& news.len() == olds.len()
                &&& (forall|s: int|
                    0 <= s < olds.len() ==> {
                        &&& (#[trigger] news[s]).listen_port == olds[s].listen_port
                        &&& news[s].api_service_id == olds[s].api_service_id
                        &&& news[s].service_config.server_type
                            == olds[s].service_config.server_type
                        &&& news[s].service_config.cert_str == olds[s].service_config.cert_str
                        &&& news[s].service_config.key_str == olds[s].service_config.key_str
                        &&& news[s].service_config.routes@ == olds[s].service_config.routes@.filter(
                            (|rt: Route| rt.route_id@ != route_id@),
                        )
                    })
            }),
    {
        let ghost orig = self.shared_app_config.api_service_config@;
        let mut out: Vec<ApiService> = Vec::new();
        while self.shared_app_config.api_service_config.len() > 0
            invariant
                out@.len() + self.shared_app_config.api_service_config@.len() == orig.len(),
                self.shared_app_config.api_service_config@ == orig.skip(out@.len() as int),
                self.shared_app_config.static_config == old(self).shared_app_config.static_config,
                self.senders@ == old(self).senders@,
                forall|s: int|
                    0 <= s < out@.len() ==> {
                        &&& (#[trigger] out@[s]).listen_port == orig[s].listen_port
                        &&& out@[s].api_service_id == orig[s].api_service_id
                        &&& out@[s].service_config.server_type == orig[s].service_config.server_type
                        &&& out@[s].service_config.cert_str == orig[s].service_config.cert_str
                        &&& out@[s].service_config.key_str == orig[s].service_config.key_str
                        &&& out@[s].service_config.routes@ == orig[s].service_config.routes@.filter(
                            (|rt: Route| rt.route_id@ != route_id@),
                        )
                    },
            decreases self.shared_app_config.api_service_config@.len(),
        {
            let ghost before = self.shared_app_config.api_service_config@;
            let mut svc = self.shared_app_config.api_service_config.remove(0);
            proof {
                assert(before[0] == orig[out@.len() as int]);
                assert(before.skip(1) =~= orig.skip(out@.len() as int + 1));
            }
            let ghost svc_port = svc.listen_port;
            let ghost svc_id = svc.api_service_id;
            let ghost svc_ty = svc.service_config.server_type;
            let ghost svc_cert = svc.service_config.cert_str;
            let ghost svc_key = svc.service_config.key_str;
            let ghost routes0 = svc.service_config.routes@;
            let mut kept: Vec<Route> = Vec::new();
            proof {
                assert(routes0.filter((|rt: Route| rt.route_id@ != route_id@)) =~= kept@
                    + svc.service_config.routes@.filter((|rt: Route| rt.route_id@ != route_id@)));
            }
            while svc.service_config.routes.len() > 0
                invariant
                    routes0.filter((|rt: Route| rt.route_id@ != route_id@)) == kept@
                        + svc.service_config.routes@.filter(
                        (|rt: Route| rt.route_id@ != route_id@),
                    ),
                    svc.listen_port == svc_port,
                    svc.api_service_id == svc_id,
                    svc.service_config.server_type == svc_ty,
                    svc.service_config.cert_str == svc_cert,
                    svc.service_config.key_str == svc_key,
                    svc_port == orig[out@.len() as int].listen_port,
                    svc_id == orig[out@.len() as int].api_service_id,
                    svc_ty == orig[out@.len() as int].service_config.server_type,
                    svc_cert == orig[out@.len() as int].service_config.cert_str,
                    svc_key == orig[out@.len() as int].service_config.key_str,
                    routes0 == orig[out@.len() as int].service_config.routes@,
                    out@.len() < orig.len(),
                decreases svc.service_config.routes@.len(),
            {
                let ghost rbefore = svc.service_config.routes@;
                let rt = svc.service_config.routes.remove(0);
                proof {
                    rbefore.skip(1).lemma_filter_prepend(
                        rt,
                        (|rt2: Route| rt2.route_id@ != route_id@),
                    );
                    assert(seq![rt] + rbefore.skip(1) =~= rbefore);
                }
                if !str_equal(rt.route_id.as_str(), route_id.as_str()) {
                    kept.push(rt);
                }
            }
            proof {
                assert(svc.service_config.routes@.filter((|rt: Route| rt.route_id@ != route_id@))
                    =~= Seq::<Route>::empty());
                assert(routes0.filter((|rt: Route| rt.route_id@ != route_id@)) =~= kept@);
            }
            svc.service_config.routes = kept;
            out.push(svc);
        }
        proof {
            assert(orig.skip(orig.len() as int).len() == 0);
        }
        self.shared_app_config.api_service_config = out;
    }

    /// Replace the route with this route's identifier inside the service
    /// bound to `listen_port`. Fails exactly when no service is bound to
    /// the port or the service has no route with the identifier, and then
    /// changes nothing.
    pub fn update_route(&mut self, listen_port: i32, route: Route) -> (r: Result<(), AppError>)
        ensures
            final(self).senders@ == old(self).senders@,
            final(self).shared_app_config.static_config
                == old(self).shared_app_config.static_config,
            ({
                let olds = old(self).shared_app_config.api_service_config@;
                let news = final(self).shared_app_config.api_service_config@;
                match spec_find_service(olds, listen_port as int) {
                    None => r is Err && news == olds,
                    Some(s) => match spec_find_route(
                        olds[s].service_config.routes@,
                        route.route_id@,
                    ) {
                        None => r is Err && news == olds,
                        Some(j) => {
                            &&& r is Ok
                            &&& news.len() == olds.len()
                            &&& (forall|t: int|
                                0 <= t < olds.len() && t != s ==> #[trigger] news[t] == olds[t])
                            &&& news[s].listen_port == olds[s].listen_port
                            &&& news[s].api_service_id == olds[s].api_service_id
                            &&& news[s].service_config.server_type
                                == olds[s].service_config.server_type
                            &&& news[s].service_config.cert_str == olds[s].service_config.cert_str
                            &&& news[s].service_config.key_str == olds[s].service_config.key_str
                            &&& news[s].service_config.routes@
                                == olds[s].service_config.routes@.update(j, route)
                        },
                    },
                }
            }),
    {
        let ghost olds = self.shared_app_config.api_service_config@;
        proof {
            crate::app_config::lemma_find_service(olds, listen_port as int);
        }
        let n = self.shared_app_config.api_service_config.len();
        let mut s: usize = 0;
        let mut found_s: bool = false;
        while s < n && !found_s
            invariant
                s <= n,
                n == olds.len(),
                olds == self.shared_app_config.api_service_config@,
                *self == *old(self),
                !found_s ==> (forall|t: int|
                    0 <= t < s ==> #[trigger] olds[t].listen_port != listen_port),
                found_s ==> s < n && olds[s as int].listen_port == listen_port && (forall|t: int|
                    0 <= t < s ==> #[trigger] olds[t].listen_port != listen_port),
            decreases n - s + (if found_s {
                0int
            } else {
                1int
            }),
        {
            if self.shared_app_config.api_service_config[s].listen_port == listen_port {
                found_s = true;
            } else {
                s = s + 1;
            }
        }
        if !found_s {
            proof {
                if spec_find_service(olds, listen_port as int) is Some {
                    let k = spec_find_service(olds, listen_port as int)->Some_0;
                    assert(olds[k].listen_port != listen_port);
                }
            }
            return Err(AppError(String::from_str("Can not find the port in the configuration!")));
        }
        proof {
            lemma_find_route(
                olds[s as int].service_config.routes@,
                route.route_id@,
            );
            if spec_find_service(olds, listen_port as int) is Some {
                let k = spec_find_service(olds, listen_port as int)->Some_0;
                assert(!(k < s) && !(k > s)) by {
                    if k > s {
                        assert(olds[s as int].listen_port != listen_port);
                    }
                }
            }
        }
        let mut svc = self.shared_app_config.api_service_config.remove(s);
        let ghost routes0 = svc.service_config.routes@;
        let m = svc.service_config.routes.len();
        let mut j: usize = 0;
        let mut found_j: bool = false;
        while j < m && !found_j
            invariant
                j <= m,
                m == routes0.len(),
                routes0 == svc.service_config.routes@,
                !found_j ==> (forall|t: int|
                    0 <= t < j ==> (#[trigger] routes0[t]).route_id@ != route.route_id@),
                found_j ==> j < m && routes0[j as int].route_id@ == route.route_id@ && (forall|
                    t: int,
                |
                    0 <= t < j ==> (#[trigger] routes0[t]).route_id@ != route.route_id@),
            decreases m - j + (if found_j {
                0int
            } else {
                1int
            }),
        {
            if str_equal(
                svc.service_config.routes[j].route_id.as_str(),
                route.route_id.as_str(),
            ) {
                found_j = true;
            } else {
                j = j + 1;
            }
        }
        if !found_j {
            proof {
                if spec_find_route(routes0, route.route_id@) is Some {
                    let k = spec_find_route(routes0, route.route_id@)->Some_0;
                    assert(routes0[k].route_id@ != route.route_id@);
                }
            }
            self.shared_app_config.api_service_config.insert(s, svc);
            proof {
                assert(self.shared_app_config.api_service_config@ =~= olds);
            }
            return Err(AppError(String::from_str("Can not find the route by the route id!")));
        }
        proof {
            if spec_find_route(routes0, route.route_id@) is Some {
                let k = spec_find_route(routes0, route.route_id@)->Some_0;
                assert(!(k < j) && !(k > j)) by {
                    if k > j {
                        assert(routes0[j as int].route_id@ != route.route_id@);
                    }
                }
            }
        }
        svc.service_config.routes.remove(j);
        svc.service_config.routes.insert(j, route);
        proof {
            assert(svc.service_config.routes@ =~= routes0.update(j as int, route));
        }
        self.shared_app_config.api_service_config.insert(s, svc);
        proof {
            assert(forall|t: int|
                0 <= t < olds.len() && t != s ==> #[trigger] self.shared_app_config.api_service_config@[t]
                    == olds[t]);
        }
        Ok(())
    }
}

} // verus!
