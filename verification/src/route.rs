//! Upstream targets and the four load-balancing strategies. Every strategy
//! first restricts itself to the alive subset of its targets (a target with
//! no health signal counts as alive) and then selects: round-robin, random,
//! weighted, or by request header.

use vstd::prelude::*;

use vstd::arithmetic::div_mod::{lemma_mod_self_0, lemma_small_mod};

use crate::app_error::AppError;
use crate::headers::{spec_header_lookup, HeaderEntry, Headers};
use crate::outside::{random_below, regex_match, regex_matches, regex_pattern_ok};
use crate::text::{split_chars, str_equal, str_split};

verus! {

/// Health bookkeeping for one target: how many consecutive upstream
/// responses were server errors. An outside health monitor reads it and
/// flips `is_alive`.
#[derive(Debug, Clone, Copy, PartialEq, Eq, Structural, Default)]
pub struct AnomalyDetectionStatus {
    pub consecutive_5xx: i32,
}

/// One upstream target: its address, an optional file fallback, a stable
/// identifier, and its health state. `is_alive` is tri-state: `None` means
/// no health signal yet and counts as alive.
#[derive(Debug, PartialEq, Default)]
pub struct BaseRoute {
    pub endpoint: String,
    pub try_file: Option<String>,
    pub base_route_id: String,
    pub is_alive: Option<bool>,
    pub anomaly_detection_status: AnomalyDetectionStatus,
}

impl Clone for BaseRoute {
    fn clone(&self) -> (res: BaseRoute)
        ensures
            res == *self,
    {
        BaseRoute {
            endpoint: self.endpoint.clone(),
            try_file: match &self.try_file {
                Some(f) => Some(f.clone()),
                None => None,
            },
            base_route_id: self.base_route_id.clone(),
            is_alive: self.is_alive,
            anomaly_detection_status: self.anomaly_detection_status,
        }
    }
}

/// Whether a target's health state lets it be selected: only an explicit
/// `false` excludes it.
pub open spec fn alive_flag(a: Option<bool>) -> bool {
    a != Some(false)
}

/// Whether a target is selectable, executable.
pub fn is_alive_flag(a: &Option<bool>) -> (r: bool)
    ensures
        r == alive_flag(*a),
{
    match a {
        Some(b) => *b,
        None => true,
    }
}

/// One target of a round-robin strategy.
#[derive(Debug, PartialEq, Default)]
pub struct PollBaseRoute {
    pub base_route: BaseRoute,
}

impl Clone for PollBaseRoute {
    fn clone(&self) -> (res: PollBaseRoute)
        ensures
            res == *self,
    {
        PollBaseRoute { base_route: self.base_route.clone() }
    }
}

/// Round-robin selection: the cursor advances by one alive target per call
/// and wraps.
#[derive(Debug, PartialEq, Default)]
pub struct PollRoute {
    pub current_index: i64,
    pub routes: Vec<PollBaseRoute>,
}

impl Clone for PollRoute {
    fn clone(&self) -> (res: PollRoute)
        ensures
            res.current_index == self.current_index,
            res.routes@ == self.routes@,
    {
        let routes = self.routes.clone();
        proof {
            assert(routes@ =~= self.routes@);
        }
        PollRoute { current_index: self.current_index, routes }
    }
}

/// The alive subset of a round-robin target list, in declared order.
pub open spec fn alive_poll(routes: Seq<PollBaseRoute>) -> Seq<PollBaseRoute> {
    routes.filter(|t: PollBaseRoute| alive_flag(t.base_route.is_alive))
}

/// What one round-robin step yields: the selected target and the new
/// cursor, or nothing when no target is alive.
pub open spec fn poll_next(p: PollRoute) -> Option<(BaseRoute, i64)> {
    let alive = alive_poll(p.routes@);
    if alive.len() == 0 {
        None
    } else {
        let ni = (p.current_index as int + 1) % (alive.len() as int);
        Some((alive[ni].base_route, ni as i64))
    }
}

impl PollRoute {
    /// All targets, dead ones included, for health reporting.
    pub fn get_all_route(&mut self) -> (r: Result<Vec<BaseRoute>, AppError>)
        ensures
            *final(self) == *old(self),
            r is Ok && r->Ok_0@ == old(self).routes@.map_values(|t: PollBaseRoute| t.base_route),
    {
        let mut out: Vec<BaseRoute> = Vec::new();
        let n = self.routes.len();
        let mut i: usize = 0;
        while i < n
            invariant
                i <= n,
                n == self.routes@.len(),
                out@ =~= self.routes@.subrange(0, i as int).map_values(
                    |t: PollBaseRoute| t.base_route,
                ),
            decreases n - i,
        {
            out.push(self.routes[i].base_route.clone());
            proof {
                assert(out@ =~= self.routes@.subrange(0, i + 1).map_values(
                    |t: PollBaseRoute| t.base_route,
                ));
            }
            i = i + 1;
        }
        proof {
            assert(self.routes@.subrange(0, n as int) =~= self.routes@);
        }
        Ok(out)
    }

    /// Select the next alive target round-robin. Fails exactly when no
    /// target is alive; the target list is never changed.
    pub fn get_route(&mut self, headers: &Headers) -> (r: Result<BaseRoute, AppError>)
        requires
            0 <= old(self).current_index < i64::MAX,
            old(self).routes@.len() <= i64::MAX,
        ensures
            final(self).routes@ == old(self).routes@,
            match poll_next(*old(self)) {
                Some(t) => r is Ok && r->Ok_0 == t.0 && final(self).current_index == t.1,
                None => r is Err && final(self).current_index == old(self).current_index,
            },
    {
        let mut alive: Vec<PollBaseRoute> = Vec::new();
        let n = self.routes.len();
        let mut i: usize = 0;
        proof {
            assert(self.routes@.subrange(0, 0) =~= Seq::<PollBaseRoute>::empty());
        }
        while i < n
            invariant
                i <= n,
                n == self.routes@.len(),
                alive@ == alive_poll(self.routes@.subrange(0, i as int)),
            decreases n - i,
        {
            proof {
                self.routes@.subrange(0, i as int).lemma_filter_push(
                    self.routes@[i as int],
                    |t: PollBaseRoute| alive_flag(t.base_route.is_alive),
                );
                assert(self.routes@.subrange(0, i as int).push(self.routes@[i as int])
                    =~= self.routes@.subrange(0, i + 1));
            }
            if is_alive_flag(&self.routes[i].base_route.is_alive) {
                alive.push(self.routes[i].clone());
            }
            i = i + 1;
        }
        proof {
            assert(self.routes@.subrange(0, n as int) =~= self.routes@);
        }
        if alive.len() == 0 {
            return Err(AppError(String::from_str("Can not find alive host in the clusters")));
        }
        let older = self.current_index;
        let len = alive.len();
        let current_index = (older + 1) % (len as i64);
        self.current_index = current_index;
        let dst = alive[current_index as usize].clone();
        Ok(dst.base_route)
    }
}

/// The round-robin state after `k` consecutive selections.
pub open spec fn poll_state(p: PollRoute, k: nat) -> PollRoute
    decreases k,
{
    if k == 0 {
        p
    } else {
        let prev = poll_state(p, (k - 1) as nat);
        match poll_next(prev) {
            Some(t) => PollRoute { current_index: t.1, routes: prev.routes },
            None => prev,
        }
    }
}

/// The target served by the `k`-th of a run of consecutive round-robin
/// selections, counting from zero.
pub open spec fn poll_pick(p: PollRoute, k: nat) -> Option<BaseRoute> {
    match poll_next(poll_state(p, k)) {
        Some(t) => Some(t.0),
        None => None,
    }
}

/// In a run of consecutive selections whose alive subset stays fixed, the
/// `k`-th selection serves the alive target at position
/// `(current_index + 1 + k) mod n`, where `n` is the alive count.
pub proof fn lemma_poll_pick_formula(p: PollRoute, k: nat)
    requires
        0 <= p.current_index,
        p.routes@.len() <= i64::MAX,
        alive_poll(p.routes@).len() > 0,
    ensures
        poll_state(p, k).routes == p.routes,
        poll_state(p, k).current_index == (if k == 0 {
            p.current_index as int
        } else {
            (p.current_index + k) % (alive_poll(p.routes@).len() as int)
        }),
        poll_pick(p, k) == Some(
            alive_poll(p.routes@)[(p.current_index + 1 + k) % (alive_poll(p.routes@).len() as int)].base_route,
        ),
    decreases k,
{
    let n = alive_poll(p.routes@).len() as int;
    p.routes@.lemma_filter_len(|t: PollBaseRoute| alive_flag(t.base_route.is_alive));
    if k == 0 {
        vstd::arithmetic::div_mod::lemma_mod_bound(p.current_index + 1, n);
    } else {
        lemma_poll_pick_formula(p, (k - 1) as nat);
        let prev = poll_state(p, (k - 1) as nat);
        vstd::arithmetic::div_mod::lemma_mod_bound(prev.current_index + 1, n);
        vstd::arithmetic::div_mod::lemma_mod_bound(p.current_index + k, n);
        if k == 1 {
        } else {
            vstd::arithmetic::div_mod::lemma_add_mod_noop_right(
                1,
                p.current_index + k - 1,
                n,
            );
            assert(prev.current_index + 1 == 1 + ((p.current_index + k - 1) % n));
            assert((1 + ((p.current_index + k - 1) % n)) % n == (1 + (p.current_index + k - 1))
                % n);
        }
        vstd::arithmetic::div_mod::lemma_add_mod_noop_right(1, p.current_index + k, n);
        assert((poll_state(p, k).current_index + 1) % n == (p.current_index + 1 + k) % n);
    }
}

/// Two positions less than one cycle apart land on different alive
/// targets' slots: the round-robin cycle visits each alive slot once.
pub proof fn lemma_poll_cycle_distinct(c: int, n: int, i: int, j: int)
    requires
        0 <= c,
        0 < n,
        0 <= i < j < n,
    ensures
        (c + 1 + i) % n != (c + 1 + j) % n,
{
    let a = c + 1 + i;
    let d = j - i;
    vstd::arithmetic::div_mod::lemma_mod_bound(a, n);
    let r = a % n;
    assert((a + d) % n == (r + d) % n) by {
        vstd::arithmetic::div_mod::lemma_add_mod_noop(a, d, n);
        vstd::arithmetic::div_mod::lemma_small_mod(d as nat, n as nat);
        vstd::arithmetic::div_mod::lemma_add_mod_noop(r, d, n);
        vstd::arithmetic::div_mod::lemma_mod_twice(a, n);
    }
    if r + d < n {
        vstd::arithmetic::div_mod::lemma_small_mod((r + d) as nat, n as nat);
        vstd::arithmetic::div_mod::lemma_small_mod(r as nat, n as nat);
    } else {
        assert((r + d) % n == r + d - n) by {
            vstd::arithmetic::div_mod::lemma_mod_multiples_vanish(1, r + d - n, n);
            vstd::arithmetic::div_mod::lemma_small_mod((r + d - n) as nat, n as nat);
        }
    }
}

/// After one full cycle over a fixed alive subset, the round-robin
/// selections repeat.
pub proof fn lemma_poll_cycle_repeats(p: PollRoute, k: nat)
    requires
        0 <= p.current_index,
        p.routes@.len() <= i64::MAX,
        alive_poll(p.routes@).len() > 0,
    ensures
        poll_pick(p, (k + alive_poll(p.routes@).len()) as nat) == poll_pick(p, k),
{
    let n = alive_poll(p.routes@).len() as int;
    lemma_poll_pick_formula(p, k);
    lemma_poll_pick_formula(p, (k + n) as nat);
    vstd::arithmetic::div_mod::lemma_mod_multiples_vanish(1, p.current_index + 1 + k, n);
}

/// One target of a random strategy.
#[derive(Debug, PartialEq, Default)]
pub struct RandomBaseRoute {
    pub base_route: BaseRoute,
}

impl Clone for RandomBaseRoute {
    fn clone(&self) -> (res: RandomBaseRoute)
        ensures
            res == *self,
    {
        RandomBaseRoute { base_route: self.base_route.clone() }
    }
}

/// Uniformly random selection over the alive subset.
#[derive(Debug, PartialEq, Default)]
pub struct RandomRoute {
    pub routes: Vec<RandomBaseRoute>,
}

impl Clone for RandomRoute {
    fn clone(&self) -> (res: RandomRoute)
        ensures
            res.routes@ == self.routes@,
    {
        let routes = self.routes.clone();
        proof {
            assert(routes@ =~= self.routes@);
        }
        RandomRoute { routes }
    }
}

/// The alive targets of a random strategy, in declared order.
pub open spec fn alive_random(routes: Seq<RandomBaseRoute>) -> Seq<BaseRoute> {
    routes.map_values(|t: RandomBaseRoute| t.base_route).filter(
        |b: BaseRoute| alive_flag(b.is_alive),
    )
}

impl RandomRoute {
    /// All targets, dead ones included, for health reporting.
    pub fn get_all_route(&mut self) -> (r: Result<Vec<BaseRoute>, AppError>)
        ensures
            *final(self) == *old(self),
            r is Ok && r->Ok_0@ == old(self).routes@.map_values(|t: RandomBaseRoute| t.base_route),
    {
        let mut out: Vec<BaseRoute> = Vec::new();
        let n = self.routes.len();
        let mut i: usize = 0;
        while i < n
            invariant
                i <= n,
                n == self.routes@.len(),
                out@ =~= self.routes@.subrange(0, i as int).map_values(
                    |t: RandomBaseRoute| t.base_route,
                ),
            decreases n - i,
        {
            out.push(self.routes[i].base_route.clone());
            proof {
                assert(out@ =~= self.routes@.subrange(0, i + 1).map_values(
                    |t: RandomBaseRoute| t.base_route,
                ));
            }
            i = i + 1;
        }
        proof {
            assert(self.routes@.subrange(0, n as int) =~= self.routes@);
        }
        Ok(out)
    }

    /// Select an alive target at random. Fails exactly when no target is
    /// alive; the target list is never changed.
    pub fn get_route(&mut self, headers: &Headers) -> (r: Result<BaseRoute, AppError>)
        ensures
            *final(self) == *old(self),
            alive_random(old(self).routes@).len() == 0 <==> r is Err,
            r is Ok ==> alive_random(old(self).routes@).contains(r->Ok_0),
    {
        let mut alive: Vec<BaseRoute> = Vec::new();
        let n = self.routes.len();
        let mut i: usize = 0;
        proof {
            assert(self.routes@.subrange(0, 0).map_values(|t: RandomBaseRoute| t.base_route)
                =~= Seq::<BaseRoute>::empty());
        }
        while i < n
            invariant
                i <= n,
                n == self.routes@.len(),
                alive@ == alive_random(self.routes@.subrange(0, i as int)),
            decreases n - i,
        {
            proof {
                let mapped = self.routes@.subrange(0, i as int).map_values(
                    |t: RandomBaseRoute| t.base_route,
                );
                mapped.lemma_filter_push(
                    self.routes@[i as int].base_route,
                    |b: BaseRoute| alive_flag(b.is_alive),
                );
                assert(mapped.push(self.routes@[i as int].base_route) =~= self.routes@.subrange(
                    0,
                    i + 1,
                ).map_values(|t: RandomBaseRoute| t.base_route));
            }
            if is_alive_flag(&self.routes[i].base_route.is_alive) {
                alive.push(self.routes[i].base_route.clone());
            }
            i = i + 1;
        }
        proof {
            assert(self.routes@.subrange(0, n as int) =~= self.routes@);
        }
        if alive.len() == 0 {
            return Err(AppError(String::from_str("Can not find alive host in the clusters")));
        }
        let index = random_below(alive.len());
        let dst = alive[index].clone();
        proof {
            assert(alive_random(old(self).routes@).contains(alive@[index as int]));
        }
        Ok(dst)
    }
}

/// One weighted target: the target and its share of the traffic.
#[derive(Debug, PartialEq, Default)]
pub struct WeightRouteNestedItem {
    pub base_route: BaseRoute,
    pub weight: u64,
}

impl Clone for WeightRouteNestedItem {
    fn clone(&self) -> (res: WeightRouteNestedItem)
        ensures
            res == *self,
    {
        WeightRouteNestedItem { base_route: self.base_route.clone(), weight: self.weight }
    }
}

/// Weighted selection: a cumulative walk that serves each alive target
/// `weight` times before moving to the next, tracked by the `index` and
/// `offset` cursors.
#[derive(Debug, PartialEq, Default)]
pub struct WeightRoute {
    pub routes: Vec<WeightRouteNestedItem>,
    pub index: u64,
    pub offset: u64,
}

impl Clone for WeightRoute {
    fn clone(&self) -> (res: WeightRoute)
        ensures
            res.routes@ == self.routes@,
            res.index == self.index,
            res.offset == self.offset,
    {
        let routes = self.routes.clone();
        proof {
            assert(routes@ =~= self.routes@);
        }
        WeightRoute { routes, index: self.index, offset: self.offset }
    }
}

/// Whether some target could ever be selected: alive and of positive
/// weight. Without one the cumulative walk would never stop.
pub open spec fn weight_selectable(routes: Seq<WeightRouteNestedItem>) -> bool {
    exists|j: int|
        0 <= j < routes.len() && #[trigger] routes[j].weight > 0 && alive_flag(
            routes[j].base_route.is_alive,
        )
}

/// The cumulative-weight walk: take the current target while its weight
/// exceeds the offset and it is alive; otherwise reset the offset and move
/// on, wrapping at the end. `fuel` bounds the number of steps.
pub open spec fn weight_walk(
    routes: Seq<WeightRouteNestedItem>,
    index: int,
    offset: int,
    fuel: nat,
) -> Option<(int, int)>
    decreases fuel,
{
    if fuel == 0 || routes.len() == 0 || !(0 <= index < routes.len()) {
        None
    } else {
        let item = routes[index];
        if item.weight > offset && alive_flag(item.base_route.is_alive) {
            Some((index, offset))
        } else {
            weight_walk(routes, (index + 1) % (routes.len() as int), 0, (fuel - 1) as nat)
        }
    }
}

/// What one weighted step yields from a strategy state: the selected
/// target and the new cursors, or nothing when the cursor is out of range
/// or no target is selectable.
pub open spec fn weight_next(w: WeightRoute) -> Option<(BaseRoute, u64, u64)> {
    if w.routes@.len() == 0 || w.index as int >= w.routes@.len() {
        None
    } else {
        match weight_walk(w.routes@, w.index as int, w.offset as int, (w.routes@.len() + 1) as nat) {
            Some(t) => Some((w.routes@[t.0].base_route, t.0 as u64, (t.1 + 1) as u64)),
            None => None,
        }
    }
}

/// From any start, a walk with a positive-weight alive target at distance
/// `d` and more than `d` steps of fuel succeeds once the offset is reset.
proof fn lemma_weight_walk_reaches(
    routes: Seq<WeightRouteNestedItem>,
    index: int,
    j: int,
    fuel: nat,
)
    requires
        0 <= index < routes.len(),
        0 <= j < routes.len(),
        routes[j].weight > 0,
        alive_flag(routes[j].base_route.is_alive),
        fuel > if j >= index {
            j - index
        } else {
            j - index + routes.len()
        },
    ensures
        weight_walk(routes, index, 0, fuel) is Some,
    decreases (if j >= index {
        j - index
    } else {
        j - index + routes.len()
    }),
{
    let len = routes.len() as int;
    let item = routes[index];
    if item.weight > 0 && alive_flag(item.base_route.is_alive) {
    } else {
        assert(index != j);
        let next = (index + 1) % len;
        assert(next == (if index + 1 < len {
            index + 1
        } else {
            0
        })) by {
            if index + 1 < len {
                lemma_small_mod((index + 1) as nat, len as nat);
            } else {
                lemma_mod_self_0(len);
            }
        }
        lemma_weight_walk_reaches(routes, next, j, (fuel - 1) as nat);
    }
}

/// With a selectable target somewhere, the walk finds one within one full
/// cycle of fuel.
pub proof fn lemma_weight_walk_succeeds(routes: Seq<WeightRouteNestedItem>, index: int, offset: int)
    requires
        0 <= index < routes.len(),
        weight_selectable(routes),
        offset >= 0,
    ensures
        weight_walk(routes, index, offset, (routes.len() + 1) as nat) is Some,
{
    let len = routes.len() as int;
    let item = routes[index];
    if item.weight > offset && alive_flag(item.base_route.is_alive) {
    } else {
        let j = choose|j: int|
            0 <= j < routes.len() && #[trigger] routes[j].weight > 0 && alive_flag(
                routes[j].base_route.is_alive,
            );
        let next = (index + 1) % len;
        assert(next == (if index + 1 < len {
            index + 1
        } else {
            0
        })) by {
            if index + 1 < len {
                lemma_small_mod((index + 1) as nat, len as nat);
            } else {
                lemma_mod_self_0(len);
            }
        }
        lemma_weight_walk_reaches(routes, next, j, len as nat);
    }
}

impl WeightRoute {
    /// All targets, dead ones included, for health reporting.
    pub fn get_all_route(&mut self) -> (r: Result<Vec<BaseRoute>, AppError>)
        ensures
            *final(self) == *old(self),
            r is Ok && r->Ok_0@ == old(self).routes@.map_values(
                |t: WeightRouteNestedItem| t.base_route,
            ),
    {
        let mut out: Vec<BaseRoute> = Vec::new();
        let n = self.routes.len();
        let mut i: usize = 0;
        while i < n
            invariant
                i <= n,
                n == self.routes@.len(),
                out@ =~= self.routes@.subrange(0, i as int).map_values(
                    |t: WeightRouteNestedItem| t.base_route,
                ),
            decreases n - i,
        {
            out.push(self.routes[i].base_route.clone());
            proof {
                assert(out@ =~= self.routes@.subrange(0, i + 1).map_values(
                    |t: WeightRouteNestedItem| t.base_route,
                ));
            }
            i = i + 1;
        }
        proof {
            assert(self.routes@.subrange(0, n as int) =~= self.routes@);
        }
        Ok(out)
    }

    /// Advance the cumulative-weight walk and return the selected target.
    /// Fails exactly when the cursor is out of range or no alive target
    /// has positive weight; the target list is never changed.
    pub fn get_route(&mut self, headers: &Headers) -> (r: Result<BaseRoute, AppError>)
        ensures
            final(self).routes@ == old(self).routes@,
            match weight_next(*old(self)) {
                Some(t) => r is Ok && r->Ok_0 == t.0 && final(self).index == t.1
                    && final(self).offset == t.2,
                None => r is Err && final(self).index == old(self).index && final(self).offset
                    == old(self).offset,
            },
    {
        let n = self.routes.len();
        if n == 0 || self.index >= (n as u64) {
            return Err(AppError(String::from_str("")));
        }
        let ghost routes0 = self.routes@;
        let ghost index0 = self.index as int;
        let ghost offset0 = self.offset as int;
        let ghost fuel0 = (n + 1) as nat;
        let mut index: usize = self.index as usize;
        let mut offset: u64 = self.offset;
        let mut remaining: usize = n;
        loop
            invariant
                *self == *old(self),
                routes0 == old(self).routes@,
                index0 == old(self).index as int,
                offset0 == old(self).offset as int,
                fuel0 == (n + 1) as nat,
                n == routes0.len(),
                n > 0,
                0 <= index < n,
                remaining <= n,
                weight_walk(routes0, index0, offset0, fuel0) == weight_walk(
                    routes0,
                    index as int,
                    offset as int,
                    (remaining + 1) as nat,
                ),
            decreases remaining,
        {
            let w = self.routes[index].weight;
            let al = is_alive_flag(&self.routes[index].base_route.is_alive);
            if w > offset && al {
                let chosen = self.routes[index].base_route.clone();
                proof {
                    assert(weight_walk(
                        routes0,
                        index as int,
                        offset as int,
                        (remaining + 1) as nat,
                    ) == Some((index as int, offset as int)));
                }
                self.index = index as u64;
                self.offset = offset + 1;
                return Ok(chosen);
            }
            proof {
                assert(weight_walk(routes0, index as int, offset as int, (remaining + 1) as nat)
                    == weight_walk(
                    routes0,
                    (index as int + 1) % (routes0.len() as int),
                    0,
                    remaining as nat,
                ));
            }
            if remaining == 0 {
                proof {
                    assert(weight_walk(routes0, index0, offset0, fuel0) is None);
                }
                return Err(
                    AppError(String::from_str("Can not find alive host in the clusters")),
                );
            }
            index = (index + 1) % n;
            offset = 0;
            remaining = remaining - 1;
        }
    }
}

/// One segment rule: the delimiter and the tokens that must all be present
/// in the delimited header value.
#[derive(Debug, PartialEq)]
pub struct SplitSegment {
    pub split_by: String,
    pub split_list: Vec<String>,
}

impl Clone for SplitSegment {
    fn clone(&self) -> (res: SplitSegment)
        ensures
            res.split_by == self.split_by,
            res.split_list@ == self.split_list@,
    {
        let split_list = self.split_list.clone();
        proof {
            assert(split_list@ =~= self.split_list@);
        }
        SplitSegment { split_by: self.split_by.clone(), split_list }
    }
}

/// One header name/value pair, as configuration data.
#[derive(Debug, Clone, PartialEq)]
pub struct SplitItem {
    pub header_key: String,
    pub header_value: String,
}

/// A regular-expression rule on a header value.
#[derive(Debug, PartialEq)]
pub struct RegexMatch {
    pub value: String,
}

impl Clone for RegexMatch {
    fn clone(&self) -> (res: RegexMatch)
        ensures
            res == *self,
    {
        RegexMatch { value: self.value.clone() }
    }
}

/// An exact-text rule on a header value.
#[derive(Debug, PartialEq)]
pub struct TextMatch {
    pub value: String,
}

impl Clone for TextMatch {
    fn clone(&self) -> (res: TextMatch)
        ensures
            res == *self,
    {
        TextMatch { value: self.value.clone() }
    }
}

/// How a header value is tested: by regular expression, by exact text, or
/// by membership of every configured token in the delimited value.
#[derive(Debug, PartialEq)]
pub enum HeaderValueMappingType {
    Regex(RegexMatch),
    Text(TextMatch),
    Split(SplitSegment),
}

/// One target of a header strategy, with the header it inspects and the
/// rule on that header's value.
#[derive(Debug, PartialEq)]
pub struct HeaderRouteNestedItem {
    pub base_route: BaseRoute,
    pub header_key: String,
    pub header_value_mapping_type: HeaderValueMappingType,
}

/// Header-driven selection: the first alive target whose rule matches the
/// request wins; with no match the first alive target serves.
#[derive(Debug, PartialEq, Default)]
pub struct HeaderRoute {
    pub routes: Vec<HeaderRouteNestedItem>,
}

/// The alive targets of a header strategy, in declared order.
pub open spec fn alive_header(routes: Seq<HeaderRouteNestedItem>) -> Seq<HeaderRouteNestedItem> {
    routes.filter(|t: HeaderRouteNestedItem| alive_flag(t.base_route.is_alive))
}

/// Whether a delimited header value satisfies a segment rule: every
/// configured token occurs among the pieces of the value.
pub open spec fn split_rule_matches(seg: SplitSegment, value: Seq<char>) -> bool {
    let parts = split_chars(value, seg.split_by@);
    parts.len() > 0 && (forall|i: int|
        0 <= i < seg.split_list@.len() ==> #[trigger] parts.contains(seg.split_list@[i]@))
}

/// What one rule says of a header value: `None` when its regular
/// expression does not compile, otherwise whether it matches.
pub open spec fn spec_rule_decision(item: HeaderRouteNestedItem, value: Seq<char>) -> Option<bool> {
    match item.header_value_mapping_type {
        HeaderValueMappingType::Regex(rm) => if regex_pattern_ok(rm.value@) {
            Some(regex_matches(rm.value@, value))
        } else {
            None
        },
        HeaderValueMappingType::Text(tm) => Some(tm.value@ == value),
        HeaderValueMappingType::Split(seg) => Some(split_rule_matches(seg, value)),
    }
}

/// The outcome of scanning rules in order: the position of the first item
/// whose rule matches, a broken rule, or no match at all.
pub enum HeaderScan {
    Hit(int),
    BadPattern,
    Miss,
}

/// A scan outcome seen from one item earlier in the list.
pub open spec fn shift_scan(s: HeaderScan) -> HeaderScan {
    match s {
        HeaderScan::Hit(i) => HeaderScan::Hit(i + 1),
        _ => s,
    }
}

/// A scan outcome seen from `k` items earlier in the list.
pub open spec fn shift_scan_by(s: HeaderScan, k: int) -> HeaderScan {
    match s {
        HeaderScan::Hit(i) => HeaderScan::Hit(i + k),
        _ => s,
    }
}

/// Scan items in order against the request headers: an item whose header
/// is absent or whose rule does not match is passed over; the first match
/// wins; a rule whose pattern does not compile stops the scan.
pub open spec fn spec_scan_header(
    items: Seq<HeaderRouteNestedItem>,
    entries: Seq<HeaderEntry>,
) -> HeaderScan
    decreases items.len(),
{
    if items.len() == 0 {
        HeaderScan::Miss
    } else {
        match spec_header_lookup(entries, items[0].header_key@) {
            None => shift_scan(spec_scan_header(items.skip(1), entries)),
            Some(value) => match spec_rule_decision(items[0], value) {
                None => HeaderScan::BadPattern,
                Some(m) => if m {
                    HeaderScan::Hit(0)
                } else {
                    shift_scan(spec_scan_header(items.skip(1), entries))
                },
            },
        }
    }
}

/// What header selection yields: the scan's hit, or the first alive target
/// as fallback; nothing when a rule is broken or no target is alive.
pub open spec fn header_next(h: HeaderRoute, entries: Seq<HeaderEntry>) -> Option<BaseRoute> {
    let alive = alive_header(h.routes@);
    match spec_scan_header(alive, entries) {
        HeaderScan::Hit(i) => if 0 <= i < alive.len() {
            Some(alive[i].base_route)
        } else {
            None
        },
        HeaderScan::BadPattern => None,
        HeaderScan::Miss => if alive.len() > 0 {
            Some(alive[0].base_route)
        } else {
            None
        },
    }
}

/// Whether `token` occurs among `parts`, executable.
fn parts_contain(parts: &Vec<String>, token: &String) -> (r: bool)
    ensures
        r == parts@.map_values(|p: String| p@).contains(token@),
{
    let n = parts.len();
    let mut i: usize = 0;
    while i < n
        invariant
            i <= n,
            n == parts@.len(),
            forall|j: int| 0 <= j < i ==> parts@[j]@ != token@,
        decreases n - i,
    {
        if str_equal(parts[i].as_str(), token.as_str()) {
            proof {
                let pv = parts@.map_values(|p: String| p@);
                assert(pv[i as int] == token@);
            }
            return true;
        }
        i = i + 1;
    }
    proof {
        let pv = parts@.map_values(|p: String| p@);
        if pv.contains(token@) {
            let j = choose|j: int| 0 <= j < pv.len() && pv[j] == token@;
            assert(parts@[j]@ == token@);
        }
    }
    false
}

/// Whether a delimited header value satisfies a segment rule, executable.
fn split_segment_matches(seg: &SplitSegment, value: &String) -> (r: bool)
    ensures
        r == split_rule_matches(*seg, value@),
{
    let parts = str_split(value, &seg.split_by);
    let ghost pv = split_chars(value@, seg.split_by@);
    assert(parts@.map_values(|p: String| p@) == pv);
    if parts.len() == 0 {
        return false;
    }
    let n = seg.split_list.len();
    let mut i: usize = 0;
    while i < n
        invariant
            i <= n,
            n == seg.split_list@.len(),
            pv == split_chars(value@, seg.split_by@),
            parts@.map_values(|p: String| p@) == pv,
            forall|j: int| 0 <= j < i ==> #[trigger] pv.contains(seg.split_list@[j]@),
        decreases n - i,
    {
        if !parts_contain(&parts, &seg.split_list[i]) {
            return false;
        }
        i = i + 1;
    }
    true
}

impl HeaderRoute {
    /// All targets, dead ones included, for health reporting.
    pub fn get_all_route(&mut self) -> (r: Result<Vec<BaseRoute>, AppError>)
        ensures
            *final(self) == *old(self),
            r is Ok && r->Ok_0@ == old(self).routes@.map_values(
                |t: HeaderRouteNestedItem| t.base_route,
            ),
    {
        let mut out: Vec<BaseRoute> = Vec::new();
        let n = self.routes.len();
        let mut i: usize = 0;
        while i < n
            invariant
                i <= n,
                n == self.routes@.len(),
                out@ =~= self.routes@.subrange(0, i as int).map_values(
                    |t: HeaderRouteNestedItem| t.base_route,
                ),
            decreases n - i,
        {
            out.push(self.routes[i].base_route.clone());
            proof {
                assert(out@ =~= self.routes@.subrange(0, i + 1).map_values(
                    |t: HeaderRouteNestedItem| t.base_route,
                ));
            }
            i = i + 1;
        }
        proof {
            assert(self.routes@.subrange(0, n as int) =~= self.routes@);
        }
        Ok(out)
    }

    /// Select the first alive target whose header rule matches the
    /// request, falling back to the first alive target. Fails exactly when
    /// a rule's pattern does not compile before any match, or when no
    /// target is alive; the target list is never changed.
    pub fn get_route(&mut self, headers: &Headers) -> (r: Result<BaseRoute, AppError>)
        ensures
            *final(self) == *old(self),
            match header_next(*old(self), headers.entries@) {
                Some(b) => r is Ok && r->Ok_0 == b,
                None => r is Err,
            },
    {
        let n = self.routes.len();
        let mut idxs: Vec<usize> = Vec::new();
        let mut i: usize = 0;
        proof {
            assert(self.routes@.subrange(0, 0) =~= Seq::<HeaderRouteNestedItem>::empty());
            assert(idxs@.map_values(|k: usize| self.routes@[k as int]) =~= alive_header(
                self.routes@.subrange(0, 0),
            ));
        }
        while i < n
            invariant
                i <= n,
                n == self.routes@.len(),
                forall|j: int| 0 <= j < idxs@.len() ==> #[trigger] idxs@[j] < i,
                idxs@.map_values(|k: usize| self.routes@[k as int]) == alive_header(
                    self.routes@.subrange(0, i as int),
                ),
            decreases n - i,
        {
            proof {
                self.routes@.subrange(0, i as int).lemma_filter_push(
                    self.routes@[i as int],
                    |t: HeaderRouteNestedItem| alive_flag(t.base_route.is_alive),
                );
                assert(self.routes@.subrange(0, i as int).push(self.routes@[i as int])
                    =~= self.routes@.subrange(0, i + 1));
            }
            if is_alive_flag(&self.routes[i].base_route.is_alive) {
                let ghost prev = idxs@;
                idxs.push(i);
                proof {
                    assert(idxs@.map_values(|k: usize| self.routes@[k as int]) =~= prev.map_values(
                        |k: usize| self.routes@[k as int],
                    ).push(self.routes@[i as int]));
                }
            }
            i = i + 1;
        }
        proof {
            assert(self.routes@.subrange(0, n as int) =~= self.routes@);
        }
        let ghost alive0 = alive_header(self.routes@);
        let alive_len = idxs.len();
        let mut j: usize = 0;
        proof {
            assert(alive0.skip(0) =~= alive0);
        }
        while j < alive_len
            invariant
                j <= alive_len,
                alive_len == alive0.len(),
                n == self.routes@.len(),
                alive0 == alive_header(self.routes@),
                idxs@.map_values(|k: usize| self.routes@[k as int]) == alive0,
                forall|p: int| 0 <= p < idxs@.len() ==> #[trigger] idxs@[p] < n,
                spec_scan_header(alive0, headers.entries@) == shift_scan_by(
                    spec_scan_header(alive0.skip(j as int), headers.entries@),
                    j as int,
                ),
            decreases alive_len - j,
        {
            let k = idxs[j];
            proof {
                assert(alive0[j as int] == idxs@.map_values(|k2: usize| self.routes@[k2 as int])[
                    j as int
                ]);
                assert(alive0.skip(j as int)[0] == alive0[j as int]);
                assert(alive0.skip(j as int).skip(1) =~= alive0.skip(j + 1));
            }
            let item_matched: bool;
            match headers.get(self.routes[k].header_key.as_str()) {
                None => {
                    item_matched = false;
                },
                Some(value) => {
                    match &self.routes[k].header_value_mapping_type {
                        HeaderValueMappingType::Regex(rm) => {
                            match regex_match(rm.value.as_str(), value.as_str()) {
                                None => {
                                    return Err(
                                        AppError(
                                            String::from_str(
                                                "invalid regex in the header route rule",
                                            ),
                                        ),
                                    );
                                },
                                Some(m) => {
                                    item_matched = m;
                                },
                            }
                        },
                        HeaderValueMappingType::Text(tm) => {
                            item_matched = str_equal(tm.value.as_str(), value.as_str());
                        },
                        HeaderValueMappingType::Split(seg) => {
                            item_matched = split_segment_matches(seg, value);
                        },
                    }
                },
            }
            if item_matched {
                return Ok(self.routes[k].base_route.clone());
            }
            j = j + 1;
        }
        proof {
            assert(alive0.skip(alive_len as int) =~= Seq::<HeaderRouteNestedItem>::empty());
        }
        if alive_len > 0 {
            let k0 = idxs[0];
            proof {
                assert(alive0[0] == idxs@.map_values(|k2: usize| self.routes@[k2 as int])[0]);
            }
            return Ok(self.routes[k0].base_route.clone());
        }
        Err(AppError(String::from_str("Can not find alive host in the clusters")))
    }
}

/// The strategy of one route: a closed set of four selection algorithms,
/// dispatched as a sum type.
#[derive(Debug, PartialEq)]
pub enum LoadbalancerStrategy {
    PollRoute(PollRoute),
    HeaderRoute(HeaderRoute),
    RandomRoute(RandomRoute),
    WeightRoute(WeightRoute),
}

impl Clone for HeaderRoute {
    fn clone(&self) -> (res: HeaderRoute)
        ensures
            res.routes@.len() == self.routes@.len(),
            forall|i: int|
                0 <= i < self.routes@.len() ==> (#[trigger] res.routes@[i]).base_route
                    == self.routes@[i].base_route && res.routes@[i].header_key
                    == self.routes@[i].header_key,
    {
        let routes = self.routes.clone();
        HeaderRoute { routes }
    }
}

impl Clone for HeaderRouteNestedItem {
    fn clone(&self) -> (res: HeaderRouteNestedItem)
        ensures
            res.base_route == self.base_route,
            res.header_key == self.header_key,
            match self.header_value_mapping_type {
                HeaderValueMappingType::Split(seg) => res.header_value_mapping_type
                    matches HeaderValueMappingType::Split(s2) && s2.split_by == seg.split_by
                    && s2.split_list@ == seg.split_list@,
                _ => res.header_value_mapping_type == self.header_value_mapping_type,
            },
    {
        HeaderRouteNestedItem {
            base_route: self.base_route.clone(),
            header_key: self.header_key.clone(),
            header_value_mapping_type: self.header_value_mapping_type.clone(),
        }
    }
}

impl Clone for HeaderValueMappingType {
    fn clone(&self) -> (res: HeaderValueMappingType)
        ensures
            match *self {
                HeaderValueMappingType::Split(seg) => res matches HeaderValueMappingType::Split(
                    s2,
                ) && s2.split_by == seg.split_by && s2.split_list@ == seg.split_list@,
                _ => res == *self,
            },
    {
        match self {
            HeaderValueMappingType::Regex(rm) => HeaderValueMappingType::Regex(rm.clone()),
            HeaderValueMappingType::Text(tm) => HeaderValueMappingType::Text(tm.clone()),
            HeaderValueMappingType::Split(seg) => HeaderValueMappingType::Split(seg.clone()),
        }
    }
}

/// The targets a strategy holds, in declared order, dead ones included.
pub open spec fn strategy_targets(s: LoadbalancerStrategy) -> Seq<BaseRoute> {
    match s {
        LoadbalancerStrategy::PollRoute(p) => p.routes@.map_values(|t: PollBaseRoute| t.base_route),
        LoadbalancerStrategy::HeaderRoute(h) => h.routes@.map_values(
            |t: HeaderRouteNestedItem| t.base_route,
        ),
        LoadbalancerStrategy::RandomRoute(r) => r.routes@.map_values(
            |t: RandomBaseRoute| t.base_route,
        ),
        LoadbalancerStrategy::WeightRoute(w) => w.routes@.map_values(
            |t: WeightRouteNestedItem| t.base_route,
        ),
    }
}

impl LoadbalancerStrategy {
    /// Select one target by this strategy's rule; see each strategy's
    /// `get_route` for its exact behaviour.
    pub fn get_route(&mut self, headers: &Headers) -> (r: Result<BaseRoute, AppError>)
        requires
            match *old(self) {
                LoadbalancerStrategy::PollRoute(p) => 0 <= p.current_index < i64::MAX
                    && p.routes@.len() <= i64::MAX,
                _ => true,
            },
        ensures
            match *old(self) {
                LoadbalancerStrategy::PollRoute(p) => match *final(self) {
                    LoadbalancerStrategy::PollRoute(pf) => pf.routes@ == p.routes@ && match
                        poll_next(p) {
                        Some(t) => r is Ok && r->Ok_0 == t.0 && pf.current_index == t.1,
                        None => r is Err && pf.current_index == p.current_index,
                    },
                    _ => false,
                },
                LoadbalancerStrategy::HeaderRoute(h) => *final(self) == *old(self) && match
                    header_next(h, headers.entries@) {
                    Some(b) => r is Ok && r->Ok_0 == b,
                    None => r is Err,
                },
                LoadbalancerStrategy::RandomRoute(rr) => *final(self) == *old(self) && (
                alive_random(rr.routes@).len() == 0 <==> r is Err) && (r is Ok ==> alive_random(
                    rr.routes@,
                ).contains(r->Ok_0)),
                LoadbalancerStrategy::WeightRoute(w) => match *final(self) {
                    LoadbalancerStrategy::WeightRoute(wf) => wf.routes@ == w.routes@ && match
                        weight_next(w) {
                        Some(t) => r is Ok && r->Ok_0 == t.0 && wf.index == t.1 && wf.offset
                            == t.2,
                        None => r is Err && wf.index == w.index && wf.offset == w.offset,
                    },
                    _ => false,
                },
            },
    {
        match self {
            LoadbalancerStrategy::PollRoute(poll_route) => poll_route.get_route(headers),
            LoadbalancerStrategy::HeaderRoute(header_route) => header_route.get_route(headers),
            LoadbalancerStrategy::RandomRoute(random_route) => random_route.get_route(headers),
            LoadbalancerStrategy::WeightRoute(weight_route) => weight_route.get_route(headers),
        }
    }

    /// All targets of the active strategy, dead ones included.
    pub fn get_all_route(&mut self) -> (r: Result<Vec<BaseRoute>, AppError>)
        ensures
            *final(self) == *old(self),
            r is Ok && r->Ok_0@ == strategy_targets(*old(self)),
    {
        match self {
            LoadbalancerStrategy::PollRoute(poll_route) => poll_route.get_all_route(),
            LoadbalancerStrategy::HeaderRoute(header_route) => header_route.get_all_route(),
            LoadbalancerStrategy::RandomRoute(random_route) => random_route.get_all_route(),
            LoadbalancerStrategy::WeightRoute(weight_route) => weight_route.get_all_route(),
        }
    }

    /// How many targets the active strategy holds.
    pub fn get_routes_len(&self) -> (r: usize)
        ensures
            r == strategy_targets(*self).len(),
    {
        match self {
            LoadbalancerStrategy::PollRoute(poll_route) => poll_route.routes.len(),
            LoadbalancerStrategy::HeaderRoute(header_route) => header_route.routes.len(),
            LoadbalancerStrategy::RandomRoute(random_route) => random_route.routes.len(),
            LoadbalancerStrategy::WeightRoute(weight_route) => weight_route.routes.len(),
        }
    }
}

impl Clone for LoadbalancerStrategy {
    fn clone(&self) -> (res: LoadbalancerStrategy)
        ensures
            strategy_targets(res) == strategy_targets(*self),
            match *self {
                LoadbalancerStrategy::PollRoute(p) => res matches LoadbalancerStrategy::PollRoute(
                    q,
                ) && q.routes@ == p.routes@ && q.current_index == p.current_index,
                LoadbalancerStrategy::HeaderRoute(h) => res
                    matches LoadbalancerStrategy::HeaderRoute(q) && q.routes@.len()
                    == h.routes@.len() && (forall|i: int|
                    0 <= i < h.routes@.len() ==> (#[trigger] q.routes@[i]).base_route
                        == h.routes@[i].base_route),
                LoadbalancerStrategy::RandomRoute(rr) => res
                    matches LoadbalancerStrategy::RandomRoute(q) && q.routes@ == rr.routes@,
                LoadbalancerStrategy::WeightRoute(w) => res
                    matches LoadbalancerStrategy::WeightRoute(q) && q.routes@ == w.routes@
                    && q.index == w.index && q.offset == w.offset,
            },
    {
        let res = match self {
            LoadbalancerStrategy::PollRoute(p) => LoadbalancerStrategy::PollRoute(p.clone()),
            LoadbalancerStrategy::HeaderRoute(h) => LoadbalancerStrategy::HeaderRoute(h.clone()),
            LoadbalancerStrategy::RandomRoute(rr) => LoadbalancerStrategy::RandomRoute(rr.clone()),
            LoadbalancerStrategy::WeightRoute(w) => LoadbalancerStrategy::WeightRoute(w.clone()),
        };
        proof {
            assert(strategy_targets(res) =~= strategy_targets(*self));
        }
        res
    }
}

} // verus!
