//! The DevBind configuration: proxy ports and the domain → port routes.
//!
//! Reading and writing `config.toml` happens outside the library; here the
//! configuration is a value with route operations whose effect is specified
//! over a sequence model of the routes.
use vstd::prelude::*;
use crate::text::{copy_string, str_eq};

verus! {

/// Ports the proxy listens on.
#[derive(Debug, Clone, Copy, PartialEq, Eq)]
pub struct ProxyConfig {
    pub port_http: u16,
    pub port_https: u16,
}

impl Default for ProxyConfig {
    fn default() -> (c: Self)
        ensures
            c.port_http == 80,
            c.port_https == 443,
    {
        ProxyConfig { port_http: 80, port_https: 443 }
    }
}

/// One mapping from a local domain to a local port.
#[derive(Debug, Clone, PartialEq, Eq)]
pub struct RouteConfig {
    pub domain: String,
    pub port: u16,
    /// Set for routes that a `devbind run` session registered for its lifetime.
    pub ephemeral: bool,
}

impl View for RouteConfig {
    type V = (Seq<char>, u16, bool);

    open spec fn view(&self) -> (Seq<char>, u16, bool) {
        (self.domain@, self.port, self.ephemeral)
    }
}

impl Default for RouteConfig {
    fn default() -> (r: Self)
        ensures
            r@ == (Seq::<char>::empty(), 0u16, false),
    {
        RouteConfig { domain: String::new(), port: 0, ephemeral: false }
    }
}

/// UI preferences (the interface follows the system theme, so there are none yet).
#[derive(Debug, Clone, Copy, PartialEq, Eq)]
pub struct UIConfig {}

impl Default for UIConfig {
    fn default() -> (u: Self) {
        UIConfig {}
    }
}

/// The whole configuration file.
#[derive(Debug, Clone, PartialEq, Eq)]
pub struct DevBindConfig {
    pub proxy: ProxyConfig,
    pub routes: Vec<RouteConfig>,
    pub ui: UIConfig,
}

impl Default for DevBindConfig {
    fn default() -> (c: Self)
        ensures
            c.proxy.port_http == 80,
            c.proxy.port_https == 443,
            c.routes@.len() == 0,
    {
        DevBindConfig {
            proxy: ProxyConfig { port_http: 80, port_https: 443 },
            routes: Vec::new(),
            ui: UIConfig {},
        }
    }
}

/// A route model: domain, port, ephemeral flag.
pub type RouteView = (Seq<char>, u16, bool);

/// The model of a list of routes.
pub open spec fn routes_view(routes: Seq<RouteConfig>) -> Seq<RouteView> {
    routes.map_values(|r: RouteConfig| r@)
}

/// Some route has domain `d`.
pub open spec fn has_domain(rs: Seq<RouteView>, d: Seq<char>) -> bool {
    exists|i: int| 0 <= i < rs.len() && (#[trigger] rs[i]).0 == d
}

/// `i` is the first route with domain `d`.
pub open spec fn is_first_match(rs: Seq<RouteView>, d: Seq<char>, i: int) -> bool {
    0 <= i < rs.len() && rs[i].0 == d && forall|j: int| 0 <= j < i ==> (#[trigger] rs[j]).0 != d
}

/// The index of the first route with domain `d` (meaningful when there is one).
pub open spec fn first_match(rs: Seq<RouteView>, d: Seq<char>) -> int {
    choose|i: int| is_first_match(rs, d, i)
}

/// The port the first route for `d` maps to, if any.
pub open spec fn lookup(rs: Seq<RouteView>, d: Seq<char>) -> Option<u16> {
    if has_domain(rs, d) {
        Some(rs[first_match(rs, d)].1)
    } else {
        None
    }
}

/// `add_route`: the first route for `d` gets port `p`; with no such route a
/// new non-ephemeral route is appended.
pub open spec fn spec_add_route(rs: Seq<RouteView>, d: Seq<char>, p: u16) -> Seq<RouteView> {
    if has_domain(rs, d) {
        let i = first_match(rs, d);
        rs.update(i, (rs[i].0, p, rs[i].2))
    } else {
        rs.push((d, p, false))
    }
}

/// `remove_route`: every route for `d` is dropped, the others keep their order.
pub open spec fn spec_remove_route(rs: Seq<RouteView>, d: Seq<char>) -> Seq<RouteView>
    decreases rs.len(),
{
    if rs.len() == 0 {
        rs
    } else if rs.last().0 == d {
        spec_remove_route(rs.drop_last(), d)
    } else {
        spec_remove_route(rs.drop_last(), d).push(rs.last())
    }
}

/// No two routes share a domain.
pub open spec fn unique_domains(rs: Seq<RouteView>) -> bool {
    forall|i: int, j: int| 0 <= i < j < rs.len() ==> (#[trigger] rs[i]).0 != (#[trigger] rs[j]).0
}

/// When some route has domain `d`, there is a first one.
pub proof fn lemma_first_match_exists(rs: Seq<RouteView>, d: Seq<char>)
    requires
        has_domain(rs, d),
    ensures
        is_first_match(rs, d, first_match(rs, d)),
    decreases rs.len(),
{
    let k = choose|k: int| 0 <= k < rs.len() && (#[trigger] rs[k]).0 == d;
    if exists|j: int| 0 <= j < k && (#[trigger] rs[j]).0 == d {
        let j = choose|j: int| 0 <= j < k && (#[trigger] rs[j]).0 == d;
        assert(rs.take(k)[j].0 == d);
        lemma_first_match_exists(rs.take(k), d);
        let f = first_match(rs.take(k), d);
        assert forall|m: int| 0 <= m < f implies (#[trigger] rs[m]).0 != d by {
            assert(rs.take(k)[m] == rs[m]);
        }
        assert(rs.take(k)[f] == rs[f]);
        assert(is_first_match(rs, d, f));
    } else {
        assert(is_first_match(rs, d, k));
    }
}

fn copy_route(r: &RouteConfig) -> (c: RouteConfig)
    ensures
        c@ == r@,
{
    RouteConfig { domain: copy_string(&r.domain), port: r.port, ephemeral: r.ephemeral }
}

impl DevBindConfig {
    /// Adds a route (used for ephemeral sessions; the caller decides whether to
    /// persist it). When `domain` is already routed, the first such route gets
    /// the new port instead.
    pub fn add_route(&mut self, domain: String, port: u16)
        ensures
            routes_view(final(self).routes@) == spec_add_route(routes_view(old(self).routes@), domain@, port),
            final(self).proxy == old(self).proxy,
            final(self).ui == old(self).ui,
    {
        let ghost rs = routes_view(self.routes@);
        let mut i: usize = 0;
        while i < self.routes.len()
            invariant
                i <= self.routes@.len(),
                rs == routes_view(self.routes@),
                rs == routes_view(old(self).routes@),
                self.proxy == old(self).proxy,
                self.ui == old(self).ui,
                forall|j: int| 0 <= j < i ==> (#[trigger] rs[j]).0 != domain@,
            decreases self.routes@.len() - i,
        {
            if str_eq(self.routes[i].domain.as_str(), domain.as_str()) {
                proof {
                    assert(is_first_match(rs, domain@, i as int));
                    lemma_first_match_exists(rs, domain@);
                    let f = first_match(rs, domain@);
                    if f < i {
                        assert(rs[f].0 != domain@);
                    } else if f > i {
                        assert(rs[i as int].0 == domain@);
                    }
                }
                let old_route = copy_route(&self.routes[i]);
                self.routes.set(i, RouteConfig { domain: old_route.domain, port, ephemeral: old_route.ephemeral });
                assert(routes_view(self.routes@) =~= spec_add_route(rs, domain@, port));
                return;
            }
            i = i + 1;
        }
        self.routes.push(RouteConfig { domain, port, ephemeral: false });
        assert(routes_view(self.routes@) =~= rs.push((domain@, port, false)));
    }

    /// Removes every route for `domain`.
    pub fn remove_route(&mut self, domain: &str)
        ensures
            routes_view(final(self).routes@) == spec_remove_route(routes_view(old(self).routes@), domain@),
            final(self).proxy == old(self).proxy,
            final(self).ui == old(self).ui,
    {
        let ghost rs = routes_view(self.routes@);
        let mut kept: Vec<RouteConfig> = Vec::new();
        let mut i: usize = 0;
        while i < self.routes.len()
            invariant
                i <= self.routes@.len(),
                rs == routes_view(self.routes@),
                rs == routes_view(old(self).routes@),
                self.proxy == old(self).proxy,
                self.ui == old(self).ui,
                routes_view(kept@) == spec_remove_route(rs.take(i as int), domain@),
            decreases self.routes@.len() - i,
        {
            assert(rs.take(i + 1).drop_last() =~= rs.take(i as int));
            if !str_eq(self.routes[i].domain.as_str(), domain) {
                kept.push(copy_route(&self.routes[i]));
                assert(routes_view(kept@) =~= spec_remove_route(rs.take(i as int), domain@).push(rs[i as int]));
            }
            i = i + 1;
        }
        assert(rs.take(rs.len() as int) =~= rs);
        self.routes = kept;
    }
}

// ── laws ─────────────────────────────────────────────────────────────────────

/// After `add_route(d, p)`, `d` routes to `p`.
pub proof fn law_add_then_lookup(rs: Seq<RouteView>, d: Seq<char>, p: u16)
    ensures
        lookup(spec_add_route(rs, d, p), d) == Some(p),
{
    let r = spec_add_route(rs, d, p);
    if has_domain(rs, d) {
        lemma_first_match_exists(rs, d);
        let i = first_match(rs, d);
        assert(r[i].0 == d);
        assert(is_first_match(r, d, i));
        lemma_first_match_exists(r, d);
        let f = first_match(r, d);
        if f < i {
            assert(r[f] == rs[f]);
        } else if f > i {
            assert(r[i].0 == d);
        }
    } else {
        assert(r[rs.len() as int].0 == d);
        assert(is_first_match(r, d, rs.len() as int));
        lemma_first_match_exists(r, d);
        let f = first_match(r, d);
        if f < rs.len() {
            assert(r[f] == rs[f]);
        }
    }
}

/// `add_route` never changes what other domains route to.
pub proof fn law_add_keeps_other_domains(rs: Seq<RouteView>, d: Seq<char>, p: u16, other: Seq<char>)
    requires
        other != d,
    ensures
        lookup(spec_add_route(rs, d, p), other) == lookup(rs, other),
{
    let r = spec_add_route(rs, d, p);
    lemma_add_shape(rs, d, p);
    if has_domain(rs, other) {
        lemma_first_match_exists(rs, other);
        let i = first_match(rs, other);
        assert(r[i].0 == other);
        assert(is_first_match(r, other, i));
        lemma_first_match_exists(r, other);
        let f = first_match(r, other);
        if f < i {
            assert(r[f].0 == rs[f].0);
        } else if f > i {
            assert(r[i].0 == other);
        }
        if i != first_match(rs, d) || !has_domain(rs, d) {
            assert(r[i] == rs[i]);
        }
    } else {
        if has_domain(r, other) {
            let k = choose|k: int| 0 <= k < r.len() && (#[trigger] r[k]).0 == other;
            if k < rs.len() {
                assert(rs[k].0 == r[k].0);
            }
        }
    }
}

/// The shape of `spec_add_route`: domains of existing routes are kept, a new
/// route for `d` is appended only when `d` was not routed, and only the first
/// route for `d` changes.
pub proof fn lemma_add_shape(rs: Seq<RouteView>, d: Seq<char>, p: u16)
    ensures
        ({
            let r = spec_add_route(rs, d, p);
            &&& r.len() == if has_domain(rs, d) { rs.len() } else { rs.len() + 1 }
            &&& forall|k: int| 0 <= k < rs.len() ==> (#[trigger] r[k]).0 == rs[k].0
            &&& forall|k: int| 0 <= k < rs.len() && rs[k].0 != d ==> (#[trigger] r[k]) == rs[k]
            &&& !has_domain(rs, d) ==> r[rs.len() as int] == (d, p, false)
        }),
{
    if has_domain(rs, d) {
        lemma_first_match_exists(rs, d);
    }
}

/// `add_route` keeps domains unique, and never grows the list for a domain
/// that is already routed.
pub proof fn law_add_keeps_domains_unique(rs: Seq<RouteView>, d: Seq<char>, p: u16)
    requires
        unique_domains(rs),
    ensures
        unique_domains(spec_add_route(rs, d, p)),
        spec_add_route(rs, d, p).len() == if has_domain(rs, d) { rs.len() } else { rs.len() + 1 },
{
    let r = spec_add_route(rs, d, p);
    if has_domain(rs, d) {
        lemma_first_match_exists(rs, d);
        assert forall|i: int, j: int| 0 <= i < j < r.len() implies (#[trigger] r[i]).0 != (#[trigger] r[j]).0 by {
            assert(r[i].0 == rs[i].0 && r[j].0 == rs[j].0);
        }
    } else {
        assert forall|i: int, j: int| 0 <= i < j < r.len() implies (#[trigger] r[i]).0 != (#[trigger] r[j]).0 by {
            if j == rs.len() {
                assert(rs[i].0 == r[i].0);
            } else {
                assert(r[i].0 == rs[i].0 && r[j].0 == rs[j].0);
            }
        }
    }
}

/// Adding the same route twice is the same as adding it once.
pub proof fn law_add_idempotent(rs: Seq<RouteView>, d: Seq<char>, p: u16)
    ensures
        spec_add_route(spec_add_route(rs, d, p), d, p) == spec_add_route(rs, d, p),
{
    let r = spec_add_route(rs, d, p);
    if has_domain(rs, d) {
        lemma_first_match_exists(rs, d);
        let i = first_match(rs, d);
        assert(r[i].0 == d);
        assert(is_first_match(r, d, i));
        lemma_first_match_exists(r, d);
        let f = first_match(r, d);
        if f < i {
            assert(r[f].0 == rs[f].0);
        } else if f > i {
            assert(r[i].0 == d);
        }
        assert(spec_add_route(r, d, p) =~= r);
    } else {
        assert(r[rs.len() as int].0 == d);
        assert(is_first_match(r, d, rs.len() as int));
        lemma_first_match_exists(r, d);
        let f = first_match(r, d);
        if f < rs.len() {
            assert(r[f] == rs[f]);
        }
        assert(spec_add_route(r, d, p) =~= r);
    }
}

/// Membership in a sequence after a push.
pub proof fn lemma_push_contains<T>(s: Seq<T>, a: T, x: T)
    ensures
        s.push(a).contains(x) <==> (s.contains(x) || x == a),
{
    if s.contains(x) {
        let k = choose|k: int| 0 <= k < s.len() && s[k] == x;
        assert(s.push(a)[k] == x);
    }
    if x == a {
        assert(s.push(a)[s.len() as int] == x);
    }
    if s.push(a).contains(x) {
        let k = choose|k: int| 0 <= k < s.push(a).len() && s.push(a)[k] == x;
        if k < s.len() {
            assert(s[k] == x);
        }
    }
}

/// After `remove_route(d)` exactly the routes whose domain is not `d` remain.
pub proof fn law_remove_drops_exactly_domain(rs: Seq<RouteView>, d: Seq<char>)
    ensures
        !has_domain(spec_remove_route(rs, d), d),
        forall|x: RouteView| spec_remove_route(rs, d).contains(x) <==> (rs.contains(x) && x.0 != d),
    decreases rs.len(),
{
    if rs.len() > 0 {
        let pre = rs.drop_last();
        law_remove_drops_exactly_domain(pre, d);
        let sub = spec_remove_route(pre, d);
        assert(rs =~= pre.push(rs.last()));
        assert forall|x: RouteView| spec_remove_route(rs, d).contains(x) <==> (rs.contains(x) && x.0 != d) by {
            lemma_push_contains(pre, rs.last(), x);
            lemma_push_contains(sub, rs.last(), x);
        }
    }
    let r = spec_remove_route(rs, d);
    if has_domain(r, d) {
        let k = choose|k: int| 0 <= k < r.len() && (#[trigger] r[k]).0 == d;
        assert(r.contains(r[k]));
    }
}

/// Removing a domain that was just added restores the routes, when the
/// domain was not routed before.
pub proof fn law_remove_undoes_add(rs: Seq<RouteView>, d: Seq<char>, p: u16)
    requires
        !has_domain(rs, d),
    ensures
        spec_remove_route(spec_add_route(rs, d, p), d) == rs,
{
    lemma_remove_absent(rs, d);
    assert(rs.push((d, p, false)).drop_last() =~= rs);
}

/// Removing a domain that is not routed changes nothing.
pub proof fn lemma_remove_absent(rs: Seq<RouteView>, d: Seq<char>)
    requires
        !has_domain(rs, d),
    ensures
        spec_remove_route(rs, d) == rs,
    decreases rs.len(),
{
    if rs.len() > 0 {
        assert(rs[rs.len() - 1].0 != d);
        assert forall|i: int| 0 <= i < rs.drop_last().len() implies (#[trigger] rs.drop_last()[i]).0 != d by {
            assert(rs[i].0 != d);
        }
        lemma_remove_absent(rs.drop_last(), d);
        assert(rs.drop_last().push(rs.last()) =~= rs);
    }
}

} // verus!
