//! Routing decisions of the HTTPS reverse proxy: which local port a request
//! goes to, judged by its `Host` header. Accepting connections, TLS and
//! forwarding happen outside the library.
use vstd::prelude::*;
use crate::config::{routes_view, DevBindConfig, RouteView};
use crate::text::{chars_of, concat, decimal, lowercased, push_str, str_eq, string_from_chars, to_lowercase, u16_to_decimal};

verus! {

/// A map from lowercased domain to local port.
#[derive(Debug)]
pub struct RouteMap {
    entries: Vec<(String, u16)>,
}

/// The keys of a list of entries.
pub open spec fn entry_keys(entries: Seq<(String, u16)>) -> Seq<Seq<char>> {
    entries.map_values(|e: (String, u16)| e.0@)
}

/// The port stored for key `k`.
pub open spec fn entry_value(entries: Seq<(String, u16)>, k: Seq<char>) -> u16 {
    entries[choose|i: int| 0 <= i < entries.len() && entries[i].0@ == k].1
}

impl View for RouteMap {
    type V = Map<Seq<char>, u16>;

    closed spec fn view(&self) -> Map<Seq<char>, u16> {
        Map::new(|k: Seq<char>| entry_keys(self.entries@).contains(k), |k: Seq<char>| entry_value(self.entries@, k))
    }
}

impl RouteMap {
    #[verifier::type_invariant]
    closed spec fn keys_unique(&self) -> bool {
        entry_keys(self.entries@).no_duplicates()
    }

    /// An empty map.
    pub fn new() -> (m: Self)
        ensures
            m@ == Map::<Seq<char>, u16>::empty(),
    {
        let m = RouteMap { entries: Vec::new() };
        assert(m@ =~= Map::<Seq<char>, u16>::empty());
        m
    }

    /// The index of `key`, if present.
    fn find(&self, key: &str) -> (r: Option<usize>)
        ensures
            match r {
                Some(i) => i < self.entries@.len() && self.entries@[i as int].0@ == key@,
                None => !entry_keys(self.entries@).contains(key@),
            },
    {
        let mut i: usize = 0;
        while i < self.entries.len()
            invariant
                i <= self.entries@.len(),
                forall|j: int| 0 <= j < i ==> self.entries@[j].0@ != key@,
            decreases self.entries@.len() - i,
        {
            if str_eq(self.entries[i].0.as_str(), key) {
                return Some(i);
            }
            i = i + 1;
        }
        proof {
            if entry_keys(self.entries@).contains(key@) {
                let j = choose|j: int| 0 <= j < entry_keys(self.entries@).len() && entry_keys(self.entries@)[j] == key@;
                assert(self.entries@[j].0@ == key@);
            }
        }
        None
    }

    /// Maps `key` to `port`, replacing any earlier port for it.
    pub fn insert(&mut self, key: String, port: u16)
        ensures
            final(self)@ == old(self)@.insert(key@, port),
    {
        proof {
            use_type_invariant(&*self);
        }
        let ghost old_entries = self.entries@;
        let found = self.find(key.as_str());
        let mut entries: Vec<(String, u16)> = Vec::new();
        std::mem::swap(&mut entries, &mut self.entries);
        assert(entries@ == old_entries);
        match found {
            Some(i) => {
                entries.set(i, (key, port));
                proof {
                    assert(entry_keys(entries@) =~= entry_keys(old_entries));
                }
            },
            None => {
                entries.push((key, port));
                proof {
                    assert(entry_keys(entries@) =~= entry_keys(old_entries).push(key@));
                    assert forall|a: int, b: int| 0 <= a < b < entry_keys(entries@).len() implies entry_keys(entries@)[a]
                        != entry_keys(entries@)[b] by {
                        if b == old_entries.len() {
                            assert(entry_keys(old_entries)[a] == entry_keys(entries@)[a]);
                        } else {
                            assert(entry_keys(old_entries)[a] != entry_keys(old_entries)[b]);
                        }
                    }
                }
            },
        }
        self.entries = entries;
        proof {
            let oldm = Map::new(|k: Seq<char>| entry_keys(old_entries).contains(k), |k: Seq<char>| entry_value(old_entries, k));
            let newm = self@;
            assert forall|k: Seq<char>| #[trigger] newm.contains_key(k) <==> oldm.insert(key@, port).contains_key(k) by {
                if entry_keys(old_entries).contains(k) {
                    let j = choose|j: int| 0 <= j < entry_keys(old_entries).len() && entry_keys(old_entries)[j] == k;
                    assert(entry_keys(self.entries@)[j] == k);
                }
                if entry_keys(self.entries@).contains(k) && k != key@ {
                    let j = choose|j: int| 0 <= j < entry_keys(self.entries@).len() && entry_keys(self.entries@)[j] == k;
                    assert(entry_keys(old_entries)[j] == k);
                }
                if k == key@ {
                    match found {
                        Some(i) => assert(entry_keys(self.entries@)[i as int] == k),
                        None => assert(entry_keys(self.entries@)[old_entries.len() as int] == k),
                    }
                }
            }
            assert forall|k: Seq<char>| #[trigger] newm.contains_key(k) implies newm[k] == oldm.insert(key@, port)[k] by {
                let es = self.entries@;
                let i = choose|i: int| 0 <= i < es.len() && es[i].0@ == k;
                assert(entry_keys(es)[i] == k);
                if k == key@ {
                    match found {
                        Some(f) => {
                            assert(entry_keys(es)[f as int] == k);
                            assert(i == f);
                        },
                        None => {
                            assert(entry_keys(es)[old_entries.len() as int] == k);
                            assert(i == old_entries.len());
                        },
                    }
                } else {
                    assert(es[i] == old_entries[i]);
                    let j = choose|j: int| 0 <= j < old_entries.len() && old_entries[j].0@ == k;
                    assert(entry_keys(old_entries)[j] == k);
                    assert(entry_keys(old_entries)[i] == k);
                    assert(i == j);
                }
            }
            assert(newm =~= oldm.insert(key@, port));
        }
    }

    /// The port for `key`, if any.
    pub fn get(&self, key: &str) -> (r: Option<&u16>)
        ensures
            match r {
                Some(p) => self@.contains_key(key@) && *p == self@[key@],
                None => !self@.contains_key(key@),
            },
    {
        proof {
            use_type_invariant(self);
        }
        match self.find(key) {
            Some(i) => {
                proof {
                    let es = self.entries@;
                    let j = choose|j: int| 0 <= j < es.len() && es[j].0@ == key@;
                    assert(entry_keys(es)[i as int] == key@);
                    assert(entry_keys(es)[j] == key@);
                    assert(i == j);
                }
                Some(&self.entries[i].1)
            },
            None => None,
        }
    }

    /// Whether `key` has a port.
    pub fn contains_key(&self, key: &str) -> (b: bool)
        ensures
            b == self@.contains_key(key@),
    {
        match self.find(key) {
            Some(i) => {
                assert(entry_keys(self.entries@)[i as int] == key@);
                true
            },
            None => false,
        }
    }

    /// The number of domains in the map.
    pub fn len(&self) -> (n: usize)
        ensures
            n == self@.dom().len(),
            self@.dom().finite(),
    {
        proof {
            use_type_invariant(self);
            let ks = entry_keys(self.entries@);
            ks.unique_seq_to_set();
            assert(self@.dom() =~= ks.to_set());
        }
        self.entries.len()
    }

    /// Whether the map is empty.
    pub fn is_empty(&self) -> (b: bool)
        ensures
            b == (self@.dom().len() == 0),
    {
        self.len() == 0
    }
}

/// The route map of a list of routes: each domain, lowercased, maps to the
/// port of the first route for it (a later route for the same domain is
/// ignored, as the proxy forwards to the first matching route).
pub open spec fn spec_route_map(rs: Seq<RouteView>) -> Map<Seq<char>, u16>
    decreases rs.len(),
{
    if rs.len() == 0 {
        Map::empty()
    } else if spec_route_map(rs.drop_last()).contains_key(lowercased(rs.last().0)) {
        spec_route_map(rs.drop_last())
    } else {
        spec_route_map(rs.drop_last()).insert(lowercased(rs.last().0), rs.last().1)
    }
}

/// Builds the domain → port map the proxy routes by; domains are lowercased
/// so that lookups are case-insensitive.
pub fn build_route_map(config: &DevBindConfig) -> (m: RouteMap)
    ensures
        m@ == spec_route_map(routes_view(config.routes@)),
{
    let ghost rs = routes_view(config.routes@);
    let mut m = RouteMap::new();
    let mut i: usize = 0;
    while i < config.routes.len()
        invariant
            i <= config.routes@.len(),
            rs == routes_view(config.routes@),
            m@ == spec_route_map(rs.take(i as int)),
        decreases config.routes@.len() - i,
    {
        assert(rs.take(i + 1).drop_last() =~= rs.take(i as int));
        let key = to_lowercase(config.routes[i].domain.as_str());
        if !m.contains_key(key.as_str()) {
            m.insert(key, config.routes[i].port);
        }
        i = i + 1;
    }
    assert(rs.take(config.routes@.len() as int) =~= rs);
    m
}

/// The route map holds exactly the lowercased domains of the routes, and
/// each maps to the port of the first route with that lowercased domain.
pub proof fn law_route_map_contents(rs: Seq<RouteView>, i: int)
    requires
        0 <= i < rs.len(),
        forall|j: int| 0 <= j < i ==> lowercased(#[trigger] rs[j].0) != lowercased(rs[i].0),
    ensures
        spec_route_map(rs).contains_key(lowercased(rs[i].0)),
        spec_route_map(rs)[lowercased(rs[i].0)] == rs[i].1,
    decreases rs.len(),
{
    let front = rs.drop_last();
    let k = lowercased(rs[i].0);
    if i < rs.len() - 1 {
        assert forall|j: int| 0 <= j < i implies lowercased(#[trigger] front[j].0) != lowercased(front[i].0) by {
            assert(front[j] == rs[j]);
        }
        assert(front[i] == rs[i]);
        law_route_map_contents(front, i);
    } else {
        law_route_map_keys(front, k);
        if spec_route_map(front).contains_key(k) {
            let j = choose|j: int| 0 <= j < front.len() && lowercased(#[trigger] front[j].0) == k;
            assert(rs[j] == front[j]);
        }
        assert(rs.last() == rs[i]);
    }
}

/// A key is in the route map only when some route's lowercased domain is it.
pub proof fn law_route_map_keys(rs: Seq<RouteView>, k: Seq<char>)
    ensures
        spec_route_map(rs).contains_key(k) <==> exists|j: int| 0 <= j < rs.len() && lowercased(#[trigger] rs[j].0) == k,
    decreases rs.len(),
{
    if rs.len() > 0 {
        let front = rs.drop_last();
        law_route_map_keys(front, k);
        if spec_route_map(rs).contains_key(k) && lowercased(rs.last().0) != k {
            let j = choose|j: int| 0 <= j < front.len() && lowercased(#[trigger] front[j].0) == k;
            assert(rs[j] == front[j]);
        }
        if exists|j: int| 0 <= j < rs.len() && lowercased(#[trigger] rs[j].0) == k {
            let j = choose|j: int| 0 <= j < rs.len() && lowercased(#[trigger] rs[j].0) == k;
            if j < rs.len() - 1 {
                assert(front[j] == rs[j]);
            }
        }
    }
}

/// The part of a `Host` header before the first `:` (the port is dropped).
pub open spec fn host_part(h: Seq<char>) -> Seq<char>
    decreases h.len(),
{
    if h.len() == 0 {
        h
    } else if h[0] == ':' {
        Seq::empty()
    } else {
        seq![h[0]] + host_part(h.drop_first())
    }
}

/// What the proxy does with a request.
#[derive(Debug, Clone, PartialEq, Eq)]
pub enum ProxyDecision {
    /// Forward to the local backend at `uri`, which listens on `port`.
    Forward { port: u16, uri: String },
    /// The host is not registered: answer 404.
    NotFound,
}

/// The backend URI a request for `path_and_query` is rewritten to.
pub open spec fn backend_uri(port: u16, path_and_query: Option<Seq<char>>) -> Seq<char> {
    "http://127.0.0.1:"@ + decimal(port as nat) + match path_and_query {
        Some(p) => p,
        None => "/"@,
    }
}

/// The host a request is routed by: its `Host` header (empty when missing or
/// unreadable) without the port, lowercased.
pub open spec fn request_host(host_header: Option<Seq<char>>) -> Seq<char> {
    lowercased(host_part(match host_header {
        Some(h) => h,
        None => Seq::empty(),
    }))
}

/// The part of `h` before the first `:`.
pub fn strip_port(h: &str) -> (r: String)
    ensures
        r@ == host_part(h@),
{
    let hc = chars_of(h);
    let mut i: usize = 0;
    while i < hc.len() && hc[i] != ':'
        invariant
            i <= hc@.len(),
            forall|j: int| 0 <= j < i ==> hc@[j] != ':',
        decreases hc@.len() - i,
    {
        i = i + 1;
    }
    proof {
        lemma_host_part_prefix(hc@, i as int);
    }
    string_from_chars(&hc.as_slice()[0..i])
}

/// `host_part` of a string whose first `:` (if any) is at `i`.
pub proof fn lemma_host_part_prefix(h: Seq<char>, i: int)
    requires
        0 <= i <= h.len(),
        forall|j: int| 0 <= j < i ==> h[j] != ':',
        i == h.len() || h[i] == ':',
    ensures
        host_part(h) == h.subrange(0, i),
    decreases h.len(),
{
    if h.len() > 0 && i > 0 {
        assert forall|j: int| 0 <= j < i - 1 implies h.drop_first()[j] != ':' by {
            assert(h.drop_first()[j] == h[j + 1]);
        }
        lemma_host_part_prefix(h.drop_first(), i - 1);
        assert(seq![h[0]] + h.drop_first().subrange(0, i - 1) =~= h.subrange(0, i));
    } else if h.len() > 0 {
        assert(h.subrange(0, 0) =~= Seq::<char>::empty());
    }
}

/// Decides where a request goes, from its `Host` header and its path and query.
pub fn route_request(routes: &RouteMap, host_header: Option<&str>, path_and_query: Option<&str>) -> (d: ProxyDecision)
    ensures
        ({
            let host = request_host(match host_header {
                Some(h) => Some(h@),
                None => None,
            });
            match d {
                ProxyDecision::Forward { port, uri } => routes@.contains_key(host) && port == routes@[host]
                    && uri@ == backend_uri(port, match path_and_query {
                    Some(p) => Some(p@),
                    None => None,
                }),
                ProxyDecision::NotFound => !routes@.contains_key(host),
            }
        }),
{
    let raw = match host_header {
        Some(h) => strip_port(h),
        None => String::new(),
    };
    let host = to_lowercase(raw.as_str());
    match routes.get(host.as_str()) {
        Some(p) => {
            let port = *p;
            let mut uri = concat("http://127.0.0.1:", u16_to_decimal(port).as_str());
            match path_and_query {
                Some(pq) => push_str(&mut uri, pq),
                None => push_str(&mut uri, "/"),
            }
            ProxyDecision::Forward { port, uri }
        },
        None => ProxyDecision::NotFound,
    }
}

/// The body of the answer to a request for an unregistered host.
pub fn not_found_body() -> (b: &'static str)
    ensures
        b@ == "Not Found: Domain not registered in DevBind"@,
{
    "Not Found: Domain not registered in DevBind"
}

/// The body of the answer when the backend cannot be reached.
pub fn bad_gateway_body() -> (b: &'static str)
    ensures
        b@ == "Bad Gateway: Backend unreachable"@,
{
    "Bad Gateway: Backend unreachable"
}

/// The reverse proxy, configured with the routes it serves.
#[derive(Debug, Clone)]
pub struct ProxyServer {
    config: DevBindConfig,
}

impl ProxyServer {
    /// A proxy for `config`.
    pub fn new(config: DevBindConfig) -> (p: Self)
        ensures
            p.config() == config,
    {
        ProxyServer { config }
    }

    /// The configuration the proxy serves.
    pub closed spec fn config(&self) -> DevBindConfig {
        self.config
    }

    /// The configuration the proxy serves.
    pub fn configuration(&self) -> (c: &DevBindConfig)
        ensures
            *c == self.config(),
    {
        &self.config
    }

    /// The domain → port map requests are routed by.
    pub fn route_map(&self) -> (m: RouteMap)
        ensures
            m@ == spec_route_map(routes_view(self.config().routes@)),
    {
        build_route_map(&self.config)
    }
}

} // verus!
