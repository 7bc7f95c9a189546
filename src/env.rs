//! The record of what the reconciler last installed, and how each step of a
//! pass changes it.

use vstd::prelude::*;
use crate::cloud::CloudProvider;
use crate::conf::Config;
use crate::ip::{ip_part, is_cidr, is_ipv4};
use crate::keyed::{
    unique_keys, has_key, keyed_map, lemma_keyed_empty, lemma_keyed_index, lemma_keyed_push,
    lemma_keyed_update,
};
use crate::net::{
    Links, Route, RoutingPolicyRule, RuleSide, rules_wf, rules_map, table_used, rules_record,
    rules_take, rules_use_table, route_key_fn, routes_map, routes_record, routes_take, rule_spec,
};
use crate::ip::ip_part_of;

verus! {

/// The addresses last applied to the link with hardware address `mac`.
#[derive(Debug, Clone)]
pub struct MacAddresses {
    pub mac: String,
    pub addresses: Vec<String>,
}

/// The texts held by a list of strings, as a set.
pub open spec fn text_set(v: Seq<String>) -> Set<Seq<char>> {
    Set::new(|c: Seq<char>| exists|j: int| 0 <= j < v.len() && (#[trigger] v[j])@ == c)
}

pub open spec fn mac_key_fn() -> spec_fn(MacAddresses) -> Seq<char> {
    |e: MacAddresses| e.mac@
}

pub open spec fn mac_val_fn() -> spec_fn(MacAddresses) -> Set<Seq<char>> {
    |e: MacAddresses| text_set(e.addresses@)
}

/// The aggregate state shared by the reconciliation passes.
pub struct Environment {
    pub kind: CloudProvider,
    pub links: Links,
    pub route_table: u32,
    pub addresses_by_mac: Vec<MacAddresses>,
    pub routes_by_index: Vec<Route>,
    pub routing_rules_by_address_from: Vec<RoutingPolicyRule>,
    pub routing_rules_by_address_to: Vec<RoutingPolicyRule>,
}

/// What an `Environment` records, as maps.
pub struct EnvState {
    /// Base number of the private routing tables.
    pub route_table: u32,
    /// Number of links (loopback excluded) in the last inventory.
    pub uplinks: nat,
    /// Hardware address to the CIDR texts last applied.
    pub addresses: Map<Seq<char>, Set<Seq<char>>>,
    /// Interface index to (table, gateway) of its tracked default route.
    pub routes: Map<u32, (u32, Seq<char>)>,
    /// Source address to the table of its `from` rule.
    pub rules_from: Map<Seq<char>, u32>,
    /// Destination address to the table of its `to` rule.
    pub rules_to: Map<Seq<char>, u32>,
}

impl View for Environment {
    type V = EnvState;

    open spec fn view(&self) -> EnvState {
        EnvState {
            route_table: self.route_table,
            uplinks: self.links.links_by_mac@.len(),
            addresses: keyed_map(self.addresses_by_mac@, mac_key_fn(), mac_val_fn()),
            routes: routes_map(self.routes_by_index@),
            rules_from: rules_map(self.routing_rules_by_address_from@, RuleSide::From),
            rules_to: rules_map(self.routing_rules_by_address_to@, RuleSide::To),
        }
    }
}

// ---- how the steps of a pass change the record

/// The addresses recorded for `mac` (none on a first pass).
pub open spec fn recorded(e: EnvState, mac: Seq<char>) -> Set<Seq<char>> {
    if e.addresses.contains_key(mac) {
        e.addresses[mac]
    } else {
        Set::empty()
    }
}

/// After installing the default route of `if_index`.
pub open spec fn with_route(e: EnvState, if_index: u32, table: u32, gw: Seq<char>) -> EnvState {
    EnvState { routes: e.routes.insert(if_index, (table, gw)), ..e }
}

/// After installing the rule of `side` for address text `ip`.
pub open spec fn with_rule(e: EnvState, side: RuleSide, ip: Seq<char>, table: u32) -> EnvState {
    match side {
        RuleSide::From => EnvState { rules_from: e.rules_from.insert(ip, table), ..e },
        RuleSide::To => EnvState { rules_to: e.rules_to.insert(ip, table), ..e },
    }
}

/// Addresses recorded before but no longer wanted.
pub open spec fn stale(old: Set<Seq<char>>, desired: Set<Seq<char>>) -> Set<Seq<char>> {
    old.difference(desired)
}

/// The address texts (prefix stripped) of a set of CIDR texts.
pub open spec fn ips_of(s: Set<Seq<char>>) -> Set<Seq<char>> {
    Set::new(|ip: Seq<char>| exists|c: Seq<char>| s.contains(c) && ip_part(c) == ip)
}

/// The IPs whose rules a retraction takes out: those of stale addresses
/// that no wanted address shares.
pub open spec fn dropped_ips(old: Set<Seq<char>>, desired: Set<Seq<char>>) -> Set<Seq<char>> {
    ips_of(stale(old, desired)).difference(ips_of(desired))
}

pub proof fn lemma_ips_insert(s: Set<Seq<char>>, c: Seq<char>)
    ensures
        ips_of(s.insert(c)) == ips_of(s).insert(ip_part(c)),
{
    assert forall|x: Seq<char>| #[trigger] ips_of(s.insert(c)).contains(x) <==> ips_of(s).insert(ip_part(c)).contains(x) by {
        if ips_of(s.insert(c)).contains(x) {
            let d = choose|d: Seq<char>| s.insert(c).contains(d) && ip_part(d) == x;
            if d != c {
                assert(s.contains(d));
            }
        }
        if ips_of(s).contains(x) {
            let d = choose|d: Seq<char>| s.contains(d) && ip_part(d) == x;
            assert(s.insert(c).contains(d));
        }
        if x == ip_part(c) {
            assert(s.insert(c).contains(c));
        }
    }
    assert(ips_of(s.insert(c)) =~= ips_of(s).insert(ip_part(c)));
}

/// Whether some wanted address has the IP `ip`.
pub fn shares_ip(desired: &Vec<String>, ip: &String) -> (r: bool)
    ensures
        r == ips_of(text_set(desired@)).contains(ip@),
{
    let mut j: usize = 0;
    while j < desired.len()
        invariant
            j <= desired.len(),
            forall|k: int| 0 <= k < j ==> ip_part((#[trigger] desired@[k])@) != ip@,
        decreases desired.len() - j,
    {
        let p = ip_part_of(desired[j].as_str());
        if p == *ip {
            assert(text_set(desired@).contains(desired@[j as int]@));
            return true;
        }
        j = j + 1;
    }
    assert forall|c: Seq<char>| text_set(desired@).contains(c) implies ip_part(c) != ip@ by {
        let k = choose|k: int| 0 <= k < desired@.len() && (#[trigger] desired@[k])@ == c;
    }
    false
}

/// After retracting, for the link `mac` / `if_index`, every recorded address
/// that is not in `desired`: their rules leave the record, and the tracked
/// route goes too once no rule points at `rule_table`.
pub open spec fn retracted(
    e: EnvState,
    mac: Seq<char>,
    if_index: u32,
    rule_table: u32,
    desired: Set<Seq<char>>,
) -> EnvState {
    let gone = stale(recorded(e, mac), desired);
    let from = e.rules_from.remove_keys(dropped_ips(recorded(e, mac), desired));
    let to = e.rules_to.remove_keys(dropped_ips(recorded(e, mac), desired));
    let drop_route = (exists|c: Seq<char>| gone.contains(c)) && !table_used(from, rule_table)
        && !table_used(to, rule_table);
    EnvState {
        rules_from: from,
        rules_to: to,
        routes: if drop_route {
            e.routes.remove(if_index)
        } else {
            e.routes
        },
        ..e
    }
}

/// After a pass, `desired` is what is recorded for `mac`.
pub open spec fn committed(e: EnvState, mac: Seq<char>, desired: Set<Seq<char>>) -> EnvState {
    EnvState { addresses: e.addresses.insert(mac, desired), ..e }
}

/// What is taken out of the kernel when stale addresses are retracted.
pub struct Retraction {
    pub rules: Vec<RoutingPolicyRule>,
    pub addresses: Vec<String>,
    pub route: Option<Route>,
}

pub proof fn lemma_text_set_push(v: Seq<String>, x: String)
    ensures
        text_set(v.push(x)) == text_set(v).insert(x@),
{
    let w = v.push(x);
    assert forall|c: Seq<char>| text_set(w).contains(c) <==> #[trigger] text_set(v).insert(x@).contains(c) by {
        if text_set(v).contains(c) {
            let j = choose|j: int| 0 <= j < v.len() && (#[trigger] v[j])@ == c;
            assert(w[j] == v[j]);
        }
        if c == x@ {
            assert(w[v.len() as int] == x);
        }
        if text_set(w).contains(c) {
            let j = choose|j: int| 0 <= j < w.len() && (#[trigger] w[j])@ == c;
            if j < v.len() {
                assert(w[j] == v[j]);
            }
        }
    }
    assert(text_set(w) =~= text_set(v).insert(x@));
}

/// Whether `v` holds the text `s`.
pub fn holds_text(v: &Vec<String>, s: &String) -> (r: bool)
    ensures
        r == text_set(v@).contains(s@),
{
    let mut i: usize = 0;
    while i < v.len()
        invariant
            i <= v.len(),
            forall|j: int| 0 <= j < i ==> (#[trigger] v@[j])@ != s@,
        decreases v.len() - i,
    {
        if v[i] == *s {
            return true;
        }
        i = i + 1;
    }
    false
}

/// A copy of a list of strings.
pub fn copy_texts(v: &Vec<String>) -> (r: Vec<String>)
    ensures
        r@ == v@,
{
    let mut r: Vec<String> = Vec::new();
    let mut i: usize = 0;
    while i < v.len()
        invariant
            i <= v.len(),
            r@ == v@.take(i as int),
        decreases v.len() - i,
    {
        r.push(v[i].clone());
        i = i + 1;
        assert(r@ =~= v@.take(i as int));
    }
    assert(r@ =~= v@);
    r
}

impl Environment {
    /// The record's lists are keyed maps and each rule list holds rules of its side.
    pub open spec fn wf(&self) -> bool {
        &&& self.links.wf()
        &&& unique_keys(self.addresses_by_mac@, mac_key_fn())
        &&& unique_keys(self.routes_by_index@, route_key_fn())
        &&& rules_wf(self.routing_rules_by_address_from@, RuleSide::From)
        &&& rules_wf(self.routing_rules_by_address_to@, RuleSide::To)
        &&& forall|k: u32| #[trigger] self@.routes.contains_key(k) ==> is_ipv4(self@.routes[k].1)
        &&& forall|m: Seq<char>, c: Seq<char>| #[trigger] self@.addresses.contains_key(m) && #[trigger] self@.addresses[m].contains(c)
            ==> is_cidr(c)
    }

    /// A fresh record for the clouds whose metadata the daemon can read
    /// (Azure, AWS, GCP); `None` for any other.
    pub fn new(kind: CloudProvider, config: &Config) -> (r: Option<Self>)
        ensures
            r is Some <==> (kind == CloudProvider::Azure || kind == CloudProvider::AWS || kind
                == CloudProvider::GCP),
            r is Some ==> ({
                let e = r->0;
                &&& e.wf()
                &&& e.kind == kind
                &&& e@.route_table == config.network.routing.table_base
                &&& e@.uplinks == 0
                &&& e@.addresses == Map::<Seq<char>, Set<Seq<char>>>::empty()
                &&& e@.routes == Map::<u32, (u32, Seq<char>)>::empty()
                &&& e@.rules_from == Map::<Seq<char>, u32>::empty()
                &&& e@.rules_to == Map::<Seq<char>, u32>::empty()
            }),
    {
        match kind {
            CloudProvider::Azure | CloudProvider::AWS | CloudProvider::GCP => {},
            _ => return None,
        }
        let e = Environment {
            kind,
            links: Links::new(),
            route_table: config.network.routing.table_base,
            addresses_by_mac: Vec::new(),
            routes_by_index: Vec::new(),
            routing_rules_by_address_from: Vec::new(),
            routing_rules_by_address_to: Vec::new(),
        };
        proof {
            lemma_keyed_empty(e.addresses_by_mac@, mac_key_fn(), mac_val_fn());
            lemma_keyed_empty(e.routes_by_index@, route_key_fn(), crate::net::route_val_fn());
            lemma_keyed_empty(
                e.routing_rules_by_address_from@,
                crate::net::rule_key_fn(RuleSide::From),
                crate::net::rule_table_fn(),
            );
            lemma_keyed_empty(
                e.routing_rules_by_address_to@,
                crate::net::rule_key_fn(RuleSide::To),
                crate::net::rule_table_fn(),
            );
        }
        Some(e)
    }

    /// Replaces the link inventory.
    pub fn set_links(&mut self, links: Links)
        requires
            old(self).wf(),
            links.wf(),
        ensures
            final(self).wf(),
            final(self)@ == (EnvState { uplinks: links.links_by_mac@.len(), ..old(self)@ }),
            final(self).kind == old(self).kind,
            final(self).links == links,
    {
        self.links = links;
    }

    /// Number of links in the last inventory.
    pub fn uplinks(&self) -> (r: usize)
        ensures
            r == self@.uplinks,
    {
        self.links.len()
    }

    fn mac_position(&self, mac: &String) -> (r: Option<usize>)
        requires
            self.wf(),
        ensures
            r is None ==> !self@.addresses.contains_key(mac@),
            r is Some ==> r->0 < self.addresses_by_mac@.len() && self.addresses_by_mac@[r->0 as int].mac@
                == mac@,
    {
        let mut i: usize = 0;
        while i < self.addresses_by_mac.len()
            invariant
                i <= self.addresses_by_mac.len(),
                forall|j: int| 0 <= j < i ==> (#[trigger] self.addresses_by_mac@[j]).mac@ != mac@,
            decreases self.addresses_by_mac.len() - i,
        {
            if self.addresses_by_mac[i].mac == *mac {
                return Some(i);
            }
            i = i + 1;
        }
        assert(!has_key(self.addresses_by_mac@, mac_key_fn(), mac@));
        None
    }

    /// The addresses recorded for `mac`, empty where there are none.
    pub fn addresses_of(&self, mac: &String) -> (r: Vec<String>)
        requires
            self.wf(),
        ensures
            text_set(r@) == recorded(self@, mac@),
    {
        match self.mac_position(mac) {
            Some(i) => {
                proof {
                    lemma_keyed_index(self.addresses_by_mac@, mac_key_fn(), mac_val_fn(), i as int);
                }
                copy_texts(&self.addresses_by_mac[i].addresses)
            },
            None => {
                let r: Vec<String> = Vec::new();
                assert(text_set(r@) =~= Set::<Seq<char>>::empty());
                r
            },
        }
    }

    /// Records the default route of an interface.
    pub fn record_route(&mut self, route: Route)
        requires
            old(self).wf(),
            is_ipv4(route.gw@),
        ensures
            final(self).wf(),
            final(self)@ == with_route(old(self)@, route.if_index, route.table, route.gw@),
            final(self).kind == old(self).kind,
            final(self).links == old(self).links,
    {
        let ghost old_routes = self@.routes;
        let ghost old_addresses = self@.addresses;
        let ghost at = route.if_index;
        let ghost gw = route.gw@;
        routes_record(&mut self.routes_by_index, route);
        assert forall|k: u32| #[trigger] self@.routes.contains_key(k) implies is_ipv4(self@.routes[k].1) by {
            if k != at {
                assert(old_routes.contains_key(k));
            }
        }
        assert(self@.addresses == old_addresses);
    }

    /// Records the rule of `side` for address text `ip`.
    pub fn record_rule(&mut self, side: RuleSide, ip: &String, table: u32)
        requires
            old(self).wf(),
        ensures
            final(self).wf(),
            final(self)@ == with_rule(old(self)@, side, ip@, table),
            final(self).kind == old(self).kind,
            final(self).links == old(self).links,
    {
        match side {
            RuleSide::From => rules_record(&mut self.routing_rules_by_address_from, side, ip, table),
            RuleSide::To => rules_record(&mut self.routing_rules_by_address_to, side, ip, table),
        }
        assert(self@.routes == old(self)@.routes);
        assert(self@.addresses == old(self)@.addresses);
    }

    /// Retracts, for the link `mac` / `if_index`, every recorded address that
    /// is not in `desired`: the `from` and `to` rules of its IP leave the
    /// record unless a wanted address has the same IP, and once no rule points
    /// at `rule_table` the link's route leaves it too. Returns what is to be
    /// removed from the kernel: every rule taken out, every stale address, and
    /// the route where it was taken out.
    pub fn retract_stale(&mut self, mac: &String, if_index: u32, rule_table: u32, desired: &Vec<String>) -> (r: Retraction)
        requires
            old(self).wf(),
        ensures
            final(self).wf(),
            final(self).kind == old(self).kind,
            final(self).links == old(self).links,
            final(self)@ == retracted(old(self)@, mac@, if_index, rule_table, text_set(desired@)),
            text_set(r.addresses@) == stale(recorded(old(self)@, mac@), text_set(desired@)),
            r.route is Some <==> (old(self)@.routes.contains_key(if_index)
                && !final(self)@.routes.contains_key(if_index)),
            r.route is Some ==> r.route->0.if_index == if_index
                && (r.route->0.table, r.route->0.gw@) == old(self)@.routes[if_index]
                && is_ipv4(r.route->0.gw@),
            forall|i: int| 0 <= i < r.rules@.len() ==> exists|side: RuleSide, ip: Seq<char>|
                dropped_ips(recorded(old(self)@, mac@), text_set(desired@)).contains(ip)
                && (#[trigger] r.rules@[i]).model() == rule_spec(side, ip, r.rules@[i].table),
            forall|ip: Seq<char>| #[trigger] dropped_ips(recorded(old(self)@, mac@), text_set(desired@)).contains(ip)
                && old(self)@.rules_from.contains_key(ip) ==> exists|i: int| 0 <= i < r.rules@.len()
                && (#[trigger] r.rules@[i]).model() == rule_spec(RuleSide::From, ip, old(self)@.rules_from[ip]),
            forall|ip: Seq<char>| #[trigger] dropped_ips(recorded(old(self)@, mac@), text_set(desired@)).contains(ip)
                && old(self)@.rules_to.contains_key(ip) ==> exists|i: int| 0 <= i < r.rules@.len()
                && (#[trigger] r.rules@[i]).model() == rule_spec(RuleSide::To, ip, old(self)@.rules_to[ip]),
    {
        let ghost e0 = self@;
        let ghost dset = text_set(desired@);
        let ghost di = ips_of(dset);
        let previous = self.addresses_of(mac);
        let mut rules: Vec<RoutingPolicyRule> = Vec::new();
        let mut addrs: Vec<String> = Vec::new();
        let mut i: usize = 0;
        proof {
            assert(text_set(addrs@) =~= text_set(previous@.take(0)).difference(dset));
            assert(ips_of(text_set(addrs@)) =~= Set::<Seq<char>>::empty());
            assert(ips_of(text_set(addrs@)).difference(di) =~= Set::<Seq<char>>::empty());
            assert(e0.rules_from.remove_keys(Set::<Seq<char>>::empty()) =~= e0.rules_from);
            assert(e0.rules_to.remove_keys(Set::<Seq<char>>::empty()) =~= e0.rules_to);
        }
        while i < previous.len()
            invariant
                self.wf(),
                self.kind == old(self).kind,
                self.links == old(self).links,
                e0 == old(self)@,
                dset == text_set(desired@),
                di == ips_of(dset),
                text_set(previous@) == recorded(e0, mac@),
                i <= previous.len(),
                self@.route_table == e0.route_table,
                self@.uplinks == e0.uplinks,
                self@.addresses == e0.addresses,
                self@.routes == e0.routes,
                text_set(addrs@) == text_set(previous@.take(i as int)).difference(dset),
                self@.rules_from == e0.rules_from.remove_keys(ips_of(text_set(addrs@)).difference(di)),
                self@.rules_to == e0.rules_to.remove_keys(ips_of(text_set(addrs@)).difference(di)),
                forall|k: int| 0 <= k < rules@.len() ==> exists|side: RuleSide, ip: Seq<char>|
                    ips_of(text_set(addrs@)).difference(di).contains(ip)
                    && (#[trigger] rules@[k]).model() == rule_spec(side, ip, rules@[k].table),
                forall|ip: Seq<char>| #[trigger] ips_of(text_set(addrs@)).difference(di).contains(ip)
                    && e0.rules_from.contains_key(ip) ==> exists|k: int| 0 <= k < rules@.len()
                    && (#[trigger] rules@[k]).model() == rule_spec(RuleSide::From, ip, e0.rules_from[ip]),
                forall|ip: Seq<char>| #[trigger] ips_of(text_set(addrs@)).difference(di).contains(ip)
                    && e0.rules_to.contains_key(ip) ==> exists|k: int| 0 <= k < rules@.len()
                    && (#[trigger] rules@[k]).model() == rule_spec(RuleSide::To, ip, e0.rules_to[ip]),
            decreases previous.len() - i,
        {
            let b = &previous[i];
            let ghost before = text_set(addrs@);
            let ghost kb = ips_of(before).difference(di);
            let ghost rules_before = rules@;
            let ghost addrs_before = addrs@;
            proof {
                assert(previous@.take(i as int + 1) =~= previous@.take(i as int).push(previous@[i as int]));
                lemma_text_set_push(previous@.take(i as int), previous@[i as int]);
            }
            if !holds_text(desired, b) {
                let ip = ip_part_of(b.as_str());
                let shared = shares_ip(desired, &ip);
                let ghost from_before = self@.rules_from;
                let ghost to_before = self@.rules_to;
                if !shared {
                    match rules_take(&mut self.routing_rules_by_address_from, RuleSide::From, &ip) {
                        Some(r) => { rules.push(r); },
                        None => {},
                    }
                    match rules_take(&mut self.routing_rules_by_address_to, RuleSide::To, &ip) {
                        Some(r) => { rules.push(r); },
                        None => {},
                    }
                }
                addrs.push(b.clone());
                proof {
                    lemma_text_set_push(addrs_before, *b);
                    assert(addrs@ == addrs_before.push(*b));
                    assert(text_set(addrs@) =~= before.insert(b@));
                    assert(text_set(addrs@) =~= text_set(previous@.take(i as int + 1)).difference(dset));
                    lemma_ips_insert(before, b@);
                    let k2 = ips_of(text_set(addrs@)).difference(di);
                    if shared {
                        assert(k2 =~= kb);
                        assert(rules@ == rules_before);
                    } else {
                        assert(k2 =~= kb.insert(ip@));
                        assert(self@.rules_from =~= e0.rules_from.remove_keys(k2));
                        assert(self@.rules_to =~= e0.rules_to.remove_keys(k2));
                        assert forall|k: int| 0 <= k < rules@.len() implies exists|side: RuleSide, ip2: Seq<char>|
                            k2.contains(ip2)
                            && (#[trigger] rules@[k]).model() == rule_spec(side, ip2, rules@[k].table) by {
                            if k < rules_before.len() {
                                assert(rules@[k] == rules_before[k]);
                                let (side, ip2) = choose|side: RuleSide, ip2: Seq<char>|
                                    kb.contains(ip2)
                                    && (#[trigger] rules_before[k]).model() == rule_spec(side, ip2, rules_before[k].table);
                                assert(k2.contains(ip2));
                            } else {
                                assert(k2.contains(ip@));
                            }
                        }
                        assert forall|x: Seq<char>| #[trigger] k2.contains(x) && e0.rules_from.contains_key(x)
                            implies exists|k: int| 0 <= k < rules@.len()
                            && (#[trigger] rules@[k]).model() == rule_spec(RuleSide::From, x, e0.rules_from[x]) by {
                            if kb.contains(x) {
                                let k = choose|k: int| 0 <= k < rules_before.len()
                                    && (#[trigger] rules_before[k]).model() == rule_spec(RuleSide::From, x, e0.rules_from[x]);
                                assert(rules@[k] == rules_before[k]);
                            } else {
                                assert(x == ip@);
                                assert(from_before.contains_key(x));
                                assert(rules@[rules_before.len() as int].model() == rule_spec(RuleSide::From, x, e0.rules_from[x]));
                            }
                        }
                        assert forall|x: Seq<char>| #[trigger] k2.contains(x) && e0.rules_to.contains_key(x)
                            implies exists|k: int| 0 <= k < rules@.len()
                            && (#[trigger] rules@[k]).model() == rule_spec(RuleSide::To, x, e0.rules_to[x]) by {
                            if kb.contains(x) {
                                let k = choose|k: int| 0 <= k < rules_before.len()
                                    && (#[trigger] rules_before[k]).model() == rule_spec(RuleSide::To, x, e0.rules_to[x]);
                                assert(rules@[k] == rules_before[k]);
                            } else {
                                assert(x == ip@);
                                assert(to_before.contains_key(x));
                                assert(rules@[rules@.len() - 1].model() == rule_spec(RuleSide::To, x, e0.rules_to[x]));
                            }
                        }
                    }
                }
            } else {
                proof {
                    assert(text_set(addrs@) =~= text_set(previous@.take(i as int + 1)).difference(dset));
                }
            }
            i = i + 1;
        }
        proof {
            assert(previous@.take(previous@.len() as int) =~= previous@);
        }
        let ghost gone = stale(recorded(e0, mac@), dset);
        assert(text_set(addrs@) == gone);
        assert(ips_of(text_set(addrs@)).difference(di) == dropped_ips(recorded(e0, mac@), dset));
        let ghost rules_final = rules@;
        let mut route: Option<Route> = None;
        if addrs.len() > 0 {
            assert(gone.contains(addrs@[0]@));
            if is_rules_by_table_empty(self, rule_table) {
                route = routes_take(&mut self.routes_by_index, if_index);
            }
        } else {
            assert(!(exists|c: Seq<char>| gone.contains(c))) by {
                assert forall|c: Seq<char>| !gone.contains(c) by {
                    if text_set(addrs@).contains(c) {
                        let j = choose|j: int| 0 <= j < addrs@.len() && (#[trigger] addrs@[j])@ == c;
                    }
                }
            }
        }
        proof {
            if self@.routes != e0.routes {
                assert(self@.routes =~= e0.routes.remove(if_index));
            }
            assert(self@.addresses == e0.addresses);
            assert(old(self)@ == e0);
            assert(text_set(desired@) == dset);
            assert forall|ip: Seq<char>| #[trigger] dropped_ips(recorded(old(self)@, mac@), text_set(desired@)).contains(ip)
                && old(self)@.rules_from.contains_key(ip)
                implies exists|i: int| 0 <= i < rules@.len()
                && (#[trigger] rules@[i]).model() == rule_spec(RuleSide::From, ip, old(self)@.rules_from[ip]) by {
                assert(ips_of(text_set(addrs@)).difference(di).contains(ip));
            }
            assert forall|ip: Seq<char>| #[trigger] dropped_ips(recorded(old(self)@, mac@), text_set(desired@)).contains(ip)
                && old(self)@.rules_to.contains_key(ip)
                implies exists|i: int| 0 <= i < rules@.len()
                && (#[trigger] rules@[i]).model() == rule_spec(RuleSide::To, ip, old(self)@.rules_to[ip]) by {
                assert(ips_of(text_set(addrs@)).difference(di).contains(ip));
            }
        }
        let ghost rq = rules@;
        let out = Retraction { rules, addresses: addrs, route };
        assert(out.rules@ == rq);
        out
    }

    /// Records `desired` as the addresses of `mac`.
    pub fn commit_addresses(&mut self, mac: &String, desired: Vec<String>)
        requires
            old(self).wf(),
            forall|j: int| 0 <= j < desired@.len() ==> is_cidr(#[trigger] desired@[j]@),
        ensures
            final(self).wf(),
            final(self)@ == committed(old(self)@, mac@, text_set(desired@)),
            final(self).kind == old(self).kind,
            final(self).links == old(self).links,
    {
        let ghost old_routes = self@.routes;
        let entry = MacAddresses { mac: mac.clone(), addresses: desired };
        match self.mac_position(mac) {
            Some(i) => {
                proof {
                    lemma_keyed_update(
                        self.addresses_by_mac@,
                        mac_key_fn(),
                        mac_val_fn(),
                        i as int,
                        entry,
                    );
                }
                self.addresses_by_mac.set(i, entry);
            },
            None => {
                proof {
                    lemma_keyed_push(self.addresses_by_mac@, mac_key_fn(), mac_val_fn(), entry);
                }
                self.addresses_by_mac.push(entry);
            },
        }
        assert(self@.routes == old_routes);
        assert forall|m: Seq<char>, c: Seq<char>| #[trigger] self@.addresses.contains_key(m) && #[trigger] self@.addresses[m].contains(c)
            implies is_cidr(c) by {
            if m == mac@ {
                let j = choose|j: int| 0 <= j < desired@.len() && (#[trigger] desired@[j])@ == c;
            } else {
                assert(old(self)@.addresses.contains_key(m));
            }
        }
    }
}

} // verus!

verus! {

/// Whether no recorded rule, `from` or `to`, points at `table`.
pub fn is_rules_by_table_empty(env: &Environment, table: u32) -> (r: bool)
    requires
        env.wf(),
    ensures
        r == (!table_used(env@.rules_from, table) && !table_used(env@.rules_to, table)),
{
    let has_from = rules_use_table(&env.routing_rules_by_address_from, RuleSide::From, table);
    let has_to = rules_use_table(&env.routing_rules_by_address_to, RuleSide::To, table);
    !has_from && !has_to
}

} // verus!
