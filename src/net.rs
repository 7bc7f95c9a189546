//! Links, routes and policy rules, and the keyed lists that record them.

use vstd::prelude::*;
use crate::keyed::{
    unique_keys, has_key, keyed_map, lemma_keyed_index, lemma_keyed_push, lemma_keyed_remove,
    lemma_keyed_update,
};

verus! {

/// A network interface as the kernel reports it.
#[derive(Debug, Clone)]
pub struct Link {
    pub name: String,
    pub ifindex: u32,
    pub oper_state: String,
    pub mac: String,
    pub mtu: u32,
    pub addresses: Option<Vec<String>>,
}

/// The interfaces of the host but loopback, keyed by hardware address.
#[derive(Debug, Clone)]
pub struct Links {
    pub links_by_mac: Vec<Link>,
}

pub open spec fn link_mac_fn() -> spec_fn(Link) -> Seq<char> {
    |l: Link| l.mac@
}

pub open spec fn link_fn() -> spec_fn(Link) -> Link {
    |l: Link| l
}

impl Links {
    /// No two links share a hardware address.
    pub open spec fn wf(&self) -> bool {
        unique_keys(self.links_by_mac@, link_mac_fn())
    }

    /// The links by hardware address.
    pub open spec fn by_mac(&self) -> Map<Seq<char>, Link> {
        keyed_map(self.links_by_mac@, link_mac_fn(), link_fn())
    }

    pub fn new() -> (r: Self)
        ensures
            r.wf(),
            r.links_by_mac@.len() == 0,
            r.by_mac() == Map::<Seq<char>, Link>::empty(),
    {
        let r = Links { links_by_mac: Vec::new() };
        proof {
            crate::keyed::lemma_keyed_empty(r.links_by_mac@, link_mac_fn(), link_fn());
        }
        r
    }

    /// Number of links.
    pub fn len(&self) -> (r: usize)
        ensures
            r == self.links_by_mac@.len(),
    {
        self.links_by_mac.len()
    }

    /// Adds a link, replacing the one with the same hardware address.
    pub fn insert(&mut self, link: Link)
        requires
            old(self).wf(),
        ensures
            final(self).wf(),
            final(self).by_mac() == old(self).by_mac().insert(link.mac@, link),
    {
        let mut i: usize = 0;
        while i < self.links_by_mac.len()
            invariant
                self.wf(),
                self.links_by_mac@ == old(self).links_by_mac@,
                i <= self.links_by_mac.len(),
                forall|j: int| 0 <= j < i ==> (#[trigger] self.links_by_mac@[j]).mac@ != link.mac@,
            decreases self.links_by_mac.len() - i,
        {
            if self.links_by_mac[i].mac == link.mac {
                proof {
                    lemma_keyed_update(
                        self.links_by_mac@,
                        link_mac_fn(),
                        link_fn(),
                        i as int,
                        link,
                    );
                }
                self.links_by_mac.set(i, link);
                return;
            }
            i = i + 1;
        }
        proof {
            lemma_keyed_push(self.links_by_mac@, link_mac_fn(), link_fn(), link);
        }
        self.links_by_mac.push(link);
    }
}

/// The hardware address of the link with interface index `if_index`.
pub fn get_link_mac_by_index(links: &Links, if_index: u32) -> (r: Option<String>)
    ensures
        r is Some <==> exists|i: int|
            0 <= i < links.links_by_mac@.len() && (#[trigger] links.links_by_mac@[i]).ifindex
                == if_index,
        r is Some ==> exists|i: int|
            0 <= i < links.links_by_mac@.len() && (#[trigger] links.links_by_mac@[i]).ifindex
                == if_index && links.links_by_mac@[i].mac@ == r->0@,
{
    let mut i: usize = 0;
    while i < links.links_by_mac.len()
        invariant
            i <= links.links_by_mac.len(),
            forall|j: int| 0 <= j < i ==> (#[trigger] links.links_by_mac@[j]).ifindex != if_index,
        decreases links.links_by_mac.len() - i,
    {
        if links.links_by_mac[i].ifindex == if_index {
            return Some(links.links_by_mac[i].mac.clone());
        }
        i = i + 1;
    }
    None
}

/// A default route of one interface in that interface's route table.
#[derive(Debug, Clone)]
pub struct Route {
    pub table: u32,
    pub if_index: u32,
    pub gw: String,
}

impl Route {
    /// A copy with equal fields.
    pub fn duplicate(&self) -> (r: Route)
        ensures
            r == *self,
    {
        Route { table: self.table, if_index: self.if_index, gw: self.gw.clone() }
    }
}

/// A source (`from`) or destination (`to`) policy rule pointing at a table.
#[derive(Debug, Clone)]
pub struct RoutingPolicyRule {
    pub from: Option<String>,
    pub to: Option<String>,
    pub table: u32,
}

/// Which address of a packet a policy rule matches on.
#[derive(Debug, Clone, Copy, PartialEq, Eq, Structural)]
pub enum RuleSide {
    From,
    To,
}

pub open spec fn opt_text(o: Option<String>) -> Option<Seq<char>> {
    match o {
        Some(s) => Some(s@),
        None => None,
    }
}

/// The rule of `side` for address text `ip` in `table`.
pub open spec fn rule_spec(side: RuleSide, ip: Seq<char>, table: u32) -> (Option<Seq<char>>, Option<Seq<char>>, u32) {
    match side {
        RuleSide::From => (Some(ip), None, table),
        RuleSide::To => (None, Some(ip), table),
    }
}

impl RoutingPolicyRule {
    /// The rule as plain values: source, destination, table.
    pub open spec fn model(&self) -> (Option<Seq<char>>, Option<Seq<char>>, u32) {
        (opt_text(self.from), opt_text(self.to), self.table)
    }

    /// The rule that sends packets from (or to) `ip` through `table`.
    pub fn for_address(side: RuleSide, ip: &String, table: u32) -> (r: Self)
        ensures
            r.model() == rule_spec(side, ip@, table),
    {
        match side {
            RuleSide::From => RoutingPolicyRule { from: Some(ip.clone()), to: None, table },
            RuleSide::To => RoutingPolicyRule { from: None, to: Some(ip.clone()), table },
        }
    }

    /// A copy with equal fields.
    pub fn duplicate(&self) -> (r: Self)
        ensures
            r == *self,
    {
        let from = match &self.from {
            Some(s) => Some(s.clone()),
            None => None,
        };
        let to = match &self.to {
            Some(s) => Some(s.clone()),
            None => None,
        };
        RoutingPolicyRule { from, to, table: self.table }
    }
}

/// Two optional addresses agree: both absent, or both present and equal.
pub open spec fn same_opt(a: Option<Seq<char>>, b: Option<Seq<char>>) -> bool {
    a == b
}

/// A rule listed by the kernel stands for `rule`: same table, same source
/// and same destination (an absent one matching only an absent one).
pub open spec fn rule_matches(rule: RoutingPolicyRule, listed: RoutingPolicyRule) -> bool {
    listed.table == rule.table && same_opt(opt_text(rule.from), opt_text(listed.from))
        && same_opt(opt_text(rule.to), opt_text(listed.to))
}

fn opt_eq(a: &Option<String>, b: &Option<String>) -> (r: bool)
    ensures
        r == same_opt(opt_text(*a), opt_text(*b)),
{
    match a {
        Some(x) => match b {
            Some(y) => *x == *y,
            None => false,
        },
        None => b.is_none(),
    }
}

/// Whether the kernel's rule listing already holds `rule`.
pub fn rule_exists(rule: &RoutingPolicyRule, listed: &Vec<RoutingPolicyRule>) -> (r: bool)
    ensures
        r == exists|i: int| 0 <= i < listed@.len() && rule_matches(*rule, #[trigger] listed@[i]),
{
    let mut i: usize = 0;
    while i < listed.len()
        invariant
            i <= listed.len(),
            forall|j: int| 0 <= j < i ==> !rule_matches(*rule, #[trigger] listed@[j]),
        decreases listed.len() - i,
    {
        let l = &listed[i];
        if l.table == rule.table && opt_eq(&rule.from, &l.from) && opt_eq(&rule.to, &l.to) {
            return true;
        }
        i = i + 1;
    }
    false
}

// ---- the record of installed rules, one list per side, keyed by address text

pub open spec fn rule_key_fn(side: RuleSide) -> spec_fn(RoutingPolicyRule) -> Seq<char> {
    |r: RoutingPolicyRule|
        match side {
            RuleSide::From => match r.from {
                Some(s) => s@,
                None => Seq::<char>::empty(),
            },
            RuleSide::To => match r.to {
                Some(s) => s@,
                None => Seq::<char>::empty(),
            },
        }
}

pub open spec fn rule_table_fn() -> spec_fn(RoutingPolicyRule) -> u32 {
    |r: RoutingPolicyRule| r.table
}

/// Each entry of a list of `side` is a rule of that side, and keys are unique.
pub open spec fn rules_wf(rules: Seq<RoutingPolicyRule>, side: RuleSide) -> bool {
    &&& unique_keys(rules, rule_key_fn(side))
    &&& forall|i: int|
        0 <= i < rules.len() ==> (#[trigger] rules[i]).model() == rule_spec(
            side,
            rule_key_fn(side)(rules[i]),
            rules[i].table,
        )
}

/// The recorded rules of one side: address text to table.
pub open spec fn rules_map(rules: Seq<RoutingPolicyRule>, side: RuleSide) -> Map<Seq<char>, u32> {
    keyed_map(rules, rule_key_fn(side), rule_table_fn())
}

/// Some recorded rule points at `table`.
pub open spec fn table_used(m: Map<Seq<char>, u32>, table: u32) -> bool {
    exists|k: Seq<char>| m.contains_key(k) && #[trigger] m[k] == table
}

fn rule_key_eq(r: &RoutingPolicyRule, side: RuleSide, ip: &String) -> (b: bool)
    requires
        r.model() == rule_spec(side, rule_key_fn(side)(*r), r.table),
    ensures
        b == (rule_key_fn(side)(*r) == ip@),
{
    match side {
        RuleSide::From => match &r.from {
            Some(s) => *s == *ip,
            None => false,
        },
        RuleSide::To => match &r.to {
            Some(s) => *s == *ip,
            None => false,
        },
    }
}

fn rules_position(rules: &Vec<RoutingPolicyRule>, side: RuleSide, ip: &String) -> (r: Option<usize>)
    requires
        rules_wf(rules@, side),
    ensures
        r is None ==> !rules_map(rules@, side).contains_key(ip@),
        r is Some ==> r->0 < rules@.len() && rule_key_fn(side)(rules@[r->0 as int]) == ip@,
{
    let mut i: usize = 0;
    while i < rules.len()
        invariant
            rules_wf(rules@, side),
            i <= rules.len(),
            forall|j: int| 0 <= j < i ==> #[trigger] rule_key_fn(side)(rules@[j]) != ip@,
        decreases rules.len() - i,
    {
        if rule_key_eq(&rules[i], side, ip) {
            return Some(i);
        }
        i = i + 1;
    }
    None
}

/// Records the rule of `side` for `ip` in `table`, replacing one for the same address.
pub fn rules_record(rules: &mut Vec<RoutingPolicyRule>, side: RuleSide, ip: &String, table: u32)
    requires
        rules_wf(old(rules)@, side),
    ensures
        rules_wf(final(rules)@, side),
        rules_map(final(rules)@, side) == rules_map(old(rules)@, side).insert(ip@, table),
{
    let rule = RoutingPolicyRule::for_address(side, ip, table);
    assert(rule_key_fn(side)(rule) == ip@);
    match rules_position(rules, side, ip) {
        Some(i) => {
            proof {
                lemma_keyed_update(rules@, rule_key_fn(side), rule_table_fn(), i as int, rule);
            }
            rules.set(i, rule);
        },
        None => {
            proof {
                lemma_keyed_push(rules@, rule_key_fn(side), rule_table_fn(), rule);
            }
            rules.push(rule);
        },
    }
}

/// Takes the rule of `side` for `ip` out of the record.
pub fn rules_take(rules: &mut Vec<RoutingPolicyRule>, side: RuleSide, ip: &String) -> (r: Option<
    RoutingPolicyRule,
>)
    requires
        rules_wf(old(rules)@, side),
    ensures
        rules_wf(final(rules)@, side),
        rules_map(final(rules)@, side) == rules_map(old(rules)@, side).remove(ip@),
        r is Some <==> rules_map(old(rules)@, side).contains_key(ip@),
        r is Some ==> r->0.model() == rule_spec(side, ip@, rules_map(old(rules)@, side)[ip@]),
{
    match rules_position(rules, side, ip) {
        Some(i) => {
            proof {
                lemma_keyed_remove(rules@, rule_key_fn(side), rule_table_fn(), i as int);
                lemma_keyed_index(rules@, rule_key_fn(side), rule_table_fn(), i as int);
            }
            let r = rules.remove(i);
            Some(r)
        },
        None => {
            assert(rules_map(old(rules)@, side).remove(ip@) =~= rules_map(old(rules)@, side));
            None
        },
    }
}

/// Whether any recorded rule points at `table`.
pub fn rules_use_table(rules: &Vec<RoutingPolicyRule>, side: RuleSide, table: u32) -> (r: bool)
    requires
        rules_wf(rules@, side),
    ensures
        r == table_used(rules_map(rules@, side), table),
{
    let ghost m = rules_map(rules@, side);
    let mut i: usize = 0;
    while i < rules.len()
        invariant
            rules_wf(rules@, side),
            m == rules_map(rules@, side),
            i <= rules.len(),
            forall|j: int| 0 <= j < i ==> (#[trigger] rules@[j]).table != table,
        decreases rules.len() - i,
    {
        if rules[i].table == table {
            proof {
                lemma_keyed_index(rules@, rule_key_fn(side), rule_table_fn(), i as int);
                assert(m[rule_key_fn(side)(rules@[i as int])] == table);
            }
            return true;
        }
        i = i + 1;
    }
    assert forall|k: Seq<char>| m.contains_key(k) implies #[trigger] m[k] != table by {
        let j = choose|j: int| 0 <= j < rules@.len() && #[trigger] rule_key_fn(side)(rules@[j]) == k;
        lemma_keyed_index(rules@, rule_key_fn(side), rule_table_fn(), j);
    }
    false
}

// ---- the record of installed routes, keyed by interface index

pub open spec fn route_key_fn() -> spec_fn(Route) -> u32 {
    |r: Route| r.if_index
}

pub open spec fn route_val_fn() -> spec_fn(Route) -> (u32, Seq<char>) {
    |r: Route| (r.table, r.gw@)
}

pub open spec fn routes_map(routes: Seq<Route>) -> Map<u32, (u32, Seq<char>)> {
    keyed_map(routes, route_key_fn(), route_val_fn())
}

fn routes_position(routes: &Vec<Route>, if_index: u32) -> (r: Option<usize>)
    requires
        unique_keys(routes@, route_key_fn()),
    ensures
        r is None ==> !routes_map(routes@).contains_key(if_index),
        r is Some ==> r->0 < routes@.len() && routes@[r->0 as int].if_index == if_index,
{
    let mut i: usize = 0;
    while i < routes.len()
        invariant
            i <= routes.len(),
            forall|j: int| 0 <= j < i ==> (#[trigger] routes@[j]).if_index != if_index,
        decreases routes.len() - i,
    {
        if routes[i].if_index == if_index {
            return Some(i);
        }
        i = i + 1;
    }
    assert(!has_key(routes@, route_key_fn(), if_index));
    None
}

/// Records `route` as the route of its interface.
pub fn routes_record(routes: &mut Vec<Route>, route: Route)
    requires
        unique_keys(old(routes)@, route_key_fn()),
    ensures
        unique_keys(final(routes)@, route_key_fn()),
        routes_map(final(routes)@) == routes_map(old(routes)@).insert(
            route.if_index,
            (route.table, route.gw@),
        ),
{
    match routes_position(routes, route.if_index) {
        Some(i) => {
            proof {
                lemma_keyed_update(routes@, route_key_fn(), route_val_fn(), i as int, route);
            }
            routes.set(i, route);
        },
        None => {
            proof {
                lemma_keyed_push(routes@, route_key_fn(), route_val_fn(), route);
            }
            routes.push(route);
        },
    }
}

/// Takes the route of `if_index` out of the record.
pub fn routes_take(routes: &mut Vec<Route>, if_index: u32) -> (r: Option<Route>)
    requires
        unique_keys(old(routes)@, route_key_fn()),
    ensures
        unique_keys(final(routes)@, route_key_fn()),
        routes_map(final(routes)@) == routes_map(old(routes)@).remove(if_index),
        r is Some <==> routes_map(old(routes)@).contains_key(if_index),
        r is Some ==> r->0.if_index == if_index && (r->0.table, r->0.gw@) == routes_map(
            old(routes)@,
        )[if_index],
{
    match routes_position(routes, if_index) {
        Some(i) => {
            proof {
                lemma_keyed_remove(routes@, route_key_fn(), route_val_fn(), i as int);
                lemma_keyed_index(routes@, route_key_fn(), route_val_fn(), i as int);
            }
            let r = routes.remove(i);
            Some(r)
        },
        None => {
            assert(routes_map(old(routes)@).remove(if_index) =~= routes_map(old(routes)@));
            None
        },
    }
}

} // verus!

verus! {

/// The loopback interface's name.
pub open spec fn is_loopback_name(name: Seq<char>) -> bool {
    name == seq!['l', 'o']
}

impl Links {
    /// Adds an enumerated link to the inventory, unless it is the loopback
    /// interface, which the daemon never manages.
    pub fn add_enumerated(&mut self, link: Link)
        requires
            old(self).wf(),
        ensures
            final(self).wf(),
            is_loopback_name(link.name@) ==> *final(self) == *old(self),
            !is_loopback_name(link.name@) ==> final(self).by_mac() == old(self).by_mac().insert(link.mac@, link),
    {
        let mut lo = String::new();
        crate::text::push_char(&mut lo, 'l');
        crate::text::push_char(&mut lo, 'o');
        assert(lo@ =~= seq!['l', 'o']);
        if link.name == lo {
            return;
        }
        self.insert(link);
    }
}

} // verus!

verus! {

impl Links {
    /// The position of the first link named `name`.
    pub fn index_by_name(&self, name: &str) -> (r: Option<usize>)
        ensures
            r is None ==> forall|i: int| 0 <= i < self.links_by_mac@.len() ==> (#[trigger] self.links_by_mac@[i]).name@ != name@,
            r matches Some(i) ==> i < self.links_by_mac@.len() && self.links_by_mac@[i as int].name@ == name@
                && forall|j: int| 0 <= j < i ==> (#[trigger] self.links_by_mac@[j]).name@ != name@,
    {
        let wanted = String::from_str(name);
        let mut i: usize = 0;
        while i < self.links_by_mac.len()
            invariant
                wanted@ == name@,
                i <= self.links_by_mac@.len(),
                forall|j: int| 0 <= j < i ==> (#[trigger] self.links_by_mac@[j]).name@ != name@,
            decreases self.links_by_mac@.len() - i,
        {
            if self.links_by_mac[i].name == wanted {
                return Some(i);
            }
            i = i + 1;
        }
        None
    }
}

} // verus!
