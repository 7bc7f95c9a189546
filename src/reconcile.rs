//! One reconciliation pass over one link, as a machine that asks for one
//! kernel request at a time.
//!
//! The caller creates a [`LinkPass`], performs [`LinkPass::action`], hands
//! the kernel's answer to [`LinkPass::on_event`], and repeats until the
//! action is [`Action::Finished`]. The pass records an address, route or
//! rule in the [`Environment`] once the kernel has accepted the request that
//! installs it; retraction takes stale entries out of the record first and
//! then queues their removal from the kernel.

use vstd::prelude::*;
use crate::env::{
    Environment, EnvState, Retraction, committed, retracted, text_set, with_route, with_rule,
    copy_texts, ips_of,
};
use crate::gateway::{GatewaySource, RouteEntry, first_gateway, gateway_from_routes, next_source, source_after};
use crate::ip::{Cidr, cidr_of, ip_part, ip_part_of, is_cidr, is_ipv4, ipv4_value, parse_cidr, parse_ipv4};
use crate::net::{Link, Route, RoutingPolicyRule, RuleSide, rule_exists, rule_matches, rule_spec};
use crate::table::{route_table, route_table_of, rule_table, rule_table_of};

verus! {

/// Why a pass stopped.
#[derive(Debug, Clone, Copy, PartialEq, Eq, Structural)]
pub enum NetError {
    /// A wanted address is not `a.b.c.d/len` text.
    InvalidAddress,
    /// A gateway is not a dotted-quad address.
    InvalidGateway,
    /// The link's table numbers do not fit in 32 bits.
    TableOutOfRange,
    /// No gateway was found for the link's default route.
    GatewayNotFound,
    LinkUp,
    LinkMtu,
    AddressAdd,
    RouteAdd,
    RouteRemove,
    RuleAdd,
    /// The answer does not belong to the request that was made.
    UnexpectedEvent,
}

/// A kernel request.
#[derive(Debug)]
pub enum Action {
    SetLinkUp { if_index: u32 },
    SetMtu { if_index: u32, mtu: u32 },
    /// Add the address, replacing a conflicting one.
    ReplaceAddress { if_name: String, cidr: Cidr },
    LookupGateway { if_index: u32, source: GatewaySource },
    AddRoute { route: Route, gateway: u32 },
    /// List the IPv4 policy rules.
    ListRules,
    AddRule { rule: RoutingPolicyRule, ip: u32 },
    RemoveRule { rule: RoutingPolicyRule, ip: u32 },
    RemoveAddress { if_name: String, cidr: Cidr },
    RemoveRoute { route: Route, gateway: u32 },
    /// Nothing more to do.
    Finished,
}

/// The kernel's answer to a request.
#[derive(Debug)]
pub enum Event {
    /// The request was carried out.
    Done,
    /// The object to add was already there.
    Exists,
    /// Any other failure.
    Failed,
    /// The kernel's IPv4 routes, for a gateway lookup.
    Routes(Vec<RouteEntry>),
    /// The policy rules the kernel holds, as plain values.
    Rules(Vec<RoutingPolicyRule>),
}

impl Event {
    pub fn is_failed(&self) -> (r: bool)
        ensures
            r == self is Failed,
    {
        match self {
            Event::Failed => true,
            _ => false,
        }
    }
}

/// Where a pass stands.
#[derive(Debug, Clone, Copy, PartialEq, Eq, Structural)]
pub enum Stage {
    LinkUp,
    Mtu,
    Address(usize),
    Gateway(GatewaySource),
    Route,
    ListRules,
    Rule(usize, RuleSide),
    Retract(usize),
    Finished,
}

pub struct LinkPass {
    pub if_name: String,
    pub if_index: u32,
    pub mac: String,
    pub mtu: Option<u32>,
    pub desired: Vec<String>,
    pub cidrs: Vec<Cidr>,
    pub ips: Vec<String>,
    pub gateway: Option<String>,
    pub route_table: u32,
    pub rule_table: u32,
    pub uplinks: usize,
    pub listed: Vec<RoutingPolicyRule>,
    pub pending: Option<Route>,
    pub pending_gateway: u32,
    pub route: Option<Route>,
    pub removals: Vec<Action>,
    pub gateway_missing: bool,
    pub stage: Stage,
    pub start: Ghost<EnvState>,
}

/// `e` with the `from` and `to` rules of every address in `ips` pointing at `table`.
pub open spec fn with_rule_set(e: EnvState, ips: Set<Seq<char>>, table: u32) -> EnvState {
    EnvState {
        rules_from: e.rules_from.union_prefer_right(Map::new(|k: Seq<char>| ips.contains(k), |k: Seq<char>| table)),
        rules_to: e.rules_to.union_prefer_right(Map::new(|k: Seq<char>| ips.contains(k), |k: Seq<char>| table)),
        ..e
    }
}

/// `e` with the default route of a pass, where one was installed.
pub open spec fn with_opt_route(e: EnvState, route: Option<Route>) -> EnvState {
    match route {
        Some(r) => with_route(e, r.if_index, r.table, r.gw@),
        None => e,
    }
}

/// The record after a complete pass that wanted `desired` on the link
/// `mac` / `if_index` and installed `route` (none where no gateway was found
/// or nothing was wanted).
pub open spec fn pass_result(
    e: EnvState,
    mac: Seq<char>,
    if_index: u32,
    rule_table: u32,
    desired: Set<Seq<char>>,
    route: Option<Route>,
) -> EnvState {
    committed(
        retracted(
            with_rule_set(with_opt_route(e, route), ips_of(desired), rule_table),
            mac,
            if_index,
            rule_table,
            desired,
        ),
        mac,
        desired,
    )
}

pub open spec fn rule_is_needed(uplinks: int, listed: Seq<RoutingPolicyRule>, rule: RoutingPolicyRule) -> bool {
    uplinks >= 2 && !(exists|i: int| 0 <= i < listed.len() && rule_matches(rule, #[trigger] listed[i]))
}

/// The request takes something out of the kernel.
pub open spec fn is_removal(a: Action) -> bool {
    a is RemoveRule || a is RemoveAddress || a is RemoveRoute
}

/// A copy of a queued removal.
fn removal_copy(a: &Action) -> (r: Action)
    ensures
        !(r is Finished),
        !(r is AddRule),
        is_removal(*a) ==> r == *a,
{
    match a {
        Action::RemoveRule { rule, ip } => Action::RemoveRule { rule: rule.duplicate(), ip: *ip },
        Action::RemoveAddress { if_name, cidr } => Action::RemoveAddress { if_name: if_name.clone(), cidr: *cidr },
        Action::RemoveRoute { route, gateway } => Action::RemoveRoute { route: route.duplicate(), gateway: *gateway },
        _ => Action::ListRules,
    }
}

/// The address text of a rule: its source, else its destination.
pub open spec fn rule_text(r: RoutingPolicyRule) -> Seq<char> {
    match r.from {
        Some(t) => t@,
        None => match r.to {
            Some(t) => t@,
            None => Seq::<char>::empty(),
        },
    }
}

/// Position of the rule of `side` for wanted address `i` in the order the
/// pass installs rules: `from` then `to` for each address in turn.
pub open spec fn rule_pos(i: int, side: RuleSide) -> int {
    2 * i + (if side == RuleSide::To { 1int } else { 0int })
}

pub open spec fn side_at(m: int) -> RuleSide {
    if m % 2 == 0 {
        RuleSide::From
    } else {
        RuleSide::To
    }
}

/// The rule at position `m` must be sent to the kernel.
pub open spec fn needed_at(p: LinkPass, m: int) -> bool {
    rule_is_needed(p.uplinks as int, p.listed@, p.rule_at(m / 2, side_at(m)))
}

/// Where the rule phase stands once it has gone through the rules from
/// position `from` on: at the first rule that must be sent, or, where none
/// is left, at the first queued removal, or finished when none is queued.
pub open spec fn rule_phase_outcome(q: LinkPass, from: int) -> bool {
    let n2 = 2 * q.desired@.len();
    &&& (q.stage is Rule ==> {
        let k = rule_pos(q.stage->Rule_0 as int, q.stage->Rule_1);
        &&& from <= k < n2
        &&& needed_at(q, k)
        &&& forall|m: int| from <= m < k ==> !needed_at(q, m)
    })
    &&& (!(q.stage is Rule) ==> (forall|m: int| from <= m < n2 ==> !needed_at(q, m))
        && q.stage == (if q.removals@.len() > 0 { Stage::Retract(0) } else { Stage::Finished }))
}

pub open spec fn accepted(ev: Event) -> bool {
    ev is Done || ev is Exists
}

/// The pass went on: it succeeded, or it finished without a gateway.
pub open spec fn went_on(r: Result<(), NetError>, p: LinkPass) -> bool {
    r is Ok || (r == Err::<(), NetError>(NetError::GatewayNotFound) && p.is_finished() && p.gateway_missing)
}

/// How a pass `p` answers the kernel's answer `ev`, becoming `q` with the
/// record going from `e0` to `e1` and the result `r`.
pub open spec fn answered(p: LinkPass, q: LinkPass, e0: EnvState, e1: EnvState, ev: Event, r: Result<(), NetError>) -> bool {
    let n = p.desired@.len();
    &&& (r is Err && r != Err::<(), NetError>(NetError::GatewayNotFound) ==> e1 == e0)
    &&& (ev is Failed && p.stage == Stage::LinkUp ==> r == Err::<(), NetError>(NetError::LinkUp))
    &&& (ev is Failed && p.stage == Stage::Mtu ==> r == Err::<(), NetError>(NetError::LinkMtu))
    &&& (ev is Failed && p.stage is Address ==> r == Err::<(), NetError>(NetError::AddressAdd))
    &&& (ev is Failed && p.stage is Route ==> r == Err::<(), NetError>(NetError::RouteAdd))
    &&& (ev is Failed && p.stage is Rule ==> r == Err::<(), NetError>(NetError::RuleAdd))
    &&& (ev is Failed && p.stage is Retract && p.removals@[p.stage->Retract_0 as int] is RemoveRoute
        ==> r == Err::<(), NetError>(NetError::RouteRemove))
    &&& (accepted(ev) && p.stage == Stage::LinkUp ==> r is Ok && e1 == e0
        && q.stage == (if p.mtu is Some { Stage::Mtu } else { Stage::Address(0) }))
    &&& (accepted(ev) && p.stage == Stage::Mtu ==> r is Ok && e1 == e0 && q.stage == Stage::Address(0))
    &&& (accepted(ev) && p.stage is Address && p.stage->Address_0 + 1 < n ==> r is Ok && e1 == e0
        && q.stage == Stage::Address((p.stage->Address_0 + 1) as usize))
    &&& (accepted(ev) && p.stage is Address && p.stage->Address_0 + 1 == n && p.gateway is None
        ==> r is Ok && e1 == e0 && q.stage == Stage::Gateway(GatewaySource::LinkDefault))
    &&& (accepted(ev) && p.stage is Address && p.stage->Address_0 + 1 == n && p.gateway is Some
        ==> (r is Ok <==> is_ipv4(p.gateway->0@)) && (r is Ok ==> q.stage == Stage::Route
            && q.pending is Some && q.pending->0.gw@ == p.gateway->0@))
    &&& (ev is Routes && p.stage is Gateway ==> ({
        let found = first_gateway(ev->Routes_0@, p.if_index, p.stage->Gateway_0);
        &&& (found is Some ==> (r is Ok <==> is_ipv4(found->0)) && (r is Ok ==> q.stage == Stage::Route
            && q.pending is Some && q.pending->0.gw@ == found->0))
        &&& (found is None && source_after(p.stage->Gateway_0) is Some ==> r is Ok
            && q.stage == Stage::Gateway(source_after(p.stage->Gateway_0)->0))
        &&& (found is None && source_after(p.stage->Gateway_0) is None ==> went_on(r, q) && q.gateway_missing
            && q.route is None)
    }))
    &&& (accepted(ev) && p.stage is Route ==> r is Ok && q.route == p.pending
        && (p.uplinks >= 2 ==> q.stage == Stage::ListRules)
        && (p.uplinks < 2 ==> rule_phase_outcome(q, 0)))
    &&& (ev is Routes && p.stage is Gateway && first_gateway(ev->Routes_0@, p.if_index, p.stage->Gateway_0) is None
        && source_after(p.stage->Gateway_0) is None
        ==> (p.uplinks >= 2 ==> q.stage == Stage::ListRules) && (p.uplinks < 2 ==> rule_phase_outcome(q, 0)))
    &&& (ev is Rules && p.stage is ListRules ==> went_on(r, q) && q.listed == ev->Rules_0
        && rule_phase_outcome(q, 0))
    &&& (accepted(ev) && p.stage is Rule ==> went_on(r, q)
        && rule_phase_outcome(q, rule_pos(p.stage->Rule_0 as int, p.stage->Rule_1) + 1))
    &&& (p.stage is Retract && !(ev is Failed && p.removals@[p.stage->Retract_0 as int] is RemoveRoute)
        ==> went_on(r, q) && (p.stage->Retract_0 + 1 < p.removals@.len()
            ==> q.stage == Stage::Retract((p.stage->Retract_0 + 1) as usize))
        && (p.stage->Retract_0 + 1 == p.removals@.len() ==> q.is_finished()))
}

/// The queued removals `q` are those of the retraction from the record `w`:
/// a request for each stale address, for each rule taken out of the record
/// (whose address is IPv4 text) and for the route where it was taken out;
/// nothing else.
#[verifier::opaque]
pub open spec fn queued_removals_match(
    q: Seq<Action>,
    w: EnvState,
    start: EnvState,
    mac: Seq<char>,
    desired: Set<Seq<char>>,
    if_index: u32,
    rule_table: u32,
    if_name: Seq<char>,
) -> bool {
    let old_set = crate::env::recorded(start, mac);
    let gone = crate::env::stale(old_set, desired);
    let dropped = crate::env::dropped_ips(old_set, desired);
    let after = retracted(w, mac, if_index, rule_table, desired);
    &&& forall|k: int| 0 <= k < q.len() && (#[trigger] q[k]) is RemoveAddress ==> q[k]->RemoveAddress_if_name@
        == if_name && exists|c: Seq<char>| gone.contains(c) && is_cidr(c) && q[k]->RemoveAddress_cidr == cidr_of(c)
    &&& forall|c: Seq<char>| gone.contains(c) && is_cidr(c) ==> exists|k: int| 0 <= k < q.len()
        && (#[trigger] q[k]) is RemoveAddress && q[k]->RemoveAddress_cidr == cidr_of(c)
    &&& forall|k: int| 0 <= k < q.len() && (#[trigger] q[k]) is RemoveRule ==> dropped.contains(rule_text(q[k]->RemoveRule_rule))
        && is_ipv4(rule_text(q[k]->RemoveRule_rule)) && q[k]->RemoveRule_ip as nat == ipv4_value(rule_text(q[k]->RemoveRule_rule))
        && exists|side: RuleSide| q[k]->RemoveRule_rule.model() == rule_spec(side, rule_text(q[k]->RemoveRule_rule), q[k]->RemoveRule_rule.table)
    &&& forall|ip: Seq<char>| #[trigger] dropped.contains(ip) && w.rules_from.contains_key(ip) && is_ipv4(ip)
        ==> exists|k: int| 0 <= k < q.len() && (#[trigger] q[k]) is RemoveRule
        && q[k]->RemoveRule_rule.model() == rule_spec(RuleSide::From, ip, w.rules_from[ip])
    &&& forall|ip: Seq<char>| #[trigger] dropped.contains(ip) && w.rules_to.contains_key(ip) && is_ipv4(ip)
        ==> exists|k: int| 0 <= k < q.len() && (#[trigger] q[k]) is RemoveRule
        && q[k]->RemoveRule_rule.model() == rule_spec(RuleSide::To, ip, w.rules_to[ip])
    &&& (exists|k: int| 0 <= k < q.len() && (#[trigger] q[k]) is RemoveRoute) <==> (w.routes.contains_key(if_index)
        && !after.routes.contains_key(if_index))
    &&& forall|k: int| 0 <= k < q.len() && (#[trigger] q[k]) is RemoveRoute ==> q[k]->RemoveRoute_route.if_index
        == if_index && (q[k]->RemoveRoute_route.table, q[k]->RemoveRoute_route.gw@) == w.routes[if_index]
        && q[k]->RemoveRoute_gateway as nat == ipv4_value(q[k]->RemoveRoute_route.gw@)
}

/// The removal requests of a retraction from the record `w` (which became
/// `after`): each rule taken out, each stale address, then the route.
fn removal_queue(
    rules: Vec<RoutingPolicyRule>,
    addresses: Vec<String>,
    route: Option<Route>,
    if_name: &String,
    w: Ghost<EnvState>,
    after: Ghost<EnvState>,
    start: Ghost<EnvState>,
    mac: Ghost<Seq<char>>,
    desired: Ghost<Set<Seq<char>>>,
    if_index: u32,
    rule_table: u32,
) -> (r: Vec<Action>)
    requires
        crate::env::recorded(w@, mac@) == crate::env::recorded(start@, mac@),
        after@ == retracted(w@, mac@, if_index, rule_table, desired@),
        text_set(addresses@) == crate::env::stale(crate::env::recorded(w@, mac@), desired@),
        route is Some <==> (w@.routes.contains_key(if_index) && !after@.routes.contains_key(if_index)),
        route is Some ==> route->0.if_index == if_index
            && (route->0.table, route->0.gw@) == w@.routes[if_index] && is_ipv4(route->0.gw@),
        forall|i: int| 0 <= i < rules@.len() ==> exists|side: RuleSide, ip: Seq<char>|
            crate::env::dropped_ips(crate::env::recorded(w@, mac@), desired@).contains(ip)
            && (#[trigger] rules@[i]).model() == rule_spec(side, ip, rules@[i].table),
        forall|ip: Seq<char>| #[trigger] crate::env::dropped_ips(crate::env::recorded(w@, mac@), desired@).contains(ip)
            && w@.rules_from.contains_key(ip) ==> exists|i: int| 0 <= i < rules@.len()
            && (#[trigger] rules@[i]).model() == rule_spec(RuleSide::From, ip, w@.rules_from[ip]),
        forall|ip: Seq<char>| #[trigger] crate::env::dropped_ips(crate::env::recorded(w@, mac@), desired@).contains(ip)
            && w@.rules_to.contains_key(ip) ==> exists|i: int| 0 <= i < rules@.len()
            && (#[trigger] rules@[i]).model() == rule_spec(RuleSide::To, ip, w@.rules_to[ip]),
    ensures
        queued_removals_match(r@, w@, start@, mac@, desired@, if_index, rule_table, if_name@),
        forall|k: int| 0 <= k < r@.len() ==> is_removal(#[trigger] r@[k]),
        r@.len() > 0 ==> exists|c: Seq<char>| crate::env::stale(crate::env::recorded(start@, mac@), desired@).contains(c),
{
    let ghost old_set = crate::env::recorded(w@, mac@);
    let ghost dropped = crate::env::dropped_ips(old_set, desired@);
    let ghost gone = crate::env::stale(old_set, desired@);
    let ghost w = w@;
    let ghost env_after = after@;
        let mut removals = rule_removals(&rules, Ghost(dropped));
        let ghost rq = removals@;
        let mut more = address_removals(&addresses, if_name);
        let ghost aq = more@;
        removals.append(&mut more);
        let ghost before_route = removals@;
        match route {
            Some(rt) => {
                match parse_ipv4(rt.gw.as_str()) {
                    Some(gateway) => { removals.push(Action::RemoveRoute { route: rt, gateway }); },
                    None => {},
                }
            },
            None => {},
        }
        assert(queued_removals_match(removals@, w, start@, mac@, desired@,
            if_index, rule_table, if_name@)) by {
            reveal(queued_removals_match);
            let q = removals@;
            assert(forall|k: int| 0 <= k < rq.len() ==> q[k] == #[trigger] rq[k]);
            assert(forall|k: int| 0 <= k < aq.len() ==> q[rq.len() + k] == #[trigger] aq[k]);
            assert forall|k: int| 0 <= k < q.len() implies is_removal(#[trigger] q[k]) by {
                if k < rq.len() {
                    assert(q[k] == rq[k]);
                } else if k < rq.len() + aq.len() {
                    assert(q[k] == aq[k - rq.len()]);
                }
            }
            assert forall|k: int| 0 <= k < q.len() && (#[trigger] q[k]) is RemoveAddress implies q[k]->RemoveAddress_if_name@
                == if_name@ && exists|c: Seq<char>| gone.contains(c) && is_cidr(c) && q[k]->RemoveAddress_cidr == cidr_of(c) by {
                if k < rq.len() {
                    assert(q[k] == rq[k]);
                } else {
                    assert(q[k] == aq[k - rq.len()]);
                    let p = choose|p: int| 0 <= p < addresses@.len() && is_cidr(addresses@[p]@)
                        && aq[k - rq.len()]->RemoveAddress_cidr == cidr_of(addresses@[p]@);
                    assert(text_set(addresses@).contains(addresses@[p]@));
                }
            }
            assert forall|c: Seq<char>| gone.contains(c) && is_cidr(c) implies exists|k: int| 0 <= k < q.len()
                && (#[trigger] q[k]) is RemoveAddress && q[k]->RemoveAddress_cidr == cidr_of(c) by {
                let p = choose|p: int| 0 <= p < addresses@.len() && (#[trigger] addresses@[p])@ == c;
                let k = choose|k: int| 0 <= k < aq.len() && (#[trigger] aq[k]) is RemoveAddress && aq[k]->RemoveAddress_cidr == cidr_of(addresses@[p]@);
                assert(q[rq.len() + k] == aq[k]);
            }
            assert forall|k: int| 0 <= k < q.len() && (#[trigger] q[k]) is RemoveRule implies dropped.contains(rule_text(q[k]->RemoveRule_rule))
                && is_ipv4(rule_text(q[k]->RemoveRule_rule)) && q[k]->RemoveRule_ip as nat == ipv4_value(rule_text(q[k]->RemoveRule_rule))
                && exists|side: RuleSide| q[k]->RemoveRule_rule.model() == rule_spec(side, rule_text(q[k]->RemoveRule_rule), q[k]->RemoveRule_rule.table) by {
                if k < rq.len() {
                    assert(q[k] == rq[k]);
                } else if k < rq.len() + aq.len() {
                    assert(q[k] == aq[k - rq.len()]);
                }
            }
            assert forall|ip: Seq<char>| #[trigger] dropped.contains(ip) && w.rules_from.contains_key(ip) && is_ipv4(ip)
                implies exists|k: int| 0 <= k < q.len() && (#[trigger] q[k]) is RemoveRule
                && q[k]->RemoveRule_rule.model() == rule_spec(RuleSide::From, ip, w.rules_from[ip]) by {
                let p = choose|p: int| 0 <= p < rules@.len()
                    && (#[trigger] rules@[p]).model() == rule_spec(RuleSide::From, ip, w.rules_from[ip]);
                assert(rule_text(rules@[p]) == ip);
                let k = choose|k: int| 0 <= k < rq.len() && (#[trigger] rq[k]) is RemoveRule && rq[k]->RemoveRule_rule == rules@[p];
                assert(q[k] == rq[k]);
            }
            assert forall|ip: Seq<char>| #[trigger] dropped.contains(ip) && w.rules_to.contains_key(ip) && is_ipv4(ip)
                implies exists|k: int| 0 <= k < q.len() && (#[trigger] q[k]) is RemoveRule
                && q[k]->RemoveRule_rule.model() == rule_spec(RuleSide::To, ip, w.rules_to[ip]) by {
                let p = choose|p: int| 0 <= p < rules@.len()
                    && (#[trigger] rules@[p]).model() == rule_spec(RuleSide::To, ip, w.rules_to[ip]);
                assert(rule_text(rules@[p]) == ip);
                let k = choose|k: int| 0 <= k < rq.len() && (#[trigger] rq[k]) is RemoveRule && rq[k]->RemoveRule_rule == rules@[p];
                assert(q[k] == rq[k]);
            }
            assert forall|k: int| 0 <= k < before_route.len() implies !(#[trigger] q[k] is RemoveRoute) by {
                if k < rq.len() {
                    assert(q[k] == rq[k]);
                } else {
                    assert(q[k] == aq[k - rq.len()]);
                }
            }
            if route is Some {
                assert(q[q.len() - 1] is RemoveRoute);
            }
        }
        assert(forall|k: int| 0 <= k < removals@.len() ==> is_removal(#[trigger] removals@[k])) by {
            let q = removals@;
            assert forall|k: int| 0 <= k < q.len() implies is_removal(#[trigger] q[k]) by {
                if k < rq.len() {
                    assert(q[k] == rq[k]);
                } else if k < rq.len() + aq.len() {
                    assert(q[k] == aq[k - rq.len()]);
                }
            }
        }
        proof {
            let q = removals@;
            // a non-empty queue means some address was stale
            if q.len() > 0 {
                if addresses@.len() > 0 {
                    assert(text_set(addresses@).contains(addresses@[0]@));
                    assert(gone.contains(addresses@[0]@));
                } else if rules@.len() > 0 {
                    let r0 = rules@[0];
                    let (side, ip) = choose|side: RuleSide, ip: Seq<char>|
                        dropped.contains(ip) && r0.model() == rule_spec(side, ip, r0.table);
                    assert(ips_of(gone).contains(ip));
                    let c = choose|c: Seq<char>| gone.contains(c) && ip_part(c) == ip;
                    assert(gone.contains(c));
                } else if rq.len() + aq.len() > 0 {
                    if rq.len() > 0 {
                        assert(rq.len() <= rules@.len());
                    } else {
                        assert(aq.len() <= addresses@.len());
                    }
                } else {
                    assert(route is Some);
                    assert(env_after.routes != w.routes);
                }
            }
        }
    removals
}

/// A removal request for each rule whose address is IPv4 text.
fn rule_removals(rules: &Vec<RoutingPolicyRule>, dropped: Ghost<Set<Seq<char>>>) -> (r: Vec<Action>)
    requires
        forall|q: int| 0 <= q < rules@.len() ==> exists|side: RuleSide, ip: Seq<char>|
            dropped@.contains(ip) && (#[trigger] rules@[q]).model() == rule_spec(side, ip, rules@[q].table),
    ensures
        r@.len() <= rules@.len(),
        forall|k: int| 0 <= k < r@.len() ==> (#[trigger] r@[k]) is RemoveRule,
        forall|k: int| 0 <= k < r@.len() ==> dropped@.contains(rule_text((#[trigger] r@[k])->RemoveRule_rule))
            && is_ipv4(rule_text(r@[k]->RemoveRule_rule)) && r@[k]->RemoveRule_ip as nat == ipv4_value(rule_text(r@[k]->RemoveRule_rule))
            && exists|side: RuleSide| r@[k]->RemoveRule_rule.model() == rule_spec(side, rule_text(r@[k]->RemoveRule_rule), r@[k]->RemoveRule_rule.table),
        forall|q: int| 0 <= q < rules@.len() && is_ipv4(rule_text(#[trigger] rules@[q])) ==> exists|k: int| 0 <= k < r@.len()
            && (#[trigger] r@[k]) is RemoveRule && r@[k]->RemoveRule_rule == rules@[q],
{
    let mut removals: Vec<Action> = Vec::new();
    let mut i: usize = 0;
    while i < rules.len()
        invariant
            i <= rules.len(),
            removals@.len() <= i,
            forall|q: int| 0 <= q < rules@.len() ==> exists|side: RuleSide, ip: Seq<char>|
                dropped@.contains(ip) && (#[trigger] rules@[q]).model() == rule_spec(side, ip, rules@[q].table),
            forall|k: int| 0 <= k < removals@.len() ==> (#[trigger] removals@[k]) is RemoveRule,
            forall|k: int| 0 <= k < removals@.len() ==> dropped@.contains(rule_text((#[trigger] removals@[k])->RemoveRule_rule))
                && is_ipv4(rule_text(removals@[k]->RemoveRule_rule)) && removals@[k]->RemoveRule_ip as nat == ipv4_value(rule_text(removals@[k]->RemoveRule_rule))
                && exists|side: RuleSide| removals@[k]->RemoveRule_rule.model() == rule_spec(side, rule_text(removals@[k]->RemoveRule_rule), removals@[k]->RemoveRule_rule.table),
            forall|q: int| 0 <= q < i && is_ipv4(rule_text(#[trigger] rules@[q])) ==> exists|k: int| 0 <= k < removals@.len()
                && (#[trigger] removals@[k]) is RemoveRule && removals@[k]->RemoveRule_rule == rules@[q],
        decreases rules.len() - i,
    {
        let ghost (side, ip) = choose|side: RuleSide, ip: Seq<char>|
            dropped@.contains(ip) && rules@[i as int].model() == rule_spec(side, ip, rules@[i as int].table);
        assert(rule_text(rules@[i as int]) == ip);
        let rule = &rules[i];
        let ghost prev = removals@;
        let text = match &rule.from {
            Some(t) => t,
            None => match &rule.to {
                Some(t) => t,
                None => { i = i + 1; continue; },
            },
        };
        assert(text@ == rule_text(rules@[i as int]));
        match parse_ipv4(text.as_str()) {
            Some(v) => {
                let d = rule.duplicate();
                assert(d.model() == rule_spec(side, rule_text(d), d.table));
                removals.push(Action::RemoveRule { rule: d, ip: v });
            },
            None => {},
        }
        proof {
            assert forall|q: int| 0 <= q < i + 1 && is_ipv4(rule_text(#[trigger] rules@[q])) implies exists|k: int| 0 <= k < removals@.len()
                && (#[trigger] removals@[k]) is RemoveRule && removals@[k]->RemoveRule_rule == rules@[q] by {
                if q < i {
                    let k = choose|k: int| 0 <= k < prev.len() && (#[trigger] prev[k]) is RemoveRule && prev[k]->RemoveRule_rule == rules@[q];
                    assert(removals@[k] == prev[k]);
                } else {
                    assert(removals@[removals@.len() - 1]->RemoveRule_rule == rules@[q]);
                }
            }
        }
        i = i + 1;
    }
    removals
}

/// A removal request for each address that is CIDR text.
fn address_removals(addresses: &Vec<String>, if_name: &String) -> (r: Vec<Action>)
    ensures
        r@.len() <= addresses@.len(),
        forall|k: int| 0 <= k < r@.len() ==> (#[trigger] r@[k]) is RemoveAddress && r@[k]->RemoveAddress_if_name@ == if_name@
            && exists|p: int| 0 <= p < addresses@.len() && is_cidr(addresses@[p]@) && r@[k]->RemoveAddress_cidr == cidr_of(addresses@[p]@),
        forall|p: int| 0 <= p < addresses@.len() && is_cidr((#[trigger] addresses@[p])@) ==> exists|k: int| 0 <= k < r@.len()
            && (#[trigger] r@[k]) is RemoveAddress && r@[k]->RemoveAddress_cidr == cidr_of(addresses@[p]@),
{
    let mut removals: Vec<Action> = Vec::new();
    let mut j: usize = 0;
    while j < addresses.len()
        invariant
            j <= addresses.len(),
            removals@.len() <= j,
            forall|k: int| 0 <= k < removals@.len() ==> (#[trigger] removals@[k]) is RemoveAddress && removals@[k]->RemoveAddress_if_name@ == if_name@
                && exists|p: int| 0 <= p < addresses@.len() && is_cidr(addresses@[p]@) && removals@[k]->RemoveAddress_cidr == cidr_of(addresses@[p]@),
            forall|p: int| 0 <= p < j && is_cidr((#[trigger] addresses@[p])@) ==> exists|k: int| 0 <= k < removals@.len()
                && (#[trigger] removals@[k]) is RemoveAddress && removals@[k]->RemoveAddress_cidr == cidr_of(addresses@[p]@),
        decreases addresses.len() - j,
    {
        let ghost prev = removals@;
        match parse_cidr(addresses[j].as_str()) {
            Some(cidr) => { removals.push(Action::RemoveAddress { if_name: if_name.clone(), cidr }); },
            None => {},
        }
        proof {
            assert forall|p: int| 0 <= p < j + 1 && is_cidr((#[trigger] addresses@[p])@) implies exists|k: int| 0 <= k < removals@.len()
                && (#[trigger] removals@[k]) is RemoveAddress && removals@[k]->RemoveAddress_cidr == cidr_of(addresses@[p]@) by {
                if p < j {
                    let k = choose|k: int| 0 <= k < prev.len() && (#[trigger] prev[k]) is RemoveAddress && prev[k]->RemoveAddress_cidr == cidr_of(addresses@[p]@);
                    assert(removals@[k] == prev[k]);
                } else {
                    assert(removals@[removals@.len() - 1]->RemoveAddress_cidr == cidr_of(addresses@[p]@));
                }
            }
        }
        j = j + 1;
    }
    removals
}

impl LinkPass {
    pub open spec fn ip_set_upto(&self, i: int) -> Set<Seq<char>> {
        Set::new(|k: Seq<char>| exists|j: int| 0 <= j < i && (#[trigger] self.ips@[j])@ == k)
    }

    pub open spec fn routed(&self) -> EnvState {
        with_opt_route(self.start@, self.route)
    }

    /// What the record holds at this stage of the pass.
    pub open spec fn expected(&self) -> EnvState {
        let n = self.desired@.len() as int;
        match self.stage {
            Stage::ListRules => self.routed(),
            Stage::Rule(i, RuleSide::From) => with_rule_set(self.routed(), self.ip_set_upto(i as int), self.rule_table),
            Stage::Rule(i, RuleSide::To) => with_rule(
                with_rule_set(self.routed(), self.ip_set_upto(i as int), self.rule_table),
                RuleSide::From,
                self.ips@[i as int]@,
                self.rule_table,
            ),
            Stage::Retract(_) => retracted(
                with_rule_set(self.routed(), self.ip_set_upto(n), self.rule_table),
                self.mac@,
                self.if_index,
                self.rule_table,
                text_set(self.desired@),
            ),
            Stage::Finished => pass_result(
                self.start@,
                self.mac@,
                self.if_index,
                self.rule_table,
                text_set(self.desired@),
                self.route,
            ),
            _ => self.start@,
        }
    }

    pub open spec fn rule_at(&self, i: int, side: RuleSide) -> RoutingPolicyRule {
        match side {
            RuleSide::From => RoutingPolicyRule { from: Some(self.ips@[i]), to: None, table: self.rule_table },
            RuleSide::To => RoutingPolicyRule { from: None, to: Some(self.ips@[i]), table: self.rule_table },
        }
    }

    /// The record just before the retraction step.
    pub open spec fn before_retract(&self) -> EnvState {
        with_rule_set(self.routed(), self.ip_set_upto(self.desired@.len() as int), self.rule_table)
    }

    pub open spec fn removals_match(&self) -> bool {
        queued_removals_match(self.removals@, self.before_retract(), self.start@, self.mac@,
            text_set(self.desired@), self.if_index, self.rule_table, self.if_name@)
    }

    /// The pass's own consistency, but for what its stage requires.
    pub open spec fn inv_fields(&self) -> bool {
        let n = self.desired@.len();
        &&& self.cidrs@.len() == n
        &&& self.ips@.len() == n
        &&& forall|j: int| 0 <= j < n ==> is_cidr(#[trigger] self.desired@[j]@)
        &&& forall|j: int| 0 <= j < n ==> #[trigger] self.cidrs@[j] == cidr_of(self.desired@[j]@)
        &&& forall|j: int| 0 <= j < n ==> (#[trigger] self.ips@[j])@ == ip_part(self.desired@[j]@)
        &&& self.route_table == route_table_of(self.start@.route_table as int, self.if_index as int)
        &&& self.rule_table == rule_table_of(self.start@.route_table as int, self.if_index as int)
        &&& self.uplinks == self.start@.uplinks
        &&& (self.route matches Some(r) ==> r.if_index == self.if_index && r.table == self.route_table)
        &&& (self.pending matches Some(r) ==> r.if_index == self.if_index && r.table == self.route_table
            && is_ipv4(r.gw@) && self.pending_gateway as nat == ipv4_value(r.gw@))
        &&& (self.gateway is Some && self.pending is Some ==> self.pending->0.gw@ == self.gateway->0@)
        &&& (self.gateway_missing ==> self.route is None && !(self.stage is LinkUp || self.stage is Mtu
            || self.stage is Address || self.stage is Gateway || self.stage is Route))
        &&& (n == 0 ==> self.route is None)
    }

    /// The pass's own consistency.
    pub open spec fn inv(&self) -> bool {
        let n = self.desired@.len();
        &&& self.inv_fields()
        &&& match self.stage {
            Stage::LinkUp => n > 0 && self.route is None,
            Stage::Mtu => n > 0 && self.route is None && self.mtu is Some,
            Stage::Address(i) => i < n && self.route is None,
            Stage::Gateway(_) => n > 0 && self.route is None && self.gateway is None,
            Stage::Route => n > 0 && self.route is None && self.pending is Some,
            Stage::ListRules => n > 0 && self.uplinks >= 2,
            Stage::Rule(i, side) => i < n && rule_is_needed(
                self.uplinks as int,
                self.listed@,
                self.rule_at(i as int, side),
            ),
            Stage::Retract(j) => j < self.removals@.len() && (forall|k: int| 0 <= k < self.removals@.len()
                ==> is_removal(#[trigger] self.removals@[k]))
                && self.removals_match()
                && exists|c: Seq<char>| crate::env::stale(
                    crate::env::recorded(self.start@, self.mac@),
                    text_set(self.desired@),
                ).contains(c),
            Stage::Finished => self.removals_match(),
        }
    }

    /// The state of the pass and of the record agree.
    pub open spec fn tracks(&self, env: &Environment) -> bool {
        &&& self.inv()
        &&& env.wf()
        &&& env@ == self.expected()
    }

    pub open spec fn is_finished(&self) -> bool {
        self.stage == Stage::Finished
    }

    proof fn lemma_ip_set_full(&self)
        requires
            self.inv_fields(),
        ensures
            self.ip_set_upto(self.desired@.len() as int) == ips_of(text_set(self.desired@)),
    {
        let n = self.desired@.len() as int;
        assert forall|k: Seq<char>| #[trigger] self.ip_set_upto(n).contains(k) <==> ips_of(text_set(self.desired@)).contains(k) by {
            if self.ip_set_upto(n).contains(k) {
                let j = choose|j: int| 0 <= j < n && (#[trigger] self.ips@[j])@ == k;
                assert(text_set(self.desired@).contains(self.desired@[j]@));
            }
            if ips_of(text_set(self.desired@)).contains(k) {
                let c = choose|c: Seq<char>| text_set(self.desired@).contains(c) && ip_part(c) == k;
                let j = choose|j: int| 0 <= j < n && (#[trigger] self.desired@[j])@ == c;
                assert(self.ips@[j]@ == k);
            }
        }
        assert(self.ip_set_upto(n) =~= ips_of(text_set(self.desired@)));
    }

    proof fn lemma_ip_set_step(&self, i: int)
        requires
            self.inv_fields(),
            0 <= i < self.desired@.len(),
        ensures
            self.ip_set_upto(i + 1) == self.ip_set_upto(i).insert(self.ips@[i]@),
    {
        assert forall|k: Seq<char>| #[trigger] self.ip_set_upto(i + 1).contains(k) <==> self.ip_set_upto(i).insert(self.ips@[i]@).contains(k) by {
            if self.ip_set_upto(i + 1).contains(k) {
                let j = choose|j: int| 0 <= j < i + 1 && (#[trigger] self.ips@[j])@ == k;
                if j < i {
                    assert(self.ip_set_upto(i).contains(k));
                }
            }
            if self.ip_set_upto(i).contains(k) {
                let j = choose|j: int| 0 <= j < i && (#[trigger] self.ips@[j])@ == k;
                assert(0 <= j < i + 1);
            }
        }
        assert(self.ip_set_upto(i + 1) =~= self.ip_set_upto(i).insert(self.ips@[i]@));
    }

    /// Records the wanted addresses and ends the pass.
    fn finish(&mut self, env: &mut Environment)
        requires
            old(self).inv(),
            old(env).wf(),
            old(env)@ == retracted(
                with_rule_set(old(self).routed(), old(self).ip_set_upto(old(self).desired@.len() as int), old(self).rule_table),
                old(self).mac@,
                old(self).if_index,
                old(self).rule_table,
                text_set(old(self).desired@),
            ),
            old(self).removals_match(),
        ensures
            final(self).tracks(final(env)),
            final(self).is_finished(),
            final(self).removals == old(self).removals,
            final(self).listed == old(self).listed,
            final(env).links == old(env).links,
            final(env).kind == old(env).kind,
            final(self).same_pass(*old(self)),
            final(self).gateway_missing == old(self).gateway_missing,
            final(self).route == old(self).route,
    {
        proof {
            self.lemma_ip_set_full();
        }
        let d = copy_texts(&self.desired);
        env.commit_addresses(&self.mac, d);
        self.stage = Stage::Finished;
    }

    /// Takes the stale addresses of the link out of the record and queues
    /// their removal from the kernel.
    #[verifier::rlimit(100)]
    fn enter_retract(&mut self, env: &mut Environment) -> (r: Result<(), NetError>)
        requires
            old(self).inv_fields(),
            old(env).wf(),
            old(env)@ == with_rule_set(old(self).routed(), old(self).ip_set_upto(old(self).desired@.len() as int), old(self).rule_table),
        ensures
            r is Ok,
            final(self).gateway_missing == old(self).gateway_missing,
            final(env).wf(),
            final(env).kind == old(env).kind,
            final(self).same_pass(*old(self)),
            final(self).route == old(self).route,
            r is Ok ==> final(self).tracks(final(env)),
            final(self).stage == (if final(self).removals@.len() > 0 { Stage::Retract(0) } else { Stage::Finished }),
            final(self).listed == old(self).listed,
            final(env).links == old(env).links,
    {
        let ghost w = env@;
        let ret: Retraction = env.retract_stale(&self.mac, self.if_index, self.rule_table, &self.desired);
        let Retraction { rules, addresses, route } = ret;
        let ghost old_set = crate::env::recorded(w, self.mac@);
        let ghost dropped = crate::env::dropped_ips(old_set, text_set(self.desired@));
        let ghost gone = crate::env::stale(old_set, text_set(self.desired@));
        proof {
            assert(old_set == crate::env::recorded(self.start@, self.mac@));
            assert(w == self.before_retract());
        }
        let removals = removal_queue(rules, addresses, route, &self.if_name, Ghost(w), Ghost(env@), Ghost(self.start@),
            Ghost(self.mac@), Ghost(text_set(self.desired@)), self.if_index, self.rule_table);
        self.removals = removals;
        if self.removals.len() > 0 {
            self.stage = Stage::Retract(0);
        } else {
            self.stage = Stage::Finished;
            self.finish(env);
        }
        Ok(())
    }

    /// Installs (or records, where nothing is to be sent) the rules from
    /// rule `i` of `side` on, then moves on to retraction.
    fn enter_rules(&mut self, env: &mut Environment, start: usize, first: RuleSide) -> (r: Result<(), NetError>)
        requires
            old(self).inv_fields(),
            old(env).wf(),
            start <= old(self).desired@.len(),
            first == RuleSide::To ==> start < old(self).desired@.len(),
            old(env)@ == (if first == RuleSide::From {
                with_rule_set(old(self).routed(), old(self).ip_set_upto(start as int), old(self).rule_table)
            } else {
                with_rule(with_rule_set(old(self).routed(), old(self).ip_set_upto(start as int), old(self).rule_table),
                    RuleSide::From, old(self).ips@[start as int]@, old(self).rule_table)
            }),
        ensures
            r is Ok,
            final(self).gateway_missing == old(self).gateway_missing,
            final(env).wf(),
            final(env).kind == old(env).kind,
            final(self).same_pass(*old(self)),
            final(self).route == old(self).route,
            r is Ok ==> final(self).tracks(final(env)),
            rule_phase_outcome(*final(self), rule_pos(start as int, first)),
            final(self).listed == old(self).listed,
            final(env).links == old(env).links,
    {
        let ghost e0 = env@;
        let mut i = start;
        let mut side = first;
        let n = self.desired.len();
        let ghost from = rule_pos(start as int, first);
        while i < n
            invariant
                self.listed == old(self).listed,
                env.links == old(env).links,
                from == rule_pos(start as int, first),
                from <= rule_pos(i as int, side),
                forall|m: int| from <= m < rule_pos(i as int, side) ==> !needed_at(*self, m),
                self.inv_fields(),
                env.wf(),
                env.kind == old(env).kind,
                self.same_pass(*old(self)),
                self.gateway_missing == old(self).gateway_missing,
                self.route == old(self).route,
                self.stage == old(self).stage,
                n == self.desired@.len(),
                i <= n,
                side == RuleSide::To ==> i < n,
                env@ == (if side == RuleSide::From {
                    with_rule_set(self.routed(), self.ip_set_upto(i as int), self.rule_table)
                } else {
                    with_rule(with_rule_set(self.routed(), self.ip_set_upto(i as int), self.rule_table),
                        RuleSide::From, self.ips@[i as int]@, self.rule_table)
                }),
            decreases 2 * (n - i) + (if side == RuleSide::From { 1int } else { 0int }),
        {
            let rule = RoutingPolicyRule::for_address(side, &self.ips[i], self.rule_table);
            let seen = rule_exists(&rule, &self.listed);
            proof {
                let a = self.rule_at(i as int, side);
                assert(a.model() == rule.model());
                assert forall|k: int| 0 <= k < self.listed@.len() implies
                    rule_matches(a, #[trigger] self.listed@[k]) == rule_matches(rule, self.listed@[k]) by {}
            }
            proof {
                let k = rule_pos(i as int, side);
                assert(k / 2 == i as int && side_at(k) == side);
            }
            if self.uplinks >= 2 && !seen {
                assert(needed_at(*self, rule_pos(i as int, side)));
                let ghost before = *self;
                self.stage = Stage::Rule(i, side);
                assert(needed_at(*self, rule_pos(i as int, side)));
                assert forall|m: int| from <= m < rule_pos(i as int, side) implies !needed_at(*self, m) by {
                    assert(!needed_at(before, m));
                }
                return Ok(());
            }
            assert(!needed_at(*self, rule_pos(i as int, side)));
            env.record_rule(side, &self.ips[i], self.rule_table);
            if side == RuleSide::From {
                side = RuleSide::To;
            } else {
                proof {
                    self.lemma_ip_set_step(i as int);
                    let base = with_rule_set(self.routed(), self.ip_set_upto(i as int), self.rule_table);
                    let ip = self.ips@[i as int]@;
                    let t = self.rule_table;
                    let next = with_rule_set(self.routed(), self.ip_set_upto(i as int + 1), t);
                    assert(env@.rules_from =~= next.rules_from);
                    assert(env@.rules_to =~= next.rules_to);
                }
                side = RuleSide::From;
                i = i + 1;
            }
        }
        let ghost before = *self;
        assert(rule_pos(i as int, side) == 2 * n);
        let r = self.enter_retract(env);
        assert forall|m: int| from <= m < 2 * n implies !needed_at(*self, m) by {
            assert(!needed_at(before, m));
        }
        r
    }

    /// After the route step: list the kernel's rules where rules may be
    /// installed, else go through the rules at once.
    fn enter_rule_phase(&mut self, env: &mut Environment) -> (r: Result<(), NetError>)
        requires
            old(self).inv_fields(),
            old(self).desired@.len() > 0,
            old(env).wf(),
            old(env)@ == old(self).routed(),
        ensures
            old(self).uplinks >= 2 ==> final(self).stage == Stage::ListRules,
            old(self).uplinks < 2 ==> rule_phase_outcome(*final(self), 0),
            final(self).listed == old(self).listed,
            final(env).links == old(env).links,
            r is Ok,
            final(self).gateway_missing == old(self).gateway_missing,
            final(env).wf(),
            final(env).kind == old(env).kind,
            final(self).same_pass(*old(self)),
            final(self).route == old(self).route,
            r is Ok ==> final(self).tracks(final(env)),
    {
        if self.uplinks >= 2 {
            self.stage = Stage::ListRules;
            Ok(())
        } else {
            proof {
                assert(self.ip_set_upto(0) =~= Set::<Seq<char>>::empty());
                let e = self.routed();
                assert(with_rule_set(e, Set::<Seq<char>>::empty(), self.rule_table).rules_from =~= e.rules_from);
                assert(with_rule_set(e, Set::<Seq<char>>::empty(), self.rule_table).rules_to =~= e.rules_to);
            }
            self.enter_rules(env, 0, RuleSide::From)
        }
    }

    /// After the addresses: the explicit gateway, else the first lookup.
    fn enter_gateway(&mut self) -> (r: Result<(), NetError>)
        requires
            old(self).inv(),
            old(self).desired@.len() > 0,
            old(self).route is None,
            old(self).stage is Address,
        ensures
            r is Err ==> r->Err_0 == NetError::InvalidGateway,
            final(self).gateway_missing == old(self).gateway_missing,
            final(self).same_pass(*old(self)),
            final(self).route is None,
            r is Ok ==> final(self).inv(),
            r is Ok ==> final(self).expected() == old(self).start@,
            old(self).gateway is None ==> r is Ok && final(self).stage == Stage::Gateway(GatewaySource::LinkDefault),
            old(self).gateway matches Some(g) ==> (r is Ok <==> is_ipv4(g@)),
            old(self).gateway is Some && r is Ok ==> final(self).stage == Stage::Route
                && final(self).pending is Some && final(self).pending->0.gw@ == old(self).gateway->0@,
    {
        match &self.gateway {
            Some(g) => {
                match parse_ipv4(g.as_str()) {
                    Some(v) => {
                        self.pending = Some(Route { table: self.route_table, if_index: self.if_index, gw: g.clone() });
                        self.pending_gateway = v;
                        self.stage = Stage::Route;
                        Ok(())
                    },
                    None => Err(NetError::InvalidGateway),
                }
            },
            None => {
                self.stage = Stage::Gateway(GatewaySource::LinkDefault);
                Ok(())
            },
        }
    }

    /// Starts a pass over `link` that wants the CIDR texts `desired`, with
    /// the gateway and MTU that the metadata gives, if any. Fails, before any
    /// kernel request and with the record untouched, where a wanted address
    /// is malformed or the link's table numbers overflow. Where nothing is
    /// wanted, only the retraction of what was recorded is left to do.
    pub fn new(
        env: &mut Environment,
        link: &Link,
        desired: Vec<String>,
        gateway: Option<String>,
        mtu: Option<u32>,
    ) -> (r: Result<LinkPass, NetError>)
        requires
            old(env).wf(),
        ensures
            final(env).wf(),
            final(env).links == old(env).links,
            final(env).kind == old(env).kind,
            (exists|j: int| 0 <= j < desired@.len() && !is_cidr(#[trigger] desired@[j]@)) ==> r
                == Err::<LinkPass, NetError>(NetError::InvalidAddress) && final(env)@ == old(env)@,
            (forall|j: int| 0 <= j < desired@.len() ==> is_cidr(#[trigger] desired@[j]@))
                && route_table_of(old(env)@.route_table as int, link.ifindex as int) > u32::MAX ==> r
                == Err::<LinkPass, NetError>(NetError::TableOutOfRange) && final(env)@ == old(env)@,
            (forall|j: int| 0 <= j < desired@.len() ==> is_cidr(#[trigger] desired@[j]@))
                && route_table_of(old(env)@.route_table as int, link.ifindex as int) <= u32::MAX ==> r is Ok,
            r matches Ok(p) ==> ({
                &&& p.tracks(final(env))
                &&& p.start@ == old(env)@
                &&& p.desired@ == desired@
                &&& p.mac@ == link.mac@
                &&& p.if_index == link.ifindex
                &&& p.gateway == gateway
                &&& p.uplinks == old(env)@.uplinks
                &&& (desired@.len() > 0 ==> p.stage == (if link.oper_state@ != "Up"@ {
                    Stage::LinkUp
                } else if mtu is Some && mtu->0 != link.mtu {
                    Stage::Mtu
                } else {
                    Stage::Address(0)
                }))
                &&& p.mtu == (if mtu is Some && mtu->0 != link.mtu { mtu } else { None::<u32> })
                &&& (desired@.len() == 0 ==> p.stage == (if p.removals@.len() > 0 { Stage::Retract(0) } else { Stage::Finished }))
            }),
    {
        let n = desired.len();
        let mut cidrs: Vec<Cidr> = Vec::new();
        let mut ips: Vec<String> = Vec::new();
        let mut i: usize = 0;
        while i < n
            invariant
                env.wf(),
                env@ == old(env)@,
                env.kind == old(env).kind,
                n == desired@.len(),
                i <= n,
                cidrs@.len() == i,
                ips@.len() == i,
                forall|j: int| 0 <= j < i ==> is_cidr(#[trigger] desired@[j]@),
                forall|j: int| 0 <= j < i ==> #[trigger] cidrs@[j] == cidr_of(desired@[j]@),
                forall|j: int| 0 <= j < i ==> (#[trigger] ips@[j])@ == ip_part(desired@[j]@),
            decreases n - i,
        {
            match parse_cidr(desired[i].as_str()) {
                Some(c) => { cidrs.push(c); },
                None => { return Err(NetError::InvalidAddress); },
            }
            ips.push(ip_part_of(desired[i].as_str()));
            i = i + 1;
        }
        let base = env.route_table;
        let rt = match route_table(base, link.ifindex) {
            Some(t) => t,
            None => { return Err(NetError::TableOutOfRange); },
        };
        let qt = match rule_table(base, link.ifindex) {
            Some(t) => t,
            None => { return Err(NetError::TableOutOfRange); },
        };
        let up = String::from_str("Up");
        let set_mtu = match mtu {
            Some(m) => if m != link.mtu { Some(m) } else { None },
            None => None,
        };
        let stage = if link.oper_state != up {
            Stage::LinkUp
        } else if set_mtu.is_some() {
            Stage::Mtu
        } else {
            Stage::Address(0)
        };
        let mut pass = LinkPass {
            if_name: link.name.clone(),
            if_index: link.ifindex,
            mac: link.mac.clone(),
            mtu: set_mtu,
            desired,
            cidrs,
            ips,
            gateway,
            route_table: rt,
            rule_table: qt,
            uplinks: env.uplinks(),
            listed: Vec::new(),
            pending: None,
            pending_gateway: 0,
            route: None,
            removals: Vec::new(),
            gateway_missing: false,
            stage: Stage::Finished,
            start: Ghost(env@),
        };
        if n == 0 {
            proof {
                assert(pass.ip_set_upto(0) =~= Set::<Seq<char>>::empty());
                let e = pass.routed();
                assert(with_rule_set(e, Set::<Seq<char>>::empty(), pass.rule_table).rules_from =~= e.rules_from);
                assert(with_rule_set(e, Set::<Seq<char>>::empty(), pass.rule_table).rules_to =~= e.rules_to);
                assert(with_rule_set(e, Set::<Seq<char>>::empty(), pass.rule_table) == e);
            }
            match pass.enter_retract(env) {
                Ok(()) => Ok(pass),
                Err(e) => Err(e),
            }
        } else {
            pass.stage = stage;
            Ok(pass)
        }
    }

    /// The kernel request that the pass waits on.
    pub fn action(&self) -> (r: Action)
        requires
            self.inv(),
        ensures
            r is Finished <==> self.is_finished(),
            r is AddRule ==> self.uplinks >= 2,
            r is AddRule ==> self.stage is Rule,
            self.stage is Rule ==> r is AddRule && r->AddRule_rule.model() == rule_spec(
                self.stage->Rule_1,
                self.ips@[self.stage->Rule_0 as int]@,
                self.rule_table,
            ) && r->AddRule_ip == self.cidrs@[self.stage->Rule_0 as int].ip,
            self.stage == Stage::LinkUp ==> r == (Action::SetLinkUp { if_index: self.if_index }),
            self.stage == Stage::Mtu ==> r == (Action::SetMtu { if_index: self.if_index, mtu: self.mtu->0 }),
            self.stage is Address ==> r is ReplaceAddress && r->ReplaceAddress_cidr
                == self.cidrs@[self.stage->Address_0 as int] && r->ReplaceAddress_if_name@ == self.if_name@,
            self.stage is Gateway ==> r == (Action::LookupGateway { if_index: self.if_index, source: self.stage->Gateway_0 }),
            self.stage is Route ==> r is AddRoute && r->AddRoute_route == self.pending->0
                && r->AddRoute_gateway == self.pending_gateway,
            self.stage is ListRules ==> r is ListRules,
            self.stage is Retract ==> r == self.removals@[self.stage->Retract_0 as int],
    {
        match self.stage {
            Stage::LinkUp => Action::SetLinkUp { if_index: self.if_index },
            Stage::Mtu => Action::SetMtu { if_index: self.if_index, mtu: self.mtu.unwrap() },
            Stage::Address(i) => Action::ReplaceAddress { if_name: self.if_name.clone(), cidr: self.cidrs[i] },
            Stage::Gateway(source) => Action::LookupGateway { if_index: self.if_index, source },
            Stage::Route => {
                let route = match &self.pending {
                    Some(p) => p.duplicate(),
                    None => Route { table: 0, if_index: 0, gw: String::new() },
                };
                Action::AddRoute { route, gateway: self.pending_gateway }
            },
            Stage::ListRules => Action::ListRules,
            Stage::Rule(i, side) => Action::AddRule {
                rule: RoutingPolicyRule::for_address(side, &self.ips[i], self.rule_table),
                ip: self.cidrs[i].ip,
            },
            Stage::Retract(j) => removal_copy(&self.removals[j]),
            Stage::Finished => Action::Finished,
        }
    }

    /// Takes the kernel's answer to [`LinkPass::action`] and moves the pass
    /// on, recording in `env` what the kernel accepted. A failed request to
    /// bring the link up, set its MTU, add an address, a route or a rule, or
    /// remove the route, ends the pass with the matching error and leaves the
    /// record as it was; what was applied before stays applied. Removing a rule
    /// or an address is best effort. A pass that found no gateway goes on
    /// without the route step and reports `GatewayNotFound` once it has
    /// finished.
    pub fn on_event(&mut self, env: &mut Environment, ev: Event) -> (r: Result<(), NetError>)
        requires
            old(self).tracks(old(env)),
            !old(self).is_finished(),
        ensures
            final(env).wf(),
            final(env).kind == old(env).kind,
            final(env).links == old(env).links,
            final(self).same_pass(*old(self)),
            went_on(r, *final(self)) ==> final(self).tracks(final(env)),
            r is Ok ==> !(final(self).is_finished() && final(self).gateway_missing),
            answered(*old(self), *final(self), old(env)@, final(env)@, ev, r),
    {
        let r = self.step(env, ev);
        if r.is_ok() && self.stage == Stage::Finished && self.gateway_missing {
            return Err(NetError::GatewayNotFound);
        }
        r
    }

    #[verifier::rlimit(60)]
    fn step(&mut self, env: &mut Environment, ev: Event) -> (r: Result<(), NetError>)
        requires
            old(self).tracks(old(env)),
            !old(self).is_finished(),
        ensures
            final(env).wf(),
            final(env).kind == old(env).kind,
            final(env).links == old(env).links,
            final(self).same_pass(*old(self)),
            r is Ok ==> final(self).tracks(final(env)),
            r != Err::<(), NetError>(NetError::GatewayNotFound),
            !(old(self).stage is Gateway) ==> final(self).gateway_missing == old(self).gateway_missing,
            answered(*old(self), *final(self), old(env)@, final(env)@, ev, r),
    {
        let accepted = match ev {
            Event::Done | Event::Exists => true,
            _ => false,
        };
        match self.stage {
            Stage::LinkUp => {
                if !accepted {
                    return if ev.is_failed() { Err(NetError::LinkUp) } else { Err(NetError::UnexpectedEvent) };
                }
                self.stage = if self.mtu.is_some() { Stage::Mtu } else { Stage::Address(0) };
                Ok(())
            },
            Stage::Mtu => {
                if !accepted {
                    return if ev.is_failed() { Err(NetError::LinkMtu) } else { Err(NetError::UnexpectedEvent) };
                }
                self.stage = Stage::Address(0);
                Ok(())
            },
            Stage::Address(i) => {
                if !accepted {
                    return if ev.is_failed() { Err(NetError::AddressAdd) } else { Err(NetError::UnexpectedEvent) };
                }
                if i < self.desired.len() - 1 {
                    self.stage = Stage::Address(i + 1);
                    Ok(())
                } else {
                    self.enter_gateway()
                }
            },
            Stage::Gateway(source) => {
                match ev {
                    Event::Routes(routes) => {
                        match gateway_from_routes(&routes, self.if_index, source) {
                            Some(g) => {
                                match parse_ipv4(g.as_str()) {
                                    Some(v) => {
                                        self.pending = Some(Route { table: self.route_table, if_index: self.if_index, gw: g });
                                        self.pending_gateway = v;
                                        self.stage = Stage::Route;
                                        Ok(())
                                    },
                                    None => Err(NetError::InvalidGateway),
                                }
                            },
                            None => {
                                match next_source(source) {
                                    Some(next) => {
                                        self.stage = Stage::Gateway(next);
                                        Ok(())
                                    },
                                    None => {
                                        // the route step is abandoned; the rule phase picks the next stage
                                        self.stage = Stage::Finished;
                                        self.gateway_missing = true;
                                        self.enter_rule_phase(env)
                                    },
                                }
                            },
                        }
                    },
                    _ => Err(NetError::UnexpectedEvent),
                }
            },
            Stage::Route => {
                if !accepted {
                    return if ev.is_failed() { Err(NetError::RouteAdd) } else { Err(NetError::UnexpectedEvent) };
                }
                let route = match &self.pending {
                    Some(p) => p.duplicate(),
                    None => { return Err(NetError::UnexpectedEvent); },
                };
                let kept = route.duplicate();
                env.record_route(route);
                self.route = Some(kept);
                // the route step is over; the rule phase picks the next stage
                self.stage = Stage::Finished;
                self.enter_rule_phase(env)
            },
            Stage::ListRules => {
                match ev {
                    Event::Rules(listed) => {
                        self.listed = listed;
                        proof {
                            assert(self.ip_set_upto(0) =~= Set::<Seq<char>>::empty());
                            let e = self.routed();
                            assert(with_rule_set(e, Set::<Seq<char>>::empty(), self.rule_table).rules_from =~= e.rules_from);
                            assert(with_rule_set(e, Set::<Seq<char>>::empty(), self.rule_table).rules_to =~= e.rules_to);
                        }
                        self.enter_rules(env, 0, RuleSide::From)
                    },
                    _ => Err(NetError::UnexpectedEvent),
                }
            },
            Stage::Rule(i, side) => {
                if !accepted {
                    return if ev.is_failed() { Err(NetError::RuleAdd) } else { Err(NetError::UnexpectedEvent) };
                }
                let n = self.desired.len();
                assert(i < n);
                env.record_rule(side, &self.ips[i], self.rule_table);
                match side {
                    RuleSide::From => self.enter_rules(env, i, RuleSide::To),
                    RuleSide::To => {
                        proof {
                            self.lemma_ip_set_step(i as int);
                            let t = self.rule_table;
                            let next = with_rule_set(self.routed(), self.ip_set_upto(i as int + 1), t);
                            assert(env@.rules_from =~= next.rules_from);
                            assert(env@.rules_to =~= next.rules_to);
                        }
                        self.enter_rules(env, i + 1, RuleSide::From)
                    },
                }
            },
            Stage::Retract(j) => {
                let is_route = match &self.removals[j] {
                    Action::RemoveRoute { .. } => true,
                    _ => false,
                };
                if is_route && ev.is_failed() {
                    return Err(NetError::RouteRemove);
                }
                if j < self.removals.len() - 1 {
                    self.stage = Stage::Retract(j + 1);
                    Ok(())
                } else {
                    proof {
                        self.lemma_ip_set_full();
                    }
                    self.stage = Stage::Finished;
                    self.finish(env);
                    Ok(())
                }
            },
            Stage::Finished => Ok(()),
        }
    }

    /// The fixed parts of a pass.
    pub open spec fn same_pass(&self, other: LinkPass) -> bool {
        &&& self.start == other.start
        &&& self.mac == other.mac
        &&& self.if_index == other.if_index
        &&& self.desired == other.desired
        &&& self.cidrs == other.cidrs
        &&& self.ips == other.ips
        &&& self.rule_table == other.rule_table
        &&& self.route_table == other.route_table
        &&& self.uplinks == other.uplinks
        &&& self.gateway == other.gateway
        &&& self.mtu == other.mtu
    }
}

} // verus!

verus! {

/// After a complete pass wanting `desired`, the record holds exactly
/// `desired` for the link; every wanted address has its `from` and `to`
/// rules in the link's rule table; and no rule is left for the IP of a
/// retracted address that no wanted address shares.
pub proof fn lemma_pass_converges(
    e: EnvState,
    mac: Seq<char>,
    if_index: u32,
    rule_table: u32,
    desired: Set<Seq<char>>,
    route: Option<Route>,
)
    ensures
        ({
            let r = pass_result(e, mac, if_index, rule_table, desired, route);
            let gone = crate::env::dropped_ips(crate::env::recorded(e, mac), desired);
            &&& r.addresses.contains_key(mac)
            &&& r.addresses[mac] == desired
            &&& forall|ip: Seq<char>| #[trigger] ips_of(desired).contains(ip)
                ==> r.rules_from.contains_key(ip) && r.rules_from[ip] == rule_table
                && r.rules_to.contains_key(ip) && r.rules_to[ip] == rule_table
            &&& forall|ip: Seq<char>| #[trigger] gone.contains(ip)
                ==> !r.rules_from.contains_key(ip) && !r.rules_to.contains_key(ip)
        }),
{
    let w = with_rule_set(with_opt_route(e, route), ips_of(desired), rule_table);
    assert(crate::env::recorded(w, mac) == crate::env::recorded(e, mac));
}

/// A second complete pass with the same wanted addresses and the same
/// route changes nothing and retracts nothing.
pub proof fn lemma_pass_idempotent(
    e: EnvState,
    mac: Seq<char>,
    if_index: u32,
    rule_table: u32,
    desired: Set<Seq<char>>,
    route: Option<Route>,
)
    requires
        route matches Some(r) ==> r.if_index == if_index && exists|c: Seq<char>| desired.contains(c),
    ensures
        ({
            let e1 = pass_result(e, mac, if_index, rule_table, desired, route);
            &&& crate::env::stale(crate::env::recorded(e1, mac), desired) == Set::<Seq<char>>::empty()
            &&& pass_result(e1, mac, if_index, rule_table, desired, route) == e1
        }),
{
    let e1 = pass_result(e, mac, if_index, rule_table, desired, route);
    lemma_pass_converges(e, mac, if_index, rule_table, desired, route);
    let st = crate::env::stale(crate::env::recorded(e1, mac), desired);
    assert(st =~= Set::<Seq<char>>::empty());
    assert(ips_of(st) =~= Set::<Seq<char>>::empty());
    assert(crate::env::dropped_ips(crate::env::recorded(e1, mac), desired) =~= Set::<Seq<char>>::empty());
    if route is Some {
        let r = route->0;
        let c = choose|c: Seq<char>| desired.contains(c);
        let ip = ip_part(c);
        assert(ips_of(desired).contains(ip));
        assert(e1.rules_from.contains_key(ip) && e1.rules_from[ip] == rule_table);
        assert(e1.routes.contains_key(if_index));
        assert(e1.routes.insert(r.if_index, (r.table, r.gw@)) =~= e1.routes);
    }
    let w = with_rule_set(with_opt_route(e1, route), ips_of(desired), rule_table);
    assert(w.rules_from =~= e1.rules_from);
    assert(w.rules_to =~= e1.rules_to);
    assert(w.routes =~= e1.routes);
    let x = retracted(w, mac, if_index, rule_table, desired);
    assert(x.rules_from =~= e1.rules_from);
    assert(x.rules_to =~= e1.rules_to);
    assert(x.routes =~= e1.routes);
    let y = committed(x, mac, desired);
    assert(y.addresses =~= e1.addresses);
}

/// Retracting the addresses that held the last rules pointing at the
/// link's rule table retracts the link's route; while a rule of a kept
/// address still points there, the route stays.
pub proof fn lemma_route_retraction(
    e: EnvState,
    mac: Seq<char>,
    if_index: u32,
    rule_table: u32,
    desired: Set<Seq<char>>,
)
    ensures
        ({
            let gone = crate::env::stale(crate::env::recorded(e, mac), desired);
            let dropped = crate::env::dropped_ips(crate::env::recorded(e, mac), desired);
            let r = retracted(e, mac, if_index, rule_table, desired);
            &&& (exists|c: Seq<char>| gone.contains(c))
                && (forall|k: Seq<char>| e.rules_from.contains_key(k) && #[trigger] e.rules_from[k] == rule_table
                    ==> dropped.contains(k))
                && (forall|k: Seq<char>| e.rules_to.contains_key(k) && #[trigger] e.rules_to[k] == rule_table
                    ==> dropped.contains(k))
                ==> !r.routes.contains_key(if_index)
            &&& (exists|ip: Seq<char>| !dropped.contains(ip) && e.rules_from.contains_key(ip)
                && #[trigger] e.rules_from[ip] == rule_table)
                ==> r.routes == e.routes
        }),
{
    let dropped = crate::env::dropped_ips(crate::env::recorded(e, mac), desired);
    let from = e.rules_from.remove_keys(dropped);
    if exists|ip: Seq<char>| !dropped.contains(ip) && e.rules_from.contains_key(ip)
        && #[trigger] e.rules_from[ip] == rule_table {
        let ip = choose|ip: Seq<char>| !dropped.contains(ip) && e.rules_from.contains_key(ip)
            && #[trigger] e.rules_from[ip] == rule_table;
        assert(from.contains_key(ip) && from[ip] == rule_table);
    }
}

/// A pass that has finished leaves the record at the outcome of a
/// complete pass over its link, wanted addresses and installed route.
pub proof fn lemma_finished_pass_record(p: LinkPass, env: Environment)
    requires
        p.tracks(&env),
        p.is_finished(),
    ensures
        env@ == pass_result(p.start@, p.mac@, p.if_index, p.rule_table, text_set(p.desired@), p.route),
        p.route matches Some(r) ==> r.if_index == p.if_index && r.table == p.route_table,
{
}

/// A pass over a link whose record already holds exactly the wanted
/// addresses never stands at a removal: it takes nothing out of the kernel.
pub proof fn lemma_unchanged_set_removes_nothing(p: LinkPass)
    requires
        p.inv(),
        crate::env::recorded(p.start@, p.mac@) == text_set(p.desired@),
    ensures
        !(p.stage is Retract),
{
    let gone = crate::env::stale(crate::env::recorded(p.start@, p.mac@), text_set(p.desired@));
    assert(gone =~= Set::<Seq<char>>::empty());
}

/// An explicit gateway is the one the route is added with: a pass that
/// has one never looks a gateway up.
pub proof fn lemma_explicit_gateway_wins(p: LinkPass)
    requires
        p.inv(),
        p.gateway is Some,
    ensures
        !(p.stage is Gateway),
        p.pending is Some ==> p.pending->0.gw@ == p.gateway->0@,
{
}

/// On a host with fewer than two links a pass never stands at a rule to
/// install, nor lists the kernel's rules.
pub proof fn lemma_single_uplink_installs_no_rule(p: LinkPass)
    requires
        p.inv(),
        p.uplinks < 2,
    ensures
        !(p.stage is Rule),
        !(p.stage is ListRules),
{
}

} // verus!
