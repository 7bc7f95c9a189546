//! Choosing the gateway of a link's default route.

use vstd::prelude::*;
use crate::net::opt_text;

verus! {

/// Where a gateway is looked for once the metadata names none, in order.
#[derive(Debug, Clone, Copy, PartialEq, Eq, Structural)]
pub enum GatewaySource {
    /// The kernel's default route out of the link.
    LinkDefault,
    /// Any route out of the link that has a gateway.
    LinkAny,
    /// The host's default route, whatever its interface.
    SystemDefault,
}

/// The source asked after `s`, if any.
pub open spec fn source_after(s: GatewaySource) -> Option<GatewaySource> {
    match s {
        GatewaySource::LinkDefault => Some(GatewaySource::LinkAny),
        GatewaySource::LinkAny => Some(GatewaySource::SystemDefault),
        GatewaySource::SystemDefault => None,
    }
}

/// Without an explicit gateway the link's default route is asked first,
/// then any route of the link, then the host's default route.
pub proof fn lemma_gateway_order()
    ensures
        source_after(GatewaySource::LinkDefault) == Some(GatewaySource::LinkAny),
        source_after(GatewaySource::LinkAny) == Some(GatewaySource::SystemDefault),
        source_after(GatewaySource::SystemDefault) is None,
{
}

pub fn next_source(s: GatewaySource) -> (r: Option<GatewaySource>)
    ensures
        r == source_after(s),
{
    match s {
        GatewaySource::LinkDefault => Some(GatewaySource::LinkAny),
        GatewaySource::LinkAny => Some(GatewaySource::SystemDefault),
        GatewaySource::SystemDefault => None,
    }
}

/// An IPv4 route as the kernel lists it, in plain values.
#[derive(Debug, Clone)]
pub struct RouteEntry {
    pub dst_prefix_len: u8,
    pub oif: Option<u32>,
    pub gateway: Option<String>,
}

/// The route is one that `source` looks for on interface `if_index`: the
/// link's default route, any route out of the link, or the host's default.
pub open spec fn route_fits(e: RouteEntry, if_index: u32, source: GatewaySource) -> bool {
    match source {
        GatewaySource::LinkDefault => e.dst_prefix_len == 0 && e.oif == Some(if_index),
        GatewaySource::LinkAny => e.oif == Some(if_index),
        GatewaySource::SystemDefault => e.dst_prefix_len == 0,
    }
}

/// The gateway of the first listed route that fits and has one.
pub open spec fn first_gateway(routes: Seq<RouteEntry>, if_index: u32, source: GatewaySource) -> Option<Seq<char>>
    decreases routes.len(),
{
    if routes.len() == 0 {
        None
    } else {
        let p = first_gateway(routes.drop_last(), if_index, source);
        if p is Some {
            p
        } else if route_fits(routes.last(), if_index, source) && routes.last().gateway is Some {
            opt_text(routes.last().gateway)
        } else {
            None
        }
    }
}

/// Looks up, in the kernel's route listing, the gateway that `source` asks for.
pub fn gateway_from_routes(routes: &Vec<RouteEntry>, if_index: u32, source: GatewaySource) -> (r: Option<String>)
    ensures
        opt_text(r) == first_gateway(routes@, if_index, source),
{
    let mut i: usize = 0;
    while i < routes.len()
        invariant
            i <= routes.len(),
            first_gateway(routes@.take(i as int), if_index, source) is None,
        decreases routes.len() - i,
    {
        assert(routes@.take(i as int + 1).drop_last() =~= routes@.take(i as int));
        let e = &routes[i];
        let fits = match source {
            GatewaySource::LinkDefault => e.dst_prefix_len == 0 && e.oif == Some(if_index),
            GatewaySource::LinkAny => e.oif == Some(if_index),
            GatewaySource::SystemDefault => e.dst_prefix_len == 0,
        };
        if fits {
            match &e.gateway {
                Some(g) => {
                    proof {
                        lemma_first_gateway_prefix(routes@, if_index, source, i as int + 1);
                    }
                    return Some(g.clone());
                },
                None => {},
            }
        }
        i = i + 1;
    }
    assert(routes@.take(routes@.len() as int) =~= routes@);
    None
}

/// Once a prefix of the listing yields a gateway, the whole listing yields it.
proof fn lemma_first_gateway_prefix(routes: Seq<RouteEntry>, if_index: u32, source: GatewaySource, n: int)
    requires
        0 <= n <= routes.len(),
        first_gateway(routes.take(n), if_index, source) is Some,
    ensures
        first_gateway(routes, if_index, source) == first_gateway(routes.take(n), if_index, source),
    decreases routes.len() - n,
{
    if n < routes.len() {
        assert(routes.take(n + 1).drop_last() =~= routes.take(n));
        lemma_first_gateway_prefix(routes, if_index, source, n + 1);
    } else {
        assert(routes.take(n) =~= routes);
    }
}

} // verus!
