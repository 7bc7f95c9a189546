//! Private routing tables: each interface gets one table for its default
//! route and one for its policy rules.

use vstd::prelude::*;

verus! {

/// Table that holds the default route of interface `if_index`.
pub open spec fn route_table_of(base: int, if_index: int) -> int {
    base + if_index + if_index
}

/// Table that the policy rules of interface `if_index` point at.
pub open spec fn rule_table_of(base: int, if_index: int) -> int {
    base + if_index
}

/// The route table of `if_index`, or `None` where it does not fit in a table number.
pub fn route_table(base: u32, if_index: u32) -> (r: Option<u32>)
    ensures
        route_table_of(base as int, if_index as int) <= u32::MAX ==> r == Some(
            route_table_of(base as int, if_index as int) as u32,
        ),
        route_table_of(base as int, if_index as int) > u32::MAX ==> r is None,
{
    let sum: u64 = base as u64 + if_index as u64 + if_index as u64;
    if sum <= u32::MAX as u64 {
        Some(sum as u32)
    } else {
        None
    }
}

/// The rule table of `if_index`, or `None` where it does not fit in a table number.
pub fn rule_table(base: u32, if_index: u32) -> (r: Option<u32>)
    ensures
        rule_table_of(base as int, if_index as int) <= u32::MAX ==> r == Some(
            rule_table_of(base as int, if_index as int) as u32,
        ),
        rule_table_of(base as int, if_index as int) > u32::MAX ==> r is None,
{
    let sum: u64 = base as u64 + if_index as u64;
    if sum <= u32::MAX as u64 {
        Some(sum as u32)
    } else {
        None
    }
}

/// Distinct interfaces never share a route table or a rule table, and no
/// interface (the kernel numbers them from 1) has its route table equal to
/// its rule table.
pub proof fn lemma_tables_distinct(base: int, i: int, j: int)
    requires
        i > 0,
    ensures
        i != j ==> route_table_of(base, i) != route_table_of(base, j),
        i != j ==> rule_table_of(base, i) != rule_table_of(base, j),
        route_table_of(base, i) != rule_table_of(base, i),
{
}

} // verus!
