use cloud_netconfig::cloud::CloudProvider;
use cloud_netconfig::conf::Config;
use cloud_netconfig::env::{is_rules_by_table_empty, Environment};
use cloud_netconfig::gateway::{gateway_from_routes, GatewaySource, RouteEntry};
use cloud_netconfig::ip::{ip_part_of, parse_cidr, parse_ipv4, Cidr};
use cloud_netconfig::net::{get_link_mac_by_index, rule_exists, Link, Links, RoutingPolicyRule};
use cloud_netconfig::reconcile::{Action, Event, LinkPass, NetError};
use cloud_netconfig::table::{route_table, rule_table};

fn link(name: &str, ifindex: u32, mac: &str) -> Link {
    Link {
        name: name.to_string(),
        ifindex,
        oper_state: "Up".to_string(),
        mac: mac.to_string(),
        mtu: 1500,
        addresses: None,
    }
}

fn env_with(links: &[Link]) -> Environment {
    let mut env = Environment::new(CloudProvider::AWS, &Config::default()).unwrap();
    let mut inv = Links::new();
    for l in links {
        inv.insert(l.clone());
    }
    env.set_links(inv);
    env
}

fn route_entry(dst_prefix_len: u8, oif: Option<u32>, gateway: Option<&str>) -> RouteEntry {
    RouteEntry { dst_prefix_len, oif, gateway: gateway.map(|g| g.to_string()) }
}

fn ip(s: &str) -> u32 {
    parse_ipv4(s).unwrap()
}

/// Runs a pass, answering every request as a kernel that holds `rules`
/// would, and returns the requests made.
fn run(env: &mut Environment, l: &Link, desired: &[&str], gw: Option<&str>, rules: &[RoutingPolicyRule]) -> (Vec<Action>, Result<(), NetError>) {
    let desired: Vec<String> = desired.iter().map(|s| s.to_string()).collect();
    let mut pass = match LinkPass::new(env, l, desired, gw.map(|g| g.to_string()), None) {
        Ok(p) => p,
        Err(e) => return (vec![], Err(e)),
    };
    let mut seen = vec![];
    loop {
        let action = pass.action();
        if let Action::Finished = action {
            return (seen, Ok(()));
        }
        let ev = match &action {
            Action::LookupGateway { if_index, .. } => Event::Routes(vec![route_entry(0, Some(*if_index), Some("10.0.0.1"))]),
            Action::ListRules => Event::Rules(rules.iter().cloned().collect()),
            _ => Event::Done,
        };
        seen.push(action);
        if let Err(e) = pass.on_event(env, ev) {
            return (seen, Err(e));
        }
    }
}

fn count(actions: &[Action], f: fn(&Action) -> bool) -> usize {
    actions.iter().filter(|a| f(a)).count()
}

#[test]
fn table_numbers() {
    assert_eq!(route_table(9999, 3), Some(10005));
    assert_eq!(rule_table(9999, 3), Some(10002));
    assert_eq!(route_table(u32::MAX - 4, 3), None);
    assert_eq!(rule_table(u32::MAX - 4, 3), Some(u32::MAX - 1));
    assert_ne!(route_table(9999, 1), route_table(9999, 2));
    assert_ne!(route_table(9999, 1), rule_table(9999, 1));
}

#[test]
fn cidr_and_address_parsing() {
    assert_eq!(parse_cidr("10.0.0.5/24"), Some(Cidr { ip: 0x0A000005, prefix_len: 24 }));
    assert_eq!(parse_cidr("255.255.255.255/32"), Some(Cidr { ip: u32::MAX, prefix_len: 32 }));
    assert_eq!(parse_cidr("10.0.0.5"), None);
    assert_eq!(parse_cidr("10.0.0.5/33"), None);
    assert_eq!(parse_cidr("10.0.0.256/24"), None);
    assert_eq!(parse_cidr("10.0.0.05/24"), None);
    assert_eq!(parse_cidr("10.0.0/24"), None);
    assert_eq!(parse_cidr("10.0.0.5/24/1"), None);
    assert_eq!(parse_ipv4("192.168.1.1"), Some(0xC0A80101));
    assert_eq!(parse_ipv4("1.2.3"), None);
    assert_eq!(ip_part_of("10.0.0.5/24"), "10.0.0.5");
    assert_eq!(ip_part_of("10.0.0.5"), "10.0.0.5");
}

#[test]
fn rule_existence_matching() {
    let from = RoutingPolicyRule { from: Some("10.0.0.5".to_string()), to: None, table: 10002 };
    let listed = vec![
        RoutingPolicyRule { from: Some("10.0.0.5".to_string()), to: None, table: 10003 },
        RoutingPolicyRule { from: Some("10.0.0.5".to_string()), to: Some("10.0.0.9".to_string()), table: 10002 },
    ];
    assert!(!rule_exists(&from, &listed));
    let listed2 = vec![RoutingPolicyRule { from: Some("10.0.0.5".to_string()), to: None, table: 10002 }];
    assert!(rule_exists(&from, &listed2));
    assert!(!rule_exists(&from, &vec![]));
}

#[test]
fn gateway_fallback_order() {
    let routes = vec![
        route_entry(0, Some(7), Some("9.9.9.9")),
        route_entry(0, None, Some("4.4.4.4")),
        route_entry(24, Some(3), None),
        route_entry(24, Some(3), Some("3.3.3.3")),
        route_entry(0, Some(3), Some("2.2.2.2")),
    ];
    let s = |x: &str| Some(x.to_string());
    assert_eq!(gateway_from_routes(&routes, 3, GatewaySource::LinkDefault), s("2.2.2.2"));
    assert_eq!(gateway_from_routes(&routes, 3, GatewaySource::LinkAny), s("3.3.3.3"));
    assert_eq!(gateway_from_routes(&routes, 3, GatewaySource::SystemDefault), s("9.9.9.9"));
    assert_eq!(gateway_from_routes(&routes, 5, GatewaySource::LinkDefault), None);
    assert_eq!(gateway_from_routes(&vec![], 3, GatewaySource::SystemDefault), None);
}

#[test]
fn example_scenario_two_links() {
    let eth0 = link("eth0", 3, "aa:bb:cc:dd:ee:ff");
    let eth1 = link("eth1", 4, "aa:bb:cc:dd:ee:00");
    let mut env = env_with(&[eth0.clone(), eth1]);
    let (actions, r) = run(&mut env, &eth0, &["10.0.0.5/24"], None, &[]);
    assert_eq!(r, Ok(()));
    assert!(matches!(&actions[0], Action::ReplaceAddress { if_name, cidr } if if_name == "eth0" && cidr.prefix_len == 24));
    assert!(matches!(&actions[1], Action::LookupGateway { if_index: 3, source: GatewaySource::LinkDefault }));
    match &actions[2] {
        Action::AddRoute { route, gateway } => {
            assert_eq!(route.table, 10005);
            assert_eq!(route.if_index, 3);
            assert_eq!(route.gw, "10.0.0.1");
            assert_eq!(*gateway, ip("10.0.0.1"));
        }
        other => panic!("unexpected {:?}", other),
    }
    assert!(matches!(&actions[3], Action::ListRules));
    match (&actions[4], &actions[5]) {
        (Action::AddRule { rule: a, ip: x }, Action::AddRule { rule: b, .. }) => {
            assert_eq!(a.from.as_deref(), Some("10.0.0.5"));
            assert_eq!(a.to, None);
            assert_eq!(a.table, 10002);
            assert_eq!(*x, ip("10.0.0.5"));
            assert_eq!(b.to.as_deref(), Some("10.0.0.5"));
            assert_eq!(b.table, 10002);
        }
        other => panic!("unexpected {:?}", other),
    }
    assert_eq!(actions.len(), 6);
    assert_eq!(env.routes_by_index.len(), 1);
    assert_eq!(env.routing_rules_by_address_from.len(), 1);
    assert_eq!(env.routing_rules_by_address_to.len(), 1);
    assert_eq!(env.addresses_of(&"aa:bb:cc:dd:ee:ff".to_string()), vec!["10.0.0.5/24".to_string()]);
}

#[test]
fn single_uplink_installs_no_rule() {
    let eth0 = link("eth0", 3, "aa:bb:cc:dd:ee:ff");
    let mut env = env_with(&[eth0.clone()]);
    let (actions, r) = run(&mut env, &eth0, &["10.0.0.5/24", "10.0.0.6/24"], Some("10.0.0.1"), &[]);
    assert_eq!(r, Ok(()));
    assert_eq!(count(&actions, |a| matches!(a, Action::AddRule { .. } | Action::ListRules)), 0);
    assert_eq!(count(&actions, |a| matches!(a, Action::AddRoute { .. })), 1);
    assert_eq!(count(&actions, |a| matches!(a, Action::LookupGateway { .. })), 0);
    // the pair is still recorded, so the route stays tied to the addresses
    assert!(!is_rules_by_table_empty(&env, 10002));
}

#[test]
fn second_identical_pass_changes_nothing() {
    let eth0 = link("eth0", 3, "aa:bb:cc:dd:ee:ff");
    let eth1 = link("eth1", 4, "aa:bb:cc:dd:ee:00");
    let mut env = env_with(&[eth0.clone(), eth1]);
    let (_, r) = run(&mut env, &eth0, &["10.0.0.5/24"], Some("10.0.0.1"), &[]);
    assert_eq!(r, Ok(()));
    let installed = vec![
        RoutingPolicyRule { from: Some("10.0.0.5".to_string()), to: None, table: 10002 },
        RoutingPolicyRule { from: None, to: Some("10.0.0.5".to_string()), table: 10002 },
    ];
    let (actions, r) = run(&mut env, &eth0, &["10.0.0.5/24"], Some("10.0.0.1"), &installed);
    assert_eq!(r, Ok(()));
    assert_eq!(count(&actions, |a| matches!(a, Action::AddRule { .. })), 0);
    assert_eq!(
        count(&actions, |a| matches!(a, Action::RemoveRule { .. } | Action::RemoveAddress { .. } | Action::RemoveRoute { .. })),
        0
    );
    assert_eq!(env.routes_by_index.len(), 1);
    assert_eq!(env.routing_rules_by_address_from.len(), 1);
}

#[test]
fn dropped_address_is_retracted_route_kept() {
    let eth0 = link("eth0", 3, "aa:bb:cc:dd:ee:ff");
    let eth1 = link("eth1", 4, "aa:bb:cc:dd:ee:00");
    let mut env = env_with(&[eth0.clone(), eth1]);
    let (_, r) = run(&mut env, &eth0, &["10.0.0.5/24", "10.0.0.6/24"], Some("10.0.0.1"), &[]);
    assert_eq!(r, Ok(()));
    assert_eq!(env.routing_rules_by_address_from.len(), 2);
    let (actions, r) = run(&mut env, &eth0, &["10.0.0.6/24"], Some("10.0.0.1"), &[]);
    assert_eq!(r, Ok(()));
    assert_eq!(count(&actions, |a| matches!(a, Action::RemoveRule { .. })), 2);
    assert!(actions.iter().any(|a| matches!(a, Action::RemoveAddress { cidr, .. } if cidr.ip == ip("10.0.0.5"))));
    assert_eq!(count(&actions, |a| matches!(a, Action::RemoveRoute { .. })), 0);
    assert_eq!(env.routing_rules_by_address_from.len(), 1);
    assert_eq!(env.routing_rules_by_address_from[0].from.as_deref(), Some("10.0.0.6"));
    assert_eq!(env.routes_by_index.len(), 1);
    assert_eq!(env.addresses_of(&"aa:bb:cc:dd:ee:ff".to_string()), vec!["10.0.0.6/24".to_string()]);
}

#[test]
fn last_address_gone_retracts_route() {
    let eth0 = link("eth0", 3, "aa:bb:cc:dd:ee:ff");
    let eth1 = link("eth1", 4, "aa:bb:cc:dd:ee:00");
    let mut env = env_with(&[eth0.clone(), eth1]);
    let (_, r) = run(&mut env, &eth0, &["10.0.0.5/24"], Some("10.0.0.1"), &[]);
    assert_eq!(r, Ok(()));
    let (actions, r) = run(&mut env, &eth0, &[], None, &[]);
    assert_eq!(r, Ok(()));
    assert!(matches!(actions.last(), Some(Action::RemoveRoute { route, gateway }) if route.table == 10005 && *gateway == ip("10.0.0.1")));
    assert_eq!(count(&actions, |a| matches!(a, Action::RemoveRule { .. })), 2);
    assert_eq!(count(&actions, |a| matches!(a, Action::SetLinkUp { .. } | Action::ReplaceAddress { .. })), 0);
    assert!(env.routes_by_index.is_empty());
    assert!(is_rules_by_table_empty(&env, 10002));
    assert!(env.addresses_of(&"aa:bb:cc:dd:ee:ff".to_string()).is_empty());
}

#[test]
fn link_steps_only_when_needed() {
    let mut eth0 = link("eth0", 3, "aa:bb:cc:dd:ee:ff");
    eth0.oper_state = "Down".to_string();
    let mut env = env_with(&[eth0.clone()]);
    let desired = vec!["10.0.0.5/24".to_string()];
    let pass = LinkPass::new(&mut env, &eth0, desired.clone(), None, Some(9001)).unwrap();
    assert!(matches!(pass.action(), Action::SetLinkUp { if_index: 3 }));
    eth0.oper_state = "Up".to_string();
    let pass = LinkPass::new(&mut env, &eth0, desired.clone(), None, Some(9001)).unwrap();
    assert!(matches!(pass.action(), Action::SetMtu { if_index: 3, mtu: 9001 }));
    let pass = LinkPass::new(&mut env, &eth0, desired, None, Some(1500)).unwrap();
    assert!(matches!(pass.action(), Action::ReplaceAddress { .. }));
}

#[test]
fn gateway_lookups_fall_through() {
    let eth0 = link("eth0", 3, "aa:bb:cc:dd:ee:ff");
    let mut env = env_with(&[eth0.clone()]);
    let mut pass = LinkPass::new(&mut env, &eth0, vec!["10.0.0.5/24".to_string()], None, None).unwrap();
    assert_eq!(pass.on_event(&mut env, Event::Done), Ok(()));
    assert!(matches!(pass.action(), Action::LookupGateway { source: GatewaySource::LinkDefault, .. }));
    let others = vec![route_entry(0, Some(9), Some("10.9.9.9")), route_entry(16, Some(4), Some("10.4.4.4"))];
    assert_eq!(pass.on_event(&mut env, Event::Routes(others.clone())), Ok(()));
    assert!(matches!(pass.action(), Action::LookupGateway { source: GatewaySource::LinkAny, .. }));
    assert_eq!(pass.on_event(&mut env, Event::Routes(vec![route_entry(16, Some(3), None)])), Ok(()));
    assert!(matches!(pass.action(), Action::LookupGateway { source: GatewaySource::SystemDefault, .. }));
    assert_eq!(pass.on_event(&mut env, Event::Routes(vec![route_entry(0, None, Some("192.168.0.1"))])), Ok(()));
    assert!(matches!(pass.action(), Action::AddRoute { route, .. } if route.gw == "192.168.0.1"));
}

#[test]
fn no_gateway_skips_route_and_reports() {
    let eth0 = link("eth0", 3, "aa:bb:cc:dd:ee:ff");
    let mut env = env_with(&[eth0.clone()]);
    let mut pass = LinkPass::new(&mut env, &eth0, vec!["10.0.0.5/24".to_string()], None, None).unwrap();
    assert_eq!(pass.on_event(&mut env, Event::Done), Ok(()));
    assert_eq!(pass.on_event(&mut env, Event::Routes(vec![])), Ok(()));
    assert_eq!(pass.on_event(&mut env, Event::Routes(vec![])), Ok(()));
    assert_eq!(pass.on_event(&mut env, Event::Routes(vec![])), Err(NetError::GatewayNotFound));
    assert!(matches!(pass.action(), Action::Finished));
    assert!(env.routes_by_index.is_empty());
    assert_eq!(env.routing_rules_by_address_from.len(), 1);
    assert_eq!(env.addresses_of(&"aa:bb:cc:dd:ee:ff".to_string()).len(), 1);
}

#[test]
fn failures_stop_the_pass() {
    let eth0 = link("eth0", 3, "aa:bb:cc:dd:ee:ff");
    let mut env = env_with(&[eth0.clone()]);
    let mut pass = LinkPass::new(&mut env, &eth0, vec!["10.0.0.5/24".to_string()], Some("10.0.0.1".to_string()), None).unwrap();
    assert_eq!(pass.on_event(&mut env, Event::Exists), Ok(()));
    assert!(matches!(pass.action(), Action::AddRoute { .. }));
    assert_eq!(pass.on_event(&mut env, Event::Failed), Err(NetError::RouteAdd));
    assert!(env.routes_by_index.is_empty());

    let mut pass = LinkPass::new(&mut env, &eth0, vec!["10.0.0.5/24".to_string()], None, None).unwrap();
    assert_eq!(pass.on_event(&mut env, Event::Failed), Err(NetError::AddressAdd));
    let mut pass = LinkPass::new(&mut env, &eth0, vec!["10.0.0.5/24".to_string()], None, None).unwrap();
    assert_eq!(pass.on_event(&mut env, Event::Rules(vec![])), Err(NetError::UnexpectedEvent));
}

#[test]
fn malformed_input_is_refused_before_any_request() {
    let eth0 = link("eth0", 3, "aa:bb:cc:dd:ee:ff");
    let mut env = env_with(&[eth0.clone()]);
    let (actions, r) = run(&mut env, &eth0, &["10.0.0.5/24", "10.0.0.6"], None, &[]);
    assert_eq!(r, Err(NetError::InvalidAddress));
    assert!(actions.is_empty());
    let (_, r) = run(&mut env, &eth0, &["10.0.0.5/24"], Some("gateway"), &[]);
    assert_eq!(r, Err(NetError::InvalidGateway));
    let mut far = Config::default();
    far.network.routing.table_base = u32::MAX - 1;
    let mut env2 = Environment::new(CloudProvider::GCP, &far).unwrap();
    assert!(matches!(LinkPass::new(&mut env2, &eth0, vec!["10.0.0.5/24".to_string()], None, None), Err(NetError::TableOutOfRange)));
}

#[test]
fn environment_only_for_supported_clouds() {
    let config = Config::default();
    assert!(Environment::new(CloudProvider::Azure, &config).is_some());
    assert!(Environment::new(CloudProvider::GCP, &config).is_some());
    assert!(Environment::new(CloudProvider::Oracle, &config).is_none());
    assert!(Environment::new(CloudProvider::Undetected, &config).is_none());
    let env = Environment::new(CloudProvider::AWS, &config).unwrap();
    assert_eq!(env.route_table, 9999);
}

#[test]
fn link_inventory() {
    let mut links = Links::new();
    links.insert(link("eth0", 3, "aa:bb:cc:dd:ee:ff"));
    links.insert(link("eth1", 4, "aa:bb:cc:dd:ee:00"));
    links.insert(link("eth0", 5, "aa:bb:cc:dd:ee:ff"));
    assert_eq!(links.len(), 2);
    assert_eq!(get_link_mac_by_index(&links, 5), Some("aa:bb:cc:dd:ee:ff".to_string()));
    assert_eq!(get_link_mac_by_index(&links, 3), None);
    links.add_enumerated(link("lo", 1, "00:00:00:00:00:00"));
    assert_eq!(links.len(), 2);
    links.add_enumerated(link("eth2", 6, "aa:bb:cc:dd:ee:01"));
    assert_eq!(links.len(), 3);
}

#[test]
fn link_and_rule_failures() {
    let mut eth0 = link("eth0", 3, "aa:bb:cc:dd:ee:ff");
    eth0.oper_state = "Down".to_string();
    let eth1 = link("eth1", 4, "aa:bb:cc:dd:ee:00");
    let mut env = env_with(&[eth0.clone(), eth1]);
    let desired = vec!["10.0.0.5/24".to_string()];
    let mut pass = LinkPass::new(&mut env, &eth0, desired.clone(), None, None).unwrap();
    assert_eq!(pass.on_event(&mut env, Event::Failed), Err(NetError::LinkUp));

    let mut pass = LinkPass::new(&mut env, &eth0, desired.clone(), None, Some(9000)).unwrap();
    assert_eq!(pass.on_event(&mut env, Event::Done), Ok(()));
    assert!(matches!(pass.action(), Action::SetMtu { mtu: 9000, .. }));
    assert_eq!(pass.on_event(&mut env, Event::Failed), Err(NetError::LinkMtu));

    eth0.oper_state = "Up".to_string();
    let mut pass = LinkPass::new(&mut env, &eth0, desired, Some("10.0.0.1".to_string()), None).unwrap();
    assert_eq!(pass.on_event(&mut env, Event::Done), Ok(()));
    assert_eq!(pass.on_event(&mut env, Event::Done), Ok(()));
    assert!(matches!(pass.action(), Action::ListRules));
    assert_eq!(pass.on_event(&mut env, Event::Rules(vec![])), Ok(()));
    assert!(matches!(pass.action(), Action::AddRule { .. }));
    assert_eq!(pass.on_event(&mut env, Event::Failed), Err(NetError::RuleAdd));
    // the route was installed before the failure and stays recorded
    assert_eq!(env.routes_by_index.len(), 1);
    assert!(env.routing_rules_by_address_from.is_empty());
}

#[test]
fn failed_route_removal_stops_before_commit() {
    let eth0 = link("eth0", 3, "aa:bb:cc:dd:ee:ff");
    let mut env = env_with(&[eth0.clone()]);
    let (_, r) = run(&mut env, &eth0, &["10.0.0.5/24"], Some("10.0.0.1"), &[]);
    assert_eq!(r, Ok(()));
    let mut pass = LinkPass::new(&mut env, &eth0, vec![], None, None).unwrap();
    loop {
        let action = pass.action();
        let failed_route = matches!(action, Action::RemoveRoute { .. });
        assert!(!matches!(action, Action::Finished));
        let r = pass.on_event(&mut env, Event::Failed);
        if failed_route {
            assert_eq!(r, Err(NetError::RouteRemove));
            break;
        }
        assert_eq!(r, Ok(()));
    }
    assert!(env.routes_by_index.is_empty());
    assert_eq!(env.addresses_of(&"aa:bb:cc:dd:ee:ff".to_string()), vec!["10.0.0.5/24".to_string()]);
}

#[test]
fn prefix_change_keeps_the_rule_pair() {
    let eth0 = link("eth0", 3, "aa:bb:cc:dd:ee:ff");
    let eth1 = link("eth1", 4, "aa:bb:cc:dd:ee:00");
    let mut env = env_with(&[eth0.clone(), eth1]);
    let (_, r) = run(&mut env, &eth0, &["10.0.0.5/16"], Some("10.0.0.1"), &[]);
    assert_eq!(r, Ok(()));
    let (actions, r) = run(&mut env, &eth0, &["10.0.0.5/24"], Some("10.0.0.1"), &[]);
    assert_eq!(r, Ok(()));
    assert_eq!(count(&actions, |a| matches!(a, Action::RemoveRule { .. } | Action::RemoveRoute { .. })), 0);
    assert!(actions.iter().any(|a| matches!(a, Action::RemoveAddress { cidr, .. } if cidr.prefix_len == 16)));
    assert_eq!(env.routing_rules_by_address_from.len(), 1);
    assert_eq!(env.routing_rules_by_address_to.len(), 1);
    assert_eq!(env.routes_by_index.len(), 1);
}

#[test]
fn link_lookup_by_name() {
    let mut links = Links::new();
    links.insert(link("eth0", 3, "aa:bb:cc:dd:ee:ff"));
    links.insert(link("eth1", 4, "aa:bb:cc:dd:ee:00"));
    assert_eq!(links.index_by_name("eth1"), Some(1));
    assert_eq!(links.index_by_name("eth9"), None);
}
