//! What each cloud's metadata says a link should carry: its addresses, and
//! on GCP its gateway and MTU.

use vstd::prelude::*;
use crate::conf::{AzureCloudConfig, AwsCloudConfig, GcpCloudConfig};
use crate::env::{text_set, holds_text};
use crate::net::Links;
use crate::text::{
    eq_ignore_ascii_case, str_eq_ignore_ascii_case, push_char, split, split_fields, chars_of,
    string_of, decimal_value,
};

verus! {

#[derive(Debug, Clone)]
pub struct AzureMetadata {
    pub compute: AzureCompute,
    pub network: AzureNetwork,
}

#[derive(Debug, Clone)]
pub struct AzureCompute {
    pub name: String,
    pub location: String,
    pub vm_id: String,
    pub vm_size: String,
    pub zone: String,
    pub subscription_id: String,
}

#[derive(Debug, Clone)]
pub struct AzureNetwork {
    pub interface: Vec<AzureInterface>,
}

#[derive(Debug, Clone)]
pub struct AzureInterface {
    pub mac_address: String,
    pub ipv4: AzureIpv4,
}

#[derive(Debug, Clone)]
pub struct AzureIpv4 {
    pub ip_address: Vec<AzureIpAddress>,
    pub subnet: Vec<AzureSubnet>,
}

#[derive(Debug, Clone)]
pub struct AzureIpAddress {
    pub private_ip_address: String,
    pub public_ip_address: String,
}

#[derive(Debug, Clone)]
pub struct AzureSubnet {
    pub address: String,
    pub prefix: String,
}

/// Azure's instance metadata, once fetched.
pub struct Azure {
    pub metadata: Option<AzureMetadata>,
    pub api_version: String,
}

/// `address/prefix` text.
pub open spec fn cidr_text(address: Seq<char>, prefix: Seq<char>) -> Seq<char> {
    address.push('/') + prefix
}

/// Builds `address/prefix` text.
pub fn join_cidr(address: &str, prefix: &str) -> (r: String)
    ensures
        r@ == cidr_text(address@, prefix@),
{
    let mut r = String::from_str(address);
    push_char(&mut r, '/');
    r.append(prefix);
    r
}

/// Adds `s` to `v` unless `v` already holds it.
fn add_text(v: &mut Vec<String>, s: String)
    ensures
        text_set(final(v)@) == text_set(old(v)@).insert(s@),
{
    if !holds_text(v, &s) {
        proof {
            crate::env::lemma_text_set_push(v@, s);
        }
        v.push(s);
    } else {
        assert(text_set(old(v)@).insert(s@) =~= text_set(old(v)@));
    }
}

/// `i` is the first interface whose hardware address is `mac`, case aside.
pub open spec fn azure_first_match(ifaces: Seq<AzureInterface>, mac: Seq<char>, i: int) -> bool {
    0 <= i < ifaces.len() && eq_ignore_ascii_case(ifaces[i].mac_address@, mac) && forall|j: int|
        0 <= j < i ==> !eq_ignore_ascii_case(#[trigger] ifaces[j].mac_address@, mac)
}

/// The CIDR texts of an interface: each private address with the prefix
/// of the interface's first subnet (none without a subnet).
pub open spec fn azure_iface_addresses(it: AzureInterface) -> Set<Seq<char>> {
    if it.ipv4.subnet@.len() == 0 {
        Set::empty()
    } else {
        Set::new(|c: Seq<char>| exists|k: int| 0 <= k < it.ipv4.ip_address@.len() && c == cidr_text(
            (#[trigger] it.ipv4.ip_address@[k]).private_ip_address@,
            it.ipv4.subnet@[0].prefix@,
        ))
    }
}

pub open spec fn azure_addresses(meta: Option<AzureMetadata>, mac: Seq<char>) -> Set<Seq<char>> {
    match meta {
        None => Set::empty(),
        Some(m) => if exists|i: int| azure_first_match(m.network.interface@, mac, i) {
            azure_iface_addresses(
                m.network.interface@[choose|i: int| azure_first_match(m.network.interface@, mac, i)],
            )
        } else {
            Set::empty()
        },
    }
}

fn azure_iface_cidrs(it: &AzureInterface) -> (r: Vec<String>)
    ensures
        text_set(r@) == azure_iface_addresses(*it),
{
    let mut r: Vec<String> = Vec::new();
    if it.ipv4.subnet.len() == 0 {
        assert(text_set(r@) =~= Set::<Seq<char>>::empty());
        return r;
    }
    let prefix = &it.ipv4.subnet[0].prefix;
    let ghost target = azure_iface_addresses(*it);
    let mut k: usize = 0;
    assert(text_set(r@) =~= Set::<Seq<char>>::empty());
    while k < it.ipv4.ip_address.len()
        invariant
            it.ipv4.subnet@.len() > 0,
            *prefix == it.ipv4.subnet@[0].prefix,
            k <= it.ipv4.ip_address@.len(),
            text_set(r@) == Set::new(|c: Seq<char>| exists|q: int| 0 <= q < k && c == cidr_text(
                (#[trigger] it.ipv4.ip_address@[q]).private_ip_address@,
                it.ipv4.subnet@[0].prefix@,
            )),
        decreases it.ipv4.ip_address@.len() - k,
    {
        let c = join_cidr(it.ipv4.ip_address[k].private_ip_address.as_str(), prefix.as_str());
        let ghost before = text_set(r@);
        add_text(&mut r, c);
        k = k + 1;
        assert(text_set(r@) =~= Set::new(|c: Seq<char>| exists|q: int| 0 <= q < k && c == cidr_text(
            (#[trigger] it.ipv4.ip_address@[q]).private_ip_address@,
            it.ipv4.subnet@[0].prefix@,
        ))) by {
            assert forall|x: Seq<char>| text_set(r@).contains(x) implies (exists|q: int| 0 <= q < k && x == cidr_text(
                (#[trigger] it.ipv4.ip_address@[q]).private_ip_address@,
                it.ipv4.subnet@[0].prefix@,
            )) by {
                if !before.contains(x) {
                    assert(x == cidr_text(it.ipv4.ip_address@[k - 1].private_ip_address@, it.ipv4.subnet@[0].prefix@));
                }
            }
        }
    }
    assert(text_set(r@) =~= target);
    r
}

impl Azure {
    pub fn new(config: &AzureCloudConfig) -> (r: Self)
        ensures
            r.metadata is None,
            r.api_version@ == config.api_version@,
    {
        Azure { metadata: None, api_version: config.api_version.clone() }
    }

    /// The CIDR texts that the metadata gives the link with hardware address
    /// `mac` (compared without regard to case): those of the first matching
    /// interface, each private address with its first subnet's prefix.
    pub fn parse_ipv4_addresses_from_metadata_by_mac(&self, mac: &str) -> (r: Vec<String>)
        ensures
            text_set(r@) == azure_addresses(self.metadata, mac@),
    {
        match &self.metadata {
            None => {
                let r: Vec<String> = Vec::new();
                assert(text_set(r@) =~= Set::<Seq<char>>::empty());
                r
            },
            Some(meta) => {
                let ifaces = &meta.network.interface;
                let mut i: usize = 0;
                while i < ifaces.len()
                    invariant
                        self.metadata == Some(*meta),
                        *ifaces == meta.network.interface,
                        i <= ifaces@.len(),
                        forall|j: int| 0 <= j < i ==> !eq_ignore_ascii_case(#[trigger] ifaces@[j].mac_address@, mac@),
                    decreases ifaces@.len() - i,
                {
                    if str_eq_ignore_ascii_case(ifaces[i].mac_address.as_str(), mac) {
                        assert(azure_first_match(ifaces@, mac@, i as int));
                        proof {
                            let c = choose|c: int| azure_first_match(ifaces@, mac@, c);
                            if c < i {
                                assert(!eq_ignore_ascii_case(ifaces@[c].mac_address@, mac@));
                            } else if c > i {
                                assert(!eq_ignore_ascii_case(ifaces@[i as int].mac_address@, mac@));
                            }
                            assert(c == i);
                            let m = self.metadata->0;
                            assert(m.network.interface@ == ifaces@);
                            assert(exists|j: int| azure_first_match(m.network.interface@, mac@, j));
                            assert(azure_addresses(self.metadata, mac@) == azure_iface_addresses(ifaces@[i as int]));
                        }
                        let r = azure_iface_cidrs(&ifaces[i]);
                        return r;
                    }
                    i = i + 1;
                }
                let r: Vec<String> = Vec::new();
                assert(text_set(r@) =~= Set::<Seq<char>>::empty());
                r
            },
        }
    }
}

} // verus!

verus! {

#[derive(Debug, Clone)]
pub struct GCPMetadata {
    pub instance: GCPInstance,
    pub project: GCPProject,
}

#[derive(Debug, Clone)]
pub struct GCPInstance {
    pub id: String,
    pub hostname: String,
    pub machine_type: String,
    pub network_interfaces: Vec<GCPNetworkInterface>,
}

#[derive(Debug, Clone)]
pub struct GCPNetworkInterface {
    pub mac: String,
    pub ip: String,
    pub subnetmask: String,
    pub gateway: String,
    pub mtu: u32,
    pub ip_aliases: Vec<String>,
}

#[derive(Debug, Clone)]
pub struct GCPProject {
    pub project_id: String,
    pub numeric_project_id: i64,
}

/// GCP's instance metadata, once fetched.
pub struct GCP {
    pub metadata: Option<GCPMetadata>,
    pub recursive: bool,
}

pub open spec fn gcp_first_match(ifaces: Seq<GCPNetworkInterface>, mac: Seq<char>, i: int) -> bool {
    0 <= i < ifaces.len() && eq_ignore_ascii_case(ifaces[i].mac@, mac) && forall|j: int|
        0 <= j < i ==> !eq_ignore_ascii_case(#[trigger] ifaces[j].mac@, mac)
}

/// The first interface of the metadata whose hardware address is `mac`, case aside.
pub open spec fn gcp_match(meta: Option<GCPMetadata>, mac: Seq<char>) -> Option<GCPNetworkInterface> {
    match meta {
        None => None,
        Some(m) => if exists|i: int| gcp_first_match(m.instance.network_interfaces@, mac, i) {
            Some(
                m.instance.network_interfaces@[choose|i: int|
                    gcp_first_match(m.instance.network_interfaces@, mac, i)],
            )
        } else {
            None
        },
    }
}

/// The byte values among the fields, skipping those that are not one.
pub open spec fn parsed_octets(fields: Seq<Seq<char>>) -> Seq<nat>
    decreases fields.len(),
{
    if fields.len() == 0 {
        Seq::empty()
    } else {
        let p = parsed_octets(fields.drop_last());
        if crate::text::u8_text_ok(fields.last()) {
            p.push(decimal_value(crate::text::u8_digits(fields.last())))
        } else {
            p
        }
    }
}

/// The prefix length of a dotted subnet mask: its one bits where exactly
/// four of its fields are byte values, else 24.
pub open spec fn mask_prefix(mask: Seq<char>) -> nat {
    let o = parsed_octets(split(mask, '.'));
    if o.len() != 4 {
        24
    } else {
        crate::text::ones(o[0]) + crate::text::ones(o[1]) + crate::text::ones(o[2]) + crate::text::ones(o[3])
    }
}

/// The interface's address and its aliases, each with the mask's prefix length.
pub open spec fn gcp_iface_addresses(it: GCPNetworkInterface) -> Set<Seq<char>> {
    let p = crate::text::decimal_text(mask_prefix(it.subnetmask@));
    Set::new(|c: Seq<char>| c == cidr_text(it.ip@, p) || exists|k: int| 0 <= k < it.ip_aliases@.len()
        && c == cidr_text((#[trigger] it.ip_aliases@[k])@, p))
}

pub open spec fn gcp_addresses(meta: Option<GCPMetadata>, mac: Seq<char>) -> Set<Seq<char>> {
    match gcp_match(meta, mac) {
        None => Set::empty(),
        Some(it) => gcp_iface_addresses(it),
    }
}

impl GCP {
    pub fn new(config: &GcpCloudConfig) -> (r: Self)
        ensures
            r.metadata is None,
            r.recursive == config.recursive,
    {
        GCP { metadata: None, recursive: config.recursive }
    }

    fn interface_for(&self, mac: &str) -> (r: Option<&GCPNetworkInterface>)
        ensures
            match r {
                None => gcp_match(self.metadata, mac@) is None,
                Some(it) => gcp_match(self.metadata, mac@) == Some(*it),
            },
    {
        match &self.metadata {
            None => None,
            Some(meta) => {
                let ifaces = &meta.instance.network_interfaces;
                let mut i: usize = 0;
                while i < ifaces.len()
                    invariant
                        self.metadata == Some(*meta),
                        *ifaces == meta.instance.network_interfaces,
                        i <= ifaces@.len(),
                        forall|j: int| 0 <= j < i ==> !eq_ignore_ascii_case(#[trigger] ifaces@[j].mac@, mac@),
                    decreases ifaces@.len() - i,
                {
                    if str_eq_ignore_ascii_case(ifaces[i].mac.as_str(), mac) {
                        assert(gcp_first_match(ifaces@, mac@, i as int));
                        proof {
                            let c = choose|c: int| gcp_first_match(ifaces@, mac@, c);
                            if c < i {
                                assert(!eq_ignore_ascii_case(ifaces@[c].mac@, mac@));
                            } else if c > i {
                                assert(!eq_ignore_ascii_case(ifaces@[i as int].mac@, mac@));
                            }
                            assert(c == i);
                            let m = self.metadata->0;
                            assert(m.instance.network_interfaces@ == ifaces@);
                            assert(exists|j: int| gcp_first_match(m.instance.network_interfaces@, mac@, j));
                            assert(gcp_match(self.metadata, mac@) == Some(ifaces@[i as int]));
                        }
                        return Some(&ifaces[i]);
                    }
                    i = i + 1;
                }
                None
            },
        }
    }

    /// The gateway that the metadata gives the link `mac`, if it lists the link.
    pub fn parse_ipv4_gateway_from_metadata_by_mac(&self, mac: &str) -> (r: Option<String>)
        ensures
            match gcp_match(self.metadata, mac@) {
                None => r is None,
                Some(it) => r is Some && r->0@ == it.gateway@,
            },
    {
        match self.interface_for(mac) {
            Some(it) => Some(it.gateway.clone()),
            None => None,
        }
    }

    /// The MTU that the metadata gives the link `mac`, if it lists the link.
    pub fn parse_link_mtu_from_metadata_by_mac(&self, mac: &str) -> (r: Option<u32>)
        ensures
            match gcp_match(self.metadata, mac@) {
                None => r is None,
                Some(it) => r == Some(it.mtu),
            },
    {
        match self.interface_for(mac) {
            Some(it) => Some(it.mtu),
            None => None,
        }
    }

    /// The prefix length of a dotted subnet mask (24 where it does not hold
    /// exactly four byte values).
    pub fn subnet_mask_to_cidr(&self, mask: &str) -> (r: u8)
        ensures
            r as nat == mask_prefix(mask@),
    {
        let chars = chars_of(mask);
        let fields = split_fields(&chars, '.');
        let ghost fs = split(mask@, '.');
        let mut vals: Vec<u8> = Vec::new();
        let mut i: usize = 0;
        assert(fs.take(0) =~= Seq::<Seq<char>>::empty());
        while i < fields.len()
            invariant
                fields@.len() == fs.len(),
                fs == split(mask@, '.'),
                forall|j: int| 0 <= j < fields@.len() ==> (#[trigger] fields@[j])@ == fs[j],
                i <= fields@.len(),
                vals@.len() == parsed_octets(fs.take(i as int)).len(),
                forall|j: int| 0 <= j < vals@.len() ==> (#[trigger] vals@[j]) as nat == parsed_octets(fs.take(i as int))[j],
            decreases fields@.len() - i,
        {
            assert(fs.take(i as int + 1).drop_last() =~= fs.take(i as int));
            assert(fs.take(i as int + 1).last() == fs[i as int]);
            match crate::text::parse_u8_text(&fields[i]) {
                Some(v) => { vals.push(v); },
                None => {},
            }
            i = i + 1;
        }
        assert(fs.take(fields@.len() as int) =~= fs);
        if vals.len() != 4 {
            return 24;
        }
        let a = crate::text::count_ones(vals[0]);
        let b = crate::text::count_ones(vals[1]);
        let c = crate::text::count_ones(vals[2]);
        let d = crate::text::count_ones(vals[3]);
        (a + b + c + d) as u8
    }

    /// The CIDR texts that the metadata gives the link `mac`: the first
    /// matching interface's address and aliases, with its mask's prefix.
    pub fn parse_ipv4_addresses_from_metadata_by_mac(&self, mac: &str) -> (r: Vec<String>)
        ensures
            text_set(r@) == gcp_addresses(self.metadata, mac@),
    {
        let mut r: Vec<String> = Vec::new();
        match self.interface_for(mac) {
            None => {
                assert(text_set(r@) =~= Set::<Seq<char>>::empty());
                r
            },
            Some(it) => {
                let prefix = crate::text::decimal_string(self.subnet_mask_to_cidr(it.subnetmask.as_str()) as u64);
                let ghost p = prefix@;
                assert(text_set(r@) =~= Set::<Seq<char>>::empty());
                add_text(&mut r, join_cidr(it.ip.as_str(), prefix.as_str()));
                let mut k: usize = 0;
                while k < it.ip_aliases.len()
                    invariant
                        k <= it.ip_aliases@.len(),
                        p == prefix@,
                        text_set(r@) == Set::new(|c: Seq<char>| c == cidr_text(it.ip@, p) || exists|q: int| 0 <= q < k
                            && c == cidr_text((#[trigger] it.ip_aliases@[q])@, p)),
                    decreases it.ip_aliases@.len() - k,
                {
                    let ghost before = text_set(r@);
                    add_text(&mut r, join_cidr(it.ip_aliases[k].as_str(), prefix.as_str()));
                    k = k + 1;
                    assert(text_set(r@) =~= Set::new(|c: Seq<char>| c == cidr_text(it.ip@, p) || exists|q: int| 0 <= q < k
                        && c == cidr_text((#[trigger] it.ip_aliases@[q])@, p))) by {
                        assert forall|x: Seq<char>| text_set(r@).contains(x) implies (x == cidr_text(it.ip@, p) || exists|q: int| 0 <= q < k
                            && x == cidr_text((#[trigger] it.ip_aliases@[q])@, p)) by {
                            if !before.contains(x) {
                                assert(x == cidr_text(it.ip_aliases@[k - 1]@, p));
                            }
                        }
                    }
                }
                assert(text_set(r@) =~= gcp_iface_addresses(*it));
                r
            },
        }
    }
}

} // verus!

verus! {

#[derive(Debug, Clone)]
pub struct EC2System {
    pub instance_id: String,
    pub instance_type: String,
    pub local_ipv4: String,
    pub public_ipv4: String,
}

#[derive(Debug, Clone)]
pub struct EC2MacData {
    pub mac: String,
    pub local_ipv4s: Vec<String>,
    pub subnet_ipv4_cidr_block: String,
}

/// EC2's instance metadata, per hardware address, once fetched.
pub struct EC2 {
    pub macs: Vec<EC2MacData>,
    pub imds_version: u8,
}

/// The prefix length text of a subnet's CIDR block (24 where it has none).
pub open spec fn ec2_prefix(cidr: Seq<char>) -> Seq<char> {
    let f = split(cidr, '/');
    if f.len() >= 2 {
        f[1]
    } else {
        crate::text::decimal_text(24)
    }
}

/// Each comma-separated address, trimmed, that is not empty, with the prefix.
pub open spec fn ec2_addresses(addresses: Seq<char>, cidr: Seq<char>) -> Set<Seq<char>> {
    let pieces = split(addresses, ',');
    Set::new(|c: Seq<char>| exists|k: int| 0 <= k < pieces.len() && crate::text::trimmed(#[trigger] pieces[k]).len() > 0
        && c == cidr_text(crate::text::trimmed(pieces[k]), ec2_prefix(cidr)))
}

/// The CIDR text for one trimmed address of a listing, `None` where it is empty.
pub fn ec2_cidr_of_trimmed(address: &str, prefix: &str) -> (r: Option<String>)
    ensures
        r is None <==> address@.len() == 0,
        r matches Some(c) ==> c@ == cidr_text(address@, prefix@),
{
    if address.unicode_len() == 0 {
        None
    } else {
        Some(join_cidr(address, prefix))
    }
}

/// The first entry for exactly the hardware address `mac`.
pub open spec fn ec2_first_match(macs: Seq<EC2MacData>, mac: Seq<char>, i: int) -> bool {
    0 <= i < macs.len() && macs[i].mac@ == mac && forall|j: int| 0 <= j < i ==> (#[trigger] macs[j]).mac@ != mac
}

pub open spec fn ec2_link_addresses(macs: Seq<EC2MacData>, mac: Seq<char>) -> Set<Seq<char>> {
    if exists|i: int| ec2_first_match(macs, mac, i) {
        let d = macs[choose|i: int| ec2_first_match(macs, mac, i)];
        ec2_addresses(crate::text::joined(crate::text::texts(d.local_ipv4s@), seq![',']), d.subnet_ipv4_cidr_block@)
    } else {
        Set::empty()
    }
}

impl EC2 {
    pub fn new(config: &AwsCloudConfig) -> (r: Self)
        ensures
            r.macs@.len() == 0,
            r.imds_version == config.imds_version,
    {
        EC2 { macs: Vec::new(), imds_version: config.imds_version }
    }

    /// The CIDR texts of a comma-separated address listing, each with the
    /// prefix length of the subnet block `cidr`.
    pub fn parse_ipv4_addresses_from_metadata(&self, addresses: &str, cidr: &str) -> (r: Vec<String>)
        ensures
            text_set(r@) == ec2_addresses(addresses@, cidr@),
    {
        let cidr_chars = chars_of(cidr);
        let cf = split_fields(&cidr_chars, '/');
        let prefix = if cf.len() >= 2 { string_of(&cf[1]) } else { crate::text::decimal_string(24) };
        let achars = chars_of(addresses);
        let pieces = split_fields(&achars, ',');
        let ghost ps = split(addresses@, ',');
        let ghost p = ec2_prefix(cidr@);
        assert(prefix@ == p);
        let mut r: Vec<String> = Vec::new();
        let mut k: usize = 0;
        assert(text_set(r@) =~= Set::<Seq<char>>::empty());
        while k < pieces.len()
            invariant
                pieces@.len() == ps.len(),
                forall|j: int| 0 <= j < ps.len() ==> (#[trigger] pieces@[j])@ == ps[j],
                k <= ps.len(),
                prefix@ == p,
                text_set(r@) == Set::new(|c: Seq<char>| exists|q: int| 0 <= q < k && crate::text::trimmed(#[trigger] ps[q]).len() > 0
                    && c == cidr_text(crate::text::trimmed(ps[q]), p)),
            decreases ps.len() - k,
        {
            let piece = string_of(&pieces[k]);
            let t = crate::text::trim_text(piece.as_str());
            let ghost before = text_set(r@);
            match ec2_cidr_of_trimmed(t.as_str(), prefix.as_str()) {
                Some(c) => { add_text(&mut r, c); },
                None => {},
            }
            k = k + 1;
            assert(text_set(r@) =~= Set::new(|c: Seq<char>| exists|q: int| 0 <= q < k && crate::text::trimmed(#[trigger] ps[q]).len() > 0
                && c == cidr_text(crate::text::trimmed(ps[q]), p))) by {
                assert forall|x: Seq<char>| text_set(r@).contains(x) implies (exists|q: int| 0 <= q < k && crate::text::trimmed(#[trigger] ps[q]).len() > 0
                    && x == cidr_text(crate::text::trimmed(ps[q]), p)) by {
                    if !before.contains(x) {
                        assert(crate::text::trimmed(ps[k - 1]).len() > 0);
                    }
                }
            }
        }
        assert(text_set(r@) =~= ec2_addresses(addresses@, cidr@));
        r
    }

    fn entry_for(&self, mac: &String) -> (r: Option<&EC2MacData>)
        ensures
            r is None ==> !exists|i: int| ec2_first_match(self.macs@, mac@, i),
            r matches Some(d) ==> exists|i: int| ec2_first_match(self.macs@, mac@, i) && self.macs@[i] == *d
                && i == choose|i: int| ec2_first_match(self.macs@, mac@, i),
    {
        let mut i: usize = 0;
        while i < self.macs.len()
            invariant
                i <= self.macs@.len(),
                forall|j: int| 0 <= j < i ==> (#[trigger] self.macs@[j]).mac@ != mac@,
            decreases self.macs@.len() - i,
        {
            if self.macs[i].mac == *mac {
                assert(ec2_first_match(self.macs@, mac@, i as int));
                proof {
                    let c = choose|c: int| ec2_first_match(self.macs@, mac@, c);
                    if c < i {
                        assert(self.macs@[c].mac@ != mac@);
                    } else if c > i {
                        assert(self.macs@[i as int].mac@ != mac@);
                    }
                }
                return Some(&self.macs[i]);
            }
            i = i + 1;
        }
        None
    }

    /// The CIDR texts that the metadata gives the link `mac`.
    pub fn addresses_for(&self, mac: &String) -> (r: Vec<String>)
        ensures
            text_set(r@) == ec2_link_addresses(self.macs@, mac@),
    {
        match self.entry_for(mac) {
            Some(d) => {
                let listing = crate::text::join_texts(&d.local_ipv4s, ",");
                proof {
                    reveal_strlit(",");
                    assert(","@ =~= seq![',']);
                }
                self.parse_ipv4_addresses_from_metadata(listing.as_str(), d.subnet_ipv4_cidr_block.as_str())
            },
            None => {
                let r: Vec<String> = Vec::new();
                assert(text_set(r@) =~= Set::<Seq<char>>::empty());
                r
            },
        }
    }
}

} // verus!

verus! {

/// `l` without its trailing slashes.
pub open spec fn without_trailing_slashes(l: Seq<char>) -> Seq<char>
    decreases l.len(),
{
    if l.len() > 0 && l.last() == '/' {
        without_trailing_slashes(l.drop_last())
    } else {
        l
    }
}

/// The hardware addresses of a metadata directory listing: its non-empty
/// lines, without trailing slashes.
pub open spec fn listed_macs(lines: Seq<Seq<char>>) -> Seq<Seq<char>>
    decreases lines.len(),
{
    if lines.len() == 0 {
        Seq::empty()
    } else {
        let p = listed_macs(lines.drop_last());
        if lines.last().len() == 0 {
            p
        } else {
            p.push(without_trailing_slashes(lines.last()))
        }
    }
}

fn strip_slashes(v: &Vec<char>) -> (r: Vec<char>)
    ensures
        r@ == without_trailing_slashes(v@),
{
    let mut end = v.len();
    assert(v@.take(end as int) =~= v@);
    while end > 0 && v[end - 1] == '/'
        invariant
            end <= v@.len(),
            without_trailing_slashes(v@.take(end as int)) == without_trailing_slashes(v@),
        decreases end,
    {
        assert(v@.take(end as int).drop_last() =~= v@.take(end - 1));
        end = end - 1;
    }
    let mut r: Vec<char> = Vec::new();
    let mut q: usize = 0;
    while q < end
        invariant
            end <= v@.len(),
            q <= end,
            r@ == v@.take(q as int),
        decreases end - q,
    {
        r.push(v[q]);
        q = q + 1;
        assert(r@ =~= v@.take(q as int));
    }
    assert(r@ =~= v@.take(end as int));
    r
}

/// The hardware addresses that the metadata service lists, one per line.
pub fn macs_from_listing(text: &str) -> (r: Vec<String>)
    ensures
        crate::text::texts(r@) == listed_macs(crate::text::line_texts(text@)),
{
    let lines = crate::text::lines_of(text);
    let ghost ls = crate::text::line_texts(text@);
    let mut r: Vec<String> = Vec::new();
    let mut i: usize = 0;
    while i < lines.len()
        invariant
            crate::text::texts(lines@) == ls,
            i <= lines@.len(),
            crate::text::texts(r@) == listed_macs(ls.take(i as int)),
        decreases lines@.len() - i,
    {
        assert(ls.take(i as int + 1).drop_last() =~= ls.take(i as int));
        assert(ls[i as int] == lines@[i as int]@);
        let chars = chars_of(lines[i].as_str());
        if chars.len() > 0 {
            let s = string_of(&strip_slashes(&chars));
            let ghost before = r@;
            r.push(s);
            assert(crate::text::texts(r@) =~= crate::text::texts(before).push(s@));
        }
        i = i + 1;
    }
    assert(ls.take(lines@.len() as int) =~= ls);
    r
}

/// One link's share of a reconciliation pass: the link (by its position in
/// the inventory) and what the metadata wants on it.
pub struct LinkRequest {
    pub index: usize,
    pub desired: Vec<String>,
    pub gateway: Option<String>,
    pub mtu: Option<u32>,
}

impl Azure {
    /// A request for every link of the inventory, in order.
    pub fn link_requests(&self, links: &Links) -> (r: Vec<LinkRequest>)
        ensures
            r@.len() == links.links_by_mac@.len(),
            forall|k: int| 0 <= k < r@.len() ==> (#[trigger] r@[k]).index == k && text_set(r@[k].desired@)
                == azure_addresses(self.metadata, links.links_by_mac@[k].mac@) && r@[k].gateway is None
                && r@[k].mtu is None,
    {
        let mut r: Vec<LinkRequest> = Vec::new();
        let mut k: usize = 0;
        while k < links.links_by_mac.len()
            invariant
                k <= links.links_by_mac@.len(),
                r@.len() == k,
                forall|j: int| 0 <= j < k ==> (#[trigger] r@[j]).index == j && text_set(r@[j].desired@)
                    == azure_addresses(self.metadata, links.links_by_mac@[j].mac@) && r@[j].gateway is None
                    && r@[j].mtu is None,
            decreases links.links_by_mac@.len() - k,
        {
            let desired = self.parse_ipv4_addresses_from_metadata_by_mac(links.links_by_mac[k].mac.as_str());
            r.push(LinkRequest { index: k, desired, gateway: None, mtu: None });
            k = k + 1;
        }
        r
    }
}

impl GCP {
    /// A request for every link of the inventory, in order; the gateway and
    /// MTU come along where the metadata gives the link addresses.
    pub fn link_requests(&self, links: &Links) -> (r: Vec<LinkRequest>)
        ensures
            r@.len() == links.links_by_mac@.len(),
            forall|k: int| 0 <= k < r@.len() ==> {
                let it = gcp_match(self.metadata, links.links_by_mac@[k].mac@);
                &&& (#[trigger] r@[k]).index == k
                &&& text_set(r@[k].desired@) == gcp_addresses(self.metadata, links.links_by_mac@[k].mac@)
                &&& r@[k].desired@.len() == 0 ==> r@[k].gateway is None && r@[k].mtu is None
                &&& r@[k].desired@.len() > 0 ==> it is Some && r@[k].gateway is Some
                    && r@[k].gateway->0@ == it->0.gateway@ && r@[k].mtu == Some(it->0.mtu)
            },
    {
        let mut r: Vec<LinkRequest> = Vec::new();
        let mut k: usize = 0;
        while k < links.links_by_mac.len()
            invariant
                k <= links.links_by_mac@.len(),
                r@.len() == k,
                forall|j: int| 0 <= j < k ==> {
                    let it = gcp_match(self.metadata, links.links_by_mac@[j].mac@);
                    &&& (#[trigger] r@[j]).index == j
                    &&& text_set(r@[j].desired@) == gcp_addresses(self.metadata, links.links_by_mac@[j].mac@)
                    &&& r@[j].desired@.len() == 0 ==> r@[j].gateway is None && r@[j].mtu is None
                    &&& r@[j].desired@.len() > 0 ==> it is Some && r@[j].gateway is Some
                        && r@[j].gateway->0@ == it->0.gateway@ && r@[j].mtu == Some(it->0.mtu)
                },
            decreases links.links_by_mac@.len() - k,
        {
            let mac = links.links_by_mac[k].mac.as_str();
            let desired = self.parse_ipv4_addresses_from_metadata_by_mac(mac);
            if desired.len() > 0 {
                proof {
                    if gcp_match(self.metadata, mac@) is None {
                        assert(text_set(desired@).contains(desired@[0]@));
                    }
                }
                let gateway = self.parse_ipv4_gateway_from_metadata_by_mac(mac);
                let mtu = self.parse_link_mtu_from_metadata_by_mac(mac);
                r.push(LinkRequest { index: k, desired, gateway, mtu });
            } else {
                r.push(LinkRequest { index: k, desired, gateway: None, mtu: None });
            }
            k = k + 1;
        }
        r
    }
}

impl EC2 {
    /// A request for every link of the inventory, in order.
    pub fn link_requests(&self, links: &Links) -> (r: Vec<LinkRequest>)
        ensures
            r@.len() == links.links_by_mac@.len(),
            forall|k: int| 0 <= k < r@.len() ==> (#[trigger] r@[k]).index == k && text_set(r@[k].desired@)
                == ec2_link_addresses(self.macs@, links.links_by_mac@[k].mac@) && r@[k].gateway is None
                && r@[k].mtu is None,
    {
        let mut r: Vec<LinkRequest> = Vec::new();
        let mut k: usize = 0;
        while k < links.links_by_mac.len()
            invariant
                k <= links.links_by_mac@.len(),
                r@.len() == k,
                forall|j: int| 0 <= j < k ==> (#[trigger] r@[j]).index == j && text_set(r@[j].desired@)
                    == ec2_link_addresses(self.macs@, links.links_by_mac@[j].mac@) && r@[j].gateway is None
                    && r@[j].mtu is None,
            decreases links.links_by_mac@.len() - k,
        {
            let desired = self.addresses_for(&links.links_by_mac[k].mac);
            r.push(LinkRequest { index: k, desired, gateway: None, mtu: None });
            k = k + 1;
        }
        r
    }
}

} // verus!
