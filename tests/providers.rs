use cloud_netconfig::cloud::{detect_cloud, CloudProvider, DmiInfo};
use cloud_netconfig::conf::{AwsCloudConfig, AzureCloudConfig, GcpCloudConfig};
use cloud_netconfig::net::{Link, Links};
use cloud_netconfig::provider::{
    macs_from_listing, Azure, AzureCompute, AzureInterface, AzureIpAddress, AzureIpv4,
    AzureMetadata, AzureNetwork, AzureSubnet, EC2MacData, GCPInstance, GCPMetadata,
    GCPNetworkInterface, GCPProject, EC2, GCP,
};

fn sorted(mut v: Vec<String>) -> Vec<String> {
    v.sort();
    v
}

fn dmi() -> DmiInfo {
    DmiInfo {
        sys_vendor: String::new(),
        chassis_asset_tag: String::new(),
        hypervisor_uuid: String::new(),
        product_uuid: String::new(),
        product_version: String::new(),
        product_name: String::new(),
    }
}

#[test]
fn cloud_detection_order() {
    assert_eq!(detect_cloud(&dmi()), CloudProvider::Undetected);
    let mut d = dmi();
    d.product_name = "Google Compute Engine\n".to_string();
    assert_eq!(detect_cloud(&d), CloudProvider::GCP);
    d.product_uuid = "ec2e1916-9099-7caf-fd21-012345abcdef".to_string();
    assert_eq!(detect_cloud(&d), CloudProvider::AWS);
    d.sys_vendor = "Microsoft Corporation".to_string();
    assert_eq!(detect_cloud(&d), CloudProvider::Azure);
    let mut o = dmi();
    o.chassis_asset_tag = "OracleCloud.com".to_string();
    assert_eq!(detect_cloud(&o), CloudProvider::Oracle);
    let mut x = dmi();
    x.sys_vendor = "DigitalOcean".to_string();
    assert_eq!(detect_cloud(&x), CloudProvider::DigitalOcean);
    x.product_name = "Alibaba Cloud ECS".to_string();
    assert_eq!(detect_cloud(&x), CloudProvider::Alibaba);
    assert_eq!(CloudProvider::DigitalOcean.as_str(), "digital ocean");
    assert_eq!(CloudProvider::AWS.as_str(), "aws");
}

fn azure_meta() -> AzureMetadata {
    AzureMetadata {
        compute: AzureCompute {
            name: "vm".to_string(),
            location: "westeurope".to_string(),
            vm_id: "id".to_string(),
            vm_size: "small".to_string(),
            zone: String::new(),
            subscription_id: String::new(),
        },
        network: AzureNetwork {
            interface: vec![
                AzureInterface {
                    mac_address: "000D3A6B2C1F".to_string(),
                    ipv4: AzureIpv4 {
                        ip_address: vec![
                            AzureIpAddress { private_ip_address: "10.0.0.4".to_string(), public_ip_address: String::new() },
                            AzureIpAddress { private_ip_address: "10.0.0.5".to_string(), public_ip_address: String::new() },
                        ],
                        subnet: vec![AzureSubnet { address: "10.0.0.0".to_string(), prefix: "24".to_string() }],
                    },
                },
                AzureInterface {
                    mac_address: "000D3A6B2C20".to_string(),
                    ipv4: AzureIpv4 { ip_address: vec![], subnet: vec![] },
                },
            ],
        },
    }
}

#[test]
fn azure_addresses_by_mac() {
    let mut azure = Azure::new(&AzureCloudConfig { api_version: "2021-02-01".to_string() });
    assert!(azure.parse_ipv4_addresses_from_metadata_by_mac("000d3a6b2c1f").is_empty());
    azure.metadata = Some(azure_meta());
    assert_eq!(
        sorted(azure.parse_ipv4_addresses_from_metadata_by_mac("000d3a6b2c1f")),
        vec!["10.0.0.4/24".to_string(), "10.0.0.5/24".to_string()]
    );
    assert!(azure.parse_ipv4_addresses_from_metadata_by_mac("000D3A6B2C20").is_empty());
    assert!(azure.parse_ipv4_addresses_from_metadata_by_mac("ffffffffffff").is_empty());
}

fn gcp_meta() -> GCPMetadata {
    GCPMetadata {
        instance: GCPInstance {
            id: "1".to_string(),
            hostname: "h".to_string(),
            machine_type: "e2".to_string(),
            network_interfaces: vec![GCPNetworkInterface {
                mac: "42:01:0A:80:00:02".to_string(),
                ip: "10.128.0.2".to_string(),
                subnetmask: "255.255.240.0".to_string(),
                gateway: "10.128.0.1".to_string(),
                mtu: 1460,
                ip_aliases: vec!["10.128.0.9".to_string()],
            }],
        },
        project: GCPProject { project_id: "p".to_string(), numeric_project_id: 7 },
    }
}

#[test]
fn gcp_lookup_by_mac() {
    let mut gcp = GCP::new(&GcpCloudConfig { recursive: true });
    assert_eq!(gcp.parse_ipv4_gateway_from_metadata_by_mac("42:01:0a:80:00:02"), None);
    gcp.metadata = Some(gcp_meta());
    assert_eq!(gcp.parse_ipv4_gateway_from_metadata_by_mac("42:01:0a:80:00:02"), Some("10.128.0.1".to_string()));
    assert_eq!(gcp.parse_link_mtu_from_metadata_by_mac("42:01:0a:80:00:02"), Some(1460));
    assert_eq!(gcp.parse_link_mtu_from_metadata_by_mac("42:01:0a:80:00:03"), None);
    assert_eq!(
        sorted(gcp.parse_ipv4_addresses_from_metadata_by_mac("42:01:0A:80:00:02")),
        vec!["10.128.0.2/20".to_string(), "10.128.0.9/20".to_string()]
    );
}

#[test]
fn gcp_subnet_mask_prefix() {
    let gcp = GCP::new(&GcpCloudConfig { recursive: true });
    assert_eq!(gcp.subnet_mask_to_cidr("255.255.255.0"), 24);
    assert_eq!(gcp.subnet_mask_to_cidr("255.255.0.0"), 16);
    assert_eq!(gcp.subnet_mask_to_cidr("255.255.255.255"), 32);
    assert_eq!(gcp.subnet_mask_to_cidr("255.255.255.128"), 25);
    assert_eq!(gcp.subnet_mask_to_cidr("0.0.0.0"), 0);
    assert_eq!(gcp.subnet_mask_to_cidr("255.255.x.0"), 24);
    assert_eq!(gcp.subnet_mask_to_cidr("255.x.255.255.0"), 24);
    assert_eq!(gcp.subnet_mask_to_cidr(""), 24);
}

#[test]
fn ec2_address_listing() {
    let ec2 = EC2::new(&AwsCloudConfig { imds_version: 2, token_ttl: None });
    assert_eq!(
        sorted(ec2.parse_ipv4_addresses_from_metadata(" 10.0.1.5 ,10.0.1.6,, ", "10.0.1.0/26")),
        vec!["10.0.1.5/26".to_string(), "10.0.1.6/26".to_string()]
    );
    assert_eq!(ec2.parse_ipv4_addresses_from_metadata("10.0.1.5", "10.0.1.0"), vec!["10.0.1.5/24".to_string()]);
    assert!(ec2.parse_ipv4_addresses_from_metadata("", "10.0.1.0/26").is_empty());
}

#[test]
fn ec2_mac_listing() {
    assert_eq!(
        macs_from_listing("0e:aa:bb:cc:dd:ee/\r\n\n0e:11:22:33:44:55/\n"),
        vec!["0e:aa:bb:cc:dd:ee".to_string(), "0e:11:22:33:44:55".to_string()]
    );
    assert!(macs_from_listing("").is_empty());
}

fn link(name: &str, ifindex: u32, mac: &str) -> Link {
    Link {
        name: name.to_string(),
        ifindex,
        oper_state: "Up".to_string(),
        mac: mac.to_string(),
        mtu: 1500,
        addresses: None,
    }
}

#[test]
fn requests_cover_every_link() {
    let mut links = Links::new();
    links.insert(link("eth0", 2, "42:01:0a:80:00:02"));
    links.insert(link("eth1", 3, "42:01:0a:80:00:03"));
    let mut gcp = GCP::new(&GcpCloudConfig { recursive: true });
    gcp.metadata = Some(gcp_meta());
    let reqs = gcp.link_requests(&links);
    assert_eq!(reqs.len(), 2);
    assert_eq!(reqs[0].index, 0);
    assert_eq!(reqs[0].gateway, Some("10.128.0.1".to_string()));
    assert_eq!(reqs[0].mtu, Some(1460));
    assert_eq!(reqs[0].desired.len(), 2);
    assert!(reqs[1].desired.is_empty());
    assert_eq!(reqs[1].gateway, None);

    let mut ec2 = EC2::new(&AwsCloudConfig { imds_version: 1, token_ttl: None });
    ec2.macs.push(EC2MacData {
        mac: "42:01:0a:80:00:03".to_string(),
        local_ipv4s: vec!["172.31.0.7".to_string(), "172.31.0.8".to_string()],
        subnet_ipv4_cidr_block: "172.31.0.0/20".to_string(),
    });
    let reqs = ec2.link_requests(&links);
    assert!(reqs[0].desired.is_empty());
    assert_eq!(sorted(reqs[1].desired.clone()), vec!["172.31.0.7/20".to_string(), "172.31.0.8/20".to_string()]);

    let mut azure = Azure::new(&AzureCloudConfig { api_version: "x".to_string() });
    azure.metadata = Some(azure_meta());
    let reqs = azure.link_requests(&links);
    assert_eq!(reqs.len(), 2);
    assert!(reqs[0].desired.is_empty());
}
