//! Which cloud the machine runs in, told from the firmware's identification strings.

use vstd::prelude::*;
use crate::text::{contains, starts_with, str_contains, str_starts_with};

verus! {

#[derive(Debug, Clone, Copy, PartialEq, Eq, Structural)]
pub enum CloudProvider {
    Undetected,
    Azure,
    AWS,
    GCP,
    Alibaba,
    Oracle,
    DigitalOcean,
}

pub open spec fn provider_name(p: CloudProvider) -> Seq<char> {
    match p {
        CloudProvider::Undetected => "none"@,
        CloudProvider::Azure => "azure"@,
        CloudProvider::AWS => "aws"@,
        CloudProvider::GCP => "gcp"@,
        CloudProvider::Alibaba => "alibaba"@,
        CloudProvider::Oracle => "oracle"@,
        CloudProvider::DigitalOcean => "digital ocean"@,
    }
}

impl CloudProvider {
    /// The provider's name as shown to operators.
    pub fn as_str(&self) -> (r: &'static str)
        ensures
            r@ == provider_name(*self),
    {
        match self {
            CloudProvider::Undetected => "none",
            CloudProvider::Azure => "azure",
            CloudProvider::AWS => "aws",
            CloudProvider::GCP => "gcp",
            CloudProvider::Alibaba => "alibaba",
            CloudProvider::Oracle => "oracle",
            CloudProvider::DigitalOcean => "digital ocean",
        }
    }
}

/// The firmware identification strings that tell clouds apart (empty where
/// the file could not be read).
#[derive(Debug, Clone)]
pub struct DmiInfo {
    pub sys_vendor: String,
    pub chassis_asset_tag: String,
    pub hypervisor_uuid: String,
    pub product_uuid: String,
    pub product_version: String,
    pub product_name: String,
}

pub open spec fn is_azure(d: DmiInfo) -> bool {
    contains(d.sys_vendor@, "Microsoft Corporation"@) || contains(
        d.chassis_asset_tag@,
        "7783-7084-3265-9085-8269-3286-77"@,
    )
}

pub open spec fn is_ec2(d: DmiInfo) -> bool {
    starts_with(d.hypervisor_uuid@, "ec2"@) || starts_with(d.product_uuid@, "ec2"@) || contains(
        d.product_version@,
        "amazon"@,
    )
}

pub open spec fn is_gcp(d: DmiInfo) -> bool {
    contains(d.product_name@, "Google Compute Engine"@)
}

pub open spec fn is_alibaba(d: DmiInfo) -> bool {
    contains(d.product_name@, "Alibaba Cloud"@)
}

pub open spec fn is_digital_ocean(d: DmiInfo) -> bool {
    contains(d.sys_vendor@, "DigitalOcean"@)
}

pub open spec fn is_oracle(d: DmiInfo) -> bool {
    contains(d.chassis_asset_tag@, "OracleCloud"@)
}

/// The first cloud whose test passes, in a fixed order.
pub open spec fn cloud_of(d: DmiInfo) -> CloudProvider {
    if is_azure(d) {
        CloudProvider::Azure
    } else if is_ec2(d) {
        CloudProvider::AWS
    } else if is_gcp(d) {
        CloudProvider::GCP
    } else if is_alibaba(d) {
        CloudProvider::Alibaba
    } else if is_oracle(d) {
        CloudProvider::Oracle
    } else if is_digital_ocean(d) {
        CloudProvider::DigitalOcean
    } else {
        CloudProvider::Undetected
    }
}

pub fn detect_azure(d: &DmiInfo) -> (r: bool)
    ensures
        r == is_azure(*d),
{
    str_contains(d.sys_vendor.as_str(), "Microsoft Corporation") || str_contains(
        d.chassis_asset_tag.as_str(),
        "7783-7084-3265-9085-8269-3286-77",
    )
}

pub fn detect_ec2(d: &DmiInfo) -> (r: bool)
    ensures
        r == is_ec2(*d),
{
    str_starts_with(d.hypervisor_uuid.as_str(), "ec2") || str_starts_with(
        d.product_uuid.as_str(),
        "ec2",
    ) || str_contains(d.product_version.as_str(), "amazon")
}

pub fn detect_gcp(d: &DmiInfo) -> (r: bool)
    ensures
        r == is_gcp(*d),
{
    str_contains(d.product_name.as_str(), "Google Compute Engine")
}

pub fn detect_alibaba(d: &DmiInfo) -> (r: bool)
    ensures
        r == is_alibaba(*d),
{
    str_contains(d.product_name.as_str(), "Alibaba Cloud")
}

pub fn detect_digital_ocean(d: &DmiInfo) -> (r: bool)
    ensures
        r == is_digital_ocean(*d),
{
    str_contains(d.sys_vendor.as_str(), "DigitalOcean")
}

pub fn detect_oracle(d: &DmiInfo) -> (r: bool)
    ensures
        r == is_oracle(*d),
{
    str_contains(d.chassis_asset_tag.as_str(), "OracleCloud")
}

/// Tells the cloud from the firmware strings, trying each cloud in turn.
pub fn detect_cloud(d: &DmiInfo) -> (r: CloudProvider)
    ensures
        r == cloud_of(*d),
{
    if detect_azure(d) {
        CloudProvider::Azure
    } else if detect_ec2(d) {
        CloudProvider::AWS
    } else if detect_gcp(d) {
        CloudProvider::GCP
    } else if detect_alibaba(d) {
        CloudProvider::Alibaba
    } else if detect_oracle(d) {
        CloudProvider::Oracle
    } else if detect_digital_ocean(d) {
        CloudProvider::DigitalOcean
    } else {
        CloudProvider::Undetected
    }
}

} // verus!
