//! The record that the reconnaissance service returns for one domain.

use vstd::prelude::*;

verus! {

/// One record of a domain's DNS data.
#[derive(Debug)]
pub struct Data {
    pub tags: Option<Vec<String>>,
    pub subdomain: String,
    pub record_type: String,
    pub ports: Option<Vec<i32>>,
    pub value: String,
    pub last_seen: String,
}

/// A domain with the subdomain names currently reported for it; only
/// `subdomains` takes part in reconciliation.
#[derive(Debug)]
pub struct Subdomains {
    pub domain: String,
    pub subdomains: Vec<String>,
    pub data: Vec<Data>,
}

} // verus!
