//! Subdomain monitoring: the reconciliation of freshly fetched subdomain
//! names against everything ever recorded for a domain, the record of
//! domains and subdomains with their active flag, and the decisions that
//! drive a notification.

pub mod diff;
pub mod domains;
pub mod store;
pub mod reconcile;
pub mod notify;
