//! Port-knock access-control core.
//!
//! Rejected-connection attempts, harvested from network flow logs, are
//! aggregated per (source, destination) address pair into the set of
//! distinct (protocol, port) knocks observed so far.  Each observed set is
//! classified against a secret target set (`knock`), and the classification
//! drives exactly one of three outcomes (`controller`): authorize the
//! source into the security groups of the instance it probed, record it in
//! the deny store for good (`deny`), or keep waiting.
//!
//! `flowlog` reads attempt records out of columnar flow-log files,
//! `conns_text` parses the textual encoding of observed sets, `directory`
//! holds the address-to-instance lookup table, and `secrets` carries the
//! startup configuration.  The stores, the inventory and the rule mutation
//! are outside collaborators; what the library asks of them is stated on
//! its trusted items, and everything decided on their answers is verified.

pub mod conns_text;
pub mod controller;
pub mod deny;
pub mod directory;
pub mod flowlog;
pub mod knock;
pub mod net;
pub mod secrets;
