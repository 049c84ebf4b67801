//! A diagnostic engine for the health of a domain: it gathers a fixed set
//! of DNS records, reads the CAA policy, probes the nameservers of the
//! domain and judges how ready its mail exchangers are.
//!
//! The engine decides and computes; it never touches the network. Each
//! check hands out the queries it needs and is handed the replies.

pub mod dns;
pub mod email;
pub mod email_report;
pub mod ns;
pub mod ns_report;
pub mod query;
pub mod records;
pub mod reverse;
pub mod text;
pub mod types;
