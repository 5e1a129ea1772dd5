//! Edge-node connection logic: the configuration stored by pairing, the
//! addresses derived from it, and the audio chunk sequence numbers.
use vstd::prelude::*;
use crate::skills::{first_index, find_char};
use crate::text::{chars_of, string_from_chars, push_str};

verus! {

/// Stored configuration written to disk during pairing.
pub struct PairedConfig {
    pub node_id: String,
    pub brain_addr: String,
}

/// The host part of an address: what precedes its first ':', or all of it.
pub open spec fn host_of(addr: Seq<char>) -> Seq<char> {
    match first_index(addr, ':') {
        Some(i) => addr.take(i),
        None => addr,
    }
}

/// The mTLS service address on the same host as `addr`: port 50051.
pub open spec fn service_addr_of(addr: Seq<char>) -> Seq<char> {
    host_of(addr) + ":50051"@
}

/// Derive the mTLS service address (same IP, port 50051).
pub fn service_addr(brain_addr: &str) -> (r: String)
    ensures
        r@ == service_addr_of(brain_addr@),
{
    let cs = chars_of(brain_addr);
    let end = match find_char(cs.as_slice(), 0, ':') {
        Some(i) => i,
        None => cs.len(),
    };
    proof {
        assert(cs@.skip(0) =~= cs@);
    }
    let mut r = string_from_chars(cs.as_slice(), 0, end);
    push_str(&mut r, ":50051");
    proof {
        assert(cs@.subrange(0, end as int) =~= host_of(brain_addr@));
    }
    r
}

/// The configuration saved once pairing with the brain at `brain_addr`
/// succeeded: the node's id and the brain's service address.
pub fn paired_config(node_id: &str, brain_addr: &str) -> (c: PairedConfig)
    ensures
        c.node_id@ == node_id@,
        c.brain_addr@ == service_addr_of(brain_addr@),
{
    let mut id = String::new();
    push_str(&mut id, node_id);
    PairedConfig { node_id: id, brain_addr: service_addr(brain_addr) }
}

/// The plain-text endpoint of the brain's pairing port.
pub fn pairing_endpoint(brain_addr: &str) -> (r: String)
    ensures
        r@ == "http://"@ + brain_addr@,
{
    let mut r = String::new();
    push_str(&mut r, "http://");
    push_str(&mut r, brain_addr);
    r
}

/// The TLS endpoint of the brain's service port.
pub fn mtls_endpoint(brain_addr: &str) -> (r: String)
    ensures
        r@ == "https://"@ + brain_addr@,
{
    let mut r = String::new();
    push_str(&mut r, "https://");
    push_str(&mut r, brain_addr);
    r
}

/// The sequence number of the audio chunk after `seq`, wrapping to 0 after
/// `u64::MAX`.
pub fn next_seq(seq: u64) -> (r: u64)
    ensures
        r == if seq == u64::MAX {
            0
        } else {
            seq + 1
        },
{
    seq.wrapping_add(1)
}

/// The address to connect to: the stored one when a configuration could be
/// loaded, else none (the caller then discovers the brain on the network).
pub fn stored_brain_addr(config: Option<PairedConfig>) -> (r: Option<String>)
    ensures
        match config {
            Some(c) => r == Some(c.brain_addr),
            None => r is None,
        },
{
    match config {
        Some(c) => Some(c.brain_addr),
        None => None,
    }
}

} // verus!
