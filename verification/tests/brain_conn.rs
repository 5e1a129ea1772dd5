use aether::brain_conn::{
    mtls_endpoint, next_seq, paired_config, pairing_endpoint, service_addr, stored_brain_addr,
    PairedConfig,
};

#[test]
fn seq_wraps_at_u64_max() {
    assert_eq!(next_seq(u64::MAX), 0);
}

#[test]
fn seq_counts_up() {
    assert_eq!(next_seq(0), 1);
    assert_eq!(next_seq(41), 42);
}

#[test]
fn service_address_keeps_host_and_uses_port_50051() {
    assert_eq!(service_addr("192.168.1.100:50052"), "192.168.1.100:50051");
    assert_eq!(service_addr("brain.local"), "brain.local:50051");
    assert_eq!(service_addr("a:b:c"), "a:50051");
}

#[test]
fn paired_config_records_service_address() {
    let cfg = paired_config("office-pi", "192.168.1.100:50052");
    assert_eq!(cfg.node_id, "office-pi");
    assert_eq!(cfg.brain_addr, "192.168.1.100:50051");
}

#[test]
fn endpoints_carry_their_scheme() {
    assert_eq!(pairing_endpoint("10.0.0.2:50052"), "http://10.0.0.2:50052");
    assert_eq!(mtls_endpoint("10.0.0.2:50051"), "https://10.0.0.2:50051");
}

#[test]
fn stored_address_is_used_first() {
    let cfg = PairedConfig { node_id: "n".into(), brain_addr: "1.2.3.4:50051".into() };
    assert_eq!(stored_brain_addr(Some(cfg)), Some("1.2.3.4:50051".to_string()));
    assert_eq!(stored_brain_addr(None), None);
}
