use aether::pair::{
    cert_plan, CertPlan, Ca, IssuedCert, CA_CERT_FILE, CA_KEY_FILE, SERVER_CERT_FILE,
    SERVER_KEY_FILE,
};

#[test]
fn nothing_to_generate_when_all_files_exist() {
    assert_eq!(
        cert_plan(true, true, true, true),
        CertPlan { generate_ca: false, generate_server: false }
    );
}

#[test]
fn missing_files_are_generated() {
    assert_eq!(cert_plan(false, false, false, false), CertPlan { generate_ca: true, generate_server: true });
    assert_eq!(cert_plan(true, false, true, true), CertPlan { generate_ca: true, generate_server: false });
    assert_eq!(cert_plan(true, true, true, false), CertPlan { generate_ca: false, generate_server: true });
}

#[test]
fn second_plan_after_generation_is_empty() {
    let p = cert_plan(false, true, true, false);
    let again = cert_plan(true || p.generate_ca, true || p.generate_ca, true || p.generate_server, false || p.generate_server);
    assert_eq!(again, CertPlan { generate_ca: false, generate_server: false });
}

#[test]
fn file_names() {
    assert_eq!(CA_KEY_FILE, "ca-key.pem");
    assert_eq!(CA_CERT_FILE, "ca.pem");
    assert_eq!(SERVER_CERT_FILE, "brain.pem");
    assert_eq!(SERVER_KEY_FILE, "brain-key.pem");
    let ca = Ca { cert_pem: "c".into(), key_pem: "k".into() };
    let issued = IssuedCert { cert_pem: ca.cert_pem.clone(), key_pem: ca.key_pem.clone() };
    assert_eq!(issued.cert_pem, "c");
}

use aether::pair::{generate_ca, generate_server_cert, issue_client_cert, parse_key};
use rcgen::KeyPair;

#[test]
fn ca_generates_valid_pem() {
    let ca = generate_ca().unwrap();
    assert!(ca.cert_pem.starts_with("-----BEGIN CERTIFICATE-----"));
    assert!(ca.key_pem.starts_with("-----BEGIN"));
    KeyPair::from_pem(&ca.key_pem).unwrap();
}

#[test]
fn issue_client_cert_succeeds() {
    let ca = generate_ca().unwrap();
    let ca_key = parse_key(&ca.key_pem).unwrap();
    let issued = issue_client_cert("office-pi", &ca_key).unwrap();
    assert!(issued.cert_pem.starts_with("-----BEGIN CERTIFICATE-----"));
    assert!(issued.key_pem.starts_with("-----BEGIN"));
}

#[test]
fn generate_server_cert_succeeds() {
    let ca = generate_ca().unwrap();
    let ca_key = parse_key(&ca.key_pem).unwrap();
    let issued = generate_server_cert(&ca_key, "127.0.0.1").unwrap();
    assert!(issued.cert_pem.starts_with("-----BEGIN CERTIFICATE-----"));
    assert!(issued.key_pem.starts_with("-----BEGIN"));
}

#[test]
fn reconstruct_ca_issues_cert_with_original_key() {
    let ca = generate_ca().unwrap();
    let key = parse_key(&ca.key_pem).unwrap();
    issue_client_cert("node-a", &key).unwrap();
    issue_client_cert("node-b", &key).unwrap();
}

#[test]
fn bad_key_pem_is_refused() {
    assert!(parse_key("not a key").is_err());
    let ca = generate_ca().unwrap();
    assert!(parse_key(&ca.key_pem).is_ok());
}

use aether::pair::{ca_cert_spec, client_cert_spec, server_cert_spec, CaConstraint};

#[test]
fn certificate_parameters_follow_their_role() {
    let ca = ca_cert_spec();
    assert_eq!(ca.common_name, "Aether Local CA");
    assert_eq!(ca.ca, CaConstraint::Unconstrained);
    assert!(ca.subject_alt_names.is_empty());

    let server = server_cert_spec("192.168.1.10");
    assert_eq!(server.common_name, "brain.aether.local");
    assert_eq!(server.ca, CaConstraint::NotCa);
    assert_eq!(server.subject_alt_names, vec!["192.168.1.10".to_string()]);

    let client = client_cert_spec("office-pi");
    assert_eq!(client.common_name, "office-pi");
    assert_eq!(client.ca, CaConstraint::NotCa);
    assert!(client.subject_alt_names.is_empty());
}

#[test]
fn pem_texts_are_wrapped_base64_between_markers() {
    let ca = generate_ca().unwrap();
    for (text, label) in [(&ca.cert_pem, "CERTIFICATE"), (&ca.key_pem, "PRIVATE KEY")] {
        let lines: Vec<&str> = text.lines().collect();
        assert_eq!(lines[0], format!("-----BEGIN {label}-----"));
        assert_eq!(*lines.last().unwrap(), format!("-----END {label}-----"));
        assert!(text.ends_with('\n'));
        let body = &lines[1..lines.len() - 1];
        assert!(!body.is_empty());
        for (i, line) in body.iter().enumerate() {
            assert!(line.len() <= 64);
            if i + 1 < body.len() {
                assert_eq!(line.len(), 64);
            }
            assert!(line.chars().all(|c| c.is_ascii_alphanumeric() || c == '+' || c == '/' || c == '='));
        }
    }
}

#[test]
fn issued_key_text_loads_back() {
    let ca = generate_ca().unwrap();
    let ca_key = parse_key(&ca.key_pem).unwrap();
    let issued = issue_client_cert("kitchen-pi", &ca_key).unwrap();
    assert!(parse_key(&issued.key_pem).is_ok());
    assert_ne!(issued.cert_pem, ca.cert_pem);
}

fn pem_der(text: &str) -> Vec<u8> {
    let body: String = text.lines().filter(|l| !l.starts_with("-----")).collect();
    let value = |c: u8| -> u32 {
        match c {
            b'A'..=b'Z' => (c - b'A') as u32,
            b'a'..=b'z' => (c - b'a') as u32 + 26,
            b'0'..=b'9' => (c - b'0') as u32 + 52,
            b'+' => 62,
            _ => 63,
        }
    };
    let mut out = Vec::new();
    for chunk in body.as_bytes().chunks(4) {
        let pad = chunk.iter().filter(|&&c| c == b'=').count();
        let mut n: u32 = 0;
        for &c in chunk {
            n = n * 64 + if c == b'=' { 0 } else { value(c) };
        }
        let bytes = [(n >> 16) as u8, (n >> 8) as u8, n as u8];
        out.extend_from_slice(&bytes[..3 - pad]);
    }
    out
}

fn contains(hay: &[u8], needle: &[u8]) -> bool {
    hay.windows(needle.len()).any(|w| w == needle)
}

#[test]
fn client_certificate_is_issued_by_the_local_ca_for_its_own_key() {
    let ca = generate_ca().unwrap();
    let ca_key = parse_key(&ca.key_pem).unwrap();
    let ca_der = pem_der(&ca.cert_pem);
    let ca_public = KeyPair::from_pem(&ca.key_pem).unwrap().public_key_der();
    assert!(contains(&ca_der, &ca_public));
    assert!(contains(&ca_der, b"Aether Local CA"));

    let issued = issue_client_cert("office-pi", &ca_key).unwrap();
    let der = pem_der(&issued.cert_pem);
    assert!(contains(&der, b"office-pi"));
    assert!(contains(&der, b"Aether Local CA"));
    let public = KeyPair::from_pem(&issued.key_pem).unwrap().public_key_der();
    assert!(contains(&der, &public));
    assert!(!contains(&der, &ca_public));
}

#[test]
fn loaded_key_keeps_the_generated_bytes() {
    let ca = generate_ca().unwrap();
    let key = parse_key(&ca.key_pem).unwrap();
    assert_eq!(key.der, KeyPair::from_pem(&ca.key_pem).unwrap().serialize_der());
}

use aether::pair::finish_issue;

#[test]
fn signed_certificate_is_handed_out_only_for_the_rebuilt_ca() {
    let ok = finish_issue("cert".to_string(), &[1, 2, 3], &[1, 2, 3], "key".to_string()).unwrap();
    assert_eq!(ok.cert_pem, "cert");
    assert_eq!(ok.key_pem, "key");
    let err = finish_issue("cert".to_string(), &[1, 2, 3], &[1, 2, 4], "key".to_string()).err().unwrap();
    assert_eq!(err.message, "the CA certificate changed");
    assert!(finish_issue("c".to_string(), &[1, 2], &[1, 2, 3], "k".to_string()).is_err());
}
