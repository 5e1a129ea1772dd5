//! The local certificate authority: generating the CA, the brain's server
//! certificate and the client certificates handed out at pairing (the
//! cryptography is rcgen's), and deciding which certificate files the brain
//! still has to generate.
use vstd::prelude::*;
use rcgen::{BasicConstraints, Certificate, CertificateParams, DnType, IsCa, KeyPair};

verus! {

#[verifier::external_type_specification]
#[verifier::external_body]
pub struct ExCertificate(rcgen::Certificate);

#[verifier::external_type_specification]
#[verifier::external_body]
pub struct ExRcgenError(rcgen::Error);

/// A local certificate authority: its certificate and private key, as PEM.
pub struct Ca {
    pub cert_pem: String,
    pub key_pem: String,
}

/// A certificate issued by the local CA, with its private key, as PEM.
pub struct IssuedCert {
    pub cert_pem: String,
    pub key_pem: String,
}

/// The common name of the local CA.
pub const CA_COMMON_NAME: &'static str = "Aether Local CA";

/// The common name of the brain's server certificate.
pub const SERVER_COMMON_NAME: &'static str = "brain.aether.local";

/// Why a certificate could not be made: the underlying error's text.
#[derive(Debug)]
pub struct CertError {
    pub message: String,
}

// ── PEM ───────────────────────────────────────────────────────────────────────

/// The digit of value `v < 64` in the standard base64 alphabet.
pub open spec fn b64_digit(v: int) -> char {
    if v < 26 {
        ((65 + v) as u32) as char
    } else if v < 52 {
        ((71 + v) as u32) as char
    } else if v < 62 {
        ((v - 4) as u32) as char
    } else if v == 62 {
        '+'
    } else {
        '/'
    }
}

/// Standard base64 (RFC 4648) with `=` padding.
pub open spec fn base64(d: Seq<u8>) -> Seq<char>
    decreases d.len(),
{
    if d.len() == 0 {
        Seq::empty()
    } else if d.len() == 1 {
        seq![b64_digit((d[0] / 4) as int), b64_digit((d[0] % 4) * 16), '=', '=']
    } else if d.len() == 2 {
        seq![
            b64_digit((d[0] / 4) as int),
            b64_digit((d[0] % 4) * 16 + d[1] / 16),
            b64_digit((d[1] % 16) * 4),
            '=',
        ]
    } else {
        seq![
            b64_digit((d[0] / 4) as int),
            b64_digit((d[0] % 4) * 16 + d[1] / 16),
            b64_digit((d[1] % 16) * 4 + d[2] / 64),
            b64_digit((d[2] % 64) as int),
        ] + base64(d.skip(3))
    }
}

/// `s` cut into lines of 64 characters, each ended by `eol`.
pub open spec fn wrap_lines(s: Seq<char>, eol: Seq<char>) -> Seq<char>
    decreases s.len(),
{
    if s.len() == 0 {
        Seq::empty()
    } else if s.len() <= 64 {
        s + eol
    } else {
        s.take(64) + eol + wrap_lines(s.skip(64), eol)
    }
}

/// The PEM text of `der` under `label`, lines ended by `eol`: the BEGIN line,
/// the base64 of the bytes in lines of 64 characters, the END line.
pub open spec fn pem_text(label: Seq<char>, der: Seq<u8>, eol: Seq<char>) -> Seq<char> {
    "-----BEGIN "@ + label + "-----"@ + eol + wrap_lines(base64(der), eol) + "-----END "@ + label
        + "-----"@ + eol
}

/// Whether `text` is the PEM text of `der` under `label`, with the line
/// ending rcgen uses (LF, or CRLF on Windows).
pub open spec fn pem_of(text: Seq<char>, label: Seq<char>, der: Seq<u8>) -> bool {
    text == pem_text(label, der, "\n"@) || text == pem_text(label, der, "\r\n"@)
}

/// A PEM text opens with its `-----BEGIN <label>-----` line and closes with
/// its `-----END <label>-----` line.
pub proof fn lemma_pem_framing(label: Seq<char>, der: Seq<u8>, eol: Seq<char>)
    ensures
        ({
            let t = pem_text(label, der, eol);
            let head = "-----BEGIN "@ + label + "-----"@ + eol;
            let tail = "-----END "@ + label + "-----"@ + eol;
            &&& t.take(head.len() as int) == head
            &&& t.skip(t.len() - tail.len()) == tail
        }),
{
    let t = pem_text(label, der, eol);
    let head = "-----BEGIN "@ + label + "-----"@ + eol;
    let body = wrap_lines(base64(der), eol);
    let tail = "-----END "@ + label + "-----"@ + eol;
    assert(t =~= head + body + tail);
    assert((head + body + tail).take(head.len() as int) =~= head);
    assert((head + body + tail).skip(t.len() - tail.len()) =~= tail);
}

// ── What a certificate is made of ─────────────────────────────────────────────

/// Whether a certificate marks its subject as a certificate authority.
#[derive(Debug, Clone, Copy, PartialEq, Eq, Structural)]
pub enum CaConstraint {
    /// An end-entity certificate.
    NotCa,
    /// A CA with no limit on the length of the chains below it.
    Unconstrained,
}

/// The parameters of a certificate to be made: its subject's common name,
/// whether it is a CA, and its subject alternative names (IP addresses where
/// they parse as one, else DNS names).
pub struct CertSpec {
    pub common_name: String,
    pub ca: CaConstraint,
    pub subject_alt_names: Vec<String>,
}

/// The subject alternative name rcgen records for the name text `name`
/// (`CertificateParams::new`): an IP-address entry (`true`) holding the
/// address's 4 or 16 bytes when the text parses as an IP address, else a
/// DNS-name entry (`false`) holding the text's bytes.
pub uninterp spec fn san_of(name: Seq<char>) -> (bool, Seq<u8>);

/// The alternative-name texts of a certificate's parameters.
pub open spec fn names_of(c: &CertSpec) -> Seq<Seq<char>> {
    c.subject_alt_names@.map_values(|n: String| n@)
}

/// A certificate's subject as plain values: the common name, whether it is
/// an (unconstrained) CA, the alternative names as rcgen records them.
pub open spec fn spec_fields(c: &CertSpec) -> (Seq<char>, bool, Seq<(bool, Seq<u8>)>) {
    (
        c.common_name@,
        c.ca == CaConstraint::Unconstrained,
        names_of(c).map_values(|n: Seq<char>| san_of(n)),
    )
}

/// The local CA: common name "Aether Local CA", an unconstrained CA, no
/// alternative names.
pub open spec fn ca_fields() -> (Seq<char>, bool, Seq<(bool, Seq<u8>)>) {
    (CA_COMMON_NAME@, true, Seq::empty())
}

/// The brain's server certificate: common name "brain.aether.local", not a
/// CA, the brain's address as its one alternative name.
pub open spec fn server_fields(brain_ip: Seq<char>) -> (Seq<char>, bool, Seq<(bool, Seq<u8>)>) {
    (SERVER_COMMON_NAME@, false, seq![san_of(brain_ip)])
}

/// A paired node's client certificate: the node id as common name, not a
/// CA, no alternative names.
pub open spec fn client_fields(node_id: Seq<char>) -> (Seq<char>, bool, Seq<(bool, Seq<u8>)>) {
    (node_id, false, Seq::empty())
}

/// The parameters of the local CA's certificate.
pub fn ca_cert_spec() -> (c: CertSpec)
    ensures
        spec_fields(&c) == ca_fields(),
        names_of(&c).len() == 0,
{
    let c = CertSpec {
        common_name: String::from_str(CA_COMMON_NAME),
        ca: CaConstraint::Unconstrained,
        subject_alt_names: Vec::new(),
    };
    assert(spec_fields(&c).2 =~= Seq::<(bool, Seq<u8>)>::empty());
    c
}

/// The parameters of the brain's server certificate for address `brain_ip`.
pub fn server_cert_spec(brain_ip: &str) -> (c: CertSpec)
    ensures
        spec_fields(&c) == server_fields(brain_ip@),
        names_of(&c) == seq![brain_ip@],
{
    let mut ip = String::new();
    crate::text::push_str(&mut ip, brain_ip);
    let c = CertSpec {
        common_name: String::from_str(SERVER_COMMON_NAME),
        ca: CaConstraint::NotCa,
        subject_alt_names: vec![ip],
    };
    assert(names_of(&c) =~= seq![brain_ip@]);
    assert(spec_fields(&c).2 =~= seq![san_of(brain_ip@)]);
    c
}

/// The parameters of the client certificate of node `node_id`.
pub fn client_cert_spec(node_id: &str) -> (c: CertSpec)
    ensures
        spec_fields(&c) == client_fields(node_id@),
        names_of(&c).len() == 0,
{
    let mut name = String::new();
    crate::text::push_str(&mut name, node_id);
    let c = CertSpec { common_name: name, ca: CaConstraint::NotCa, subject_alt_names: Vec::new() };
    assert(spec_fields(&c).2 =~= Seq::<(bool, Seq<u8>)>::empty());
    c
}

/// What the certificate DER `der` that rcgen wrote carries: the subject's
/// common name, whether it is marked an (unconstrained) CA, its alternative
/// names as recorded, the issuer's common name, the subject public key
/// (SubjectPublicKeyInfo DER), and the public key of the key that signed it.
pub uninterp spec fn cert_content(der: Seq<u8>) -> (
    Seq<char>,
    bool,
    Seq<(bool, Seq<u8>)>,
    Seq<char>,
    Seq<u8>,
    Seq<u8>,
);

/// Whether rcgen loads a key pair from the PKCS#8 DER `der`
/// (`KeyPair::try_from` succeeds).
pub uninterp spec fn key_der_accepted(der: Seq<u8>) -> bool;

/// The public key (SubjectPublicKeyInfo DER, `KeyPair::public_key_der`) of
/// the key pair rcgen loads from the PKCS#8 DER `der`.
pub uninterp spec fn public_key_of(der: Seq<u8>) -> Seq<u8>;

/// A private key, held as its PKCS#8 DER.
pub struct SigningKey {
    pub der: Vec<u8>,
}

/// `cert_text` and `key_text` are the PEM texts of a certificate and of a
/// private key rcgen loads; the certificate carries `subject`, names
/// `issuer_cn` as its issuer, holds that key's public key and is signed by
/// the key whose public key is `signer` (none: by that same key).
pub open spec fn issued_pair(
    cert_text: Seq<char>,
    key_text: Seq<char>,
    subject: (Seq<char>, bool, Seq<(bool, Seq<u8>)>),
    issuer_cn: Seq<char>,
    signer: Option<Seq<u8>>,
) -> bool {
    exists|cert_der: Seq<u8>, key_der: Seq<u8>|
        #![trigger pem_of(cert_text, "CERTIFICATE"@, cert_der), pem_of(key_text, "PRIVATE KEY"@, key_der)]
        {
            &&& pem_of(cert_text, "CERTIFICATE"@, cert_der)
            &&& pem_of(key_text, "PRIVATE KEY"@, key_der)
            &&& key_der_accepted(key_der)
            &&& cert_content(cert_der) == (
                subject.0,
                subject.1,
                subject.2,
                issuer_cn,
                public_key_of(key_der),
                match signer {
                    Some(k) => k,
                    None => public_key_of(key_der),
                },
            )
        }
}

// ── rcgen ─────────────────────────────────────────────────────────────────────

/// `KeyPair::generate`: a fresh random ECDSA P-256 key pair, returned as its
/// PKCS#8 DER (`serialize_der`) and PEM (`serialize_pem`). The contract
/// states that the PEM is the DER's PEM text under `PRIVATE KEY`, and that
/// rcgen loads that DER back (generation parses it with the same P-256
/// loader `KeyPair::try_from` tries); which key comes out is chance.
#[verifier::external_body]
fn generate_key() -> (r: Result<(Vec<u8>, String), rcgen::Error>)
    ensures
        r matches Ok((der, pem)) ==> pem_of(pem@, "PRIVATE KEY"@, der@) && key_der_accepted(der@),
{
    let key = KeyPair::generate()?;
    Ok((key.serialize_der(), key.serialize_pem()))
}

/// `KeyPair::from_pem`, then `serialize_der`: the PKCS#8 DER of the key a
/// PEM text holds. It is one rcgen loads, and on the PEM text (either line
/// ending) of a DER rcgen loads it is that DER (`pem::parse` gives back the
/// bytes `pem::encode_config` wrote, and a loaded key keeps its input
/// bytes); on other texts the outcome is not stated.
#[verifier::external_body]
fn key_from_pem(pem: &str) -> (r: Result<Vec<u8>, rcgen::Error>)
    ensures
        r matches Ok(d) ==> key_der_accepted(d@),
        r matches Ok(x) ==> forall|d: Seq<u8>| #[trigger] pem_of(pem@, "PRIVATE KEY"@, d) ==> x@ == d,
        r is Err ==> forall|d: Seq<u8>|
            #[trigger] pem_of(pem@, "PRIVATE KEY"@, d) ==> !key_der_accepted(d),
{
    let key = KeyPair::from_pem(pem)?;
    Ok(key.serialize_der())
}

/// `CertificateParams::self_signed`: the certificate of `wanted`'s
/// parameters (`CertificateParams::new` with its alternative names, its
/// common name pushed in place of the default one, its CA mark) for the key
/// loaded from `key_der`, signed with that key; returned with its DER and
/// PEM. The contract states what the DER carries (its issuer is its own
/// subject) and that the PEM is the DER's PEM text; the signature is chance.
#[verifier::external_body]
fn self_signed(wanted: &CertSpec, key_der: &[u8]) -> (r: Result<
    (Certificate, Vec<u8>, String),
    rcgen::Error,
>)
    ensures
        r matches Ok((_, der, pem)) ==> pem_of(pem@, "CERTIFICATE"@, der@) && cert_content(der@) == (
            wanted.common_name@,
            wanted.ca == CaConstraint::Unconstrained,
            names_of(wanted).map_values(|n: Seq<char>| san_of(n)),
            wanted.common_name@,
            public_key_of(key_der@),
            public_key_of(key_der@),
        ),
{
    let key = KeyPair::try_from(key_der)?;
    let mut params = CertificateParams::new(wanted.subject_alt_names.clone())?;
    params.distinguished_name.push(DnType::CommonName, wanted.common_name.as_str());
    params.is_ca = match wanted.ca {
        CaConstraint::NotCa => IsCa::NoCa,
        CaConstraint::Unconstrained => IsCa::Ca(BasicConstraints::Unconstrained),
    };
    let cert = params.self_signed(&key)?;
    let der = cert.der().to_vec();
    let pem = cert.pem();
    Ok((cert, der, pem))
}

/// `CertificateParams::signed_by`: the certificate of `wanted`'s parameters
/// (built as for `self_signed`) for the key loaded from `key_der`, issued by
/// `issuer` and signed with the key loaded from `issuer_key_der`; returned
/// with its DER, its PEM and the issuer's DER (`issuer.der()`). The contract
/// states what the DER carries: its issuer is the issuer certificate's
/// subject, its signer the issuer key.
#[verifier::external_body]
fn signed_by(wanted: &CertSpec, key_der: &[u8], issuer: &Certificate, issuer_key_der: &[u8]) -> (r:
    Result<(Vec<u8>, String, Vec<u8>), rcgen::Error>)
    ensures
        r matches Ok((der, pem, issuer_der)) ==> pem_of(pem@, "CERTIFICATE"@, der@) && cert_content(
            der@,
        ) == (
            wanted.common_name@,
            wanted.ca == CaConstraint::Unconstrained,
            names_of(wanted).map_values(|n: Seq<char>| san_of(n)),
            cert_content(issuer_der@).0,
            public_key_of(key_der@),
            public_key_of(issuer_key_der@),
        ),
{
    let key = KeyPair::try_from(key_der)?;
    let issuer_key = KeyPair::try_from(issuer_key_der)?;
    let mut params = CertificateParams::new(wanted.subject_alt_names.clone())?;
    params.distinguished_name.push(DnType::CommonName, wanted.common_name.as_str());
    params.is_ca = match wanted.ca {
        CaConstraint::NotCa => IsCa::NoCa,
        CaConstraint::Unconstrained => IsCa::Ca(BasicConstraints::Unconstrained),
    };
    let cert = params.signed_by(&key, issuer, &issuer_key)?;
    Ok((cert.der().to_vec(), cert.pem(), issuer.der().to_vec()))
}

/// The text of an rcgen error (its `Display`).
#[verifier::external_body]
fn error_text(e: &rcgen::Error) -> String {
    e.to_string()
}

fn cert_error(e: rcgen::Error) -> CertError {
    CertError { message: error_text(&e) }
}

/// Whether two byte strings are equal.
fn same_bytes(a: &[u8], b: &[u8]) -> (r: bool)
    ensures
        r == (a@ == b@),
{
    if a.len() != b.len() {
        return false;
    }
    let mut i: usize = 0;
    while i < a.len()
        invariant
            a@.len() == b@.len(),
            i <= a@.len(),
            forall|k: int| 0 <= k < i ==> a@[k] == b@[k],
        decreases a.len() - i,
    {
        if a[i] != b[i] {
            return false;
        }
        i = i + 1;
    }
    assert(a@ =~= b@);
    true
}

// ── The local CA ──────────────────────────────────────────────────────────────

/// Generate a new local CA.  Called on first brain boot: a fresh key and the
/// certificate "Aether Local CA" for it, signed with it.
pub fn generate_ca() -> (r: Result<Ca, CertError>)
    ensures
        r matches Ok(ca) ==> issued_pair(ca.cert_pem@, ca.key_pem@, ca_fields(), CA_COMMON_NAME@, None),
{
    let (key_der, key_pem) = match generate_key() {
        Ok(k) => k,
        Err(e) => {
            return Err(cert_error(e));
        },
    };
    match self_signed(&ca_cert_spec(), key_der.as_slice()) {
        Ok((_, der, pem)) => {
            assert(pem_of(pem@, "CERTIFICATE"@, der@) && pem_of(key_pem@, "PRIVATE KEY"@, key_der@));
            Ok(Ca { cert_pem: pem, key_pem })
        },
        Err(e) => Err(cert_error(e)),
    }
}

/// Load the CA's key from its PEM text: the key text `generate_ca` returns
/// always loads, as the very key it holds.
pub fn parse_key(pem: &str) -> (r: Result<SigningKey, CertError>)
    ensures
        r matches Ok(k) ==> key_der_accepted(k.der@),
        forall|d: Seq<u8>|
            #[trigger] pem_of(pem@, "PRIVATE KEY"@, d) && key_der_accepted(d) ==> (r matches Ok(k)
                && k.der@ == d),
{
    match key_from_pem(pem) {
        Ok(der) => Ok(SigningKey { der }),
        Err(e) => Err(cert_error(e)),
    }
}

/// Hand out a certificate (PEM `cert_pem`) and its key (`key_pem`) once
/// signed, provided the issuer certificate rcgen signed with (DER
/// `issuer_der`) is the CA certificate rebuilt for it (`ca_der`); else the
/// error "the CA certificate changed".
pub fn finish_issue(cert_pem: String, issuer_der: &[u8], ca_der: &[u8], key_pem: String) -> (r: Result<
    IssuedCert,
    CertError,
>)
    ensures
        r is Ok <==> issuer_der@ == ca_der@,
        r matches Ok(c) ==> c.cert_pem@ == cert_pem@ && c.key_pem@ == key_pem@,
        r matches Err(e) ==> e.message@ == "the CA certificate changed"@,
{
    if same_bytes(issuer_der, ca_der) {
        Ok(IssuedCert { cert_pem, key_pem })
    } else {
        Err(CertError { message: String::from_str("the CA certificate changed") })
    }
}

/// A fresh key and a certificate of `wanted` for it, issued by the local CA
/// whose key is `ca_key`: the CA certificate is rebuilt from the same
/// parameters and key, so what it issues chains to the stored one.
fn issue(wanted: &CertSpec, ca_key: &SigningKey) -> (r: Result<IssuedCert, CertError>)
    ensures
        r matches Ok(c) ==> issued_pair(
            c.cert_pem@,
            c.key_pem@,
            spec_fields(wanted),
            CA_COMMON_NAME@,
            Some(public_key_of(ca_key.der@)),
        ),
{
    let (ca_cert, ca_der) = match self_signed(&ca_cert_spec(), ca_key.der.as_slice()) {
        Ok((c, d, _)) => (c, d),
        Err(e) => {
            return Err(cert_error(e));
        },
    };
    let (key_der, key_pem) = match generate_key() {
        Ok(k) => k,
        Err(e) => {
            return Err(cert_error(e));
        },
    };
    match signed_by(wanted, key_der.as_slice(), &ca_cert, ca_key.der.as_slice()) {
        Ok((der, pem, issuer_der)) => {
            proof {
                assert(pem_of(pem@, "CERTIFICATE"@, der@));
                assert(pem_of(key_pem@, "PRIVATE KEY"@, key_der@));
            }
            finish_issue(pem, issuer_der.as_slice(), ca_der.as_slice(), key_pem)
        },
        Err(e) => Err(cert_error(e)),
    }
}

/// Generate the brain's server certificate signed by the local CA.
/// Includes an IP SAN so the Pi can verify the cert when connecting by IP;
/// `brain_ip` is the address as text (e.g. "192.168.1.10").
pub fn generate_server_cert(ca_key: &SigningKey, brain_ip: &str) -> (r: Result<IssuedCert, CertError>)
    ensures
        r matches Ok(c) ==> issued_pair(
            c.cert_pem@,
            c.key_pem@,
            server_fields(brain_ip@),
            CA_COMMON_NAME@,
            Some(public_key_of(ca_key.der@)),
        ),
{
    issue(&server_cert_spec(brain_ip), ca_key)
}

/// Issue a unique client certificate for a paired edge node, signed by the
/// local CA: its common name is the node id.
pub fn issue_client_cert(node_id: &str, ca_key: &SigningKey) -> (r: Result<IssuedCert, CertError>)
    ensures
        r matches Ok(c) ==> issued_pair(
            c.cert_pem@,
            c.key_pem@,
            client_fields(node_id@),
            CA_COMMON_NAME@,
            Some(public_key_of(ca_key.der@)),
        ),
{
    issue(&client_cert_spec(node_id), ca_key)
}

/// The file holding the CA's private key.
pub const CA_KEY_FILE: &'static str = "ca-key.pem";

/// The file holding the CA's certificate.
pub const CA_CERT_FILE: &'static str = "ca.pem";

/// The file holding the brain's server certificate.
pub const SERVER_CERT_FILE: &'static str = "brain.pem";

/// The file holding the brain's server key.
pub const SERVER_KEY_FILE: &'static str = "brain-key.pem";

/// Which certificates the brain must generate before it can serve.
#[derive(Debug, Clone, Copy, PartialEq, Eq, Structural)]
pub struct CertPlan {
    /// Generate a new CA (its key or certificate file is missing).
    pub generate_ca: bool,
    /// Generate the server certificate (its certificate or key file is missing).
    pub generate_server: bool,
}

/// What must be generated, given which of the four files exist: a CA unless
/// both of its files exist, a server certificate unless both of its files
/// exist.
pub open spec fn plan_of(
    ca_key_exists: bool,
    ca_cert_exists: bool,
    server_cert_exists: bool,
    server_key_exists: bool,
) -> CertPlan {
    CertPlan {
        generate_ca: !(ca_key_exists && ca_cert_exists),
        generate_server: !(server_cert_exists && server_key_exists),
    }
}

/// Decide what must be generated before the brain can serve.
pub fn cert_plan(
    ca_key_exists: bool,
    ca_cert_exists: bool,
    server_cert_exists: bool,
    server_key_exists: bool,
) -> (p: CertPlan)
    ensures
        p == plan_of(ca_key_exists, ca_cert_exists, server_cert_exists, server_key_exists),
{
    CertPlan {
        generate_ca: !ca_key_exists || !ca_cert_exists,
        generate_server: !server_cert_exists || !server_key_exists,
    }
}

/// Setting up certificates is idempotent: once a plan has been carried out
/// (every file it generates then exists), planning again generates nothing.
pub proof fn lemma_cert_plan_idempotent(
    ca_key_exists: bool,
    ca_cert_exists: bool,
    server_cert_exists: bool,
    server_key_exists: bool,
)
    ensures
        ({
            let p = plan_of(ca_key_exists, ca_cert_exists, server_cert_exists, server_key_exists);
            plan_of(
                ca_key_exists || p.generate_ca,
                ca_cert_exists || p.generate_ca,
                server_cert_exists || p.generate_server,
                server_key_exists || p.generate_server,
            ) == CertPlan { generate_ca: false, generate_server: false }
        }),
{
}

} // verus!
