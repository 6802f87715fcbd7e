use base64::Engine;
use openssl::asn1::Asn1Time;
use openssl::hash::MessageDigest;
use openssl::pkcs12::Pkcs12;
use openssl::pkey::PKey;
use openssl::rsa::Rsa;
use openssl::sign::Verifier;
use openssl::x509::{X509, X509NameBuilder};

use plexo_relay::canon::canonical_string;
use plexo_relay::crypto::{CryptoError, CryptoService};
use plexo_relay::json::JsonValue;

struct TestBundle {
    pfx_base64: String,
    password: String,
    cert: X509,
}

fn make_bundle() -> TestBundle {
    let rsa = Rsa::generate(2048).unwrap();
    let pkey = PKey::from_rsa(rsa).unwrap();
    let mut name = X509NameBuilder::new().unwrap();
    name.append_entry_by_text("CN", "relay-test").unwrap();
    let name = name.build();
    let mut builder = X509::builder().unwrap();
    builder.set_version(2).unwrap();
    builder.set_subject_name(&name).unwrap();
    builder.set_issuer_name(&name).unwrap();
    builder.set_pubkey(&pkey).unwrap();
    builder
        .set_not_before(&Asn1Time::days_from_now(0).unwrap())
        .unwrap();
    builder
        .set_not_after(&Asn1Time::days_from_now(30).unwrap())
        .unwrap();
    builder.sign(&pkey, MessageDigest::sha256()).unwrap();
    let cert = builder.build();
    let p12 = Pkcs12::builder()
        .name("relay-test")
        .pkey(&pkey)
        .cert(&cert)
        .build2("secret-pw")
        .unwrap();
    let der = p12.to_der().unwrap();
    TestBundle {
        pfx_base64: base64::engine::general_purpose::STANDARD.encode(&der),
        password: "secret-pw".to_string(),
        cert,
    }
}

fn payload() -> JsonValue {
    JsonValue::Obj(vec![
        ("Client".to_string(), JsonValue::Text("shop".to_string())),
        ("Total".to_string(), JsonValue::Num("12.30".to_string())),
    ])
}

#[test]
fn loads_bundle_and_derives_fingerprint() {
    let b = make_bundle();
    let svc = CryptoService::new(&b.pfx_base64, &b.password).unwrap();
    let fp = svc.fingerprint();
    assert_eq!(fp.len(), 40);
    assert!(fp
        .chars()
        .all(|c| c.is_ascii_digit() || ('A'..='F').contains(&c)));
    let expected: String = b
        .cert
        .digest(MessageDigest::sha1())
        .unwrap()
        .iter()
        .map(|byte| format!("{:02X}", byte))
        .collect();
    assert_eq!(fp, expected);
}

#[test]
fn bad_base64_is_initialization_error() {
    match CryptoService::new("!!!not-base64!!!", "pw") {
        Err(CryptoError::InitializationError(_)) => {}
        other => panic!("expected InitializationError, got {:?}", other.map(|_| ())),
    }
}

#[test]
fn nul_password_is_initialization_error_not_a_panic() {
    let b = make_bundle();
    match CryptoService::new(&b.pfx_base64, "pw\0tail") {
        Err(CryptoError::InitializationError(_)) => {}
        other => panic!("expected InitializationError, got {:?}", other.map(|_| ())),
    }
}

#[test]
fn non_pkcs12_bytes_are_initialization_error() {
    let garbage = base64::engine::general_purpose::STANDARD.encode(b"not a pkcs12 container");
    match CryptoService::new(&garbage, "pw") {
        Err(CryptoError::InitializationError(_)) => {}
        other => panic!("expected InitializationError, got {:?}", other.map(|_| ())),
    }
}

#[test]
fn wrong_password_is_initialization_error() {
    let b = make_bundle();
    match CryptoService::new(&b.pfx_base64, "wrong-pw") {
        Err(CryptoError::InitializationError(_)) => {}
        other => panic!("expected InitializationError, got {:?}", other.map(|_| ())),
    }
}

#[test]
fn signed_envelope_carries_payload_and_expiration() {
    let b = make_bundle();
    let svc = CryptoService::new(&b.pfx_base64, &b.password).unwrap();
    let p = payload();
    let sr = svc.create_signed_payload_at(&p, 1_000_000).unwrap();
    assert_eq!(sr.object.expiration, 1_000_300);
    assert_eq!(sr.object.fingerprint, svc.fingerprint());
    assert_eq!(canonical_string(&sr.object.object), canonical_string(&p));
    assert!(!sr.signature.is_empty());
}

#[test]
fn signature_is_base64_of_rsa_sha512_over_canonical_envelope() {
    let b = make_bundle();
    let svc = CryptoService::new(&b.pfx_base64, &b.password).unwrap();
    let p = payload();
    let now = 1_700_000_000;
    let sr = svc.create_signed_payload_at(&p, now).unwrap();

    let raw = base64::engine::general_purpose::STANDARD
        .decode(sr.signature.as_bytes())
        .unwrap();
    assert_eq!(raw.len(), 256);

    let envelope = svc.build_envelope(&p, now + 300);
    let canonical = canonical_string(&envelope);
    assert!(canonical.starts_with("{\"Fingerprint\":\""));
    assert!(canonical.ends_with(&format!("\"UTCUnixTimeExpiration\":{}}}", now + 300)));

    let public_key = b.cert.public_key().unwrap();
    let mut verifier = Verifier::new(MessageDigest::sha512(), &public_key).unwrap();
    assert!(verifier
        .verify_oneshot(&raw, canonical.as_bytes())
        .unwrap());
}

#[test]
fn different_expirations_give_different_signatures() {
    let b = make_bundle();
    let svc = CryptoService::new(&b.pfx_base64, &b.password).unwrap();
    let p = payload();
    let sr1 = svc.create_signed_payload_at(&p, 5_000).unwrap();
    let sr2 = svc.create_signed_payload_at(&p, 5_001).unwrap();
    assert_ne!(sr1.object.expiration, sr2.object.expiration);
    assert_ne!(sr1.signature, sr2.signature);
    assert_eq!(sr1.object.fingerprint, sr2.object.fingerprint);
}

#[test]
fn same_second_signing_is_reproducible() {
    let b = make_bundle();
    let svc = CryptoService::new(&b.pfx_base64, &b.password).unwrap();
    let p = payload();
    let sr1 = svc.create_signed_payload_at(&p, 9_999).unwrap();
    let sr2 = svc.create_signed_payload_at(&p, 9_999).unwrap();
    assert_eq!(sr1.object.expiration, sr2.object.expiration);
    assert_eq!(sr1.signature, sr2.signature);
    assert_eq!(sr1.object.fingerprint, sr2.object.fingerprint);
}

#[test]
fn create_signed_payload_uses_current_clock() {
    let b = make_bundle();
    let svc = CryptoService::new(&b.pfx_base64, &b.password).unwrap();
    let before = chrono::Utc::now().timestamp();
    let sr = svc.create_signed_payload(&payload()).unwrap();
    let after = chrono::Utc::now().timestamp();
    assert!(sr.object.expiration >= before + 300);
    assert!(sr.object.expiration <= after + 300);
}
