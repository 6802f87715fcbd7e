//! Certificate-backed canonical-JSON signing.
//!
//! A [`CryptoService`] is built once from a password-protected PKCS#12
//! bundle: it keeps the bundle's private key and the SHA-1 fingerprint of
//! its certificate (upper-case hex).  Each signing call wraps a payload in
//! an envelope carrying the fingerprint and an expiration timestamp,
//! canonicalizes the envelope, and signs the canonical bytes with
//! RSA/SHA-512, returning the envelope together with the base64 signature.

use vstd::prelude::*;

use base64::Engine;

use crate::canon::{
    canonical_string, insert_member, join_members, lex_leq, member_str, quoted, render_members,
    sort_members, spec_canon, RenderedMember,
};
use crate::json::{model_pairs, JsonModel, JsonValue};
use crate::render::{dec_string, hex_of, lemma_hex_len, spec_dec, to_upper_hex};
use crate::text::{no_nul, nul_free};

verus! {

/// Failures of credential loading and signing.
#[derive(Debug)]
pub enum CryptoError {
    /// The credential bundle could not be used; fatal at startup.
    InitializationError(String),
    /// The signing primitive rejected the key or data.
    SigningError(String),
    /// A payload could not be brought into a signable shape.
    SerializationError(String),
}

impl CryptoError {
    /// The human-readable description carried by the error.
    pub fn message(&self) -> (r: &str)
        ensures
            r@ == match self {
                CryptoError::InitializationError(m) => m@,
                CryptoError::SigningError(m) => m@,
                CryptoError::SerializationError(m) => m@,
            },
    {
        match self {
            CryptoError::InitializationError(m) => m.as_str(),
            CryptoError::SigningError(m) => m.as_str(),
            CryptoError::SerializationError(m) => m.as_str(),
        }
    }
}

#[verifier::external_type_specification]
#[verifier::external_body]
#[verifier::reject_recursive_types(T)]
pub struct ExPKey<T>(openssl::pkey::PKey<T>);

#[verifier::external_type_specification]
#[verifier::external_body]
pub struct ExPrivate(openssl::pkey::Private);

/// The base64 text that the standard padded alphabet assigns to a byte
/// sequence; the encoding depends on the bytes alone.
pub uninterp spec fn b64_of(bytes: Seq<u8>) -> Seq<char>;

/// Whether the standard padded alphabet accepts a text as base64; the
/// decoder's verdict depends on the text alone.
pub uninterp spec fn b64_wf(text: Seq<char>) -> bool;

/// The bytes the standard padded alphabet decodes a well-formed text to; a
/// pure function of the text.
pub uninterp spec fn b64_bytes_of(text: Seq<char>) -> Seq<u8>;

/// Relies on `base64`'s `Engine::decode` with the standard padded
/// alphabet: `Ok` exactly when the text is well-formed base64, and the
/// decoded bytes depend on the text alone.
#[verifier::external_body]
fn b64_decode(text: &str) -> (r: Result<Vec<u8>, String>)
    ensures
        r is Ok <==> b64_wf(text@),
        r matches Ok(v) ==> v@ == b64_bytes_of(text@),
{
    match base64::engine::general_purpose::STANDARD.decode(text.as_bytes()) {
        Ok(v) => Ok(v),
        Err(e) => Err(format!("{}", e)),
    }
}

/// Relies on `base64`'s `Engine::encode` with the standard padded
/// alphabet: the text is a pure function of the bytes.
#[verifier::external_body]
fn b64_encode(bytes: &[u8]) -> (r: String)
    ensures
        r@ == b64_of(bytes@),
{
    base64::engine::general_purpose::STANDARD.encode(bytes)
}

/// Relies on `chrono::Utc::now` for the current Unix time in seconds;
/// nothing is assumed of the clock's reading.
#[verifier::external_body]
fn unix_now() -> (r: i64) {
    chrono::Utc::now().timestamp()
}

/// How opening a credential bundle can fail, step by step: the DER bytes
/// do not parse, the password does not open the container, the container
/// lacks a certificate or a private key, or the certificate cannot be
/// digested.
pub enum BundleFailure {
    Malformed(String),
    Locked(String),
    MissingCert,
    MissingKey,
    Undigestible(String),
}

/// Whether the bytes parse as a DER-encoded PKCS#12 container; the
/// parser's verdict depends on the bytes alone.
pub uninterp spec fn pkcs12_wf(der: Seq<u8>) -> bool;

/// Whether the password opens the parsed container; a pure function of the
/// bytes and the password.
pub uninterp spec fn pkcs12_opens(der: Seq<u8>, pass: Seq<char>) -> bool;

/// Whether the opened container holds a certificate.
pub uninterp spec fn pkcs12_has_cert(der: Seq<u8>, pass: Seq<char>) -> bool;

/// Whether the opened container holds a private key.
pub uninterp spec fn pkcs12_has_key(der: Seq<u8>, pass: Seq<char>) -> bool;

/// Whether the certificate's SHA-1 digest can be computed.
pub uninterp spec fn pkcs12_digest_ok(der: Seq<u8>, pass: Seq<char>) -> bool;

/// The SHA-1 digest of the container's certificate.
pub uninterp spec fn pkcs12_sha1(der: Seq<u8>, pass: Seq<char>) -> Seq<u8>;

/// A bundle is usable exactly when every step of opening it goes through.
pub open spec fn bundle_ok(der: Seq<u8>, pass: Seq<char>) -> bool {
    &&& pkcs12_wf(der)
    &&& pkcs12_opens(der, pass)
    &&& pkcs12_has_cert(der, pass)
    &&& pkcs12_has_key(der, pass)
    &&& pkcs12_digest_ok(der, pass)
}

/// Relies on `openssl::pkcs12::Pkcs12::from_der`, `Pkcs12::parse2` and
/// `X509Ref::digest` with SHA-1: each step is a pure function of the DER
/// bytes and the password, a SHA-1 digest is 20 bytes, and the failure
/// names the first step that refused.  `parse2` builds a `CString` from
/// the password, so a password with an interior NUL is excluded.
#[verifier::external_body]
fn load_bundle(der: &[u8], password: &str) -> (r: Result<
    (openssl::pkey::PKey<openssl::pkey::Private>, Vec<u8>),
    BundleFailure,
>)
    requires
        no_nul(password@),
    ensures
        r is Ok <==> bundle_ok(der@, password@),
        r matches Ok(kd) ==> kd.1@ == pkcs12_sha1(der@, password@) && kd.1@.len() == 20,
        r matches Err(f) ==> match f {
            BundleFailure::Malformed(_) => !pkcs12_wf(der@),
            BundleFailure::Locked(_) => pkcs12_wf(der@) && !pkcs12_opens(der@, password@),
            BundleFailure::MissingCert => pkcs12_opens(der@, password@) && !pkcs12_has_cert(
                der@,
                password@,
            ),
            BundleFailure::MissingKey => pkcs12_has_cert(der@, password@) && !pkcs12_has_key(
                der@,
                password@,
            ),
            BundleFailure::Undigestible(_) => pkcs12_has_key(der@, password@)
                && !pkcs12_digest_ok(der@, password@),
        },
{
    let p12 = openssl::pkcs12::Pkcs12::from_der(der)
        .map_err(|e| BundleFailure::Malformed(format!("{}", e)))?;
    let parsed = p12.parse2(password).map_err(|e| BundleFailure::Locked(format!("{}", e)))?;
    let cert = parsed.cert.ok_or(BundleFailure::MissingCert)?;
    let key = parsed.pkey.ok_or(BundleFailure::MissingKey)?;
    let digest = cert
        .digest(openssl::hash::MessageDigest::sha1())
        .map_err(|e| BundleFailure::Undigestible(format!("{}", e)))?;
    Ok((key, digest.to_vec()))
}

/// Relies on `openssl::sign::Signer::new` with SHA-512: `Ok` exactly when
/// the key supports the digest-and-sign scheme.
#[verifier::external_body]
fn new_sha512_signer<'a>(
    key: &'a openssl::pkey::PKey<openssl::pkey::Private>,
) -> (r: Result<openssl::sign::Signer<'a>, String>) {
    match openssl::sign::Signer::new(openssl::hash::MessageDigest::sha512(), key) {
        Ok(s) => Ok(s),
        Err(e) => Err(format!("{}", e)),
    }
}

#[verifier::external_type_specification]
#[verifier::external_body]
pub struct ExSigner<'a>(openssl::sign::Signer<'a>);

/// Relies on `openssl::sign::Signer::sign_oneshot_to_vec`; nothing is
/// assumed of the signature bytes.
#[verifier::external_body]
fn signer_sign(signer: openssl::sign::Signer<'_>, data: &[u8]) -> (r: Result<Vec<u8>, String>) {
    let mut s = signer;
    match s.sign_oneshot_to_vec(data) {
        Ok(v) => Ok(v),
        Err(e) => Err(format!("{}", e)),
    }
}

/// The envelope placed around a payload before signing.
pub struct SignedObject {
    /// Upper-case hex SHA-1 digest of the signing certificate.
    pub fingerprint: String,
    /// The payload being signed, exactly as handed in.
    pub object: JsonValue,
    /// Unix time after which the envelope is no longer valid.
    pub expiration: i64,
}

/// A signed envelope: the object together with the base64 RSA signature of
/// its canonical text.
pub struct SignedRequest {
    /// The envelope whose canonical text was signed.
    pub object: SignedObject,
    /// Base64 of the RSA/SHA-512 signature bytes.
    pub signature: String,
}

/// The ghost shape of the envelope object for a fingerprint, payload and
/// expiration.
pub open spec fn envelope_model(fp: Seq<char>, payload: JsonModel, exp: int) -> JsonModel {
    JsonModel::Obj(
        seq![
            ("Fingerprint"@, JsonModel::Text(fp)),
            ("Object"@, payload),
            ("UTCUnixTimeExpiration"@, JsonModel::Num(spec_dec(exp))),
        ],
    )
}

/// Owns the private key and certificate fingerprint extracted from the
/// credential bundle.
pub struct CryptoService {
    private_key: openssl::pkey::PKey<openssl::pkey::Private>,
    fingerprint: String,
}

impl CryptoService {
    /// The fingerprint is the upper-case hex of a 20-byte digest.
    pub closed spec fn wf(&self) -> bool {
        exists|d: Seq<u8>| d.len() == 20 && self.fingerprint@ == hex_of(d)
    }

    /// Ghost view of the fingerprint text.
    pub closed spec fn spec_fingerprint(&self) -> Seq<char> {
        self.fingerprint@
    }

    /// The certificate fingerprint this service signs under.
    pub fn fingerprint(&self) -> (r: &str)
        ensures
            r@ == self.spec_fingerprint(),
    {
        self.fingerprint.as_str()
    }

    /// Loads the private key and certificate from a base64, password
    /// protected PKCS#12 bundle and derives the certificate fingerprint.
    /// Success is owed exactly when the text is well-formed base64, the
    /// decoded bytes open as a PKCS#12 container under the (NUL-free)
    /// password, and the container yields a certificate, a private key and
    /// the certificate's digest; every refusal is an `InitializationError`.
    pub fn new(pfx_base64: &str, pfx_password: &str) -> (r: Result<CryptoService, CryptoError>)
        ensures
            r is Ok <==> no_nul(pfx_password@) && b64_wf(pfx_base64@) && bundle_ok(
                b64_bytes_of(pfx_base64@),
                pfx_password@,
            ),
            r matches Ok(svc) ==> {
                &&& svc.wf()
                &&& svc.spec_fingerprint().len() == 40
                &&& svc.spec_fingerprint() == hex_of(
                    pkcs12_sha1(b64_bytes_of(pfx_base64@), pfx_password@),
                )
            },
            r matches Err(e) ==> e is InitializationError,
    {
        if !nul_free(pfx_password) {
            return Err(
                CryptoError::InitializationError(
                    String::from_str("the bundle password must not contain a NUL character"),
                ),
            );
        }
        let der = match b64_decode(pfx_base64) {
            Ok(d) => d,
            Err(e) => {
                let mut msg = String::from_str("failed to decode the credential bundle base64: ");
                msg.append(e.as_str());
                return Err(CryptoError::InitializationError(msg));
            },
        };
        let (key, digest) = match load_bundle(der.as_slice(), pfx_password) {
            Ok(kd) => kd,
            Err(BundleFailure::Malformed(e)) => {
                let mut msg = String::from_str("failed to parse the credential bundle: ");
                msg.append(e.as_str());
                return Err(CryptoError::InitializationError(msg));
            },
            Err(BundleFailure::Locked(e)) => {
                let mut msg = String::from_str(
                    "failed to open the credential bundle with the password: ",
                );
                msg.append(e.as_str());
                return Err(CryptoError::InitializationError(msg));
            },
            Err(BundleFailure::MissingCert) => {
                return Err(
                    CryptoError::InitializationError(
                        String::from_str("no certificate found in the credential bundle"),
                    ),
                );
            },
            Err(BundleFailure::MissingKey) => {
                return Err(
                    CryptoError::InitializationError(
                        String::from_str("no private key found in the credential bundle"),
                    ),
                );
            },
            Err(BundleFailure::Undigestible(e)) => {
                let mut msg = String::from_str("failed to digest the certificate: ");
                msg.append(e.as_str());
                return Err(CryptoError::InitializationError(msg));
            },
        };
        let fingerprint = to_upper_hex(digest.as_slice());
        let svc = CryptoService { private_key: key, fingerprint };
        proof {
            assert(digest@.len() == 20 && svc.fingerprint@ == hex_of(digest@));
            lemma_hex_len(digest@);
        }
        Ok(svc)
    }

    /// Builds the envelope object `{Fingerprint, Object,
    /// UTCUnixTimeExpiration}` around a payload.
    pub fn build_envelope(&self, payload: &JsonValue, expiration: i64) -> (r: JsonValue)
        requires
            expiration >= 0,
        ensures
            r@ == envelope_model(self.spec_fingerprint(), payload@, expiration as int),
    {
        let mut pairs: Vec<(String, JsonValue)> = Vec::new();
        pairs.push((String::from_str("Fingerprint"), JsonValue::Text(self.fingerprint.clone())));
        pairs.push((String::from_str("Object"), payload.deep_clone()));
        pairs.push(
            (String::from_str("UTCUnixTimeExpiration"), JsonValue::Num(dec_string(expiration))),
        );
        let r = JsonValue::Obj(pairs);
        proof {
            reveal_with_fuel(model_pairs, 4);
            let p = r->Obj_0@;
            assert(p.len() == 3);
            assert(p.drop_last() =~= seq![p[0], p[1]]);
            assert(seq![p[0], p[1]].drop_last() =~= seq![p[0]]);
            assert(seq![p[0]].drop_last() =~= Seq::<(String, JsonValue)>::empty());
            assert(model_pairs(p) =~~= seq![
                ("Fingerprint"@, JsonModel::Text(self.fingerprint@)),
                ("Object"@, payload@),
                ("UTCUnixTimeExpiration"@, JsonModel::Num(spec_dec(expiration as int))),
            ]);
            assert(r@ =~~= envelope_model(
                self.spec_fingerprint(),
                payload@,
                expiration as int,
            ));
        }
        r
    }

    /// Signs a payload at the given clock reading: the envelope expires 300
    /// seconds later, carries the payload unchanged under this service's
    /// fingerprint, and the signature text is base64.  A refusal of the
    /// signing primitive is reported as a `SigningError`.
    pub fn create_signed_payload_at(&self, payload: &JsonValue, now: i64) -> (r: Result<
        SignedRequest,
        CryptoError,
    >)
        requires
            0 <= now <= i64::MAX - 300,
        ensures
            r matches Ok(sr) ==> {
                &&& sr.object.fingerprint@ == self.spec_fingerprint()
                &&& sr.object.object@ == payload@
                &&& sr.object.expiration == now + 300
                &&& exists|sig: Seq<u8>| sr.signature@ == b64_of(sig)
            },
            r matches Err(e) ==> e is SigningError,
    {
        let expiration: i64 = now + 300;
        let envelope = self.build_envelope(payload, expiration);
        let canonical = canonical_string(&envelope);
        let signer = match new_sha512_signer(&self.private_key) {
            Ok(s) => s,
            Err(e) => {
                let mut msg = String::from_str("failed to prepare the signer: ");
                msg.append(e.as_str());
                return Err(CryptoError::SigningError(msg));
            },
        };
        let raw_signature = match signer_sign(signer, canonical.as_str().as_bytes()) {
            Ok(v) => v,
            Err(e) => {
                let mut msg = String::from_str("failed to sign the payload: ");
                msg.append(e.as_str());
                return Err(CryptoError::SigningError(msg));
            },
        };
        let signature = b64_encode(raw_signature.as_slice());
        proof {
            assert(signature@ == b64_of(raw_signature@));
        }
        Ok(
            SignedRequest {
                object: SignedObject {
                    fingerprint: self.fingerprint.clone(),
                    object: payload.deep_clone(),
                    expiration,
                },
                signature,
            },
        )
    }

    /// Signs a payload against the current clock; see
    /// [`CryptoService::create_signed_payload_at`].  A clock reading that
    /// leaves no room for the 300 second expiration window is refused as a
    /// `SigningError`.
    pub fn create_signed_payload(&self, payload: &JsonValue) -> (r: Result<
        SignedRequest,
        CryptoError,
    >)
        ensures
            r matches Ok(sr) ==> {
                &&& sr.object.fingerprint@ == self.spec_fingerprint()
                &&& sr.object.object@ == payload@
                &&& sr.object.expiration >= 300
                &&& exists|sig: Seq<u8>| sr.signature@ == b64_of(sig)
            },
            r matches Err(e) ==> e is SigningError,
    {
        let now = unix_now();
        if now < 0 || now > i64::MAX - 300 {
            return Err(
                CryptoError::SigningError(
                    String::from_str(
                        "the clock reading leaves no room for the expiration window",
                    ),
                ),
            );
        }
        self.create_signed_payload_at(payload, now)
    }
}

/// The canonical text of the envelope, split as a prefix that depends only
/// on the fingerprint and payload, then the decimal expiration, then the
/// closing brace.
pub open spec fn envelope_prefix(fp: Seq<char>, payload: JsonModel) -> Seq<char> {
    if payload is Null {
        seq!['{'] + member_str(("Fingerprint"@, quoted(fp))) + seq![','] + quoted(
            "UTCUnixTimeExpiration"@,
        ) + seq![':']
    } else {
        seq!['{'] + member_str(("Fingerprint"@, quoted(fp))) + seq![','] + member_str(
            ("Object"@, spec_canon(payload)),
        ) + seq![','] + quoted("UTCUnixTimeExpiration"@) + seq![':']
    }
}

/// The canonical envelope text is the prefix, the decimal expiration, and
/// the closing brace: `Fingerprint` sorts before `Object` sorts before
/// `UTCUnixTimeExpiration`, and a null payload's `Object` member is
/// stripped.
proof fn lemma_envelope_shape(fp: Seq<char>, payload: JsonModel, e: int)
    requires
        e >= 0,
    ensures
        spec_canon(envelope_model(fp, payload, e)) =~= envelope_prefix(fp, payload) + spec_dec(e)
            + seq!['}'],
{
    reveal_strlit("Fingerprint");
    reveal_strlit("Object");
    reveal_strlit("UTCUnixTimeExpiration");
    reveal_with_fuel(render_members, 5);
    reveal_with_fuel(sort_members, 5);
    reveal_with_fuel(insert_member, 5);
    reveal_with_fuel(join_members, 5);
    let kf = "Fingerprint"@;
    let ko = "Object"@;
    let ku = "UTCUnixTimeExpiration"@;
    let pairs = seq![(kf, JsonModel::Text(fp)), (ko, payload), (ku, JsonModel::Num(spec_dec(e)))];
    assert(envelope_model(fp, payload, e) == JsonModel::Obj(pairs));

    let mf = (kf, quoted(fp));
    let mo = (ko, spec_canon(payload));
    let mu = (ku, spec_dec(e));

    // Key ordering facts.
    assert(!lex_leq(ku, kf));
    assert(!lex_leq(ko, kf));
    assert(!lex_leq(ku, ko));

    // Rendered members.
    assert(pairs.drop_last() =~= seq![(kf, JsonModel::Text(fp)), (ko, payload)]);
    assert(seq![(kf, JsonModel::Text(fp)), (ko, payload)].drop_last() =~= seq![
        (kf, JsonModel::Text(fp)),
    ]);
    assert(seq![(kf, JsonModel::Text(fp))].drop_last() =~= Seq::<(Seq<char>, JsonModel)>::empty());
    assert(render_members(seq![(kf, JsonModel::Text(fp))]) =~= seq![mf]);
    if payload is Null {
        assert(render_members(pairs.drop_last()) =~= seq![mf]);
        assert(render_members(pairs) =~= seq![mf, mu]);

        // Sorting keeps the order.
        assert(seq![mf, mu].drop_last() =~= seq![mf]);
        assert(seq![mf].drop_last() =~= Seq::<RenderedMember>::empty());
        assert(sort_members(seq![mf]) =~= insert_member(Seq::empty(), mf));
        assert(insert_member(Seq::<RenderedMember>::empty(), mf) =~= seq![mf]);
        assert(seq![mf].drop_first() =~= Seq::<RenderedMember>::empty());
        assert(insert_member(seq![mf], mu) =~= seq![mf] + insert_member(Seq::empty(), mu));
        assert(sort_members(seq![mf, mu]) =~= seq![mf, mu]);

        // Joining.
        assert(seq![mf, mu].drop_last() =~= seq![mf]);
        assert(join_members(seq![mf]) == member_str(mf));
        assert(join_members(seq![mf, mu]) =~= member_str(mf) + seq![','] + member_str(mu));
        assert(spec_canon(envelope_model(fp, payload, e)) =~= seq!['{'] + (member_str(mf) + seq![
            ',',
        ] + member_str(mu)) + seq!['}']);
        assert(member_str(mu) =~= quoted(ku) + seq![':'] + spec_dec(e));
    } else {
        assert(render_members(pairs.drop_last()) =~= seq![mf, mo]);
        assert(render_members(pairs) =~= seq![mf, mo, mu]);

        // Sorting keeps the order.
        assert(seq![mf, mo, mu].drop_last() =~= seq![mf, mo]);
        assert(seq![mf, mo].drop_last() =~= seq![mf]);
        assert(seq![mf].drop_last() =~= Seq::<RenderedMember>::empty());
        assert(insert_member(Seq::<RenderedMember>::empty(), mf) =~= seq![mf]);
        assert(sort_members(seq![mf]) =~= seq![mf]);
        assert(seq![mf].drop_first() =~= Seq::<RenderedMember>::empty());
        assert(insert_member(seq![mf], mo) =~= seq![mf] + insert_member(Seq::empty(), mo));
        assert(insert_member(seq![mf], mo) =~= seq![mf, mo]);
        assert(sort_members(seq![mf, mo]) =~= seq![mf, mo]);
        assert(seq![mf, mo].drop_first() =~= seq![mo]);
        assert(seq![mo].drop_first() =~= Seq::<RenderedMember>::empty());
        assert(insert_member(seq![mo], mu) =~= seq![mo] + insert_member(Seq::empty(), mu));
        assert(insert_member(seq![mf, mo], mu) =~= seq![mf] + insert_member(seq![mo], mu));
        assert(sort_members(seq![mf, mo, mu]) =~= seq![mf, mo, mu]);

        // Joining.
        assert(seq![mf, mo, mu].drop_last() =~= seq![mf, mo]);
        assert(join_members(seq![mf]) == member_str(mf));
        assert(join_members(seq![mf, mo]) =~= member_str(mf) + seq![','] + member_str(mo));
        assert(join_members(seq![mf, mo, mu]) =~= (member_str(mf) + seq![','] + member_str(mo))
            + seq![','] + member_str(mu));
        assert(spec_canon(envelope_model(fp, payload, e)) =~= seq!['{'] + ((member_str(mf) + seq![
            ',',
        ] + member_str(mo)) + seq![','] + member_str(mu)) + seq!['}']);
        assert(member_str(mu) =~= quoted(ku) + seq![':'] + spec_dec(e));
    }
}

/// Two envelopes over the same fingerprint and payload but different
/// expirations have different canonical texts, so their signed byte
/// sequences differ.
pub proof fn lemma_envelope_expiration_distinct(
    fp: Seq<char>,
    payload: JsonModel,
    e1: int,
    e2: int,
)
    requires
        0 <= e1,
        0 <= e2,
        e1 != e2,
    ensures
        spec_canon(envelope_model(fp, payload, e1)) != spec_canon(envelope_model(fp, payload, e2)),
{
    lemma_envelope_shape(fp, payload, e1);
    lemma_envelope_shape(fp, payload, e2);
    let p = envelope_prefix(fp, payload);
    let s1 = p + spec_dec(e1) + seq!['}'];
    let s2 = p + spec_dec(e2) + seq!['}'];
    if s1 == s2 {
        assert(spec_dec(e1).len() == spec_dec(e2).len());
        assert(spec_dec(e1) =~= spec_dec(e2)) by {
            assert(forall|i: int|
                0 <= i < spec_dec(e1).len() ==> #[trigger] spec_dec(e1)[i] == s1[p.len() + i]);
            assert(forall|i: int|
                0 <= i < spec_dec(e2).len() ==> #[trigger] spec_dec(e2)[i] == s2[p.len() + i]);
        }
        crate::render::lemma_dec_injective(e1, e2);
        assert(false);
    }
}

} // verus!
