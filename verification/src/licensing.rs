//! License keys for the pro features.
//!
//! A license key is `base64(signature) ":" base64(payload)`, where the payload
//! is the JSON of a `LicensePayload` and the signature is an Ed25519 signature
//! of the payload bytes. Base64 is the standard alphabet with padding.

use vstd::prelude::*;
use vstd::string::{StrSliceExecFns, StringExecFns};
use crate::text::{opt_chars, str_eq};

verus! {

/// Error types for licensing operations
#[derive(Debug)]
pub enum LicenseError {
    LicenseKeyNotFound,
    InvalidFormat(String),
    SignatureVerificationFailed,
    LicenseExpired(String),
    FeatureNotAvailable(String),
    InvalidPublicKey,
}

/// License payload that is signed by the EdgeBot licensing server
#[derive(Debug, Clone)]
pub struct LicensePayload {
    pub customer_id: String,
    pub timestamp: i64,
    pub features: Vec<String>,
    pub expiry: Option<i64>,
}

/// What decoding text as standard base64 (with padding) gives: the bytes,
/// or the text of the error that makes it invalid.
pub uninterp spec fn base64_decoding(s: Seq<char>) -> Result<Seq<u8>, Seq<char>>;

/// The bytes standard base64 decodes text to, if it is valid.
pub open spec fn base64_decoded(s: Seq<char>) -> Option<Seq<u8>> {
    match base64_decoding(s) {
        Ok(b) => Some(b),
        Err(_) => None,
    }
}

/// The text of the error decoding invalid base64 gives.
pub open spec fn base64_error(s: Seq<char>) -> Seq<char> {
    match base64_decoding(s) {
        Ok(_) => Seq::empty(),
        Err(e) => e,
    }
}

/// The standard base64 text (with padding) of some bytes.
pub uninterp spec fn base64_encoded(b: Seq<u8>) -> Seq<char>;

/// Whether 32 bytes are a valid Ed25519 public key (a compressed curve point
/// that decompresses).
pub uninterp spec fn ed25519_key_valid(key: Seq<u8>) -> bool;

/// Whether a 64-byte signature is a valid Ed25519 signature of a message
/// under a valid public key.
pub uninterp spec fn ed25519_verifies(key: Seq<u8>, msg: Seq<u8>, sig: Seq<u8>) -> bool;

/// The Ed25519 signature of a message under a 32-byte secret key.
pub uninterp spec fn ed25519_signature(secret: Seq<u8>, msg: Seq<u8>) -> Seq<u8>;

/// The text an expiry timestamp is shown as in a format description.
pub uninterp spec fn expiry_text(description: Seq<char>, expiry: i64) -> Seq<char>;

/// Decodes standard base64.
///
/// Calls base64's `Engine::decode` with the `STANDARD` engine; the decoded
/// bytes, or the text (`Display`) of its `DecodeError`, which depends on the
/// input alone, are named `base64_decoding`.
#[verifier::external_body]
fn base64_decode(s: &str) -> (res: Result<Vec<u8>, String>)
    ensures
        match res {
            Ok(v) => base64_decoding(s@) == Ok::<Seq<u8>, Seq<char>>(v@),
            Err(e) => base64_decoding(s@) == Err::<Seq<u8>, Seq<char>>(e@),
        },
{
    base64::Engine::decode(&base64::engine::general_purpose::STANDARD, s).map_err(|e| e.to_string())
}

/// Encodes bytes as standard base64.
///
/// Calls base64's `Engine::encode` with the `STANDARD` engine. The text is
/// named `base64_encoded`; as base64's documentation states, it decodes back
/// to the bytes, and its alphabet (`A-Z a-z 0-9 + / =`) has no `:`.
#[verifier::external_body]
fn base64_encode(b: &[u8]) -> (s: String)
    ensures
        s@ == base64_encoded(b@),
        base64_decoded(s@) == Some(b@),
        forall|i: int| 0 <= i < s@.len() ==> s@[i] != ':',
{
    base64::Engine::encode(&base64::engine::general_purpose::STANDARD, b)
}

/// Whether 32 bytes form a valid Ed25519 public key.
///
/// Calls ed25519-dalek's `VerifyingKey::from_bytes`, which fails when the
/// bytes do not decompress to a curve point; the answer is named
/// `ed25519_key_valid`.
#[verifier::external_body]
fn ed25519_key_is_valid(key: &[u8]) -> (ok: bool)
    requires
        key@.len() == 32,
    ensures
        ok == ed25519_key_valid(key@),
{
    let bytes: [u8; 32] = key.try_into().unwrap();
    ed25519_dalek::VerifyingKey::from_bytes(&bytes).is_ok()
}

/// Checks an Ed25519 signature of a message under a public key.
///
/// Converts the key with ed25519-dalek's `VerifyingKey::from_bytes` (a key
/// that does not decompress never verifies) and checks with its `verify`
/// (the `Verifier` trait); the answer is named `ed25519_verifies`.
#[verifier::external_body]
fn ed25519_verify(key: &[u8], msg: &[u8], sig: &[u8]) -> (ok: bool)
    requires
        key@.len() == 32,
        sig@.len() == 64,
    ensures
        ok == (ed25519_key_valid(key@) && ed25519_verifies(key@, msg@, sig@)),
{
    let key_bytes: [u8; 32] = key.try_into().unwrap();
    let sig_bytes: [u8; 64] = sig.try_into().unwrap();
    match ed25519_dalek::VerifyingKey::from_bytes(&key_bytes) {
        Ok(k) => ed25519_dalek::Verifier::verify(&k, msg, &ed25519_dalek::Signature::from_bytes(
            &sig_bytes,
        )).is_ok(),
        Err(_) => false,
    }
}

/// Signs a message with a 32-byte Ed25519 secret key.
///
/// Builds the key with ed25519-dalek's `SigningKey::from_bytes` and signs with
/// its `sign` (the `Signer` trait); the 64 signature bytes are named
/// `ed25519_signature`.
#[verifier::external_body]
fn ed25519_sign(secret: &[u8], msg: &[u8]) -> (sig: Vec<u8>)
    requires
        secret@.len() == 32,
    ensures
        sig@ == ed25519_signature(secret@, msg@),
        sig@.len() == 64,
{
    let secret_bytes: [u8; 32] = secret.try_into().unwrap();
    let key = ed25519_dalek::SigningKey::from_bytes(&secret_bytes);
    ed25519_dalek::Signer::sign(&key, msg).to_bytes().to_vec()
}

/// Shows an expiry timestamp as a UTC date and time.
///
/// Calls time's `OffsetDateTime::from_unix_timestamp` and formats the date
/// with time's `format_description::parse` of `description` and `format`,
/// falling back to the number (std `i64::to_string`) when the timestamp is
/// out of range or formatting fails; the text is named `expiry_text`.
#[verifier::external_body]
fn format_expiry(description: &str, expiry: i64) -> (s: String)
    ensures
        s@ == expiry_text(description@, expiry),
{
    let fmt = time::format_description::parse(description);
    match (time::OffsetDateTime::from_unix_timestamp(expiry), fmt) {
        (Ok(dt), Ok(f)) => dt.format(&f).unwrap_or_else(|_| expiry.to_string()),
        _ => expiry.to_string(),
    }
}

/// The current time as seconds since the Unix epoch.
///
/// Calls time's `OffsetDateTime::now_utc`; the value depends on the clock and
/// nothing is stated of it.
#[verifier::external_body]
fn current_unix_time() -> (t: i64) {
    time::OffsetDateTime::now_utc().unix_timestamp()
}

/// Number of `:` in the text.
pub open spec fn colon_count(s: Seq<char>) -> nat
    decreases s.len(),
{
    if s.len() == 0 {
        0
    } else {
        colon_count(s.drop_last()) + if s.last() == ':' {
            1nat
        } else {
            0
        }
    }
}

/// The position of the first `:` (the length when there is none).
pub open spec fn first_colon(s: Seq<char>) -> int
    decreases s.len(),
{
    if s.len() == 0 {
        0
    } else if s[0] == ':' {
        0
    } else {
        1 + first_colon(s.drop_first())
    }
}

/// A license key's two parts, decoded.
#[derive(Debug)]
pub struct DecodedLicense {
    pub signature: Vec<u8>,
    pub payload: Vec<u8>,
}

/// What decoding a license key gives: a missing or empty key is not found; a
/// key without exactly one `:`, with a part that is not base64, or with a
/// signature that is not 64 bytes is malformed; otherwise the two decoded parts.
pub open spec fn decode_outcome(key: Option<Seq<char>>, res: Result<DecodedLicense, LicenseError>) -> bool {
    match key {
        None => res matches Err(LicenseError::LicenseKeyNotFound),
        Some(k) => if k.len() == 0 {
            res matches Err(LicenseError::LicenseKeyNotFound)
        } else if colon_count(k) != 1 {
            res matches Err(LicenseError::InvalidFormat(m)) && m@
                == "License key must be in format: signature:payload"@
        } else {
            let p = first_colon(k);
            let sig = base64_decoded(k.subrange(0, p));
            let payload = base64_decoded(k.subrange(p + 1, k.len() as int));
            if sig is None {
                res matches Err(LicenseError::InvalidFormat(m)) && m@ == "Invalid base64 signature: "@
                    + base64_error(k.subrange(0, p))
            } else if payload is None {
                res matches Err(LicenseError::InvalidFormat(m)) && m@ == "Invalid base64 payload: "@
                    + base64_error(k.subrange(p + 1, k.len() as int))
            } else if sig->0.len() != 64 {
                res matches Err(LicenseError::InvalidFormat(m)) && m@ == "Invalid signature length"@
            } else {
                res matches Ok(d) && d.signature@ == sig->0 && d.payload@ == payload->0
            }
        },
    }
}

fn scan_colons(key: &str) -> (r: (usize, usize))
    ensures
        r.0 == colon_count(key@),
        r.1 == first_colon(key@),
        r.1 <= key@.len(),
{
    let n = key.unicode_len();
    let mut count: usize = 0;
    let mut first: usize = n;
    let mut i: usize = 0;
    while i < n
        invariant
            n == key@.len(),
            i <= n,
            count == colon_count(key@.take(i as int)),
            count <= i,
            count == 0 ==> first == n,
            count > 0 ==> first == first_colon(key@) && first < i,
            count == 0 ==> forall|j: int| 0 <= j < i ==> key@[j] != ':',
        decreases n - i,
    {
        assert(key@.take(i + 1).drop_last() =~= key@.take(i as int));
        if key.get_char(i) == ':' {
            if count == 0 {
                first = i;
                proof {
                    lemma_first_colon_at(key@, i as int);
                }
            }
            count += 1;
        }
        i += 1;
    }
    assert(key@.take(n as int) =~= key@);
    if count == 0 {
        proof {
            lemma_no_colon(key@);
        }
    }
    (count, first)
}

proof fn lemma_first_colon_at(s: Seq<char>, i: int)
    requires
        0 <= i < s.len(),
        s[i] == ':',
        forall|j: int| 0 <= j < i ==> s[j] != ':',
    ensures
        first_colon(s) == i,
    decreases i,
{
    if i > 0 {
        lemma_first_colon_at(s.drop_first(), i - 1);
    }
}

proof fn lemma_no_colon(s: Seq<char>)
    requires
        forall|j: int| 0 <= j < s.len() ==> s[j] != ':',
    ensures
        first_colon(s) == s.len(),
    decreases s.len(),
{
    if s.len() > 0 {
        lemma_no_colon(s.drop_first());
    }
}

/// Decodes the two parts of a license key.
pub fn decode_license_key(key: Option<&str>) -> (res: Result<DecodedLicense, LicenseError>)
    ensures
        decode_outcome(
            match key {
                Some(k) => Some(k@),
                None => None,
            },
            res,
        ),
{
    let key = match key {
        None => {
            return Err(LicenseError::LicenseKeyNotFound);
        },
        Some(k) => k,
    };
    let n = key.unicode_len();
    if n == 0 {
        return Err(LicenseError::LicenseKeyNotFound);
    }
    let (count, p) = scan_colons(key);
    if count != 1 {
        return Err(
            LicenseError::InvalidFormat(
                String::from_str("License key must be in format: signature:payload"),
            ),
        );
    }
    if p >= n {
        proof {
            lemma_no_colon_count(key@);
        }
        return Err(LicenseError::LicenseKeyNotFound);
    }
    let sig_text = key.substring_char(0, p);
    let payload_text = key.substring_char(p + 1, n);
    let signature = match base64_decode(sig_text) {
        Ok(v) => v,
        Err(e) => {
            let m = String::from_str("Invalid base64 signature: ").concat(e.as_str());
            return Err(LicenseError::InvalidFormat(m));
        },
    };
    let payload = match base64_decode(payload_text) {
        Ok(v) => v,
        Err(e) => {
            let m = String::from_str("Invalid base64 payload: ").concat(e.as_str());
            return Err(LicenseError::InvalidFormat(m));
        },
    };
    if signature.len() != 64 {
        return Err(LicenseError::InvalidFormat(String::from_str("Invalid signature length")));
    }
    Ok(DecodedLicense { signature, payload })
}

proof fn lemma_no_colon_count(s: Seq<char>)
    requires
        first_colon(s) >= s.len(),
    ensures
        colon_count(s) == 0,
    decreases s.len(),
{
    if s.len() > 0 {
        assert(s[0] != ':');
        lemma_no_colon_count(s.drop_first());
        lemma_colon_count_first(s);
    }
}

proof fn lemma_colon_count_first(s: Seq<char>)
    requires
        s.len() > 0,
    ensures
        colon_count(s) == colon_count(s.drop_first()) + if s[0] == ':' {
            1nat
        } else {
            0
        },
    decreases s.len(),
{
    if s.len() > 1 {
        lemma_colon_count_first(s.drop_last());
        assert(s.drop_last().drop_first() =~= s.drop_first().drop_last());
        assert(s.drop_first().last() == s.last());
        assert(s.drop_last()[0] == s[0]);
        assert(colon_count(s.drop_first()) == colon_count(s.drop_first().drop_last()) + if s.last()
            == ':' {
            1nat
        } else {
            0
        });
        assert(colon_count(s) == colon_count(s.drop_last()) + if s.last() == ':' {
            1nat
        } else {
            0
        });
    } else {
        assert(s.last() == s[0]);
        assert(colon_count(s) == colon_count(s.drop_last()) + if s.last() == ':' {
            1nat
        } else {
            0
        });
        assert(s.drop_first().len() == 0);
        assert(s.drop_last().len() == 0);
    }
}

/// The base64 text of the public key licenses are verified with.
pub fn public_key_base64() -> (s: &'static str)
    ensures
        s@ == "YOUR_PUBLIC_KEY_HERE"@,
{
    "YOUR_PUBLIC_KEY_HERE"
}

/// What parsing a base64 public key gives: the 32 key bytes if the text is
/// base64 of a valid Ed25519 key.
pub open spec fn public_key_outcome(b64: Seq<char>, res: Result<Vec<u8>, LicenseError>) -> bool {
    match base64_decoded(b64) {
        None => res matches Err(LicenseError::InvalidFormat(m)) && m@ == "Base64 decode failed: "@
            + base64_error(b64),
        Some(k) => if k.len() == 32 && ed25519_key_valid(k) {
            res matches Ok(v) && v@ == k
        } else {
            res matches Err(LicenseError::InvalidPublicKey)
        },
    }
}

/// Decodes and checks a base64 Ed25519 public key.
pub fn parse_public_key(b64: &str) -> (res: Result<Vec<u8>, LicenseError>)
    ensures
        public_key_outcome(b64@, res),
{
    let bytes = match base64_decode(b64) {
        Ok(v) => v,
        Err(e) => {
            let m = String::from_str("Base64 decode failed: ").concat(e.as_str());
            return Err(LicenseError::InvalidFormat(m));
        },
    };
    if bytes.len() != 32 || !ed25519_key_is_valid(bytes.as_slice()) {
        return Err(LicenseError::InvalidPublicKey);
    }
    Ok(bytes)
}

/// Get the embedded public key for signature verification.
pub fn get_public_key() -> (res: Result<Vec<u8>, LicenseError>)
    ensures
        public_key_outcome("YOUR_PUBLIC_KEY_HERE"@, res),
{
    parse_public_key(public_key_base64())
}

/// Whether the payload lists the feature.
pub open spec fn has_feature(features: Seq<String>, f: Seq<char>) -> bool {
    exists|i: int| 0 <= i < features.len() && (#[trigger] features[i])@ == f
}

fn lists_feature(features: &Vec<String>, f: &str) -> (b: bool)
    ensures
        b == has_feature(features@, f@),
{
    let n = features.len();
    let mut i: usize = 0;
    while i < n
        invariant
            n == features@.len(),
            i <= n,
            forall|j: int| 0 <= j < i ==> (#[trigger] features@[j])@ != f@,
        decreases n - i,
    {
        if str_eq(features[i].as_str(), f) {
            return true;
        }
        i += 1;
    }
    false
}

/// The format description an expiry is shown with. It names no component
/// (those are written in brackets), so its text is shown as it stands.
pub open spec fn expiry_description() -> Seq<char> {
    "%Y-%m-%d %H:%M:%S UTC"@
}

/// What checking a decoded license at time `now` gives: a signature that is
/// not 64 bytes is malformed; an expired payload is refused; then the
/// embedded public key must parse, the signature must verify the payload
/// bytes under it, and a required feature must be listed.
pub open spec fn license_outcome(
    d: DecodedLicense,
    payload: LicensePayload,
    now: i64,
    required_feature: Option<Seq<char>>,
    res: Result<(), LicenseError>,
) -> bool {
    if d.signature@.len() != 64 {
        res matches Err(LicenseError::InvalidFormat(m)) && m@ == "Invalid signature length"@
    } else if payload.expiry is Some && now > payload.expiry->0 {
        res matches Err(LicenseError::LicenseExpired(m)) && m@ == "License expired at "@
            + expiry_text(expiry_description(), payload.expiry->0)
    } else {
        match base64_decoded("YOUR_PUBLIC_KEY_HERE"@) {
            None => res matches Err(LicenseError::InvalidFormat(m)) && m@ == "Base64 decode failed: "@
                + base64_error("YOUR_PUBLIC_KEY_HERE"@),
            Some(k) => if !(k.len() == 32 && ed25519_key_valid(k)) {
                res matches Err(LicenseError::InvalidPublicKey)
            } else if !ed25519_verifies(k, d.payload@, d.signature@) {
                res matches Err(LicenseError::SignatureVerificationFailed)
            } else {
                match required_feature {
                    Some(f) => if has_feature(payload.features@, f) {
                        res is Ok
                    } else {
                        res matches Err(LicenseError::FeatureNotAvailable(g)) && g@ == f
                    },
                    None => res is Ok,
                }
            },
        }
    }
}

/// Checks a decoded license and its parsed payload at time `now`.
pub fn check_license(
    decoded: &DecodedLicense,
    payload: &LicensePayload,
    now: i64,
    required_feature: Option<&str>,
) -> (res: Result<(), LicenseError>)
    ensures
        license_outcome(
            *decoded,
            *payload,
            now,
            match required_feature {
                Some(f) => Some(f@),
                None => None,
            },
            res,
        ),
{
    if decoded.signature.len() != 64 {
        return Err(LicenseError::InvalidFormat(String::from_str("Invalid signature length")));
    }
    if let Some(expiry) = payload.expiry {
        if now > expiry {
            let m = String::from_str("License expired at ").concat(
                format_expiry("%Y-%m-%d %H:%M:%S UTC", expiry).as_str(),
            );
            return Err(LicenseError::LicenseExpired(m));
        }
    }
    let public_key = get_public_key()?;
    if !ed25519_verify(public_key.as_slice(), decoded.payload.as_slice(), decoded.signature.as_slice()) {
        return Err(LicenseError::SignatureVerificationFailed);
    }
    if let Some(feature) = required_feature {
        if !lists_feature(&payload.features, feature) {
            return Err(LicenseError::FeatureNotAvailable(String::from_str(feature)));
        }
    }
    Ok(())
}

/// Checks a decoded license and its parsed payload against the current time,
/// and that it grants `required_feature` when one is given.
pub fn verify_pro_access(
    decoded: &DecodedLicense,
    payload: &LicensePayload,
    required_feature: Option<&str>,
) -> (res: Result<(), LicenseError>)
    ensures
        exists|now: i64|
            #[trigger] license_outcome(*decoded, *payload, now, opt_chars(required_feature), res),
{
    let now = current_unix_time();
    check_license(decoded, payload, now, required_feature)
}

/// Checks that the license permits cloud simulation.
pub fn check_cloud_sim(decoded: &DecodedLicense, payload: &LicensePayload) -> (res: Result<
    (),
    LicenseError,
>)
    ensures
        exists|now: i64| #[trigger] license_outcome(*decoded, *payload, now, Some("cloud_sim"@), res),
{
    let r = verify_pro_access(decoded, payload, Some("cloud_sim"));
    proof {
        reveal_strlit("cloud_sim");
    }
    r
}

/// Checks that the license permits model optimization.
pub fn check_optimization(decoded: &DecodedLicense, payload: &LicensePayload) -> (res: Result<
    (),
    LicenseError,
>)
    ensures
        exists|now: i64|
            #[trigger] license_outcome(*decoded, *payload, now, Some("optimization"@), res),
{
    verify_pro_access(decoded, payload, Some("optimization"))
}

/// The message a licensing error is shown with.
pub open spec fn license_message(e: LicenseError) -> Seq<char> {
    match e {
        LicenseError::LicenseKeyNotFound => "License key not found. Set EDGEBOT_LICENSE_KEY environment variable."@,
        LicenseError::InvalidFormat(m) => "Invalid license key format: "@ + m@,
        LicenseError::SignatureVerificationFailed => "Signature verification failed"@,
        LicenseError::LicenseExpired(m) => "License expired: "@ + m@,
        LicenseError::FeatureNotAvailable(f) => "Feature '"@ + f@
            + "' is not available in your license. Contact sales@edgebot.ai to upgrade."@,
        LicenseError::InvalidPublicKey => "Invalid public key configuration"@,
    }
}

impl LicenseError {
    /// The message the error is shown with.
    pub fn message(&self) -> (m: String)
        ensures
            m@ == license_message(*self),
    {
        match self {
            LicenseError::LicenseKeyNotFound => String::from_str(
                "License key not found. Set EDGEBOT_LICENSE_KEY environment variable.",
            ),
            LicenseError::InvalidFormat(m) => String::from_str("Invalid license key format: ").concat(
                m.as_str(),
            ),
            LicenseError::SignatureVerificationFailed => String::from_str(
                "Signature verification failed",
            ),
            LicenseError::LicenseExpired(m) => String::from_str("License expired: ").concat(m.as_str()),
            LicenseError::FeatureNotAvailable(f) => String::from_str("Feature '").concat(
                f.as_str(),
            ).concat("' is not available in your license. Contact sales@edgebot.ai to upgrade."),
            LicenseError::InvalidPublicKey => String::from_str("Invalid public key configuration"),
        }
    }
}

/// The dashboard's answer for a licensing result: success, or the error's
/// message.
pub open spec fn client_answer(r: Result<(), LicenseError>, s: Result<(), String>) -> bool {
    match (r, s) {
        (Ok(_), Ok(_)) => true,
        (Err(e), Err(m)) => m@ == license_message(e),
        _ => false,
    }
}

/// Client for the licensing checks the dashboard makes, answering with the
/// error's message.
pub struct LicensingClient;

impl LicensingClient {
    /// Whether the license is a valid pro license.
    pub fn check_pro_access(&self, decoded: &DecodedLicense, payload: &LicensePayload) -> (res: Result<
        (),
        String,
    >)
        ensures
            exists|now: i64, r: Result<(), LicenseError>|
                #![trigger license_outcome(*decoded, *payload, now, None, r)]
                license_outcome(*decoded, *payload, now, None, r) && client_answer(r, res),
    {
        match verify_pro_access(decoded, payload, None) {
            Ok(()) => Ok(()),
            Err(e) => Err(e.message()),
        }
    }

    /// Whether the license permits cloud simulation.
    pub fn check_cloud_sim(&self, decoded: &DecodedLicense, payload: &LicensePayload) -> (res: Result<
        (),
        String,
    >)
        ensures
            exists|now: i64, r: Result<(), LicenseError>|
                #![trigger license_outcome(*decoded, *payload, now, Some("cloud_sim"@), r)]
                license_outcome(*decoded, *payload, now, Some("cloud_sim"@), r) && client_answer(r, res),
    {
        match check_cloud_sim(decoded, payload) {
            Ok(()) => Ok(()),
            Err(e) => Err(e.message()),
        }
    }

    /// Whether the license permits model optimization.
    pub fn check_optimization(&self, decoded: &DecodedLicense, payload: &LicensePayload) -> (res:
        Result<(), String>)
        ensures
            exists|now: i64, r: Result<(), LicenseError>|
                #![trigger license_outcome(*decoded, *payload, now, Some("optimization"@), r)]
                license_outcome(*decoded, *payload, now, Some("optimization"@), r) && client_answer(r, res),
    {
        match check_optimization(decoded, payload) {
            Ok(()) => Ok(()),
            Err(e) => Err(e.message()),
        }
    }
}

/// Base64 text of the bytes decodes back to them and holds no `:`.
pub open spec fn base64_round_trips(b: Seq<u8>) -> bool {
    &&& base64_decoded(base64_encoded(b)) == Some(b)
    &&& forall|i: int| 0 <= i < base64_encoded(b).len() ==> base64_encoded(b)[i] != ':'
}

/// What assembling a license key gives: the secret must be base64 of 32
/// bytes; the key is the base64 of the payload's signature, `:`, and the
/// base64 of the payload.
pub open spec fn assemble_outcome(secret_b64: Seq<char>, payload: Seq<u8>, res: Result<String, LicenseError>) -> bool {
    match base64_decoded(secret_b64) {
        None => res matches Err(LicenseError::InvalidFormat(m)) && m@ == "Invalid secret key base64: "@
            + base64_error(secret_b64),
        Some(s) => if s.len() != 32 {
            res matches Err(LicenseError::InvalidFormat(m)) && m@ == "Invalid secret key length"@
        } else {
            &&& res matches Ok(k) && k@ == base64_encoded(ed25519_signature(s, payload)) + ":"@
                + base64_encoded(payload)
            &&& ed25519_signature(s, payload).len() == 64
            &&& base64_round_trips(ed25519_signature(s, payload))
            &&& base64_round_trips(payload)
        },
    }
}

/// Signs a payload with a base64 secret key and writes the license key.
pub fn assemble_license_key(secret_key_base64: &str, payload_json: &[u8]) -> (res: Result<
    String,
    LicenseError,
>)
    ensures
        assemble_outcome(secret_key_base64@, payload_json@, res),
{
    let secret = match base64_decode(secret_key_base64) {
        Ok(v) => v,
        Err(e) => {
            let m = String::from_str("Invalid secret key base64: ").concat(e.as_str());
            return Err(LicenseError::InvalidFormat(m));
        },
    };
    if secret.len() != 32 {
        return Err(LicenseError::InvalidFormat(String::from_str("Invalid secret key length")));
    }
    let signature = ed25519_sign(secret.as_slice(), payload_json);
    let key = base64_encode(signature.as_slice()).concat(":").concat(
        base64_encode(payload_json).as_str(),
    );
    Ok(key)
}

/// A license key written by `assemble_license_key` decodes back into the
/// signature of the payload and the payload itself; in particular it holds
/// exactly one `:`.
pub proof fn lemma_assembled_key_decodes(
    secret_b64: Seq<char>,
    payload: Seq<u8>,
    assembled: Result<String, LicenseError>,
    decoded: Result<DecodedLicense, LicenseError>,
)
    requires
        assemble_outcome(secret_b64, payload, assembled),
        assembled is Ok,
        decode_outcome(Some(assembled->Ok_0@), decoded),
    ensures
        colon_count(assembled->Ok_0@) == 1,
        decoded matches Ok(d) && d.signature@ == ed25519_signature(base64_decoded(secret_b64)->0, payload)
            && d.payload@ == payload,
{
    let s = base64_decoded(secret_b64)->0;
    let a = base64_encoded(ed25519_signature(s, payload));
    let b = base64_encoded(payload);
    let k = assembled->Ok_0@;
    assert(k == a + ":"@ + b);
    reveal_strlit(":");
    lemma_colon_free(a);
    lemma_colon_free(b);
    lemma_colon_count_concat(a + ":"@, b);
    lemma_colon_count_concat(a, ":"@);
    assert(colon_count(":"@) == 1) by {
        reveal_strlit(":");
        assert(":"@.len() == 1);
        assert(":"@.last() == ':');
        assert(colon_count(":"@.drop_last()) == 0);
    }
    assert(k[a.len() as int] == ':');
    assert forall|j: int| 0 <= j < a.len() implies k[j] != ':' by {
        assert(k[j] == a[j]);
    }
    lemma_first_colon_at(k, a.len() as int);
    assert(k.subrange(0, a.len() as int) =~= a);
    assert(k.subrange(a.len() + 1int, k.len() as int) =~= b);
}

proof fn lemma_colon_free(s: Seq<char>)
    requires
        forall|i: int| 0 <= i < s.len() ==> s[i] != ':',
    ensures
        colon_count(s) == 0,
    decreases s.len(),
{
    if s.len() > 0 {
        lemma_colon_free(s.drop_last());
    }
}

proof fn lemma_colon_count_concat(a: Seq<char>, b: Seq<char>)
    ensures
        colon_count(a + b) == colon_count(a) + colon_count(b),
    decreases b.len(),
{
    if b.len() == 0 {
        assert(a + b =~= a);
    } else {
        lemma_colon_count_concat(a, b.drop_last());
        assert((a + b).drop_last() =~= a + b.drop_last());
        assert((a + b).last() == b.last());
    }
}

/// At a given time, a license check has one outcome: any two results the
/// check can give agree on success and on the error's message.
proof fn lemma_license_outcome_unique(
    d: DecodedLicense,
    p: LicensePayload,
    now: i64,
    f: Option<Seq<char>>,
    r1: Result<(), LicenseError>,
    r2: Result<(), LicenseError>,
)
    requires
        license_outcome(d, p, now, f, r1),
        license_outcome(d, p, now, f, r2),
    ensures
        r1 is Ok <==> r2 is Ok,
        r1 matches Err(e1) ==> (r2 matches Err(e2) && license_message(e1) == license_message(e2)),
{
}

/// The dashboard's pro-access check agrees with `verify_pro_access`: at the
/// same time, it succeeds exactly when the license check does, and otherwise
/// answers with the message of the error the license check gives.
pub proof fn lemma_client_matches_verify(
    d: DecodedLicense,
    p: LicensePayload,
    now: i64,
    client_result: Result<(), LicenseError>,
    client: Result<(), String>,
    verify: Result<(), LicenseError>,
)
    requires
        license_outcome(d, p, now, None, client_result),
        client_answer(client_result, client),
        license_outcome(d, p, now, None, verify),
    ensures
        client_answer(verify, client),
{
    lemma_license_outcome_unique(d, p, now, None, client_result, verify);
}

/// A key grants a feature at time `now`, with the payload its second part
/// decodes to read as `payload`: the key is `signature:payload` in base64,
/// the signature is 64 bytes, the license has not expired, the embedded
/// public key is valid and verifies the signature over the payload bytes,
/// and the payload lists the feature.
pub open spec fn key_grants(key: Seq<char>, payload: LicensePayload, now: i64, feature: Seq<char>) -> bool {
    let p = first_colon(key);
    let sig = base64_decoded(key.subrange(0, p));
    let bytes = base64_decoded(key.subrange(p + 1, key.len() as int));
    let pk = base64_decoded("YOUR_PUBLIC_KEY_HERE"@);
    &&& key.len() > 0
    &&& colon_count(key) == 1
    &&& sig is Some && bytes is Some && sig->0.len() == 64
    &&& !(payload.expiry is Some && now > payload.expiry->0)
    &&& pk is Some && pk->0.len() == 32 && ed25519_key_valid(pk->0)
    &&& ed25519_verifies(pk->0, bytes->0, sig->0)
    &&& has_feature(payload.features@, feature)
}

/// From key to access: decoding a key and checking the decoded license for
/// a feature at time `now` succeeds exactly when the key grants the feature.
/// `payload` is what the decoded payload bytes are read as.
pub proof fn lemma_key_to_access(
    key: Seq<char>,
    decoded: Result<DecodedLicense, LicenseError>,
    payload: LicensePayload,
    now: i64,
    feature: Seq<char>,
    res: Result<(), LicenseError>,
)
    requires
        decode_outcome(Some(key), decoded),
        decoded matches Ok(d) ==> license_outcome(d, payload, now, Some(feature), res),
    ensures
        (decoded is Ok && res is Ok) <==> key_grants(key, payload, now, feature),
{
}

} // verus!
