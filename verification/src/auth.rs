//! Authentication dispatch: header classification, SDK key generation and
//! key hashing.
//!
//! A caller is classified from its `Authorization` header: a `Bearer `
//! prefix means a management token, an `srv_` or `cli_` prefix means an
//! SDK credential, anything else is unauthorized. SDK credentials are
//! stored as the SHA-256 of the full key, shown in lists only by their
//! display prefix.

use vstd::prelude::*;

use hex as hex_crate;
use rand::Rng;
use sha2::Digest;

use crate::strutil::str_eq;

verus! {

use vstd::string::StrSliceExecFns;
use vstd::string::StringExecFns;
use vstd::string::StringSliceAdditionalSpecFns;
use vstd::utf8::encode_utf8;

/// The lowercase hex SHA-256 digest of a byte sequence.
pub uninterp spec fn sha256_hex(bytes: Seq<u8>) -> Seq<char>;

/// The lowercase hex digit for a value below sixteen.
pub open spec fn hex_digit_char(d: u8) -> char
    recommends
        d < 16,
{
    if d < 10 {
        ((48 + d) as u8) as char
    } else {
        ((87 + d) as u8) as char
    }
}

/// The lowercase hex text of a byte sequence: two digits per byte, high
/// nibble first.
pub open spec fn hex_of(bytes: Seq<u8>) -> Seq<char>
    decreases bytes.len(),
{
    if bytes.len() == 0 {
        Seq::empty()
    } else {
        seq![hex_digit_char(bytes[0] / 16), hex_digit_char(bytes[0] % 16)] + hex_of(
            bytes.drop_first(),
        )
    }
}

/// A lowercase hex digit.
pub open spec fn is_hex_char(c: char) -> bool {
    ('0' <= c && c <= '9') || ('a' <= c && c <= 'f')
}

/// Every character of a hex text is a lowercase hex digit.
pub proof fn lemma_hex_of_chars(bytes: Seq<u8>)
    ensures
        hex_of(bytes).len() == 2 * bytes.len(),
        forall|i: int| 0 <= i < hex_of(bytes).len() ==> is_hex_char(#[trigger] hex_of(bytes)[i]),
    decreases bytes.len(),
{
    if bytes.len() == 0 {
    } else {
        lemma_hex_of_chars(bytes.drop_first());
        let hi = hex_digit_char(bytes[0] / 16);
        let lo = hex_digit_char(bytes[0] % 16);
        assert(is_hex_char(hi));
        assert(is_hex_char(lo));
        let rest = hex_of(bytes.drop_first());
        assert(hex_of(bytes) == seq![hi, lo] + rest);
        assert(hex_of(bytes)[0] == hi);
        assert(hex_of(bytes)[1] == lo);
        assert(forall|i: int|
            2 <= i < hex_of(bytes).len() ==> #[trigger] hex_of(bytes)[i] == rest[i - 2]);
    }
}

/// Relies on sha2::Sha256 (Digest::update, Digest::finalize) and
/// hex::encode: the digest and its lowercase hex text depend on the input
/// bytes alone; the digest is 32 bytes, so its hex text is 64 characters.
#[verifier::external_body]
fn sha256_hex_of(bytes: &[u8]) -> (r: String)
    ensures
        r@ == sha256_hex(bytes@),
        r@.len() == 64,
{
    let mut h = sha2::Sha256::new();
    h.update(bytes);
    hex_crate::encode(h.finalize())
}

/// Relies on hex::encode: exactly two lowercase hex digits for each input
/// byte, high nibble first.
#[verifier::external_body]
fn hex_lower_of(bytes: &[u8]) -> (r: String)
    ensures
        r@ == hex_of(bytes@),
        r@.len() == 2 * bytes@.len(),
{
    hex_crate::encode(bytes)
}

/// Relies on rand::thread_rng and rand::Rng::gen: one byte of entropy;
/// nothing is assumed about its value.
#[verifier::external_body]
fn random_byte() -> u8 {
    rand::thread_rng().gen()
}

/// Hash an SDK key for storage: the lowercase hex SHA-256 of its UTF-8
/// bytes.
pub fn hash_key(key: &str) -> (r: String)
    ensures
        r@ == sha256_hex(key.spec_bytes()),
        r@.len() == 64,
{
    sha256_hex_of(key.as_bytes())
}

/// Generate a new SDK key with the given prefix.
///
/// Returns `(full_key, key_hash, key_prefix)`: the full key is the prefix
/// followed by the lowercase hex text of 32 bytes of entropy and is shown
/// exactly once; the hash is the SHA-256 of the full key as stored; the
/// display prefix is the first `prefix length + 8` characters of the full
/// key.
pub fn generate_sdk_key(prefix: &str) -> (r: (String, String, String))
    ensures
        r.0@.len() == prefix@.len() + 64,
        r.0@.subrange(0, prefix@.len() as int) == prefix@,
        exists|b: Seq<u8>| b.len() == 32 && r.0@ == prefix@ + hex_of(b),
        forall|i: int| prefix@.len() <= i < r.0@.len() ==> is_hex_char(#[trigger] r.0@[i]),
        r.1@ == sha256_hex(encode_utf8(r.0@)),
        r.1@.len() == 64,
        r.2@ == r.0@.subrange(0, prefix@.len() as int + 8),
{
    let mut body_bytes: Vec<u8> = Vec::new();
    let mut i: usize = 0;
    while i < 32
        invariant
            i <= 32,
            body_bytes@.len() == i,
        decreases 32 - i,
    {
        body_bytes.push(random_byte());
        i = i + 1;
    }
    let body: String = hex_lower_of(body_bytes.as_slice());
    let mut full_key: String = String::from_str(prefix);
    full_key.append(body.as_str());
    let key_hash: String = hash_key(full_key.as_str());
    let mut key_prefix: String = String::from_str(prefix);
    key_prefix.append(body.as_str().substring_char(0, 8));
    proof {
        assert(full_key@.subrange(0, prefix@.len() as int) =~= prefix@);
        assert(key_prefix@ =~= full_key@.subrange(0, prefix@.len() as int + 8));
        assert(full_key@ =~= prefix@ + hex_of(body_bytes@));
        lemma_hex_of_chars(body_bytes@);
        assert(forall|i: int|
            prefix@.len() <= i < full_key@.len() ==> #[trigger] full_key@[i] == hex_of(
                body_bytes@,
            )[i - prefix@.len()]);
    }
    (full_key, key_hash, key_prefix)
}

/// The classification of an `Authorization` header.
pub enum AuthClass {
    /// A management token: what follows `Bearer `.
    Bearer(String),
    /// An SDK credential: the whole header value is the key.
    SdkKey,
    /// Anything else: unauthorized.
    Invalid,
}

/// The model of a header classification.
pub enum AuthClassV {
    Bearer(Seq<char>),
    SdkKey,
    Invalid,
}

impl View for AuthClass {
    type V = AuthClassV;

    open spec fn view(&self) -> AuthClassV {
        match self {
            AuthClass::Bearer(t) => AuthClassV::Bearer(t@),
            AuthClass::SdkKey => AuthClassV::SdkKey,
            AuthClass::Invalid => AuthClassV::Invalid,
        }
    }
}

/// Classification of an `Authorization` header value: a `Bearer ` prefix
/// carries the token that follows it; an `srv_` or `cli_` prefix is an SDK
/// credential; anything else is unauthorized.
pub open spec fn spec_classify(h: Seq<char>) -> AuthClassV {
    if h.len() >= 7 && h.subrange(0, 7) == "Bearer "@ {
        AuthClassV::Bearer(h.skip(7))
    } else if h.len() >= 4 && (h.subrange(0, 4) == "srv_"@ || h.subrange(0, 4) == "cli_"@) {
        AuthClassV::SdkKey
    } else {
        AuthClassV::Invalid
    }
}

/// Classify an `Authorization` header value.
pub fn classify_auth_header(header: &str) -> (r: AuthClass)
    ensures
        r@ == spec_classify(header@),
{
    let n: usize = header.unicode_len();
    if n >= 7 {
        let head: &str = header.substring_char(0, 7);
        if str_eq(head, "Bearer ") {
            let token: &str = header.substring_char(7, n);
            proof {
                assert(token@ =~= header@.skip(7));
            }
            return AuthClass::Bearer(String::from_str(token));
        }
    }
    if n >= 4 {
        let head: &str = header.substring_char(0, 4);
        if str_eq(head, "srv_") || str_eq(head, "cli_") {
            return AuthClass::SdkKey;
        }
    }
    AuthClass::Invalid
}

/// The key prefix for a requested credential type: `cli_` for client
/// keys, `srv_` for anything else.
pub fn key_prefix_for_type(key_type: &str) -> (p: &'static str)
    ensures
        key_type@ == "client"@ ==> p@ == "cli_"@,
        key_type@ != "client"@ ==> p@ == "srv_"@,
{
    if str_eq(key_type, "client") {
        "cli_"
    } else {
        "srv_"
    }
}

/// The kind of principal a request carries once authenticated.
#[derive(Debug, Clone, Copy, PartialEq, Eq, Structural)]
pub enum PrincipalKind {
    /// A management user verified from a bearer token.
    User,
    /// An SDK credential scoped to one environment.
    SdkCredential,
}

/// The kind of route being dispatched.
#[derive(Debug, Clone, Copy, PartialEq, Eq, Structural)]
pub enum RouteClass {
    /// Health and bootstrap: no authentication at all.
    Public,
    /// The management API: either principal kind.
    Management,
    /// Evaluation and streaming: SDK credentials only.
    Evaluation,
}

/// Whether a principal may use a route: public routes skip authentication,
/// management routes accept either principal kind, and evaluation and
/// streaming routes accept only SDK credentials.
pub fn principal_allowed(route: RouteClass, principal: PrincipalKind) -> (r: bool)
    ensures
        r == match route {
            RouteClass::Public => true,
            RouteClass::Management => true,
            RouteClass::Evaluation => principal is SdkCredential,
        },
{
    match route {
        RouteClass::Public => true,
        RouteClass::Management => true,
        RouteClass::Evaluation => match principal {
            PrincipalKind::SdkCredential => true,
            PrincipalKind::User => false,
        },
    }
}

} // verus!
