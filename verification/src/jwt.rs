//! Signed tokens (JWTs) that give a task access to its stash and to its
//! configuration: which keys to use, what a token claims, and how a token is
//! checked again.
//!
//! Keys are held as the bytes they were loaded from (an HMAC secret, or an RSA
//! key pair in PEM form); the signing itself is the `jsonwebtoken` crate's.

use vstd::prelude::*;
use vstd::string::*;

verus! {

/// The bearer of the claims: always this scheduler.
pub open spec fn issuer_spec() -> Seq<char> {
    "waterwheel"@
}

/// The audience of a token that opens a task's stash.
pub open spec fn stash_audience_spec() -> Seq<char> {
    "waterwheel.stash"@
}

/// The audience of a token that fetches a task's or a project's configuration.
pub open spec fn config_audience_spec() -> Seq<char> {
    "waterwheel.config"@
}

/// Stash tokens and configuration tokens are made for different audiences, so
/// that one never passes for the other.
pub proof fn lemma_audiences_differ()
    ensures
        stash_audience_spec() != config_audience_spec(),
{
    reveal_strlit("waterwheel.stash");
    reveal_strlit("waterwheel.config");
    assert(stash_audience_spec().len() != config_audience_spec().len());
}

/// How long a token stays valid after it was made, in seconds.
pub open spec fn token_lifetime() -> u64 {
    300
}

pub fn issuer() -> (r: &'static str)
    ensures
        r@ == issuer_spec(),
{
    "waterwheel"
}

pub fn stash_audience() -> (r: &'static str)
    ensures
        r@ == stash_audience_spec(),
{
    "waterwheel.stash"
}

pub fn config_audience() -> (r: &'static str)
    ensures
        r@ == config_audience_spec(),
{
    "waterwheel.config"
}

/// What a token claims: who made it, for whom (`sub`, a task or project id),
/// for which service (`aud`), and until when it is valid (`exp`, seconds since
/// the Unix epoch).
#[derive(Debug, PartialEq, Eq)]
pub struct Claims {
    pub iss: String,
    pub sub: String,
    pub aud: String,
    pub exp: u64,
}

/// The signing algorithm that goes with a kind of key.
#[derive(Copy, Clone, Debug, PartialEq, Eq, Structural)]
pub enum SigningAlgorithm {
    Hs256,
    Rs256,
}

/// Where the keys come from, as the configuration gives it.
#[derive(Debug, PartialEq, Eq)]
pub struct KeySettings {
    pub hmac_secret: Option<String>,
    pub public_key: Option<String>,
    pub private_key: Option<String>,
}

/// The key source chosen from the settings: an RSA key pair in two files, or
/// an HMAC shared secret.
#[derive(Debug, PartialEq, Eq)]
pub enum KeySource {
    Rsa { public_key_file: String, private_key_file: String },
    Hmac { secret: String },
}

/// The bytes of the keys: a secret, or the PEM text of an RSA key pair.
#[derive(Debug, PartialEq, Eq)]
pub enum KeyMaterial {
    Hmac { secret: Vec<u8> },
    Rsa { public_pem: Vec<u8>, private_pem: Vec<u8> },
}

/// Why keys could not be had, or a token could not be made or accepted.
#[derive(Debug, PartialEq, Eq)]
pub enum JwtError {
    /// the settings name no usable key source; the message says what is missing
    Settings(String),
    /// a key does not parse; the message of the token library
    Key(String),
    /// the token library refused to sign or to accept a token; its message
    Token(String),
    /// an accepted token names no subject
    MissingSubject,
    /// the clock is before the Unix epoch or too far in the future
    Clock,
    /// the token is valid but was made for another subject
    Forbidden,
}

pub open spec fn missing_private_key_spec() -> Seq<char> {
    "RSA private key not set (either both public and private keys must be set, or the HMAC secret must be set)"@
}

pub open spec fn missing_secret_spec() -> Seq<char> {
    "HMAC secret set (either both public and private keys must be set, or the HMAC secret must be set)"@
}

/// Chooses where the keys come from: an RSA key pair when a public key is set
/// (then the private key must be set too), else the HMAC secret.
pub fn key_source(settings: &KeySettings) -> (r: Result<KeySource, JwtError>)
    ensures
        match settings.public_key {
            Some(public_key) => match settings.private_key {
                Some(private_key) => r matches Ok(KeySource::Rsa { public_key_file, private_key_file })
                    && public_key_file@ == public_key@ && private_key_file@ == private_key@,
                None => r matches Err(JwtError::Settings(m)) && m@ == missing_private_key_spec(),
            },
            None => match settings.hmac_secret {
                Some(secret) => r matches Ok(KeySource::Hmac { secret: s }) && s@ == secret@,
                None => r matches Err(JwtError::Settings(m)) && m@ == missing_secret_spec(),
            },
        },
{
    match &settings.public_key {
        Some(public_key) => match &settings.private_key {
            Some(private_key) => Ok(
                KeySource::Rsa { public_key_file: public_key.clone(), private_key_file: private_key.clone() },
            ),
            None => Err(JwtError::Settings(String::from_str(
                "RSA private key not set (either both public and private keys must be set, or the HMAC secret must be set)",
            ))),
        },
        None => match &settings.hmac_secret {
            Some(secret) => Ok(KeySource::Hmac { secret: secret.clone() }),
            None => Err(JwtError::Settings(String::from_str(
                "HMAC secret set (either both public and private keys must be set, or the HMAC secret must be set)",
            ))),
        },
    }
}

/// The token that `jsonwebtoken::encode` makes with an HS256 header, an HMAC
/// key of these bytes, and these claims.
pub uninterp spec fn hmac_jwt(secret: Seq<u8>, iss: Seq<char>, sub: Seq<char>, aud: Seq<char>, exp: u64) -> Seq<char>;

/// The token that `jsonwebtoken::encode` makes with an RS256 header, the RSA
/// private key in this PEM text, and these claims; `None` where the key does not
/// parse or signing with it fails.
pub uninterp spec fn rsa_jwt(private_pem: Seq<u8>, iss: Seq<char>, sub: Seq<char>, aud: Seq<char>, exp: u64) -> Option<Seq<char>>;

/// Whether `jsonwebtoken::decode` accepts this token with this key, apart from
/// the expiry time: the key is an HMAC secret (`rsa` false) or an RSA public key
/// in PEM (`rsa` true); the token's header names HS256 or RS256 to match, its
/// signature over its first two parts verifies with the key, and its claims hold
/// a numeric `exp` and pass the issuer and audience checks for `iss` and `aud`.
pub uninterp spec fn jwt_accepts(rsa: bool, key: Seq<u8>, token: Seq<char>, aud: Seq<char>, iss: Seq<char>) -> bool;

/// The `sub` claim of a token's payload, where the payload decodes and the
/// claim is a string.
pub uninterp spec fn jwt_subject(token: Seq<char>) -> Option<Seq<char>>;

/// The number of '.' in a text.
pub open spec fn dot_count(t: Seq<char>) -> nat
    decreases t.len(),
{
    if t.len() == 0 {
        0
    } else {
        dot_count(t.drop_last()) + if t.last() == '.' {
            1nat
        } else {
            0nat
        }
    }
}

/// Whether `jsonwebtoken::EncodingKey::from_rsa_pem` accepts this text.
pub uninterp spec fn rsa_private_pem_parses(pem: Seq<u8>) -> bool;

/// Whether `jsonwebtoken::DecodingKey::from_rsa_pem` accepts this text.
pub uninterp spec fn rsa_public_pem_parses(pem: Seq<u8>) -> bool;

/// A hexadecimal digit in lower case.
pub open spec fn hex_digit(v: int) -> char {
    if v < 10 {
        (48 + v) as char
    } else {
        (87 + v) as char
    }
}

/// The `k`-th hexadecimal digit of a 128-bit value, most significant first.
pub open spec fn nibble(id: u128, k: int) -> int {
    ((id >> ((4 * (31 - k)) as u128)) & 0xf) as int
}

/// The text of a UUID as `uuid::Uuid` displays it: its 32 hexadecimal digits in
/// lower case, most significant first, in groups of 8, 4, 4, 4 and 12 joined by
/// '-'.
pub open spec fn uuid_text_spec(id: u128) -> Seq<char> {
    Seq::new(
        36,
        |i: int|
            if i == 8 || i == 13 || i == 18 || i == 23 {
                '-'
            } else {
                let k = if i < 8 {
                    i
                } else if i < 13 {
                    i - 1
                } else if i < 18 {
                    i - 2
                } else if i < 23 {
                    i - 3
                } else {
                    i - 4
                };
                hex_digit(nibble(id, k))
            },
    )
}

#[verifier::external_type_specification]
#[verifier::external_body]
pub struct ExJwtLibraryError(jsonwebtoken::errors::Error);

/// Signs the claims with `jsonwebtoken::encode`, an HS256 header and
/// `EncodingKey::from_secret`. The claims go out as a JSON object with the four
/// fields in the order iss, sub, aud, exp. The crate's source shows that this
/// cannot fail: the key family matches the header, a map of strings and a
/// number always serialises, and HMAC signing returns no error. The token is named by `hmac_jwt`.
#[verifier::external_body]
fn sign_hmac(secret: &[u8], claims: &Claims) -> (r: Result<String, jsonwebtoken::errors::Error>)
    ensures
        r is Ok,
        r->Ok_0@ == hmac_jwt(secret@, claims.iss@, claims.sub@, claims.aud@, claims.exp),
{
    let mut payload = serde_json::Map::new();
    payload.insert("iss".to_owned(), serde_json::Value::from(claims.iss.as_str()));
    payload.insert("sub".to_owned(), serde_json::Value::from(claims.sub.as_str()));
    payload.insert("aud".to_owned(), serde_json::Value::from(claims.aud.as_str()));
    payload.insert("exp".to_owned(), serde_json::Value::from(claims.exp));
    let header = jsonwebtoken::Header::new(jsonwebtoken::Algorithm::HS256);
    jsonwebtoken::encode(&header, &payload, &jsonwebtoken::EncodingKey::from_secret(secret))
}

/// Signs the claims with `jsonwebtoken::encode`, an RS256 header and
/// `EncodingKey::from_rsa_pem`; the claims go out as a JSON object with the four
/// fields in the order iss, sub, aud, exp. PKCS#1 v1.5 signatures depend on the
/// key and the message alone, so the result is named by `rsa_jwt`.
#[verifier::external_body]
fn sign_rsa(private_pem: &[u8], claims: &Claims) -> (r: Result<String, jsonwebtoken::errors::Error>)
    ensures
        match rsa_jwt(private_pem@, claims.iss@, claims.sub@, claims.aud@, claims.exp) {
            Some(t) => r matches Ok(s) && s@ == t,
            None => r is Err,
        },
{
    let mut payload = serde_json::Map::new();
    payload.insert("iss".to_owned(), serde_json::Value::from(claims.iss.as_str()));
    payload.insert("sub".to_owned(), serde_json::Value::from(claims.sub.as_str()));
    payload.insert("aud".to_owned(), serde_json::Value::from(claims.aud.as_str()));
    payload.insert("exp".to_owned(), serde_json::Value::from(claims.exp));
    let key = jsonwebtoken::EncodingKey::from_rsa_pem(private_pem)?;
    jsonwebtoken::encode(&jsonwebtoken::Header::new(jsonwebtoken::Algorithm::RS256), &payload, &key)
}

/// Calls `jsonwebtoken::EncodingKey::from_rsa_pem` and keeps only whether it
/// succeeded.
#[verifier::external_body]
fn check_rsa_private_pem(pem: &[u8]) -> (r: Result<(), jsonwebtoken::errors::Error>)
    ensures
        r is Ok <==> rsa_private_pem_parses(pem@),
{
    jsonwebtoken::EncodingKey::from_rsa_pem(pem).map(|_| ())
}

/// Calls `jsonwebtoken::DecodingKey::from_rsa_pem` and keeps only whether it
/// succeeded.
#[verifier::external_body]
fn check_rsa_public_pem(pem: &[u8]) -> (r: Result<(), jsonwebtoken::errors::Error>)
    ensures
        r is Ok <==> rsa_public_pem_parses(pem@),
{
    jsonwebtoken::DecodingKey::from_rsa_pem(pem).map(|_| ())
}

/// Checks a token with `jsonwebtoken::decode` (HS256, `DecodingKey::from_secret`,
/// the given audience and issuer, the library's default expiry check with 60 s
/// of leeway) and picks the `sub` claim when it is a string. Whether a token is
/// accepted depends on the clock, so the contract states only what the crate's
/// source shows for every outcome, of tokens this library signed with the same
/// secret: one made for another audience or by another issuer is refused, and
/// one made for this audience and issuer, if accepted, gives back its subject.
/// Of any text, what the source shows of an accepted one: it is three parts
/// split by two '.' (`expect_two!` on `rsplitn`, and a header with a '.' does
/// not decode), `jwt_accepts` holds of it, and the subject given back is its
/// `sub` claim.
#[verifier::external_body]
fn hmac_subject(secret: &[u8], token: &str, audience: &str, issuer: &str) -> (r: Result<Option<String>, jsonwebtoken::errors::Error>)
    ensures
        forall|sub: Seq<char>, exp: u64|
            token@ == #[trigger] hmac_jwt(secret@, issuer@, sub, audience@, exp)
                ==> (r is Ok ==> (r->Ok_0 matches Some(s) && s@ == sub)),
        forall|iss: Seq<char>, sub: Seq<char>, aud: Seq<char>, exp: u64|
            token@ == #[trigger] hmac_jwt(secret@, iss, sub, aud, exp) && (aud != audience@ || iss != issuer@)
                ==> r is Err,
        r is Ok ==> dot_count(token@) == 2 && jwt_accepts(false, secret@, token@, audience@, issuer@),
        r matches Ok(Some(s)) ==> jwt_subject(token@) == Some(s@),
        r matches Ok(None) ==> jwt_subject(token@) is None,
{
    let mut validation = jsonwebtoken::Validation::new(jsonwebtoken::Algorithm::HS256);
    validation.set_audience(&[audience]);
    validation.set_issuer(&[issuer]);
    let key = jsonwebtoken::DecodingKey::from_secret(secret);
    let data = jsonwebtoken::decode::<serde_json::Map<String, serde_json::Value>>(token, &key, &validation)?;
    Ok(data.claims.get("sub").and_then(serde_json::Value::as_str).map(String::from))
}

/// Checks a token with `jsonwebtoken::decode` (RS256, `DecodingKey::from_rsa_pem`,
/// the given audience and issuer, the default expiry check) and picks the `sub`
/// claim when it is a string. Whether a token is accepted depends on the clock
/// and on whether the public key belongs to the signing key, which is not
/// stated. What the crate's source shows for every outcome, of a token this
/// library signed with any RSA key: one made for another audience or by another
/// issuer is refused, and one made for this audience and issuer, if accepted,
/// gives back its subject. Of any text, as for `hmac_subject`: an accepted one
/// has two '.', `jwt_accepts` holds of it with the public key, and the subject
/// given back is its `sub` claim.
#[verifier::external_body]
fn rsa_subject(public_pem: &[u8], token: &str, audience: &str, issuer: &str) -> (r: Result<Option<String>, jsonwebtoken::errors::Error>)
    ensures
        forall|private_pem: Seq<u8>, sub: Seq<char>, exp: u64|
            #[trigger] rsa_jwt(private_pem, issuer@, sub, audience@, exp) == Some(token@)
                ==> (r is Ok ==> (r->Ok_0 matches Some(s) && s@ == sub)),
        forall|private_pem: Seq<u8>, iss: Seq<char>, sub: Seq<char>, aud: Seq<char>, exp: u64|
            #[trigger] rsa_jwt(private_pem, iss, sub, aud, exp) == Some(token@) && (aud != audience@ || iss != issuer@)
                ==> r is Err,
        r is Ok ==> dot_count(token@) == 2 && jwt_accepts(true, public_pem@, token@, audience@, issuer@),
        r matches Ok(Some(s)) ==> jwt_subject(token@) == Some(s@),
        r matches Ok(None) ==> jwt_subject(token@) is None,
{
    let mut validation = jsonwebtoken::Validation::new(jsonwebtoken::Algorithm::RS256);
    validation.set_audience(&[audience]);
    validation.set_issuer(&[issuer]);
    let key = jsonwebtoken::DecodingKey::from_rsa_pem(public_pem)?;
    let data = jsonwebtoken::decode::<serde_json::Map<String, serde_json::Value>>(token, &key, &validation)?;
    Ok(data.claims.get("sub").and_then(serde_json::Value::as_str).map(String::from))
}

/// The message of a `jsonwebtoken` error (its `Display`); nothing is stated of it.
#[verifier::external_body]
fn library_error_text(e: &jsonwebtoken::errors::Error) -> (r: String) {
    e.to_string()
}

/// Reads the clock (`SystemTime::now()` since `UNIX_EPOCH`), in whole seconds;
/// `None` before the epoch. The time depends on the clock: nothing is stated.
#[verifier::external_body]
fn unix_time_secs() -> (r: Option<u64>) {
    std::time::SystemTime::now().duration_since(std::time::UNIX_EPOCH).ok().map(|d| d.as_secs())
}

/// The text of a UUID given by its 128-bit value (`uuid::Uuid::from_u128`, then
/// its `Display`, which writes the lower-case hyphenated form).
#[verifier::external_body]
pub(crate) fn uuid_text(id: u128) -> (r: String)
    ensures
        r@ == uuid_text_spec(id),
{
    uuid::Uuid::from_u128(id).to_string()
}

/// Keys ready to sign and check tokens.
#[derive(Debug, PartialEq, Eq)]
pub struct JwtKeys {
    material: KeyMaterial,
}

/// The token that keys of this material make for these claims, or `None` where
/// the private key cannot sign.
pub open spec fn token_for(material: KeyMaterial, iss: Seq<char>, sub: Seq<char>, aud: Seq<char>, exp: u64) -> Option<Seq<char>> {
    match material {
        KeyMaterial::Hmac { secret } => Some(hmac_jwt(secret@, iss, sub, aud, exp)),
        KeyMaterial::Rsa { private_pem, .. } => rsa_jwt(private_pem@, iss, sub, aud, exp),
    }
}

/// Whether `t` is a token that this library signs with keys of this material
/// for these claims: with the secret, or with any RSA private key.
pub open spec fn signed_token(material: KeyMaterial, t: Seq<char>, iss: Seq<char>, sub: Seq<char>, aud: Seq<char>, exp: u64) -> bool {
    match material {
        KeyMaterial::Hmac { secret } => t == hmac_jwt(secret@, iss, sub, aud, exp),
        KeyMaterial::Rsa { .. } => exists|p: Seq<u8>| #[trigger] rsa_jwt(p, iss, sub, aud, exp) == Some(t),
    }
}

/// Whether the token library accepts a token, apart from its expiry time, with
/// the public half of keys of this material, for this audience and issuer.
pub open spec fn accepted_by(material: KeyMaterial, t: Seq<char>, aud: Seq<char>, iss: Seq<char>) -> bool {
    match material {
        KeyMaterial::Hmac { secret } => jwt_accepts(false, secret@, t, aud, iss),
        KeyMaterial::Rsa { public_pem, .. } => jwt_accepts(true, public_pem@, t, aud, iss),
    }
}

/// A token that keys make is a token signed with their material.
pub proof fn lemma_made_tokens_are_signed(material: KeyMaterial, iss: Seq<char>, sub: Seq<char>, aud: Seq<char>, exp: u64)
    ensures
        token_for(material, iss, sub, aud, exp) matches Some(t) ==> signed_token(material, t, iss, sub, aud, exp),
{
    match material {
        KeyMaterial::Hmac { .. } => {},
        KeyMaterial::Rsa { private_pem, .. } => {
            if token_for(material, iss, sub, aud, exp) is Some {
                assert(rsa_jwt(private_pem@, iss, sub, aud, exp) == token_for(material, iss, sub, aud, exp));
            }
        },
    }
}

/// Whether keys can be made of this material: an RSA pair must parse, both
/// halves.
pub open spec fn material_loads(material: KeyMaterial) -> bool {
    match material {
        KeyMaterial::Hmac { .. } => true,
        KeyMaterial::Rsa { public_pem, private_pem } =>
            rsa_public_pem_parses(public_pem@) && rsa_private_pem_parses(private_pem@),
    }
}

impl JwtKeys {
    pub closed spec fn material(&self) -> KeyMaterial {
        self.material
    }

    pub closed spec fn wf(&self) -> bool {
        material_loads(self.material)
    }

    /// HS256 for a secret, RS256 for a key pair.
    pub fn algorithm(&self) -> (r: SigningAlgorithm)
        ensures
            r == (match self.material() {
                KeyMaterial::Hmac { .. } => SigningAlgorithm::Hs256,
                KeyMaterial::Rsa { .. } => SigningAlgorithm::Rs256,
            }),
    {
        match &self.material {
            KeyMaterial::Hmac { .. } => SigningAlgorithm::Hs256,
            KeyMaterial::Rsa { .. } => SigningAlgorithm::Rs256,
        }
    }
}

/// Makes keys from their bytes: an HMAC secret is always accepted; an RSA pair
/// is accepted when both halves parse, the public key's error coming first.
pub fn load_keys(material: KeyMaterial) -> (r: Result<JwtKeys, JwtError>)
    ensures
        material_loads(material) ==> (r matches Ok(keys) && keys.material() == material && keys.wf()),
        !material_loads(material) ==> r matches Err(JwtError::Key(_)),
{
    match &material {
        KeyMaterial::Hmac { .. } => {},
        KeyMaterial::Rsa { public_pem, private_pem } => {
            match check_rsa_public_pem(public_pem.as_slice()) {
                Ok(()) => {},
                Err(e) => return Err(JwtError::Key(library_error_text(&e))),
            }
            match check_rsa_private_pem(private_pem.as_slice()) {
                Ok(()) => {},
                Err(e) => return Err(JwtError::Key(library_error_text(&e))),
            }
        },
    }
    Ok(JwtKeys { material })
}

/// Makes HMAC keys from a shared secret.
pub fn load_hmac_secret(secret: &str) -> (r: JwtKeys)
    ensures
        r.material() matches KeyMaterial::Hmac { secret: s } && s@ == secret.spec_bytes(),
        r.wf(),
{
    JwtKeys { material: KeyMaterial::Hmac { secret: secret.as_bytes_vec() } }
}

/// The claims of a token made at `now` for a subject and an audience.
pub fn claims_at(aud: &str, sub: &str, now: u64) -> (c: Claims)
    requires
        now + token_lifetime() <= u64::MAX,
    ensures
        c.iss@ == issuer_spec(),
        c.sub@ == sub@,
        c.aud@ == aud@,
        c.exp == now + token_lifetime(),
{
    Claims {
        iss: String::from_str(issuer()),
        sub: sub.to_string(),
        aud: aud.to_string(),
        exp: now + 300,
    }
}

/// Signs a token for a subject and an audience, made at `now` and valid for five
/// minutes.
pub fn generate_jwt_at(keys: &JwtKeys, aud: &str, sub: &str, now: u64) -> (r: Result<String, JwtError>)
    requires
        now + token_lifetime() <= u64::MAX,
    ensures
        match token_for(keys.material(), issuer_spec(), sub@, aud@, (now + token_lifetime()) as u64) {
            Some(t) => r matches Ok(s) && s@ == t,
            None => r matches Err(JwtError::Token(_)),
        },
{
    let claims = claims_at(aud, sub, now);
    let signed = match &keys.material {
        KeyMaterial::Hmac { secret } => sign_hmac(secret.as_slice(), &claims),
        KeyMaterial::Rsa { private_pem, .. } => sign_rsa(private_pem.as_slice(), &claims),
    };
    match signed {
        Ok(t) => Ok(t),
        Err(e) => Err(JwtError::Token(library_error_text(&e))),
    }
}

/// Signs a token for a subject and an audience, made now and valid for five
/// minutes; refused when the clock is before the Unix epoch or so far ahead that
/// the expiry does not fit.
pub fn generate_jwt(keys: &JwtKeys, aud: &str, sub: &str) -> (r: Result<String, JwtError>)
    ensures
        r matches Ok(t) ==> exists|exp: u64|
            token_for(keys.material(), issuer_spec(), sub@, aud@, exp) == Some(t@),
        r is Err ==> (r matches Err(JwtError::Clock) || (r matches Err(JwtError::Token(_)) && exists|exp: u64|
            #[trigger] token_for(keys.material(), issuer_spec(), sub@, aud@, exp) is None)),
{
    let now = match unix_time_secs() {
        Some(now) => now,
        None => return Err(JwtError::Clock),
    };
    if now > u64::MAX - 300 {
        return Err(JwtError::Clock);
    }
    let r = generate_jwt_at(keys, aud, sub, now);
    proof {
        let exp = (now + token_lifetime()) as u64;
        if r is Ok {
            assert(token_for(keys.material(), issuer_spec(), sub@, aud@, exp) == Some(r->Ok_0@));
        } else {
            assert(token_for(keys.material(), issuer_spec(), sub@, aud@, exp) is None);
        }
    }
    r
}

/// A token that opens the stash of a task.
pub fn generate_stash_jwt(keys: &JwtKeys, task_id: &str) -> (r: Result<String, JwtError>)
    ensures
        r matches Ok(t) ==> exists|exp: u64|
            token_for(keys.material(), issuer_spec(), task_id@, stash_audience_spec(), exp) == Some(t@),
        r is Err ==> (r matches Err(JwtError::Clock) || (r matches Err(JwtError::Token(_)) && exists|exp: u64|
            #[trigger] token_for(keys.material(), issuer_spec(), task_id@, stash_audience_spec(), exp) is None)),
{
    generate_jwt(keys, stash_audience(), task_id)
}

/// A token that fetches the configuration of a task or a project.
pub fn generate_config_jwt(keys: &JwtKeys, id: u128) -> (r: Result<String, JwtError>)
    ensures
        r matches Ok(t) ==> exists|exp: u64|
            token_for(keys.material(), issuer_spec(), uuid_text_spec(id), config_audience_spec(), exp) == Some(t@),
        r is Err ==> (r matches Err(JwtError::Clock) || (r matches Err(JwtError::Token(_)) && exists|exp: u64|
            #[trigger] token_for(keys.material(), issuer_spec(), uuid_text_spec(id), config_audience_spec(), exp) is None)),
{
    let sub = uuid_text(id);
    generate_jwt(keys, config_audience(), sub.as_str())
}

/// Checks a token for an audience and gives back its subject. A token signed
/// with keys of the same material for that audience, if accepted, gives back the
/// subject it was made for; one made for another audience or issuer is refused.
/// Any accepted text is three parts that the token library accepts with the
/// keys for the audience and issuer, and the subject given back is its `sub`.
pub fn validate_jwt(keys: &JwtKeys, jwt: &str, aud: &str) -> (r: Result<String, JwtError>)
    ensures
        r matches Ok(s) ==> dot_count(jwt@) == 2 && accepted_by(keys.material(), jwt@, aud@, issuer_spec())
            && jwt_subject(jwt@) == Some(s@),
        r matches Err(JwtError::MissingSubject) ==> accepted_by(keys.material(), jwt@, aud@, issuer_spec())
            && jwt_subject(jwt@) is None,
        forall|sub: Seq<char>, exp: u64|
            #[trigger] signed_token(keys.material(), jwt@, issuer_spec(), sub, aud@, exp)
                ==> ((r is Ok ==> r->Ok_0@ == sub) && !(r matches Err(JwtError::MissingSubject))),
        r is Err ==> (r matches Err(JwtError::Token(_)) || r matches Err(JwtError::MissingSubject)),
        forall|iss2: Seq<char>, sub: Seq<char>, aud2: Seq<char>, exp: u64|
            #[trigger] signed_token(keys.material(), jwt@, iss2, sub, aud2, exp) && (aud2 != aud@ || iss2 != issuer_spec())
                ==> r is Err,
{
    let checked = match &keys.material {
        KeyMaterial::Hmac { secret } => hmac_subject(secret.as_slice(), jwt, aud, issuer()),
        KeyMaterial::Rsa { public_pem, .. } => rsa_subject(public_pem.as_slice(), jwt, aud, issuer()),
    };
    match checked {
        Ok(Some(sub)) => Ok(sub),
        Ok(None) => Err(JwtError::MissingSubject),
        Err(e) => Err(JwtError::Token(library_error_text(&e))),
    }
}

/// Checks a stash token and gives back the task it was made for; a text that
/// is no token the keys sign for the stash is refused.
pub fn validate_stash_jwt(keys: &JwtKeys, jwt: &str) -> (r: Result<String, JwtError>)
    ensures
        r matches Ok(s) ==> dot_count(jwt@) == 2 && accepted_by(keys.material(), jwt@, stash_audience_spec(), issuer_spec())
            && jwt_subject(jwt@) == Some(s@),
        forall|sub: Seq<char>, exp: u64|
            #[trigger] signed_token(keys.material(), jwt@, issuer_spec(), sub, stash_audience_spec(), exp)
                ==> ((r is Ok ==> r->Ok_0@ == sub) && !(r matches Err(JwtError::MissingSubject))),
        r is Err ==> (r matches Err(JwtError::Token(_)) || r matches Err(JwtError::MissingSubject)),
        forall|iss2: Seq<char>, sub: Seq<char>, aud2: Seq<char>, exp: u64|
            #[trigger] signed_token(keys.material(), jwt@, iss2, sub, aud2, exp) && (aud2 != stash_audience_spec() || iss2 != issuer_spec())
                ==> r is Err,
{
    validate_jwt(keys, jwt, stash_audience())
}

/// Checks a configuration token against the id it must have been made for: an
/// accepted token for another subject is forbidden.
pub fn validate_config_jwt(keys: &JwtKeys, jwt: &str, id: u128) -> (r: Result<String, JwtError>)
    ensures
        (r is Ok || (r matches Err(JwtError::Forbidden))) ==> dot_count(jwt@) == 2 && accepted_by(
            keys.material(),
            jwt@,
            config_audience_spec(),
            issuer_spec(),
        ),
        r matches Err(JwtError::Forbidden) ==> jwt_subject(jwt@) matches Some(s) && s != uuid_text_spec(id),
        r matches Ok(s) ==> jwt_subject(jwt@) == Some(s@),
        r matches Ok(s) ==> s@ == uuid_text_spec(id),
        forall|sub: Seq<char>, exp: u64|
            #[trigger] signed_token(keys.material(), jwt@, issuer_spec(), sub, config_audience_spec(), exp)
                ==> ((r is Ok ==> sub == uuid_text_spec(id)) && !(r matches Err(JwtError::MissingSubject))
                    && (sub == uuid_text_spec(id) ==> !(r matches Err(JwtError::Forbidden)))),
        r is Err ==> (r matches Err(JwtError::Token(_)) || r matches Err(JwtError::MissingSubject) || r matches Err(
            JwtError::Forbidden,
        )),
        forall|iss2: Seq<char>, sub: Seq<char>, aud2: Seq<char>, exp: u64|
            #[trigger] signed_token(keys.material(), jwt@, iss2, sub, aud2, exp) && (aud2 != config_audience_spec() || iss2 != issuer_spec())
                ==> r is Err,
{
    let sub = validate_jwt(keys, jwt, config_audience());
    match sub {
        Ok(sub) => {
            let expected = uuid_text(id);
            if crate::messages::str_eq(sub.as_str(), expected.as_str()) {
                Ok(sub)
            } else {
                Err(JwtError::Forbidden)
            }
        },
        Err(e) => Err(e),
    }
}

} // verus!
