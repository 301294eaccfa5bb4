//! WebAuthn/FIDO2 registration and authentication ceremonies, including
//! backup (secondary) authenticators.
//!
//! Challenges are single-use (a completed or failed ceremony consumes its
//! session) and expire after `CHALLENGE_TTL_SECS`. The signature counter
//! must increase on every authentication, which detects cloned
//! authenticators; authenticators that always report 0 are exempt.
use vstd::prelude::*;
use base64::Engine as _;
use rand::RngCore;
use crate::clock::{utc_now, Timestamp};
use crate::strmap::StrMap;
use crate::text::{clone_opt_string, str_eq};

verus! {

/// Seconds before a pending challenge expires.
pub const CHALLENGE_TTL_SECS: u64 = 300;

/// Minimum length (bytes) of a decoded credential ID.
pub const MIN_CREDENTIAL_ID_LEN: usize = 16;

// ---------------------------------------------------------------------------
// Outside calls
// ---------------------------------------------------------------------------

/// What base64url (URL-safe alphabet, no padding) encoding gives.
pub uninterp spec fn b64url_encoding(data: Seq<u8>) -> Seq<char>;

/// What base64url (URL-safe alphabet, no padding) decoding gives; `None`
/// for text that is not such an encoding.
pub uninterp spec fn b64url_decoding(text: Seq<char>) -> Option<Seq<u8>>;

/// The `type`, `challenge` and `origin` string fields of a client data
/// JSON document; `None` when the bytes are not JSON.
pub uninterp spec fn client_data_fields(raw: Seq<u8>) -> Option<
    (Option<Seq<char>>, Option<Seq<char>>, Option<Seq<char>>),
>;

/// `base64::DecodeError`.
#[verifier::external_type_specification]
#[verifier::external_body]
pub struct ExDecodeError(base64::DecodeError);

/// `URL_SAFE_NO_PAD.encode` of the base64 crate.
///
/// Trusted: the result is a function of the bytes alone, named
/// `b64url_encoding`. The crate panics only when the encoded length
/// overflows `usize`, which no slice (at most `isize::MAX` bytes) reaches.
#[verifier::external_body]
fn b64url_encode(data: &[u8]) -> (r: String)
    ensures
        r@ == b64url_encoding(data@),
{
    base64::engine::general_purpose::URL_SAFE_NO_PAD.encode(data)
}

/// `URL_SAFE_NO_PAD.decode` of the base64 crate.
///
/// Trusted: the outcome is a function of the text alone, named
/// `b64url_decoding` (`Err` exactly where it is `None`).
#[verifier::external_body]
fn b64url_decode(s: &str) -> (r: Result<Vec<u8>, base64::DecodeError>)
    ensures
        match r {
            Ok(v) => b64url_decoding(s@) == Some(v@),
            Err(_) => b64url_decoding(s@) is None,
        },
{
    base64::engine::general_purpose::URL_SAFE_NO_PAD.decode(s)
}

/// The string fields of a client data document.
pub struct ClientData {
    pub kind: Option<String>,
    pub challenge: Option<String>,
    pub origin: Option<String>,
}

/// The view of an optional string.
pub open spec fn opt_view(o: Option<String>) -> Option<Seq<char>> {
    match o {
        Some(s) => Some(s@),
        None => None,
    }
}

/// `serde_json::from_slice` into a `serde_json::Value`, then the `type`,
/// `challenge` and `origin` fields of it that are strings.
///
/// Trusted: parsing is a function of the bytes alone, named
/// `client_data_fields` (`None` where serde_json refuses the bytes).
#[verifier::external_body]
fn parse_client_data(raw: &[u8]) -> (r: Option<ClientData>)
    ensures
        match r {
            Some(c) => client_data_fields(raw@) == Some(
                (opt_view(c.kind), opt_view(c.challenge), opt_view(c.origin)),
            ),
            None => client_data_fields(raw@) is None,
        },
{
    let v: serde_json::Value = serde_json::from_slice(raw).ok()?;
    let field = |k: &str| v.get(k).and_then(|x| x.as_str()).map(|x| x.to_string());
    Some(ClientData { kind: field("type"), challenge: field("challenge"), origin: field("origin") })
}

/// 32 random bytes from `rand::thread_rng`.
///
/// Trusted: `fill_bytes` overwrites the whole 32-byte buffer; which bytes
/// come out is the generator's. `thread_rng` panics if the operating
/// system cannot seed it, whatever the call.
#[verifier::external_body]
fn generate_challenge() -> (r: Vec<u8>)
    ensures
        r@.len() == 32,
{
    let mut bytes = vec![0u8; 32];
    rand::thread_rng().fill_bytes(&mut bytes);
    bytes
}

/// Seconds since the Unix epoch by `SystemTime::now`, `None` when the
/// clock stands before the epoch.
///
/// Trusted: nothing is stated of the value, which is the clock's.
#[verifier::external_body]
fn secs_since_unix_epoch() -> (r: Option<u64>) {
    std::time::SystemTime::now().duration_since(std::time::UNIX_EPOCH).ok().map(|d| d.as_secs())
}

/// Current Unix time in seconds (0 when the clock stands before the
/// epoch).
pub fn now_secs() -> (r: u64) {
    match secs_since_unix_epoch() {
        Some(s) => s,
        None => 0,
    }
}

// ---------------------------------------------------------------------------
// Data types
// ---------------------------------------------------------------------------

/// COSE algorithm identifiers supported by this server.
#[derive(Copy, Clone, Debug, PartialEq, Eq, Structural)]
pub enum CoseAlgorithm {
    /// ECDSA with SHA-256.
    ES256,
    /// RSASSA-PKCS1-v1_5 with SHA-256.
    RS256,
    /// EdDSA (Ed25519).
    EdDsa,
}

impl CoseAlgorithm {
    /// The COSE identifier of the algorithm.
    pub fn cose_id(self) -> (id: i32)
        ensures
            id == match self {
                CoseAlgorithm::ES256 => -7i32,
                CoseAlgorithm::RS256 => -257i32,
                CoseAlgorithm::EdDsa => -8i32,
            },
    {
        match self {
            CoseAlgorithm::ES256 => -7,
            CoseAlgorithm::RS256 => -257,
            CoseAlgorithm::EdDsa => -8,
        }
    }
}

/// A stored WebAuthn credential.
#[derive(Debug)]
pub struct StoredCredential {
    /// Base64url credential ID from the authenticator.
    pub credential_id: String,
    pub user_id: String,
    /// Base64url public key blob.
    pub public_key: String,
    pub algorithm: CoseAlgorithm,
    /// Signature counter reported at the last authentication.
    pub sign_count: u32,
    /// Whether this is a backup / recovery authenticator.
    pub is_backup: bool,
    pub label: Option<String>,
    pub aaguid: Option<String>,
    pub created_at: Timestamp,
    pub last_used_at: Option<Timestamp>,
}

impl Clone for StoredCredential {
    fn clone(&self) -> (r: Self)
        ensures
            r == *self,
    {
        StoredCredential {
            credential_id: self.credential_id.clone(),
            user_id: self.user_id.clone(),
            public_key: self.public_key.clone(),
            algorithm: self.algorithm,
            sign_count: self.sign_count,
            is_backup: self.is_backup,
            label: clone_opt_string(&self.label),
            aaguid: clone_opt_string(&self.aaguid),
            created_at: self.created_at,
            last_used_at: self.last_used_at,
        }
    }
}

/// A pending registration challenge.
#[derive(Debug)]
pub struct PendingRegistration {
    pub challenge: Vec<u8>,
    pub user_id: String,
    pub user_name: String,
    pub expires_at: u64,
}

/// Abstract value of a pending registration.
pub struct PendingRegistrationView {
    pub challenge: Seq<u8>,
    pub user_id: Seq<char>,
    pub user_name: Seq<char>,
    pub expires_at: u64,
}

impl View for PendingRegistration {
    type V = PendingRegistrationView;

    open spec fn view(&self) -> PendingRegistrationView {
        PendingRegistrationView {
            challenge: self.challenge@,
            user_id: self.user_id@,
            user_name: self.user_name@,
            expires_at: self.expires_at,
        }
    }
}

/// A pending authentication challenge.
#[derive(Debug)]
pub struct PendingAuthentication {
    pub challenge: Vec<u8>,
    pub user_id: String,
    pub expires_at: u64,
}

/// Abstract value of a pending authentication.
pub struct PendingAuthenticationView {
    pub challenge: Seq<u8>,
    pub user_id: Seq<char>,
    pub expires_at: u64,
}

impl View for PendingAuthentication {
    type V = PendingAuthenticationView;

    open spec fn view(&self) -> PendingAuthenticationView {
        PendingAuthenticationView {
            challenge: self.challenge@,
            user_id: self.user_id@,
            expires_at: self.expires_at,
        }
    }
}

/// Credentials per user ID.
pub type CredentialStore = StrMap<Vec<StoredCredential>>;

/// Request to begin a registration.
#[derive(Debug)]
pub struct BeginRegistrationRequest {
    pub user_id: String,
    pub user_name: String,
    pub label: Option<String>,
    pub is_backup: bool,
}

/// Relying party identity.
#[derive(Debug)]
pub struct RpInfo {
    pub id: String,
    pub name: String,
}

/// User identity sent to the authenticator.
#[derive(Debug)]
pub struct UserInfo {
    /// Base64url user handle.
    pub id: String,
    pub name: String,
    pub display_name: String,
}

/// An accepted public key algorithm.
#[derive(Debug)]
pub struct PubKeyCredParam {
    pub kind: String,
    pub alg: i32,
}

/// Options for a new registration.
#[derive(Debug)]
pub struct BeginRegistrationResponse {
    /// Session token correlating begin and complete.
    pub session_id: String,
    pub rp: RpInfo,
    pub user: UserInfo,
    /// Base64url random challenge.
    pub challenge: String,
    pub pub_key_cred_params: Vec<PubKeyCredParam>,
    pub timeout_ms: u32,
    pub attestation: String,
}

/// The authenticator's answer to a registration.
#[derive(Debug)]
pub struct CompleteRegistrationRequest {
    pub session_id: String,
    /// Base64url credential ID.
    pub credential_id: String,
    /// Base64url client data JSON.
    pub client_data_json: String,
    /// Base64url attestation object.
    pub attestation_object: String,
    pub label: Option<String>,
    pub is_backup: bool,
}

/// A completed registration.
#[derive(Debug)]
pub struct CompleteRegistrationResponse {
    pub credential_id: String,
    pub user_id: String,
    pub is_backup: bool,
    pub label: Option<String>,
    pub created_at: Timestamp,
}

/// Request to begin an authentication.
#[derive(Debug)]
pub struct BeginAuthenticationRequest {
    pub user_id: String,
}

/// A credential the authenticator may use.
#[derive(Debug)]
pub struct AllowCredential {
    pub kind: String,
    pub id: String,
}

/// Options for a new authentication.
#[derive(Debug)]
pub struct BeginAuthenticationResponse {
    pub session_id: String,
    pub challenge: String,
    pub timeout_ms: u32,
    pub rp_id: String,
    pub allow_credentials: Vec<AllowCredential>,
    pub user_verification: String,
}

/// The authenticator's answer to an authentication.
#[derive(Debug)]
pub struct CompleteAuthenticationRequest {
    pub session_id: String,
    pub credential_id: String,
    pub client_data_json: String,
    /// Base64url authenticator data.
    pub authenticator_data: String,
    /// Base64url signature.
    pub signature: String,
}

/// A completed authentication.
#[derive(Debug)]
pub struct CompleteAuthenticationResponse {
    pub user_id: String,
    pub credential_id: String,
    pub sign_count: u32,
    pub authenticated_at: Timestamp,
}

/// Request to add a backup authenticator.
#[derive(Debug)]
pub struct AddBackupAuthenticatorRequest {
    pub user_id: String,
    pub label: Option<String>,
}

/// What adding a backup authenticator did.
#[derive(Debug)]
pub enum BackupAuthenticatorOutcome {
    /// The credential existed and is now marked as a backup.
    MarkedAsBackup { credential_id: String },
    /// The credential is not registered: a backup registration challenge
    /// was issued.
    RegistrationIssued { session_id: String, challenge: String },
}

/// Why a ceremony step is refused.
#[derive(Copy, Clone, Debug, PartialEq, Eq, Structural)]
pub enum WebAuthnError {
    EmptyUserId,
    EmptyUserName,
    UnknownSession,
    RegistrationExpired,
    AuthenticationExpired,
    InvalidCredentialIdEncoding,
    CredentialIdTooShort,
    InvalidClientDataEncoding,
    ClientDataNotJson,
    UnexpectedClientDataType,
    ChallengeMismatch,
    OriginMismatch,
    InvalidAttestationEncoding,
    CredentialAlreadyRegistered,
    NoCredentialsRegistered,
    InvalidAuthenticatorDataEncoding,
    InvalidSignatureEncoding,
    EmptySignature,
    NoCredentialsForUser,
    CredentialNotFound,
    CloneDetected,
    UserNotFound,
    LastCredential,
}

impl WebAuthnError {
    /// HTTP status of the refusal.
    pub fn status(&self) -> (s: u16)
        ensures
            s == match *self {
                WebAuthnError::EmptyUserId | WebAuthnError::EmptyUserName => 422u16,
                WebAuthnError::CredentialAlreadyRegistered | WebAuthnError::LastCredential => 409u16,
                WebAuthnError::NoCredentialsRegistered | WebAuthnError::NoCredentialsForUser
                | WebAuthnError::CredentialNotFound | WebAuthnError::UserNotFound => 404u16,
                WebAuthnError::CloneDetected => 403u16,
                _ => 400u16,
            },
    {
        match self {
            WebAuthnError::EmptyUserId | WebAuthnError::EmptyUserName => 422,
            WebAuthnError::CredentialAlreadyRegistered | WebAuthnError::LastCredential => 409,
            WebAuthnError::NoCredentialsRegistered | WebAuthnError::NoCredentialsForUser
            | WebAuthnError::CredentialNotFound | WebAuthnError::UserNotFound => 404,
            WebAuthnError::CloneDetected => 403,
            _ => 400,
        }
    }

    /// The message of each error.
    pub open spec fn message_text(&self) -> Seq<char> {
        match *self {
            WebAuthnError::EmptyUserId => "user_id must not be empty"@,
            WebAuthnError::EmptyUserName => "user_name must not be empty"@,
            WebAuthnError::UnknownSession => "unknown or expired session"@,
            WebAuthnError::RegistrationExpired => "registration challenge expired"@,
            WebAuthnError::AuthenticationExpired => "authentication challenge expired"@,
            WebAuthnError::InvalidCredentialIdEncoding => "invalid credential_id encoding"@,
            WebAuthnError::CredentialIdTooShort => "credential_id too short"@,
            WebAuthnError::InvalidClientDataEncoding => "invalid client_data_json encoding"@,
            WebAuthnError::ClientDataNotJson => "client_data_json is not valid JSON"@,
            WebAuthnError::UnexpectedClientDataType => "unexpected client data type"@,
            WebAuthnError::ChallengeMismatch => "challenge mismatch"@,
            WebAuthnError::OriginMismatch => "origin mismatch"@,
            WebAuthnError::InvalidAttestationEncoding => "invalid attestation_object encoding"@,
            WebAuthnError::CredentialAlreadyRegistered => "credential already registered"@,
            WebAuthnError::NoCredentialsRegistered => "no credentials registered for this user"@,
            WebAuthnError::InvalidAuthenticatorDataEncoding => "invalid authenticator_data encoding"@,
            WebAuthnError::InvalidSignatureEncoding => "invalid signature encoding"@,
            WebAuthnError::EmptySignature => "signature must not be empty"@,
            WebAuthnError::NoCredentialsForUser => "no credentials for user"@,
            WebAuthnError::CredentialNotFound => "credential not found"@,
            WebAuthnError::CloneDetected => "authenticator clone detected: sign count did not increase"@,
            WebAuthnError::UserNotFound => "user not found"@,
            WebAuthnError::LastCredential => "cannot remove the last credential for a user"@,
        }
    }

    /// The error message sent back.
    pub fn message(&self) -> (m: String)
        ensures
            m@ == self.message_text(),
    {
        let s = match self {
            WebAuthnError::EmptyUserId => "user_id must not be empty",
            WebAuthnError::EmptyUserName => "user_name must not be empty",
            WebAuthnError::UnknownSession => "unknown or expired session",
            WebAuthnError::RegistrationExpired => "registration challenge expired",
            WebAuthnError::AuthenticationExpired => "authentication challenge expired",
            WebAuthnError::InvalidCredentialIdEncoding => "invalid credential_id encoding",
            WebAuthnError::CredentialIdTooShort => "credential_id too short",
            WebAuthnError::InvalidClientDataEncoding => "invalid client_data_json encoding",
            WebAuthnError::ClientDataNotJson => "client_data_json is not valid JSON",
            WebAuthnError::UnexpectedClientDataType => "unexpected client data type",
            WebAuthnError::ChallengeMismatch => "challenge mismatch",
            WebAuthnError::OriginMismatch => "origin mismatch",
            WebAuthnError::InvalidAttestationEncoding => "invalid attestation_object encoding",
            WebAuthnError::CredentialAlreadyRegistered => "credential already registered",
            WebAuthnError::NoCredentialsRegistered => "no credentials registered for this user",
            WebAuthnError::InvalidAuthenticatorDataEncoding => "invalid authenticator_data encoding",
            WebAuthnError::InvalidSignatureEncoding => "invalid signature encoding",
            WebAuthnError::EmptySignature => "signature must not be empty",
            WebAuthnError::NoCredentialsForUser => "no credentials for user",
            WebAuthnError::CredentialNotFound => "credential not found",
            WebAuthnError::CloneDetected => "authenticator clone detected: sign count did not increase",
            WebAuthnError::UserNotFound => "user not found",
            WebAuthnError::LastCredential => "cannot remove the last credential for a user",
        };
        String::from_str(s)
    }
}

// ---------------------------------------------------------------------------
// Specification helpers
// ---------------------------------------------------------------------------

/// An optional string, or the empty string.
pub open spec fn or_empty(o: Option<Seq<char>>) -> Seq<char> {
    match o {
        Some(s) => s,
        None => Seq::empty(),
    }
}

/// The first client-data check that fails, if any: the document must
/// decode and parse, have the expected `type`, echo the base64url of the
/// challenge, and come from the relying party's origin.
pub open spec fn client_data_error(
    encoded: Seq<char>,
    expected_type: Seq<char>,
    challenge: Seq<u8>,
    origin: Seq<char>,
) -> Option<WebAuthnError> {
    match b64url_decoding(encoded) {
        None => Some(WebAuthnError::InvalidClientDataEncoding),
        Some(raw) => match client_data_fields(raw) {
            None => Some(WebAuthnError::ClientDataNotJson),
            Some(f) => if f.0 != Some(expected_type) {
                Some(WebAuthnError::UnexpectedClientDataType)
            } else if or_empty(f.1) != b64url_encoding(challenge) {
                Some(WebAuthnError::ChallengeMismatch)
            } else if or_empty(f.2) != origin {
                Some(WebAuthnError::OriginMismatch)
            } else {
                None
            },
        },
    }
}

/// The credentials of a user (none when the user has no entry).
pub open spec fn creds_of(creds: Map<Seq<char>, Seq<StoredCredential>>, user: Seq<char>) -> Seq<
    StoredCredential,
> {
    if creds.contains_key(user) {
        creds[user]
    } else {
        Seq::empty()
    }
}

/// Whether some user holds a credential with this ID.
pub open spec fn credential_registered(creds: Map<Seq<char>, Seq<StoredCredential>>, id: Seq<char>) -> bool {
    exists|u: Seq<char>, i: int|
        #![trigger creds[u][i]]
        creds.contains_key(u) && 0 <= i < creds[u].len() && creds[u][i].credential_id@ == id
}

/// The position of the first credential with this ID, if any.
pub open spec fn first_match(creds: Seq<StoredCredential>, id: Seq<char>) -> Option<int> {
    if exists|i: int| 0 <= i < creds.len() && #[trigger] creds[i].credential_id@ == id {
        Some(
            choose|i: int|
                0 <= i < creds.len() && #[trigger] creds[i].credential_id@ == id && forall|j: int|
                    0 <= j < i ==> creds[j].credential_id@ != id,
        )
    } else {
        None
    }
}

/// The signature counter in authenticator data: big-endian bytes 33..37,
/// or 0 when the data is shorter.
pub open spec fn sign_count_of(auth_data: Seq<u8>) -> u32 {
    if auth_data.len() >= 37 {
        (auth_data[33] as int * 0x1000000 + auth_data[34] as int * 0x10000 + auth_data[35] as int
            * 0x100 + auth_data[36] as int) as u32
    } else {
        0
    }
}

/// Whether a new counter value passes the clone check against the stored
/// one: it is 0 (authenticator without counter) or above the stored one.
pub open spec fn counter_accepted(new_count: u32, stored: u32) -> bool {
    new_count == 0 || new_count > stored
}

/// When a challenge issued at `now` expires (saturating at the largest
/// time).
pub open spec fn expiry(now: u64) -> u64 {
    if now + CHALLENGE_TTL_SECS > u64::MAX {
        u64::MAX
    } else {
        (now + CHALLENGE_TTL_SECS) as u64
    }
}

/// The label a new credential gets.
pub open spec fn registration_label(label: Option<String>, is_backup: bool) -> Option<Seq<char>> {
    match label {
        Some(l) => Some(l@),
        None => if is_backup {
            Some("Backup Authenticator"@)
        } else {
            None
        },
    }
}

// ---------------------------------------------------------------------------
// Server state
// ---------------------------------------------------------------------------

/// WebAuthn server state: credentials, pending ceremonies and the relying
/// party's identity.
#[derive(Debug)]
pub struct WebAuthnState {
    pub credentials: CredentialStore,
    pending_registrations: StrMap<PendingRegistration>,
    pending_authentications: StrMap<PendingAuthentication>,
    /// Relying party ID (e.g. "example.com").
    pub rp_id: String,
    /// Relying party display name.
    pub rp_name: String,
    /// Origin used for validation (e.g. "https://example.com").
    pub origin: String,
}

impl WebAuthnState {
    /// The maps are well formed.
    pub closed spec fn wf(&self) -> bool {
        &&& self.credentials.wf()
        &&& self.pending_registrations.wf()
        &&& self.pending_authentications.wf()
    }

    /// Credentials by user ID.
    pub closed spec fn creds(&self) -> Map<Seq<char>, Seq<StoredCredential>> {
        self.credentials@
    }

    /// The relying party's ID.
    pub closed spec fn rp_id_value(&self) -> String {
        self.rp_id
    }

    /// The relying party's display name.
    pub closed spec fn rp_name_value(&self) -> String {
        self.rp_name
    }

    /// The relying party's origin.
    pub closed spec fn origin_value(&self) -> String {
        self.origin
    }

    /// Pending registrations by session ID.
    pub closed spec fn registrations(&self) -> Map<Seq<char>, PendingRegistrationView> {
        self.pending_registrations@
    }

    /// Pending authentications by session ID.
    pub closed spec fn authentications(&self) -> Map<Seq<char>, PendingAuthenticationView> {
        self.pending_authentications@
    }

    /// A state with no credentials and no pending ceremonies.
    pub fn new(rp_id: String, rp_name: String, origin: String) -> (s: Self)
        ensures
            s.wf(),
            s.creds() == Map::<Seq<char>, Seq<StoredCredential>>::empty(),
            s.registrations() == Map::<Seq<char>, PendingRegistrationView>::empty(),
            s.authentications() == Map::<Seq<char>, PendingAuthenticationView>::empty(),
            s.rp_id_value() == rp_id,
            s.rp_name_value() == rp_name,
            s.origin_value() == origin,
    {
        WebAuthnState {
            credentials: StrMap::new(),
            pending_registrations: StrMap::new(),
            pending_authentications: StrMap::new(),
            rp_id,
            rp_name,
            origin,
        }
    }

    /// A state from configuration values, with the defaults `localhost`,
    /// `Ethos Protocol` and `http://localhost:3000` for missing ones.
    pub fn from_settings(rp_id: Option<String>, rp_name: Option<String>, origin: Option<String>) -> (s:
        Self)
        ensures
            s.wf(),
            s.creds() == Map::<Seq<char>, Seq<StoredCredential>>::empty(),
            s.registrations() == Map::<Seq<char>, PendingRegistrationView>::empty(),
            s.authentications() == Map::<Seq<char>, PendingAuthenticationView>::empty(),
            s.rp_id_value()@ == or_empty(opt_view(rp_id)) || (rp_id is None && s.rp_id_value()@ == "localhost"@),
            s.rp_name_value()@ == or_empty(opt_view(rp_name)) || (rp_name is None && s.rp_name_value()@
                == "Ethos Protocol"@),
            s.origin_value()@ == or_empty(opt_view(origin)) || (origin is None && s.origin_value()@
                == "http://localhost:3000"@),
            rp_id is Some ==> s.rp_id_value()@ == rp_id->0@,
            rp_name is Some ==> s.rp_name_value()@ == rp_name->0@,
            origin is Some ==> s.origin_value()@ == origin->0@,
    {
        let rp_id = match rp_id {
            Some(v) => v,
            None => String::from_str("localhost"),
        };
        let rp_name = match rp_name {
            Some(v) => v,
            None => String::from_str("Ethos Protocol"),
        };
        let origin = match origin {
            Some(v) => v,
            None => String::from_str("http://localhost:3000"),
        };
        WebAuthnState::new(rp_id, rp_name, origin)
    }

    /// Checks a client data document (see `client_data_error`).
    fn check_client_data(&self, encoded: &str, expected_type: &str, challenge: &[u8]) -> (r: Result<
        (),
        WebAuthnError,
    >)
        ensures
            match r {
                Ok(()) => client_data_error(encoded@, expected_type@, challenge@, self.origin@) is None,
                Err(e) => client_data_error(encoded@, expected_type@, challenge@, self.origin@)
                    == Some(e),
            },
    {
        let raw = match b64url_decode(encoded) {
            Ok(raw) => raw,
            Err(_) => {
                return Err(WebAuthnError::InvalidClientDataEncoding);
            },
        };
        let data = match parse_client_data(raw.as_slice()) {
            Some(d) => d,
            None => {
                return Err(WebAuthnError::ClientDataNotJson);
            },
        };
        let type_ok = match &data.kind {
            Some(k) => str_eq(k.as_str(), expected_type),
            None => false,
        };
        if !type_ok {
            return Err(WebAuthnError::UnexpectedClientDataType);
        }
        let expected_challenge = b64url_encode(challenge);
        let challenge_ok = match &data.challenge {
            Some(c) => str_eq(c.as_str(), expected_challenge.as_str()),
            None => str_eq("", expected_challenge.as_str()),
        };
        if !challenge_ok {
            proof {
                if data.challenge is None {
                    assert(or_empty(opt_view(data.challenge)) =~= ""@) by {
                        reveal_strlit("");
                    }
                }
            }
            return Err(WebAuthnError::ChallengeMismatch);
        }
        let origin_ok = match &data.origin {
            Some(o) => str_eq(o.as_str(), self.origin.as_str()),
            None => str_eq("", self.origin.as_str()),
        };
        proof {
            reveal_strlit("");
            assert(""@ =~= Seq::<char>::empty());
        }
        if !origin_ok {
            return Err(WebAuthnError::OriginMismatch);
        }
        Ok(())
    }

    /// The relying party configuration.
    pub open spec fn config(&self) -> (String, String, String) {
        (self.rp_id_value(), self.rp_name_value(), self.origin_value())
    }

    /// Whether some user holds a credential with ID `id`.
    fn credential_exists(&self, id: &str) -> (r: bool)
        requires
            self.wf(),
        ensures
            r == credential_registered(self.creds(), id@),
    {
        let entries = self.credentials.entries();
        let mut a: usize = 0;
        while a < entries.len()
            invariant
                self.wf(),
                a <= entries@.len(),
                forall|i: int|
                    0 <= i < entries@.len() ==> self.creds().contains_key(#[trigger] entries@[i].0@)
                        && self.creds()[entries@[i].0@] == entries@[i].1@,
                forall|k: Seq<char>|
                    #[trigger] self.creds().contains_key(k) ==> exists|i: int|
                        0 <= i < entries@.len() && #[trigger] entries@[i].0@ == k,
                forall|x: int, j: int|
                    0 <= x < a && 0 <= j < entries@[x].1@.len() ==> #[trigger] entries@[x].1@[j].credential_id@
                        != id@,
            decreases entries@.len() - a,
        {
            let list = &entries[a].1;
            let mut j: usize = 0;
            while j < list.len()
                invariant
                    self.wf(),
                    a < entries@.len(),
                    list@ == entries@[a as int].1@,
                    forall|i: int|
                        0 <= i < entries@.len() ==> self.creds().contains_key(#[trigger] entries@[i].0@)
                            && self.creds()[entries@[i].0@] == entries@[i].1@,
                    forall|x: int, q: int|
                        0 <= x < a && 0 <= q < entries@[x].1@.len() ==> #[trigger] entries@[x].1@[q].credential_id@
                            != id@,
                    j <= list@.len(),
                    forall|q: int| 0 <= q < j ==> #[trigger] list@[q].credential_id@ != id@,
                decreases list@.len() - j,
            {
                if str_eq(list[j].credential_id.as_str(), id) {
                    proof {
                        let u = entries@[a as int].0@;
                        assert(self.creds().contains_key(u));
                        assert(self.creds()[u] == list@);
                        assert(self.creds()[u][j as int].credential_id@ == id@);
                    }
                    return true;
                }
                j += 1;
            }
            proof {
                assert forall|x: int, q: int|
                    0 <= x < a + 1 && 0 <= q < entries@[x].1@.len() implies #[trigger] entries@[x].1@[q].credential_id@
                        != id@ by {
                    if x == a {
                        assert(list@[q].credential_id@ != id@);
                    }
                }
            }
            a += 1;
        }
        proof {
            assert forall|u: Seq<char>, i: int|
                #![trigger self.creds()[u][i]]
                self.creds().contains_key(u) && 0 <= i < self.creds()[u].len() implies self.creds()[u][i].credential_id@
                != id@ by {
                let x = choose|x: int| 0 <= x < entries@.len() && #[trigger] entries@[x].0@ == u;
                assert(entries@[x].1@[i].credential_id@ != id@);
            }
        }
        false
    }

    /// Appends `c` to the credentials of `user`.
    fn add_credential(&mut self, user: String, c: StoredCredential)
        requires
            old(self).wf(),
        ensures
            final(self).wf(),
            final(self).creds() == old(self).creds().insert(
                user@,
                creds_of(old(self).creds(), user@).push(c),
            ),
            final(self).registrations() == old(self).registrations(),
            final(self).authentications() == old(self).authentications(),
            final(self).config() == old(self).config(),
    {
        let mut list = match self.credentials.remove(user.as_str()) {
            Some(l) => l,
            None => Vec::new(),
        };
        list.push(c);
        self.credentials.insert(user, list);
        proof {
            assert(self.creds() =~= old(self).creds().insert(
                user@,
                creds_of(old(self).creds(), user@).push(c),
            ));
        }
    }

    /// The position of the first credential of `creds` with ID `id`.
    fn find_credential(creds: &Vec<StoredCredential>, id: &str) -> (r: Option<usize>)
        ensures
            match r {
                Some(i) => first_match(creds@, id@) == Some(i as int) && i < creds@.len(),
                None => first_match(creds@, id@) is None,
            },
    {
        let mut i: usize = 0;
        while i < creds.len()
            invariant
                i <= creds@.len(),
                forall|j: int| 0 <= j < i ==> #[trigger] creds@[j].credential_id@ != id@,
            decreases creds@.len() - i,
        {
            if str_eq(creds[i].credential_id.as_str(), id) {
                proof {
                    let s = creds@;
                    assert(s[i as int].credential_id@ == id@);
                    assert(forall|j: int| 0 <= j < i ==> s[j].credential_id@ != id@);
                    let k = choose|k: int|
                        0 <= k < s.len() && #[trigger] s[k].credential_id@ == id@ && forall|j: int|
                            0 <= j < k ==> s[j].credential_id@ != id@;
                    if k < i {
                        assert(s[k].credential_id@ != id@);
                    }
                    if k > i {
                        assert(s[i as int].credential_id@ != id@);
                    }
                }
                return Some(i);
            }
            i += 1;
        }
        None
    }
}

// ---------------------------------------------------------------------------
// Ceremony steps
// ---------------------------------------------------------------------------

/// The options sent for a registration.
pub open spec fn registration_params_ok(params: Seq<PubKeyCredParam>) -> bool {
    &&& params.len() == 3
    &&& params[0].kind@ == "public-key"@ && params[0].alg == -7
    &&& params[1].kind@ == "public-key"@ && params[1].alg == -8
    &&& params[2].kind@ == "public-key"@ && params[2].alg == -257
}

/// A begin-registration step: refused for an empty user ID or user name,
/// else a pending registration under the base64url of the session token.
pub open spec fn begin_registration_step(
    pre: WebAuthnState,
    post: WebAuthnState,
    body: BeginRegistrationRequest,
    challenge: Seq<u8>,
    session_token: Seq<u8>,
    now: u64,
    r: Result<BeginRegistrationResponse, WebAuthnError>,
) -> bool {
    &&& post.wf()
    &&& post.config() == pre.config()
    &&& post.creds() == pre.creds()
    &&& post.authentications() == pre.authentications()
    &&& if body.user_id@.len() == 0 {
        r == Err::<BeginRegistrationResponse, WebAuthnError>(WebAuthnError::EmptyUserId)
            && post.registrations() == pre.registrations()
    } else if body.user_name@.len() == 0 {
        r == Err::<BeginRegistrationResponse, WebAuthnError>(WebAuthnError::EmptyUserName)
            && post.registrations() == pre.registrations()
    } else {
        &&& post.registrations() == pre.registrations().insert(
            b64url_encoding(session_token),
            PendingRegistrationView {
                challenge,
                user_id: body.user_id@,
                user_name: body.user_name@,
                expires_at: expiry(now),
            },
        )
        &&& r matches Ok(resp) && {
            &&& resp.session_id@ == b64url_encoding(session_token)
            &&& resp.rp.id == pre.rp_id_value()
            &&& resp.rp.name == pre.rp_name_value()
            &&& resp.user.id@ == b64url_encoding(vstd::utf8::encode_utf8(body.user_id@))
            &&& resp.user.name@ == body.user_name@
            &&& resp.user.display_name@ == body.user_name@
            &&& resp.challenge@ == b64url_encoding(challenge)
            &&& registration_params_ok(resp.pub_key_cred_params@)
            &&& resp.timeout_ms == 300_000
            &&& resp.attestation@ == "none"@
        }
    }
}

/// The first check a registration answer fails, if any.
pub open spec fn registration_error(
    pre: WebAuthnState,
    body: CompleteRegistrationRequest,
    now: u64,
) -> Option<WebAuthnError> {
    let sid = body.session_id@;
    if !pre.registrations().contains_key(sid) {
        Some(WebAuthnError::UnknownSession)
    } else {
        let p = pre.registrations()[sid];
        if now > p.expires_at {
            Some(WebAuthnError::RegistrationExpired)
        } else {
            match b64url_decoding(body.credential_id@) {
                None => Some(WebAuthnError::InvalidCredentialIdEncoding),
                Some(id) => if id.len() < MIN_CREDENTIAL_ID_LEN {
                    Some(WebAuthnError::CredentialIdTooShort)
                } else if client_data_error(
                    body.client_data_json@,
                    "webauthn.create"@,
                    p.challenge,
                    pre.origin_value()@,
                ) is Some {
                    client_data_error(
                        body.client_data_json@,
                        "webauthn.create"@,
                        p.challenge,
                        pre.origin_value()@,
                    )
                } else if b64url_decoding(body.attestation_object@) is None {
                    Some(WebAuthnError::InvalidAttestationEncoding)
                } else if credential_registered(pre.creds(), body.credential_id@) {
                    Some(WebAuthnError::CredentialAlreadyRegistered)
                } else {
                    None
                },
            }
        }
    }
}

/// The credential a successful registration stores.
pub open spec fn is_new_credential(
    c: StoredCredential,
    body: CompleteRegistrationRequest,
    p: PendingRegistrationView,
    stored_at: Timestamp,
) -> bool {
    &&& c.credential_id@ == body.credential_id@
    &&& c.user_id@ == p.user_id
    &&& c.public_key@ == body.attestation_object@
    &&& c.algorithm == CoseAlgorithm::ES256
    &&& c.sign_count == 0
    &&& c.is_backup == body.is_backup
    &&& opt_view(c.label) == registration_label(body.label, body.is_backup)
    &&& c.aaguid is None
    &&& c.created_at == stored_at
    &&& c.last_used_at is None
}

/// A complete-registration step: the session is consumed whatever
/// happens; on success the new credential is appended to its user's.
pub open spec fn complete_registration_step(
    pre: WebAuthnState,
    post: WebAuthnState,
    body: CompleteRegistrationRequest,
    now: u64,
    stored_at: Timestamp,
    responded_at: Timestamp,
    r: Result<CompleteRegistrationResponse, WebAuthnError>,
) -> bool {
    &&& post.wf()
    &&& post.config() == pre.config()
    &&& post.authentications() == pre.authentications()
    &&& post.registrations() == pre.registrations().remove(body.session_id@)
    &&& match registration_error(pre, body, now) {
        Some(e) => r == Err::<CompleteRegistrationResponse, WebAuthnError>(e) && post.creds()
            == pre.creds(),
        None => {
            let p = pre.registrations()[body.session_id@];
            let user = p.user_id;
            &&& post.creds().contains_key(user)
            &&& post.creds()[user].len() == creds_of(pre.creds(), user).len() + 1
            &&& post.creds()[user].drop_last() == creds_of(pre.creds(), user)
            &&& is_new_credential(post.creds()[user].last(), body, p, stored_at)
            &&& post.creds().remove(user) == pre.creds().remove(user)
            &&& r matches Ok(resp) && {
                &&& resp.credential_id@ == body.credential_id@
                &&& resp.user_id@ == user
                &&& resp.is_backup == body.is_backup
                &&& opt_view(resp.label) == registration_label(body.label, body.is_backup)
                &&& resp.created_at == responded_at
            }
        },
    }
}

/// A begin-authentication step: refused for an empty user ID or a user
/// without credentials, else a pending authentication under the
/// base64url of the session token, allowing the user's credentials.
pub open spec fn begin_authentication_step(
    pre: WebAuthnState,
    post: WebAuthnState,
    body: BeginAuthenticationRequest,
    challenge: Seq<u8>,
    session_token: Seq<u8>,
    now: u64,
    r: Result<BeginAuthenticationResponse, WebAuthnError>,
) -> bool {
    let creds = creds_of(pre.creds(), body.user_id@);
    &&& post.wf()
    &&& post.config() == pre.config()
    &&& post.creds() == pre.creds()
    &&& post.registrations() == pre.registrations()
    &&& if body.user_id@.len() == 0 {
        r == Err::<BeginAuthenticationResponse, WebAuthnError>(WebAuthnError::EmptyUserId)
            && post.authentications() == pre.authentications()
    } else if creds.len() == 0 {
        r == Err::<BeginAuthenticationResponse, WebAuthnError>(
            WebAuthnError::NoCredentialsRegistered,
        ) && post.authentications() == pre.authentications()
    } else {
        &&& post.authentications() == pre.authentications().insert(
            b64url_encoding(session_token),
            PendingAuthenticationView {
                challenge,
                user_id: body.user_id@,
                expires_at: expiry(now),
            },
        )
        &&& r matches Ok(resp) && {
            &&& resp.session_id@ == b64url_encoding(session_token)
            &&& resp.challenge@ == b64url_encoding(challenge)
            &&& resp.timeout_ms == 300_000
            &&& resp.rp_id == pre.rp_id_value()
            &&& resp.user_verification@ == "preferred"@
            &&& resp.allow_credentials@.len() == creds.len()
            &&& forall|i: int|
                0 <= i < creds.len() ==> (#[trigger] resp.allow_credentials@[i]).id@
                    == creds[i].credential_id@ && resp.allow_credentials@[i].kind@
                    == "public-key"@
        }
    }
}

/// The first check an authentication answer fails, if any.
pub open spec fn authentication_error(
    pre: WebAuthnState,
    body: CompleteAuthenticationRequest,
    now: u64,
) -> Option<WebAuthnError> {
    let sid = body.session_id@;
    if !pre.authentications().contains_key(sid) {
        Some(WebAuthnError::UnknownSession)
    } else {
        let p = pre.authentications()[sid];
        if now > p.expires_at {
            Some(WebAuthnError::AuthenticationExpired)
        } else if client_data_error(
            body.client_data_json@,
            "webauthn.get"@,
            p.challenge,
            pre.origin_value()@,
        ) is Some {
            client_data_error(body.client_data_json@, "webauthn.get"@, p.challenge, pre.origin_value()@)
        } else {
            match b64url_decoding(body.authenticator_data@) {
                None => Some(WebAuthnError::InvalidAuthenticatorDataEncoding),
                Some(auth) => match b64url_decoding(body.signature@) {
                    None => Some(WebAuthnError::InvalidSignatureEncoding),
                    Some(sig) => if sig.len() == 0 {
                        Some(WebAuthnError::EmptySignature)
                    } else if !pre.creds().contains_key(p.user_id) {
                        Some(WebAuthnError::NoCredentialsForUser)
                    } else {
                        match first_match(pre.creds()[p.user_id], body.credential_id@) {
                            None => Some(WebAuthnError::CredentialNotFound),
                            Some(i) => if !counter_accepted(
                                sign_count_of(auth),
                                pre.creds()[p.user_id][i].sign_count,
                            ) {
                                Some(WebAuthnError::CloneDetected)
                            } else {
                                None
                            },
                        }
                    },
                },
            }
        }
    }
}

/// The credential after a successful authentication.
pub open spec fn authenticated(c: StoredCredential, sign_count: u32, used_at: Timestamp) -> StoredCredential {
    StoredCredential { sign_count, last_used_at: Some(used_at), ..c }
}

/// A complete-authentication step: the session is consumed whatever
/// happens; on success the credential's counter becomes the new one.
pub open spec fn complete_authentication_step(
    pre: WebAuthnState,
    post: WebAuthnState,
    body: CompleteAuthenticationRequest,
    now: u64,
    used_at: Timestamp,
    responded_at: Timestamp,
    r: Result<CompleteAuthenticationResponse, WebAuthnError>,
) -> bool {
    &&& post.wf()
    &&& post.config() == pre.config()
    &&& post.registrations() == pre.registrations()
    &&& post.authentications() == pre.authentications().remove(body.session_id@)
    &&& match authentication_error(pre, body, now) {
        Some(e) => r == Err::<CompleteAuthenticationResponse, WebAuthnError>(e) && post.creds()
            == pre.creds(),
        None => {
            let p = pre.authentications()[body.session_id@];
            let user = p.user_id;
            let i = first_match(pre.creds()[user], body.credential_id@)->0;
            let count = sign_count_of(b64url_decoding(body.authenticator_data@)->0);
            &&& post.creds() == pre.creds().insert(
                user,
                pre.creds()[user].update(i, authenticated(pre.creds()[user][i], count, used_at)),
            )
            &&& r matches Ok(resp) && {
                &&& resp.user_id@ == user
                &&& resp.credential_id@ == body.credential_id@
                &&& resp.sign_count == count
                &&& resp.authenticated_at == responded_at
            }
        },
    }
}

/// Keeps the credentials whose ID is not `id`.
pub open spec fn not_credential(id: Seq<char>) -> spec_fn(StoredCredential) -> bool {
    |c: StoredCredential| c.credential_id@ != id
}

/// A remove-credential step.
pub open spec fn remove_credential_step(
    pre: WebAuthnState,
    post: WebAuthnState,
    user_id: Seq<char>,
    cred_id: Seq<char>,
    r: Result<(), WebAuthnError>,
) -> bool {
    &&& post.wf()
    &&& post.config() == pre.config()
    &&& post.registrations() == pre.registrations()
    &&& post.authentications() == pre.authentications()
    &&& if !pre.creds().contains_key(user_id) {
        r == Err::<(), WebAuthnError>(WebAuthnError::UserNotFound) && post.creds() == pre.creds()
    } else {
        let kept = pre.creds()[user_id].filter(not_credential(cred_id));
        if kept.len() == pre.creds()[user_id].len() {
            r == Err::<(), WebAuthnError>(WebAuthnError::CredentialNotFound) && post.creds()
                == pre.creds()
        } else if kept.len() == 0 {
            r == Err::<(), WebAuthnError>(WebAuthnError::LastCredential) && post.creds()
                == pre.creds()
        } else {
            r == Ok::<(), WebAuthnError>(()) && post.creds() == pre.creds().insert(user_id, kept)
        }
    }
}

/// An add-backup-authenticator step: a registered credential of the user
/// is marked as backup (and relabelled when a label is given); otherwise a
/// backup registration challenge is issued.
pub open spec fn add_backup_step(
    pre: WebAuthnState,
    post: WebAuthnState,
    user_id: Seq<char>,
    cred_id: Seq<char>,
    body: AddBackupAuthenticatorRequest,
    challenge: Seq<u8>,
    session_token: Seq<u8>,
    now: u64,
    r: BackupAuthenticatorOutcome,
) -> bool {
    &&& post.wf()
    &&& post.config() == pre.config()
    &&& post.authentications() == pre.authentications()
    &&& if pre.creds().contains_key(user_id) && first_match(pre.creds()[user_id], cred_id) is Some {
        let i = first_match(pre.creds()[user_id], cred_id)->0;
        let c = pre.creds()[user_id][i];
        let marked = StoredCredential {
            is_backup: true,
            label: if body.label is Some {
                body.label
            } else {
                c.label
            },
            ..c
        };
        &&& post.creds() == pre.creds().insert(user_id, pre.creds()[user_id].update(i, marked))
        &&& post.registrations() == pre.registrations()
        &&& r matches BackupAuthenticatorOutcome::MarkedAsBackup { credential_id } && credential_id@
            == cred_id
    } else {
        &&& post.creds() == pre.creds()
        &&& post.registrations() == pre.registrations().insert(
            b64url_encoding(session_token),
            PendingRegistrationView {
                challenge,
                user_id,
                user_name: body.user_id@,
                expires_at: expiry(now),
            },
        )
        &&& r matches BackupAuthenticatorOutcome::RegistrationIssued { session_id, challenge: c }
            && session_id@ == b64url_encoding(session_token) && c@ == b64url_encoding(challenge)
    }
}

/// The public key algorithms offered for a registration, in order of
/// preference.
fn registration_params() -> (v: Vec<PubKeyCredParam>)
    ensures
        registration_params_ok(v@),
{
    let mut v: Vec<PubKeyCredParam> = Vec::new();
    v.push(PubKeyCredParam { kind: String::from_str("public-key"), alg: CoseAlgorithm::ES256.cose_id() });
    v.push(PubKeyCredParam { kind: String::from_str("public-key"), alg: CoseAlgorithm::EdDsa.cose_id() });
    v.push(PubKeyCredParam { kind: String::from_str("public-key"), alg: CoseAlgorithm::RS256.cose_id() });
    v
}

/// The signature counter in authenticator data (see `sign_count_of`).
pub fn read_sign_count(auth_data: &[u8]) -> (n: u32)
    ensures
        n == sign_count_of(auth_data@),
{
    if auth_data.len() >= 37 {
        let b0 = auth_data[33] as u32;
        let b1 = auth_data[34] as u32;
        let b2 = auth_data[35] as u32;
        let b3 = auth_data[36] as u32;
        b0 * 0x1000000 + b1 * 0x10000 + b2 * 0x100 + b3
    } else {
        0
    }
}

impl WebAuthnState {
    /// Begins a registration with the given random challenge and session
    /// token, at Unix time `now`.
    pub fn begin_registration_with(
        &mut self,
        body: &BeginRegistrationRequest,
        challenge: Vec<u8>,
        session_token: &[u8],
        now: u64,
    ) -> (r: Result<BeginRegistrationResponse, WebAuthnError>)
        requires
            old(self).wf(),
        ensures
            begin_registration_step(*old(self), *final(self), *body, challenge@, session_token@, now, r),
    {
        if body.user_id.as_str().is_empty() {
            return Err(WebAuthnError::EmptyUserId);
        }
        if body.user_name.as_str().is_empty() {
            return Err(WebAuthnError::EmptyUserName);
        }
        let session_id = b64url_encode(session_token);
        let challenge_text = b64url_encode(challenge.as_slice());
        let expires_at = now.saturating_add(CHALLENGE_TTL_SECS);
        let pending = PendingRegistration {
            challenge,
            user_id: body.user_id.clone(),
            user_name: body.user_name.clone(),
            expires_at,
        };
        self.pending_registrations.insert(session_id.clone(), pending);
        Ok(BeginRegistrationResponse {
            session_id,
            rp: RpInfo { id: self.rp_id.clone(), name: self.rp_name.clone() },
            user: UserInfo {
                id: b64url_encode(body.user_id.as_str().as_bytes()),
                name: body.user_name.clone(),
                display_name: body.user_name.clone(),
            },
            challenge: challenge_text,
            pub_key_cred_params: registration_params(),
            timeout_ms: (CHALLENGE_TTL_SECS * 1000) as u32,
            attestation: String::from_str("none"),
        })
    }

    /// Begins a registration with a fresh random challenge and session
    /// token, at the current time.
    pub fn begin_registration(&mut self, body: &BeginRegistrationRequest) -> (r: Result<
        BeginRegistrationResponse,
        WebAuthnError,
    >)
        requires
            old(self).wf(),
        ensures
            exists|challenge: Seq<u8>, token: Seq<u8>, now: u64|
                challenge.len() == 32 && token.len() == 32 && #[trigger] begin_registration_step(
                    *old(self),
                    *final(self),
                    *body,
                    challenge,
                    token,
                    now,
                    r,
                ),
    {
        let challenge = generate_challenge();
        let token = generate_challenge();
        let now = now_secs();
        self.begin_registration_with(body, challenge, token.as_slice(), now)
    }
}

impl WebAuthnState {
    /// Completes a registration at Unix time `now`; `stored_at` stamps the
    /// stored credential and `responded_at` the answer.
    pub fn complete_registration_at(
        &mut self,
        body: &CompleteRegistrationRequest,
        now: u64,
        stored_at: Timestamp,
        responded_at: Timestamp,
    ) -> (r: Result<CompleteRegistrationResponse, WebAuthnError>)
        requires
            old(self).wf(),
        ensures
            complete_registration_step(*old(self), *final(self), *body, now, stored_at, responded_at, r),
            old(self).registrations().contains_key(body.session_id@) && now > old(
                self,
            ).registrations()[body.session_id@].expires_at ==> r
                == Err::<CompleteRegistrationResponse, WebAuthnError>(
                WebAuthnError::RegistrationExpired,
            ) && final(self).creds() == old(self).creds(),
    {
        let pending = match self.pending_registrations.remove(body.session_id.as_str()) {
            Some(p) => p,
            None => {
                return Err(WebAuthnError::UnknownSession);
            },
        };
        if now > pending.expires_at {
            return Err(WebAuthnError::RegistrationExpired);
        }
        let cred_id_bytes = match b64url_decode(body.credential_id.as_str()) {
            Ok(b) => b,
            Err(_) => {
                return Err(WebAuthnError::InvalidCredentialIdEncoding);
            },
        };
        if cred_id_bytes.len() < MIN_CREDENTIAL_ID_LEN {
            return Err(WebAuthnError::CredentialIdTooShort);
        }
        match self.check_client_data(
            body.client_data_json.as_str(),
            "webauthn.create",
            pending.challenge.as_slice(),
        ) {
            Ok(()) => {},
            Err(e) => {
                return Err(e);
            },
        }
        match b64url_decode(body.attestation_object.as_str()) {
            Ok(_) => {},
            Err(_) => {
                return Err(WebAuthnError::InvalidAttestationEncoding);
            },
        }
        if self.credential_exists(body.credential_id.as_str()) {
            return Err(WebAuthnError::CredentialAlreadyRegistered);
        }
        let label = match &body.label {
            Some(l) => Some(l.clone()),
            None => if body.is_backup {
                Some(String::from_str("Backup Authenticator"))
            } else {
                None
            },
        };
        let credential = StoredCredential {
            credential_id: body.credential_id.clone(),
            user_id: pending.user_id.clone(),
            public_key: body.attestation_object.clone(),
            algorithm: CoseAlgorithm::ES256,
            sign_count: 0,
            is_backup: body.is_backup,
            label: clone_opt_string(&label),
            aaguid: None,
            created_at: stored_at,
            last_used_at: None,
        };
        let ghost mid = *self;
        self.add_credential(pending.user_id.clone(), credential);
        proof {
            let user = pending.user_id@;
            assert(self.creds()[user].drop_last() =~= creds_of(mid.creds(), user));
            assert(self.creds().remove(user) =~= mid.creds().remove(user));
        }
        Ok(CompleteRegistrationResponse {
            credential_id: body.credential_id.clone(),
            user_id: pending.user_id,
            is_backup: body.is_backup,
            label,
            created_at: responded_at,
        })
    }

    /// Completes a registration at the current time.
    pub fn complete_registration(&mut self, body: &CompleteRegistrationRequest) -> (r: Result<
        CompleteRegistrationResponse,
        WebAuthnError,
    >)
        requires
            old(self).wf(),
        ensures
            exists|now: u64, stored_at: Timestamp, responded_at: Timestamp|
                #[trigger] complete_registration_step(
                    *old(self),
                    *final(self),
                    *body,
                    now,
                    stored_at,
                    responded_at,
                    r,
                ),
    {
        let now = now_secs();
        let stored_at = utc_now();
        let responded_at = utc_now();
        self.complete_registration_at(body, now, stored_at, responded_at)
    }
}

impl WebAuthnState {
    /// The allow list for a user: one entry per registered credential.
    fn allow_list(&self, user_id: &str) -> (v: Vec<AllowCredential>)
        requires
            self.wf(),
        ensures
            v@.len() == creds_of(self.creds(), user_id@).len(),
            forall|i: int|
                0 <= i < v@.len() ==> (#[trigger] v@[i]).id@ == creds_of(self.creds(), user_id@)[i].credential_id@
                    && v@[i].kind@ == "public-key"@,
    {
        let mut v: Vec<AllowCredential> = Vec::new();
        match self.credentials.get(user_id) {
            Some(creds) => {
                let mut i: usize = 0;
                while i < creds.len()
                    invariant
                        creds@ == creds_of(self.creds(), user_id@),
                        i <= creds@.len(),
                        v@.len() == i,
                        forall|j: int|
                            0 <= j < i ==> (#[trigger] v@[j]).id@ == creds@[j].credential_id@
                                && v@[j].kind@ == "public-key"@,
                    decreases creds@.len() - i,
                {
                    v.push(
                        AllowCredential {
                            kind: String::from_str("public-key"),
                            id: creds[i].credential_id.clone(),
                        },
                    );
                    i += 1;
                }
            },
            None => {},
        }
        v
    }

    /// Begins an authentication with the given random challenge and
    /// session token, at Unix time `now`.
    pub fn begin_authentication_with(
        &mut self,
        body: &BeginAuthenticationRequest,
        challenge: Vec<u8>,
        session_token: &[u8],
        now: u64,
    ) -> (r: Result<BeginAuthenticationResponse, WebAuthnError>)
        requires
            old(self).wf(),
        ensures
            begin_authentication_step(*old(self), *final(self), *body, challenge@, session_token@, now, r),
    {
        if body.user_id.as_str().is_empty() {
            return Err(WebAuthnError::EmptyUserId);
        }
        let allow_credentials = self.allow_list(body.user_id.as_str());
        if allow_credentials.len() == 0 {
            return Err(WebAuthnError::NoCredentialsRegistered);
        }
        let session_id = b64url_encode(session_token);
        let challenge_text = b64url_encode(challenge.as_slice());
        let pending = PendingAuthentication {
            challenge,
            user_id: body.user_id.clone(),
            expires_at: now.saturating_add(CHALLENGE_TTL_SECS),
        };
        self.pending_authentications.insert(session_id.clone(), pending);
        Ok(BeginAuthenticationResponse {
            session_id,
            challenge: challenge_text,
            timeout_ms: (CHALLENGE_TTL_SECS * 1000) as u32,
            rp_id: self.rp_id.clone(),
            allow_credentials,
            user_verification: String::from_str("preferred"),
        })
    }

    /// Begins an authentication with a fresh random challenge and session
    /// token, at the current time.
    pub fn begin_authentication(&mut self, body: &BeginAuthenticationRequest) -> (r: Result<
        BeginAuthenticationResponse,
        WebAuthnError,
    >)
        requires
            old(self).wf(),
        ensures
            exists|challenge: Seq<u8>, token: Seq<u8>, now: u64|
                challenge.len() == 32 && token.len() == 32 && #[trigger] begin_authentication_step(
                    *old(self),
                    *final(self),
                    *body,
                    challenge,
                    token,
                    now,
                    r,
                ),
    {
        let challenge = generate_challenge();
        let token = generate_challenge();
        let now = now_secs();
        self.begin_authentication_with(body, challenge, token.as_slice(), now)
    }

    /// Completes an authentication at Unix time `now`; `used_at` stamps the
    /// credential and `responded_at` the answer.
    pub fn complete_authentication_at(
        &mut self,
        body: &CompleteAuthenticationRequest,
        now: u64,
        used_at: Timestamp,
        responded_at: Timestamp,
    ) -> (r: Result<CompleteAuthenticationResponse, WebAuthnError>)
        requires
            old(self).wf(),
        ensures
            complete_authentication_step(*old(self), *final(self), *body, now, used_at, responded_at, r),
            old(self).authentications().contains_key(body.session_id@) && now > old(
                self,
            ).authentications()[body.session_id@].expires_at ==> r
                == Err::<CompleteAuthenticationResponse, WebAuthnError>(
                WebAuthnError::AuthenticationExpired,
            ) && final(self).creds() == old(self).creds(),
    {
        let pending = match self.pending_authentications.remove(body.session_id.as_str()) {
            Some(p) => p,
            None => {
                return Err(WebAuthnError::UnknownSession);
            },
        };
        if now > pending.expires_at {
            return Err(WebAuthnError::AuthenticationExpired);
        }
        match self.check_client_data(
            body.client_data_json.as_str(),
            "webauthn.get",
            pending.challenge.as_slice(),
        ) {
            Ok(()) => {},
            Err(e) => {
                return Err(e);
            },
        }
        let auth_data = match b64url_decode(body.authenticator_data.as_str()) {
            Ok(d) => d,
            Err(_) => {
                return Err(WebAuthnError::InvalidAuthenticatorDataEncoding);
            },
        };
        let new_sign_count = read_sign_count(auth_data.as_slice());
        let sig_bytes = match b64url_decode(body.signature.as_str()) {
            Ok(b) => b,
            Err(_) => {
                return Err(WebAuthnError::InvalidSignatureEncoding);
            },
        };
        if sig_bytes.len() == 0 {
            return Err(WebAuthnError::EmptySignature);
        }
        let user = pending.user_id.as_str();
        let i = match self.credentials.get(user) {
            None => {
                return Err(WebAuthnError::NoCredentialsForUser);
            },
            Some(list) => match WebAuthnState::find_credential(list, body.credential_id.as_str()) {
                None => {
                    return Err(WebAuthnError::CredentialNotFound);
                },
                Some(i) => {
                    if new_sign_count != 0 && new_sign_count <= list[i].sign_count {
                        return Err(WebAuthnError::CloneDetected);
                    }
                    i
                },
            },
        };
        let ghost mid = *self;
        let mut list = match self.credentials.remove(user) {
            Some(l) => l,
            None => {
                return Err(WebAuthnError::NoCredentialsForUser);
            },
        };
        let mut c = list[i].clone();
        c.sign_count = new_sign_count;
        c.last_used_at = Some(used_at);
        list.set(i, c);
        self.credentials.insert(pending.user_id.clone(), list);
        proof {
            let u = pending.user_id@;
            assert(self.creds() =~= mid.creds().insert(
                u,
                mid.creds()[u].update(
                    i as int,
                    authenticated(mid.creds()[u][i as int], new_sign_count, used_at),
                ),
            ));
        }
        Ok(CompleteAuthenticationResponse {
            user_id: pending.user_id,
            credential_id: body.credential_id.clone(),
            sign_count: new_sign_count,
            authenticated_at: responded_at,
        })
    }

    /// Completes an authentication at the current time.
    pub fn complete_authentication(&mut self, body: &CompleteAuthenticationRequest) -> (r: Result<
        CompleteAuthenticationResponse,
        WebAuthnError,
    >)
        requires
            old(self).wf(),
        ensures
            exists|now: u64, used_at: Timestamp, responded_at: Timestamp|
                #[trigger] complete_authentication_step(
                    *old(self),
                    *final(self),
                    *body,
                    now,
                    used_at,
                    responded_at,
                    r,
                ),
    {
        let now = now_secs();
        let used_at = utc_now();
        let responded_at = utc_now();
        self.complete_authentication_at(body, now, used_at, responded_at)
    }
}

/// A copy of a list of credentials.
fn clone_credentials(v: &Vec<StoredCredential>) -> (r: Vec<StoredCredential>)
    ensures
        r@ == v@,
{
    let mut r: Vec<StoredCredential> = Vec::new();
    let mut i: usize = 0;
    while i < v.len()
        invariant
            i <= v@.len(),
            r@ == v@.subrange(0, i as int),
        decreases v@.len() - i,
    {
        r.push(v[i].clone());
        i += 1;
        proof {
            assert(r@ =~= v@.subrange(0, i as int));
        }
    }
    proof {
        assert(v@.subrange(0, v@.len() as int) =~= v@);
    }
    r
}

/// The credentials of `v` whose ID is not `id`, in order.
fn without_credential(v: Vec<StoredCredential>, id: &str) -> (r: Vec<StoredCredential>)
    ensures
        r@ == v@.filter(not_credential(id@)),
{
    let mut r: Vec<StoredCredential> = Vec::new();
    let mut i: usize = 0;
    let ghost f = not_credential(id@);
    while i < v.len()
        invariant
            f == not_credential(id@),
            i <= v@.len(),
            r@ == v@.subrange(0, i as int).filter(f),
        decreases v@.len() - i,
    {
        let ghost before = v@.subrange(0, i as int);
        let ghost after = v@.subrange(0, i as int + 1);
        if !str_eq(v[i].credential_id.as_str(), id) {
            r.push(v[i].clone());
        }
        proof {
            reveal(Seq::filter);
            assert(after.drop_last() =~= before);
            assert(after.last() == v@[i as int]);
        }
        i += 1;
    }
    proof {
        assert(v@.subrange(0, v@.len() as int) =~= v@);
    }
    r
}

impl WebAuthnState {
    /// The credentials of a user (none for an unknown user).
    pub fn list_credentials(&self, user_id: &str) -> (r: Vec<StoredCredential>)
        requires
            self.wf(),
        ensures
            r@ == creds_of(self.creds(), user_id@),
    {
        match self.credentials.get(user_id) {
            Some(creds) => clone_credentials(creds),
            None => Vec::new(),
        }
    }

    /// Removes a user's credential. Removing the user's last credential is
    /// refused with `LastCredential`, the credentials unchanged.
    pub fn remove_credential(&mut self, user_id: &str, cred_id: &str) -> (r: Result<(), WebAuthnError>)
        requires
            old(self).wf(),
        ensures
            remove_credential_step(*old(self), *final(self), user_id@, cred_id@, r),
    {
        let ghost pre = *self;
        let creds = match self.credentials.remove(user_id) {
            Some(c) => c,
            None => {
                proof {
                    assert(self.creds() =~= pre.creds());
                }
                return Err(WebAuthnError::UserNotFound);
            },
        };
        let before = creds.len();
        let original = clone_credentials(&creds);
        let kept = without_credential(creds, cred_id);
        if kept.len() == before {
            let restored = kept;
            proof {
                let all = pre.creds()[user_id@];
                let f = not_credential(cred_id@);
                assert(restored@ == all) by {
                    lemma_filter_same_len_keeps_all(all, f);
                }
            }
            self.credentials.insert(String::from_str(user_id), restored);
            proof {
                assert(self.creds() =~= pre.creds());
            }
            return Err(WebAuthnError::CredentialNotFound);
        }
        if kept.len() == 0 {
            self.credentials.insert(String::from_str(user_id), original);
            proof {
                assert(self.creds() =~= pre.creds());
            }
            return Err(WebAuthnError::LastCredential);
        }
        let ghost kept_view = kept@;
        self.credentials.insert(String::from_str(user_id), kept);
        proof {
            assert(self.creds() =~= pre.creds().insert(user_id@, kept_view));
        }
        Ok(())
    }
}

/// A filter that keeps as many items as it is given keeps them all.
proof fn lemma_filter_same_len_keeps_all<A>(s: Seq<A>, f: spec_fn(A) -> bool)
    requires
        s.filter(f).len() == s.len(),
    ensures
        s.filter(f) == s,
    decreases s.len(),
{
    reveal(Seq::filter);
    if s.len() > 0 {
        s.drop_last().lemma_filter_len(f);
        if !f(s.last()) {
            assert(false);
        }
        lemma_filter_same_len_keeps_all(s.drop_last(), f);
        assert(s.filter(f) =~= s);
    }
}

impl WebAuthnState {
    /// Marks a registered credential of `user_id` as a backup authenticator
    /// (relabelling it when a label is given), or, for a credential not
    /// registered to the user, issues a backup registration challenge with
    /// the given random challenge and session token at Unix time `now`.
    pub fn add_backup_authenticator_with(
        &mut self,
        user_id: &str,
        cred_id: &str,
        body: &AddBackupAuthenticatorRequest,
        challenge: Vec<u8>,
        session_token: &[u8],
        now: u64,
    ) -> (r: BackupAuthenticatorOutcome)
        requires
            old(self).wf(),
        ensures
            add_backup_step(
                *old(self),
                *final(self),
                user_id@,
                cred_id@,
                *body,
                challenge@,
                session_token@,
                now,
                r,
            ),
    {
        let ghost pre = *self;
        let found = match self.credentials.get(user_id) {
            Some(list) => WebAuthnState::find_credential(list, cred_id),
            None => None,
        };
        match found {
            Some(i) => {
                let mut list = match self.credentials.remove(user_id) {
                    Some(l) => l,
                    None => Vec::new(),
                };
                let mut c = list[i].clone();
                c.is_backup = true;
                match &body.label {
                    Some(l) => {
                        c.label = Some(l.clone());
                    },
                    None => {},
                }
                list.set(i, c);
                let ghost list_view = list@;
                self.credentials.insert(String::from_str(user_id), list);
                proof {
                    assert(self.creds() =~= pre.creds().insert(user_id@, list_view));
                }
                BackupAuthenticatorOutcome::MarkedAsBackup { credential_id: String::from_str(cred_id) }
            },
            None => {
                let session_id = b64url_encode(session_token);
                let challenge_text = b64url_encode(challenge.as_slice());
                let pending = PendingRegistration {
                    challenge,
                    user_id: String::from_str(user_id),
                    user_name: body.user_id.clone(),
                    expires_at: now.saturating_add(CHALLENGE_TTL_SECS),
                };
                self.pending_registrations.insert(session_id.clone(), pending);
                BackupAuthenticatorOutcome::RegistrationIssued { session_id, challenge: challenge_text }
            },
        }
    }

    /// `add_backup_authenticator_with` with a fresh random challenge and
    /// session token, at the current time.
    pub fn add_backup_authenticator(
        &mut self,
        user_id: &str,
        cred_id: &str,
        body: &AddBackupAuthenticatorRequest,
    ) -> (r: BackupAuthenticatorOutcome)
        requires
            old(self).wf(),
        ensures
            exists|challenge: Seq<u8>, token: Seq<u8>, now: u64|
                challenge.len() == 32 && token.len() == 32 && #[trigger] add_backup_step(
                    *old(self),
                    *final(self),
                    user_id@,
                    cred_id@,
                    *body,
                    challenge,
                    token,
                    now,
                    r,
                ),
    {
        let challenge = generate_challenge();
        let token = generate_challenge();
        let now = now_secs();
        self.add_backup_authenticator_with(user_id, cred_id, body, challenge, token.as_slice(), now)
    }
}

// ---------------------------------------------------------------------------
// Laws
// ---------------------------------------------------------------------------

/// A registration challenge is single-use: once a registration answer has
/// been handled under a session, any further answer under that session is
/// refused as an unknown session.
pub proof fn lemma_registration_session_single_use(
    s0: WebAuthnState,
    s1: WebAuthnState,
    s2: WebAuthnState,
    first: CompleteRegistrationRequest,
    second: CompleteRegistrationRequest,
    now1: u64,
    now2: u64,
    t1: Timestamp,
    t2: Timestamp,
    t3: Timestamp,
    t4: Timestamp,
    r1: Result<CompleteRegistrationResponse, WebAuthnError>,
    r2: Result<CompleteRegistrationResponse, WebAuthnError>,
)
    requires
        complete_registration_step(s0, s1, first, now1, t1, t2, r1),
        complete_registration_step(s1, s2, second, now2, t3, t4, r2),
        second.session_id@ == first.session_id@,
    ensures
        r2 == Err::<CompleteRegistrationResponse, WebAuthnError>(WebAuthnError::UnknownSession),
{
}

/// An authentication challenge is single-use: once an authentication
/// answer has been handled under a session, any further answer under that
/// session is refused as an unknown session.
pub proof fn lemma_authentication_session_single_use(
    s0: WebAuthnState,
    s1: WebAuthnState,
    s2: WebAuthnState,
    first: CompleteAuthenticationRequest,
    second: CompleteAuthenticationRequest,
    now1: u64,
    now2: u64,
    t1: Timestamp,
    t2: Timestamp,
    t3: Timestamp,
    t4: Timestamp,
    r1: Result<CompleteAuthenticationResponse, WebAuthnError>,
    r2: Result<CompleteAuthenticationResponse, WebAuthnError>,
)
    requires
        complete_authentication_step(s0, s1, first, now1, t1, t2, r1),
        complete_authentication_step(s1, s2, second, now2, t3, t4, r2),
        second.session_id@ == first.session_id@,
    ensures
        r2 == Err::<CompleteAuthenticationResponse, WebAuthnError>(WebAuthnError::UnknownSession),
{
}

/// A credential with an ID at `w` means there is a first one, at or
/// before `w`.
proof fn lemma_first_exists(s: Seq<StoredCredential>, id: Seq<char>, w: int)
    requires
        0 <= w < s.len(),
        s[w].credential_id@ == id,
    ensures
        exists|k: int|
            0 <= k < s.len() && #[trigger] s[k].credential_id@ == id && forall|j: int|
                0 <= j < k ==> s[j].credential_id@ != id,
    decreases w,
{
    if exists|j: int| 0 <= j < w && #[trigger] s[j].credential_id@ == id {
        let j = choose|j: int| 0 <= j < w && #[trigger] s[j].credential_id@ == id;
        lemma_first_exists(s, id, j);
    } else {
        assert(forall|j: int| 0 <= j < w ==> s[j].credential_id@ != id);
    }
}

/// What `first_match` gives: the first position holding the ID.
proof fn lemma_first_match(s: Seq<StoredCredential>, id: Seq<char>)
    ensures
        match first_match(s, id) {
            Some(i) => 0 <= i < s.len() && s[i].credential_id@ == id && forall|j: int|
                0 <= j < i ==> s[j].credential_id@ != id,
            None => forall|j: int| 0 <= j < s.len() ==> s[j].credential_id@ != id,
        },
{
    if exists|i: int| 0 <= i < s.len() && #[trigger] s[i].credential_id@ == id {
        let w = choose|i: int| 0 <= i < s.len() && #[trigger] s[i].credential_id@ == id;
        lemma_first_exists(s, id, w);
    }
}

/// Replacing the first credential with an ID by one with the same ID keeps
/// it the first with that ID.
proof fn lemma_first_match_update(s: Seq<StoredCredential>, id: Seq<char>, i: int, c: StoredCredential)
    requires
        first_match(s, id) == Some(i),
        c.credential_id@ == id,
    ensures
        first_match(s.update(i, c), id) == Some(i),
{
    let t = s.update(i, c);
    lemma_first_match(s, id);
    assert(t[i].credential_id@ == id);
    assert(forall|j: int| 0 <= j < i ==> t[j] == s[j]);
    let k2 = choose|k: int|
        0 <= k < t.len() && #[trigger] t[k].credential_id@ == id && forall|j: int|
            0 <= j < k ==> t[j].credential_id@ != id;
    if k2 < i {
        assert(t[k2] == s[k2]);
    }
    if k2 > i {
        assert(t[i].credential_id@ == id);
    }
}

/// After a successful authentication the credential holds the counter
/// that was presented, so a later answer for that user and credential that
/// passes the checks before the counter check, presenting a non-zero
/// counter no greater than it, is refused as a cloned authenticator.
pub proof fn lemma_counter_replay_refused(
    s0: WebAuthnState,
    s1: WebAuthnState,
    first: CompleteAuthenticationRequest,
    second: CompleteAuthenticationRequest,
    now1: u64,
    now2: u64,
    t1: Timestamp,
    t2: Timestamp,
    r1: Result<CompleteAuthenticationResponse, WebAuthnError>,
)
    requires
        complete_authentication_step(s0, s1, first, now1, t1, t2, r1),
        r1 is Ok,
        s1.authentications().contains_key(second.session_id@),
        s1.authentications()[second.session_id@].user_id == s0.authentications()[first.session_id@].user_id,
        second.credential_id@ == first.credential_id@,
        now2 <= s1.authentications()[second.session_id@].expires_at,
        client_data_error(
            second.client_data_json@,
            "webauthn.get"@,
            s1.authentications()[second.session_id@].challenge,
            s1.origin_value()@,
        ) is None,
        b64url_decoding(second.authenticator_data@) is Some,
        b64url_decoding(second.signature@) is Some,
        b64url_decoding(second.signature@)->0.len() > 0,
        sign_count_of(b64url_decoding(second.authenticator_data@)->0) != 0,
        sign_count_of(b64url_decoding(second.authenticator_data@)->0) <= sign_count_of(
            b64url_decoding(first.authenticator_data@)->0,
        ),
    ensures
        authentication_error(s1, second, now2) == Some(WebAuthnError::CloneDetected),
{
    let user = s0.authentications()[first.session_id@].user_id;
    let creds0 = s0.creds()[user];
    let i = first_match(creds0, first.credential_id@)->0;
    let count = sign_count_of(b64url_decoding(first.authenticator_data@)->0);
    let c = authenticated(creds0[i], count, t1);
    lemma_first_match(creds0, first.credential_id@);
    lemma_first_match_update(creds0, first.credential_id@, i, c);
    assert(s1.creds()[user][i].sign_count == count);
}

/// A user whose registration went through, under a non-empty user ID,
/// can begin an authentication: the request succeeds and leaves a pending
/// authentication under the base64url of the session token.
pub proof fn lemma_registered_user_can_authenticate(
    s0: WebAuthnState,
    s1: WebAuthnState,
    s2: WebAuthnState,
    reg: CompleteRegistrationRequest,
    now: u64,
    t1: Timestamp,
    t2: Timestamp,
    r1: Result<CompleteRegistrationResponse, WebAuthnError>,
    body: BeginAuthenticationRequest,
    challenge: Seq<u8>,
    token: Seq<u8>,
    now2: u64,
    r2: Result<BeginAuthenticationResponse, WebAuthnError>,
)
    requires
        complete_registration_step(s0, s1, reg, now, t1, t2, r1),
        r1 is Ok,
        body.user_id@ == r1->Ok_0.user_id@,
        body.user_id@.len() > 0,
        begin_authentication_step(s1, s2, body, challenge, token, now2, r2),
    ensures
        r2 is Ok,
        s2.authentications().contains_key(b64url_encoding(token)),
{
}


/// An authentication completed after its challenge expired is refused as
/// expired, whatever the answer: the credentials (and their counters) stay
/// as they were, and the session is used up.
pub proof fn lemma_expired_authentication_refused(
    pre: WebAuthnState,
    post: WebAuthnState,
    body: CompleteAuthenticationRequest,
    now: u64,
    used_at: Timestamp,
    responded_at: Timestamp,
    r: Result<CompleteAuthenticationResponse, WebAuthnError>,
)
    requires
        complete_authentication_step(pre, post, body, now, used_at, responded_at, r),
        pre.authentications().contains_key(body.session_id@),
        now > pre.authentications()[body.session_id@].expires_at,
    ensures
        r == Err::<CompleteAuthenticationResponse, WebAuthnError>(WebAuthnError::AuthenticationExpired),
        post.creds() == pre.creds(),
        !post.authentications().contains_key(body.session_id@),
{
}

/// A registration completed after its challenge expired is refused as
/// expired: no credential is stored, and the session is used up.
pub proof fn lemma_expired_registration_refused(
    pre: WebAuthnState,
    post: WebAuthnState,
    body: CompleteRegistrationRequest,
    now: u64,
    stored_at: Timestamp,
    responded_at: Timestamp,
    r: Result<CompleteRegistrationResponse, WebAuthnError>,
)
    requires
        complete_registration_step(pre, post, body, now, stored_at, responded_at, r),
        pre.registrations().contains_key(body.session_id@),
        now > pre.registrations()[body.session_id@].expires_at,
    ensures
        r == Err::<CompleteRegistrationResponse, WebAuthnError>(WebAuthnError::RegistrationExpired),
        post.creds() == pre.creds(),
        !post.registrations().contains_key(body.session_id@),
{
}

} // verus!
