//! Pairing: a self-signed TLS identity, a pairing code, and a challenge that only a tablet which
//! knows the code can answer.
//!
//! The token behind the code keys every authentication code of the challenge. The message that is
//! authenticated also holds the fingerprint of the server's certificate, so that an answer made for
//! one certificate is of no use with another.
use crate::bytes::{copy_range, push_bytes, u32_at};
use crate::crypto::{
    base32, base32_decode, base32_encode, base32_is_ascii, base32_is_injective, certificate_names,
    hmac_sha256, hmac_sha256_of, random_bytes, self_signed, served_identity, sha256, sha256_of,
    tls_config,
};
use crate::protocol::{
    frame, framed, frames_say_what_they_hold, MSG_AUTH_CHALLENGE, MSG_AUTH_FAIL, MSG_AUTH_OK, MSG_AUTH_RESPONSE, MSG_DISCOVER,
};
use crate::text::{
    hex_byte, is_blank, is_space, push_hex, space_around_is_cut, trim, trim_end, trim_start, trimmed,
};
use std::sync::Arc;
use vstd::prelude::*;

verus! {

/// Length of the pairing token: 80 bits, 16 symbols.
pub const TOKEN_BYTES: usize = 10;

/// Length of the random numbers that either side contributes to the challenge.
pub const NONCE_LEN: usize = 16;

/// Length of an authentication code.
pub const MAC_LEN: usize = 32;

/// A certificate with its private key, both in DER form.
pub struct Identity {
    pub cert_der: Vec<u8>,
    pub key_der: Vec<u8>,
}

impl Identity {
    /// An identity from what came of making a certificate. A failure is handed on.
    pub fn from_generated(generated: Result<(Vec<u8>, Vec<u8>), rcgen::Error>) -> (r: Result<
        Self,
        CredentialsError,
    >)
        ensures
            match generated {
                Ok(pair) => r == Ok::<Self, CredentialsError>(
                    Identity { cert_der: pair.0, key_der: pair.1 },
                ),
                Err(e) => r == Err::<Self, CredentialsError>(CredentialsError::Generation(e)),
            },
    {
        match generated {
            Ok((cert_der, key_der)) => Ok(Identity { cert_der, key_der }),
            Err(e) => Err(CredentialsError::Generation(e)),
        }
    }
}

/// Why there are no credentials.
pub enum CredentialsError {
    /// No certificate could be made.
    Generation(rcgen::Error),
    /// The certificate and the key do not make a TLS configuration.
    Tls(rustls::Error),
    /// The stored pairing code is not the notation of any token.
    CorruptToken,
}

/// What a set of credentials stands for.
pub struct Secrets {
    /// The certificate and the key that TLS presents.
    pub identity: (Seq<u8>, Seq<u8>),
    /// The fingerprint that goes into every authentication code.
    pub fingerprint: Seq<u8>,
    /// The key of every authentication code.
    pub token: Seq<u8>,
    /// The pairing code as the user types it.
    pub code: Seq<char>,
}

/// Server credentials: the TLS configuration and the pairing token.
pub struct Credentials {
    tls_config: Arc<rustls::ServerConfig>,
    cert_fingerprint: [u8; 32],
    token: Vec<u8>,
    pairing_code: String,
}

impl View for Credentials {
    type V = Secrets;

    closed spec fn view(&self) -> Secrets {
        Secrets {
            identity: served_identity(*self.tls_config),
            fingerprint: self.cert_fingerprint@,
            token: self.token@,
            code: self.pairing_code@,
        }
    }
}

/// Credentials with what has to be stored so that the next start finds the same ones.
pub struct Loaded {
    /// An identity that was made just now.
    pub new_identity: Option<Identity>,
    /// A pairing code that was drawn just now.
    pub new_code: Option<String>,
    pub credentials: Result<Credentials, CredentialsError>,
}

/// The certificate and key in use: the stored ones, or else the new ones.
pub open spec fn identity_in_use(stored: Option<Identity>, new: Option<Identity>) -> (
    Seq<u8>,
    Seq<u8>,
) {
    match stored {
        Some(id) => (id.cert_der@, id.key_der@),
        None => (new->0.cert_der@, new->0.key_der@),
    }
}

/// The pairing code in use: the stored one without the space around it, or else the new one.
pub open spec fn code_in_use(stored: Option<String>, new: Option<String>) -> Seq<char> {
    match stored {
        Some(s) => trimmed(s@),
        None => new->0@,
    }
}

/// What holds of a load, whatever the libraries that make certificates and TLS configurations answer.
///
/// What is stored is used, and nothing is stored anew in its place. What is missing is made: a
/// certificate for the server's name, a code of a fresh token once there is a TLS configuration.
pub open spec fn loads(
    stored_identity: Option<Identity>,
    stored_code: Option<String>,
    r: Loaded,
) -> bool {
    &&& stored_identity is Some ==> r.new_identity is None && !(r.credentials matches Err(
        CredentialsError::Generation(_),
    ))
    &&& stored_identity is None ==> (r.new_identity is None <==> r.credentials matches Err(
        CredentialsError::Generation(_),
    ))
    &&& r.new_identity matches Some(id) ==> certificate_names(id.cert_der@) == seq!["tabscreen"@]
    &&& stored_code is Some ==> r.new_code is None
    &&& stored_code is None ==> (r.new_code is Some <==> r.credentials is Ok)
    &&& r.new_code matches Some(code) ==> exists|raw: Seq<u8>|
        raw.len() == TOKEN_BYTES && code@ == #[trigger] base32(raw)
    &&& match r.credentials {
        Ok(c) => {
            let used = identity_in_use(stored_identity, r.new_identity);
            &&& c@.identity == used
            &&& c@.fingerprint == sha256_of(used.0)
            &&& c@.code == code_in_use(stored_code, r.new_code)
            &&& c@.code == base32(c@.token)
        },
        Err(CredentialsError::CorruptToken) => stored_code is Some && forall|raw: Seq<u8>|
            trimmed(stored_code->0@) != #[trigger] base32(raw),
        Err(_) => true,
    }
}

/// What is stored after a load: what was stored before, or else what the load made.
pub open spec fn stored_after<T>(before: Option<T>, new: Option<T>) -> Option<T> {
    if before is Some {
        before
    } else {
        new
    }
}

/// The bytes that an authentication code is made of.
pub open spec fn mac_message(
    label: Seq<u8>,
    nonce_s: Seq<u8>,
    nonce_c: Seq<u8>,
    fingerprint: Seq<u8>,
) -> Seq<u8> {
    label + nonce_s + nonce_c + fingerprint
}

/// What the tablet proves its knowledge of the code with.
pub open spec fn client_label() -> Seq<u8> {
    vstd::utf8::encode_utf8("tabscreen-client"@)
}

/// What the server proves its knowledge of the code with.
pub open spec fn server_label() -> Seq<u8> {
    vstd::utf8::encode_utf8("tabscreen-server"@)
}

/// `code` in groups of four with a dash between them.
pub open spec fn grouped(code: Seq<char>) -> Seq<char>
    decreases code.len(),
{
    if code.len() <= 4 {
        code
    } else {
        code.take(4).push('-') + grouped(code.skip(4))
    }
}

impl Credentials {
    #[verifier::type_invariant]
    closed spec fn code_is_the_token(self) -> bool {
        self.pairing_code@ == base32(self.token@)
    }

    /// Credentials from a TLS configuration, the fingerprint of its certificate and a pairing code.
    pub fn assemble(
        config: rustls::ServerConfig,
        cert_fingerprint: [u8; 32],
        pairing_code: String,
    ) -> (r: Result<Self, CredentialsError>)
        requires
            vstd::utf8::encode_utf8(pairing_code@).len() <= usize::MAX / 8,
        ensures
            match r {
                Ok(c) => {
                    &&& c@.identity == served_identity(config)
                    &&& c@.fingerprint == cert_fingerprint@
                    &&& c@.code == pairing_code@
                    &&& c@.code == base32(c@.token)
                },
                Err(e) => {
                    &&& e is CorruptToken
                    &&& forall|raw: Seq<u8>| pairing_code@ != #[trigger] base32(raw)
                },
            },
    {
        match base32_decode(pairing_code.as_str()) {
            Ok(token) => Ok(
                Credentials { tls_config: Arc::new(config), cert_fingerprint, token, pairing_code },
            ),
            Err(_) => Err(CredentialsError::CorruptToken),
        }
    }

    /// Credentials from what came of making a TLS configuration. A failure is handed on.
    pub fn from_tls(
        config: Result<rustls::ServerConfig, rustls::Error>,
        cert_fingerprint: [u8; 32],
        pairing_code: String,
    ) -> (r: Result<Self, CredentialsError>)
        requires
            vstd::utf8::encode_utf8(pairing_code@).len() <= usize::MAX / 8,
        ensures
            match config {
                Err(e) => r == Err::<Self, CredentialsError>(CredentialsError::Tls(e)),
                Ok(config) => match r {
                    Ok(c) => {
                        &&& c@.identity == served_identity(config)
                        &&& c@.fingerprint == cert_fingerprint@
                        &&& c@.code == pairing_code@
                        &&& c@.code == base32(c@.token)
                    },
                    Err(e) => {
                        &&& e is CorruptToken
                        &&& forall|raw: Seq<u8>| pairing_code@ != #[trigger] base32(raw)
                    },
                },
            },
    {
        match config {
            Ok(config) => Self::assemble(config, cert_fingerprint, pairing_code),
            Err(e) => Err(CredentialsError::Tls(e)),
        }
    }

    /// The stored credentials, with what is missing made anew.
    ///
    /// `stored_identity` and `stored_code` are what an earlier start left behind. When a certificate
    /// cannot be made, and when a certificate and a key make no TLS configuration, is left to the
    /// libraries that do it.
    pub fn load_or_create(stored_identity: Option<Identity>, stored_code: Option<String>) -> (r:
        Loaded)
        requires
            stored_code matches Some(s) ==> vstd::utf8::encode_utf8(s@).len() <= usize::MAX / 8,
        ensures
            loads(stored_identity, stored_code, r),
    {
        let fresh = stored_identity.is_none();
        let identity = match stored_identity {
            Some(id) => id,
            None => {
                let mut names: Vec<String> = Vec::new();
                names.push("tabscreen".to_owned());
                proof {
                    reveal_strlit("tabscreen");
                }
                match Identity::from_generated(self_signed(names)) {
                    Ok(id) => {
                        assert(seq![names@[0]@] =~= seq!["tabscreen"@]);
                        id
                    },
                    Err(e) => {
                        return Loaded { new_identity: None, new_code: None, credentials: Err(e) };
                    },
                }
            },
        };
        let cert_fingerprint = sha256(identity.cert_der.as_slice());
        let total_cert: usize = identity.cert_der.len();
        let total_key: usize = identity.key_der.len();
        let cert_der = copy_range(identity.cert_der.as_slice(), 0, total_cert);
        let key_der = copy_range(identity.key_der.as_slice(), 0, total_key);
        assert(cert_der@ =~= identity.cert_der@);
        assert(key_der@ =~= identity.key_der@);
        let config = tls_config(cert_der, key_der);
        let new_identity = if fresh {
            Some(identity)
        } else {
            None
        };
        match stored_code {
            Some(s) => {
                let code = trim(s.as_str());
                proof {
                    lemma_trimming_shortens(s@);
                }
                Loaded {
                    new_identity,
                    new_code: None,
                    credentials: Self::from_tls(config, cert_fingerprint, code),
                }
            },
            None => {
                let raw = random_bytes(TOKEN_BYTES);
                let code = base32_encode(raw.as_slice());
                let ghost token = raw@;
                proof {
                    lemma_code_is_short(token);
                }
                let credentials = Self::from_tls(config, cert_fingerprint, code.clone());
                let new_code = if credentials.is_ok() {
                    Some(code)
                } else {
                    None
                };
                Loaded { new_identity, new_code, credentials }
            },
        }
    }

    /// The TLS configuration.
    pub fn tls_config(&self) -> (r: &Arc<rustls::ServerConfig>)
        ensures
            served_identity(**r) == self@.identity,
    {
        &self.tls_config
    }

    /// The fingerprint of the certificate.
    pub fn cert_fingerprint(&self) -> (r: &[u8; 32])
        ensures
            r@ == self@.fingerprint,
    {
        &self.cert_fingerprint
    }

    /// The pairing code.
    pub fn pairing_code(&self) -> (r: &str)
        ensures
            r@ == self@.code,
    {
        self.pairing_code.as_str()
    }

    /// The pairing code in groups that are easy to read, such as ABCD-EFGH-IJKL-MNOP.
    pub fn pairing_code_grouped(&self) -> (r: String)
        ensures
            r@ == grouped(self@.code),
    {
        let code = self.pairing_code.as_str();
        let mut out = String::new();
        let mut i: usize = 0;
        let total: usize = code.unicode_len();
        proof {
            reveal_strlit("-");
            assert(code@.skip(0) =~= code@);
            assert(out@ + grouped(code@.skip(0)) =~= grouped(code@));
        }
        while total - i > 4
            invariant
                total == code@.len(),
                i <= total,
                code@ == self@.code,
                "-"@ == seq!['-'],
                out@ + grouped(code@.skip(i as int)) == grouped(code@),
            decreases total - i,
        {
            let ghost before = out@;
            let ghost rest = code@.skip(i as int);
            out.append(code.substring_char(i, i + 4));
            out.append("-");
            i = i + 4;
            proof {
                assert(rest.skip(4) =~= code@.skip(i as int));
                assert(out@ =~= before + rest.take(4).push('-'));
                assert(out@ + grouped(rest.skip(4)) =~= before + (rest.take(4).push('-') + grouped(
                    rest.skip(4),
                )));
            }
        }
        out.append(code.substring_char(i, total));
        assert(code@.subrange(i as int, total as int) =~= code@.skip(i as int));
        out
    }

    /// The authentication code of one side of the challenge.
    pub fn mac(&self, label: &[u8], nonce_s: &[u8], nonce_c: &[u8]) -> (mac: [u8; 32])
        ensures
            mac@ == hmac_sha256_of(
                self@.token,
                mac_message(label@, nonce_s@, nonce_c@, self@.fingerprint),
            ),
    {
        let mut message: Vec<u8> = Vec::new();
        push_bytes(&mut message, label);
        push_bytes(&mut message, nonce_s);
        push_bytes(&mut message, nonce_c);
        push_bytes(&mut message, self.cert_fingerprint.as_slice());
        assert(message@ =~= mac_message(label@, nonce_s@, nonce_c@, self@.fingerprint));
        hmac_sha256(self.token.as_slice(), message.as_slice())
    }
}

/// Without its last character a text takes no more bytes.
proof fn lemma_dropping_shortens(s: Seq<char>)
    requires
        s.len() > 0,
    ensures
        vstd::utf8::encode_utf8(s.drop_last()).len() <= vstd::utf8::encode_utf8(s).len(),
    decreases s.len(),
{
    if s.len() > 1 {
        lemma_dropping_shortens(s.drop_first());
        assert(s.drop_last().drop_first() =~= s.drop_first().drop_last());
    } else {
        assert(s.drop_last() =~= Seq::empty());
    }
}

proof fn lemma_trim_start_shortens(s: Seq<char>)
    ensures
        vstd::utf8::encode_utf8(trim_start(s)).len() <= vstd::utf8::encode_utf8(s).len(),
    decreases s.len(),
{
    if s.len() > 0 && is_space(s[0]) {
        assert(s.skip(1) =~= s.drop_first());
        lemma_trim_start_shortens(s.skip(1));
    }
}

proof fn lemma_trim_end_shortens(s: Seq<char>)
    ensures
        vstd::utf8::encode_utf8(trim_end(s)).len() <= vstd::utf8::encode_utf8(s).len(),
    decreases s.len(),
{
    if s.len() > 0 && is_space(s.last()) {
        lemma_dropping_shortens(s);
        lemma_trim_end_shortens(s.drop_last());
    }
}

/// Without the space around it a text takes no more bytes.
proof fn lemma_trimming_shortens(s: Seq<char>)
    ensures
        vstd::utf8::encode_utf8(trimmed(s)).len() <= vstd::utf8::encode_utf8(s).len(),
{
    lemma_trim_start_shortens(s);
    lemma_trim_end_shortens(trim_start(s));
}

/// A new pairing code is short enough to be decoded.
proof fn lemma_code_is_short(token: Seq<u8>)
    requires
        token.len() == TOKEN_BYTES,
    ensures
        vstd::utf8::encode_utf8(base32(token)).len() <= usize::MAX / 8,
{
    base32_is_ascii(token);
    assert(vstd::utf8::is_ascii_chars(base32(token)));
    vstd::utf8::is_ascii_chars_encode_utf8(base32(token));
}

/// Compares two byte strings in a time that does not depend on where they differ.
pub fn subtle_eq(a: &[u8], b: &[u8]) -> (r: bool)
    ensures
        r == (a@ == b@),
{
    if a.len() != b.len() {
        return false;
    }
    let mut diff: u8 = 0;
    let mut i: usize = 0;
    let total: usize = a.len();
    while i < total
        invariant
            total == a@.len() == b@.len(),
            i <= total,
            diff == 0 <==> forall|k: int| 0 <= k < i ==> a@[k] == b@[k],
        decreases total - i,
    {
        let (x, y) = (a[i], b[i]);
        assert((diff | (x ^ y)) == 0 <==> diff == 0 && x == y) by (bit_vector);
        diff = diff | (x ^ y);
        i = i + 1;
    }
    assert(diff == 0 <==> a@ =~= b@);
    diff == 0
}

/// The opening of the challenge: a random number and the frame that carries it to the tablet.
pub struct Challenge {
    pub nonce: Vec<u8>,
    pub frame: Vec<u8>,
}

/// The message that carries a challenge.
pub open spec fn challenge_bytes(nonce: Seq<u8>) -> Seq<u8> {
    framed(MSG_AUTH_CHALLENGE, nonce)
}

/// The tablet reads the random number from the challenge.
pub proof fn challenges_read_back(nonce: Seq<u8>)
    requires
        nonce.len() < 0x1_0000_0000,
    ensures
        challenge_bytes(nonce)[0] == 0x86,
        u32_at(challenge_bytes(nonce), 1) == nonce.len(),
        challenge_bytes(nonce).skip(5) == nonce,
{
    frames_say_what_they_hold(MSG_AUTH_CHALLENGE, nonce);
}

/// Draws a challenge.
pub fn challenge() -> (r: Challenge)
    ensures
        r.nonce@.len() == NONCE_LEN,
        r.frame@ == challenge_bytes(r.nonce@),
{
    let nonce = random_bytes(NONCE_LEN);
    let frame = frame(MSG_AUTH_CHALLENGE, nonce.as_slice());
    Challenge { nonce, frame }
}

/// Why a peer is turned away.
#[derive(Clone, Copy, Debug, PartialEq, Eq, Structural)]
pub enum HandshakeError {
    /// Some other message stood in the place of the answer.
    UnexpectedType(u8),
    /// The answer does not hold a random number and an authentication code.
    Malformed,
    /// The authentication code is not the one that the pairing code gives.
    WrongCode,
}

impl HandshakeError {
    /// What the error is called in a log.
    pub open spec fn text(self) -> Seq<char> {
        match self {
            HandshakeError::UnexpectedType(ty) => "expected auth response, got 0x"@
                + crate::text::hex_byte(ty),
            HandshakeError::Malformed => "malformed auth response"@,
            HandshakeError::WrongCode => "client failed pairing (wrong or missing code)"@,
        }
    }

    /// The error in words.
    pub fn message(&self) -> (r: String)
        ensures
            r@ == self.text(),
    {
        match self {
            HandshakeError::UnexpectedType(ty) => {
                let mut s = "expected auth response, got 0x".to_owned();
                push_hex(&mut s, *ty);
                s
            },
            HandshakeError::Malformed => "malformed auth response".to_owned(),
            HandshakeError::WrongCode => "client failed pairing (wrong or missing code)".to_owned(),
        }
    }
}

/// What the server makes of the tablet's answer.
#[derive(Clone, Copy, Debug, PartialEq, Eq, Structural)]
pub enum Verdict {
    /// The tablet knows the pairing code.
    Paired,
    /// The peer only asked who is there.
    Probe,
    Refused(HandshakeError),
}

/// A verdict with the frame that goes back to the peer, if any does.
pub struct Answer {
    pub verdict: Verdict,
    pub reply: Option<Vec<u8>>,
}

impl View for Answer {
    type V = (Verdict, Option<Seq<u8>>);

    open spec fn view(&self) -> (Verdict, Option<Seq<u8>>) {
        (
            self.verdict,
            match self.reply {
                Some(f) => Some(f@),
                None => None,
            },
        )
    }
}

/// The verdict on a message, and the reply to it, where `expected` is the authentication code that a
/// paired tablet sends and `own` the one that the server answers it with.
pub open spec fn answer_to(
    ty: u8,
    payload: Seq<u8>,
    hostname: Seq<char>,
    expected: Seq<u8>,
    own: Seq<u8>,
) -> (Verdict, Option<Seq<u8>>) {
    if ty == MSG_DISCOVER {
        (Verdict::Probe, Some(framed(MSG_DISCOVER, vstd::utf8::encode_utf8(hostname))))
    } else if ty != MSG_AUTH_RESPONSE {
        (Verdict::Refused(HandshakeError::UnexpectedType(ty)), None)
    } else if payload.len() != NONCE_LEN + MAC_LEN {
        (Verdict::Refused(HandshakeError::Malformed), None)
    } else if payload.skip(NONCE_LEN as int) == expected {
        (Verdict::Paired, Some(framed(MSG_AUTH_OK, own)))
    } else {
        (
            Verdict::Refused(HandshakeError::WrongCode),
            Some(framed(MSG_AUTH_FAIL, vstd::utf8::encode_utf8("pairing code mismatch"@))),
        )
    }
}

/// Judges a message by the authentication codes that belong to it.
pub fn judge(ty: u8, payload: &[u8], hostname: &str, expected: &[u8; 32], own: &[u8; 32]) -> (r:
    Answer)
    ensures
        r@ == answer_to(ty, payload@, hostname@, expected@, own@),
{
    if ty == MSG_DISCOVER {
        let reply = frame(MSG_DISCOVER, hostname.as_bytes());
        return Answer { verdict: Verdict::Probe, reply: Some(reply) };
    }
    if ty != MSG_AUTH_RESPONSE {
        return Answer {
            verdict: Verdict::Refused(HandshakeError::UnexpectedType(ty)),
            reply: None,
        };
    }
    let total: usize = payload.len();
    if total != NONCE_LEN + MAC_LEN {
        return Answer { verdict: Verdict::Refused(HandshakeError::Malformed), reply: None };
    }
    let mac_c = copy_range(payload, NONCE_LEN, total);
    assert(mac_c@ =~= payload@.skip(NONCE_LEN as int));
    if subtle_eq(mac_c.as_slice(), expected.as_slice()) {
        Answer { verdict: Verdict::Paired, reply: Some(frame(MSG_AUTH_OK, own.as_slice())) }
    } else {
        let reply = frame(MSG_AUTH_FAIL, "pairing code mismatch".as_bytes());
        Answer { verdict: Verdict::Refused(HandshakeError::WrongCode), reply: Some(reply) }
    }
}

/// The random number that the tablet contributes.
pub open spec fn client_nonce(payload: Seq<u8>) -> Seq<u8> {
    payload.take(NONCE_LEN as int)
}

/// The authentication code that a tablet with this token sends.
pub open spec fn client_mac(secrets: Secrets, nonce_s: Seq<u8>, nonce_c: Seq<u8>) -> Seq<u8> {
    hmac_sha256_of(
        secrets.token,
        mac_message(client_label(), nonce_s, nonce_c, secrets.fingerprint),
    )
}

/// The authentication code that a server with this token answers.
pub open spec fn server_mac(secrets: Secrets, nonce_s: Seq<u8>, nonce_c: Seq<u8>) -> Seq<u8> {
    hmac_sha256_of(
        secrets.token,
        mac_message(server_label(), nonce_s, nonce_c, secrets.fingerprint),
    )
}

/// The server's side of the pairing handshake, once the challenge `nonce_s` has gone out and a
/// message has come back.
pub fn server_handshake(
    creds: &Credentials,
    nonce_s: &[u8],
    ty: u8,
    payload: &[u8],
    hostname: &str,
) -> (r: Answer)
    ensures
        r@ == answer_to(
            ty,
            payload@,
            hostname@,
            client_mac(creds@, nonce_s@, client_nonce(payload@)),
            server_mac(creds@, nonce_s@, client_nonce(payload@)),
        ),
{
    let total: usize = payload.len();
    if ty == MSG_AUTH_RESPONSE && total == NONCE_LEN + MAC_LEN {
        let nonce_c = copy_range(payload, 0, NONCE_LEN);
        assert(nonce_c@ =~= client_nonce(payload@));
        let expected = creds.mac("tabscreen-client".as_bytes(), nonce_s, nonce_c.as_slice());
        let own = creds.mac("tabscreen-server".as_bytes(), nonce_s, nonce_c.as_slice());
        judge(ty, payload, hostname, &expected, &own)
    } else {
        let none: [u8; 32] = [0; 32];
        judge(ty, payload, hostname, &none, &none)
    }
}

/// A tablet that holds the same token and sees the same certificate is let in, and gets the server's
/// own authentication code back.
pub proof fn paired_tablet_is_let_in(
    server: Secrets,
    tablet: Secrets,
    nonce_s: Seq<u8>,
    payload: Seq<u8>,
    hostname: Seq<char>,
)
    requires
        tablet.token == server.token,
        tablet.fingerprint == server.fingerprint,
        payload.len() == NONCE_LEN + MAC_LEN,
        payload.skip(NONCE_LEN as int) == client_mac(tablet, nonce_s, client_nonce(payload)),
    ensures
        answer_to(
            MSG_AUTH_RESPONSE,
            payload,
            hostname,
            client_mac(server, nonce_s, client_nonce(payload)),
            server_mac(server, nonce_s, client_nonce(payload)),
        ) == (
            Verdict::Paired,
            Some(framed(MSG_AUTH_OK, server_mac(tablet, nonce_s, client_nonce(payload)))),
        ),
{
}

/// Nobody else is let in: a peer is paired only by an answer that ends in the authentication code,
/// and whoever is refused for a wrong one is told so.
pub proof fn others_are_turned_away(
    ty: u8,
    payload: Seq<u8>,
    hostname: Seq<char>,
    expected: Seq<u8>,
    own: Seq<u8>,
)
    ensures
        answer_to(ty, payload, hostname, expected, own).0 is Paired <==> ty == MSG_AUTH_RESPONSE
            && payload.len() == NONCE_LEN + MAC_LEN && payload.skip(NONCE_LEN as int) == expected,
        answer_to(ty, payload, hostname, expected, own).0 == Verdict::Refused(
            HandshakeError::WrongCode,
        ) ==> answer_to(ty, payload, hostname, expected, own).1 == Some(
            framed(MSG_AUTH_FAIL, vstd::utf8::encode_utf8("pairing code mismatch"@)),
        ),
{
}

/// The labels of the two sides, as bytes.
proof fn lemma_labels()
    ensures
        client_label().len() == 16,
        server_label().len() == 16,
        client_label()[10] == 'c' as u8,
        server_label()[10] == 's' as u8,
{
    reveal_strlit("tabscreen-client");
    reveal_strlit("tabscreen-server");
    let c = "tabscreen-client"@;
    let s = "tabscreen-server"@;
    assert(vstd::utf8::is_ascii_chars(c));
    assert(vstd::utf8::is_ascii_chars(s));
    vstd::utf8::is_ascii_chars_encode_utf8(c);
    vstd::utf8::is_ascii_chars_encode_utf8(s);
    assert(c[10] == 'c' && s[10] == 's');
}

/// What the tablet authenticates is never what the server authenticates, so that neither can be
/// answered with its own code.
pub proof fn sides_authenticate_different_messages(
    nonce_s: Seq<u8>,
    nonce_c: Seq<u8>,
    fingerprint: Seq<u8>,
    nonce_s2: Seq<u8>,
    nonce_c2: Seq<u8>,
    fingerprint2: Seq<u8>,
)
    ensures
        mac_message(client_label(), nonce_s, nonce_c, fingerprint) != mac_message(
            server_label(),
            nonce_s2,
            nonce_c2,
            fingerprint2,
        ),
{
    lemma_labels();
    let a = mac_message(client_label(), nonce_s, nonce_c, fingerprint);
    let b = mac_message(server_label(), nonce_s2, nonce_c2, fingerprint2);
    assert(a[10] == client_label()[10]);
    assert(b[10] == server_label()[10]);
}

/// The authenticated message fixes the challenge, the tablet's number and the certificate: an answer
/// made for another of these is made of another message.
pub proof fn message_fixes_its_parts(
    label: Seq<u8>,
    nonce_s: Seq<u8>,
    nonce_c: Seq<u8>,
    fingerprint: Seq<u8>,
    nonce_s2: Seq<u8>,
    nonce_c2: Seq<u8>,
    fingerprint2: Seq<u8>,
)
    requires
        nonce_s.len() == nonce_s2.len(),
        nonce_c.len() == nonce_c2.len(),
        mac_message(label, nonce_s, nonce_c, fingerprint) == mac_message(
            label,
            nonce_s2,
            nonce_c2,
            fingerprint2,
        ),
    ensures
        nonce_s == nonce_s2,
        nonce_c == nonce_c2,
        fingerprint == fingerprint2,
{
    let a = mac_message(label, nonce_s, nonce_c, fingerprint);
    let b = mac_message(label, nonce_s2, nonce_c2, fingerprint2);
    let l = label.len() as int;
    let s = nonce_s.len() as int;
    let c = nonce_c.len() as int;
    assert(nonce_s =~= a.subrange(l, l + s));
    assert(nonce_s2 =~= b.subrange(l, l + s));
    assert(nonce_c =~= a.subrange(l + s, l + s + c));
    assert(nonce_c2 =~= b.subrange(l + s, l + s + c));
    assert(fingerprint =~= a.skip(l + s + c));
    assert(fingerprint2 =~= b.skip(l + s + c));
}

/// A pairing code outlives a restart: read back from where it was stored, it stands for the token
/// that it was drawn for.
pub proof fn code_outlives_a_restart(drawn: Seq<u8>, read: Seq<u8>)
    requires
        trimmed(base32(drawn)) == base32(read),
    ensures
        read == drawn,
{
    let code = base32(drawn);
    base32_is_ascii(drawn);
    assert(trimmed(code) == code);
    base32_is_injective(read, drawn);
}

/// The tablet pairs only once: a load of what an earlier load left stored makes nothing anew, and
/// gives the same identity, fingerprint, token and code. The one thing that can still fail is the TLS
/// configuration.
pub proof fn credentials_outlive_a_restart(
    stored_identity: Option<Identity>,
    stored_code: Option<String>,
    first: Loaded,
    second: Loaded,
)
    requires
        loads(stored_identity, stored_code, first),
        first.credentials is Ok,
        loads(
            stored_after(stored_identity, first.new_identity),
            stored_after(stored_code, first.new_code),
            second,
        ),
    ensures
        second.new_identity is None,
        second.new_code is None,
        match second.credentials {
            Ok(c) => c@ == first.credentials->Ok_0@,
            Err(e) => e is Tls,
        },
{
    let c1 = first.credentials->Ok_0;
    let code = c1@.code;
    if stored_code is None {
        let raw = choose|raw: Seq<u8>|
            raw.len() == TOKEN_BYTES && first.new_code->0@ == #[trigger] base32(raw);
        base32_is_ascii(raw);
        assert(trimmed(code) == code);
    }
    if let Ok(c2) = second.credentials {
        assert(c2@.code == code);
        base32_is_injective(c2@.token, c1@.token);
    }
}

/// `s` without its dashes.
pub open spec fn without_dashes(s: Seq<char>) -> Seq<char> {
    s.filter(|c: char| c != '-')
}

/// The grouped code is the code with dashes between groups: without them it is the code again.
pub proof fn grouping_only_adds_dashes(code: Seq<char>)
    requires
        !code.contains('-'),
    ensures
        without_dashes(grouped(code)) == code,
    decreases code.len(),
{
    let keep = |c: char| c != '-';
    if code.len() <= 4 {
        assert(forall|i: int| 0 <= i < code.len() ==> code[i] != '-');
        lemma_filter_all(code);
    } else {
        let head = code.take(4);
        let tail = code.skip(4);
        assert(!tail.contains('-')) by {
            if tail.contains('-') {
                let i = choose|i: int| 0 <= i < tail.len() && tail[i] == '-';
                assert(code[i + 4] == '-');
            }
        }
        assert(!head.contains('-'));
        grouping_only_adds_dashes(tail);
        lemma_filter_all(head);
        assert(head.push('-').drop_last() =~= head);
        reveal(Seq::filter);
        assert(without_dashes(head.push('-')) == head);
        Seq::filter_distributes_over_add(head.push('-'), grouped(tail), keep);
        assert(head + tail =~= code);
    }
}

/// Nothing is lost of a text without dashes.
proof fn lemma_filter_all(s: Seq<char>)
    requires
        !s.contains('-'),
    ensures
        without_dashes(s) == s,
    decreases s.len(),
{
    reveal(Seq::filter);
    if s.len() > 0 {
        assert(s.contains(s.last()));
        assert(!s.drop_last().contains('-')) by {
            if s.drop_last().contains('-') {
                let i = choose|i: int| 0 <= i < s.len() - 1 && s.drop_last()[i] == '-';
                assert(s[i] == '-');
            }
        }
        lemma_filter_all(s.drop_last());
        assert(s.drop_last().push(s.last()) =~= s);
    } else {
        assert(s =~= Seq::<char>::empty());
    }
}

/// A new pairing code has sixteen symbols, none of them a dash, and shows as four groups of four.
pub proof fn new_code_shows_as_four_groups(token: Seq<u8>)
    requires
        token.len() == TOKEN_BYTES,
    ensures
        base32(token).len() == 16,
        !base32(token).contains('-'),
        grouped(base32(token)).len() == 19,
        forall|i: int| #![trigger grouped(base32(token))[i]]
            0 <= i < 19 ==> (grouped(base32(token))[i] == '-' <==> i == 4 || i == 9 || i == 14),
{
    let code = base32(token);
    base32_is_ascii(token);
    assert(forall|i: int| 0 <= i < code.len() ==> code[i] != '-');
    reveal_with_fuel(grouped, 4);
    assert(code.skip(4).skip(4) =~= code.skip(8));
    assert(code.skip(8).skip(4) =~= code.skip(12));
    let g = grouped(code);
    assert(g =~= code.take(4).push('-') + (code.skip(4).take(4).push('-') + (code.skip(8).take(
        4,
    ).push('-') + code.skip(12))));
}

/// The tablet proves its knowledge of the token by a code of four things in a row: the word for its
/// side, the server's random number, its own and the fingerprint of the certificate that it sees. The
/// server answers by a code of the same four, but for the word.
pub proof fn what_either_side_authenticates(secrets: Secrets, nonce_s: Seq<u8>, nonce_c: Seq<u8>)
    requires
        nonce_s.len() == 16,
        nonce_c.len() == 16,
    ensures
        exists|m: Seq<u8>|
            client_mac(secrets, nonce_s, nonce_c) == #[trigger] hmac_sha256_of(secrets.token, m)
                && m.take(16) == vstd::utf8::encode_utf8("tabscreen-client"@) && m.subrange(16, 32)
                == nonce_s && m.subrange(32, 48) == nonce_c && m.skip(48) == secrets.fingerprint,
        exists|m: Seq<u8>|
            server_mac(secrets, nonce_s, nonce_c) == #[trigger] hmac_sha256_of(secrets.token, m)
                && m.take(16) == vstd::utf8::encode_utf8("tabscreen-server"@) && m.subrange(16, 32)
                == nonce_s && m.subrange(32, 48) == nonce_c && m.skip(48) == secrets.fingerprint,
{
    lemma_labels();
    let c = mac_message(client_label(), nonce_s, nonce_c, secrets.fingerprint);
    assert(c.take(16) =~= client_label());
    assert(c.subrange(16, 32) =~= nonce_s);
    assert(c.subrange(32, 48) =~= nonce_c);
    assert(c.skip(48) =~= secrets.fingerprint);
    assert(client_mac(secrets, nonce_s, nonce_c) == hmac_sha256_of(secrets.token, c));
    let s = mac_message(server_label(), nonce_s, nonce_c, secrets.fingerprint);
    assert(s.take(16) =~= server_label());
    assert(s.subrange(16, 32) =~= nonce_s);
    assert(s.subrange(32, 48) =~= nonce_c);
    assert(s.skip(48) =~= secrets.fingerprint);
    assert(server_mac(secrets, nonce_s, nonce_c) == hmac_sha256_of(secrets.token, s));
}

/// Every message gets its verdict and its reply: the question who is there the name of the computer;
/// a good answer the server's own code; an answer with another code the word that the pairing code
/// does not match; and a message that is no answer, or is none of the right length, no reply at all.
pub proof fn every_message_gets_its_verdict(
    ty: u8,
    payload: Seq<u8>,
    hostname: Seq<char>,
    expected: Seq<u8>,
    own: Seq<u8>,
)
    requires
        vstd::utf8::encode_utf8(hostname).len() < 0x1_0000_0000,
        own.len() < 0x1_0000_0000,
    ensures
        ({
            let (verdict, reply) = answer_to(ty, payload, hostname, expected, own);
            &&& verdict == Verdict::Probe <==> ty == 6
            &&& ty == 6 ==> (reply matches Some(f) && f[0] == 6 && vstd::utf8::decode_utf8(
                f.skip(5),
            ) == hostname)
            &&& ty != 6 && ty != 7 ==> verdict == Verdict::Refused(
                HandshakeError::UnexpectedType(ty),
            ) && reply is None
            &&& ty == 7 && payload.len() != 48 ==> verdict == Verdict::Refused(
                HandshakeError::Malformed,
            ) && reply is None
            &&& ty == 7 && payload.len() == 48 && payload.subrange(16, 48) == expected ==> verdict
                == Verdict::Paired && (reply matches Some(f) && f[0] == 0x87 && f.skip(5) == own)
            &&& ty == 7 && payload.len() == 48 && payload.subrange(16, 48) != expected ==> verdict
                == Verdict::Refused(HandshakeError::WrongCode) && (reply matches Some(f) && f[0]
                == 0x88 && vstd::utf8::decode_utf8(f.skip(5)) == "pairing code mismatch"@)
        }),
{
    let mismatch = "pairing code mismatch"@;
    reveal_strlit("pairing code mismatch");
    assert(vstd::utf8::is_ascii_chars(mismatch));
    vstd::utf8::is_ascii_chars_encode_utf8(mismatch);
    vstd::utf8::encode_utf8_decode_utf8(mismatch);
    vstd::utf8::encode_utf8_decode_utf8(hostname);
    frames_say_what_they_hold(MSG_DISCOVER, vstd::utf8::encode_utf8(hostname));
    frames_say_what_they_hold(MSG_AUTH_OK, own);
    frames_say_what_they_hold(MSG_AUTH_FAIL, vstd::utf8::encode_utf8(mismatch));
    if payload.len() == 48 {
        assert(payload.skip(NONCE_LEN as int) =~= payload.subrange(16, 48));
    }
}

/// A message in the place of the answer is named by its type.
pub proof fn handshake_errors_name_their_cause(ty: u8)
    ensures
        hex_byte(ty).is_suffix_of(HandshakeError::UnexpectedType(ty).text()),
{
}

/// Credentials that were loaded belong together: the fingerprint is that of the certificate which
/// TLS presents, and the code is the notation of the token. What was stored is what is used: the
/// certificate, the key, and the code but for the space around it.
pub proof fn loaded_credentials_belong_together(
    stored_identity: Option<Identity>,
    stored_code: Option<String>,
    r: Loaded,
)
    requires
        loads(stored_identity, stored_code, r),
        r.credentials is Ok,
    ensures
        ({
            let c = r.credentials->Ok_0@;
            &&& c.fingerprint == sha256_of(c.identity.0)
            &&& c.code == base32(c.token)
            &&& stored_identity matches Some(id) ==> c.identity.0 == id.cert_der@ && c.identity.1
                == id.key_der@ && r.new_identity is None
            &&& stored_identity is None ==> (r.new_identity matches Some(id) && c.identity.0
                == id.cert_der@ && c.identity.1 == id.key_der@ && certificate_names(id.cert_der@)
                == seq!["tabscreen"@])
            &&& stored_code matches Some(s) ==> c.code == trimmed(s@) && r.new_code is None
            &&& stored_code is None ==> (r.new_code matches Some(code) && c.code == code@
                && c.token.len() == 10)
        }),
{
    if stored_code is None {
        let c = r.credentials->Ok_0@;
        let raw = choose|raw: Seq<u8>|
            raw.len() == TOKEN_BYTES && r.new_code->0@ == #[trigger] base32(raw);
        base32_is_injective(c.token, raw);
    }
}

/// A stored code that is the notation of a token, whatever space stands around it, is taken for that
/// token, and is never called corrupt.
pub proof fn stored_codes_are_recognised(
    stored_identity: Option<Identity>,
    stored_code: String,
    r: Loaded,
    front: Seq<char>,
    token: Seq<u8>,
    back: Seq<char>,
)
    requires
        loads(stored_identity, Some(stored_code), r),
        stored_code@ == front + base32(token) + back,
        is_blank(front),
        is_blank(back),
        token.len() > 0,
    ensures
        !(r.credentials matches Err(CredentialsError::CorruptToken)),
        r.credentials matches Ok(c) ==> c@.token == token,
{
    base32_is_ascii(token);
    let code = base32(token);
    space_around_is_cut(front, code, back);
    assert(trimmed(stored_code@) == base32(token));
    if let Ok(c) = r.credentials {
        base32_is_injective(c@.token, token);
    }
}

/// Groups have four symbols each: in the grouped notation of a code without dashes, every fifth place
/// has a dash, and no other.
pub proof fn groups_have_four_symbols(code: Seq<char>, i: int)
    requires
        !code.contains('-'),
        0 <= i < grouped(code).len(),
    ensures
        grouped(code)[i] == '-' <==> i % 5 == 4,
    decreases code.len(),
{
    if code.len() > 4 {
        let tail = code.skip(4);
        assert(!tail.contains('-')) by {
            if tail.contains('-') {
                let k = choose|k: int| 0 <= k < tail.len() && tail[k] == '-';
                assert(code[k + 4] == '-');
            }
        }
        let g = grouped(code);
        if i < 4 {
            assert(g[i] == code[i]);
            assert(code.contains(code[i]));
        } else if i > 4 {
            assert(g[i] == grouped(tail)[i - 5]);
            groups_have_four_symbols(tail, i - 5);
        }
    } else {
        assert(code.contains(code[i]));
    }
}

} // verus!
