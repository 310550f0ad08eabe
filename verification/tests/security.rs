use hmac::Mac;
use sha2::Digest;
use tabscreen::connection::{Link, Refusal};
use tabscreen::protocol::{
    frame, MSG_AUTH_CHALLENGE, MSG_AUTH_FAIL, MSG_AUTH_OK, MSG_AUTH_RESPONSE, MSG_DISCOVER,
    MSG_HELLO, MSG_PING, VERSION,
};
use tabscreen::security::{
    challenge, judge, server_handshake, subtle_eq, Credentials, CredentialsError, HandshakeError,
    Identity, Verdict,
};
use tabscreen::session::HelloError;

fn hmac_of(key: &[u8], message: &[u8]) -> Vec<u8> {
    let mut m = hmac::Hmac::<sha2::Sha256>::new_from_slice(key).unwrap();
    m.update(message);
    m.finalize().into_bytes().to_vec()
}

fn identity() -> Identity {
    Credentials::load_or_create(None, None).new_identity.unwrap()
}

fn copy(id: &Identity) -> Identity {
    Identity { cert_der: id.cert_der.clone(), key_der: id.key_der.clone() }
}

/// Credentials whose token is the six bytes of "foobar".
fn foobar() -> Credentials {
    let loaded = Credentials::load_or_create(Some(identity()), Some("MZXW6YTBOI\n".to_string()));
    match loaded.credentials {
        Ok(c) => c,
        Err(_) => panic!("no credentials"),
    }
}

fn answer_of(creds: &Credentials, key: &[u8], nonce_s: &[u8], nonce_c: &[u8]) -> Vec<u8> {
    let mut message = b"tabscreen-client".to_vec();
    message.extend_from_slice(nonce_s);
    message.extend_from_slice(nonce_c);
    message.extend_from_slice(creds.cert_fingerprint());
    let mut payload = nonce_c.to_vec();
    payload.extend(hmac_of(key, &message));
    payload
}

#[test]
fn credentials_are_made_when_there_are_none() {
    let loaded = Credentials::load_or_create(None, None);
    let id = loaded.new_identity.unwrap();
    let code = loaded.new_code.unwrap();
    let creds = loaded.credentials.ok().unwrap();
    assert_eq!(creds.pairing_code(), code);
    assert_eq!(code.len(), 16);
    assert!(code.chars().all(|c| matches!(c, 'A'..='Z' | '2'..='7')));
    assert_eq!(creds.cert_fingerprint()[..], sha2::Sha256::digest(&id.cert_der)[..]);
    // The name that the certificate was made for stands in it.
    assert!(id.cert_der.windows(9).any(|w| w == b"tabscreen"));
    assert!(rustls::ServerConnection::new(creds.tls_config().clone()).is_ok());
    assert_eq!(creds.pairing_code_grouped().len(), 19);
}

#[test]
fn credentials_outlive_a_restart() {
    let first = Credentials::load_or_create(None, None);
    let id = first.new_identity.unwrap();
    let code = first.new_code.unwrap();
    let before = first.credentials.ok().unwrap();
    let second = Credentials::load_or_create(Some(id), Some(format!("  {code}\r\n")));
    assert!(second.new_identity.is_none());
    assert!(second.new_code.is_none());
    let after = second.credentials.ok().unwrap();
    assert_eq!(after.pairing_code(), before.pairing_code());
    assert_eq!(after.cert_fingerprint(), before.cert_fingerprint());
    assert_eq!(after.mac(b"label", b"one", b"two"), before.mac(b"label", b"one", b"two"));
}

#[test]
fn two_codes_that_were_drawn_differ() {
    let a = Credentials::load_or_create(None, None).new_code.unwrap();
    let b = Credentials::load_or_create(None, None).new_code.unwrap();
    assert_ne!(a, b);
}

#[test]
fn a_corrupt_code_is_refused() {
    let id = identity();
    for code in ["ABC1", "mzxw6ytboi", "MZ", "M", "MZXW6===", "MZXW 6YTBOI", "Ä"] {
        let loaded = Credentials::load_or_create(Some(copy(&id)), Some(code.to_string()));
        assert!(matches!(loaded.credentials, Err(CredentialsError::CorruptToken)));
        assert!(loaded.new_code.is_none());
    }
    // The notation of no bytes at all is a notation.
    let empty = Credentials::load_or_create(Some(copy(&id)), Some(" \n".to_string()));
    assert_eq!(empty.credentials.ok().unwrap().pairing_code(), "");
}

#[test]
fn a_broken_key_is_refused() {
    let id = Identity { cert_der: vec![1, 2, 3], key_der: vec![4, 5, 6] };
    let loaded = Credentials::load_or_create(Some(id), None);
    assert!(matches!(loaded.credentials, Err(CredentialsError::Tls(_))));
    assert!(loaded.new_identity.is_none());
    assert!(loaded.new_code.is_none());
}

#[test]
fn credentials_can_be_assembled() {
    let config = rustls::ServerConfig::builder()
        .with_no_client_auth()
        .with_cert_resolver(std::sync::Arc::new(rustls::server::ResolvesServerCertUsingSni::new()));
    let creds = Credentials::assemble(config.clone(), [7; 32], "MY".to_string()).ok().unwrap();
    assert_eq!(creds.pairing_code(), "MY");
    assert_eq!(creds.cert_fingerprint(), &[7; 32]);
    let mut message = b"lsc".to_vec();
    message.extend_from_slice(&[7; 32]);
    assert_eq!(creds.mac(b"l", b"s", b"c")[..], hmac_of(b"f", &message)[..]);
    assert!(matches!(
        Credentials::assemble(config, [7; 32], "MZ".to_string()),
        Err(CredentialsError::CorruptToken)
    ));
}

#[test]
fn failures_of_the_libraries_are_handed_on() {
    let failed = Err(rustls::Error::General("no provider".to_string()));
    match Credentials::from_tls(failed, [7; 32], "MY".to_string()) {
        Err(CredentialsError::Tls(e)) => {
            assert_eq!(e, rustls::Error::General("no provider".to_string()))
        }
        _ => unreachable!(),
    }
    match Identity::from_generated(Err(rcgen::Error::UnsupportedSignatureAlgorithm)) {
        Err(CredentialsError::Generation(e)) => {
            assert_eq!(e, rcgen::Error::UnsupportedSignatureAlgorithm)
        }
        _ => unreachable!(),
    }
    let id = Identity::from_generated(Ok((vec![1], vec![2, 3]))).ok().unwrap();
    assert_eq!((id.cert_der, id.key_der), (vec![1], vec![2, 3]));
}

#[test]
fn a_tablet_of_the_first_version_gets_in() {
    let creds = foobar();
    let mut p = vec![0u8; 18];
    p[0] = 1;
    let moved = Link::Paired.advance(&creds, MSG_HELLO, &p, "host");
    assert!(matches!(moved.link, Link::Greeted { hello } if hello.version == 1));
    assert!(moved.refusal.is_none());
}

#[test]
fn codes_show_in_groups() {
    let id = identity();
    for (code, shown) in [
        ("", ""),
        ("MY", "MY"),
        ("MZXQ", "MZXQ"),
        ("MZXW6", "MZXW-6"),
        ("MZXW6YTB", "MZXW-6YTB"),
        ("MZXW6YTBOI", "MZXW-6YTB-OI"),
        ("AAAQEAYEAUDAOCAJ", "AAAQ-EAYE-AUDA-OCAJ"),
    ] {
        let creds =
            Credentials::load_or_create(Some(copy(&id)), Some(code.to_string())).credentials.ok().unwrap();
        assert_eq!(creds.pairing_code_grouped(), shown);
        assert_eq!(creds.pairing_code_grouped().replace('-', ""), code);
    }
}

#[test]
fn byte_strings_are_compared() {
    assert!(subtle_eq(&[], &[]));
    assert!(subtle_eq(&[1, 2, 3], &[1, 2, 3]));
    assert!(!subtle_eq(&[1, 2, 3], &[1, 2]));
    assert!(!subtle_eq(&[1, 2, 3], &[1, 2, 4]));
    assert!(!subtle_eq(&[0x80, 2, 3], &[0, 2, 3]));
}

#[test]
fn challenges_are_random_and_framed() {
    let a = challenge();
    let b = challenge();
    assert_eq!(a.nonce.len(), 16);
    assert_eq!(a.frame, frame(MSG_AUTH_CHALLENGE, &a.nonce));
    assert_ne!(a.nonce, b.nonce);
}

#[test]
fn the_paired_tablet_is_let_in() {
    let creds = foobar();
    let (s, c) = ([1u8; 16], [2u8; 16]);
    let payload = answer_of(&creds, b"foobar", &s, &c);
    let r = server_handshake(&creds, &s, MSG_AUTH_RESPONSE, &payload, "host");
    assert_eq!(r.verdict, Verdict::Paired);
    let mut message = b"tabscreen-server".to_vec();
    message.extend_from_slice(&s);
    message.extend_from_slice(&c);
    message.extend_from_slice(creds.cert_fingerprint());
    assert_eq!(r.reply, Some(frame(MSG_AUTH_OK, &hmac_of(b"foobar", &message))));
}

#[test]
fn wrong_answers_are_refused() {
    let creds = foobar();
    let other = foobar();
    let (s, c) = ([1u8; 16], [2u8; 16]);
    let mismatch = Some(frame(MSG_AUTH_FAIL, b"pairing code mismatch"));
    let mut flipped = answer_of(&creds, b"foobar", &s, &c);
    flipped[47] ^= 1;
    for payload in [
        answer_of(&creds, b"foobaz", &s, &c),
        answer_of(&creds, b"foobar", &[9; 16], &c),
        // Made for another certificate.
        answer_of(&other, b"foobar", &s, &c),
        flipped,
        vec![0; 48],
    ] {
        let r = server_handshake(&creds, &s, MSG_AUTH_RESPONSE, &payload, "host");
        assert_eq!(r.verdict, Verdict::Refused(HandshakeError::WrongCode));
        assert_eq!(r.reply, mismatch);
    }
    let mut short = answer_of(&creds, b"foobar", &s, &c);
    short.pop();
    let r = server_handshake(&creds, &s, MSG_AUTH_RESPONSE, &short, "host");
    assert_eq!(r.verdict, Verdict::Refused(HandshakeError::Malformed));
    assert_eq!(r.reply, None);
    let r = server_handshake(&creds, &s, MSG_PING, &short, "host");
    assert_eq!(r.verdict, Verdict::Refused(HandshakeError::UnexpectedType(MSG_PING)));
    assert_eq!(r.reply, None);
}

#[test]
fn the_server_never_accepts_its_own_code() {
    let creds = foobar();
    let (s, c) = ([1u8; 16], [2u8; 16]);
    let mut payload = c.to_vec();
    payload.extend_from_slice(&creds.mac(b"tabscreen-server", &s, &c));
    let r = server_handshake(&creds, &s, MSG_AUTH_RESPONSE, &payload, "host");
    assert_eq!(r.verdict, Verdict::Refused(HandshakeError::WrongCode));
}

#[test]
fn messages_are_judged_by_their_codes() {
    let mut payload = vec![5u8; 16];
    payload.extend_from_slice(&[6; 32]);
    let r = judge(MSG_AUTH_RESPONSE, &payload, "host", &[6; 32], &[8; 32]);
    assert_eq!(r.verdict, Verdict::Paired);
    assert_eq!(r.reply, Some(frame(MSG_AUTH_OK, &[8; 32])));
    let r = judge(MSG_AUTH_RESPONSE, &payload, "host", &[7; 32], &[8; 32]);
    assert_eq!(r.verdict, Verdict::Refused(HandshakeError::WrongCode));
    let r = judge(MSG_DISCOVER, &[], "häuschen", &[7; 32], &[8; 32]);
    assert_eq!(r.verdict, Verdict::Probe);
    assert_eq!(r.reply, Some(frame(MSG_DISCOVER, "häuschen".as_bytes())));
}

#[test]
fn refusals_have_words() {
    assert_eq!(
        HandshakeError::UnexpectedType(0x0a).message(),
        "expected auth response, got 0x0a"
    );
    assert_eq!(HandshakeError::Malformed.message(), "malformed auth response");
    assert_eq!(
        HandshakeError::WrongCode.message(),
        "client failed pairing (wrong or missing code)"
    );
    assert_eq!(Refusal::Handshake(HandshakeError::Malformed).message(), "malformed auth response");
    assert_eq!(
        Refusal::Greeting(HelloError::WrongType(4)).message(),
        "expected HELLO, got message type 0x04"
    );
}

fn hello() -> Vec<u8> {
    let mut p = vec![0u8; 20];
    p[..2].copy_from_slice(&VERSION.to_le_bytes());
    p
}

#[test]
fn a_connection_leads_to_a_session() {
    let creds = foobar();
    let nonce = vec![3u8; 16];
    let payload = answer_of(&creds, b"foobar", &nonce, &[4; 16]);
    let moved = Link::Challenged { nonce }.advance(&creds, MSG_AUTH_RESPONSE, &payload, "host");
    assert!(matches!(moved.link, Link::Paired));
    assert!(moved.refusal.is_none());
    assert_eq!(moved.reply.unwrap()[0], MSG_AUTH_OK);
    let moved = moved.link.advance(&creds, MSG_HELLO, &hello(), "host");
    assert!(matches!(moved.link, Link::Greeted { .. }));
    assert!(moved.reply.is_none());
    let moved = moved.link.advance(&creds, MSG_PING, &[], "host");
    assert!(matches!(moved.link, Link::Greeted { .. }));
}

#[test]
fn nobody_greets_before_pairing() {
    let creds = foobar();
    let moved = Link::Challenged { nonce: vec![3; 16] }.advance(&creds, MSG_HELLO, &hello(), "host");
    assert!(matches!(moved.link, Link::Over));
    assert_eq!(
        moved.refusal,
        Some(Refusal::Handshake(HandshakeError::UnexpectedType(MSG_HELLO)))
    );
    let moved = moved.link.advance(&creds, MSG_HELLO, &hello(), "host");
    assert!(matches!(moved.link, Link::Over));
    assert!(moved.refusal.is_none());
    let probe = Link::Challenged { nonce: vec![3; 16] }.advance(&creds, MSG_DISCOVER, &[], "host");
    assert!(matches!(probe.link, Link::Over));
    assert!(probe.refusal.is_none());
    assert_eq!(probe.reply, Some(frame(MSG_DISCOVER, b"host")));
    let other = Link::Paired.advance(&creds, MSG_PING, &[], "host");
    assert!(matches!(other.link, Link::Over));
    assert_eq!(other.refusal, Some(Refusal::Greeting(HelloError::WrongType(MSG_PING))));
}
