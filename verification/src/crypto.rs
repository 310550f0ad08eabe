//! The cryptographic and encoding primitives that pairing rests on, as the crates that implement
//! them are relied upon.
use hmac::Mac;
use rand::RngCore;
use sha2::Digest;
use vstd::prelude::*;

verus! {

/// The HMAC-SHA-256 code of a message under a key.
pub uninterp spec fn hmac_sha256_of(key: Seq<u8>, message: Seq<u8>) -> Seq<u8>;

/// Calls `hmac::Hmac::<sha2::Sha256>` with `new_from_slice`, one `update` and `finalize`.
///
/// Relied upon: the code is a function of the key and the message alone. HMAC takes a key of any
/// length, so `new_from_slice` never fails.
#[verifier::external_body]
pub(crate) fn hmac_sha256(key: &[u8], message: &[u8]) -> (mac: [u8; 32])
    ensures
        mac@ == hmac_sha256_of(key@, message@),
{
    let mut m = hmac::Hmac::<sha2::Sha256>::new_from_slice(key).expect("hmac key");
    m.update(message);
    m.finalize().into_bytes().into()
}

/// The SHA-256 digest of a byte string.
pub uninterp spec fn sha256_of(data: Seq<u8>) -> Seq<u8>;

/// Calls `sha2::Sha256::digest`.
///
/// Relied upon: the digest is a function of the data alone.
#[verifier::external_body]
pub(crate) fn sha256(data: &[u8]) -> (digest: [u8; 32])
    ensures
        digest@ == sha256_of(data@),
{
    sha2::Sha256::digest(data).into()
}

/// Calls `rand::thread_rng().fill_bytes`, which fills a buffer with random bytes.
///
/// Relied upon: the buffer keeps its length. Of the bytes themselves nothing is said: they are left
/// to chance. The call panics on a system without a source of randomness.
#[verifier::external_body]
pub(crate) fn random_bytes(n: usize) -> (bytes: Vec<u8>)
    requires
        n <= 0x1000,
    ensures
        bytes@.len() == n,
{
    let mut bytes = vec![0u8; n];
    rand::thread_rng().fill_bytes(&mut bytes);
    bytes
}

/// Bit `j` of a byte, counted from the most significant one.
pub open spec fn byte_bit(b: u8, j: int) -> int {
    if j == 0 {
        (b / 128) as int
    } else if j == 1 {
        (b / 64 % 2) as int
    } else if j == 2 {
        (b / 32 % 2) as int
    } else if j == 3 {
        (b / 16 % 2) as int
    } else if j == 4 {
        (b / 8 % 2) as int
    } else if j == 5 {
        (b / 4 % 2) as int
    } else if j == 6 {
        (b / 2 % 2) as int
    } else {
        (b % 2) as int
    }
}

/// Bit `k` of a byte string, counted from the front; zero behind its end.
pub open spec fn string_bit(raw: Seq<u8>, k: int) -> int {
    if 0 <= k < 8 * raw.len() {
        byte_bit(raw[k / 8], k % 8)
    } else {
        0
    }
}

/// The `i`-th group of five bits of a byte string.
pub open spec fn quintet(raw: Seq<u8>, i: int) -> int {
    16 * string_bit(raw, 5 * i) + 8 * string_bit(raw, 5 * i + 1) + 4 * string_bit(raw, 5 * i + 2)
        + 2 * string_bit(raw, 5 * i + 3) + string_bit(raw, 5 * i + 4)
}

/// The base32 symbol of a group: the letters `A` to `Z`, then the digits `2` to `7`.
pub open spec fn symbol(d: int) -> char {
    if d < 26 {
        ('A' as u32 + d) as char
    } else {
        ('2' as u32 + (d - 26)) as char
    }
}

/// The unpadded base32 notation of a byte string.
pub open spec fn base32(raw: Seq<u8>) -> Seq<char> {
    Seq::new(((8 * raw.len() + 4) / 5) as nat, |i: int| symbol(quintet(raw, i)))
}

/// Calls `data_encoding::BASE32_NOPAD.encode`.
///
/// Relied upon: the result is the unpadded base32 notation of the input. Beyond the stated length
/// the call may panic.
#[verifier::external_body]
pub(crate) fn base32_encode(raw: &[u8]) -> (text: String)
    requires
        raw@.len() <= usize::MAX / 512,
    ensures
        text@ == base32(raw@),
{
    data_encoding::BASE32_NOPAD.encode(raw)
}

/// The error of the base32 decoder, of which nothing is known but that it is one.
#[verifier::external_type_specification]
#[verifier::external_body]
pub struct ExDecodeError(data_encoding::DecodeError);

/// Calls `data_encoding::BASE32_NOPAD.decode` on the bytes of a text.
///
/// Relied upon: the encoding is canonical, so that a text decodes exactly to the bytes of which it
/// is the notation, and a text that is the notation of no bytes is an error. Beyond the stated
/// length the call may panic.
#[verifier::external_body]
pub(crate) fn base32_decode(text: &str) -> (r: Result<Vec<u8>, data_encoding::DecodeError>)
    requires
        vstd::utf8::encode_utf8(text@).len() <= usize::MAX / 8,
    ensures
        match r {
            Ok(raw) => text@ == base32(raw@),
            Err(_) => forall|raw: Seq<u8>| text@ != #[trigger] base32(raw),
        },
{
    data_encoding::BASE32_NOPAD.decode(text.as_bytes())
}

/// The names that a DER-encoded certificate was issued for.
pub uninterp spec fn certificate_names(cert_der: Seq<u8>) -> Seq<Seq<char>>;

/// Whether a name is made of the letters `a` to `z` alone.
pub open spec fn is_plain_name(name: Seq<char>) -> bool {
    name.len() > 0 && forall|i: int| 0 <= i < name.len() ==> 'a' <= #[trigger] name[i] <= 'z'
}

/// The error of certificate generation, which is only passed on.
#[verifier::external_type_specification]
#[verifier::external_body]
pub struct ExRcgenError(rcgen::Error);

/// Calls `rcgen::generate_simple_self_signed` and returns the certificate and the private key in
/// DER form.
///
/// Relied upon: the certificate names what was asked for, where that is one host name of plain
/// letters. The key is drawn at random; of its bytes, and of when the call fails, nothing is said.
#[verifier::external_body]
pub(crate) fn self_signed(names: Vec<String>) -> (r: Result<(Vec<u8>, Vec<u8>), rcgen::Error>)
    ensures
        r matches Ok(pair) ==> (names@.len() == 1 && is_plain_name(names@[0]@)
            ==> certificate_names(pair.0@) == seq![names@[0]@]),
{
    match rcgen::generate_simple_self_signed(names) {
        Ok(c) => Ok((c.cert.der().to_vec(), c.key_pair.serialize_der())),
        Err(e) => Err(e),
    }
}

/// A TLS configuration, known only by the identity that it presents.
#[verifier::external_type_specification]
#[verifier::external_body]
pub struct ExServerConfig(rustls::ServerConfig);

/// The error of a TLS configuration, which is only passed on.
#[verifier::external_type_specification]
#[verifier::external_body]
pub struct ExTlsError(rustls::Error);

/// The certificate and the private key, in DER form, that a TLS configuration presents.
pub uninterp spec fn served_identity(config: rustls::ServerConfig) -> (Seq<u8>, Seq<u8>);

/// Calls `rustls::ServerConfig::builder`, `with_no_client_auth` and `with_single_cert`.
///
/// Relied upon: a configuration that comes out presents this certificate with this key on every
/// connection. When the call fails depends on the cryptography provider of the process and is not
/// said.
#[verifier::external_body]
pub(crate) fn tls_config(cert_der: Vec<u8>, key_der: Vec<u8>) -> (r: Result<
    rustls::ServerConfig,
    rustls::Error,
>)
    ensures
        r matches Ok(config) ==> served_identity(config) == (cert_der@, key_der@),
{
    let certs = vec![rustls::pki_types::CertificateDer::from(cert_der)];
    let key = rustls::pki_types::PrivatePkcs8KeyDer::from(key_der);
    rustls::ServerConfig::builder().with_no_client_auth().with_single_cert(
        certs,
        rustls::pki_types::PrivateKeyDer::Pkcs8(key),
    )
}

/// A group of five bits determines each of them.
proof fn lemma_quintet_bits(a: Seq<u8>, b: Seq<u8>, i: int)
    requires
        quintet(a, i) == quintet(b, i),
    ensures
        forall|j: int| 5 * i <= j < 5 * i + 5 ==> #[trigger] string_bit(a, j) == string_bit(b, j),
{
    assert forall|k: int| 0 <= #[trigger] string_bit(a, k) <= 1 && 0 <= string_bit(b, k) <= 1 by {
        lemma_bit_range(a, k);
        lemma_bit_range(b, k);
    }
    let a0 = string_bit(a, 5 * i);
    let a1 = string_bit(a, 5 * i + 1);
    let a2 = string_bit(a, 5 * i + 2);
    let a3 = string_bit(a, 5 * i + 3);
    let a4 = string_bit(a, 5 * i + 4);
    let b0 = string_bit(b, 5 * i);
    let b1 = string_bit(b, 5 * i + 1);
    let b2 = string_bit(b, 5 * i + 2);
    let b3 = string_bit(b, 5 * i + 3);
    let b4 = string_bit(b, 5 * i + 4);
    assert(a0 == b0 && a1 == b1 && a2 == b2 && a3 == b3 && a4 == b4);
}

proof fn lemma_bit_range(a: Seq<u8>, k: int)
    ensures
        0 <= string_bit(a, k) <= 1,
{
}

proof fn lemma_quintet_range(a: Seq<u8>, i: int)
    ensures
        0 <= quintet(a, i) < 32,
{
    lemma_bit_range(a, 5 * i);
    lemma_bit_range(a, 5 * i + 1);
    lemma_bit_range(a, 5 * i + 2);
    lemma_bit_range(a, 5 * i + 3);
    lemma_bit_range(a, 5 * i + 4);
}

proof fn lemma_symbol_injective(c: int, d: int)
    requires
        0 <= c < 32,
        0 <= d < 32,
        symbol(c) == symbol(d),
    ensures
        c == d,
{
}

/// A byte is the sum of its bits.
proof fn lemma_byte_from_bits(b: u8)
    ensures
        b == 128 * byte_bit(b, 0) + 64 * byte_bit(b, 1) + 32 * byte_bit(b, 2) + 16 * byte_bit(b, 3)
            + 8 * byte_bit(b, 4) + 4 * byte_bit(b, 5) + 2 * byte_bit(b, 6) + byte_bit(b, 7),
{
    assert(b == 128 * (b / 128) + 64 * (b / 64 % 2) + 32 * (b / 32 % 2) + 16 * (b / 16 % 2) + 8 * (b
        / 8 % 2) + 4 * (b / 4 % 2) + 2 * (b / 2 % 2) + b % 2) by (bit_vector);
}

/// Different byte strings have different base32 notations.
pub proof fn base32_is_injective(a: Seq<u8>, b: Seq<u8>)
    requires
        base32(a) == base32(b),
    ensures
        a == b,
{
    let n = base32(a).len() as int;
    assert(base32(b).len() == n);
    assert(a.len() == b.len());
    assert forall|k: int| 0 <= k < 8 * a.len() implies #[trigger] string_bit(a, k) == string_bit(
        b,
        k,
    ) by {
        let i = k / 5;
        assert(0 <= i < n);
        assert(base32(a)[i] == symbol(quintet(a, i)) && base32(b)[i] == symbol(quintet(b, i)));
        lemma_quintet_range(a, i);
        lemma_quintet_range(b, i);
        lemma_symbol_injective(quintet(a, i), quintet(b, i));
        lemma_quintet_bits(a, b, i);
    }
    assert forall|m: int| 0 <= m < a.len() implies a[m] == b[m] by {
        assert forall|j: int| 0 <= j < 8 implies #[trigger] byte_bit(a[m], j) == byte_bit(b[m], j) by {
            assert(string_bit(a, 8 * m + j) == string_bit(b, 8 * m + j));
            assert((8 * m + j) / 8 == m && (8 * m + j) % 8 == j);
        }
        lemma_byte_from_bits(a[m]);
        lemma_byte_from_bits(b[m]);
    }
    assert(a =~= b);
}

/// The notation is made of capital letters and digits alone.
pub proof fn base32_is_ascii(raw: Seq<u8>)
    ensures
        forall|i: int| 0 <= i < base32(raw).len() ==> {
            ||| 'A' <= #[trigger] base32(raw)[i] <= 'Z'
            ||| '2' <= base32(raw)[i] <= '7'
        },
{
    assert forall|i: int| 0 <= i < base32(raw).len() implies {
        ||| 'A' <= #[trigger] base32(raw)[i] <= 'Z'
        ||| '2' <= base32(raw)[i] <= '7'
    } by {
        lemma_quintet_range(raw, i);
    }
}

} // verus!
