//! The cryptographic, compression and encoding primitives, which other crates provide.
//!
//! Every function here hands its arguments to one function of another crate. What it
//! promises of the result was read off that crate and is not proved.
use crate::text::hex_digit;
use vstd::prelude::*;
use vstd::string::*;
use vstd::utf8::{decode_utf8, valid_utf8};

verus! {

/// The length of an AES-GCM authentication tag.
pub const TAG_LEN: usize = 16;

/// The length of an AES-GCM nonce.
pub const NONCE_LEN: usize = 12;

/// The longest message that AES-GCM encrypts.
pub const MAX_SEALED: u64 = 0x10_0000_0000;

/// What a byte string is, where there is one.
pub open spec fn bytes_of(s: Option<&[u8]>) -> Option<Seq<u8>> {
    match s {
        Some(b) => Some(b@),
        None => None,
    }
}

/// Bytes, or what an error says, as a value.
pub open spec fn bytes_view(res: Result<Vec<u8>, String>) -> Result<Seq<u8>, Seq<char>> {
    match res {
        Ok(data) => Ok(data@),
        Err(e) => Err(e@),
    }
}

/// Draws 32 bytes from `rand::rngs::OsRng`, the random numbers of the operating system.
#[verifier::external_body]
pub(crate) fn random_secret() -> [u8; 32] {
    let mut secret = [0u8; 32];
    rand::RngCore::fill_bytes(&mut rand::rngs::OsRng, &mut secret);
    secret
}

/// Draws a nonce with `rand::random`.
#[verifier::external_body]
pub(crate) fn random_nonce() -> [u8; 12] {
    rand::random()
}

/// The X25519 product of a secret and a public key.
pub uninterp spec fn x25519_product(secret: Seq<u8>, public: Seq<u8>) -> Seq<u8>;

/// The X25519 base point.
pub open spec fn x25519_base() -> Seq<u8> {
    Seq::new(32, |i: int| if i == 0 { 9u8 } else { 0u8 })
}

/// `x25519_dalek::x25519`: the X25519 function. Where the point is the base point, the
/// result is a public key, and the product of any other secret with it is the product of
/// this secret with the public key for the other one.
#[verifier::external_body]
pub(crate) fn x25519(secret: &[u8; 32], public: &[u8; 32]) -> (res: [u8; 32])
    ensures
        res@ == x25519_product(secret@, public@),
        public@ == x25519_base() ==> forall|other: Seq<u8>| other.len() == 32
            ==> #[trigger] x25519_product(other, res@) == x25519_product(
            secret@,
            x25519_product(other, x25519_base()),
        ),
{
    x25519_dalek::x25519(*secret, *public)
}

/// The Ed25519 public key for a secret key.
pub uninterp spec fn ed25519_public(secret: Seq<u8>) -> Seq<u8>;

/// The Ed25519 signature that a secret key gives a message.
pub uninterp spec fn ed25519_signature(secret: Seq<u8>, message: Seq<u8>) -> Seq<u8>;

/// What is wrong with bytes that are no Ed25519 public key.
pub uninterp spec fn ed25519_key_fault(public: Seq<u8>) -> Option<Seq<char>>;

/// Whether some bytes are a public key.
pub open spec fn ed25519_key_valid(public: Seq<u8>) -> bool {
    ed25519_key_fault(public) is None
}

/// Whether a signature on a message is that of a public key.
pub uninterp spec fn ed25519_verifies(public: Seq<u8>, message: Seq<u8>, signature: Seq<u8>) -> bool;

/// `ed25519_dalek::SigningKey::verifying_key`: the public key for a secret key, which is a
/// valid key.
#[verifier::external_body]
pub(crate) fn signing_public(secret: &[u8; 32]) -> (res: [u8; 32])
    ensures
        res@ == ed25519_public(secret@),
        ed25519_key_valid(res@),
{
    ed25519_dalek::SigningKey::from_bytes(secret).verifying_key().to_bytes()
}

/// `ed25519_dalek::Signer::sign`: the signature on a message, which verifies against the
/// public key for the secret.
#[verifier::external_body]
pub(crate) fn sign(secret: &[u8; 32], message: &[u8]) -> (res: [u8; 64])
    ensures
        res@ == ed25519_signature(secret@, message@),
        ed25519_verifies(ed25519_public(secret@), message@, res@),
{
    ed25519_dalek::Signer::sign(&ed25519_dalek::SigningKey::from_bytes(secret), message).to_bytes()
}

/// `ed25519_dalek::VerifyingKey::from_bytes`: what is wrong with the bytes, as the error says,
/// where they are no public key.
#[verifier::external_body]
pub(crate) fn public_key_fault(public: &[u8; 32]) -> (res: Option<String>)
    ensures
        res.deep_view() == ed25519_key_fault(public@),
{
    ed25519_dalek::VerifyingKey::from_bytes(public).err().map(|e| e.to_string())
}

/// `ed25519_dalek::Verifier::verify`: whether the signature on the message is that of the
/// key. Bytes that are no key verify nothing.
#[verifier::external_body]
pub(crate) fn verify(public: &[u8; 32], message: &[u8], signature: &[u8; 64]) -> (res: bool)
    ensures
        res == ed25519_verifies(public@, message@, signature@),
        !ed25519_key_valid(public@) ==> !res,
{
    let signature = ed25519_dalek::Signature::from_bytes(signature);
    match ed25519_dalek::VerifyingKey::from_bytes(public) {
        Ok(key) => ed25519_dalek::Verifier::verify(&key, message, &signature).is_ok(),
        Err(_) => false,
    }
}

/// The first `len` bytes that HKDF-SHA256 derives.
pub uninterp spec fn hkdf_sha256(salt: Option<Seq<u8>>, ikm: Seq<u8>, info: Seq<u8>, len: nat) -> Seq<u8>;

/// `hkdf::Hkdf::expand` after `hkdf::Hkdf::new`, with SHA-256: `N` bytes derived from the
/// key material. It derives at most 255 blocks of 32 bytes.
#[verifier::external_body]
pub(crate) fn hkdf<const N: usize>(salt: Option<&[u8]>, ikm: &[u8], info: &[u8]) -> (res: [u8; N])
    requires
        N <= 8160,
    ensures
        res@ == hkdf_sha256(bytes_of(salt), ikm@, info@, N as nat),
{
    let mut okm = [0u8; N];
    hkdf::Hkdf::<sha2::Sha256>::new(salt, ikm).expand(info, &mut okm).expect("length is in range");
    okm
}

/// The SHA-256 digest.
pub uninterp spec fn sha256_digest(data: Seq<u8>) -> Seq<u8>;

/// `sha2::Sha256::digest`.
#[verifier::external_body]
pub(crate) fn sha256(data: &[u8]) -> (res: [u8; 32])
    ensures
        res@ == sha256_digest(data@),
{
    <sha2::Sha256 as sha2::Digest>::digest(data).into()
}

/// The AES-256-GCM ciphertext of a message, with the tag behind it.
pub uninterp spec fn aes_gcm_sealed(key: Seq<u8>, nonce: Seq<u8>, message: Seq<u8>, aad: Seq<u8>) -> Seq<u8>;

/// The message in an AES-256-GCM ciphertext with its tag, if the tag is the right one.
pub uninterp spec fn aes_gcm_opened(key: Seq<u8>, nonce: Seq<u8>, sealed: Seq<u8>, aad: Seq<u8>) -> Option<Seq<u8>>;

/// `aes_gcm::aead::Aead::encrypt` on `aes_gcm::Aes256Gcm`: encrypts and authenticates. The
/// result is as much longer as the tag is, and opens to the message again.
#[verifier::external_body]
pub(crate) fn aes_gcm_seal(key: &[u8; 32], nonce: &[u8; 12], message: &[u8], aad: &[u8]) -> (res: Vec<u8>)
    requires
        message@.len() <= MAX_SEALED,
        aad@.len() <= MAX_SEALED,
    ensures
        res@ == aes_gcm_sealed(key@, nonce@, message@, aad@),
        res@.len() == message@.len() + TAG_LEN,
        aes_gcm_opened(key@, nonce@, res@, aad@) == Some(message@),
{
    let cipher = <aes_gcm::Aes256Gcm as aes_gcm::KeyInit>::new(key.into());
    let payload = aes_gcm::aead::Payload { msg: message, aad };
    aes_gcm::aead::Aead::encrypt(&cipher, nonce.into(), payload).expect("length is in range")
}

/// `aes_gcm::aead::Aead::decrypt` on `aes_gcm::Aes256Gcm`: checks the tag and decrypts.
/// What is opened is as much shorter as the tag is.
#[verifier::external_body]
pub(crate) fn aes_gcm_open(key: &[u8; 32], nonce: &[u8; 12], sealed: &[u8], aad: &[u8]) -> (res: Option<Vec<u8>>)
    ensures
        match res {
            Some(message) => aes_gcm_opened(key@, nonce@, sealed@, aad@) == Some(message@)
                && message@.len() + TAG_LEN == sealed@.len(),
            None => aes_gcm_opened(key@, nonce@, sealed@, aad@) is None,
        },
{
    let cipher = <aes_gcm::Aes256Gcm as aes_gcm::KeyInit>::new(key.into());
    let payload = aes_gcm::aead::Payload { msg: sealed, aad };
    aes_gcm::aead::Aead::decrypt(&cipher, nonce.into(), payload).ok()
}

/// The base64 symbol for six bits.
pub open spec fn base64_symbol(n: int) -> char {
    if n < 26 {
        (65 + n) as char
    } else if n < 52 {
        (71 + n) as char
    } else if n < 62 {
        (n - 4) as char
    } else if n == 62 {
        '+'
    } else {
        '/'
    }
}

/// Padded base64.
pub open spec fn base64_text(s: Seq<u8>) -> Seq<char>
    decreases s.len(),
{
    let a = s[0] as int;
    let b = s[1] as int;
    let c = s[2] as int;
    if s.len() == 0 {
        seq![]
    } else if s.len() == 1 {
        seq![base64_symbol(a / 4), base64_symbol(a % 4 * 16), '=', '=']
    } else if s.len() == 2 {
        seq![base64_symbol(a / 4), base64_symbol(a % 4 * 16 + b / 16), base64_symbol(b % 16 * 4), '=']
    } else {
        seq![
            base64_symbol(a / 4),
            base64_symbol(a % 4 * 16 + b / 16),
            base64_symbol(b % 16 * 4 + c / 64),
            base64_symbol(c % 64),
        ] + base64_text(s.skip(3))
    }
}

/// The bytes that a padded base64 text stands for, or what the error says.
pub uninterp spec fn base64_decoded(text: Seq<char>) -> Result<Seq<u8>, Seq<char>>;

/// `data_encoding::BASE64.encode`: padded base64, which decodes to the bytes again. Its
/// length computation holds up to the length asked for.
#[verifier::external_body]
pub(crate) fn base64_encode(data: &[u8]) -> (res: String)
    requires
        data@.len() <= usize::MAX / 512,
    ensures
        res@ == base64_text(data@),
        base64_decoded(res@) is Ok,
        base64_decoded(res@)->Ok_0 == data@,
{
    data_encoding::BASE64.encode(data)
}

/// `data_encoding::BASE64.decode`: the bytes, or what the error says. Its length computation holds up to the length asked for.
#[verifier::external_body]
pub(crate) fn base64_decode(text: &str) -> (res: Result<Vec<u8>, String>)
    requires
        text.spec_bytes().len() <= usize::MAX / 8,
    ensures
        base64_decoded(text@) == bytes_view(res),
{
    data_encoding::BASE64.decode(text.as_bytes()).map_err(|e| e.to_string())
}

/// Lower-case hexadecimal, two digits for a byte.
pub open spec fn hex_text(s: Seq<u8>) -> Seq<char> {
    Seq::new(
        2 * s.len(),
        |i: int| hex_digit(if i % 2 == 0 { s[i / 2] as int / 16 } else { s[i / 2] as int % 16 }),
    )
}

/// `data_encoding::HEXLOWER.encode`: lower-case hexadecimal.
#[verifier::external_body]
pub(crate) fn hex_encode(data: &[u8]) -> (res: String)
    requires
        data@.len() <= usize::MAX / 512,
    ensures
        res@ == hex_text(data@),
{
    data_encoding::HEXLOWER.encode(data)
}

/// `blake3::Hasher`, which hashes bytes as they come.
#[verifier::external_type_specification]
#[verifier::external_body]
pub struct ExBlake3Hasher(blake3::Hasher);

/// The bytes that a hasher has been given.
pub uninterp spec fn blake3_input(hasher: blake3::Hasher) -> Seq<u8>;

/// The BLAKE3 hash of some bytes, in hexadecimal.
pub uninterp spec fn blake3_hex(data: Seq<u8>) -> Seq<char>;

/// `blake3::Hasher::new`: a hasher that has been given nothing.
#[verifier::external_body]
pub(crate) fn blake3_new() -> (res: blake3::Hasher)
    ensures
        blake3_input(res) == Seq::<u8>::empty(),
{
    blake3::Hasher::new()
}

/// `blake3::Hasher::update`: gives a hasher more bytes.
#[verifier::external_body]
pub(crate) fn blake3_update(hasher: &mut blake3::Hasher, data: &[u8])
    ensures
        blake3_input(*final(hasher)) == blake3_input(*old(hasher)) + data@,
{
    hasher.update(data);
}

/// `blake3::Hasher::finalize`: the hash of all the bytes that a hasher has been given.
#[verifier::external_body]
pub(crate) fn blake3_finish(hasher: &blake3::Hasher) -> (res: String)
    ensures
        res@ == blake3_hex(blake3_input(*hasher)),
{
    hasher.finalize().to_hex().to_string()
}

/// The Zstandard frame that some bytes are compressed to.
pub uninterp spec fn zstd_frame(data: Seq<u8>, level: i32) -> Seq<u8>;

/// The bytes that Zstandard frames decompress to; none where they are no frames that can be
/// read, but what the error says.
pub uninterp spec fn zstd_content(frame: Seq<u8>) -> Result<Seq<u8>, Seq<char>>;

/// `zstd::encode_all`: compresses. What comes out decompresses to the bytes that went in. From
/// a slice into a vector it fails for want of memory alone, and memory is taken to be there.
#[verifier::external_body]
pub(crate) fn zstd_compress(data: &[u8], level: i32) -> (res: Vec<u8>)
    ensures
        res@ == zstd_frame(data@, level),
        zstd_content(res@) is Ok,
        zstd_content(res@)->Ok_0 == data@,
{
    zstd::encode_all(data, level).expect("memory to compress in")
}

/// `zstd::Decoder`, read to its end: decompresses, and fails on bytes that are no sequence of
/// complete Zstandard frames that it can read. The memory that it needs is taken to be there.
#[verifier::external_body]
pub(crate) fn zstd_decompress(frame: &[u8]) -> (res: Result<Vec<u8>, String>)
    ensures
        zstd_content(frame@) == bytes_view(res),
{
    let mut data = Vec::new();
    let mut decoder = zstd::Decoder::new(frame).map_err(|e| e.to_string())?;
    std::io::Read::read_to_end(&mut decoder, &mut data).map(|_| data).map_err(|e| e.to_string())
}

/// What bytes read as, with what is no UTF-8 replaced.
pub uninterp spec fn utf8_lossy(data: Seq<u8>) -> Seq<char>;

/// `String::from_utf8_lossy`: reads UTF-8, with what is none replaced.
#[verifier::external_body]
pub(crate) fn text_from_utf8(data: &[u8]) -> (res: String)
    ensures
        res@ == utf8_lossy(data@),
        valid_utf8(data@) ==> res@ == decode_utf8(data@),
{
    String::from_utf8_lossy(data).into_owned()
}

}
