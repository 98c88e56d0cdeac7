//! The AES-256-GCM secret key and symmetric encryption of file contents:
//! the output is the 12-byte nonce followed by the ciphertext and tag.

use vstd::prelude::*;
use aes_gcm::aead::Aead;
use aes_gcm::KeyInit;
use rand::RngCore;
use crate::encoding::{b64_decode, b64_encode, base64_decode, base64_encode, decimal, decimal_text};
use crate::log_format::{format_log, log_message};
use crate::text::{string_from_chars, to_chars, trim, trim_chars};

verus! {

/// The longest plaintext, in bytes, that AES-GCM encrypts (2^36).
pub open spec fn aes_gcm_max_plaintext() -> int {
    0x10_0000_0000
}

/// What `Aes256Gcm::encrypt` returns for `key`, `nonce` and `plaintext`
/// (ciphertext followed by the 16-byte tag).
pub uninterp spec fn aes256gcm_seal(key: Seq<u8>, nonce: Seq<u8>, plaintext: Seq<u8>) -> Seq<u8>;

/// What `Aes256Gcm::decrypt` returns for `key`, `nonce` and `ciphertext`:
/// the plaintext, or none when authentication fails.
pub uninterp spec fn aes256gcm_open(key: Seq<u8>, nonce: Seq<u8>, ciphertext: Seq<u8>) -> Option<Seq<u8>>;

/// `Aes256Gcm::new` and `Aead::encrypt` with no associated data. It states
/// that the result is the named ciphertext, 16 bytes longer than the
/// plaintext, that decrypting it with the same key and nonce gives the
/// plaintext back (the AEAD correctness that the crate documents), and
/// that it fails exactly on plaintexts longer than 2^36 bytes.
#[verifier::external_body]
fn aes256gcm_encrypt(key: &[u8; 32], nonce: &[u8; 12], plaintext: &[u8]) -> (r: Option<Vec<u8>>)
    ensures
        r matches Some(c) ==> {
            &&& c@ == aes256gcm_seal(key@, nonce@, plaintext@)
            &&& c@.len() == plaintext@.len() + 16
            &&& aes256gcm_open(key@, nonce@, c@) == Some(plaintext@)
        },
        r is None <==> plaintext@.len() > aes_gcm_max_plaintext(),
{
    let cipher = aes_gcm::Aes256Gcm::new(aes_gcm::Key::<aes_gcm::Aes256Gcm>::from_slice(key));
    cipher.encrypt(aes_gcm::Nonce::from_slice(nonce), plaintext).ok()
}

/// `Aes256Gcm::new` and `Aead::decrypt` with no associated data; an error
/// becomes `None`. Data shorter than the 16-byte tag is refused.
#[verifier::external_body]
fn aes256gcm_decrypt(key: &[u8; 32], nonce: &[u8], ciphertext: &[u8]) -> (r: Option<Vec<u8>>)
    requires
        nonce@.len() == 12,
    ensures
        ciphertext@.len() < 16 ==> r is None,
        match r {
            Some(p) => aes256gcm_open(key@, nonce@, ciphertext@) == Some(p@),
            None => aes256gcm_open(key@, nonce@, ciphertext@) is None,
        },
{
    let cipher = aes_gcm::Aes256Gcm::new(aes_gcm::Key::<aes_gcm::Aes256Gcm>::from_slice(key));
    cipher.decrypt(aes_gcm::Nonce::from_slice(nonce), ciphertext).ok()
}

/// Twelve bytes from the operating system's random source
/// (`OsRng::fill_bytes`); nothing is stated of their values.
#[verifier::external_body]
fn random_nonce() -> (r: [u8; 12]) {
    let mut n = [0u8; 12];
    rand::rngs::OsRng.fill_bytes(&mut n);
    n
}

/// `Aes256Gcm::generate_key` with the operating system's random source;
/// nothing is stated of the key's value.
#[verifier::external_body]
fn random_aes_key() -> (r: [u8; 32]) {
    aes_gcm::Aes256Gcm::generate_key(&mut rand::rngs::OsRng).into()
}

/// A 256-bit AES-GCM key.
pub struct SecretKey {
    bytes: [u8; 32],
}

impl View for SecretKey {
    type V = Seq<u8>;

    closed spec fn view(&self) -> Seq<u8> {
        self.bytes@
    }
}

impl SecretKey {
    /// The key's 32 bytes.
    pub proof fn lemma_len(&self)
        ensures
            self@.len() == 32,
    {
    }

    /// The key with the given bytes.
    pub fn from_bytes(bytes: [u8; 32]) -> (r: SecretKey)
        ensures
            r@ == bytes@,
    {
        SecretKey { bytes }
    }

    /// The key's bytes.
    pub fn to_bytes(&self) -> (r: [u8; 32])
        ensures
            r@ == self@,
    {
        self.bytes
    }

    /// A fresh random key, drawn from the operating system's random
    /// source: any 32 bytes may come out, so only its length is stated.
    pub fn generate() -> (r: SecretKey)
        ensures
            r@.len() == 32,
    {
        SecretKey { bytes: random_aes_key() }
    }
}

/// The error when the key file's text is not Base64.
pub open spec fn secret_key_not_base64() -> Seq<char> {
    "Error decoding secret key from Base64 format"@
}

/// The error when the key file decodes to `n` bytes, not 32.
pub open spec fn secret_key_wrong_length(n: nat) -> Seq<char> {
    "Secret key must be 32 bytes long (256 bits). Found "@ + decimal(n)
        + " bytes after Base64 decoding."@
}

/// The key that a key file's text holds: its trimmed text decoded from
/// Base64, which must give exactly 32 bytes.
pub open spec fn secret_key_result(text: Seq<char>) -> Result<Seq<u8>, Seq<char>> {
    match b64_decode(trim(text)) {
        None => Err(secret_key_not_base64()),
        Some(b) => if b.len() == 32 {
            Ok(b)
        } else {
            Err(secret_key_wrong_length(b.len()))
        },
    }
}

/// The view of a key result.
pub open spec fn key_result_view(r: Result<SecretKey, String>) -> Result<Seq<u8>, Seq<char>> {
    match r {
        Ok(k) => Ok(k@),
        Err(e) => Err(e@),
    }
}

/// The view of a byte result.
pub open spec fn bytes_result_view(r: Result<Vec<u8>, String>) -> Result<Seq<u8>, Seq<char>> {
    match r {
        Ok(b) => Ok(b@),
        Err(e) => Err(e@),
    }
}

/// Reads the secret key from the text of its key file: trimmed, decoded
/// from Base64, and required to be 32 bytes long.
pub fn load_secret_key(text: &str) -> (r: Result<SecretKey, String>)
    ensures
        key_result_view(r) == secret_key_result(text@),
{
    let trimmed = string_from_chars(&trim_chars(&to_chars(text)));
    match base64_decode(trimmed.as_str()) {
        None => Err("Error decoding secret key from Base64 format".to_string()),
        Some(b) => {
            if b.len() != 32 {
                let mut msg = "Secret key must be 32 bytes long (256 bits). Found ".to_string();
                msg.append(decimal_text(b.len()).as_str());
                msg.append(" bytes after Base64 decoding.");
                Err(msg)
            } else {
                let mut bytes = [0u8; 32];
                let mut i: usize = 0;
                while i < 32
                    invariant
                        b@.len() == 32,
                        i <= 32,
                        forall|j: int| 0 <= j < i ==> bytes@[j] == b@[j],
                    decreases 32 - i,
                {
                    bytes[i] = b[i];
                    i = i + 1;
                }
                assert(bytes@ =~= b@);
                Ok(SecretKey { bytes })
            }
        },
    }
}

/// The text of the key file for `key`: its Base64 encoding.
pub fn secret_key_text(key: &SecretKey) -> (r: String)
    ensures
        r@ == b64_encode(key@),
{
    base64_encode(&key.bytes)
}

/// The key text as shown to the user: the key file's text, trimmed.
pub fn secret_key_display(text: &str) -> (r: String)
    ensures
        r@ == trim(text@),
{
    string_from_chars(&trim_chars(&to_chars(text)))
}


/// Decoding the key text of a key gives the key back.
pub proof fn law_secret_key_text_round_trip(key: Seq<u8>)
    requires
        key.len() == 32,
    ensures
        secret_key_result(b64_encode(key)) == Ok::<Seq<u8>, Seq<char>>(key),
{
    crate::encoding::lemma_b64_round_trip(key);
    crate::encoding::lemma_b64_no_whitespace(key);
}

/// The error for encrypted data shorter than a nonce.
pub open spec fn short_data_error(n: nat) -> Seq<char> {
    log_message("Decrypt Failed"@, seq![("Reason"@, "Corrupt/Short File"@), ("File Size"@, decimal(n))])
}

/// The error when the tag does not authenticate the data under the key.
pub open spec fn tag_mismatch_error() -> Seq<char> {
    log_message("Decrypt Failed"@, seq![("Reason"@, "Authentication Tag or Key Mismatch"@)])
}

/// The error when AES-GCM refuses to encrypt.
pub open spec fn cipher_error() -> Seq<char> {
    log_message("Symmetric Encrypt Failed"@, seq![("Reason"@, "Cipher Error"@)])
}

/// Encrypted data: the nonce, then the ciphertext with its tag.
pub open spec fn sealed_data(key: Seq<u8>, nonce: Seq<u8>, plaintext: Seq<u8>) -> Seq<u8> {
    nonce + aes256gcm_seal(key, nonce, plaintext)
}

/// What decrypting `data` under `key` gives: data shorter than the 12-byte
/// nonce is refused; otherwise the first 12 bytes are the nonce and the
/// rest is decrypted and authenticated.
pub open spec fn open_data(key: Seq<u8>, data: Seq<u8>) -> Result<Seq<u8>, Seq<char>> {
    if data.len() < 12 {
        Err(short_data_error(data.len()))
    } else {
        match aes256gcm_open(key, data.take(12), data.skip(12)) {
            Some(p) => Ok(p),
            None => Err(tag_mismatch_error()),
        }
    }
}

/// Encrypts `plaintext` under `key` with the given nonce: the result is the
/// nonce followed by the ciphertext and tag, and decrypts back to the
/// plaintext. AES-GCM refuses plaintexts over 2^36 bytes.
pub fn symmetric_encrypt_with_nonce(key: &SecretKey, nonce: &[u8; 12], plaintext: &[u8]) -> (r: Result<Vec<u8>, String>)
    ensures
        r is Ok <==> plaintext@.len() <= aes_gcm_max_plaintext(),
        r matches Ok(out) ==> {
            &&& out@ == sealed_data(key@, nonce@, plaintext@)
            &&& out@.len() == plaintext@.len() + 28
            &&& open_data(key@, out@) == Ok::<Seq<u8>, Seq<char>>(plaintext@)
        },
        r matches Err(e) ==> e@ == cipher_error(),
{
    match aes256gcm_encrypt(&key.bytes, nonce, plaintext) {
        Some(c) => {
            let mut out: Vec<u8> = Vec::new();
            let mut i: usize = 0;
            while i < 12
                invariant
                    i <= 12,
                    out@ == nonce@.take(i as int),
                decreases 12 - i,
            {
                out.push(nonce[i]);
                i = i + 1;
                assert(out@ =~= nonce@.take(i as int));
            }
            let mut j: usize = 0;
            while j < c.len()
                invariant
                    j <= c.len(),
                    out@ == nonce@ + c@.take(j as int),
                decreases c.len() - j,
            {
                out.push(c[j]);
                j = j + 1;
                assert(out@ =~= nonce@ + c@.take(j as int));
            }
            assert(nonce@.take(12) =~= nonce@);
            assert(c@.take(c.len() as int) =~= c@);
            assert(out@.take(12) =~= nonce@);
            assert(out@.skip(12) =~= c@);
            Ok(out)
        },
        None => Err(format_log("Symmetric Encrypt Failed", &[("Reason", "Cipher Error")])),
    }
}

/// Encrypts `plaintext` under `key` with a fresh random nonce. On success
/// the result is 28 bytes longer than the plaintext (nonce and tag), is the
/// sealed data for its own first 12 bytes as nonce, and decrypts back to
/// the plaintext.
pub fn symmetric_encrypt(key: &SecretKey, plaintext: &[u8]) -> (r: Result<Vec<u8>, String>)
    ensures
        r is Ok <==> plaintext@.len() <= aes_gcm_max_plaintext(),
        r matches Ok(out) ==> {
            &&& out@.len() == plaintext@.len() + 28
            &&& out@ == sealed_data(key@, out@.take(12), plaintext@)
            &&& open_data(key@, out@) == Ok::<Seq<u8>, Seq<char>>(plaintext@)
        },
        r matches Err(e) ==> e@ == cipher_error(),
{
    let nonce = random_nonce();
    let r = symmetric_encrypt_with_nonce(key, &nonce, plaintext);
    proof {
        if r is Ok {
            let out = r->Ok_0;
            assert(out@.take(12) =~= nonce@);
            assert(aes256gcm_open(key@, out@.take(12), out@.skip(12)) == Some(plaintext@));
        }
    }
    r
}

/// Decrypts data made by [`symmetric_encrypt`]: the first 12 bytes
/// are the nonce, the rest the ciphertext and tag. Data too short to hold
/// a nonce and a tag is refused.
pub fn symmetric_decrypt(key: &SecretKey, data: &[u8]) -> (r: Result<Vec<u8>, String>)
    ensures
        bytes_result_view(r) == open_data(key@, data@),
        12 <= data@.len() < 28 ==> bytes_result_view(r) == Err::<Seq<u8>, Seq<char>>(tag_mismatch_error()),
{
    if data.len() < 12 {
        let size = decimal_text(data.len());
        let details = [("Reason", "Corrupt/Short File"), ("File Size", size.as_str())];
        assert(crate::log_format::details_view(details@) =~= seq![
            ("Reason"@, "Corrupt/Short File"@),
            ("File Size"@, decimal(data@.len())),
        ]);
        return Err(format_log("Decrypt Failed", &details));
    }
    let mut nonce: Vec<u8> = Vec::new();
    let mut i: usize = 0;
    while i < 12
        invariant
            i <= 12 <= data@.len(),
            nonce@ == data@.take(i as int),
        decreases 12 - i,
    {
        nonce.push(data[i]);
        i = i + 1;
        assert(nonce@ =~= data@.take(i as int));
    }
    let mut rest: Vec<u8> = Vec::new();
    let mut j: usize = 12;
    while j < data.len()
        invariant
            12 <= j <= data@.len(),
            rest@ == data@.subrange(12, j as int),
        decreases data.len() - j,
    {
        rest.push(data[j]);
        j = j + 1;
        assert(rest@ =~= data@.subrange(12, j as int));
    }
    assert(rest@ =~= data@.skip(12));
    match aes256gcm_decrypt(&key.bytes, nonce.as_slice(), rest.as_slice()) {
        Some(p) => Ok(p),
        None => Err(format_log("Decrypt Failed", &[("Reason", "Authentication Tag or Key Mismatch")])),
    }
}

} // verus!
