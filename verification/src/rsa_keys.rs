//! RSA keys held as their PEM text, RSA-OAEP (SHA-256) encryption, and the
//! generation of a key pair.

use vstd::prelude::*;
use vstd::arithmetic::power2::pow2;
use rsa::pkcs8::{DecodePrivateKey, DecodePublicKey, EncodePrivateKey, EncodePublicKey};
use rsa::PublicKeyParts;
use rsa::signature::{RandomizedSigner, Verifier};
use crate::log_format::{format_log, log_message};

verus! {

#[verifier::external_type_specification]
#[verifier::external_body]
pub struct ExRsaPrivateKey(rsa::RsaPrivateKey);

#[verifier::external_type_specification]
#[verifier::external_body]
pub struct ExRsaPublicKey(rsa::RsaPublicKey);

/// What `RsaPrivateKey::from_pkcs8_pem` gives for the PEM text: the key's
/// modulus length in bytes, or the text of the error.
pub uninterp spec fn rsa_private_key_parse(pem: Seq<char>) -> Result<nat, Seq<char>>;

/// What `RsaPublicKey::from_public_key_pem` gives for the PEM text: the
/// key's modulus length in bytes, or the text of the error.
pub uninterp spec fn rsa_public_key_parse(pem: Seq<char>) -> Result<nat, Seq<char>>;

/// What decoding the text as a PKCS#8 PEM document holding a PKCS#1 RSA
/// private key gives (`SecretDocument::from_pem`, `PrivateKeyInfo` and
/// `pkcs1::RsaPrivateKey` from DER): the modulus, the public exponent, the
/// private exponent and the two primes as big-endian bytes; none when one
/// of these decoding steps fails.
pub uninterp spec fn rsa_pkcs8_key_parts(pem: Seq<char>) -> Option<(Seq<u8>, Seq<u8>, Seq<u8>, Seq<u8>, Seq<u8>)>;

/// What `RsaPrivateKey::decrypt` with OAEP (SHA-256) gives for the key
/// with the given PKCS#8 PEM text and the ciphertext: the message, or the
/// text of the error.
pub uninterp spec fn rsa_oaep_decrypt(private_pem: Seq<char>, ciphertext: Seq<u8>) -> Result<Seq<u8>, Seq<char>>;

/// The ciphertexts that `PublicKey::encrypt` with OAEP (SHA-256) can
/// return for the key with the given public-key PEM text and the message
/// (the output depends on random padding).
pub uninterp spec fn rsa_oaep_ciphertexts(public_pem: Seq<char>, message: Seq<u8>) -> Set<Seq<u8>>;

/// What `pkcs1v15::SigningKey::<Sha256>::try_sign_with_rng` gives for the
/// key with the given PKCS#8 PEM text and the message, when the key is
/// consistent ([`rsa_key_consistent`]): the signature of the message's
/// SHA-256 digest (PKCS#1 v1.5, no digest prefix), or the text of the
/// error. For a consistent key the random blinding cancels out, so the
/// outcome depends on the key and the message alone; for other keys it
/// may depend on the blinding, and nothing ties the call to this name.
pub uninterp spec fn rsa_sign(private_pem: Seq<char>, message: Seq<u8>) -> Result<Seq<u8>, Seq<char>>;

/// What `pkcs1v15::VerifyingKey::<Sha256>::verify` gives for the key with
/// the given public-key PEM text, the message and the signature bytes.
pub uninterp spec fn rsa_verify(public_pem: Seq<char>, message: Seq<u8>, signature: Seq<u8>) -> Result<(), Seq<char>>;

/// The value of the big-endian bytes `s`.
pub open spec fn be_value(s: Seq<u8>) -> nat
    decreases s.len(),
{
    if s.len() == 0 {
        0
    } else {
        be_value(s.drop_last()) * 256 + s.last() as nat
    }
}

/// Whether `p` is a prime number.
pub open spec fn is_prime(p: nat) -> bool {
    &&& p >= 2
    &&& forall|k: nat| 2 <= k < p ==> #[trigger] (p % k) != 0
}

/// Whether RSA key parts (modulus, public and private exponent, two
/// primes, as big-endian bytes) make a consistent key: two distinct odd
/// primes whose product is the modulus, with `e * d` congruent to 1
/// modulo each prime less one.
pub open spec fn rsa_parts_consistent(n: Seq<u8>, e: Seq<u8>, d: Seq<u8>, p: Seq<u8>, q: Seq<u8>) -> bool {
    let pv = be_value(p);
    let qv = be_value(q);
    &&& is_prime(pv)
    &&& is_prime(qv)
    &&& pv > 2
    &&& qv > 2
    &&& pv != qv
    &&& be_value(n) == pv * qv
    &&& (be_value(e) * be_value(d)) % ((pv - 1) as nat) == 1
    &&& (be_value(e) * be_value(d)) % ((qv - 1) as nat) == 1
}

/// Whether the modulus of the key in the PKCS#8 PEM text has exactly
/// `bits` bits: `2^(bits-1) <= n < 2^bits`.
pub open spec fn modulus_has_bits(pem: Seq<char>, bits: nat) -> bool {
    match rsa_pkcs8_key_parts(pem) {
        Some((n, e, d, p, q)) => bits > 0 && pow2((bits - 1) as nat) <= be_value(n) && be_value(n) < pow2(bits),
        None => false,
    }
}

/// Whether the PKCS#8 PEM text holds a consistent RSA private key.
pub open spec fn rsa_key_consistent(pem: Seq<char>) -> bool {
    match rsa_pkcs8_key_parts(pem) {
        Some((n, e, d, p, q)) => rsa_parts_consistent(n, e, d, p, q),
        None => false,
    }
}

/// Whether the primes of the key in the PEM text, if it decodes, are at
/// least 2 (smaller ones make `RsaPrivateKey::precompute` panic).
pub open spec fn primes_usable(pem: Seq<char>) -> bool {
    match rsa_pkcs8_key_parts(pem) {
        Some((n, e, d, p, q)) => be_value(p) >= 2 && be_value(q) >= 2,
        None => true,
    }
}

/// The plain facts of a key: its PEM text and its modulus length in bytes.
pub struct KeyView {
    pub pem: Seq<char>,
    pub modulus_len: nat,
}

/// An RSA private key together with the PKCS#8 PEM text it was read from
/// or written to.
pub struct PrivateKey {
    pem: String,
    modulus_len: usize,
    generated: bool,
    key: rsa::RsaPrivateKey,
}

/// An RSA public key together with the public-key PEM text it was read
/// from or written to.
pub struct PublicKey {
    pem: String,
    modulus_len: usize,
    key: rsa::RsaPublicKey,
}

impl View for PrivateKey {
    type V = KeyView;

    closed spec fn view(&self) -> KeyView {
        KeyView { pem: self.pem@, modulus_len: self.modulus_len as nat }
    }
}

impl View for PublicKey {
    type V = KeyView;

    closed spec fn view(&self) -> KeyView {
        KeyView { pem: self.pem@, modulus_len: self.modulus_len as nat }
    }
}

/// Whether a private and a public key belong together: every OAEP
/// ciphertext of a message under the public key decrypts to the message
/// under the private key, and every signature that the private key makes
/// verifies under the public key.
pub open spec fn keys_match(private_pem: Seq<char>, public_pem: Seq<char>) -> bool {
    &&& forall|m: Seq<u8>, c: Seq<u8>|
        #[trigger] rsa_oaep_ciphertexts(public_pem, m).contains(c) ==> rsa_oaep_decrypt(private_pem, c)
            == Ok::<Seq<u8>, Seq<char>>(m)
    &&& forall|m: Seq<u8>|
        (#[trigger] rsa_sign(private_pem, m)) matches Ok(s) ==> rsa_verify(public_pem, m, s) == Ok::<(), Seq<char>>(())
}

/// `SecretDocument::from_pem`, `PrivateKeyInfo::try_from` and
/// `pkcs1::RsaPrivateKey::try_from`: the parts of the RSA private key that
/// the PEM text holds, each as its big-endian bytes (`UIntRef::as_bytes`).
#[verifier::external_body]
fn decode_private_key_parts(pem: &str) -> (r: Option<(Vec<u8>, Vec<u8>, Vec<u8>, Vec<u8>, Vec<u8>)>)
    ensures
        match r {
            Some(t) => rsa_pkcs8_key_parts(pem@) == Some((t.0@, t.1@, t.2@, t.3@, t.4@)),
            None => rsa_pkcs8_key_parts(pem@) is None,
        },
{
    let (_, doc) = rsa::pkcs8::SecretDocument::from_pem(pem).ok()?;
    let info = rsa::pkcs8::PrivateKeyInfo::try_from(doc.as_bytes()).ok()?;
    let k = rsa::pkcs1::RsaPrivateKey::try_from(info.private_key).ok()?;
    let n = k.modulus.as_bytes().to_vec();
    let e = k.public_exponent.as_bytes().to_vec();
    let d = k.private_exponent.as_bytes().to_vec();
    Some((n, e, d, k.prime1.as_bytes().to_vec(), k.prime2.as_bytes().to_vec()))
}

/// `RsaPrivateKey::from_pkcs8_pem`; the key keeps the PEM text it was read
/// from and its modulus length (`PublicKeyParts::size`). The error is
/// turned into its text. The call decodes the text by the same steps as
/// [`rsa_pkcs8_key_parts`] (and checks more) before building the key from
/// those parts in `RsaPrivateKey::from_components`, whose `precompute`
/// panics on a prime of 0 or 1; such texts are left out.
#[verifier::external_body]
fn parse_private_key(pem: &str) -> (r: Result<PrivateKey, String>)
    requires
        primes_usable(pem@),
    ensures
        match r {
            Ok(k) => k@.pem == pem@ && rsa_private_key_parse(pem@) == Ok::<nat, Seq<char>>(k@.modulus_len),
            Err(e) => rsa_private_key_parse(pem@) == Err::<nat, Seq<char>>(e@),
        },
{
    match rsa::RsaPrivateKey::from_pkcs8_pem(pem) {
        Ok(key) => Ok(PrivateKey { pem: pem.to_string(), modulus_len: key.size(), generated: false, key }),
        Err(e) => Err(e.to_string()),
    }
}

/// `RsaPublicKey::from_public_key_pem`; the key keeps the PEM text it was
/// read from and its modulus length. The error is turned into its text.
#[verifier::external_body]
fn parse_public_key(pem: &str) -> (r: Result<PublicKey, String>)
    ensures
        match r {
            Ok(k) => k@.pem == pem@ && rsa_public_key_parse(pem@) == Ok::<nat, Seq<char>>(k@.modulus_len),
            Err(e) => rsa_public_key_parse(pem@) == Err::<nat, Seq<char>>(e@),
        },
{
    match rsa::RsaPublicKey::from_public_key_pem(pem) {
        Ok(key) => Ok(PublicKey { pem: pem.to_string(), modulus_len: key.size(), key }),
        Err(e) => Err(e.to_string()),
    }
}

/// Where generating a key pair failed.
pub enum KeyGenError {
    /// `RsaPrivateKey::new` failed; the text of its error.
    Generate(String),
    /// Writing the private key as PKCS#8 PEM failed.
    EncodePrivate(String),
    /// Writing the public key as PEM failed.
    EncodePublic(String),
}

/// `RsaPrivateKey::new` with the operating system's random source, written
/// as PKCS#8 PEM text (`to_pkcs8_pem`, LF line endings). The key is random;
/// what is stated holds of every outcome: the modulus has `bits` bits, the
/// PEM text reads back as a key of that size, and its parts are consistent
/// (two distinct primes from `gen_prime` with their top two bits set, their
/// product as modulus, and `d` the inverse of `e` modulo the totient). The
/// crate fails only below 64 bits (too few primes); a random source that
/// fails panics rather than returning an error, and writing such a key as
/// PEM does not fail. Sizes are bounded by the crate's 4096-bit limit on
/// public keys, so that the public half passes its checks.
#[verifier::external_body]
fn generate_private_key(bits: usize) -> (r: Result<PrivateKey, KeyGenError>)
    requires
        bits <= 4096,
    ensures
        64 <= bits ==> r is Ok,
        r matches Ok(k) ==> {
            &&& k.is_generated()
            &&& k@.modulus_len == (bits + 7) / 8
            &&& rsa_private_key_parse(k@.pem) == Ok::<nat, Seq<char>>(k@.modulus_len)
            &&& rsa_key_consistent(k@.pem)
            &&& (bits > 0 ==> modulus_has_bits(k@.pem, bits as nat))
        },
{
    let key = rsa::RsaPrivateKey::new(&mut rand::rngs::OsRng, bits)
        .map_err(|e| KeyGenError::Generate(e.to_string()))?;
    let pem = key.to_pkcs8_pem(rsa::pkcs8::LineEnding::LF)
        .map_err(|e| KeyGenError::EncodePrivate(e.to_string()))?;
    Ok(PrivateKey { pem: pem.to_string(), modulus_len: key.size(), generated: true, key })
}

/// The public half of a generated key (`RsaPublicKey::from`), written as
/// PEM text (`to_public_key_pem`, LF line endings). The key was generated
/// here, so it is consistent and the two belong together; the PEM text
/// reads back as a key of the same size. Writing the modulus and exponent
/// of such a key as PEM does not fail.
#[verifier::external_body]
fn public_key_of(key: &PrivateKey) -> (r: Result<PublicKey, String>)
    requires
        key.is_generated(),
    ensures
        r is Ok,
        r matches Ok(p) ==> {
            &&& keys_match(key@.pem, p@.pem)
            &&& p@.modulus_len == key@.modulus_len
            &&& rsa_public_key_parse(p@.pem) == Ok::<nat, Seq<char>>(p@.modulus_len)
        },
{
    let public = rsa::RsaPublicKey::from(&key.key);
    let pem = public.to_public_key_pem(rsa::pkcs8::LineEnding::LF).map_err(|e| e.to_string())?;
    Ok(PublicKey { pem, modulus_len: key.modulus_len, key: public })
}

/// `PublicKey::encrypt` with OAEP (SHA-256) and the operating system's
/// random source. The ciphertext is one of the possible ones and as long as
/// the modulus; the message must leave room for the padding (66 bytes),
/// else the error is "message too long". Keys of this library have passed
/// the crate's public-key checks when read or generated, so no other error
/// occurs.
#[verifier::external_body]
fn rsa_oaep_encrypt(key: &PublicKey, message: &[u8]) -> (r: Result<Vec<u8>, String>)
    ensures
        r matches Ok(c) ==> rsa_oaep_ciphertexts(key@.pem, message@).contains(c@) && c@.len() == key@.modulus_len,
        r matches Err(e) ==> e@ == "message too long"@,
        r is Ok <==> message@.len() + 66 <= key@.modulus_len,
{
    let padding = rsa::Oaep::new::<sha2::Sha256>();
    rsa::PublicKey::encrypt(&key.key, &mut rand::rngs::OsRng, padding, message).map_err(|e| e.to_string())
}

/// `RsaPrivateKey::decrypt` with OAEP (SHA-256); the error is turned into
/// its text.
#[verifier::external_body]
fn rsa_oaep_decrypt_call(key: &PrivateKey, ciphertext: &[u8]) -> (r: Result<Vec<u8>, String>)
    ensures
        match r {
            Ok(m) => rsa_oaep_decrypt(key@.pem, ciphertext@) == Ok::<Seq<u8>, Seq<char>>(m@),
            Err(e) => rsa_oaep_decrypt(key@.pem, ciphertext@) == Err::<Seq<u8>, Seq<char>>(e@),
        },
{
    let padding = rsa::Oaep::new::<sha2::Sha256>();
    key.key.decrypt(padding, ciphertext).map_err(|e| e.to_string())
}

/// `pkcs1v15::SigningKey::<Sha256>::new` (no digest prefix) and
/// `try_sign_with_rng` with the operating system's random source for
/// blinding; the error is turned into its text. A signature is always as
/// long as the modulus (`left_pad` to the key size). For a consistent key
/// the outcome is the named one, and it succeeds exactly when the modulus
/// has room for the 32-byte digest and 11 bytes of padding; for other keys
/// it may depend on the blinding and nothing more is stated.
#[verifier::external_body]
pub(crate) fn rsa_sign_call(key: &PrivateKey, message: &[u8]) -> (r: Result<Vec<u8>, String>)
    ensures
        r matches Ok(s) ==> s@.len() == key@.modulus_len,
        rsa_key_consistent(key@.pem) ==> match r {
            Ok(s) => rsa_sign(key@.pem, message@) == Ok::<Seq<u8>, Seq<char>>(s@),
            Err(e) => rsa_sign(key@.pem, message@) == Err::<Seq<u8>, Seq<char>>(e@),
        },
        rsa_key_consistent(key@.pem) ==> (r is Ok <==> key@.modulus_len >= 43),
{
    let signing_key = rsa::pkcs1v15::SigningKey::<sha2::Sha256>::new(key.key.clone());
    match signing_key.try_sign_with_rng(&mut rand::rngs::OsRng, message) {
        Ok(s) => Ok(Box::<[u8]>::from(s).into_vec()),
        Err(e) => Err(e.to_string()),
    }
}

/// `pkcs1v15::VerifyingKey::<Sha256>::new` (no digest prefix) and
/// `verify`, the signature bytes taken as a `pkcs1v15::Signature`; the
/// error is turned into its text.
#[verifier::external_body]
pub(crate) fn rsa_verify_call(key: &PublicKey, message: &[u8], signature: &[u8]) -> (r: Result<(), String>)
    ensures
        match r {
            Ok(()) => rsa_verify(key@.pem, message@, signature@) == Ok::<(), Seq<char>>(()),
            Err(e) => rsa_verify(key@.pem, message@, signature@) == Err::<(), Seq<char>>(e@),
        },
{
    let verifying_key = rsa::pkcs1v15::VerifyingKey::<sha2::Sha256>::new(key.key.clone());
    let sig = rsa::pkcs1v15::Signature::from(signature.to_vec().into_boxed_slice());
    verifying_key.verify(message, &sig).map_err(|e| e.to_string())
}

impl PrivateKey {
    /// Whether the key was generated by this library (rather than read
    /// from text).
    pub closed spec fn is_generated(&self) -> bool {
        self.generated
    }

    /// The key's PEM text.
    pub fn pem(&self) -> (r: String)
        ensures
            r@ == self@.pem,
    {
        self.pem.clone()
    }

    /// The key's modulus length in bytes.
    pub fn modulus_len(&self) -> (r: usize)
        ensures
            r == self@.modulus_len,
    {
        self.modulus_len
    }
}

impl PublicKey {
    /// The key's PEM text.
    pub fn pem(&self) -> (r: String)
        ensures
            r@ == self@.pem,
    {
        self.pem.clone()
    }

    /// The key's modulus length in bytes.
    pub fn modulus_len(&self) -> (r: usize)
        ensures
            r == self@.modulus_len,
    {
        self.modulus_len
    }
}

/// The view of a parse result.
pub open spec fn key_result_view(r: Result<PrivateKey, String>) -> Result<KeyView, Seq<char>> {
    match r {
        Ok(k) => Ok(k@),
        Err(e) => Err(e@),
    }
}

/// The view of a parse result.
pub open spec fn public_key_result_view(r: Result<PublicKey, String>) -> Result<KeyView, Seq<char>> {
    match r {
        Ok(k) => Ok(k@),
        Err(e) => Err(e@),
    }
}

/// The error for a key file whose key has a prime of 0 or 1.
pub open spec fn small_prime_error() -> Seq<char> {
    "Error loading private key: RSA prime factor smaller than 2"@
}

/// What reading a private key from PKCS#8 PEM text gives: a key whose
/// primes are 0 or 1 is refused; otherwise what the crate reads.
pub open spec fn private_key_result(pem: Seq<char>) -> Result<KeyView, Seq<char>> {
    if !primes_usable(pem) {
        Err(small_prime_error())
    } else {
        match rsa_private_key_parse(pem) {
            Ok(n) => Ok(KeyView { pem, modulus_len: n }),
            Err(e) => Err("Error loading private key: "@ + e),
        }
    }
}

/// `min(x, 2)`.
pub open spec fn cap2(x: nat) -> nat {
    if x < 2 {
        x
    } else {
        2
    }
}

proof fn lemma_cap2_step(x: nat, b: u8)
    ensures
        cap2(x * 256 + b as nat) == cap2(cap2(x) * 256 + b as nat),
{
    if x >= 2 {
        assert(x * 256 >= 512) by (nonlinear_arith)
            requires
                x >= 2,
        ;
    } else if x == 1 {
        assert(x * 256 == 256);
    } else {
        assert(x == 0);
        assert(x * 256 == 0);
    }
}

/// Whether the big-endian bytes stand for a number of at least 2.
fn at_least_two(b: &Vec<u8>) -> (r: bool)
    ensures
        r == (be_value(b@) >= 2),
{
    let mut v: u64 = 0;
    let mut i: usize = 0;
    assert(b@.take(0) =~= Seq::<u8>::empty());
    while i < b.len()
        invariant
            i <= b.len(),
            v as nat == cap2(be_value(b@.take(i as int))),
        decreases b.len() - i,
    {
        proof {
            let t = b@.take(i as int + 1);
            assert(t.drop_last() =~= b@.take(i as int));
            assert(t.last() == b@[i as int]);
            lemma_cap2_step(be_value(b@.take(i as int)), b@[i as int]);
        }
        let w: u64 = v * 256 + b[i] as u64;
        v = if w < 2 {
            w
        } else {
            2
        };
        i = i + 1;
    }
    assert(b@.take(b.len() as int) =~= b@);
    v >= 2
}

/// What reading a public key from PEM text gives.
pub open spec fn public_key_result(pem: Seq<char>) -> Result<KeyView, Seq<char>> {
    match rsa_public_key_parse(pem) {
        Ok(n) => Ok(KeyView { pem, modulus_len: n }),
        Err(e) => Err("Error loading public key: "@ + e),
    }
}

/// Reads an RSA private key from the PKCS#8 PEM text of its key file.
pub fn load_private_key(pem: &str) -> (r: Result<PrivateKey, String>)
    ensures
        key_result_view(r) == private_key_result(pem@),
{
    match decode_private_key_parts(pem) {
        Some(t) => {
            if !(at_least_two(&t.3) && at_least_two(&t.4)) {
                return Err("Error loading private key: RSA prime factor smaller than 2".to_string());
            }
        },
        None => {},
    }
    match parse_private_key(pem) {
        Ok(k) => Ok(k),
        Err(e) => {
            let mut msg = "Error loading private key: ".to_string();
            msg.append(e.as_str());
            Err(msg)
        },
    }
}

/// Reads an RSA public key from the PEM text of its key file.
pub fn load_public_key(pem: &str) -> (r: Result<PublicKey, String>)
    ensures
        public_key_result_view(r) == public_key_result(pem@),
{
    match parse_public_key(pem) {
        Ok(k) => Ok(k),
        Err(e) => {
            let mut msg = "Error loading public key: ".to_string();
            msg.append(e.as_str());
            Err(msg)
        },
    }
}

/// The bits of the RSA keys that are generated.
pub const RSA_KEY_SIZE: usize = 2048;

/// The keys that key generation makes, as the text of their files.
pub struct GeneratedKeys {
    /// The private key, PKCS#8 PEM.
    pub private_pem: String,
    /// The public key, PEM.
    pub public_pem: String,
    /// The AES-256 key, Base64.
    pub secret_key_text: String,
}

/// The message for a failed key generation: which key failed, and why.
pub open spec fn key_gen_error(e: KeyGenError) -> Seq<char> {
    match e {
        KeyGenError::Generate(t) => log_message("Key Gen Error"@, seq![("Key Type"@, "Private RSA"@), ("Error"@, t@)]),
        KeyGenError::EncodePrivate(t) => log_message("Key Save Error"@, seq![("Key Type"@, "Private RSA"@), ("Error"@, t@)]),
        KeyGenError::EncodePublic(t) => log_message("Key Save Error"@, seq![("Key Type"@, "Public RSA"@), ("Error"@, t@)]),
    }
}

/// The message for a failed key generation.
pub fn key_gen_error_message(e: KeyGenError) -> (r: String)
    ensures
        r@ == key_gen_error(e),
{
    match e {
        KeyGenError::Generate(t) => {
            let d = [("Key Type", "Private RSA"), ("Error", t.as_str())];
            assert(crate::log_format::details_view(d@) =~= seq![("Key Type"@, "Private RSA"@), ("Error"@, t@)]);
            format_log("Key Gen Error", &d)
        },
        KeyGenError::EncodePrivate(t) => {
            let d = [("Key Type", "Private RSA"), ("Error", t.as_str())];
            assert(crate::log_format::details_view(d@) =~= seq![("Key Type"@, "Private RSA"@), ("Error"@, t@)]);
            format_log("Key Save Error", &d)
        },
        KeyGenError::EncodePublic(t) => {
            let d = [("Key Type", "Public RSA"), ("Error", t.as_str())];
            assert(crate::log_format::details_view(d@) =~= seq![("Key Type"@, "Public RSA"@), ("Error"@, t@)]);
            format_log("Key Save Error", &d)
        },
    }
}

/// Generates a 2048-bit RSA key pair and an AES-256 key and gives the text
/// of their key files. It always succeeds: the two RSA keys belong
/// together, the private key is consistent, both read back as 256-byte
/// keys, and the secret key text is the 44-character Base64 text of a
/// 32-byte key, which reads back as that key.
pub fn generate_keys() -> (r: Result<GeneratedKeys, String>)
    ensures
        r is Ok,
        r matches Ok(keys) ==> {
            &&& keys_match(keys.private_pem@, keys.public_pem@)
            &&& rsa_key_consistent(keys.private_pem@)
            &&& rsa_pkcs8_key_parts(keys.private_pem@) matches Some((n, e, d, p, q))
            &&& pow2(2047) <= be_value(n) < pow2(2048)
            &&& keys.secret_key_text@.len() == 44
            &&& exists|k: Seq<u8>|
                {
                    &&& k.len() == 32
                    &&& keys.secret_key_text@ == crate::encoding::b64_encode(k)
                    &&& crate::symmetric::secret_key_result(keys.secret_key_text@) == Ok::<Seq<u8>, Seq<char>>(k)
                }
            &&& private_key_result(keys.private_pem@) == Ok::<KeyView, Seq<char>>(
                KeyView { pem: keys.private_pem@, modulus_len: 256 },
            )
            &&& public_key_result(keys.public_pem@) == Ok::<KeyView, Seq<char>>(
                KeyView { pem: keys.public_pem@, modulus_len: 256 },
            )
        },
{
    let private_key = match generate_private_key(RSA_KEY_SIZE) {
        Ok(k) => k,
        Err(e) => return Err(key_gen_error_message(e)),
    };
    let public_key = match public_key_of(&private_key) {
        Ok(p) => p,
        Err(t) => return Err(key_gen_error_message(KeyGenError::EncodePublic(t))),
    };
    let secret = crate::symmetric::SecretKey::generate();
    let text = crate::symmetric::secret_key_text(&secret);
    proof {
        secret.lemma_len();
        crate::symmetric::law_secret_key_text_round_trip(secret@);
        crate::encoding::lemma_b64_len(secret@);
        let pem = private_key.pem@;
        if let Some((n, e, d, p, q)) = rsa_pkcs8_key_parts(pem) {
            assert(be_value(p) >= 2 && be_value(q) >= 2);
        }
    }
    Ok(GeneratedKeys { private_pem: private_key.pem, public_pem: public_key.pem, secret_key_text: text })
}

/// The error of a refused OAEP encryption.
pub open spec fn asymmetric_encrypt_error(text: Seq<char>) -> Seq<char> {
    log_message("Asymmetric Encrypt Failed"@, seq![("Error"@, text)])
}

/// Encrypts `message` under the public key with OAEP (SHA-256). It
/// succeeds exactly when the message leaves room for the padding
/// (66 bytes less than the modulus); the ciphertext is as long as the
/// modulus and is one of the possible OAEP ciphertexts of the message.
pub fn asymmetric_encrypt(key: &PublicKey, message: &[u8]) -> (r: Result<Vec<u8>, String>)
    ensures
        r is Ok <==> message@.len() + 66 <= key@.modulus_len,
        r matches Ok(c) ==> rsa_oaep_ciphertexts(key@.pem, message@).contains(c@) && c@.len() == key@.modulus_len,
        r matches Err(e) ==> e@ == asymmetric_encrypt_error("message too long"@),
{
    match rsa_oaep_encrypt(key, message) {
        Ok(c) => Ok(c),
        Err(e) => Err(format_log("Asymmetric Encrypt Failed", &[("Error", e.as_str())])),
    }
}

/// What decrypting `ciphertext` with the private key gives.
pub open spec fn asymmetric_decrypt_result(private_pem: Seq<char>, ciphertext: Seq<u8>) -> Result<Seq<u8>, Seq<char>> {
    match rsa_oaep_decrypt(private_pem, ciphertext) {
        Ok(m) => Ok(m),
        Err(t) => Err(log_message("Asymmetric Decrypt Failed"@, seq![("Error"@, t)])),
    }
}

/// Decrypts an OAEP (SHA-256) ciphertext with the private key.
pub fn asymmetric_decrypt(key: &PrivateKey, ciphertext: &[u8]) -> (r: Result<Vec<u8>, String>)
    ensures
        crate::symmetric::bytes_result_view(r) == asymmetric_decrypt_result(key@.pem, ciphertext@),
{
    match rsa_oaep_decrypt_call(key, ciphertext) {
        Ok(m) => Ok(m),
        Err(e) => Err(format_log("Asymmetric Decrypt Failed", &[("Error", e.as_str())])),
    }
}

/// A message encrypted under the public key of a generated pair decrypts
/// to the message under its private key.
pub proof fn law_asymmetric_round_trip(private_pem: Seq<char>, public_pem: Seq<char>, message: Seq<u8>, ciphertext: Seq<u8>)
    requires
        keys_match(private_pem, public_pem),
        rsa_oaep_ciphertexts(public_pem, message).contains(ciphertext),
    ensures
        asymmetric_decrypt_result(private_pem, ciphertext) == Ok::<Seq<u8>, Seq<char>>(message),
{
}

} // verus!
