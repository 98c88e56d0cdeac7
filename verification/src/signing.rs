//! File digests (SHA-256) and RSA PKCS#1 v1.5 signatures over them, kept as
//! Base64 text.

use vstd::prelude::*;
use sha2::Digest;
use crate::encoding::{
    b64_decode, b64_encode, base64_decode, base64_encode, hex_encode, hex_lower, lemma_b64_no_whitespace,
    lemma_b64_round_trip, lemma_hex_len,
};
use crate::log_format::{format_log, log_message};
use crate::rsa_keys::{
    keys_match, rsa_key_consistent, rsa_sign, rsa_sign_call, rsa_verify, rsa_verify_call, PrivateKey, PublicKey,
};
use crate::text::{string_from_chars, to_chars, trim, trim_chars};

verus! {

/// What `Sha256::digest` returns for the data.
pub uninterp spec fn sha256(data: Seq<u8>) -> Seq<u8>;

/// `Sha256::digest`: the named digest, 32 bytes long.
#[verifier::external_body]
fn sha256_digest(data: &[u8]) -> (r: Vec<u8>)
    ensures
        r@ == sha256(data@),
        r@.len() == 32,
{
    sha2::Sha256::digest(data).to_vec()
}

/// The SHA-256 digest of a file's contents.
pub fn calculate_digest(contents: &[u8]) -> (r: Vec<u8>)
    ensures
        r@ == sha256(contents@),
        r@.len() == 32,
{
    sha256_digest(contents)
}

/// The digest of a file's contents as it is saved: 64 lower-case hex
/// digits.
pub fn digest_hex(contents: &[u8]) -> (r: String)
    ensures
        r@ == hex_lower(sha256(contents@)),
        r@.len() == 64,
{
    let d = sha256_digest(contents);
    proof {
        lemma_hex_len(d@);
    }
    hex_encode(d.as_slice())
}

/// What signing a file gives: the Base64 text of the signature of the
/// file's digest, or the signing error.
pub open spec fn sign_result(private_pem: Seq<char>, file_path: Seq<char>, contents: Seq<u8>) -> Result<Seq<char>, Seq<char>> {
    match rsa_sign(private_pem, sha256(contents)) {
        Ok(s) => Ok(b64_encode(s)),
        Err(t) => Err(log_message("Signing Failed"@, seq![("File"@, file_path), ("Error"@, t)])),
    }
}

/// The view of a text result.
pub open spec fn text_result_view(r: Result<String, String>) -> Result<Seq<char>, Seq<char>> {
    match r {
        Ok(t) => Ok(t@),
        Err(e) => Err(e@),
    }
}

/// The error of a failed signing, with the signer's error text.
pub open spec fn signing_failed(file_path: Seq<char>, t: Seq<char>) -> Seq<char> {
    log_message("Signing Failed"@, seq![("File"@, file_path), ("Error"@, t)])
}

/// Signs a file: the SHA-256 digest of its contents is signed (PKCS#1
/// v1.5 with SHA-256) and the signature written as Base64 text. The
/// signature is as long as the modulus. With a consistent key the result
/// is the named signature, and signing succeeds exactly when the modulus
/// is at least 43 bytes long.
pub fn digitally_sign(key: &PrivateKey, file_path: &str, contents: &[u8]) -> (r: Result<String, String>)
    ensures
        r matches Ok(t) ==> exists|s: Seq<u8>| s.len() == key@.modulus_len && t@ == b64_encode(s),
        r matches Err(e) ==> exists|t: Seq<char>| e@ == signing_failed(file_path@, t),
        rsa_key_consistent(key@.pem) ==> text_result_view(r) == sign_result(key@.pem, file_path@, contents@),
        rsa_key_consistent(key@.pem) ==> (r is Ok <==> key@.modulus_len >= 43),
{
    let digest = sha256_digest(contents);
    match rsa_sign_call(key, digest.as_slice()) {
        Ok(s) => Ok(base64_encode(s.as_slice())),
        Err(e) => {
            let d = [("File", file_path), ("Error", e.as_str())];
            assert(crate::log_format::details_view(d@) =~= seq![("File"@, file_path@), ("Error"@, e@)]);
            let m = format_log("Signing Failed", &d);
            assert(m@ == signing_failed(file_path@, e@));
            Err(m)
        },
    }
}

/// What reading a signature file's text gives: its trimmed text decoded
/// from Base64.
pub open spec fn signature_bytes_result(signature_path: Seq<char>, text: Seq<char>) -> Result<Seq<u8>, Seq<char>> {
    match b64_decode(trim(text)) {
        Some(b) => Ok(b),
        None => Err(log_message("Signature Decode Error"@, seq![("Path"@, signature_path), ("Reason"@, "Base64 Format Invalid"@)])),
    }
}

/// Reads the signature bytes from a signature file's text.
pub fn decode_signature_text(signature_path: &str, text: &str) -> (r: Result<Vec<u8>, String>)
    ensures
        crate::symmetric::bytes_result_view(r) == signature_bytes_result(signature_path@, text@),
{
    let trimmed = string_from_chars(&trim_chars(&to_chars(text)));
    match base64_decode(trimmed.as_str()) {
        Some(b) => Ok(b),
        None => {
            let d = [("Path", signature_path), ("Reason", "Base64 Format Invalid")];
            assert(crate::log_format::details_view(d@) =~= seq![("Path"@, signature_path@), ("Reason"@, "Base64 Format Invalid"@)]);
            Err(format_log("Signature Decode Error", &d))
        },
    }
}

/// What checking a signature over a file gives: `true` when it verifies
/// under the public key, else the verification error.
pub open spec fn verify_result(public_pem: Seq<char>, file_path: Seq<char>, signature: Seq<u8>, contents: Seq<u8>) -> Result<bool, Seq<char>> {
    match rsa_verify(public_pem, sha256(contents), signature) {
        Ok(()) => Ok(true),
        Err(t) => Err(log_message(
            "Signature Verify FAILED"@,
            seq![("File"@, file_path), ("Reason"@, "Key Mismatch or File Modified"@), ("Error"@, t)],
        )),
    }
}

/// The view of a check result.
pub open spec fn bool_result_view(r: Result<bool, String>) -> Result<bool, Seq<char>> {
    match r {
        Ok(b) => Ok(b),
        Err(e) => Err(e@),
    }
}

/// Checks a signature over a file's contents with the public key.
pub fn verify_signature(key: &PublicKey, file_path: &str, signature: &[u8], contents: &[u8]) -> (r: Result<bool, String>)
    ensures
        bool_result_view(r) == verify_result(key@.pem, file_path@, signature@, contents@),
{
    let digest = sha256_digest(contents);
    match rsa_verify_call(key, digest.as_slice(), signature) {
        Ok(()) => Ok(true),
        Err(e) => {
            let d = [("File", file_path), ("Reason", "Key Mismatch or File Modified"), ("Error", e.as_str())];
            assert(crate::log_format::details_view(d@) =~= seq![
                ("File"@, file_path@),
                ("Reason"@, "Key Mismatch or File Modified"@),
                ("Error"@, e@),
            ]);
            Err(format_log("Signature Verify FAILED", &d))
        },
    }
}

/// A signature is accepted over exactly the contents it was checked against:
/// checking gives `Ok(true)` when, and only when, the signature verifies
/// under the public key over the SHA-256 digest of those very contents;
/// otherwise it is the `Signature Verify FAILED` error for the file, with
/// the crate's reason.
pub proof fn law_verify_exact_contents(
    public_pem: Seq<char>,
    file_path: Seq<char>,
    signature: Seq<u8>,
    contents: Seq<u8>,
)
    ensures
        verify_result(public_pem, file_path, signature, contents) == Ok::<bool, Seq<char>>(true)
            <==> rsa_verify(public_pem, sha256(contents), signature) is Ok,
        verify_result(public_pem, file_path, signature, contents) is Ok
            ==> verify_result(public_pem, file_path, signature, contents) == Ok::<bool, Seq<char>>(true),
        rsa_verify(public_pem, sha256(contents), signature) matches Err(t)
            ==> verify_result(public_pem, file_path, signature, contents) == Err::<bool, Seq<char>>(log_message(
            "Signature Verify FAILED"@,
            seq![("File"@, file_path), ("Reason"@, "Key Mismatch or File Modified"@), ("Error"@, t)],
        )),
{
}

/// A signature file written for a file with the private key of a matching
/// pair reads back and verifies, under the public key, for the same
/// contents.
pub proof fn law_sign_then_verify(
    private_pem: Seq<char>,
    public_pem: Seq<char>,
    file_path: Seq<char>,
    signature_path: Seq<char>,
    contents: Seq<u8>,
)
    requires
        keys_match(private_pem, public_pem),
    ensures
        sign_result(private_pem, file_path, contents) matches Ok(text) ==> {
            &&& signature_bytes_result(signature_path, text) matches Ok(sig)
            &&& verify_result(public_pem, file_path, sig, contents) == Ok::<bool, Seq<char>>(true)
        },
{
    if let Ok(s) = rsa_sign(private_pem, sha256(contents)) {
        lemma_b64_round_trip(s);
        lemma_b64_no_whitespace(s);
        assert(rsa_verify(public_pem, sha256(contents), s) == Ok::<(), Seq<char>>(()));
    }
}


/// `a` comes before or equals `b` in the order of `String` (character by
/// character, by code point; a prefix first).
pub open spec fn lex_le(a: Seq<char>, b: Seq<char>) -> bool
    decreases a.len(),
{
    if a.len() == 0 {
        true
    } else if b.len() == 0 {
        false
    } else if a[0] != b[0] {
        a[0] < b[0]
    } else {
        lex_le(a.drop_first(), b.drop_first())
    }
}

/// `a` comes before or equals `b` by code points: `a` is a prefix of `b`,
/// or at the first position where they differ `a` has the smaller code
/// point.
/// The order of characters is the order of their code points.
proof fn lemma_char_order(x: char, y: char)
    ensures
        x < y <==> (x as u32) < (y as u32),
{
}

pub open spec fn code_point_before(a: Seq<char>, b: Seq<char>) -> bool {
    ||| (a.len() <= b.len() && b.take(a.len() as int) == a)
    ||| exists|k: int|
        0 <= k < a.len() && k < b.len() && a.take(k) == b.take(k) && (a[k] as u32) < (#[trigger] b[k] as u32)
}

/// The order in which signature names are sorted is `String` order: a
/// prefix comes first, and otherwise the first differing character decides
/// by its code point.
pub proof fn law_name_order_is_code_point_order(a: Seq<char>, b: Seq<char>)
    ensures
        lex_le(a, b) <==> code_point_before(a, b),
    decreases a.len(),
{
    if a.len() == 0 {
        assert(b.take(0) =~= a);
    } else if b.len() == 0 {
        if code_point_before(a, b) {
            let k = choose|k: int|
                0 <= k < a.len() && k < b.len() && a.take(k) == b.take(k) && (a[k] as u32) < (#[trigger] b[k] as u32);
        }
    } else if a[0] != b[0] {
        lemma_char_order(a[0], b[0]);
        if a[0] < b[0] {
            assert(a.take(0) =~= b.take(0));
        } else {
            if a.len() <= b.len() && b.take(a.len() as int) == a {
                assert(b.take(a.len() as int)[0] == b[0]);
            }
            if exists|k: int|
                0 <= k < a.len() && k < b.len() && a.take(k) == b.take(k) && (a[k] as u32) < (#[trigger] b[k] as u32) {
                let k = choose|k: int|
                    0 <= k < a.len() && k < b.len() && a.take(k) == b.take(k) && (a[k] as u32) < (#[trigger] b[k] as u32);
                if k > 0 {
                    assert(a.take(k)[0] == b.take(k)[0]);
                }
            }
        }
    } else {
        let a1 = a.drop_first();
        let b1 = b.drop_first();
        law_name_order_is_code_point_order(a1, b1);
        if a.len() <= b.len() {
            if b.take(a.len() as int) == a {
                assert(b1.take(a1.len() as int) =~= a1) by {
                    assert forall|i: int| 0 <= i < a1.len() implies #[trigger] b1.take(a1.len() as int)[i] == a1[i] by {
                        assert(b.take(a.len() as int)[i + 1] == a[i + 1]);
                    }
                }
            }
            if b1.take(a1.len() as int) == a1 {
                assert(b.take(a.len() as int) =~= a) by {
                    assert forall|i: int| 0 <= i < a.len() implies #[trigger] b.take(a.len() as int)[i] == a[i] by {
                        if i > 0 {
                            assert(b1.take(a1.len() as int)[i - 1] == a1[i - 1]);
                        }
                    }
                }
            }
        }
        if exists|k: int|
            0 <= k < a.len() && k < b.len() && a.take(k) == b.take(k) && (a[k] as u32) < (#[trigger] b[k] as u32) {
            let k = choose|k: int|
                0 <= k < a.len() && k < b.len() && a.take(k) == b.take(k) && (a[k] as u32) < (#[trigger] b[k] as u32);
            assert(k > 0);
            assert(a1.take(k - 1) =~= b1.take(k - 1)) by {
                assert forall|i: int| 0 <= i < k - 1 implies #[trigger] a1.take(k - 1)[i] == b1.take(k - 1)[i] by {
                    assert(a.take(k)[i + 1] == b.take(k)[i + 1]);
                }
            }
            assert(a1[k - 1] == a[k] && b1[k - 1] == b[k]);
        }
        if exists|k: int|
            0 <= k < a1.len() && k < b1.len() && a1.take(k) == b1.take(k) && (a1[k] as u32) < (#[trigger] b1[k] as u32) {
            let k = choose|k: int|
                0 <= k < a1.len() && k < b1.len() && a1.take(k) == b1.take(k) && (a1[k] as u32) < (#[trigger] b1[k] as u32);
            assert(a.take(k + 1) =~= b.take(k + 1)) by {
                assert forall|i: int| 0 <= i < k + 1 implies #[trigger] a.take(k + 1)[i] == b.take(k + 1)[i] by {
                    if i > 0 {
                        assert(a1.take(k)[i - 1] == b1.take(k)[i - 1]);
                    }
                }
            }
            assert(a[k + 1] == a1[k] && b[k + 1] == b1[k]);
        }
    }
}

proof fn lemma_lex_total(a: Seq<char>, b: Seq<char>)
    ensures
        lex_le(a, b) || lex_le(b, a),
    decreases a.len(),
{
    if a.len() > 0 && b.len() > 0 && a[0] == b[0] {
        lemma_lex_total(a.drop_first(), b.drop_first());
    }
}

proof fn lemma_lex_trans(a: Seq<char>, b: Seq<char>, c: Seq<char>)
    requires
        lex_le(a, b),
        lex_le(b, c),
    ensures
        lex_le(a, c),
    decreases a.len(),
{
    if a.len() > 0 && b.len() > 0 && c.len() > 0 {
        if a[0] == b[0] && b[0] == c[0] {
            lemma_lex_trans(a.drop_first(), b.drop_first(), c.drop_first());
        }
    }
}

fn lex_le_exec(a: &Vec<char>, b: &Vec<char>) -> (r: bool)
    ensures
        r == lex_le(a@, b@),
{
    let mut i: usize = 0;
    assert(a@.skip(0) =~= a@);
    assert(b@.skip(0) =~= b@);
    while i < a.len() && i < b.len() && a[i] == b[i]
        invariant
            i <= a.len(),
            i <= b.len(),
            lex_le(a@, b@) == lex_le(a@.skip(i as int), b@.skip(i as int)),
        decreases a.len() - i,
    {
        assert(a@.skip(i as int).drop_first() =~= a@.skip(i + 1));
        assert(b@.skip(i as int).drop_first() =~= b@.skip(i + 1));
        i = i + 1;
    }
    if i == a.len() {
        true
    } else if i == b.len() {
        false
    } else {
        a[i] < b[i]
    }
}

/// Whether the names are in `String` order.
pub open spec fn names_sorted(names: Seq<String>) -> bool {
    forall|i: int, j: int| 0 <= i < j < names.len() ==> lex_le(names[i]@, names[j]@)
}

/// The signature file names in `String` order (as `Vec::sort` leaves
/// them): the same names, sorted.
pub fn sort_signature_names(names: Vec<String>) -> (r: Vec<String>)
    ensures
        r@.to_multiset() == names@.to_multiset(),
        names_sorted(r@),
{
    broadcast use vstd::seq_lib::group_to_multiset_ensures, vstd::multiset::group_multiset_axioms;

    let mut out: Vec<String> = Vec::new();
    let mut k: usize = 0;
    assert(names@.take(0) =~= Seq::<String>::empty());
    assert(out@ =~= Seq::<String>::empty());
    assert(Seq::<String>::empty().to_multiset() =~= vstd::multiset::Multiset::<String>::empty());
    while k < names.len()
        invariant
            k <= names.len(),
            out@.to_multiset() == names@.take(k as int).to_multiset(),
            names_sorted(out@),
        decreases names.len() - k,
    {
        let x = names[k].clone();
        let xc = to_chars(x.as_str());
        let mut p: usize = 0;
        while p < out.len() && lex_le_exec(&to_chars(out[p].as_str()), &xc)
            invariant
                p <= out.len(),
                forall|i: int| 0 <= i < p ==> lex_le(#[trigger] out@[i]@, xc@),
            decreases out.len() - p,
        {
            p = p + 1;
        }
        proof {
            if p < out.len() {
                assert(!lex_le(out@[p as int]@, xc@));
                lemma_lex_total(out@[p as int]@, xc@);
                assert forall|j: int| p <= j < out.len() implies lex_le(xc@, #[trigger] out@[j]@) by {
                    if j > p {
                        lemma_lex_trans(xc@, out@[p as int]@, out@[j]@);
                    }
                }
            }
        }
        let ghost old_out = out@;
        out.insert(p, x);
        proof {
            assert(names@.take(k + 1) =~= names@.take(k as int).push(names@[k as int]));
            assert(x == names@[k as int]);
            assert(out@ == old_out.insert(p as int, x));
            vstd::seq_lib::to_multiset_insert(old_out, p as int, x);
            vstd::seq_lib::to_multiset_build(names@.take(k as int), names@[k as int]);
            assert(out@.to_multiset() == names@.take(k + 1).to_multiset());
            assert forall|i: int, j: int| 0 <= i < j < out@.len() implies lex_le(out@[i]@, out@[j]@) by {
                if i < p && j == p {
                } else if i < p && j > p {
                    assert(out@[j] == old_out[j - 1]);
                    assert(out@[i] == old_out[i]);
                } else if i == p {
                    assert(out@[j] == old_out[j - 1]);
                } else if i > p {
                    assert(out@[j] == old_out[j - 1]);
                    assert(out@[i] == old_out[i - 1]);
                } else {
                    assert(out@[i] == old_out[i]);
                    assert(out@[j] == old_out[j]);
                }
            }
        }
        k = k + 1;
    }
    assert(names@.take(names.len() as int) =~= names@);
    out
}

} // verus!
