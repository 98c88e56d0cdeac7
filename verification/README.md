# crypto_key

A small key-management and file-protection tool: it generates an RSA key
pair and an AES-256 key, encrypts files symmetrically (AES-256-GCM, the
nonce stored in front of the ciphertext) or asymmetrically (RSA-OAEP with
SHA-256), saves SHA-256 digests, signs files (RSA PKCS#1 v1.5 over the
digest) and checks signatures, and keeps a log of everything it does that it
can read back as structured entries.

Layout:

- `src/` is the library, verified with Verus:
  - `text.rs`: `str` operations (`trim`, `find`, `split`, ...) on characters;
  - `log_format.rs`: the `EVENT: ...; key: value` messages and log lines;
  - `log_parse.rs`: reading the log file back into entries;
  - `log_roundtrip.rs`: what reading gives back of what was written;
  - `encoding.rs`: Base64, hex and decimal text;
  - `symmetric.rs`: the AES key and AES-GCM encryption of file contents;
  - `rsa_keys.rs`: RSA keys, key generation and OAEP encryption;
  - `signing.rs`: digests, signatures and the ordering of signature files.
- `app/` is the command-line program around it: paths, files, the clock and
  the logger.
- `tests/` exercises the library on concrete values.
