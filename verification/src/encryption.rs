//! Envelope encryption for data at rest: each document is encrypted with a
//! fresh AES-256-GCM data key, and that key is itself encrypted (wrapped)
//! with the operator's master key.  The envelope holds the key identifier,
//! the wrapped data key with its nonce, the data nonce and the ciphertext,
//! each binary field in standard base64.

use vstd::prelude::*;
use vstd::utf8::{decode_utf8, encode_utf8, valid_utf8};
use aes_gcm::aead::Aead;
use aes_gcm::{AeadCore, KeyInit};
use base64::Engine;
use crate::error::MnemoError;
use crate::text::{contains_text, decimal, has_substring, owned, push_str, u64_to_decimal};

verus! {

/// What AES-256-GCM encryption yields for a key, a nonce and a plaintext
/// (no associated data): the ciphertext followed by the 16-byte tag.
pub uninterp spec fn aead_seal(key: Seq<u8>, nonce: Seq<u8>, plaintext: Seq<u8>) -> Seq<u8>;

/// What AES-256-GCM decryption yields: `None` when authentication fails.
pub uninterp spec fn aead_open(key: Seq<u8>, nonce: Seq<u8>, ciphertext: Seq<u8>) -> Option<Seq<u8>>;

/// The character of a six-bit value in the standard base64 alphabet
/// (`A`-`Z`, `a`-`z`, `0`-`9`, `+`, `/`).
pub open spec fn base64_digit(v: int) -> char {
    if v < 26 {
        (65 + v) as char
    } else if v < 52 {
        (97 + v - 26) as char
    } else if v < 62 {
        (48 + v - 52) as char
    } else if v == 62 {
        '+'
    } else {
        '/'
    }
}

/// The standard, padded base64 text of some bytes: each group of three
/// bytes becomes four characters of six bits each; a last group of one or
/// two bytes is padded with `=` to four characters.
pub open spec fn base64_text(bytes: Seq<u8>) -> Seq<char>
    decreases bytes.len(),
{
    if bytes.len() == 0 {
        Seq::empty()
    } else if bytes.len() == 1 {
        let a = bytes[0] as int;
        seq![base64_digit(a / 4), base64_digit((a % 4) * 16), '=', '=']
    } else if bytes.len() == 2 {
        let (a, b) = (bytes[0] as int, bytes[1] as int);
        seq![base64_digit(a / 4), base64_digit((a % 4) * 16 + b / 16), base64_digit((b % 16) * 4), '=']
    } else {
        let (a, b, c) = (bytes[0] as int, bytes[1] as int, bytes[2] as int);
        seq![base64_digit(a / 4), base64_digit((a % 4) * 16 + b / 16), base64_digit((b % 16) * 4 + c / 64), base64_digit(c % 64)]
            + base64_text(bytes.skip(3))
    }
}

/// What decoding a text as standard base64 yields: the bytes, or the text
/// of the decoding error.
pub uninterp spec fn base64_parse(text: Seq<char>) -> Result<Seq<u8>, Seq<char>>;

/// The text of the error `String::from_utf8` reports for invalid bytes.
pub uninterp spec fn utf8_error_text(bytes: Seq<u8>) -> Seq<char>;

/// The text decodes as base64 to exactly these bytes.
pub open spec fn base64_decodes_to(text: Seq<char>, bytes: Seq<u8>) -> bool {
    base64_parse(text) matches Ok(b) && b == bytes
}

/// Longest plaintext AES-GCM accepts, in bytes (2^36).
pub open spec fn aead_max_plaintext() -> nat {
    68719476736
}

/// `Aes256Gcm::new(key).encrypt(nonce, plaintext)`.  It fails only for a
/// plaintext longer than 2^36 bytes; otherwise the result is the ciphertext
/// and tag, 16 bytes longer than the plaintext, and decrypting it with the
/// same key and nonce gives the plaintext back.
#[verifier::external_body]
fn aes_gcm_encrypt(key: &[u8; 32], nonce: &[u8; 12], plaintext: &[u8]) -> (r: Option<Vec<u8>>)
    ensures
        r is Some <==> plaintext@.len() <= aead_max_plaintext(),
        r matches Some(c) ==> {
            &&& c@ == aead_seal(key@, nonce@, plaintext@)
            &&& c@.len() == plaintext@.len() + 16
            &&& aead_open(key@, nonce@, c@) == Some(plaintext@)
        },
{
    let cipher = aes_gcm::Aes256Gcm::new(aes_gcm::Key::<aes_gcm::Aes256Gcm>::from_slice(key));
    cipher.encrypt(aes_gcm::Nonce::from_slice(nonce), plaintext).ok()
}

/// `Aes256Gcm::new(key).decrypt(nonce, ciphertext)`; `None` where the crate
/// reports an error.
#[verifier::external_body]
fn aes_gcm_decrypt(key: &[u8; 32], nonce: &[u8; 12], ciphertext: &[u8]) -> (r: Option<Vec<u8>>)
    ensures
        match r {
            Some(p) => aead_open(key@, nonce@, ciphertext@) == Some(p@),
            None => aead_open(key@, nonce@, ciphertext@) is None,
        },
{
    let cipher = aes_gcm::Aes256Gcm::new(aes_gcm::Key::<aes_gcm::Aes256Gcm>::from_slice(key));
    cipher.decrypt(aes_gcm::Nonce::from_slice(nonce), ciphertext).ok()
}

/// `Aes256Gcm::generate_key(OsRng)`: a random 256-bit key.
#[verifier::external_body]
fn random_key() -> (r: [u8; 32]) {
    let k = aes_gcm::Aes256Gcm::generate_key(aes_gcm::aead::OsRng);
    let mut out = [0u8; 32];
    out.copy_from_slice(&k);
    out
}

/// `Aes256Gcm::generate_nonce(OsRng)`: a random 96-bit nonce.
#[verifier::external_body]
fn random_nonce() -> (r: [u8; 12]) {
    let n = aes_gcm::Aes256Gcm::generate_nonce(aes_gcm::aead::OsRng);
    let mut out = [0u8; 12];
    out.copy_from_slice(&n);
    out
}

/// `STANDARD.encode(bytes)`: the standard, padded base64 text; decoding
/// it gives the bytes back.
#[verifier::external_body]
fn base64_encode(bytes: &[u8]) -> (r: String)
    ensures
        r@ == base64_text(bytes@),
        base64_decodes_to(r@, bytes@),
{
    base64::engine::general_purpose::STANDARD.encode(bytes)
}

/// `STANDARD.decode(text)`, its error turned into its `Display` text.
#[verifier::external_body]
fn base64_decode(text: &str) -> (r: Result<Vec<u8>, String>)
    ensures
        match r {
            Ok(v) => base64_parse(text@) matches Ok(b) && b == v@,
            Err(e) => base64_parse(text@) matches Err(m) && m == e@,
        },
{
    base64::engine::general_purpose::STANDARD.decode(text).map_err(|e| e.to_string())
}

/// `String::from_utf8`: `Ok` exactly for valid UTF-8, holding those bytes;
/// the error turned into its `Display` text.
#[verifier::external_body]
fn utf8_string(bytes: Vec<u8>) -> (r: Result<String, String>)
    ensures
        r is Ok <==> valid_utf8(bytes@),
        r matches Ok(s) ==> encode_utf8(s@) == bytes@,
        r matches Err(e) ==> e@ == utf8_error_text(bytes@),
{
    String::from_utf8(bytes).map_err(|e| e.to_string())
}

/// `Zeroize::zeroize` of a key: every byte set to zero.
#[verifier::external_body]
fn zeroize_key(key: &mut [u8; 32])
    ensures
        final(key)@ == Seq::new(32, |i: int| 0u8),
{
    zeroize::Zeroize::zeroize(key);
}

/// The envelope of an encrypted document.
#[derive(Clone, Debug)]
pub struct EncryptedEnvelope {
    /// Always `true` in an envelope this library writes.
    pub encrypted: bool,
    /// Identifier of the master key that wrapped the data key.
    pub key_id: String,
    /// Always `AES-256-GCM`.
    pub algorithm: String,
    /// Base64 of the wrapping nonce (12 bytes) followed by the wrapped data key.
    pub dek_ciphertext: String,
    /// Base64 of the 12-byte data nonce.
    pub nonce: String,
    /// Base64 of the encrypted data.
    pub ciphertext: String,
}

/// AES-256-GCM envelope encryptor holding a master key.
pub struct EnvelopeEncryptor {
    kek: [u8; 32],
    key_id: String,
}

/// What decrypting an envelope with a master key yields: the plaintext, or
/// the message of the `Internal` error.
pub open spec fn decrypt_result(kek: Seq<u8>, env: EncryptedEnvelope) -> Result<Seq<char>, Seq<char>> {
    if !env.encrypted {
        Err("Document is not encrypted (marker is false)"@)
    } else {
        match base64_parse(env.dek_ciphertext@) {
            Err(e) => Err("Invalid DEK ciphertext base64: "@ + e),
            Ok(blob) => match base64_parse(env.nonce@) {
                Err(e) => Err("Invalid nonce base64: "@ + e),
                Ok(nonce) => match base64_parse(env.ciphertext@) {
                    Err(e) => Err("Invalid ciphertext base64: "@ + e),
                    Ok(ct) => if blob.len() < 13 {
                        Err("DEK blob too short (expected nonce + wrapped key)"@)
                    } else {
                        match aead_open(kek, blob.subrange(0, 12), blob.subrange(12, blob.len() as int)) {
                            None => Err("DEK unwrap failed — wrong master key or corrupted data"@),
                            Some(dek) => if dek.len() != 32 {
                                Err("Unwrapped DEK has wrong length (expected 32, got "@ + decimal(dek.len()) + ")"@)
                            } else {
                                match aead_open(dek, nonce, ct) {
                                    None => Err("Data decryption failed — corrupted ciphertext or wrong DEK"@),
                                    Some(p) => if valid_utf8(p) {
                                        Ok(decode_utf8(p))
                                    } else {
                                        Err("Decrypted data is not valid UTF-8: "@ + utf8_error_text(p))
                                    },
                                }
                            },
                        }
                    },
                },
            },
        }
    }
}

/// The data nonce of the envelope is 12 bytes long whenever it decodes.
pub open spec fn nonce_well_sized(env: EncryptedEnvelope) -> bool {
    base64_parse(env.nonce@) matches Ok(n) ==> n.len() == 12
}

/// The envelope holds the marker, key identifier and algorithm, the data
/// key wrapped by the master key under `kek_nonce` (the nonce first), the
/// data nonce, and the plaintext sealed by the data key under the data
/// nonce, each binary field in standard base64.
pub open spec fn sealed_envelope(
    env: EncryptedEnvelope,
    kek: Seq<u8>,
    key_id: Seq<char>,
    plaintext: Seq<char>,
    dek: Seq<u8>,
    data_nonce: Seq<u8>,
    kek_nonce: Seq<u8>,
) -> bool {
    &&& env.encrypted
    &&& env.key_id@ == key_id
    &&& env.algorithm@ == "AES-256-GCM"@
    &&& env.dek_ciphertext@ == base64_text(kek_nonce + aead_seal(kek, kek_nonce, dek))
    &&& env.nonce@ == base64_text(data_nonce)
    &&& env.ciphertext@ == base64_text(aead_seal(dek, data_nonce, encode_utf8(plaintext)))
}

/// Decryption gets past every check up to its last step (the marker is set,
/// the three fields decode, the key blob is long enough and the data key
/// unwraps to 32 bytes), but the data nonce is not 12 bytes long: the one
/// input on which it cannot proceed.
pub open spec fn data_nonce_unusable(kek: Seq<u8>, env: EncryptedEnvelope) -> bool {
    &&& env.encrypted
    &&& base64_parse(env.dek_ciphertext@) matches Ok(blob)
    &&& base64_parse(env.nonce@) matches Ok(nonce)
    &&& base64_parse(env.ciphertext@) is Ok
    &&& blob.len() >= 13
    &&& aead_open(kek, blob.subrange(0, 12), blob.subrange(12, blob.len() as int)) matches Some(dek)
    &&& dek.len() == 32
    &&& nonce.len() != 12
}

fn internal(m: String) -> (r: MnemoError)
    ensures
        r == MnemoError::Internal(m),
{
    MnemoError::Internal(m)
}

fn text2(a: &str, b: &str) -> (r: String)
    ensures
        r@ == a@ + b@,
{
    let mut s = owned(a);
    push_str(&mut s, b);
    s
}

fn key_array(v: &Vec<u8>) -> (r: [u8; 32])
    requires
        v@.len() == 32,
    ensures
        r@ == v@,
{
    let mut a = [0u8; 32];
    let mut i: usize = 0;
    while i < 32
        invariant
            v@.len() == 32,
            i <= 32,
            forall|j: int| 0 <= j < i ==> a@[j] == v@[j],
        decreases 32 - i,
    {
        a[i] = v[i];
        i = i + 1;
    }
    proof {
        assert(a@ =~= v@);
    }
    a
}

fn nonce_array(v: &[u8]) -> (r: [u8; 12])
    requires
        v@.len() == 12,
    ensures
        r@ == v@,
{
    let mut a = [0u8; 12];
    let mut i: usize = 0;
    while i < 12
        invariant
            v@.len() == 12,
            i <= 12,
            forall|j: int| 0 <= j < i ==> a@[j] == v@[j],
        decreases 12 - i,
    {
        a[i] = v[i];
        i = i + 1;
    }
    proof {
        assert(a@ =~= v@);
    }
    a
}

impl EnvelopeEncryptor {
    /// The master key.
    pub closed spec fn kek_bytes(&self) -> Seq<u8> {
        self.kek@
    }

    /// The master key's identifier.
    pub closed spec fn key_name(&self) -> Seq<char> {
        self.key_id@
    }

    /// An encryptor with the given 256-bit master key and key identifier.
    pub fn new(kek: [u8; 32], key_id: String) -> (r: EnvelopeEncryptor)
        ensures
            r.kek_bytes() == kek@,
            r.key_name() == key_id@,
    {
        EnvelopeEncryptor { kek, key_id }
    }

    /// An encryptor from a base64 master key, which must decode to exactly
    /// 32 bytes; otherwise a `Config` error says why.
    pub fn from_base64(key_b64: &str, key_id: String) -> (r: Result<EnvelopeEncryptor, MnemoError>)
        ensures
            match base64_parse(key_b64@) {
                Err(e) => r matches Err(MnemoError::Config(m)) && m@ == "Invalid base64 master key: "@ + e,
                Ok(b) => if b.len() != 32 {
                    r matches Err(MnemoError::Config(m)) && m@ == "Master key must be exactly 32 bytes (got "@ + decimal(b.len()) + ")"@
                } else {
                    r matches Ok(enc) && enc.kek_bytes() == b && enc.key_name() == key_id@
                },
            },
    {
        let bytes = match base64_decode(key_b64) {
            Ok(b) => b,
            Err(e) => {
                return Err(MnemoError::Config(text2("Invalid base64 master key: ", e.as_str())));
            },
        };
        if bytes.len() != 32 {
            let mut m = text2("Master key must be exactly 32 bytes (got ", u64_to_decimal(bytes.len() as u64).as_str());
            push_str(&mut m, ")");
            return Err(MnemoError::Config(m));
        }
        let kek = key_array(&bytes);
        Ok(EnvelopeEncryptor { kek, key_id })
    }

    /// Encrypt a plaintext with the given data key and nonces: the data key
    /// encrypts the plaintext under `data_nonce`, and the master key wraps
    /// the data key under `kek_nonce`.  It fails only for a plaintext longer
    /// than 2^36 bytes; the envelope it returns holds exactly these sealed
    /// values and decrypts, with this encryptor's key, to the plaintext.
    pub fn encrypt_with(&self, plaintext: &str, dek: [u8; 32], data_nonce: [u8; 12], kek_nonce: [u8; 12]) -> (r: Result<EncryptedEnvelope, MnemoError>)
        ensures
            r is Ok <==> encode_utf8(plaintext@).len() <= aead_max_plaintext(),
            r matches Err(e) ==> e matches MnemoError::Internal(m) && m@ == "Encryption failed: aead::Error"@,
            r matches Ok(env) ==> {
                &&& sealed_envelope(env, self.kek_bytes(), self.key_name(), plaintext@, dek@, data_nonce@, kek_nonce@)
                &&& nonce_well_sized(env)
                &&& decrypt_result(self.kek_bytes(), env) == Ok::<Seq<char>, Seq<char>>(plaintext@)
            },
    {
        let mut dek = dek;
        let ciphertext = match aes_gcm_encrypt(&dek, &data_nonce, plaintext.as_bytes()) {
            Some(c) => c,
            None => {
                return Err(internal(owned("Encryption failed: aead::Error")));
            },
        };
        let wrapped = match aes_gcm_encrypt(&self.kek, &kek_nonce, dek.as_slice()) {
            Some(w) => w,
            None => {
                return Err(internal(owned("DEK wrapping failed: aead::Error")));
            },
        };
        let mut blob: Vec<u8> = Vec::new();
        let mut i: usize = 0;
        while i < 12
            invariant
                i <= 12,
                blob@ =~= kek_nonce@.take(i as int),
            decreases 12 - i,
        {
            blob.push(kek_nonce[i]);
            i = i + 1;
        }
        let mut j: usize = 0;
        while j < wrapped.len()
            invariant
                j <= wrapped.len(),
                blob@ =~= kek_nonce@ + wrapped@.take(j as int),
            decreases wrapped.len() - j,
        {
            blob.push(wrapped[j]);
            j = j + 1;
        }
        let ghost dek_bytes = dek@;
        zeroize_key(&mut dek);
        let env = EncryptedEnvelope {
            encrypted: true,
            key_id: self.key_id.clone(),
            algorithm: owned("AES-256-GCM"),
            dek_ciphertext: base64_encode(blob.as_slice()),
            nonce: base64_encode(data_nonce.as_slice()),
            ciphertext: base64_encode(ciphertext.as_slice()),
        };
        proof {
            broadcast use vstd::utf8::encode_utf8_valid_utf8, vstd::utf8::encode_utf8_decode_utf8;
            assert(wrapped@.take(wrapped@.len() as int) =~= wrapped@);
            assert(blob@.subrange(0, 12) =~= kek_nonce@);
            assert(blob@.subrange(12, blob@.len() as int) =~= wrapped@);
            assert(decode_utf8(encode_utf8(plaintext@)) == plaintext@);
        }
        Ok(env)
    }

    /// Encrypt a plaintext under a fresh random data key and fresh random
    /// nonces (see `encrypt_with`).  It fails only for a plaintext longer
    /// than 2^36 bytes; the envelope it returns decrypts, with this
    /// encryptor's key, to the plaintext.
    pub fn encrypt(&self, plaintext: &str) -> (r: Result<EncryptedEnvelope, MnemoError>)
        ensures
            r is Ok <==> encode_utf8(plaintext@).len() <= aead_max_plaintext(),
            r matches Err(e) ==> e matches MnemoError::Internal(m) && m@ == "Encryption failed: aead::Error"@,
            r matches Ok(env) ==> {
                &&& exists|dek: Seq<u8>, data_nonce: Seq<u8>, kek_nonce: Seq<u8>|
                    dek.len() == 32 && data_nonce.len() == 12 && kek_nonce.len() == 12
                    && #[trigger] sealed_envelope(env, self.kek_bytes(), self.key_name(), plaintext@, dek, data_nonce, kek_nonce)
                &&& nonce_well_sized(env)
                &&& decrypt_result(self.kek_bytes(), env) == Ok::<Seq<char>, Seq<char>>(plaintext@)
            },
    {
        let dek = random_key();
        let data_nonce = random_nonce();
        let kek_nonce = random_nonce();
        self.encrypt_with(plaintext, dek, data_nonce, kek_nonce)
    }

    /// Decrypt an envelope: decode its fields, unwrap the data key with the
    /// master key, decrypt the data and read it as UTF-8.  Each failure is an
    /// `Internal` error naming the step.
    pub fn decrypt(&self, env: &EncryptedEnvelope) -> (r: Result<String, MnemoError>)
        requires
            !data_nonce_unusable(self.kek_bytes(), *env),
        ensures
            match r {
                Ok(s) => decrypt_result(self.kek_bytes(), *env) == Ok::<Seq<char>, Seq<char>>(s@),
                Err(e) => e matches MnemoError::Internal(m)
                    && decrypt_result(self.kek_bytes(), *env) == Err::<Seq<char>, Seq<char>>(m@),
            },
    {
        match self.decrypt_checked(env) {
            Some(r) => r,
            None => {
                proof {
                    assert(false);
                }
                Err(internal(owned("Data nonce must be exactly 12 bytes")))
            },
        }
    }

    /// `decrypt`, for any envelope: `None` exactly where decryption gets to
    /// its last step with a data nonce that is not 12 bytes long, on which it
    /// cannot proceed; every earlier failure is its `Internal` error.
    pub fn decrypt_checked(&self, env: &EncryptedEnvelope) -> (r: Option<Result<String, MnemoError>>)
        ensures
            r is None <==> data_nonce_unusable(self.kek_bytes(), *env),
            r matches Some(res) ==> match res {
                Ok(s) => decrypt_result(self.kek_bytes(), *env) == Ok::<Seq<char>, Seq<char>>(s@),
                Err(e) => e matches MnemoError::Internal(m)
                    && decrypt_result(self.kek_bytes(), *env) == Err::<Seq<char>, Seq<char>>(m@),
            },
    {
        if !env.encrypted {
            return Some(Err(internal(owned("Document is not encrypted (marker is false)"))));
        }
        let dek_blob = match base64_decode(env.dek_ciphertext.as_str()) {
            Ok(b) => b,
            Err(e) => {
                return Some(Err(internal(text2("Invalid DEK ciphertext base64: ", e.as_str()))));
            },
        };
        let data_nonce = match base64_decode(env.nonce.as_str()) {
            Ok(b) => b,
            Err(e) => {
                return Some(Err(internal(text2("Invalid nonce base64: ", e.as_str()))));
            },
        };
        let ciphertext = match base64_decode(env.ciphertext.as_str()) {
            Ok(b) => b,
            Err(e) => {
                return Some(Err(internal(text2("Invalid ciphertext base64: ", e.as_str()))));
            },
        };
        if dek_blob.len() < 13 {
            return Some(Err(internal(owned("DEK blob too short (expected nonce + wrapped key)"))));
        }
        let blob = dek_blob.as_slice();
        let kek_nonce = nonce_array(&blob[0..12]);
        let wrapped = &blob[12..dek_blob.len()];
        proof {
            assert(kek_nonce@ == dek_blob@.subrange(0, 12));
            assert(wrapped@ == dek_blob@.subrange(12, dek_blob@.len() as int));
        }
        let dek = match aes_gcm_decrypt(&self.kek, &kek_nonce, wrapped) {
            Some(d) => d,
            None => {
                return Some(Err(internal(owned("DEK unwrap failed — wrong master key or corrupted data"))));
            },
        };
        if dek.len() != 32 {
            let mut m = text2("Unwrapped DEK has wrong length (expected 32, got ", u64_to_decimal(dek.len() as u64).as_str());
            push_str(&mut m, ")");
            return Some(Err(internal(m)));
        }
        if data_nonce.len() != 12 {
            return None;
        }
        let mut dek_key = key_array(&dek);
        let nonce = nonce_array(data_nonce.as_slice());
        let plaintext = match aes_gcm_decrypt(&dek_key, &nonce, ciphertext.as_slice()) {
            Some(p) => p,
            None => {
                zeroize_key(&mut dek_key);
                return Some(Err(internal(owned("Data decryption failed — corrupted ciphertext or wrong DEK"))));
            },
        };
        zeroize_key(&mut dek_key);
        let ghost pbytes = plaintext@;
        match utf8_string(plaintext) {
            Ok(s) => {
                proof {
                    broadcast use vstd::utf8::encode_utf8_decode_utf8;
                    assert(decode_utf8(encode_utf8(s@)) == s@);
                }
                Some(Ok(s))
            },
            Err(e) => Some(Err(internal(text2("Decrypted data is not valid UTF-8: ", e.as_str())))),
        }
    }
}

/// The text holds both envelope markers, `"_encrypted"` and `"_ciphertext"`.
pub open spec fn looks_encrypted(s: Seq<char>) -> bool {
    has_substring(s, "\"_encrypted\""@) && has_substring(s, "\"_ciphertext\""@)
}

/// Whether a JSON text is an encrypted envelope, by its markers alone.
pub fn is_encrypted(json_str: &str) -> (r: bool)
    ensures
        r == looks_encrypted(json_str@),
{
    contains_text(json_str, "\"_encrypted\"") && contains_text(json_str, "\"_ciphertext\"")
}

} // verus!
