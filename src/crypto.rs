//! Key material: Ed25519 key pairs in base64, fingerprints, signing and
//! verification, over the outside crates that compute them.

use vstd::prelude::*;
use base64::Engine;
use ed25519_dalek::{Signer, Verifier};
use crate::error::CoreError;

verus! {

/// Standard base64 text (with padding) of a byte string.
pub uninterp spec fn base64_text(b: Seq<u8>) -> Seq<char>;

/// SHA-256 digest of a byte string.
pub uninterp spec fn sha256_digest(b: Seq<u8>) -> Seq<u8>;

/// Ed25519 verifying key derived from a 32-byte signing seed.
pub uninterp spec fn ed25519_public_key(seed: Seq<u8>) -> Seq<u8>;

/// Ed25519 signature of `msg` under the signing seed `seed`.
pub uninterp spec fn ed25519_signature(seed: Seq<u8>, msg: Seq<u8>) -> Seq<u8>;

/// Whether `sig` is a valid Ed25519 signature of `msg` under `public_key`
/// (a key that does not decode to a curve point is never valid).
pub uninterp spec fn ed25519_accepts(public_key: Seq<u8>, msg: Seq<u8>, sig: Seq<u8>) -> bool;

/// Relies on `base64::engine::general_purpose::STANDARD.encode`.
#[verifier::external_body]
fn encode_base64(b: &[u8]) -> (r: String)
    ensures
        r@ == base64_text(b@),
{
    base64::engine::general_purpose::STANDARD.encode(b)
}

/// Relies on `base64::engine::general_purpose::STANDARD.decode`: the
/// standard engine requires canonical padding and zero trailing bits, so text
/// that decodes is exactly the encoding of what it decodes to, and the
/// encoding of any byte string decodes back to it.
#[verifier::external_body]
fn decode_base64(s: &str) -> (r: Option<Vec<u8>>)
    ensures
        r.is_some() ==> base64_text(r.unwrap()@) == s@,
        forall|v: Seq<u8>| #[trigger] base64_text(v) == s@ ==> (r.is_some() && r.unwrap()@ == v),
{
    base64::engine::general_purpose::STANDARD.decode(s).ok()
}

/// Relies on `sha2::Sha256::digest`: 32 bytes.
#[verifier::external_body]
fn sha256(b: &[u8]) -> (r: Vec<u8>)
    ensures
        r@ == sha256_digest(b@),
        r@.len() == 32,
{
    <sha2::Sha256 as sha2::Digest>::digest(b).to_vec()
}

/// Relies on `ed25519_dalek::SigningKey::generate` with the operating
/// system's random source: a fresh 32-byte seed.
#[verifier::external_body]
fn random_signing_seed() -> (r: Vec<u8>)
    ensures
        r@.len() == 32,
{
    ed25519_dalek::SigningKey::generate(&mut rand::rngs::OsRng).to_bytes().to_vec()
}

/// Relies on `uuid::Uuid::new_v4` and its hyphenated text form: a fresh
/// random identifier of 36 characters.
#[verifier::external_body]
pub(crate) fn random_uuid() -> (r: String)
    ensures
        r@.len() == 36,
{
    uuid::Uuid::new_v4().to_string()
}

/// Relies on `ed25519_dalek::SigningKey::verifying_key`: the 32-byte
/// compressed verifying key of a seed.
#[verifier::external_body]
fn verifying_key_of(seed: &[u8]) -> (r: Vec<u8>)
    requires
        seed@.len() == 32,
    ensures
        r@ == ed25519_public_key(seed@),
        r@.len() == 32,
{
    let seed: [u8; 32] = seed.try_into().unwrap();
    ed25519_dalek::SigningKey::from_bytes(&seed).verifying_key().to_bytes().to_vec()
}

/// Relies on `ed25519_dalek::SigningKey::sign`: a 64-byte signature, which
/// `VerifyingKey::verify` accepts under the seed's own verifying key.
#[verifier::external_body]
fn sign_ed25519(seed: &[u8], msg: &[u8]) -> (r: Vec<u8>)
    requires
        seed@.len() == 32,
    ensures
        r@ == ed25519_signature(seed@, msg@),
        r@.len() == 64,
        ed25519_accepts(ed25519_public_key(seed@), msg@, r@),
{
    let seed: [u8; 32] = seed.try_into().unwrap();
    ed25519_dalek::SigningKey::from_bytes(&seed).sign(msg).to_bytes().to_vec()
}

/// Relies on `ed25519_dalek::VerifyingKey::from_bytes` and
/// `VerifyingKey::verify`.
#[verifier::external_body]
fn verify_ed25519(public_key: &[u8], msg: &[u8], sig: &[u8]) -> (r: bool)
    requires
        public_key@.len() == 32,
        sig@.len() == 64,
    ensures
        r == ed25519_accepts(public_key@, msg@, sig@),
{
    let public_key: [u8; 32] = public_key.try_into().unwrap();
    let sig: [u8; 64] = sig.try_into().unwrap();
    match ed25519_dalek::VerifyingKey::from_bytes(&public_key) {
        Ok(k) => k.verify(msg, &ed25519_dalek::Signature::from_bytes(&sig)).is_ok(),
        Err(_) => false,
    }
}

/// Lower-case hexadecimal text of a byte string, two digits per byte.
pub open spec fn lower_hex(b: Seq<u8>) -> Seq<char>
    decreases b.len(),
{
    if b.len() == 0 {
        Seq::empty()
    } else {
        lower_hex(b.drop_last()) + seq![
            crate::codec::hex_digit((b.last() / 16) as nat),
            crate::codec::hex_digit((b.last() % 16) as nat),
        ]
    }
}

/// Relies on `hex::encode`: two lower-case hexadecimal digits per byte, in
/// order.
#[verifier::external_body]
pub(crate) fn encode_hex(b: &[u8]) -> (r: String)
    ensures
        r@ == lower_hex(b@),
{
    hex::encode(b)
}

/// SHA-256 of the UTF-8 bytes of `text`, in lower-case hexadecimal.
pub fn sha256_hex(text: &str) -> (r: String)
    ensures
        r@ == lower_hex(sha256_digest(vstd::utf8::encode_utf8(text@))),
{
    let digest = sha256(text.as_bytes());
    encode_hex(digest.as_slice())
}

/// The fingerprint of a public key: base64 of the first 16 bytes of its
/// SHA-256 digest.
pub open spec fn fingerprint_text(public_key: Seq<u8>) -> Seq<char> {
    base64_text(sha256_digest(public_key).take(16))
}

/// Whether `text` is the base64 form of `bytes`.
pub open spec fn base64_of(text: Seq<char>, bytes: Seq<u8>) -> bool {
    base64_text(bytes) == text
}

/// Whether `signature` (base64) is a valid signature of the UTF-8 bytes of
/// `data` under `public_key` (base64): both decode, to 32 and 64 bytes, and
/// the signature checks.
pub open spec fn signature_valid(data: Seq<char>, signature: Seq<char>, public_key: Seq<char>) -> bool {
    exists|pk: Seq<u8>, sig: Seq<u8>|
        #![trigger base64_text(pk), base64_text(sig)]
        base64_of(public_key, pk) && base64_of(signature, sig) && pk.len() == 32 && sig.len() == 64
            && ed25519_accepts(pk, vstd::utf8::encode_utf8(data), sig)
}

/// What signing the UTF-8 bytes of `data` with the base64 secret key
/// `secret_key` gives: the base64 signature, or why there is none.
pub open spec fn signing_outcome(secret_key: Seq<char>, data: Seq<char>) -> Result<Seq<char>, CoreError> {
    if !exists|s: Seq<u8>| base64_of(secret_key, s) {
        Err(CoreError::SecretKeyEncoding)
    } else {
        let seed = choose|s: Seq<u8>| base64_of(secret_key, s);
        if seed.len() != 32 {
            Err(CoreError::SecretKeyLength)
        } else {
            Ok(base64_text(ed25519_signature(seed, vstd::utf8::encode_utf8(data))))
        }
    }
}

/// Whether a base64 secret key decodes to a 32-byte seed.
pub open spec fn secret_key_usable(secret_key: Seq<char>) -> bool {
    exists|s: Seq<u8>| base64_of(secret_key, s) && s.len() == 32
}

/// The view of a text result.
pub open spec fn text_result(r: Result<String, CoreError>) -> Result<Seq<char>, CoreError> {
    match r {
        Ok(s) => Ok(s@),
        Err(e) => Err(e),
    }
}

/// Whether the key pair's texts all come from the one 32-byte seed.
pub open spec fn keypair_from_seed(public_key: Seq<char>, secret_key: Seq<char>, fingerprint: Seq<char>, seed: Seq<u8>) -> bool {
    &&& seed.len() == 32
    &&& ed25519_public_key(seed).len() == 32
    &&& secret_key == base64_text(seed)
    &&& public_key == base64_text(ed25519_public_key(seed))
    &&& fingerprint == fingerprint_text(ed25519_public_key(seed))
}

/// An Ed25519 key pair in base64 text, with the fingerprint of its public key.
#[derive(Clone, Debug)]
pub struct KeyPair {
    pub public_key: String,
    pub secret_key: String,
    pub fingerprint: String,
}

/// The shareable half of a key pair.
#[derive(Clone, Debug)]
pub struct KeyInfo {
    pub public_key: String,
    pub fingerprint: String,
}

/// Fingerprint of a raw public key.
pub fn fingerprint(public_key: &[u8]) -> (r: String)
    ensures
        r@ == fingerprint_text(public_key@),
{
    let mut digest = sha256(public_key);
    digest.truncate(16);
    encode_base64(digest.as_slice())
}

/// Fingerprint of a public key given in base64; `None` when the text is not
/// base64.
pub fn fingerprint_of_public_key(public_key: &str) -> (r: Option<String>)
    ensures
        r matches Some(f) <==> exists|pk: Seq<u8>| base64_of(public_key@, pk),
        forall|pk: Seq<u8>| base64_of(public_key@, pk) ==> (r matches Some(f) && f@ == fingerprint_text(pk)),
{
    match decode_base64(public_key) {
        Some(pk) => {
            assert(base64_of(public_key@, pk@));
            Some(fingerprint(pk.as_slice()))
        },
        None => None,
    }
}

/// Checks a base64 signature of the UTF-8 bytes of `data` against a base64
/// public key. Text that does not decode, or decodes to the wrong length,
/// gives `false` like a signature that does not check.
pub fn verify_signature(data: &str, signature: &str, public_key: &str) -> (r: bool)
    ensures
        r == signature_valid(data@, signature@, public_key@),
{
    let pk = match decode_base64(public_key) {
        Some(pk) => pk,
        None => {
            return false;
        },
    };
    let sig = match decode_base64(signature) {
        Some(sig) => sig,
        None => {
            return false;
        },
    };
    if pk.len() != 32 || sig.len() != 64 {
        return false;
    }
    let r = verify_ed25519(pk.as_slice(), data.as_bytes(), sig.as_slice());
    proof {
        if signature_valid(data@, signature@, public_key@) {
            let (pk2, sig2) = choose|pk2: Seq<u8>, sig2: Seq<u8>|
                #![trigger base64_text(pk2), base64_text(sig2)]
                base64_of(public_key@, pk2) && base64_of(signature@, sig2) && pk2.len() == 32
                    && sig2.len() == 64 && ed25519_accepts(pk2, vstd::utf8::encode_utf8(data@), sig2);
            assert(pk2 == pk@);
            assert(sig2 == sig@);
        }
        if r {
            assert(base64_of(public_key@, pk@) && base64_of(signature@, sig@));
        }
    }
    r
}

impl KeyPair {
    /// Key pair texts that all come from one 32-byte seed.
    pub open spec fn wf(&self) -> bool {
        exists|seed: Seq<u8>| #[trigger] keypair_from_seed(self.public_key@, self.secret_key@, self.fingerprint@, seed)
    }

    /// The key pair of a given 32-byte seed.
    pub fn from_seed(seed: &[u8]) -> (k: KeyPair)
        requires
            seed@.len() == 32,
        ensures
            keypair_from_seed(k.public_key@, k.secret_key@, k.fingerprint@, seed@),
            k.wf(),
    {
        let public = verifying_key_of(seed);
        let k = KeyPair {
            public_key: encode_base64(public.as_slice()),
            secret_key: encode_base64(seed),
            fingerprint: fingerprint(public.as_slice()),
        };
        assert(keypair_from_seed(k.public_key@, k.secret_key@, k.fingerprint@, seed@));
        k
    }

    /// A fresh key pair from the operating system's random source.
    pub fn generate() -> (r: Result<KeyPair, CoreError>)
        ensures
            r matches Ok(k) && k.wf(),
    {
        let seed = random_signing_seed();
        Ok(Self::from_seed(seed.as_slice()))
    }

    /// Signs the UTF-8 bytes of `data` with the secret key and returns the
    /// signature in base64. The secret key must be base64 of exactly 32
    /// bytes.
    pub fn sign(&self, data: &str) -> (r: Result<String, CoreError>)
        ensures
            text_result(r) == signing_outcome(self.secret_key@, data@),
            r is Ok <==> secret_key_usable(self.secret_key@),
            r matches Ok(s) ==> exists|sig: Seq<u8>| base64_of(s@, sig) && sig.len() == 64,
            self.wf() ==> (r matches Ok(sig) && signature_valid(data@, sig@, self.public_key@)),
    {
        let seed = match decode_base64(self.secret_key.as_str()) {
            Some(seed) => seed,
            None => {
                return Err(CoreError::SecretKeyEncoding);
            },
        };
        assert(base64_of(self.secret_key@, seed@));
        assert((choose|s: Seq<u8>| base64_of(self.secret_key@, s)) == seed@);
        if seed.len() != 32 {
            return Err(CoreError::SecretKeyLength);
        }
        let msg = data.as_bytes();
        let sig = sign_ed25519(seed.as_slice(), msg);
        let r = encode_base64(sig.as_slice());
        proof {
            if self.wf() {
                let s = choose|s: Seq<u8>| #[trigger] keypair_from_seed(self.public_key@, self.secret_key@, self.fingerprint@, s);
                assert(s == seed@);
                assert(base64_of(self.public_key@, ed25519_public_key(seed@)));
                assert(base64_of(r@, sig@));
                assert(ed25519_accepts(ed25519_public_key(seed@), vstd::utf8::encode_utf8(data@), sig@));
                assert(base64_text(ed25519_public_key(seed@)) == self.public_key@);
                assert(base64_text(sig@) == r@);
                assert(signature_valid(data@, r@, self.public_key@));
            }
            assert(base64_of(r@, sig@));
        }
        Ok(r)
    }

    /// The secret key of a well-formed pair decodes to its 32-byte seed.
    pub proof fn lemma_wf_usable(&self)
        requires
            self.wf(),
        ensures
            secret_key_usable(self.secret_key@),
    {
        let seed = choose|seed: Seq<u8>| #[trigger] keypair_from_seed(self.public_key@, self.secret_key@, self.fingerprint@, seed);
        assert(base64_of(self.secret_key@, seed));
    }

    /// A field-by-field copy.
    pub fn duplicate(&self) -> (r: KeyPair)
        ensures
            r == *self,
    {
        KeyPair {
            public_key: self.public_key.clone(),
            secret_key: self.secret_key.clone(),
            fingerprint: self.fingerprint.clone(),
        }
    }

    /// The public key and fingerprint.
    pub fn get_public_info(&self) -> (r: KeyInfo)
        ensures
            r.public_key@ == self.public_key@,
            r.fingerprint@ == self.fingerprint@,
    {
        KeyInfo { public_key: self.public_key.clone(), fingerprint: self.fingerprint.clone() }
    }
}

} // verus!
