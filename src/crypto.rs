//! The proxy re-encryption primitives this library builds on: signing,
//! signature checks and capsule encryption. Keys, signatures and capsules travel
//! through the library as their byte encodings.

use umbral_pre::{DeserializableFromArray, SerializableToArray};
use vstd::prelude::*;

verus! {

#[verifier::external_type_specification]
#[verifier::external_body]
pub struct ExVerifiedKeyFrag(umbral_pre::VerifiedKeyFrag);

#[verifier::external_type_specification]
#[verifier::external_body]
pub struct ExEncryptionError(umbral_pre::EncryptionError);

/// A public key, as its compressed curve point.
pub type PublicKey = Vec<u8>;

/// Whether `signature` is a signature of `message` under `key` (all three as
/// bytes).
pub uninterp spec fn signature_valid(signature: Seq<u8>, key: Seq<u8>, message: Seq<u8>) -> bool;

/// Whether `key` encodes a public key.
pub uninterp spec fn valid_public_key(key: Seq<u8>) -> bool;

/// Whether `secret` encodes a secret key.
pub uninterp spec fn valid_secret_key(secret: Seq<u8>) -> bool;

/// The public key, as its compressed point, of the secret key `secret`.
pub uninterp spec fn public_key_of(secret: Seq<u8>) -> Seq<u8>;

/// What decrypting `ciphertext` with `capsule` (both as bytes) under the secret
/// key `secret` gives, or `None` where it fails.
pub uninterp spec fn decryption_of(secret: Seq<u8>, capsule: Seq<u8>, ciphertext: Seq<u8>) -> Option<
    Seq<u8>,
>;

/// Whether every holder of a secret key whose public key is `recipient_key`
/// decrypts `ciphertext` with `capsule` to `plaintext`.
pub open spec fn opens_to(
    capsule: Seq<u8>,
    ciphertext: Seq<u8>,
    recipient_key: Seq<u8>,
    plaintext: Seq<u8>,
) -> bool {
    forall|s: Seq<u8>|
        valid_secret_key(s) && public_key_of(s) == recipient_key ==> #[trigger] decryption_of(
            s,
            capsule,
            ciphertext,
        ) == Some(plaintext)
}

/// Whether a capsule's two points, each in compressed form (a parity byte, then
/// the x-coordinate), are each other's negation: the same x-coordinate under
/// different parity bytes. Their sum is then the identity, which the opening of
/// such a capsule cannot encode.
pub open spec fn points_cancel(capsule: Seq<u8>) -> bool {
    capsule.len() == 98 && capsule[0] != capsule[33] && capsule.subrange(1, 33) == capsule.subrange(
        34,
        66,
    )
}

/// Whether a capsule's two points cancel.
pub fn capsule_points_cancel(capsule: &[u8]) -> (r: bool)
    ensures
        r == points_cancel(capsule@),
{
    if capsule.len() != 98 || capsule[0] == capsule[33] {
        return false;
    }
    let mut i: usize = 1;
    while i < 33
        invariant
            1 <= i <= 33,
            capsule@.len() == 98,
            capsule@.subrange(1, i as int) == capsule@.subrange(34, 33 + i as int),
        decreases 33 - i,
    {
        if capsule[i] != capsule[i + 33] {
            assert(capsule@.subrange(1, 33)[i - 1] != capsule@.subrange(34, 66)[i - 1]);
            return false;
        }
        i += 1;
        assert(capsule@.subrange(1, i as int) =~= capsule@.subrange(34, 33 + i as int));
    }
    true
}

/// Whether the encryption primitive takes a plaintext of `len` bytes.
pub open spec fn encryptable(len: int) -> bool {
    len / 64 < 0xffff_ffff
}

/// Relies on `umbral_pre::SecretKey::from_bytes`: whether the bytes encode a
/// secret key.
#[verifier::external_body]
fn secret_key_valid(secret: &[u8]) -> (r: bool)
    ensures
        r == valid_secret_key(secret@),
{
    umbral_pre::SecretKey::from_bytes(secret).is_ok()
}

/// Relies on `umbral_pre::Signer::sign`, for the signer of the secret key
/// `secret`: a signature of `message`, as its bytes, that checks under the key's
/// public key (the signer's verifying key is that public key).
#[verifier::external_body]
pub(crate) fn sign(secret: &[u8], message: &[u8]) -> (r: Vec<u8>)
    requires
        valid_secret_key(secret@),
    ensures
        r@.len() == 64,
        signature_valid(r@, public_key_of(secret@), message@),
{
    match umbral_pre::SecretKey::from_bytes(secret) {
        Ok(sk) => umbral_pre::Signer::new(sk).sign(message).to_array().to_vec(),
        Err(_) => Vec::new(),
    }
}

/// Relies on `umbral_pre::SecretKey::public_key`: the public half of a secret
/// key, as its compressed point.
#[verifier::external_body]
pub(crate) fn public_key(secret: &[u8]) -> (r: PublicKey)
    requires
        valid_secret_key(secret@),
    ensures
        r@ == public_key_of(secret@),
        r@.len() == 33,
{
    match umbral_pre::SecretKey::from_bytes(secret) {
        Ok(sk) => sk.public_key().to_array().to_vec(),
        Err(_) => Vec::new(),
    }
}

/// Relies on `umbral_pre::Signature::verify`, reading the signature and the key
/// from their bytes; bytes that encode no signature or no key check nothing.
#[verifier::external_body]
pub(crate) fn verify(signature: &[u8], key: &[u8], message: &[u8]) -> (r: bool)
    ensures
        r == signature_valid(signature@, key@, message@),
{
    match (umbral_pre::Signature::from_bytes(signature), umbral_pre::PublicKey::from_bytes(key)) {
        (Ok(s), Ok(k)) => s.verify(&k, message),
        _ => false,
    }
}

/// Relies on `umbral_pre::encrypt`, reading the key from its bytes: `None` where
/// the bytes encode no key, else the capsule (as its bytes) and the ciphertext,
/// which the key's secret half decrypts back, or the primitive's error, which
/// comes exactly for a plaintext of `u32::MAX` blocks of 64 bytes or more. The
/// capsule's points sum to the encrypting key's shared point, never the
/// identity (where it would be, the primitive does not return).
#[verifier::external_body]
pub(crate) fn encrypt(key: &[u8], plaintext: &[u8]) -> (r: Option<
    Result<(Vec<u8>, Vec<u8>), umbral_pre::EncryptionError>,
>)
    ensures
        r is None <==> !valid_public_key(key@),
        valid_public_key(key@) ==> (r matches Some(Err(_)) <==> !encryptable(plaintext@.len() as int)),
        r matches Some(Ok((c, t))) ==> opens_to(c@, t@, key@, plaintext@),
        r matches Some(Ok((c, t))) ==> !points_cancel(c@),
{
    match umbral_pre::PublicKey::from_bytes(key) {
        Ok(k) => Some(
            umbral_pre::encrypt(&k, plaintext).map(|(c, t)| (c.to_array().to_vec(), t.to_vec())),
        ),
        Err(_) => None,
    }
}

/// Relies on `umbral_pre::decrypt_original`, reading the secret key and the
/// capsule from their bytes: the plaintext, or `None` where the capsule is
/// malformed or decryption fails. A capsule whose points cancel would make the
/// primitive panic, so it is left out.
#[verifier::external_body]
pub(crate) fn decrypt(secret: &[u8], capsule: &[u8], ciphertext: &[u8]) -> (r: Option<Vec<u8>>)
    requires
        valid_secret_key(secret@),
        !points_cancel(capsule@),
    ensures
        match r {
            Some(p) => decryption_of(secret@, capsule@, ciphertext@) == Some(p@),
            None => decryption_of(secret@, capsule@, ciphertext@) is None,
        },
{
    match (umbral_pre::SecretKey::from_bytes(secret), umbral_pre::Capsule::from_bytes(capsule)) {
        (Ok(sk), Ok(c)) => umbral_pre::decrypt_original(&sk, &c, ciphertext).ok().map(|p| p.to_vec()),
        _ => None,
    }
}

/// Relies on `SerializableToArray::to_array` of `umbral_pre::VerifiedKeyFrag`:
/// the key fragment's bytes, 260 of them.
#[verifier::external_body]
pub(crate) fn key_frag_bytes(kfrag: &umbral_pre::VerifiedKeyFrag) -> (r: Vec<u8>)
    ensures
        r@.len() == 260,
{
    kfrag.to_array().to_vec()
}

/// A secret key, held as its bytes.
pub struct SecretKey {
    secret: Vec<u8>,
}

impl View for SecretKey {
    type V = Seq<u8>;

    closed spec fn view(&self) -> Seq<u8> {
        self.secret@
    }
}

impl SecretKey {
    #[verifier::type_invariant]
    spec fn inv(&self) -> bool {
        valid_secret_key(self.secret@)
    }

    /// The secret key that `secret` encodes, where it encodes one.
    pub fn from_bytes(secret: &[u8]) -> (r: Option<SecretKey>)
        ensures
            r is Some <==> valid_secret_key(secret@),
            r matches Some(k) ==> k@ == secret@,
    {
        if secret_key_valid(secret) {
            let v = crate::codec::copy_range(secret, 0, secret.len());
            assert(secret@.subrange(0, secret@.len() as int) =~= secret@);
            Some(SecretKey { secret: v })
        } else {
            None
        }
    }

    /// The bytes of the key.
    pub fn as_bytes(&self) -> (r: &[u8])
        ensures
            r@ == self@,
            valid_secret_key(r@),
    {
        proof {
            use_type_invariant(self);
        }
        self.secret.as_slice()
    }

    /// The key's public half.
    pub fn public_key(&self) -> (r: PublicKey)
        ensures
            r@ == public_key_of(self@),
    {
        public_key(self.as_bytes())
    }
}

/// Signs messages with a secret key.
pub struct Signer {
    key: SecretKey,
}

impl View for Signer {
    type V = Seq<u8>;

    closed spec fn view(&self) -> Seq<u8> {
        self.key@
    }
}

impl Signer {
    /// A signer with the secret key `key`.
    pub fn new(key: SecretKey) -> (r: Signer)
        ensures
            r@ == key@,
    {
        Signer { key }
    }

    /// The key under which this signer's signatures check.
    pub fn verifying_key(&self) -> (r: PublicKey)
        ensures
            r@ == public_key_of(self@),
    {
        self.key.public_key()
    }

    /// A signature of `message` that checks under `verifying_key`.
    pub fn sign(&self, message: &[u8]) -> (r: Vec<u8>)
        ensures
            r@.len() == 64,
            signature_valid(r@, public_key_of(self@), message@),
    {
        sign(self.key.as_bytes(), message)
    }
}

} // verus!
