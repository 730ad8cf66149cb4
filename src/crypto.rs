use vstd::prelude::*;
use rsa::pkcs8::{DecodePublicKey, EncodePrivateKey, EncodePublicKey};
use rsa::{PaddingScheme, RsaPrivateKey, RsaPublicKey};

use crate::error::PrimitiveError;
use crate::hash::{sha256, sha256_of, Digest};

verus! {

#[verifier::external_type_specification]
#[verifier::external_body]
pub struct ExRsaPublicKey(RsaPublicKey);

#[verifier::external_type_specification]
#[verifier::external_body]
pub struct ExRsaPrivateKey(RsaPrivateKey);

#[verifier::external_type_specification]
#[verifier::external_body]
pub struct ExRsaError(rsa::errors::Error);

#[verifier::external_type_specification]
#[verifier::external_body]
pub struct ExSpkiError(rsa::pkcs8::spki::Error);

#[verifier::external_type_specification]
#[verifier::external_body]
pub struct ExPkcs8Error(rsa::pkcs8::Error);

/// Whether an RSA PKCS#1 v1.5 signature `sig` over the pre-hashed message
/// `msg` verifies under the public key whose SubjectPublicKeyInfo DER
/// encoding is `key_der`.
pub uninterp spec fn pkcs1v15_accepts(key_der: Seq<u8>, msg: Seq<u8>, sig: Seq<u8>) -> bool;

/// Relies on `rsa::PublicKey::verify` (PKCS#1 v1.5, no hash prefix) for a key
/// decoded by `DecodePublicKey::from_public_key_der`; a key that does not
/// decode verifies nothing.
#[verifier::external_body]
fn rsa_verify(key_der: &[u8], msg: &[u8], sig: &[u8]) -> (r: bool)
    ensures
        r == pkcs1v15_accepts(key_der@, msg@, sig@),
{
    match RsaPublicKey::from_public_key_der(key_der) {
        Ok(key) => rsa::PublicKey::verify(&key, PaddingScheme::PKCS1v15Sign { hash: None }, msg, sig).is_ok(),
        Err(_) => false,
    }
}

/// Relies on `EncodePublicKey::to_public_key_der`: the SubjectPublicKeyInfo
/// DER encoding of the key.
#[verifier::external_body]
fn public_key_der(key: &RsaPublicKey) -> (r: core::result::Result<Vec<u8>, rsa::pkcs8::spki::Error>) {
    key.to_public_key_der().map(|doc| doc.as_ref().to_vec())
}

/// The digest of a public key; the only credential needed to spend an output
/// sent to it.
#[derive(Clone, Copy, Debug)]
pub struct Address(pub Digest);

impl Address {
    /// The digest that the address is.
    pub fn as_hash(&self) -> (r: &Digest)
        ensures
            *r == self.0,
    {
        &self.0
    }
}

/// A public key, held in its canonical SubjectPublicKeyInfo DER encoding.
#[derive(Debug)]
pub struct PublicKey {
    pub der: Vec<u8>,
}

/// The digest of a public key given by its DER encoding.
pub open spec fn key_hash(der: Seq<u8>) -> Seq<u8> {
    sha256_of(der)
}

impl View for PublicKey {
    type V = Seq<u8>;

    open spec fn view(&self) -> Seq<u8> {
        self.der@
    }
}

impl View for Address {
    type V = Seq<u8>;

    open spec fn view(&self) -> Seq<u8> {
        self.0@
    }
}

impl Clone for PublicKey {
    fn clone(&self) -> (r: Self)
        ensures
            r@ == self@,
    {
        let der = self.der.clone();
        assert(der@ =~= self.der@);
        PublicKey { der }
    }
}

impl PublicKey {
    /// The key in its canonical encoding; fails with `Encoding` where the
    /// encoder refuses it. The outside key is opaque here, so which keys encode,
    /// and to what, is the encoder's to decide.
    pub fn new(inner: RsaPublicKey) -> (r: Result<PublicKey, PrimitiveError>)
        ensures
            r matches Err(e) ==> e == PrimitiveError::Encoding,
    {
        match public_key_der(&inner) {
            Ok(der) => Ok(PublicKey { der }),
            Err(_) => Err(PrimitiveError::Encoding),
        }
    }

    /// The key given by its DER encoding.
    pub fn from_der(der: Vec<u8>) -> (r: PublicKey)
        ensures
            r@ == der@,
    {
        PublicKey { der }
    }

    /// The digest of the key's canonical encoding.
    pub fn hash(&self) -> (r: Digest)
        ensures
            r@ == key_hash(self@),
    {
        sha256(&self.der)
    }

    /// The address that this key may spend from.
    pub fn address(&self) -> (r: Address)
        ensures
            r@ == key_hash(self@),
    {
        Address(self.hash())
    }

    /// Checks `signed` as this key's signature over `expected`.
    pub fn verify(&self, expected: &Digest, signed: &[u8]) -> (r: Result<(), PrimitiveError>)
        ensures
            r is Ok <==> pkcs1v15_accepts(self@, expected@, signed@),
            r matches Err(e) ==> e == PrimitiveError::Verification,
    {
        if rsa_verify(self.der.as_slice(), expected.bytes.as_slice(), signed) {
            Ok(())
        } else {
            Err(PrimitiveError::Verification)
        }
    }
}

/// The signature that the RSA private key whose PKCS#8 DER encoding is
/// `key_der` makes over the pre-hashed message `msg` (PKCS#1 v1.5, no hash
/// prefix), or `None` where signing fails. Signing draws no randomness.
pub uninterp spec fn pkcs1v15_signature(key_der: Seq<u8>, msg: Seq<u8>) -> Option<Seq<u8>>;

/// The SubjectPublicKeyInfo DER encoding of the public half of the RSA
/// private key whose PKCS#8 DER encoding is `key_der`, or `None` where the
/// encoder refuses it or the encoding does not decode back as a public key.
pub uninterp spec fn public_der_of(key_der: Seq<u8>) -> Option<Seq<u8>>;

/// Relies on `RsaPrivateKey::precompute`: fills in the CRT values where the
/// key admits them and leaves the key as it is otherwise (its error is
/// dropped), so that signing takes the path that the key's numbers decide.
#[verifier::external_body]
fn precompute_key(key: &mut RsaPrivateKey) {
    let _ = key.precompute();
}

/// Relies on `EncodePrivateKey::to_pkcs8_der`: the PKCS#8 DER encoding of the
/// key.
#[verifier::external_body]
fn private_key_der(key: &RsaPrivateKey) -> (r: core::result::Result<Vec<u8>, rsa::pkcs8::Error>) {
    key.to_pkcs8_der().map(|doc| doc.as_ref().to_vec())
}

/// Relies on `From<&RsaPrivateKey> for RsaPublicKey` (copies the modulus and
/// the exponent), `EncodePublicKey::to_public_key_der`, and
/// `DecodePublicKey::from_public_key_der` on the result, whose error means
/// that the encoding does not decode back (an exponent out of range). `key.der` is the
/// encoding of `key.key` (see `PrivateKey`).
#[verifier::external_body]
fn public_key_of(key: &PrivateKey) -> (r: core::result::Result<Vec<u8>, rsa::pkcs8::spki::Error>)
    ensures
        r matches Ok(p) ==> public_der_of(key@) == Some(p@),
        r is Err ==> public_der_of(key@) is None,
{
    let der = RsaPublicKey::from(&key.key).to_public_key_der()?.as_ref().to_vec();
    RsaPublicKey::from_public_key_der(&der)?;
    Ok(der)
}

/// Relies on `RsaPrivateKey::sign` (PKCS#1 v1.5, no hash prefix). It draws
/// no randomness, and `key.key` has been through `precompute` (see
/// `PrivateKey`), so the key's numbers, which `key.der` encodes, decide the
/// result. A signature that it returns re-encrypts, under the public half, to
/// the encoded message (`internals::decrypt_and_check`), whose last
/// `msg.len()` bytes are `msg`; `rsa::PublicKey::verify` checks exactly that
/// encoding, so it accepts `msg` and refuses any other message of that
/// length, for an encoding of the public half that decodes back.
#[verifier::external_body]
fn rsa_sign(key: &PrivateKey, msg: &[u8]) -> (r: core::result::Result<Vec<u8>, rsa::errors::Error>)
    ensures
        r is Ok <==> pkcs1v15_signature(key@, msg@) is Some,
        r matches Ok(s) ==> s@ == pkcs1v15_signature(key@, msg@)->0,
        r matches Ok(s) ==> (public_der_of(key@) matches Some(p) ==> pkcs1v15_accepts(p, msg@, s@)),
        r matches Ok(s) ==> (public_der_of(key@) matches Some(p) ==> forall|m: Seq<u8>|
            m.len() == msg@.len() && m != msg@ ==> !#[trigger] pkcs1v15_accepts(p, m, s@)),
{
    key.key.sign(PaddingScheme::PKCS1v15Sign { hash: None }, msg)
}

/// A private key; it never leaves the process. `der` is always the PKCS#8
/// DER encoding of `key`, and `key` has been through
/// `RsaPrivateKey::precompute`: `new` is the only way to build one, and the
/// key is never changed afterwards.
pub struct PrivateKey {
    key: RsaPrivateKey,
    der: Vec<u8>,
}

impl View for PrivateKey {
    type V = Seq<u8>;

    closed spec fn view(&self) -> Seq<u8> {
        self.der@
    }
}

impl Clone for PrivateKey {
    fn clone(&self) -> (r: Self)
        ensures
            r@ == self@,
    {
        let der = self.der.clone();
        assert(der@ =~= self.der@);
        PrivateKey { key: clone_key(&self.key), der }
    }
}

/// Relies on `Clone for RsaPrivateKey`: an equal key.
#[verifier::external_body]
fn clone_key(key: &RsaPrivateKey) -> (r: RsaPrivateKey) {
    key.clone()
}

impl PrivateKey {
    /// Takes an RSA private key; fails with `Encoding` where it has no PKCS#8
    /// encoding (a key of more than two primes). The outside key is opaque
    /// here: the outcome is the `rsa` crate's to decide.
    pub fn new(inner: RsaPrivateKey) -> (r: Result<PrivateKey, PrimitiveError>)
        ensures
            r matches Err(e) ==> e == PrimitiveError::Encoding,
    {
        let mut inner = inner;
        precompute_key(&mut inner);
        match private_key_der(&inner) {
            Ok(der) => Ok(PrivateKey { key: inner, der }),
            Err(_) => Err(PrimitiveError::Encoding),
        }
    }

    /// The matching public key, in its canonical encoding.
    pub fn to_public_key(&self) -> (r: Result<PublicKey, PrimitiveError>)
        ensures
            r is Ok <==> public_der_of(self@) is Some,
            r matches Ok(pk) ==> pk@ == public_der_of(self@)->0,
            r matches Err(e) ==> e == PrimitiveError::Encoding,
    {
        match public_key_of(self) {
            Ok(der) => Ok(PublicKey { der }),
            Err(_) => Err(PrimitiveError::Encoding),
        }
    }

    /// Signs a digest. The signature verifies under the matching public key
    /// for this digest and for no other digest.
    pub fn sign(&self, digest: &Digest) -> (r: Result<Vec<u8>, PrimitiveError>)
        ensures
            r is Ok <==> pkcs1v15_signature(self@, digest@) is Some,
            r matches Ok(s) ==> s@ == pkcs1v15_signature(self@, digest@)->0,
            r matches Ok(s) ==> (public_der_of(self@) matches Some(p) ==> pkcs1v15_accepts(
                p,
                digest@,
                s@,
            )),
            r matches Ok(s) ==> (public_der_of(self@) matches Some(p) ==> forall|other: Digest|
                other@ != digest@ ==> !#[trigger] pkcs1v15_accepts(p, other@, s@)),
            r matches Err(e) ==> e == PrimitiveError::Signing,
    {
        match rsa_sign(self, digest.bytes.as_slice()) {
            Ok(sig) => {
                proof {
                    if public_der_of(self@) is Some {
                        let p = public_der_of(self@)->0;
                        assert forall|other: Digest| other@ != digest@ implies !#[trigger] pkcs1v15_accepts(
                            p,
                            other@,
                            sig@,
                        ) by {
                            assert(other@.len() == digest@.len());
                        }
                    }
                }
                Ok(sig)
            },
            Err(_) => Err(PrimitiveError::Signing),
        }
    }
}

} // verus!
