//! Extended keys, child derivation and signatures. The curve arithmetic and
//! the keyed hashes come from the `ed25519_bip32` crate (its V2 scheme);
//! what this module decides is which requests are valid and what each one
//! returns.
use vstd::prelude::*;

use crate::error::Error;
use ed25519_bip32::{DerivationScheme, Signature, XPrv, XPub};
use vstd::slice::{slice_subrange, slice_to_vec};

verus! {

/// Width of an extended private key: 64 bytes of scalar and nonce material,
/// then a 32-byte chain code.
pub const XPRV_LEN: usize = 96;

/// Width of an extended public key: a 32-byte curve point, then a 32-byte
/// chain code.
pub const XPUB_LEN: usize = 64;

/// Width of a bare public key.
pub const PUBLIC_KEY_LEN: usize = 32;

/// Width of a signature.
pub const SIGNATURE_LEN: usize = 64;

/// Indices from this one on ask for hardened derivation.
pub const HARDENED_OFFSET: u32 = 0x8000_0000;

pub open spec fn is_hardened(index: u32) -> bool {
    index >= HARDENED_OFFSET
}

/// 96 bytes whose scalar has its three lowest bits clear and its two
/// highest bits equal to `01`.
pub open spec fn xprv_wf(k: Seq<u8>) -> bool {
    &&& k.len() == XPRV_LEN
    &&& k[31] & 0xc0u8 == 0x40u8
    &&& k[0] & 0x07u8 == 0u8
}

/// The child of an extended private key at an index.
pub uninterp spec fn derived_private_key(k: Seq<u8>, index: u32) -> Seq<u8>;

/// The extended public key of an extended private key.
pub uninterp spec fn public_key_of(k: Seq<u8>) -> Seq<u8>;

/// The child of an extended public key at an index, where there is one.
pub uninterp spec fn derived_public_key(k: Seq<u8>, index: u32) -> Option<Seq<u8>>;

/// The signature of a message under an extended private key.
pub uninterp spec fn signature_of(k: Seq<u8>, msg: Seq<u8>) -> Seq<u8>;

/// Whether a signature of a message checks under a public key.
pub uninterp spec fn signature_valid(pk: Seq<u8>, msg: Seq<u8>, sig: Seq<u8>) -> bool;

/// Relies on `XPrv::derive` with `DerivationScheme::V2`: the child depends
/// on the parent's bytes and the index alone and is 96 bytes wide.
#[verifier::external_body]
fn xprv_derive(k: &[u8], index: u32) -> (r: Vec<u8>)
    requires
        xprv_wf(k@),
    ensures
        r@ == derived_private_key(k@, index),
        r@.len() == XPRV_LEN,
{
    match XPrv::from_slice_verified(k) {
        Ok(x) => x.derive(DerivationScheme::V2, index).as_ref().to_vec(),
        Err(_) => Vec::new(),
    }
}

/// Relies on `XPrv::public`: the curve point of the scalar, followed by the
/// private key's own chain code.
#[verifier::external_body]
fn xprv_public(k: &[u8]) -> (r: Vec<u8>)
    requires
        xprv_wf(k@),
    ensures
        r@ == public_key_of(k@),
        r@.len() == XPUB_LEN,
        r@.subrange(32, 64) == k@.subrange(64, 96),
{
    match XPrv::from_slice_verified(k) {
        Ok(x) => x.public().as_ref().to_vec(),
        Err(_) => Vec::new(),
    }
}

/// Relies on `XPub::derive` with `DerivationScheme::V2`: it refuses hardened
/// indices, and otherwise fails only where the point does not decode.
#[verifier::external_body]
fn xpub_derive(k: &[u8], index: u32) -> (r: Option<Vec<u8>>)
    requires
        k@.len() == XPUB_LEN,
    ensures
        match r {
            Some(v) => derived_public_key(k@, index) == Some(v@) && v@.len() == XPUB_LEN,
            None => derived_public_key(k@, index) is None,
        },
        is_hardened(index) ==> r is None,
{
    match XPub::from_slice(k) {
        Ok(x) => match x.derive(DerivationScheme::V2, index) {
            Ok(c) => Some(c.as_ref().to_vec()),
            Err(_) => None,
        },
        Err(_) => None,
    }
}

/// Relies on `XPrv::sign`: deterministic Ed25519 signing with the extended
/// secret, 64 bytes.
#[verifier::external_body]
fn xprv_sign(k: &[u8], msg: &[u8]) -> (r: Vec<u8>)
    requires
        xprv_wf(k@),
    ensures
        r@ == signature_of(k@, msg@),
        r@.len() == SIGNATURE_LEN,
{
    match XPrv::from_slice_verified(k) {
        Ok(x) => x.sign::<()>(msg).as_ref().to_vec(),
        Err(_) => Vec::new(),
    }
}

/// Relies on `XPub::verify`, which checks an Ed25519 signature against the
/// point alone (the chain code takes no part).
#[verifier::external_body]
fn ed25519_verify(pk: &[u8], msg: &[u8], sig: &[u8]) -> (r: bool)
    requires
        pk@.len() == PUBLIC_KEY_LEN,
        sig@.len() == SIGNATURE_LEN,
    ensures
        r == signature_valid(pk@, msg@, sig@),
{
    let pk: [u8; 32] = pk.try_into().unwrap();
    let sig = Signature::<()>::from_slice(sig).unwrap();
    XPub::from_pk_and_chaincode(&pk, &[0u8; 32]).verify(msg, &sig)
}

/// Whether 96 bytes obey the clamping rules of an extended private key.
fn xprv_bits_ok(k: &[u8]) -> (r: bool)
    requires
        k@.len() == XPRV_LEN,
    ensures
        r == xprv_wf(k@),
{
    k[31] & 0xc0u8 == 0x40u8 && k[0] & 0x07u8 == 0u8
}

/// An extended private key.
#[derive(Debug, Clone)]
pub struct Bip32PrivateKey {
    bytes: Vec<u8>,
}

/// An extended public key.
#[derive(Debug, Clone)]
pub struct Bip32PublicKey {
    bytes: Vec<u8>,
}

/// A 64-byte Ed25519 signature.
#[derive(Debug, Clone)]
pub struct Ed25519Signature {
    bytes: Vec<u8>,
}

impl View for Bip32PrivateKey {
    type V = Seq<u8>;

    closed spec fn view(&self) -> Seq<u8> {
        self.bytes@
    }
}

impl View for Bip32PublicKey {
    type V = Seq<u8>;

    closed spec fn view(&self) -> Seq<u8> {
        self.bytes@
    }
}

impl View for Ed25519Signature {
    type V = Seq<u8>;

    closed spec fn view(&self) -> Seq<u8> {
        self.bytes@
    }
}

impl Bip32PrivateKey {
    /// The bytes obey the clamping rules.
    pub open spec fn wf(&self) -> bool {
        xprv_wf(self@)
    }

    /// A key from its 96 bytes: `InvalidLength` for another width,
    /// `InvalidPrivateKey` when the scalar's clamping bits are wrong.
    pub fn from_bytes(bytes: &[u8]) -> (r: Result<Bip32PrivateKey, Error>)
        ensures
            bytes@.len() != XPRV_LEN ==> r == Err::<Bip32PrivateKey, Error>(Error::InvalidLength),
            bytes@.len() == XPRV_LEN && !xprv_wf(bytes@) ==> r == Err::<Bip32PrivateKey, Error>(
                Error::InvalidPrivateKey,
            ),
            xprv_wf(bytes@) ==> (r matches Ok(k) && k@ == bytes@ && k.wf()),
    {
        if bytes.len() != XPRV_LEN {
            return Err(Error::InvalidLength);
        }
        if !xprv_bits_ok(bytes) {
            return Err(Error::InvalidPrivateKey);
        }
        Ok(Bip32PrivateKey { bytes: slice_to_vec(bytes) })
    }

    /// The 96 bytes of the key.
    pub fn as_bytes(&self) -> (r: Vec<u8>)
        ensures
            r@ == self@,
    {
        slice_to_vec(self.bytes.as_slice())
    }

    /// The chain code: the last 32 bytes.
    pub fn chain_code(&self) -> (r: Vec<u8>)
        requires
            self.wf(),
        ensures
            r@ == self@.subrange(64, 96),
    {
        slice_to_vec(slice_subrange(self.bytes.as_slice(), 64, 96))
    }

    /// The child at `index`, hardened or soft. `InvalidDerivation` where the
    /// child's scalar leaves the range that the clamping rules allow.
    pub fn derive(&self, index: u32) -> (r: Result<Bip32PrivateKey, Error>)
        requires
            self.wf(),
        ensures
            xprv_wf(derived_private_key(self@, index)) ==> (r matches Ok(k) && k@
                == derived_private_key(self@, index) && k.wf()),
            !xprv_wf(derived_private_key(self@, index)) ==> r == Err::<Bip32PrivateKey, Error>(
                Error::InvalidDerivation,
            ),
    {
        let child = xprv_derive(self.bytes.as_slice(), index);
        if xprv_bits_ok(child.as_slice()) {
            Ok(Bip32PrivateKey { bytes: child })
        } else {
            Err(Error::InvalidDerivation)
        }
    }

    /// The extended public key: the scalar's point and the same chain code.
    pub fn to_public(&self) -> (r: Bip32PublicKey)
        requires
            self.wf(),
        ensures
            r@ == public_key_of(self@),
            r@.len() == XPUB_LEN,
            r@.subrange(32, 64) == self@.subrange(64, 96),
    {
        Bip32PublicKey { bytes: xprv_public(self.bytes.as_slice()) }
    }

    /// Signs a message; the signature depends on the key and message alone.
    pub fn sign(&self, msg: &[u8]) -> (r: Ed25519Signature)
        requires
            self.wf(),
        ensures
            r@ == signature_of(self@, msg@),
            r@.len() == SIGNATURE_LEN,
    {
        Ed25519Signature { bytes: xprv_sign(self.bytes.as_slice(), msg) }
    }
}

impl Bip32PublicKey {
    /// A key from its 64 bytes; `InvalidLength` for another width.
    pub fn from_bytes(bytes: &[u8]) -> (r: Result<Bip32PublicKey, Error>)
        ensures
            bytes@.len() != XPUB_LEN ==> r == Err::<Bip32PublicKey, Error>(Error::InvalidLength),
            bytes@.len() == XPUB_LEN ==> (r matches Ok(k) && k@ == bytes@),
    {
        if bytes.len() != XPUB_LEN {
            return Err(Error::InvalidLength);
        }
        Ok(Bip32PublicKey { bytes: slice_to_vec(bytes) })
    }

    /// The 64 bytes of the key.
    pub fn as_bytes(&self) -> (r: Vec<u8>)
        ensures
            r@ == self@,
    {
        slice_to_vec(self.bytes.as_slice())
    }

    /// The curve point: the first 32 bytes.
    pub fn public_key(&self) -> (r: Vec<u8>)
        requires
            self@.len() == XPUB_LEN,
        ensures
            r@ == self@.subrange(0, 32),
    {
        slice_to_vec(slice_subrange(self.bytes.as_slice(), 0, 32))
    }

    /// The chain code: the last 32 bytes.
    pub fn chain_code(&self) -> (r: Vec<u8>)
        requires
            self@.len() == XPUB_LEN,
        ensures
            r@ == self@.subrange(32, 64),
    {
        slice_to_vec(slice_subrange(self.bytes.as_slice(), 32, 64))
    }

    /// The soft child at `index`. A hardened index fails with
    /// `InvalidDerivation`, as does a point that does not decode.
    pub fn derive(&self, index: u32) -> (r: Result<Bip32PublicKey, Error>)
        requires
            self@.len() == XPUB_LEN,
        ensures
            is_hardened(index) ==> r == Err::<Bip32PublicKey, Error>(Error::InvalidDerivation),
            !is_hardened(index) ==> match derived_public_key(self@, index) {
                Some(c) => r matches Ok(k) && k@ == c && k@.len() == XPUB_LEN,
                None => r == Err::<Bip32PublicKey, Error>(Error::InvalidDerivation),
            },
    {
        if index >= HARDENED_OFFSET {
            return Err(Error::InvalidDerivation);
        }
        match xpub_derive(self.bytes.as_slice(), index) {
            Some(child) => Ok(Bip32PublicKey { bytes: child }),
            None => Err(Error::InvalidDerivation),
        }
    }
}

impl Ed25519Signature {
    /// A signature from its bytes; `InvalidSignatureLength` unless 64.
    pub fn from_bytes(bytes: &[u8]) -> (r: Result<Ed25519Signature, Error>)
        ensures
            bytes@.len() != SIGNATURE_LEN ==> r == Err::<Ed25519Signature, Error>(
                Error::InvalidSignatureLength,
            ),
            bytes@.len() == SIGNATURE_LEN ==> (r matches Ok(s) && s@ == bytes@),
    {
        if bytes.len() != SIGNATURE_LEN {
            return Err(Error::InvalidSignatureLength);
        }
        Ok(Ed25519Signature { bytes: slice_to_vec(bytes) })
    }

    /// The 64 bytes of the signature.
    pub fn as_bytes(&self) -> (r: Vec<u8>)
        ensures
            r@ == self@,
    {
        slice_to_vec(self.bytes.as_slice())
    }
}

/// Checks a signature of `msg` under the 32-byte public key `pk`:
/// `InvalidSignatureLength` unless `sig` is 64 bytes, then
/// `InvalidPublicKeyLength` unless `pk` is 32; otherwise whether it checks.
pub fn verify(pk: &[u8], msg: &[u8], sig: &[u8]) -> (r: Result<bool, Error>)
    ensures
        sig@.len() != SIGNATURE_LEN ==> r == Err::<bool, Error>(Error::InvalidSignatureLength),
        sig@.len() == SIGNATURE_LEN && pk@.len() != PUBLIC_KEY_LEN ==> r == Err::<bool, Error>(
            Error::InvalidPublicKeyLength,
        ),
        sig@.len() == SIGNATURE_LEN && pk@.len() == PUBLIC_KEY_LEN ==> r == Ok::<bool, Error>(
            signature_valid(pk@, msg@, sig@),
        ),
{
    if sig.len() != SIGNATURE_LEN {
        return Err(Error::InvalidSignatureLength);
    }
    if pk.len() != PUBLIC_KEY_LEN {
        return Err(Error::InvalidPublicKeyLength);
    }
    Ok(ed25519_verify(pk, msg, sig))
}

} // verus!
