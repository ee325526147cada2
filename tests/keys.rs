use cardano_core::error::Error;
use cardano_core::keys::{verify, Bip32PrivateKey, Bip32PublicKey, Ed25519Signature};

fn root() -> Bip32PrivateKey {
    let mut b: Vec<u8> = (0..96u32).map(|i| (i * 37 + 11) as u8).collect();
    b[0] &= 0b1111_1000;
    b[31] &= 0b0001_1111;
    b[31] |= 0b0100_0000;
    Bip32PrivateKey::from_bytes(&b).unwrap()
}

#[test]
fn soft_derivation_paths_agree() {
    let k = root();
    for index in [0u32, 1, 7, 0x7fff_ffff] {
        let via_private = k.derive(index).unwrap().to_public();
        let via_public = k.to_public().derive(index).unwrap();
        assert_eq!(via_private.as_bytes(), via_public.as_bytes());
    }
}

#[test]
fn soft_derivation_two_levels() {
    let k = root().derive(0x8000_0002).unwrap();
    let a = k.derive(3).unwrap().derive(4).unwrap().to_public();
    let b = k.to_public().derive(3).unwrap().derive(4).unwrap();
    assert_eq!(a.as_bytes(), b.as_bytes());
}

#[test]
fn hardened_derivation_from_public_fails() {
    let p = root().to_public();
    for index in [0x8000_0000u32, 0x8000_0001, u32::MAX] {
        assert_eq!(p.derive(index).unwrap_err(), Error::InvalidDerivation);
    }
}

#[test]
fn derivation_changes_the_key() {
    let k = root();
    let c = k.derive(0x8000_0000).unwrap();
    assert_ne!(c.as_bytes(), k.as_bytes());
    assert_eq!(c.as_bytes().len(), 96);
    assert_ne!(k.derive(0).unwrap().as_bytes(), k.derive(1).unwrap().as_bytes());
    let p = k.to_public();
    assert_ne!(p.derive(0).unwrap().as_bytes(), p.as_bytes());
}

#[test]
fn public_key_keeps_chain_code() {
    let k = root();
    let p = k.to_public();
    assert_eq!(p.as_bytes().len(), 64);
    assert_eq!(p.chain_code(), k.chain_code());
    assert_eq!(p.public_key().len(), 32);
    assert_ne!(p.public_key(), k.as_bytes()[0..32].to_vec());
}

#[test]
fn sign_then_verify() {
    let k = root();
    let pk = k.to_public().public_key();
    let msg = b"transaction body".to_vec();
    let sig = k.sign(&msg);
    assert_eq!(verify(&pk, &msg, &sig.as_bytes()), Ok(true));
    assert_eq!(k.sign(&msg).as_bytes(), sig.as_bytes());
}

#[test]
fn flipped_bits_fail_verification() {
    let k = root();
    let pk = k.to_public().public_key();
    let msg = b"transaction body".to_vec();
    let sig = k.sign(&msg).as_bytes();
    for i in 0..msg.len() {
        let mut m = msg.clone();
        m[i] ^= 1 << (i % 8);
        assert_eq!(verify(&pk, &m, &sig), Ok(false));
    }
    for i in 0..64 {
        let mut s = sig.clone();
        s[i] ^= 1 << (i % 8);
        assert_eq!(verify(&pk, &msg, &s), Ok(false));
    }
}

#[test]
fn verify_checks_lengths() {
    let k = root();
    let pk = k.to_public().public_key();
    let sig = k.sign(b"m").as_bytes();
    assert_eq!(verify(&pk, b"m", &sig[0..63]), Err(Error::InvalidSignatureLength));
    assert_eq!(verify(&pk[0..31], b"m", &sig), Err(Error::InvalidPublicKeyLength));
    assert_eq!(Ed25519Signature::from_bytes(&[0u8; 65]).unwrap_err(), Error::InvalidSignatureLength);
}

#[test]
fn key_constructors_check_bytes() {
    assert_eq!(Bip32PrivateKey::from_bytes(&[0u8; 95]).unwrap_err(), Error::InvalidLength);
    assert_eq!(Bip32PrivateKey::from_bytes(&[0u8; 96]).unwrap_err(), Error::InvalidPrivateKey);
    assert_eq!(Bip32PublicKey::from_bytes(&[0u8; 63]).unwrap_err(), Error::InvalidLength);
    assert!(Bip32PublicKey::from_bytes(&[0u8; 64]).is_ok());
}
