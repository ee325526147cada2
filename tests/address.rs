use cardano_core::address::{Address, AddressKind, Pointer, StakePart};
use cardano_core::credential::Credential;
use cardano_core::error::Error;
use cardano_core::varint::push_varint;

fn hash(seed: u8) -> Vec<u8> {
    (0..28u8).map(|i| i.wrapping_mul(13).wrapping_add(seed)).collect()
}

fn key(seed: u8) -> Credential {
    Credential::from_keyhash(&hash(seed)).unwrap()
}

fn script(seed: u8) -> Credential {
    Credential::from_scripthash(&hash(seed)).unwrap()
}

fn same(a: &Address, b: &Address) -> bool {
    format!("{:?}", a) == format!("{:?}", b)
}

#[test]
fn enterprise_address_of_29_bytes() {
    let mut bytes = vec![0x61u8];
    bytes.extend(hash(5));
    assert_eq!(bytes.len(), 29);
    let a = Address::from_bytes(&bytes).unwrap();
    assert_eq!(a.kind, AddressKind::Enterprise);
    assert_eq!(a.network, 1);
    assert!(!a.payment.is_script());
    assert_eq!(a.payment.hash_bytes(), &hash(5));
    assert!(matches!(a.stake, StakePart::Nothing));
}

#[test]
fn base_address_of_29_bytes_is_too_short() {
    let mut bytes = vec![0x01u8];
    bytes.extend(hash(5));
    assert_eq!(Address::from_bytes(&bytes).unwrap_err(), Error::InvalidAddressLength);
}

#[test]
fn unknown_type_nibble() {
    let mut bytes = vec![0x91u8];
    bytes.extend(hash(5));
    assert_eq!(Address::from_bytes(&bytes).unwrap_err(), Error::InvalidAddressHeader);
    assert_eq!(Address::from_bytes(&[]).unwrap_err(), Error::InvalidAddressLength);
}

#[test]
fn base_address_bytes() {
    let a = Address::new(AddressKind::Base, 1, script(1), StakePart::Credential(key(2))).unwrap();
    let b = a.to_bytes();
    assert_eq!(b.len(), 57);
    assert_eq!(b[0], 0x11);
    assert_eq!(&b[1..29], &hash(1)[..]);
    assert_eq!(&b[29..57], &hash(2)[..]);
    let c = Address::new(AddressKind::Base, 0, key(1), StakePart::Credential(script(2))).unwrap();
    assert_eq!(c.to_bytes()[0], 0x20);
}

#[test]
fn every_kind_round_trips() {
    let cases = vec![
        Address::new(AddressKind::Base, 1, key(1), StakePart::Credential(key(2))).unwrap(),
        Address::new(AddressKind::Base, 0, script(1), StakePart::Credential(script(2))).unwrap(),
        Address::new(
            AddressKind::Pointer,
            1,
            script(3),
            StakePart::Pointer(Pointer { slot: 2498243, tx_index: 27, cert_index: 3 }),
        )
        .unwrap(),
        Address::new(AddressKind::Enterprise, 15, script(4), StakePart::Nothing).unwrap(),
        Address::new(AddressKind::Reward, 1, key(5), StakePart::Nothing).unwrap(),
        Address::new(AddressKind::Legacy, 0, key(6), StakePart::Nothing).unwrap(),
    ];
    for a in cases {
        let b = a.to_bytes();
        let d = Address::from_bytes(&b).unwrap();
        assert!(same(&a, &d));
    }
}

#[test]
fn pointer_address_bytes() {
    let p = Pointer { slot: 128, tx_index: 0, cert_index: u64::MAX };
    let a = Address::new(AddressKind::Pointer, 0, key(7), StakePart::Pointer(p)).unwrap();
    let b = a.to_bytes();
    assert_eq!(b[0], 0x40);
    let tail = &b[29..];
    let mut expect = vec![0x81u8, 0x00, 0x00, 0x81];
    expect.extend(vec![0xffu8; 8]);
    expect.push(0x7f);
    assert_eq!(tail, &expect[..]);
    let d = Address::from_bytes(&b).unwrap();
    assert!(same(&a, &d));
}

#[test]
fn varint_groups_most_significant_first() {
    let mut out = Vec::new();
    push_varint(&mut out, 0, false);
    push_varint(&mut out, 127, false);
    push_varint(&mut out, 300, false);
    assert_eq!(out, vec![0x00, 0x7f, 0x82, 0x2c]);
}

#[test]
fn truncated_pointer_is_malformed() {
    let mut bytes = vec![0x41u8];
    bytes.extend(hash(1));
    bytes.extend([0x01u8, 0x02, 0x83]);
    assert_eq!(Address::from_bytes(&bytes).unwrap_err(), Error::MalformedPointer);
    let mut short = vec![0x41u8];
    short.extend(hash(1));
    short.push(0x01);
    assert_eq!(Address::from_bytes(&short).unwrap_err(), Error::MalformedPointer);
}

#[test]
fn oversized_pointer_is_malformed() {
    let mut bytes = vec![0x41u8];
    bytes.extend(hash(1));
    bytes.extend([0x82u8, 0x80, 0x80, 0x80, 0x80, 0x80, 0x80, 0x80, 0x80, 0x00, 0x00, 0x00]);
    assert_eq!(Address::from_bytes(&bytes).unwrap_err(), Error::MalformedPointer);
}

#[test]
fn pointer_with_trailing_bytes() {
    let mut bytes = vec![0x41u8];
    bytes.extend(hash(1));
    bytes.extend([0x01u8, 0x02, 0x03, 0x04]);
    assert_eq!(Address::from_bytes(&bytes).unwrap_err(), Error::InvalidAddressLength);
}

#[test]
fn inconsistent_parts_are_refused() {
    assert_eq!(
        Address::new(AddressKind::Base, 1, key(1), StakePart::Nothing).unwrap_err(),
        Error::InvalidAddressHeader
    );
    assert_eq!(
        Address::new(AddressKind::Legacy, 1, script(1), StakePart::Nothing).unwrap_err(),
        Error::InvalidAddressHeader
    );
    assert_eq!(
        Address::new(AddressKind::Enterprise, 16, key(1), StakePart::Nothing).unwrap_err(),
        Error::InvalidAddressHeader
    );
}

#[test]
fn credential_hash_must_be_28_bytes() {
    assert_eq!(Credential::from_keyhash(&[0u8; 27]).unwrap_err(), Error::InvalidLength);
    assert_eq!(Credential::from_scripthash(&[0u8; 29]).unwrap_err(), Error::InvalidLength);
    assert!(script(1).is_script());
}
