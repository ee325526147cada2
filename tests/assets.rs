use cardano_core::error::Error;
use cardano_core::multi_asset::MultiAsset;

fn policy(last: u8) -> Vec<u8> {
    let mut p = vec![0u8; 28];
    p[27] = last;
    p
}

#[test]
fn gold_add_then_sub_prunes() {
    let p = policy(1);
    let mut a = MultiAsset::new();
    a.set(&p, b"Gold", 5).unwrap();
    let mut b = MultiAsset::new();
    b.set(&p, b"Gold", 3).unwrap();
    let sum = a.add(&b).unwrap();
    assert_eq!(sum.get(&p, b"Gold"), 8);
    let mut c = MultiAsset::new();
    c.set(&p, b"Gold", 8).unwrap();
    let diff = sum.sub(&c).unwrap();
    assert_eq!(diff.len(), 0);
    assert_eq!(diff.get(&p, b"Gold"), 0);
}

#[test]
fn get_of_absent_key_is_zero() {
    let m = MultiAsset::new();
    assert_eq!(m.get(&policy(1), b"x"), 0);
}

#[test]
fn insertion_order_does_not_change_bytes() {
    let items: Vec<(Vec<u8>, &[u8], u64)> = vec![
        (policy(2), b"b", 1),
        (policy(1), b"zz", 7),
        (policy(2), b"a", 300),
        (policy(1), b"", 2),
        (policy(3), b"ab", 70000),
    ];
    let mut forward = MultiAsset::new();
    for (p, n, q) in items.iter() {
        forward.set(p, n, *q).unwrap();
    }
    let mut backward = MultiAsset::new();
    for (p, n, q) in items.iter().rev() {
        backward.set(p, n, *q).unwrap();
    }
    assert_eq!(forward.canonical_bytes(), backward.canonical_bytes());
}

#[test]
fn canonical_bytes_layout() {
    let mut m = MultiAsset::new();
    m.set(&policy(2), b"b", 1).unwrap();
    m.set(&policy(1), b"Gold", 300).unwrap();
    m.set(&policy(2), b"a", 24).unwrap();
    let mut expect = vec![0xa2u8, 0x58, 28];
    expect.extend(policy(1));
    expect.extend([0xa1u8, 0x44]);
    expect.extend(b"Gold");
    expect.extend([0x19u8, 0x01, 0x2c]);
    expect.extend([0x58u8, 28]);
    expect.extend(policy(2));
    expect.extend([0xa2u8, 0x41, b'a', 0x18, 24, 0x41, b'b', 0x01]);
    assert_eq!(m.canonical_bytes(), expect);
}

#[test]
fn empty_map_bytes() {
    assert_eq!(MultiAsset::new().canonical_bytes(), vec![0xa0]);
}

#[test]
fn sub_after_add_gives_back_first() {
    let mut a = MultiAsset::new();
    a.set(&policy(1), b"x", 10).unwrap();
    a.set(&policy(2), b"y", 4).unwrap();
    let mut b = MultiAsset::new();
    b.set(&policy(1), b"x", 3).unwrap();
    b.set(&policy(5), b"z", 9).unwrap();
    let back = a.add(&b).unwrap().sub(&b).unwrap();
    assert_eq!(back.canonical_bytes(), a.canonical_bytes());
    assert_eq!(back.len(), 2);
}

#[test]
fn add_overflow() {
    let mut a = MultiAsset::new();
    a.set(&policy(1), b"x", u64::MAX).unwrap();
    let mut b = MultiAsset::new();
    b.set(&policy(1), b"x", 1).unwrap();
    assert_eq!(a.add(&b).unwrap_err(), Error::QuantityOverflow);
}

#[test]
fn sub_underflow() {
    let mut a = MultiAsset::new();
    a.set(&policy(1), b"x", 2).unwrap();
    let mut b = MultiAsset::new();
    b.set(&policy(1), b"x", 3).unwrap();
    assert_eq!(a.sub(&b).unwrap_err(), Error::QuantityUnderflow);
    let mut c = MultiAsset::new();
    c.set(&policy(4), b"y", 1).unwrap();
    assert_eq!(a.sub(&c).unwrap_err(), Error::QuantityUnderflow);
}

#[test]
fn set_overwrites_and_zero_removes() {
    let mut m = MultiAsset::new();
    m.set(&policy(1), b"x", 5).unwrap();
    m.set(&policy(1), b"x", 9).unwrap();
    assert_eq!(m.get(&policy(1), b"x"), 9);
    assert_eq!(m.len(), 1);
    m.set(&policy(1), b"x", 0).unwrap();
    assert_eq!(m.len(), 0);
}

#[test]
fn set_checks_widths() {
    let mut m = MultiAsset::new();
    assert_eq!(m.set(&[0u8; 27], b"x", 1), Err(Error::InvalidLength));
    assert_eq!(m.set(&policy(1), &[0u8; 33], 1), Err(Error::InvalidLength));
    assert_eq!(m.set(&policy(1), &[0u8; 32], 1), Ok(()));
}
