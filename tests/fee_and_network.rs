use cardano_core::error::Error;
use cardano_core::linear_fee::LinearFee;
use cardano_core::network_info::NetworkInfo;

#[test]
fn fee_of_empty_transaction_is_constant() {
    let f = LinearFee::new(44, 155381);
    assert_eq!(f.fee(0), Ok(155381));
}

#[test]
fn fee_of_hundred_bytes() {
    let f = LinearFee::new(44, 155381);
    assert_eq!(f.fee(100), Ok(159781));
}

#[test]
fn fee_product_overflow() {
    let f = LinearFee::new(u64::MAX, 0);
    assert_eq!(f.fee(2), Err(Error::Overflow));
}

#[test]
fn fee_sum_overflow() {
    let f = LinearFee::new(1, u64::MAX);
    assert_eq!(f.fee(1), Err(Error::Overflow));
    assert_eq!(f.fee(0), Ok(u64::MAX));
}

#[test]
fn fee_is_monotone_on_samples() {
    let f = LinearFee::new(44, 155381);
    let mut last = 0u64;
    for size in [0u64, 1, 2, 10, 100, 1000, 16384] {
        let v = f.fee(size).unwrap();
        assert!(v >= last);
        last = v;
    }
}

#[test]
fn fee_getters() {
    let f = LinearFee::new(44, 155381);
    assert_eq!(f.coefficient(), 44);
    assert_eq!(f.constant(), 155381);
}

#[test]
fn network_by_name() {
    assert_eq!(NetworkInfo::from_name("mainnet"), Ok(NetworkInfo::mainnet()));
    assert_eq!(NetworkInfo::mainnet().network_id(), 1);
    assert_eq!(NetworkInfo::mainnet().protocol_magic(), 764824073);
    assert_eq!(NetworkInfo::from_name("preprod"), Ok(NetworkInfo::testnet_preprod()));
    assert_eq!(NetworkInfo::from_name("preview").unwrap().protocol_magic(), 2);
}

#[test]
fn network_unknown_name() {
    assert_eq!(NetworkInfo::from_name("mainnetx"), Err(Error::UnknownNetwork));
    assert_eq!(NetworkInfo::from_name(""), Err(Error::UnknownNetwork));
}

#[test]
fn network_custom_pair() {
    let n = NetworkInfo::new(3, 42);
    assert_eq!(n.network_id(), 3);
    assert_eq!(n.protocol_magic(), 42);
}
