use bridge_watcher::bytes::{split_hash_to_hi_lo, u128_to_be16, u128_to_decimal};
use bridge_watcher::errors::WatcherError;

fn round_trip(h: &Vec<u8>) {
    let (hi, lo) = split_hash_to_hi_lo(h).unwrap();
    let mut rebuilt = u128_to_be16(hi);
    rebuilt.extend_from_slice(&u128_to_be16(lo));
    assert_eq!(&rebuilt, h);
}

#[test]
fn split_all_zero() {
    let h = vec![0u8; 32];
    let (hi, lo) = split_hash_to_hi_lo(&h).unwrap();
    assert_eq!(hi, 0);
    assert_eq!(lo, 0);
    round_trip(&h);
}

#[test]
fn split_all_ff() {
    let h = vec![0xffu8; 32];
    let (hi, lo) = split_hash_to_hi_lo(&h).unwrap();
    assert_eq!(hi, 340282366920938463463374607431768211455u128);
    assert_eq!(lo, 340282366920938463463374607431768211455u128);
    round_trip(&h);
}

#[test]
fn split_ascending_bytes() {
    let h: Vec<u8> = (0u8..32).collect();
    let (hi, lo) = split_hash_to_hi_lo(&h).unwrap();
    assert_eq!(hi, 5233100606242806050955395731361295u128);
    assert_eq!(lo, 21356283574076891493948969979685445151u128);
    round_trip(&h);
}

#[test]
fn split_mixed_sample() {
    let mut h = vec![0u8; 32];
    h[0] = 0xab;
    h[15] = 0x01;
    h[16] = 0x80;
    h[31] = 0x7f;
    let (hi, lo) = split_hash_to_hi_lo(&h).unwrap();
    assert_eq!(hi, (0xabu128 << 120) | 0x01);
    assert_eq!(lo, (0x80u128 << 120) | 0x7f);
    round_trip(&h);
}

#[test]
fn split_rejects_wrong_length() {
    assert_eq!(
        split_hash_to_hi_lo(&vec![0u8; 31]),
        Err(WatcherError::InvalidHashLength)
    );
    assert_eq!(
        split_hash_to_hi_lo(&vec![0u8; 33]),
        Err(WatcherError::InvalidHashLength)
    );
    assert_eq!(
        split_hash_to_hi_lo(&Vec::new()),
        Err(WatcherError::InvalidHashLength)
    );
}

/// The wire form of a field element: its base-10 numeral.
#[test]
fn decimal_rendering() {
    assert_eq!(u128_to_decimal(0), b"0".to_vec());
    assert_eq!(u128_to_decimal(7), b"7".to_vec());
    assert_eq!(u128_to_decimal(10), b"10".to_vec());
    assert_eq!(u128_to_decimal(12345), b"12345".to_vec());
    assert_eq!(u128_to_decimal(1000000), b"1000000".to_vec());
    assert_eq!(
        u128_to_decimal(u128::MAX),
        b"340282366920938463463374607431768211455".to_vec()
    );
}
