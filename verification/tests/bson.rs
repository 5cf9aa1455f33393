use chronicle::bson::U64;

const V1: u64 = 0xfedcba9876543210;
const V2: u64 = 0x0123456789abcdef;

#[test]
fn u64_conversion() {
    let v1 = U64::from(V1);
    assert_eq!((v1.hi(), v1.lo()), (0xfe, 0xdcba9876543210));

    let v2 = U64::from(V2);
    assert_eq!((v2.hi(), v2.lo()), (0x01, 0x23456789abcdef));
}

#[test]
fn u64_round_trip() {
    for v in [0u64, 1, 0xff, 1 << 56, (1 << 56) - 1, V1, V2, u64::MAX] {
        assert_eq!(u64::from(U64::from(v)), v);
    }
}

#[test]
fn u64_extremes() {
    let max = U64::from(u64::MAX);
    assert_eq!((max.hi(), max.lo()), (0xff, 0x00ff_ffff_ffff_ffff));
    let zero = U64::from(0u64);
    assert_eq!((zero.hi(), zero.lo()), (0, 0));
    assert_eq!(U64::from(V1), U64::from(V1));
    assert_ne!(U64::from(V1), U64::from(V2));
}
