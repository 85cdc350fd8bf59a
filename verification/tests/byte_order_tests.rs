use pngme::byte_order::{extend, u32_from_be_bytes, u32_to_be_bytes};
use pngme::text::{ascii_to_string, push_decimal};

#[test]
fn test_u32_to_be_bytes() {
    assert_eq!(u32_to_be_bytes(0), [0, 0, 0, 0]);
    assert_eq!(u32_to_be_bytes(42), [0, 0, 0, 42]);
    assert_eq!(u32_to_be_bytes(0x01020304), [1, 2, 3, 4]);
    assert_eq!(u32_to_be_bytes(2882656334), 2882656334u32.to_be_bytes());
    assert_eq!(u32_to_be_bytes(u32::MAX), [255, 255, 255, 255]);
}

#[test]
fn test_u32_from_be_bytes() {
    assert_eq!(u32_from_be_bytes([0, 0, 0, 0]), 0);
    assert_eq!(u32_from_be_bytes([1, 2, 3, 4]), 0x01020304);
    assert_eq!(u32_from_be_bytes([255, 255, 255, 255]), u32::MAX);
    for x in [0u32, 1, 255, 256, 65535, 65536, 2882656334, u32::MAX] {
        assert_eq!(u32_from_be_bytes(u32_to_be_bytes(x)), x);
        assert_eq!(u32_from_be_bytes(x.to_be_bytes()), x);
    }
}

#[test]
fn test_extend() {
    let mut out = vec![1u8, 2];
    extend(&mut out, &[3, 4, 5]);
    extend(&mut out, &[]);
    assert_eq!(out, vec![1, 2, 3, 4, 5]);
}

#[test]
fn test_push_decimal() {
    for n in [0u32, 7, 9, 10, 42, 99, 100, 1005, 4294967295] {
        let mut out: Vec<u8> = Vec::new();
        push_decimal(&mut out, n);
        assert_eq!(ascii_to_string(out), format!("{}", n));
    }
}
