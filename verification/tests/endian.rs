use pngme::endian::from_be_bytes;
use pngme::endian::to_be_bytes;

#[test]
fn be_bytes_are_most_significant_first() {
    assert_eq!(to_be_bytes(0), [0, 0, 0, 0]);
    assert_eq!(to_be_bytes(42), [0, 0, 0, 42]);
    assert_eq!(to_be_bytes(0x0102_0304), [1, 2, 3, 4]);
    assert_eq!(to_be_bytes(2882656334), 2882656334u32.to_be_bytes());
    assert_eq!(to_be_bytes(u32::MAX), [255, 255, 255, 255]);
}

#[test]
fn be_value_reads_most_significant_first() {
    assert_eq!(from_be_bytes([0, 0, 0, 0]), 0);
    assert_eq!(from_be_bytes([0, 0, 1, 0]), 256);
    assert_eq!(from_be_bytes([1, 2, 3, 4]), 0x0102_0304);
    assert_eq!(from_be_bytes([255, 255, 255, 255]), u32::MAX);
}

#[test]
fn be_bytes_and_value_undo_each_other() {
    for x in [0u32, 1, 255, 256, 65535, 65536, 0x00ff_ffff, 0x0100_0000, 0x8000_0000, u32::MAX] {
        assert_eq!(from_be_bytes(to_be_bytes(x)), x);
        assert_eq!(to_be_bytes(x), x.to_be_bytes());
    }
    for b in [[0u8, 0, 0, 1], [9, 8, 7, 6], [255, 0, 255, 0]] {
        assert_eq!(to_be_bytes(from_be_bytes(b)), b);
        assert_eq!(from_be_bytes(b), u32::from_be_bytes(b));
    }
}
