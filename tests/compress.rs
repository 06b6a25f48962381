use rsmc_core::compress::{Compressor, NoCompressor};
use rsmc_core::packet::{Packet, SetExtras};
use rsmc_core::zlib::ZlibCompressor;

#[test]
fn test_zlib() {
    let compressor = ZlibCompressor::new(9, 1);

    let key = b"my_test_key";
    let value = b"0000000000000000000000000000000000000000000000";
    let packet = Packet::set(&key[..], &value[..], SetExtras::new(0, 300)).unwrap();

    let compressed = compressor.compress(packet.clone()).unwrap();
    let uncompressed = compressor.decompress(compressed.clone()).unwrap();

    assert!(compressed.header.body_len < packet.header.body_len);
    assert_eq!(packet, uncompressed);
}

#[test]
fn zlib_marks_and_unmarks() {
    let compressor = ZlibCompressor::default();
    let value = vec![b'a'; 1000];
    let packet = Packet::set(b"k", &value, SetExtras::new(0, 0)).unwrap();
    let compressed = compressor.compress(packet.clone()).unwrap();
    assert_eq!(1, compressed.extras[0]);
    assert_ne!(packet.value, compressed.value);
    assert_eq!(
        compressed.header.body_len as usize,
        8 + 1 + compressed.value.len()
    );
    assert_eq!(packet.key, compressed.key);
    assert_eq!(packet.header.opcode, compressed.header.opcode);
    let back = compressor.decompress(compressed).unwrap();
    assert_eq!(0, back.extras[0]);
    assert_eq!(packet, back);
}

#[test]
fn zlib_leaves_short_values() {
    let compressor = ZlibCompressor::default();
    let packet = Packet::set(b"k", b"short", SetExtras::new(0, 0)).unwrap();
    assert_eq!(packet, compressor.compress(packet.clone()).unwrap());
}

#[test]
fn zlib_needs_extras_for_its_marker() {
    let compressor = ZlibCompressor::new(6, 1);
    let mut packet = Packet::get(b"k").unwrap();
    packet.value = vec![b'x'; 500];
    packet.header.body_len = 501;
    assert_eq!(packet, compressor.compress(packet.clone()).unwrap());
    assert_eq!(packet, compressor.decompress(packet.clone()).unwrap());
}

#[test]
fn zlib_rejects_a_marked_value_that_is_no_stream() {
    let compressor = ZlibCompressor::default();
    let mut packet = Packet::set(b"k", b"not zlib at all", SetExtras::new(0, 0)).unwrap();
    packet.extras[0] = 1;
    assert!(compressor.decompress(packet).is_err());
}

#[test]
fn identity_compressor_returns_its_argument() {
    let packet = Packet::set(b"key", b"value", SetExtras::new(7, 8)).unwrap();
    assert_eq!(packet, NoCompressor.compress(packet.clone()).unwrap());
    assert_eq!(packet, NoCompressor.decompress(packet.clone()).unwrap());
}

#[test]
fn zlib_decompressed_body_length_is_the_sum() {
    let compressor = ZlibCompressor::new(9, 1);
    let value = vec![b'z'; 4000];
    let packet = Packet::add(b"key", &value, SetExtras::new(0, 5)).unwrap();
    let compressed = compressor.compress(packet).unwrap();
    let back = compressor.decompress(compressed).unwrap();
    assert_eq!(
        back.header.body_len as usize,
        back.key.len() + back.extras.len() + back.value.len()
    );
    assert_eq!(4000, back.value.len());
}
