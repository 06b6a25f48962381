use rsmc_core::error::{Error, ProtocolError};
use rsmc_core::packet::{Header, Packet, SetExtras};
use rsmc_core::status::Status;

fn hello_header() -> Header {
    Header {
        magic: 0x80,
        opcode: 0x0,
        key_length: 0x5,
        extras_length: 0x0,
        data_type: 0x0,
        vbucket_or_status: 0x0,
        body_len: 0x5,
        opaque: 0x0,
        cas: 0x0,
    }
}

#[test]
fn packet_test_packet_identity() {
    let header = hello_header();
    let expect_packet = Packet {
        header,
        extras: vec![],
        key: "Hello".into(),
        value: vec![],
    };
    let expect_bytes = vec![
        0x80, 0x00, 0x00, 0x05, 0x00, 0x00, 0x00, 0x00, 0x00, 0x00, 0x00, 0x05, 0x00, 0x00, 0x00,
        0x00, 0x00, 0x00, 0x00, 0x00, 0x00, 0x00, 0x00, 0x00, 0x48, 0x65, 0x6c, 0x6c, 0x6f,
    ];

    let packet_bytes: Vec<u8> = expect_packet.clone().into();
    assert_eq!(expect_bytes, packet_bytes);

    let actual_packet: Packet = header.read_packet(b"Hello").unwrap();
    assert_eq!(expect_packet, actual_packet);
}

#[test]
fn test_github_add_example() {
    let packet = Packet::add(b"Hello", b"World", SetExtras::new(0xdeadbeef, 0x1c20)).unwrap();
    let header = packet.header;
    let expect_bytes = vec![
        0x80, 0x02, 0x00, 0x05, 0x08, 0x00, 0x00, 0x00, 0x00, 0x00, 0x00, 0x12, 0x00, 0x00, 0x00,
        0x00, 0x00, 0x00, 0x00, 0x00, 0x00, 0x00, 0x00, 0x00, 0xde, 0xad, 0xbe, 0xef, 0x00, 0x00,
        0x1c, 0x20, 0x48, 0x65, 0x6c, 0x6c, 0x6f, 0x57, 0x6f, 0x72, 0x6c, 0x64,
    ];

    let packet_bytes: Vec<u8> = packet.clone().into();
    assert_eq!(expect_bytes, packet_bytes);

    let body: Vec<u8> = vec![
        0xde, 0xad, 0xbe, 0xef, 0x00, 0x00, 0x1c, 0x20, 0x48, 0x65, 0x6c, 0x6c, 0x6f, 0x57, 0x6f,
        0x72, 0x6c, 0x64,
    ];
    let actual_packet: Packet = header.read_packet(&body).unwrap();
    assert_eq!(packet, actual_packet);
}

#[test]
fn test_extras() {
    let extras = SetExtras::new(0x00000000, 0xABCD0000);
    let packet = Packet::set(b"key", b"value", extras).unwrap();
    let actual = packet.extras;
    let expect = vec![0, 0, 0, 0, 0xAB, 0xCD, 0x00, 0x00];
    assert_eq!(expect, actual);
}

#[test]
fn test_err_display() {
    assert_eq!(
        "ProtocolError: Invalid magic byte: 8",
        Error::Protocol(ProtocolError::InvalidMagic(8)).to_string()
    );
    assert_eq!(
        "StatusError: Key not found",
        Error::Status(Status::KeyNotFound).to_string()
    );
}

#[test]
fn error_text_three_digit_magic() {
    assert_eq!(
        "Invalid magic byte: 128",
        ProtocolError::InvalidMagic(0x80).to_string()
    );
    assert_eq!("Body size mismatch", ProtocolError::BodySizeMismatch.to_string());
    assert_eq!(
        "ProtocolError: Non-zero status: Busy",
        Error::Protocol(ProtocolError::NonZeroStatus(Status::Busy)).to_string()
    );
}

#[test]
fn io_error_text_keeps_prefix() {
    let e = Error::IoError(std::io::Error::new(std::io::ErrorKind::Other, "boom"));
    assert_eq!("IoError: boom", e.to_string());
}

#[test]
fn round_trip_of_add_request() {
    let p = Packet::add(b"Hello", b"World", SetExtras::new(0xdeadbeef, 0x1c20)).unwrap();
    let bytes = p.to_bytes();
    assert_eq!(24 + 8 + 5 + 5, bytes.len());
    let mut response = bytes.clone();
    response[0] = 0x81;
    let h = Header::read_response(&response).unwrap();
    let mut expect = p.header;
    expect.magic = 0x81;
    assert_eq!(expect, h);
    let q = h.read_packet(&bytes[24..]).unwrap();
    assert_eq!(p.extras, q.extras);
    assert_eq!(p.key, q.key);
    assert_eq!(p.value, q.value);
}

#[test]
fn response_header_fields_are_big_endian() {
    let bytes = [
        0x81, 0x0c, 0x01, 0x02, 0x04, 0x00, 0x00, 0x86, 0x00, 0x01, 0x02, 0x03, 0xca, 0xfe, 0xba,
        0xbe, 0x01, 0x02, 0x03, 0x04, 0x05, 0x06, 0x07, 0x08,
    ];
    let h = Header::read_response(&bytes).unwrap();
    assert_eq!(0x0c, h.opcode);
    assert_eq!(0x0102, h.key_length);
    assert_eq!(4, h.extras_length);
    assert_eq!(0x86, h.vbucket_or_status);
    assert_eq!(0x00010203, h.body_len);
    assert_eq!(0xcafebabe, h.opaque);
    assert_eq!(0x0102030405060708, h.cas);
}

#[test]
fn short_response_is_too_small() {
    assert_eq!(Err(ProtocolError::PacketTooSmall), Header::read_response(&[0x81; 23]));
    assert_eq!(Err(ProtocolError::PacketTooSmall), Header::read_response(&[]));
}

#[test]
fn request_magic_is_invalid_in_a_response() {
    let bytes = Packet::noop().unwrap().to_bytes();
    assert_eq!(Err(ProtocolError::InvalidMagic(0x80)), Header::read_response(&bytes));
}

#[test]
fn body_length_must_match_header() {
    let header = hello_header();
    assert_eq!(Err(ProtocolError::BodySizeMismatch), header.read_packet(b"Hell"));
    assert_eq!(Err(ProtocolError::BodySizeMismatch), header.read_packet(b"Hello!"));
    let mut bad = hello_header();
    bad.extras_length = 4;
    assert_eq!(Err(ProtocolError::BodySizeMismatch), bad.read_packet(b"Hello"));
}

#[test]
fn oversized_key_is_refused() {
    let key = vec![b'k'; 0x10000];
    assert_eq!(Err(ProtocolError::PacketTooLarge), Packet::get(&key));
    let key = vec![b'k'; 0xffff];
    assert_eq!(0xffff, Packet::get(&key).unwrap().header.key_length);
}

#[test]
fn constructors_set_opcodes() {
    let e = SetExtras::new(1, 2);
    assert_eq!(0x00, Packet::get(b"k").unwrap().header.opcode);
    assert_eq!(0x0c, Packet::getk(b"k").unwrap().header.opcode);
    assert_eq!(0x09, Packet::getq(b"k").unwrap().header.opcode);
    assert_eq!(0x0d, Packet::getkq(b"k").unwrap().header.opcode);
    assert_eq!(0x01, Packet::set(b"k", b"v", e).unwrap().header.opcode);
    assert_eq!(0x11, Packet::setq(b"k", b"v", e).unwrap().header.opcode);
    assert_eq!(0x02, Packet::add(b"k", b"v", e).unwrap().header.opcode);
    assert_eq!(0x12, Packet::addq(b"k", b"v", e).unwrap().header.opcode);
    assert_eq!(0x03, Packet::replace(b"k", b"v", e).unwrap().header.opcode);
    assert_eq!(0x13, Packet::replaceq(b"k", b"v", e).unwrap().header.opcode);
    assert_eq!(0x04, Packet::delete(b"k").unwrap().header.opcode);
    assert_eq!(0x0a, Packet::noop().unwrap().header.opcode);
    assert_eq!(0x0b, Packet::version().unwrap().header.opcode);
    let p = Packet::set(b"key", b"value", e).unwrap();
    assert_eq!(8 + 3 + 5, p.header.body_len);
    assert_eq!(8, p.header.extras_length);
    assert_eq!(3, p.header.key_length);
}

#[test]
fn status_codes_map_to_statuses() {
    assert_eq!(Status::NoError, Status::from(0x00));
    assert_eq!(Status::KeyNotFound, Status::from(0x01));
    assert_eq!(Status::AuthenticationContinue, Status::from(0x09));
    assert_eq!(Status::UnknownCommand, Status::from(0x81));
    assert_eq!(Status::TemporaryFailure, Status::from(0x86));
    assert_eq!(Status::UnknownStatus, Status::from(0x0a));
    assert_eq!(Status::UnknownStatus, Status::from(0xffff));
}

#[test]
fn error_for_status_reads_status_field() {
    let mut p = Packet::get(b"k").unwrap();
    assert_eq!(Ok(()), p.error_for_status());
    p.header.vbucket_or_status = 0x02;
    assert_eq!(Err(Status::KeyExists), p.error_for_status());
}
