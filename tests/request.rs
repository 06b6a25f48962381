use rsmc_core::error::ProtocolError;
use rsmc_core::packet::{Header, Packet, SetExtras};
use rsmc_core::request::{GetRequest, NoopRequest, SetRequest};
use rsmc_core::response::{GetResponse, NoopResponse, Response, SetResponse, VersionResponse};
use rsmc_core::status::Status;

#[test]
fn get_request_packet() {
    let mut req = GetRequest::new_kq(b"Hello".to_vec());
    let p = Packet::from_request(&mut req).unwrap();
    assert_eq!(Packet::getkq(b"Hello").unwrap(), p);
    assert_eq!(0x0d, GetRequest::new_kq(vec![]).opcode);
    assert_eq!(0x00, GetRequest::new(vec![]).opcode);
    assert_eq!(0x0c, GetRequest::new_k(vec![]).opcode);
    assert_eq!(0x09, GetRequest::new_q(vec![]).opcode);
}

#[test]
fn set_request_packet() {
    let mut req = SetRequest::new_add(b"Hello".to_vec(), b"World".to_vec(), 0x1c20);
    let p = Packet::from_request(&mut req).unwrap();
    assert_eq!(Packet::add(b"Hello", b"World", SetExtras::new(0, 0x1c20)).unwrap(), p);
    assert_eq!(0x01, SetRequest::new(vec![], vec![], 0).opcode);
    assert_eq!(0x11, SetRequest::new_q(vec![], vec![], 0).opcode);
    assert_eq!(0x12, SetRequest::new_add_q(vec![], vec![], 0).opcode);
    assert_eq!(0x03, SetRequest::new_replace(vec![], vec![], 0).opcode);
    assert_eq!(0x13, SetRequest::new_replace_q(vec![], vec![], 0).opcode);
}

#[test]
fn noop_request_packet() {
    let p = Packet::from_request(&mut NoopRequest::new()).unwrap();
    assert_eq!(Packet::noop().unwrap(), p);
    let v = Packet::from_request(&mut NoopRequest::new_version()).unwrap();
    assert_eq!(Packet::version().unwrap(), v);
}

fn response(opcode: u8, status: u16, key: &[u8], value: &[u8]) -> Packet {
    Packet {
        header: Header {
            magic: 0x81,
            opcode,
            key_length: key.len() as u16,
            extras_length: 0,
            data_type: 0,
            vbucket_or_status: status,
            body_len: (key.len() + value.len()) as u32,
            opaque: 0,
            cas: 0,
        },
        extras: vec![],
        key: key.to_vec(),
        value: value.to_vec(),
    }
}

#[test]
fn get_response_from_packet() {
    let r = GetResponse::from_packet(response(0x0c, 0, b"k", b"v")).unwrap();
    assert_eq!(Some(b"k".to_vec()), r.key);
    assert_eq!(Some(b"v".to_vec()), r.value);
    let r = GetResponse::from_packet(response(0x00, 0, b"", b"")).unwrap();
    assert_eq!(None, r.key);
    assert_eq!(None, r.value);
}

#[test]
fn response_errors() {
    let mut p = response(0x00, 0, b"", b"");
    p.header.magic = 0x80;
    assert_eq!(Some(ProtocolError::InvalidMagic(0x80)), GetResponse::from_packet(p).err());
    assert_eq!(
        Some(ProtocolError::OpCodeMismatch),
        SetResponse::from_packet(response(0x00, 0, b"", b"")).err()
    );
    assert_eq!(
        Some(ProtocolError::NonZeroStatus(Status::KeyExists)),
        SetResponse::from_packet(response(0x02, 2, b"", b"")).err()
    );
    assert!(NoopResponse::from_packet(response(0x0a, 0, b"", b"")).is_ok());
    assert_eq!(0, SetResponse::from_packet(response(0x01, 0, b"", b"")).unwrap().cas);
}

#[test]
fn version_response_text() {
    let v = VersionResponse::try_from(response(0x0b, 0, b"", b"1.6.21")).unwrap();
    assert_eq!("1.6.21", v.value);
    assert_eq!(
        Some(ProtocolError::InvalidUtf8(vec![0xff, 0xfe])),
        VersionResponse::try_from(response(0x0b, 0, b"", &[0xff, 0xfe])).err()
    );
}

#[test]
fn from_request_empties_key_and_value() {
    let mut req = SetRequest::new(b"k".to_vec(), b"v".to_vec(), 42);
    let p = Packet::from_request(&mut req).unwrap();
    assert_eq!(Packet::set(b"k", b"v", SetExtras::new(0, 42)).unwrap(), p);
    assert!(req.key.is_empty());
    assert!(req.value.is_empty());
    assert_eq!(0x01, req.opcode);
    assert_eq!(42, req.expire);
    let mut get = GetRequest::new_k(b"k".to_vec());
    assert_eq!(Packet::getk(b"k").unwrap(), Packet::from_request(&mut get).unwrap());
    assert!(get.key.is_empty());
}
