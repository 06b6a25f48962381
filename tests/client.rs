use rsmc_core::client::{
    get_result, plan_delete_multi, plan_get_multi, plan_set_multi, store_result, BulkErrResponse,
    BulkOkResponse, Drain,
};
use rsmc_core::error::{Error, ProtocolError};
use rsmc_core::keymap::KeyMap;
use rsmc_core::packet::{Header, Packet};
use rsmc_core::ring::Ring;
use rsmc_core::status::Status;

fn reply(opcode: u8, status: u16, key: &[u8], value: &[u8]) -> Packet {
    let header = Header {
        magic: 0x81,
        opcode,
        key_length: key.len() as u16,
        extras_length: 0,
        data_type: 0,
        vbucket_or_status: status,
        body_len: (key.len() + value.len()) as u32,
        opaque: 0,
        cas: 0,
    };
    Packet {
        header,
        extras: vec![],
        key: key.to_vec(),
        value: value.to_vec(),
    }
}

fn one_node() -> Ring {
    Ring::new(vec!["127.0.0.1:11211".to_string()])
}

fn three_nodes() -> Ring {
    Ring::new(vec![
        "127.0.0.1:11211".to_string(),
        "127.0.0.1:11212".to_string(),
        "127.0.0.1:11213".to_string(),
    ])
}

#[test]
fn single_get_hit_miss_and_failure() {
    assert!(matches!(get_result(reply(0, 0, b"", b"hello")), Ok(Some(v)) if v == b"hello"));
    assert!(matches!(get_result(reply(0, 1, b"", b"")), Ok(None)));
    assert!(matches!(
        get_result(reply(0, 0x85, b"", b"")),
        Err(Error::Status(Status::Busy))
    ));
    assert!(store_result(&reply(1, 0, b"", b"")).is_ok());
    assert!(matches!(
        store_result(&reply(4, 1, b"", b"")),
        Err(Error::Status(Status::KeyNotFound))
    ));
}

#[test]
fn get_multi_on_one_node() {
    let ring = one_node();
    let keys = vec![b"abc".to_vec(), b"def".to_vec(), b"qwop".to_vec()];
    let mut plans = plan_get_multi(&ring, &keys).unwrap();
    assert_eq!(1, plans.len());
    let ops: Vec<u8> = plans[0].requests.iter().map(|p| p.header.opcode).collect();
    assert_eq!(vec![0x0d, 0x0d, 0x0c], ops);
    let mut values = BulkOkResponse::new();
    let mut errors = BulkErrResponse::new();
    let drain = &mut plans[0].drain;
    drain.absorb(reply(0x0d, 0, b"abc", b"123"), &mut values, &mut errors);
    assert!(!drain.is_done());
    drain.absorb(reply(0x0d, 0, b"def", b"456"), &mut values, &mut errors);
    assert!(!drain.is_done());
    drain.absorb(reply(0x0c, 1, b"qwop", b""), &mut values, &mut errors);
    assert!(drain.is_done());
    assert_eq!(2, values.len());
    assert_eq!(Some(&b"123".to_vec()), values.get(b"abc"));
    assert_eq!(Some(&b"456".to_vec()), values.get(b"def"));
    assert!(!values.contains_key(b"qwop"));
    assert!(errors.is_empty());
}

#[test]
fn get_multi_records_failures_per_key() {
    let ring = one_node();
    let keys = vec![b"a".to_vec(), b"b".to_vec()];
    let mut plans = plan_get_multi(&ring, &keys).unwrap();
    let mut values = BulkOkResponse::new();
    let mut errors = BulkErrResponse::new();
    let drain = &mut plans[0].drain;
    drain.absorb(reply(0x0d, 0x82, b"a", b""), &mut values, &mut errors);
    drain.absorb(reply(0x0c, 0, b"b", b"2"), &mut values, &mut errors);
    assert!(drain.is_done());
    assert!(matches!(errors.get(b"a"), Some(Error::Status(Status::OutOfMemory))));
    assert_eq!(Some(&b"2".to_vec()), values.get(b"b"));
}

#[test]
fn set_multi_on_one_node() {
    let ring = one_node();
    let mut data: KeyMap<Vec<u8>> = KeyMap::new();
    data.insert(b"abc".to_vec(), b"123".to_vec());
    data.insert(b"def".to_vec(), b"456".to_vec());
    let mut plans = plan_set_multi(&ring, &data, 1).unwrap();
    assert_eq!(1, plans.len());
    let reqs = &plans[0].requests;
    assert_eq!(vec![0x11, 0x01], reqs.iter().map(|p| p.header.opcode).collect::<Vec<u8>>());
    assert_eq!(b"abc".to_vec(), reqs[0].key);
    assert_eq!(b"123".to_vec(), reqs[0].value);
    assert_eq!(vec![0, 0, 0, 0, 0, 0, 0, 1], reqs[1].extras);
    let mut values = BulkOkResponse::new();
    let mut errors = BulkErrResponse::new();
    let drain = &mut plans[0].drain;
    drain.absorb(reply(0x01, 0, b"", b""), &mut values, &mut errors);
    assert!(drain.is_done());
    assert!(errors.is_empty());
}

#[test]
fn set_multi_keeps_failures_and_waits_for_success() {
    let ring = one_node();
    let mut data: KeyMap<Vec<u8>> = KeyMap::new();
    data.insert(b"x".to_vec(), b"1".to_vec());
    data.insert(b"y".to_vec(), b"2".to_vec());
    let mut plans = plan_set_multi(&ring, &data, 0).unwrap();
    let mut values = BulkOkResponse::new();
    let mut errors = BulkErrResponse::new();
    let drain = &mut plans[0].drain;
    drain.absorb(reply(0x11, 0x03, b"x", b""), &mut values, &mut errors);
    assert!(!drain.is_done());
    drain.absorb(reply(0x01, 0, b"", b""), &mut values, &mut errors);
    assert!(drain.is_done());
    assert!(matches!(errors.get(b"x"), Some(Error::Status(Status::ValueTooLarge))));
    assert_eq!(1, errors.len());
}

#[test]
fn delete_multi_reads_one_reply_per_key() {
    let ring = one_node();
    let keys = vec![b"abc".to_vec(), b"def".to_vec()];
    let mut plans = plan_delete_multi(&ring, &keys).unwrap();
    let ops: Vec<u8> = plans[0].requests.iter().map(|p| p.header.opcode).collect();
    assert_eq!(vec![0x04, 0x04], ops);
    let mut values = BulkOkResponse::new();
    let mut errors = BulkErrResponse::new();
    let drain = &mut plans[0].drain;
    drain.absorb(reply(0x04, 0, b"", b""), &mut values, &mut errors);
    assert!(!drain.is_done());
    drain.absorb(reply(0x04, 1, b"def", b""), &mut values, &mut errors);
    assert!(drain.is_done());
    assert!(matches!(errors.get(b"def"), Some(Error::Status(Status::KeyNotFound))));
}

#[test]
fn batches_across_three_nodes_cover_every_key() {
    let ring = three_nodes();
    let keys: Vec<Vec<u8>> = (0..50u8).map(|i| vec![b'k', i]).collect();
    let plans = plan_get_multi(&ring, &keys).unwrap();
    let mut seen: Vec<Vec<u8>> = plans
        .iter()
        .flat_map(|p| p.requests.iter().map(|r| r.key.clone()))
        .collect();
    seen.sort();
    let mut want = keys.clone();
    want.sort();
    assert_eq!(want, seen);
    for w in plans.windows(2) {
        assert!(w[0].node < w[1].node);
    }
    for p in &plans {
        let last = p.requests.len() - 1;
        assert_eq!(0x0c, p.requests[last].header.opcode);
        assert!(matches!(&p.drain, Drain::Gets { sentinel } if *sentinel == p.requests[last].key));
    }
}

#[test]
fn oversized_key_fails_the_batch() {
    let ring = one_node();
    let keys = vec![b"ok".to_vec(), vec![0u8; 0x10000]];
    assert!(matches!(plan_get_multi(&ring, &keys), Err(ProtocolError::PacketTooLarge)));
    assert!(matches!(plan_delete_multi(&ring, &keys), Err(ProtocolError::PacketTooLarge)));
}

#[test]
fn keymap_replaces_values() {
    let mut m: KeyMap<Vec<u8>> = KeyMap::new();
    m.insert(b"a".to_vec(), b"1".to_vec());
    m.insert(b"a".to_vec(), b"2".to_vec());
    assert_eq!(1, m.len());
    assert_eq!(Some(&b"2".to_vec()), m.get(b"a"));
    assert_eq!(vec![b"a".to_vec()], m.keys());
    assert_eq!(vec![(b"a".to_vec(), b"2".to_vec())], m.into_entries());
}
