use vstd::prelude::*;
use vstd::utf8::{decode_utf8, valid_utf8};

use crate::error::ProtocolError;
use crate::packet::{
    Packet, ADDQ_OPCODE, ADD_OPCODE, GETKQ_OPCODE, GETK_OPCODE, GETQ_OPCODE, GET_OPCODE,
    MAGIC_RESPONSE_VALUE, NOOP_OPCODE, REPLACEQ_OPCODE, REPLACE_OPCODE, SETQ_OPCODE, SET_OPCODE,
};
use crate::status::Status;

verus! {

/// A reply of a given kind, read from a response packet.
pub trait Response: Sized {
    /// The opcodes of the replies of this kind.
    spec fn accepts(opcode: u8) -> bool;

    /// `r` holds what a reply with these parts carries.
    spec fn holds(r: Self, extras: Seq<u8>, key: Seq<u8>, value: Seq<u8>) -> bool;

    /// Whether a reply of this kind can have `opcode`.
    fn has_opcode(opcode: u8) -> (r: bool)
        ensures
            r == Self::accepts(opcode),
    ;

    /// The reply that carries these parts.
    fn from_parts(extras: Vec<u8>, key: Vec<u8>, value: Vec<u8>) -> (r: Self)
        ensures
            Self::holds(r, extras@, key@, value@),
    ;

    /// Reads a reply of this kind from a response packet: it fails on a
    /// packet that is no response, on one of another kind, and on one that
    /// reports a failure.
    fn from_packet(packet: Packet) -> (r: Result<Self, ProtocolError>)
        ensures
            packet.header.magic != MAGIC_RESPONSE_VALUE ==> r == Err::<Self, ProtocolError>(
                ProtocolError::InvalidMagic(packet.header.magic),
            ),
            packet.header.magic == MAGIC_RESPONSE_VALUE && !Self::accepts(packet.header.opcode) ==> r
                == Err::<Self, ProtocolError>(ProtocolError::OpCodeMismatch),
            packet.header.magic == MAGIC_RESPONSE_VALUE && Self::accepts(packet.header.opcode)
                && packet.header.vbucket_or_status != 0 ==> r == Err::<Self, ProtocolError>(
                ProtocolError::NonZeroStatus(Status::from_code(packet.header.vbucket_or_status)),
            ),
            packet.header.magic == MAGIC_RESPONSE_VALUE && Self::accepts(packet.header.opcode)
                && packet.header.vbucket_or_status == 0 ==> (r matches Ok(v) && Self::holds(
                v,
                packet.extras@,
                packet.key@,
                packet.value@,
            )),
    {
        let header = packet.header;
        if header.magic != MAGIC_RESPONSE_VALUE {
            return Err(ProtocolError::InvalidMagic(header.magic));
        }
        if !Self::has_opcode(header.opcode) {
            return Err(ProtocolError::OpCodeMismatch);
        }
        if header.vbucket_or_status != 0 {
            return Err(ProtocolError::NonZeroStatus(Status::from_u16(header.vbucket_or_status)));
        }
        let Packet { header: _, extras, key, value } = packet;
        Ok(Self::from_parts(extras, key, value))
    }
}

/// `o` holds `b` when `b` is not empty, and nothing when it is.
pub open spec fn present(o: Option<Vec<u8>>, b: Seq<u8>) -> bool {
    if b.len() == 0 {
        o is None
    } else {
        o matches Some(v) && v@ == b
    }
}

/// `b` as an optional part: nothing when it is empty.
fn non_empty(b: Vec<u8>) -> (r: Option<Vec<u8>>)
    ensures
        present(r, b@),
{
    if b.len() == 0 {
        None
    } else {
        Some(b)
    }
}

/// The reply to a get: the key, when the request asked for it, the value,
/// on a hit, and the extras, which hold the stored flags.
#[derive(Debug, Default)]
pub struct GetResponse {
    pub key: Option<Vec<u8>>,
    pub value: Option<Vec<u8>>,
    pub extras: Vec<u8>,
}

impl Response for GetResponse {
    open spec fn accepts(opcode: u8) -> bool {
        opcode == GET_OPCODE || opcode == GETK_OPCODE || opcode == GETQ_OPCODE || opcode
            == GETKQ_OPCODE
    }

    open spec fn holds(r: Self, extras: Seq<u8>, key: Seq<u8>, value: Seq<u8>) -> bool {
        &&& present(r.key, key)
        &&& present(r.value, value)
        &&& r.extras@ == extras
    }

    fn has_opcode(opcode: u8) -> (r: bool) {
        opcode == GET_OPCODE || opcode == GETK_OPCODE || opcode == GETQ_OPCODE || opcode
            == GETKQ_OPCODE
    }

    fn from_parts(extras: Vec<u8>, key: Vec<u8>, value: Vec<u8>) -> (r: Self) {
        GetResponse { key: non_empty(key), value: non_empty(value), extras }
    }
}

/// The reply to a store.
#[derive(Debug, Default)]
pub struct SetResponse {
    pub cas: u32,
}

impl Response for SetResponse {
    open spec fn accepts(opcode: u8) -> bool {
        opcode == SET_OPCODE || opcode == SETQ_OPCODE || opcode == ADD_OPCODE || opcode
            == ADDQ_OPCODE || opcode == REPLACE_OPCODE || opcode == REPLACEQ_OPCODE
    }

    open spec fn holds(r: Self, extras: Seq<u8>, key: Seq<u8>, value: Seq<u8>) -> bool {
        r.cas == 0
    }

    fn has_opcode(opcode: u8) -> (r: bool) {
        opcode == SET_OPCODE || opcode == SETQ_OPCODE || opcode == ADD_OPCODE || opcode
            == ADDQ_OPCODE || opcode == REPLACE_OPCODE || opcode == REPLACEQ_OPCODE
    }

    fn from_parts(extras: Vec<u8>, key: Vec<u8>, value: Vec<u8>) -> (r: Self) {
        SetResponse { cas: 0 }
    }
}

/// The reply to a noop.
#[derive(Debug, Default)]
pub struct NoopResponse {}

impl Response for NoopResponse {
    open spec fn accepts(opcode: u8) -> bool {
        opcode == NOOP_OPCODE
    }

    open spec fn holds(r: Self, extras: Seq<u8>, key: Seq<u8>, value: Seq<u8>) -> bool {
        true
    }

    fn has_opcode(opcode: u8) -> (r: bool) {
        opcode == NOOP_OPCODE
    }

    fn from_parts(extras: Vec<u8>, key: Vec<u8>, value: Vec<u8>) -> (r: Self) {
        NoopResponse {}
    }
}

/// Relies on `String::from_utf8`: it accepts exactly the valid UTF-8 byte
/// strings, gives the text they encode, and hands back the bytes otherwise.
#[verifier::external_body]
fn utf8_string(bytes: Vec<u8>) -> (r: Result<String, Vec<u8>>)
    ensures
        r is Ok <==> valid_utf8(bytes@),
        r matches Ok(s) ==> s@ == decode_utf8(bytes@),
        r matches Err(b) ==> b@ == bytes@,
{
    match String::from_utf8(bytes) {
        Ok(s) => Ok(s),
        Err(e) => Err(e.into_bytes()),
    }
}

/// The reply to a version request: the server's version, as text.
#[derive(Debug)]
pub struct VersionResponse {
    pub value: String,
}

impl VersionResponse {
    /// Reads the version from the value of a reply; fails when the value is
    /// not UTF-8 text.
    pub fn try_from(packet: Packet) -> (r: Result<Self, ProtocolError>)
        ensures
            r is Ok <==> valid_utf8(packet.value@),
            r matches Ok(v) ==> v.value@ == decode_utf8(packet.value@),
            r matches Err(e) ==> (e matches ProtocolError::InvalidUtf8(b) && b@ == packet.value@),
    {
        match utf8_string(packet.value) {
            Ok(value) => Ok(VersionResponse { value }),
            Err(bytes) => Err(ProtocolError::InvalidUtf8(bytes)),
        }
    }
}

} // verus!
