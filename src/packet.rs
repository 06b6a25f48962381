use vstd::prelude::*;

use crate::error::ProtocolError;
use crate::status::Status;

verus! {

/// First byte of every request.
pub const MAGIC_REQUEST_VALUE: u8 = 0x80;

/// First byte of every response.
pub const MAGIC_RESPONSE_VALUE: u8 = 0x81;

/// Length of the fixed header that starts every packet.
pub const HEADER_LEN: usize = 24;

pub const GET_OPCODE: u8 = 0x00;

pub const SET_OPCODE: u8 = 0x01;

pub const ADD_OPCODE: u8 = 0x02;

pub const REPLACE_OPCODE: u8 = 0x03;

pub const DELETE_OPCODE: u8 = 0x04;

pub const GETQ_OPCODE: u8 = 0x09;

pub const NOOP_OPCODE: u8 = 0x0a;

pub const VERSION_OPCODE: u8 = 0x0b;

pub const GETK_OPCODE: u8 = 0x0c;

pub const GETKQ_OPCODE: u8 = 0x0d;

pub const SETQ_OPCODE: u8 = 0x11;

pub const ADDQ_OPCODE: u8 = 0x12;

pub const REPLACEQ_OPCODE: u8 = 0x13;

/// The two bytes of `n`, most significant first.
pub open spec fn be16(n: u16) -> Seq<u8> {
    seq![(n >> 8u16) as u8, n as u8]
}

/// The four bytes of `n`, most significant first.
pub open spec fn be32(n: u32) -> Seq<u8> {
    seq![(n >> 24u32) as u8, (n >> 16u32) as u8, (n >> 8u32) as u8, n as u8]
}

/// The eight bytes of `n`, most significant first.
pub open spec fn be64(n: u64) -> Seq<u8> {
    seq![
        (n >> 56u64) as u8,
        (n >> 48u64) as u8,
        (n >> 40u64) as u8,
        (n >> 32u64) as u8,
        (n >> 24u64) as u8,
        (n >> 16u64) as u8,
        (n >> 8u64) as u8,
        n as u8,
    ]
}

/// The big-endian 16-bit integer that starts at `at` in `b`.
pub open spec fn read_be16(b: Seq<u8>, at: int) -> u16 {
    ((b[at] as u16) << 8u16) | (b[at + 1] as u16)
}

/// The big-endian 32-bit integer that starts at `at` in `b`.
pub open spec fn read_be32(b: Seq<u8>, at: int) -> u32 {
    ((b[at] as u32) << 24u32) | ((b[at + 1] as u32) << 16u32) | ((b[at + 2] as u32) << 8u32) | (
    b[at + 3] as u32)
}

/// The big-endian 64-bit integer that starts at `at` in `b`.
pub open spec fn read_be64(b: Seq<u8>, at: int) -> u64 {
    ((read_be32(b, at) as u64) << 32u64) | (read_be32(b, at + 4) as u64)
}

/// The fixed 24-byte header of a packet.
#[derive(Debug, Default, PartialEq, Eq, Structural, Clone, Copy)]
pub struct Header {
    pub magic: u8,
    pub opcode: u8,
    pub key_length: u16,
    pub extras_length: u8,
    pub data_type: u8,
    pub vbucket_or_status: u16,
    pub body_len: u32,
    pub opaque: u32,
    pub cas: u64,
}

/// What a packet holds: its header and the three parts of its body.
pub struct PacketModel {
    pub header: Header,
    pub extras: Seq<u8>,
    pub key: Seq<u8>,
    pub value: Seq<u8>,
}

impl PacketModel {
    /// The header's lengths agree with the parts of the body.
    pub open spec fn wf(self) -> bool {
        &&& self.header.extras_length as int == self.extras.len()
        &&& self.header.key_length as int == self.key.len()
        &&& self.header.body_len as int == self.extras.len() + self.key.len() + self.value.len()
    }

    /// The bytes of the packet on the wire: the header, then extras, key and value.
    pub open spec fn wire(self) -> Seq<u8> {
        self.header.wire() + self.extras + self.key + self.value
    }
}

impl Header {
    /// The 24 bytes of the header on the wire.
    pub open spec fn wire(self) -> Seq<u8> {
        seq![self.magic, self.opcode] + be16(self.key_length) + seq![
            self.extras_length,
            self.data_type,
        ] + be16(self.vbucket_or_status) + be32(self.body_len) + be32(self.opaque) + be64(
            self.cas,
        )
    }

    /// The header whose fields are read from the first 24 bytes of `b`.
    pub open spec fn decode(b: Seq<u8>) -> Header {
        Header {
            magic: b[0],
            opcode: b[1],
            key_length: read_be16(b, 2),
            extras_length: b[4],
            data_type: b[5],
            vbucket_or_status: read_be16(b, 6),
            body_len: read_be32(b, 8),
            opaque: read_be32(b, 12),
            cas: read_be64(b, 16),
        }
    }

    /// The packet that this header makes of a body: the body is split first
    /// after `extras_length` bytes, then after `key_length` more.
    pub open spec fn split(self, body: Seq<u8>) -> PacketModel {
        let e = self.extras_length as int;
        let k = self.key_length as int;
        PacketModel {
            header: self,
            extras: body.subrange(0, e),
            key: body.subrange(e, e + k),
            value: body.subrange(e + k, body.len() as int),
        }
    }

    /// The body fits this header: its length is `body_len`, and the extras and
    /// key that the header announces fit in it.
    pub open spec fn frames(self, body: Seq<u8>) -> bool {
        &&& body.len() == self.body_len as int
        &&& self.extras_length as int + self.key_length as int <= self.body_len as int
    }

    /// Splits `body` into the packet that this header announces.
    pub fn read_packet(self, body: &[u8]) -> (r: Result<Packet, ProtocolError>)
        ensures
            r is Ok <==> self.frames(body@),
            self.extras_length as int + self.key_length as int <= self.body_len as int ==> (r is Ok
                <==> body@.len() == self.body_len as int),
            r matches Ok(p) ==> p@ == self.split(body@),
            r is Err ==> r == Err::<Packet, ProtocolError>(ProtocolError::BodySizeMismatch),
    {
        let e = self.extras_length as usize;
        let k = self.key_length as usize;
        if body.len() != self.body_len as usize || e + k > body.len() {
            return Err(ProtocolError::BodySizeMismatch);
        }
        let extras = slice_range(body, 0, e);
        let key = slice_range(body, e, e + k);
        let value = slice_range(body, e + k, body.len());
        let p = Packet { header: self, extras, key, value };
        proof {
            assert(p@.extras =~= self.split(body@).extras);
            assert(p@.key =~= self.split(body@).key);
            assert(p@.value =~= self.split(body@).value);
        }
        Ok(p)
    }

    /// Reads the header of a response from the start of `bytes`.
    pub fn read_response(bytes: &[u8]) -> (r: Result<Header, ProtocolError>)
        ensures
            bytes@.len() < 24 ==> r == Err::<Header, ProtocolError>(ProtocolError::PacketTooSmall),
            bytes@.len() >= 24 && bytes@[0] != MAGIC_RESPONSE_VALUE ==> r == Err::<
                Header,
                ProtocolError,
            >(ProtocolError::InvalidMagic(bytes@[0])),
            bytes@.len() >= 24 && bytes@[0] == MAGIC_RESPONSE_VALUE ==> r == Ok::<
                Header,
                ProtocolError,
            >(Header::decode(bytes@)),
            r matches Ok(h) ==> h.magic == MAGIC_RESPONSE_VALUE,
    {
        if bytes.len() < HEADER_LEN {
            return Err(ProtocolError::PacketTooSmall);
        }
        let magic = bytes[0];
        if magic != MAGIC_RESPONSE_VALUE {
            return Err(ProtocolError::InvalidMagic(magic));
        }
        let hi = ((bytes[16] as u32) << 24u32) | ((bytes[17] as u32) << 16u32) | ((bytes[18] as u32)
            << 8u32) | (bytes[19] as u32);
        let lo = ((bytes[20] as u32) << 24u32) | ((bytes[21] as u32) << 16u32) | ((bytes[22] as u32)
            << 8u32) | (bytes[23] as u32);
        Ok(
            Header {
                magic,
                opcode: bytes[1],
                key_length: ((bytes[2] as u16) << 8u16) | (bytes[3] as u16),
                extras_length: bytes[4],
                data_type: bytes[5],
                vbucket_or_status: ((bytes[6] as u16) << 8u16) | (bytes[7] as u16),
                body_len: ((bytes[8] as u32) << 24u32) | ((bytes[9] as u32) << 16u32) | ((
                bytes[10] as u32) << 8u32) | (bytes[11] as u32),
                opaque: ((bytes[12] as u32) << 24u32) | ((bytes[13] as u32) << 16u32) | ((
                bytes[14] as u32) << 8u32) | (bytes[15] as u32),
                cas: ((hi as u64) << 32u64) | (lo as u64),
            },
        )
    }
}

/// The bytes `b[from..to]` as a vector of their own.
fn slice_range(b: &[u8], from: usize, to: usize) -> (r: Vec<u8>)
    requires
        from <= to <= b@.len(),
    ensures
        r@ == b@.subrange(from as int, to as int),
{
    let mut r: Vec<u8> = Vec::with_capacity(to - from);
    let mut i: usize = from;
    while i < to
        invariant
            from <= i <= to <= b@.len(),
            r@ == b@.subrange(from as int, i as int),
        decreases to - i,
    {
        r.push(b[i]);
        i = i + 1;
        proof {
            assert(r@ =~= b@.subrange(from as int, i as int));
        }
    }
    r
}

/// Appends all of `b` to `out`.
fn push_all(out: &mut Vec<u8>, b: &[u8])
    ensures
        final(out)@ == old(out)@ + b@,
{
    let mut i: usize = 0;
    while i < b.len()
        invariant
            0 <= i <= b@.len(),
            out@ == old(out)@ + b@.subrange(0, i as int),
        decreases b@.len() - i,
    {
        out.push(b[i]);
        i = i + 1;
        proof {
            assert(out@ =~= old(out)@ + b@.subrange(0, i as int));
        }
    }
    proof {
        assert(b@.subrange(0, b@.len() as int) =~= b@);
    }
}

/// Appends the big-endian bytes of `n` to `out`.
fn push_be16(out: &mut Vec<u8>, n: u16)
    ensures
        final(out)@ == old(out)@ + be16(n),
{
    out.push((n >> 8u16) as u8);
    out.push(n as u8);
    proof {
        assert(final(out)@ =~= old(out)@ + be16(n));
    }
}

/// Appends the big-endian bytes of `n` to `out`.
fn push_be32(out: &mut Vec<u8>, n: u32)
    ensures
        final(out)@ == old(out)@ + be32(n),
{
    out.push((n >> 24u32) as u8);
    out.push((n >> 16u32) as u8);
    out.push((n >> 8u32) as u8);
    out.push(n as u8);
    proof {
        assert(final(out)@ =~= old(out)@ + be32(n));
    }
}

/// Appends the big-endian bytes of `n` to `out`.
fn push_be64(out: &mut Vec<u8>, n: u64)
    ensures
        final(out)@ == old(out)@ + be64(n),
{
    out.push((n >> 56u64) as u8);
    out.push((n >> 48u64) as u8);
    out.push((n >> 40u64) as u8);
    out.push((n >> 32u64) as u8);
    out.push((n >> 24u64) as u8);
    out.push((n >> 16u64) as u8);
    out.push((n >> 8u64) as u8);
    out.push(n as u8);
    proof {
        assert(final(out)@ =~= old(out)@ + be64(n));
    }
}

/// The extras of a store request: user flags, then the expiry in seconds.
#[derive(Debug, Default, PartialEq, Eq, Structural, Clone, Copy)]
pub struct SetExtras {
    pub flags: u32,
    pub expire: u32,
}

impl SetExtras {
    pub fn new(flags: u32, expire: u32) -> (r: Self)
        ensures
            r.flags == flags,
            r.expire == expire,
    {
        Self { flags, expire }
    }

    /// The eight bytes of the extras on the wire.
    pub open spec fn wire(self) -> Seq<u8> {
        be32(self.flags) + be32(self.expire)
    }

    /// Different extras have different wire bytes.
    pub proof fn lemma_wire_injective(self, other: SetExtras)
        requires
            self.wire() == other.wire(),
        ensures
            self == other,
    {
        lemma_be_round_trip(0, self.flags, 0);
        lemma_be_round_trip(0, other.flags, 0);
        lemma_be_round_trip(0, self.expire, 0);
        lemma_be_round_trip(0, other.expire, 0);
        assert(self.wire().subrange(0, 4) =~= be32(self.flags));
        assert(other.wire().subrange(0, 4) =~= be32(other.flags));
        assert(self.wire().subrange(4, 8) =~= be32(self.expire));
        assert(other.wire().subrange(4, 8) =~= be32(other.expire));
    }

    /// Encodes the extras for the wire.
    pub fn to_bytes(&self) -> (r: Vec<u8>)
        ensures
            r@ == self.wire(),
    {
        let mut out: Vec<u8> = Vec::with_capacity(8);
        push_be32(&mut out, self.flags);
        push_be32(&mut out, self.expire);
        proof {
            assert(out@ =~= self.wire());
        }
        out
    }
}

/// A packet of the binary protocol: a header and the three parts of its body.
#[derive(Debug, Default, PartialEq, Clone)]
pub struct Packet {
    pub header: Header,
    pub extras: Vec<u8>,
    pub key: Vec<u8>,
    pub value: Vec<u8>,
}

impl View for Packet {
    type V = PacketModel;

    open spec fn view(&self) -> PacketModel {
        PacketModel { header: self.header, extras: self.extras@, key: self.key@, value: self.value@ }
    }
}

/// A request of this opcode with these parts fits the header's length fields.
pub open spec fn request_fits(extras_len: int, key_len: int, value_len: int) -> bool {
    &&& key_len <= u16::MAX
    &&& extras_len <= u8::MAX
    &&& extras_len + key_len + value_len <= u32::MAX
}

/// The request with this opcode and these parts, its header filled in.
pub open spec fn request_model(opcode: u8, extras: Seq<u8>, key: Seq<u8>, value: Seq<u8>) -> PacketModel {
    PacketModel {
        header: Header {
            magic: MAGIC_REQUEST_VALUE,
            opcode,
            key_length: key.len() as u16,
            extras_length: extras.len() as u8,
            data_type: 0,
            vbucket_or_status: 0,
            body_len: (extras.len() + key.len() + value.len()) as u32,
            opaque: 0,
            cas: 0,
        },
        extras,
        key,
        value,
    }
}

/// `r` is what building the request with these parts gives: the request
/// itself when the parts fit the header, else `PacketTooLarge`.
pub open spec fn built_request(
    r: Result<Packet, ProtocolError>,
    opcode: u8,
    extras: Seq<u8>,
    key: Seq<u8>,
    value: Seq<u8>,
) -> bool {
    match r {
        Ok(p) => request_fits(extras.len() as int, key.len() as int, value.len() as int) && p@
            == request_model(opcode, extras, key, value),
        Err(e) => !request_fits(extras.len() as int, key.len() as int, value.len() as int) && e
            == ProtocolError::PacketTooLarge,
    }
}

impl Packet {
    /// Builds a request from its opcode and the three parts of its body.
    pub fn new_request(opcode: u8, key: &[u8], extras: Vec<u8>, value: &[u8]) -> (r: Result<
        Packet,
        ProtocolError,
    >)
        ensures
            built_request(r, opcode, extras@, key@, value@),
    {
        if key.len() > 0xffff || extras.len() > 0xff || value.len() > 0xffff_ffff || extras.len()
            + key.len() > 0xffff_ffff - value.len() {
            return Err(ProtocolError::PacketTooLarge);
        }
        let body_len = (extras.len() + key.len() + value.len()) as u32;
        let header = Header {
            magic: MAGIC_REQUEST_VALUE,
            opcode,
            key_length: key.len() as u16,
            extras_length: extras.len() as u8,
            data_type: 0,
            vbucket_or_status: 0,
            body_len,
            opaque: 0,
            cas: 0,
        };
        let key_bytes = slice_range(key, 0, key.len());
        let value_bytes = slice_range(value, 0, value.len());
        proof {
            assert(key_bytes@ =~= key@);
            assert(value_bytes@ =~= value@);
        }
        Ok(Packet { header, extras, key: key_bytes, value: value_bytes })
    }

    /// Builds a request that carries a key and nothing else.
    fn key_only(opcode: u8, key: &[u8]) -> (r: Result<Packet, ProtocolError>)
        ensures
            built_request(r, opcode, seq![], key@, seq![]),
    {
        let none: Vec<u8> = Vec::new();
        let r = Packet::new_request(opcode, key, Vec::new(), none.as_slice());
        proof {
            assert(none@ =~= Seq::<u8>::empty());
        }
        r
    }

    /// Builds a store request: the extras, then the key and the value.
    fn store(opcode: u8, key: &[u8], value: &[u8], extras: SetExtras) -> (r: Result<
        Packet,
        ProtocolError,
    >)
        ensures
            built_request(r, opcode, extras.wire(), key@, value@),
    {
        Packet::new_request(opcode, key, extras.to_bytes(), value)
    }

    /// A `get` request for `key`.
    pub fn get(key: &[u8]) -> (r: Result<Packet, ProtocolError>)
        ensures
            built_request(r, GET_OPCODE, seq![], key@, seq![]),
    {
        Packet::key_only(GET_OPCODE, key)
    }

    /// A `getk` request for `key`: a hit or a miss, with the key in the reply.
    pub fn getk(key: &[u8]) -> (r: Result<Packet, ProtocolError>)
        ensures
            built_request(r, GETK_OPCODE, seq![], key@, seq![]),
    {
        Packet::key_only(GETK_OPCODE, key)
    }

    /// A quiet `getq` request for `key`: no reply on a miss.
    pub fn getq(key: &[u8]) -> (r: Result<Packet, ProtocolError>)
        ensures
            built_request(r, GETQ_OPCODE, seq![], key@, seq![]),
    {
        Packet::key_only(GETQ_OPCODE, key)
    }

    /// A quiet `getkq` request for `key`: no reply on a miss, the key in a hit.
    pub fn getkq(key: &[u8]) -> (r: Result<Packet, ProtocolError>)
        ensures
            built_request(r, GETKQ_OPCODE, seq![], key@, seq![]),
    {
        Packet::key_only(GETKQ_OPCODE, key)
    }

    /// A `set` request: store `value` under `key`, whatever was there.
    pub fn set(key: &[u8], value: &[u8], extras: SetExtras) -> (r: Result<Packet, ProtocolError>)
        ensures
            built_request(r, SET_OPCODE, extras.wire(), key@, value@),
    {
        Packet::store(SET_OPCODE, key, value, extras)
    }

    /// A quiet `setq` request: no reply unless it fails.
    pub fn setq(key: &[u8], value: &[u8], extras: SetExtras) -> (r: Result<Packet, ProtocolError>)
        ensures
            built_request(r, SETQ_OPCODE, extras.wire(), key@, value@),
    {
        Packet::store(SETQ_OPCODE, key, value, extras)
    }

    /// An `add` request: store `value` only if `key` holds nothing.
    pub fn add(key: &[u8], value: &[u8], extras: SetExtras) -> (r: Result<Packet, ProtocolError>)
        ensures
            built_request(r, ADD_OPCODE, extras.wire(), key@, value@),
    {
        Packet::store(ADD_OPCODE, key, value, extras)
    }

    /// A quiet `addq` request: no reply unless it fails.
    pub fn addq(key: &[u8], value: &[u8], extras: SetExtras) -> (r: Result<Packet, ProtocolError>)
        ensures
            built_request(r, ADDQ_OPCODE, extras.wire(), key@, value@),
    {
        Packet::store(ADDQ_OPCODE, key, value, extras)
    }

    /// A `replace` request: store `value` only if `key` already holds one.
    pub fn replace(key: &[u8], value: &[u8], extras: SetExtras) -> (r: Result<
        Packet,
        ProtocolError,
    >)
        ensures
            built_request(r, REPLACE_OPCODE, extras.wire(), key@, value@),
    {
        Packet::store(REPLACE_OPCODE, key, value, extras)
    }

    /// A quiet `replaceq` request: no reply unless it fails.
    pub fn replaceq(key: &[u8], value: &[u8], extras: SetExtras) -> (r: Result<
        Packet,
        ProtocolError,
    >)
        ensures
            built_request(r, REPLACEQ_OPCODE, extras.wire(), key@, value@),
    {
        Packet::store(REPLACEQ_OPCODE, key, value, extras)
    }

    /// A `delete` request for `key`.
    pub fn delete(key: &[u8]) -> (r: Result<Packet, ProtocolError>)
        ensures
            built_request(r, DELETE_OPCODE, seq![], key@, seq![]),
    {
        Packet::key_only(DELETE_OPCODE, key)
    }

    /// A `noop` request, which a server answers at once.
    pub fn noop() -> (r: Result<Packet, ProtocolError>)
        ensures
            built_request(r, NOOP_OPCODE, seq![], seq![], seq![]),
            r is Ok,
    {
        let none: Vec<u8> = Vec::new();
        let r = Packet::key_only(NOOP_OPCODE, none.as_slice());
        proof {
            assert(none@ =~= Seq::<u8>::empty());
        }
        r
    }

    /// A `version` request, which asks the server for its version.
    pub fn version() -> (r: Result<Packet, ProtocolError>)
        ensures
            built_request(r, VERSION_OPCODE, seq![], seq![], seq![]),
            r is Ok,
    {
        let none: Vec<u8> = Vec::new();
        let r = Packet::key_only(VERSION_OPCODE, none.as_slice());
        proof {
            assert(none@ =~= Seq::<u8>::empty());
        }
        r
    }

    /// Success when the status field of this response is zero, else the
    /// status that the field holds.
    pub fn error_for_status(&self) -> (r: Result<(), Status>)
        ensures
            self.header.vbucket_or_status == 0 ==> r is Ok,
            self.header.vbucket_or_status != 0 ==> r == Err::<(), Status>(
                Status::from_code(self.header.vbucket_or_status),
            ),
    {
        match self.header.vbucket_or_status {
            0 => Ok(()),
            it => Err(Status::from_u16(it)),
        }
    }

    /// The bytes of this packet on the wire.
    pub fn to_bytes(&self) -> (r: Vec<u8>)
        ensures
            r@ == self@.wire(),
    {
        let h = self.header;
        let mut out: Vec<u8> = Vec::new();
        out.push(h.magic);
        out.push(h.opcode);
        push_be16(&mut out, h.key_length);
        out.push(h.extras_length);
        out.push(h.data_type);
        push_be16(&mut out, h.vbucket_or_status);
        push_be32(&mut out, h.body_len);
        push_be32(&mut out, h.opaque);
        push_be64(&mut out, h.cas);
        proof {
            assert(out@ =~= h.wire());
        }
        push_all(&mut out, self.extras.as_slice());
        push_all(&mut out, self.key.as_slice());
        push_all(&mut out, self.value.as_slice());
        out
    }
}

proof fn lemma_be_round_trip(a: u16, b: u32, c: u64)
    ensures
        read_be16(be16(a), 0) == a,
        read_be32(be32(b), 0) == b,
        read_be32(be64(c), 0) == (c >> 32u64) as u32,
        read_be32(be64(c), 4) == c as u32,
        read_be64(be64(c), 0) == c,
{
    let s16 = be16(a);
    assert(((((a >> 8u16) as u8) as u16) << 8u16) | ((a as u8) as u16) == a) by (bit_vector);
    assert(read_be16(s16, 0) == ((((a >> 8u16) as u8) as u16) << 8u16) | ((a as u8) as u16));
    assert(((((b >> 24u32) as u8) as u32) << 24u32) | ((((b >> 16u32) as u8) as u32) << 16u32) | ((
    ((b >> 8u32) as u8) as u32) << 8u32) | ((b as u8) as u32) == b) by (bit_vector);
    let s64 = be64(c);
    assert(((((c >> 56u64) as u8) as u32) << 24u32) | ((((c >> 48u64) as u8) as u32) << 16u32) | ((
    ((c >> 40u64) as u8) as u32) << 8u32) | (((c >> 32u64) as u8) as u32) == (c >> 32u64) as u32)
        by (bit_vector);
    assert(((((c >> 24u64) as u8) as u32) << 24u32) | ((((c >> 16u64) as u8) as u32) << 16u32) | ((
    ((c >> 8u64) as u8) as u32) << 8u32) | ((c as u8) as u32) == c as u32) by (bit_vector);
    assert(((((c >> 32u64) as u32) as u64) << 32u64) | ((c as u32) as u64) == c) by (bit_vector);
    assert(read_be32(s64, 0) == (c >> 32u64) as u32);
    assert(read_be32(s64, 4) == c as u32);
}

/// The first 24 bytes of a packet's wire form are its header's, and reading
/// them back gives the header again, whatever follows them.
pub proof fn lemma_header_round_trip(h: Header, rest: Seq<u8>)
    ensures
        h.wire().len() == 24,
        Header::decode(h.wire() + rest) == h,
{
    let w = h.wire();
    let b = w + rest;
    lemma_be_round_trip(h.key_length, h.body_len, h.cas);
    lemma_be_round_trip(h.vbucket_or_status, h.opaque, h.cas);
    assert(w.len() == 24);
    assert(b.subrange(2, 4) =~= be16(h.key_length));
    assert(b.subrange(6, 8) =~= be16(h.vbucket_or_status));
    assert(b.subrange(8, 12) =~= be32(h.body_len));
    assert(b.subrange(12, 16) =~= be32(h.opaque));
    assert(b.subrange(16, 24) =~= be64(h.cas));
    assert(read_be16(b, 2) == read_be16(b.subrange(2, 4), 0));
    assert(read_be16(b, 6) == read_be16(b.subrange(6, 8), 0));
    assert(read_be32(b, 8) == read_be32(b.subrange(8, 12), 0));
    assert(read_be32(b, 12) == read_be32(b.subrange(12, 16), 0));
    assert(read_be32(b, 16) == read_be32(b.subrange(16, 24), 0));
    assert(read_be32(b, 20) == read_be32(b.subrange(16, 24), 4));
    assert(read_be64(b, 16) == read_be64(b.subrange(16, 24), 0));
    assert(b[0] == h.magic && b[1] == h.opcode && b[4] == h.extras_length && b[5] == h.data_type);
}

/// Serialising a well-formed packet and parsing the bytes back gives the
/// packet again: the first 24 bytes decode to its header, the rest is a body
/// that this header frames and splits into its extras, key and value. The
/// serialised length is 24 plus the lengths of the three parts.
pub proof fn lemma_packet_round_trip(p: PacketModel)
    requires
        p.wf(),
    ensures
        p.wire().len() == 24 + p.extras.len() + p.key.len() + p.value.len(),
        Header::decode(p.wire()) == p.header,
        p.header.frames(p.wire().subrange(24, p.wire().len() as int)),
        p.header.split(p.wire().subrange(24, p.wire().len() as int)) == p,
{
    let body = p.extras + p.key + p.value;
    lemma_header_round_trip(p.header, body);
    assert(p.wire() =~= p.header.wire() + body);
    assert(p.wire().subrange(24, p.wire().len() as int) =~= body);
    let q = p.header.split(body);
    assert(q.extras =~= p.extras);
    assert(q.key =~= p.key);
    assert(q.value =~= p.value);
}

impl From<Packet> for Vec<u8> {
    /// The bytes of the packet on the wire, as `Packet::to_bytes` gives them.
    fn from(p: Packet) -> (r: Vec<u8>)
        ensures
            r@ == p@.wire(),
    {
        p.to_bytes()
    }
}

/// The wire bytes are stated by the `ensures` of `from` itself, over the
/// view; a `Vec` has no spec value that could stand for them here.
impl vstd::std_specs::convert::FromSpecImpl<Packet> for Vec<u8> {
    open spec fn obeys_from_spec() -> bool {
        false
    }

    open spec fn from_spec(p: Packet) -> Vec<u8> {
        arbitrary()
    }
}

} // verus!
