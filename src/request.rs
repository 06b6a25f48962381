use vstd::prelude::*;

use crate::error::ProtocolError;
use crate::packet::{
    built_request, Packet, SetExtras, ADDQ_OPCODE, ADD_OPCODE, GETKQ_OPCODE, GETK_OPCODE,
    GETQ_OPCODE, GET_OPCODE, NOOP_OPCODE, REPLACEQ_OPCODE, REPLACE_OPCODE, SETQ_OPCODE, SET_OPCODE,
    VERSION_OPCODE,
};

verus! {

/// A request that can be turned into a packet: its opcode and the three parts
/// of its body. Taking a part out may leave the request without it.
pub trait Request {
    spec fn opcode_spec(&self) -> u8;

    spec fn extras_spec(&self) -> Seq<u8>;

    spec fn key_spec(&self) -> Seq<u8>;

    spec fn value_spec(&self) -> Seq<u8>;

    /// The opcode of the request.
    fn opcode(&self) -> (r: u8)
        ensures
            r == self.opcode_spec(),
    ;

    /// The extras of the request; it keeps them.
    fn extras(&mut self) -> (r: Vec<u8>)
        ensures
            r@ == old(self).extras_spec(),
            final(self).extras_spec() == old(self).extras_spec(),
            final(self).opcode_spec() == old(self).opcode_spec(),
            final(self).key_spec() == old(self).key_spec(),
            final(self).value_spec() == old(self).value_spec(),
    ;

    /// Takes out the key of the request, leaving it without one.
    fn key(&mut self) -> (r: Vec<u8>)
        ensures
            r@ == old(self).key_spec(),
            final(self).key_spec() == Seq::<u8>::empty(),
            final(self).opcode_spec() == old(self).opcode_spec(),
            final(self).extras_spec() == old(self).extras_spec(),
            final(self).value_spec() == old(self).value_spec(),
    ;

    /// Takes out the value of the request, leaving it without one.
    fn value(&mut self) -> (r: Vec<u8>)
        ensures
            r@ == old(self).value_spec(),
            final(self).value_spec() == Seq::<u8>::empty(),
            final(self).opcode_spec() == old(self).opcode_spec(),
            final(self).extras_spec() == old(self).extras_spec(),
            final(self).key_spec() == old(self).key_spec(),
    ;
}

/// Moves the bytes out of `v`, leaving it empty.
fn take_bytes(v: &mut Vec<u8>) -> (r: Vec<u8>)
    ensures
        r@ == old(v)@,
        final(v)@ == Seq::<u8>::empty(),
{
    let mut r: Vec<u8> = Vec::new();
    std::mem::swap(v, &mut r);
    r
}

impl Packet {
    /// The packet of a request, its header filled in from its parts. The
    /// key and the value move into the packet and leave the request empty of
    /// them; its opcode and extras stay.
    pub fn from_request<R: Request>(req: &mut R) -> (r: Result<Packet, ProtocolError>)
        ensures
            built_request(
                r,
                old(req).opcode_spec(),
                old(req).extras_spec(),
                old(req).key_spec(),
                old(req).value_spec(),
            ),
            final(req).key_spec() == Seq::<u8>::empty(),
            final(req).value_spec() == Seq::<u8>::empty(),
            final(req).opcode_spec() == old(req).opcode_spec(),
            final(req).extras_spec() == old(req).extras_spec(),
    {
        let key = req.key();
        let extras = req.extras();
        let value = req.value();
        let opcode = req.opcode();
        Packet::new_request(opcode, key.as_slice(), extras, value.as_slice())
    }
}

/// A request to look up the value under a key.
#[derive(Debug)]
pub struct GetRequest {
    pub opcode: u8,
    pub key: Vec<u8>,
}

impl GetRequest {
    /// A `get`: a reply comes on a hit and on a miss.
    pub fn new(key: Vec<u8>) -> (r: Self)
        ensures
            r.opcode == GET_OPCODE,
            r.key == key,
    {
        GetRequest { opcode: GET_OPCODE, key }
    }

    /// A `getk`: a reply comes on a hit and on a miss, and holds the key.
    pub fn new_k(key: Vec<u8>) -> (r: Self)
        ensures
            r.opcode == GETK_OPCODE,
            r.key == key,
    {
        GetRequest { opcode: GETK_OPCODE, key }
    }

    /// A quiet `getq`: no reply comes on a miss.
    pub fn new_q(key: Vec<u8>) -> (r: Self)
        ensures
            r.opcode == GETQ_OPCODE,
            r.key == key,
    {
        GetRequest { opcode: GETQ_OPCODE, key }
    }

    /// A quiet `getkq`: no reply comes on a miss, and a hit holds the key.
    pub fn new_kq(key: Vec<u8>) -> (r: Self)
        ensures
            r.opcode == GETKQ_OPCODE,
            r.key == key,
    {
        GetRequest { opcode: GETKQ_OPCODE, key }
    }
}

impl Request for GetRequest {
    open spec fn opcode_spec(&self) -> u8 {
        self.opcode
    }

    open spec fn extras_spec(&self) -> Seq<u8> {
        seq![]
    }

    open spec fn key_spec(&self) -> Seq<u8> {
        self.key@
    }

    open spec fn value_spec(&self) -> Seq<u8> {
        seq![]
    }

    fn opcode(&self) -> (r: u8) {
        self.opcode
    }

    fn extras(&mut self) -> (r: Vec<u8>) {
        Vec::new()
    }

    fn key(&mut self) -> (r: Vec<u8>) {
        take_bytes(&mut self.key)
    }

    fn value(&mut self) -> (r: Vec<u8>) {
        Vec::new()
    }
}

/// A request to store a value under a key, to expire after `expire` seconds.
#[derive(Debug)]
pub struct SetRequest {
    pub opcode: u8,
    pub key: Vec<u8>,
    pub value: Vec<u8>,
    pub expire: u32,
}

impl SetRequest {
    /// A `set`: stores the value whatever the key held.
    pub fn new(key: Vec<u8>, value: Vec<u8>, expire: u32) -> (r: Self)
        ensures
            r == (SetRequest { opcode: SET_OPCODE, key, value, expire }),
    {
        SetRequest { opcode: SET_OPCODE, key, value, expire }
    }

    /// A quiet `setq`: as `set`, with a reply only on failure.
    pub fn new_q(key: Vec<u8>, value: Vec<u8>, expire: u32) -> (r: Self)
        ensures
            r == (SetRequest { opcode: SETQ_OPCODE, key, value, expire }),
    {
        SetRequest { opcode: SETQ_OPCODE, key, value, expire }
    }

    /// An `add`: stores the value only if the key holds none.
    pub fn new_add(key: Vec<u8>, value: Vec<u8>, expire: u32) -> (r: Self)
        ensures
            r == (SetRequest { opcode: ADD_OPCODE, key, value, expire }),
    {
        SetRequest { opcode: ADD_OPCODE, key, value, expire }
    }

    /// A quiet `addq`: as `add`, with a reply only on failure.
    pub fn new_add_q(key: Vec<u8>, value: Vec<u8>, expire: u32) -> (r: Self)
        ensures
            r == (SetRequest { opcode: ADDQ_OPCODE, key, value, expire }),
    {
        SetRequest { opcode: ADDQ_OPCODE, key, value, expire }
    }

    /// A `replace`: stores the value only if the key already holds one.
    pub fn new_replace(key: Vec<u8>, value: Vec<u8>, expire: u32) -> (r: Self)
        ensures
            r == (SetRequest { opcode: REPLACE_OPCODE, key, value, expire }),
    {
        SetRequest { opcode: REPLACE_OPCODE, key, value, expire }
    }

    /// A quiet `replaceq`: as `replace`, with a reply only on failure.
    pub fn new_replace_q(key: Vec<u8>, value: Vec<u8>, expire: u32) -> (r: Self)
        ensures
            r == (SetRequest { opcode: REPLACEQ_OPCODE, key, value, expire }),
    {
        SetRequest { opcode: REPLACEQ_OPCODE, key, value, expire }
    }
}

impl Request for SetRequest {
    open spec fn opcode_spec(&self) -> u8 {
        self.opcode
    }

    /// Zero flags, then the expiry.
    open spec fn extras_spec(&self) -> Seq<u8> {
        (SetExtras { flags: 0, expire: self.expire }).wire()
    }

    open spec fn key_spec(&self) -> Seq<u8> {
        self.key@
    }

    open spec fn value_spec(&self) -> Seq<u8> {
        self.value@
    }

    fn opcode(&self) -> (r: u8) {
        self.opcode
    }

    fn extras(&mut self) -> (r: Vec<u8>) {
        SetExtras::new(0, self.expire).to_bytes()
    }

    fn key(&mut self) -> (r: Vec<u8>) {
        take_bytes(&mut self.key)
    }

    fn value(&mut self) -> (r: Vec<u8>) {
        take_bytes(&mut self.value)
    }
}

/// A request without key or value: a `noop`, or a `version` query.
#[derive(Debug)]
pub struct NoopRequest {
    pub opcode: u8,
}

impl NoopRequest {
    /// A `noop`, which the server answers at once; a keep-alive.
    pub fn new() -> (r: Self)
        ensures
            r.opcode == NOOP_OPCODE,
    {
        NoopRequest { opcode: NOOP_OPCODE }
    }

    /// A request for the server's version.
    pub fn new_version() -> (r: Self)
        ensures
            r.opcode == VERSION_OPCODE,
    {
        NoopRequest { opcode: VERSION_OPCODE }
    }
}

impl Request for NoopRequest {
    open spec fn opcode_spec(&self) -> u8 {
        self.opcode
    }

    open spec fn extras_spec(&self) -> Seq<u8> {
        seq![]
    }

    open spec fn key_spec(&self) -> Seq<u8> {
        seq![]
    }

    open spec fn value_spec(&self) -> Seq<u8> {
        seq![]
    }

    fn opcode(&self) -> (r: u8) {
        self.opcode
    }

    fn extras(&mut self) -> (r: Vec<u8>) {
        Vec::new()
    }

    fn key(&mut self) -> (r: Vec<u8>) {
        Vec::new()
    }

    fn value(&mut self) -> (r: Vec<u8>) {
        Vec::new()
    }
}

} // verus!
