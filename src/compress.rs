use vstd::prelude::*;

use crate::error::Error;
use crate::packet::{Packet, PacketModel};

verus! {

/// `q` keeps what a compressor may not touch in `p`: the opcode, the key,
/// and the lengths of the key and of the extras.
pub open spec fn keeps_identity(p: PacketModel, q: PacketModel) -> bool {
    &&& q.header.opcode == p.header.opcode
    &&& q.key == p.key
    &&& q.header.key_length == p.header.key_length
    &&& q.header.extras_length == p.header.extras_length
    &&& q.extras.len() == p.extras.len()
}

/// A transform of packet values at the edge of the wire: `compress` before a
/// packet is written, `decompress` after one is read. The first byte of the
/// extras marks a compressed value.
pub trait Compressor {
    /// What `compress` makes of `p` when it succeeds.
    spec fn compressed(&self, p: PacketModel) -> PacketModel;

    /// What `decompress` makes of `p` when it succeeds.
    spec fn decompressed(&self, p: PacketModel) -> PacketModel;

    /// `decompress` gives `p` back from what `compress` made of it.
    spec fn restores(&self, p: PacketModel) -> bool;

    /// `compress` cannot fail on `p`.
    spec fn compresses_surely(&self, p: PacketModel) -> bool;

    /// `decompress` cannot fail on `p`.
    spec fn decompresses_surely(&self, p: PacketModel) -> bool;

    /// What `decompress` makes of `p` fits the header's length fields; it
    /// fails otherwise.
    spec fn decompress_fits(&self, p: PacketModel) -> bool;

    fn compress(&self, packet: Packet) -> (r: Result<Packet, Error>)
        ensures
            r matches Ok(q) ==> q@ == self.compressed(packet@) && keeps_identity(packet@, q@),
            self.compresses_surely(packet@) ==> r is Ok,
    ;

    /// Undoes `compress`: on a packet that `compress` made of `p`, where
    /// `restores(p)`, the result is `p` again.
    fn decompress(&self, packet: Packet) -> (r: Result<Packet, Error>)
        ensures
            r matches Ok(q) ==> q@ == self.decompressed(packet@) && keeps_identity(packet@, q@),
            self.decompresses_surely(packet@) ==> r is Ok,
            r is Ok ==> self.decompress_fits(packet@),
            forall|p: PacketModel|
                self.restores(p) && #[trigger] self.compressed(p) == packet@ ==> (r matches Ok(q)
                    && q@ == p),
    ;
}

/// A compressor that leaves every packet as it is.
#[derive(Debug, Clone, Copy)]
pub struct NoCompressor;

impl Compressor for NoCompressor {
    open spec fn compressed(&self, p: PacketModel) -> PacketModel {
        p
    }

    open spec fn decompressed(&self, p: PacketModel) -> PacketModel {
        p
    }

    open spec fn restores(&self, p: PacketModel) -> bool {
        true
    }

    open spec fn compresses_surely(&self, p: PacketModel) -> bool {
        true
    }

    open spec fn decompresses_surely(&self, p: PacketModel) -> bool {
        true
    }

    open spec fn decompress_fits(&self, p: PacketModel) -> bool {
        true
    }

    fn compress(&self, packet: Packet) -> (r: Result<Packet, Error>) {
        Ok(packet)
    }

    fn decompress(&self, packet: Packet) -> (r: Result<Packet, Error>) {
        Ok(packet)
    }
}

} // verus!
