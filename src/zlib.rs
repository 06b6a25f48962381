use vstd::prelude::*;

use crate::compress::Compressor;
use crate::error::{Error, ProtocolError};
use crate::packet::{Packet, PacketModel};

verus! {

/// The zlib stream that flate2's encoder makes of `data` at `level`.
pub uninterp spec fn zlib_deflate(level: u32, data: Seq<u8>) -> Seq<u8>;

/// The bytes that flate2's decoder makes of the zlib stream `data`.
pub uninterp spec fn zlib_inflate(data: Seq<u8>) -> Seq<u8>;

/// Relies on `flate2::write::ZlibEncoder` at `flate2::Compression::new(level)`
/// (`write_all`, then `finish`): the zlib stream of `data`, which depends on
/// the level and the bytes alone. flate2's backends accept levels up to 9.
/// Writing into a `Vec` cannot fail, and the encoder reports an error only for
/// an internal stream fault, which a well-formed compressor state never has.
#[verifier::external_body]
fn deflate(level: u32, data: &[u8]) -> (r: Result<Vec<u8>, std::io::Error>)
    requires
        level <= 9,
    ensures
        r matches Ok(v) ==> v@ == zlib_deflate(level, data@),
        r is Ok,
{
    let mut enc = flate2::write::ZlibEncoder::new(Vec::new(), flate2::Compression::new(level));
    std::io::Write::write_all(&mut enc, data)?;
    enc.finish()
}

/// Relies on `flate2::write::ZlibDecoder` (`write_all`, then `finish`): the
/// bytes that the zlib stream `data` encodes. zlib is lossless: a stream that
/// the encoder made of some bytes decodes to those bytes.
#[verifier::external_body]
fn inflate(data: &[u8]) -> (r: Result<Vec<u8>, std::io::Error>)
    ensures
        r matches Ok(v) ==> v@ == zlib_inflate(data@),
        (exists|made: (u32, Seq<u8>)| made.0 <= 9 && data@ == #[trigger] zlib_deflate(made.0, made.1))
            ==> r is Ok,
        r matches Ok(v) ==> forall|made: (u32, Seq<u8>)|
            made.0 <= 9 && data@ == #[trigger] zlib_deflate(made.0, made.1) ==> v@ == made.1,
{
    let mut dec = flate2::write::ZlibDecoder::new(Vec::new());
    std::io::Write::write_all(&mut dec, data)?;
    dec.finish()
}

/// Values shorter than this are left uncompressed by the default compressor.
pub const DEFAULT_MIN_BYTES: usize = 128;

/// The compression level of the default compressor.
pub const DEFAULT_LEVEL: u32 = 6;

/// A compressor that zlib-compresses values of at least `min_bytes` bytes.
#[derive(Debug, Clone, Copy)]
pub struct ZlibCompressor {
    level: u32,
    min_bytes: usize,
}

/// The first byte of the extras marks the value as compressed.
pub open spec fn marked(p: PacketModel) -> bool {
    p.extras.len() > 0 && p.extras[0] == 1
}

/// A body with this header's key and extras lengths and a value of `value_len`
/// bytes fits the 32-bit body length.
pub open spec fn body_fits(p: PacketModel, value_len: int) -> bool {
    p.header.key_length as int + p.header.extras_length as int + value_len <= u32::MAX
}

/// `p` with its value replaced by `value`, the body length updated and the
/// compression marker set to `marker`.
pub open spec fn with_value(p: PacketModel, value: Seq<u8>, marker: u8) -> PacketModel {
    PacketModel {
        header: crate::packet::Header {
            body_len: (p.header.key_length as int + p.header.extras_length as int + value.len()) as u32,
            ..p.header
        },
        extras: p.extras.update(0, marker),
        key: p.key,
        value,
    }
}

impl ZlibCompressor {
    #[verifier::type_invariant]
    spec fn inv(self) -> bool {
        self.level <= 9
    }

    /// The zlib compression level, from 0 (none) to 9 (best).
    pub closed spec fn level(self) -> u32 {
        self.level
    }

    /// The shortest value that gets compressed.
    pub closed spec fn min_bytes(self) -> usize {
        self.min_bytes
    }

    /// A compressor at `level` for values of at least `min_bytes` bytes.
    pub fn new(level: u32, min_bytes: usize) -> (r: Self)
        requires
            level <= 9,
        ensures
            r.level() == level,
            r.min_bytes() == min_bytes,
    {
        ZlibCompressor { level, min_bytes }
    }

    /// `compress` compresses `p`: it has extras to hold the marker, its value
    /// is long enough, and the compressed body fits the header.
    pub open spec fn packs(self, p: PacketModel) -> bool {
        &&& p.extras.len() > 0
        &&& p.value.len() >= self.min_bytes()
        &&& body_fits(p, zlib_deflate(self.level(), p.value).len() as int)
    }
}

impl Default for ZlibCompressor {
    fn default() -> (r: Self)
        ensures
            r.level() == DEFAULT_LEVEL,
            r.min_bytes() == DEFAULT_MIN_BYTES,
    {
        ZlibCompressor::new(DEFAULT_LEVEL, DEFAULT_MIN_BYTES)
    }
}

/// A marked packet that `compress` made of a packet it restores was
/// compressed: its value is the zlib stream of the original value, whose
/// marker byte was clear.
proof fn lemma_marked_source(c: ZlibCompressor, p: PacketModel, q: PacketModel)
    requires
        c.restores(p),
        c.compressed(p) == q,
        marked(q),
    ensures
        c.packs(p),
        q.value == zlib_deflate(c.level(), p.value),
        p.extras[0] == 0,
{
}

impl Compressor for ZlibCompressor {
    open spec fn compressed(&self, p: PacketModel) -> PacketModel {
        if self.packs(p) {
            with_value(p, zlib_deflate(self.level(), p.value), 1)
        } else {
            p
        }
    }

    open spec fn decompressed(&self, p: PacketModel) -> PacketModel {
        if marked(p) {
            with_value(p, zlib_inflate(p.value), 0)
        } else {
            p
        }
    }

    /// A well-formed packet that does not already carry the marker, and whose
    /// marker byte is clear where it gets compressed.
    open spec fn restores(&self, p: PacketModel) -> bool {
        &&& p.wf()
        &&& !marked(p)
        &&& self.packs(p) ==> p.extras[0] == 0
    }

    /// Every packet: one with no extras to hold the marker, or with a value
    /// too short, or whose compressed body would not fit the header, is left
    /// as it is.
    open spec fn compresses_surely(&self, p: PacketModel) -> bool {
        true
    }

    /// Packets without the marker, which are left as they are.
    open spec fn decompresses_surely(&self, p: PacketModel) -> bool {
        !marked(p)
    }

    /// A marked packet decompresses only when the decompressed body fits
    /// the header.
    open spec fn decompress_fits(&self, p: PacketModel) -> bool {
        marked(p) ==> body_fits(p, zlib_inflate(p.value).len() as int)
    }

    fn compress(&self, packet: Packet) -> (r: Result<Packet, Error>) {
        proof {
            use_type_invariant(self);
        }
        if packet.extras.len() == 0 || packet.value.len() < self.min_bytes {
            return Ok(packet);
        }
        let out = match deflate(self.level, packet.value.as_slice()) {
            Ok(v) => v,
            Err(e) => return Err(Error::IoError(e)),
        };
        let fixed = packet.header.key_length as usize + packet.header.extras_length as usize;
        if out.len() > 0xffff_ffff - fixed {
            return Ok(packet);
        }
        let mut packet = packet;
        packet.header.body_len = (fixed + out.len()) as u32;
        packet.extras.set(0, 1);
        packet.value = out;
        Ok(packet)
    }

    fn decompress(&self, packet: Packet) -> (r: Result<Packet, Error>) {
        proof {
            use_type_invariant(self);
        }
        if packet.extras.len() == 0 || packet.extras[0] != 1 {
            return Ok(packet);
        }
        let ghost before = packet@;
        let inflated = inflate(packet.value.as_slice());
        proof {
            assert forall|p: PacketModel|
                self.restores(p) && #[trigger] self.compressed(p) == before implies (
                inflated matches Ok(v) && v@ == p.value) by {
                lemma_marked_source(*self, p, before);
                let made = (self.level(), p.value);
                assert(before.value == zlib_deflate(made.0, made.1));
            }
        }
        let out = match inflated {
            Ok(v) => v,
            Err(e) => {
                return Err(Error::IoError(e));
            },
        };
        let fixed = packet.header.key_length as usize + packet.header.extras_length as usize;
        if out.len() > 0xffff_ffff - fixed {
            return Err(Error::Protocol(ProtocolError::PacketTooLarge));
        }
        let mut packet = packet;
        packet.header.body_len = (fixed + out.len()) as u32;
        packet.extras.set(0, 0);
        packet.value = out;
        proof {
            assert(packet@.extras =~= before.extras.update(0, 0));
            assert forall|p: PacketModel|
                self.restores(p) && #[trigger] self.compressed(p) == before implies packet@ == p by {
                lemma_marked_source(*self, p, before);
                assert(p.extras.update(0, 1).update(0, 0) =~= p.extras);
                assert(packet@.header == p.header);
            }
        }
        Ok(packet)
    }
}

} // verus!
