use vstd::prelude::*;

use crate::libs::connect::package;
use crate::libs::varint;
use crate::libs::varint::encode_varint;
use crate::libs::zlib;
use crate::libs::zlib::{zlib_compress, COMPRESSION_LEVEL};

verus! {

/// `payload` preceded by its length as a varint.
pub open spec fn length_prefixed(payload: Seq<u8>) -> Seq<u8> {
    varint::varint_bytes(payload.len()) + payload
}

/// The frame that carries packet `packet_id` with body `bytes`.
///
/// The packet is the id followed by the body. Without compression the frame is the packet
/// with its length in front. With compression, a packet of more than 256 bytes is sent as
/// its uncompressed length followed by its zlib stream, and a smaller one as a zero
/// length followed by the packet itself; either way with the total length in front.
pub open spec fn packed(bytes: Seq<u8>, packet_id: u8, enable_zlib: bool) -> Seq<u8> {
    let data = seq![packet_id] + bytes;
    if enable_zlib {
        if data.len() > 256 {
            length_prefixed(
                varint::varint_bytes(data.len()) + zlib::zlib_compressed(data, COMPRESSION_LEVEL),
            )
        } else {
            length_prefixed(seq![0u8] + data)
        }
    } else {
        length_prefixed(data)
    }
}

/// Puts the length of `bytes` in front of them.
pub(crate) fn prepend_length(bytes: &mut Vec<u8>)
    ensures
        final(bytes)@ == length_prefixed(old(bytes)@),
{
    let mut framed = encode_varint(bytes.len());
    framed.append(bytes);
    *bytes = framed;
}

/// Turns `bytes` into the frame that carries packet `packet_id` with that body.
pub fn pack(bytes: &mut Vec<u8>, packet_id: u8, enable_zlib: bool)
    ensures
        final(bytes)@ == packed(old(bytes)@, packet_id, enable_zlib),
{
    let ghost data = seq![packet_id] + old(bytes)@;
    bytes.insert(0, packet_id);
    assert(bytes@ =~= data);
    if enable_zlib {
        if bytes.len() > 256 {
            let mut framed = encode_varint(bytes.len());
            let mut compressed = zlib_compress(bytes.as_slice(), COMPRESSION_LEVEL);
            framed.append(&mut compressed);
            prepend_length(&mut framed);
            *bytes = framed;
        } else {
            bytes.insert(0, 0);
            assert(bytes@ =~= seq![0u8] + data);
            prepend_length(bytes);
        }
    } else {
        prepend_length(bytes);
    }
}

/// A length-prefixed frame announces the length of what follows it and leaves exactly
/// that behind its prefix.
proof fn lemma_length_prefixed(p: Seq<u8>)
    requires
        p.len() <= u64::MAX,
    ensures
        varint::decode_varint(length_prefixed(p)) == Some(
            (p.len() as u64, varint::varint_bytes(p.len()).len()),
        ),
        length_prefixed(p).subrange(
            varint::varint_bytes(p.len()).len() as int,
            length_prefixed(p).len() as int,
        ) == p,
{
    let e = varint::varint_bytes(p.len());
    varint::varint_roundtrip(Seq::empty(), p.len() as u64, p);
    assert(Seq::<u8>::empty() + e + p =~= length_prefixed(p));
    assert(varint::bytes_from(length_prefixed(p), 0) =~= length_prefixed(p));
    assert(length_prefixed(p).subrange(e.len() as int, length_prefixed(p).len() as int) =~= p);
}

/// What `pack` sends, the package decoding gives back: the frame announces the length of
/// its body, and decoding that body yields the packet (id and body) and records the
/// frame as received.
///
/// With compression this holds when the decompressor inflates what the compressor made
/// (which `zlib_compress` promises for every stream it returns) and, for a packet of at
/// most 256 bytes, sent uncompressed, when its body after the id happens to inflate to
/// something non-empty; a small packet whose body does not inflate is one that the
/// receiving side cannot decode.
pub proof fn frame_roundtrip(bytes: Seq<u8>, packet_id: u8, enable_zlib: bool)
    requires
        bytes.len() < usize::MAX,
        packed(bytes, packet_id, enable_zlib).len() <= usize::MAX,
        enable_zlib && bytes.len() + 1 > 256 ==> zlib::zlib_decompressed(
            zlib::zlib_compressed(seq![packet_id] + bytes, COMPRESSION_LEVEL),
        ) == Some(seq![packet_id] + bytes),
        enable_zlib && bytes.len() + 1 <= 256 ==> (zlib::zlib_decompressed(bytes) matches Some(
            d,
        ) && d.len() != 0),
    ensures
        ({
            let frame = packed(bytes, packet_id, enable_zlib);
            let data = seq![packet_id] + bytes;
            &&& varint::decode_varint(frame) matches Some((len, m))
            &&& m <= frame.len()
            &&& len == frame.len() - m
            &&& package::compressed_part_in_bounds(frame.subrange(m as int, frame.len() as int), enable_zlib)
            &&& package::needs_inflate(frame.subrange(m as int, frame.len() as int), enable_zlib)
                ==> zlib::zlib_decompressed(package::compressed_part(frame.subrange(m as int, frame.len() as int))) is Some
            &&& package::unpacked(
                frame.subrange(m as int, frame.len() as int),
                enable_zlib,
                zlib::zlib_decompressed(package::compressed_part(frame.subrange(m as int, frame.len() as int))),
            ) == data
            &&& package::received_frame(frame.subrange(m as int, frame.len() as int), enable_zlib) == frame
        }),
{
    let data = seq![packet_id] + bytes;
    let frame = packed(bytes, packet_id, enable_zlib);
    assert(usize::MAX <= u64::MAX);
    if enable_zlib {
        if data.len() > 256 {
            let c = zlib::zlib_compressed(data, COMPRESSION_LEVEL);
            let e = varint::varint_bytes(data.len());
            let body = e + c;
            varint::varint_roundtrip(Seq::empty(), data.len() as u64, c);
            assert(varint::bytes_from(Seq::<u8>::empty() + e + c, 0) =~= body);
            assert(varint::bytes_from(body, e.len() as int) =~= c);
            lemma_length_prefixed(body);
        } else {
            let body = seq![0u8] + data;
            assert(varint::varint_bytes(0) =~= seq![0u8]);
            varint::varint_roundtrip(Seq::empty(), 0, data);
            assert(varint::bytes_from(Seq::<u8>::empty() + seq![0u8] + data, 0) =~= body);
            assert(varint::bytes_from(body, 2) =~= bytes);
            assert(body.subrange(1, body.len() as int) =~= data);
            lemma_length_prefixed(body);
        }
    } else {
        lemma_length_prefixed(data);
    }
}

} // verus!
