use vstd::prelude::*;
use vstd::slice::slice_to_vec;

use crate::libs::varint;
use crate::libs::varint::{encode_varint, parse_varint};
use crate::libs::zlib;
use crate::libs::zlib::zlib_decompress;

verus! {

/// A read position inside a byte buffer.
pub struct BufferIndex(pub usize);

impl BufferIndex {
    /// Returns the current position and moves one byte forward.
    pub fn get(&mut self) -> (result: usize)
        requires
            old(self).0 < usize::MAX,
        ensures
            result == old(self).0,
            final(self).0 == old(self).0 + 1,
    {
        let result = self.0;
        self.0 += 1;
        result
    }

    /// Returns the current position and moves `len` bytes forward.
    pub fn get_len(&mut self, len: usize) -> (result: usize)
        requires
            old(self).0 + len <= usize::MAX,
        ensures
            result == old(self).0,
            final(self).0 == old(self).0 + len,
    {
        let result = self.0;
        self.0 += len;
        result
    }

    /// Returns the current position without moving.
    pub fn just_get(&mut self) -> (result: usize)
        ensures
            result == old(self).0,
            final(self).0 == old(self).0,
    {
        self.0
    }

    /// Moves to `target`.
    pub fn set(&mut self, target: usize)
        ensures
            final(self).0 == target,
    {
        self.0 = target
    }
}

/// A packet as it came off the connection.
#[derive(Debug)]
pub struct ConnectPackage {
    /// The length that the frame announced.
    pub package_len: usize,
    /// The packet itself, uncompressed.
    pub package: Vec<u8>,
    /// The whole frame as it was received: length prefix and body.
    pub original_package: Vec<u8>,
}

/// Where the compressed data of a compressed frame starts, after a data-length field of
/// `k` bytes that announced `n` uncompressed bytes.
pub open spec fn compressed_start(n: u64, k: nat) -> nat {
    if n == 0 {
        k + 1
    } else {
        k
    }
}

/// Whether decoding `body` needs the decompressor: compression is on and the body starts
/// with a data-length field.
pub open spec fn needs_inflate(body: Seq<u8>, zlib_enable: bool) -> bool {
    zlib_enable && varint::decode_varint(body) is Some
}

/// The part of a compressed body that is handed to the decompressor.
pub open spec fn compressed_part(body: Seq<u8>) -> Seq<u8> {
    match varint::decode_varint(body) {
        Some((n, k)) => varint::bytes_from(body, compressed_start(n, k) as int),
        None => Seq::empty(),
    }
}

/// Whether the compressed part of `body` lies inside it.
pub open spec fn compressed_part_in_bounds(body: Seq<u8>, zlib_enable: bool) -> bool {
    needs_inflate(body, zlib_enable) ==> match varint::decode_varint(body) {
        Some((n, k)) => compressed_start(n, k) <= body.len(),
        None => true,
    }
}

/// The packet that a frame body yields, given what the decompressor made of its
/// compressed part.
///
/// Without compression the body is the packet. With compression the body starts with the
/// uncompressed length `n`; the inflated data is the packet when it has exactly that
/// length; otherwise a body that announced length 0 yields the bytes after the length
/// field, and any other body yields nothing. A body without a readable length yields
/// nothing.
pub open spec fn unpacked(body: Seq<u8>, zlib_enable: bool, inflated: Option<Seq<u8>>) -> Seq<u8> {
    if !zlib_enable {
        body
    } else {
        match varint::decode_varint(body) {
            None => Seq::empty(),
            Some((n, k)) => {
                if inflated is Some && inflated->0.len() == (n as usize) as int {
                    inflated->0
                } else if n == 0 {
                    body.subrange(k as int, body.len() as int)
                } else {
                    Seq::empty()
                }
            },
        }
    }
}

/// The frame as received, as it is recorded: the length prefix and the body, except for a
/// compressed frame whose body has no readable length, which records nothing.
pub open spec fn received_frame(body: Seq<u8>, zlib_enable: bool) -> Seq<u8> {
    if zlib_enable && varint::decode_varint(body) is None {
        Seq::empty()
    } else {
        varint::varint_bytes(body.len()) + body
    }
}

/// Builds the package from a frame body of `body.len()` bytes, given the decompressor's
/// result `inflated` for the compressed part (only looked at when the body needs it).
pub fn package_from_parts(body: Vec<u8>, zlib_enable: bool, inflated: Option<Vec<u8>>) -> (result:
    ConnectPackage)
    requires
        compressed_part_in_bounds(body@, zlib_enable),
        needs_inflate(body@, zlib_enable) ==> inflated is Some,
    ensures
        result.package_len == body.len(),
        result.package@ == unpacked(
            body@,
            zlib_enable,
            match inflated {
                Some(v) => Some(v@),
                None => None,
            },
        ),
        result.original_package@ == received_frame(body@, zlib_enable),
{
    let package_len = body.len();
    let mut original_package = encode_varint(package_len);
    let mut copy = slice_to_vec(body.as_slice());
    original_package.append(&mut copy);
    if zlib_enable {
        let mut index = BufferIndex(0);
        assert(varint::bytes_from(body@, 0) =~= body@);
        match parse_varint(body.as_slice(), &mut index) {
            Some(len) => {
                let k = index.0;
                let mut package: Vec<u8> = Vec::new();
                if len == 0 {
                    package = slice_to_vec(&body.as_slice()[k..package_len]);
                }
                let unzlib_package = match inflated {
                    Some(v) => v,
                    None => Vec::new(),
                };
                if unzlib_package.len() == len as usize {
                    package = unzlib_package;
                }
                ConnectPackage { package_len, package, original_package }
            },
            None => ConnectPackage { package_len, package: Vec::new(), original_package: Vec::new() },
        }
    } else {
        ConnectPackage { package_len, package: body, original_package }
    }
}

/// Decodes a frame body of `body.len()` bytes into a package.
///
/// Gives nothing exactly where the connection cannot go on: a compressed body whose
/// compressed part starts past its end, or whose compressed part does not inflate.
pub fn get_package(body: Vec<u8>, zlib_enable: bool) -> (result: Option<ConnectPackage>)
    ensures
        result is Some <==> compressed_part_in_bounds(body@, zlib_enable) && (needs_inflate(
            body@,
            zlib_enable,
        ) ==> zlib::zlib_decompressed(compressed_part(body@)) is Some),
        result matches Some(p) ==> {
            &&& p.package_len == body.len()
            &&& p.package@ == unpacked(body@, zlib_enable, zlib::zlib_decompressed(compressed_part(body@)))
            &&& p.original_package@ == received_frame(body@, zlib_enable)
        },
{
    if zlib_enable {
        let mut index = BufferIndex(0);
        assert(varint::bytes_from(body@, 0) =~= body@);
        proof {
            varint::lemma_decode_len(body@);
        }
        if let Some(len) = parse_varint(body.as_slice(), &mut index) {
            let k = index.0;
            let start = if len == 0 {
                if k >= body.len() {
                    return None;
                }
                k + 1
            } else {
                k
            };
            let inflated = zlib_decompress(&body.as_slice()[start..body.len()]);
            assert(body@.subrange(start as int, body.len() as int) == compressed_part(body@));
            if inflated.is_none() {
                return None;
            }
            return Some(package_from_parts(body, zlib_enable, inflated));
        }
    }
    Some(package_from_parts(body, zlib_enable, None))
}

/// Reads the varint at the head of a stream one byte at a time.
///
/// Its view is the bytes taken so far, all of which announced that more follow.
pub struct VarintReader {
    result: u64,
    shift: u32,
    taken: Ghost<Seq<u8>>,
}

/// What a `VarintReader` makes of the next event of the stream: a byte, or the end of
/// the stream.
pub enum VarintFeed {
    /// The number needs more bytes: go on with this reader.
    More(VarintReader),
    /// The number is complete.
    Value(u64),
    /// Ten bytes went by and the number has not ended.
    TooLong,
    /// The stream ended first.
    Closed,
}

/// What feeding an event to a reader gives, by value: the bytes taken for `More`.
pub enum FeedView {
    More(Seq<u8>),
    Value(u64),
    TooLong,
    Closed,
}

impl View for VarintFeed {
    type V = FeedView;

    open spec fn view(&self) -> FeedView {
        match self {
            VarintFeed::More(reader) => FeedView::More(reader@),
            VarintFeed::Value(v) => FeedView::Value(*v),
            VarintFeed::TooLong => FeedView::TooLong,
            VarintFeed::Closed => FeedView::Closed,
        }
    }
}

/// One step of reading a varint from a stream, after the bytes `taken` (all of which
/// announced that more follow): the end of the stream closes it; a byte without the
/// continuation bit completes the number; the tenth byte with it makes the number too
/// long; any other byte is taken.
pub open spec fn feed_view(taken: Seq<u8>, event: Option<u8>) -> FeedView {
    match event {
        None => FeedView::Closed,
        Some(byte) => {
            let t = taken.push(byte);
            if !varint::continues(byte) {
                FeedView::Value((varint::group_value(t) % 0x1_0000_0000_0000_0000nat) as u64)
            } else if t.len() >= 10 {
                FeedView::TooLong
            } else {
                FeedView::More(t)
            }
        },
    }
}

/// Feeding the bytes of `stream` one at a time to a reader that has taken `taken`, until
/// it stops asking for more (the stream ending after the last byte): the outcome and how
/// many bytes of `stream` were consumed.
pub open spec fn read_stream(taken: Seq<u8>, stream: Seq<u8>) -> (FeedView, nat)
    decreases stream.len(),
{
    if stream.len() == 0 {
        (FeedView::Closed, 0)
    } else {
        match feed_view(taken, Some(stream[0])) {
            FeedView::More(t) => {
                let (outcome, consumed) = read_stream(t, stream.drop_first());
                (outcome, consumed + 1)
            },
            other => (other, 1),
        }
    }
}

proof fn lemma_read_stream(taken: Seq<u8>, stream: Seq<u8>)
    requires
        taken.len() <= 9,
        forall|k: int| 0 <= k < taken.len() ==> varint::continues(#[trigger] taken[k]),
    ensures
        ({
            let (outcome, consumed) = read_stream(taken, stream);
            &&& consumed <= stream.len()
            &&& !(outcome is More)
            &&& (outcome matches FeedView::Value(v) ==> varint::decode_varint(taken + stream)
                == Some((v, taken.len() + consumed)))
            &&& (varint::decode_varint(taken + stream) matches Some((v, n)) ==> outcome
                == FeedView::Value(v) && n == taken.len() + consumed)
            &&& (outcome is TooLong <==> (taken.len() + consumed == 10 && forall|k: int|
                0 <= k < consumed ==> varint::continues(#[trigger] stream[k])))
            &&& (outcome is Closed <==> (consumed == stream.len() && taken.len() + stream.len()
                < 10 && forall|k: int|
                0 <= k < stream.len() ==> varint::continues(#[trigger] stream[k])))
        }),
    decreases stream.len(),
{
    let whole = taken + stream;
    assert forall|k: int| 0 <= k < taken.len() implies varint::continues(#[trigger] whole[k]) by {
        assert(whole[k] == taken[k]);
    }
    varint::lemma_varint_end_skip(whole, 0, taken.len());
    if stream.len() == 0 {
        assert(whole =~= taken);
    } else {
        let b = stream[0];
        let t = taken.push(b);
        assert(whole[taken.len() as int] == b);
        if !varint::continues(b) {
            assert(whole.take(taken.len() + 1int) =~= t);
        } else if t.len() >= 10 {
            assert forall|k: int| 0 <= k < 10 implies varint::continues(#[trigger] whole[k]) by {
                if k < taken.len() {
                    assert(whole[k] == taken[k]);
                }
            }
            varint::lemma_varint_end_skip(whole, 0, 10);
        } else {
            let rest = stream.drop_first();
            assert forall|k: int| 0 <= k < t.len() implies varint::continues(#[trigger] t[k]) by {
                if k < taken.len() {
                    assert(t[k] == taken[k]);
                }
            }
            lemma_read_stream(t, rest);
            assert(t + rest =~= whole);
            let (outcome, consumed) = read_stream(t, rest);
            assert forall|k: int| 0 <= k < consumed + 1 && k != 0 implies (
            varint::continues(#[trigger] stream[k]) == varint::continues(rest[k - 1])) by {
                assert(stream[k] == rest[k - 1]);
            }
            if outcome is TooLong {
                assert forall|k: int| 0 <= k < consumed + 1 implies varint::continues(
                    #[trigger] stream[k],
                ) by {
                    if k > 0 {
                        assert(stream[k] == rest[k - 1]);
                    }
                }
            }
            if outcome is Closed {
                assert forall|k: int| 0 <= k < stream.len() implies varint::continues(
                    #[trigger] stream[k],
                ) by {
                    if k > 0 {
                        assert(stream[k] == rest[k - 1]);
                    }
                }
            }
            if forall|k: int| 0 <= k < consumed + 1 ==> varint::continues(#[trigger] stream[k]) {
                assert forall|k: int| 0 <= k < consumed implies varint::continues(
                    #[trigger] rest[k],
                ) by {
                    assert(stream[k + 1] == rest[k]);
                }
            }
            if forall|k: int| 0 <= k < stream.len() ==> varint::continues(#[trigger] stream[k]) {
                assert forall|k: int| 0 <= k < rest.len() implies varint::continues(
                    #[trigger] rest[k],
                ) by {
                    assert(stream[k + 1] == rest[k]);
                }
            }
        }
    }
}

/// Reading the number at the head of a stream with a new `VarintReader`, one byte at a
/// time, agrees with `parse_varint`: it ends in `Value(v)` exactly when the stream starts
/// with a varint of value `v`, having consumed exactly that varint's bytes; in `TooLong`
/// exactly when the first ten bytes all announce more, having consumed those ten; and
/// otherwise in `Closed`, when the stream ends first. It never reads past where it ends.
pub proof fn read_stream_decodes(stream: Seq<u8>)
    ensures
        ({
            let (outcome, consumed) = read_stream(Seq::empty(), stream);
            &&& consumed <= stream.len()
            &&& !(outcome is More)
            &&& (outcome matches FeedView::Value(v) ==> varint::decode_varint(stream) == Some(
                (v, consumed),
            ))
            &&& (varint::decode_varint(stream) matches Some((v, n)) ==> outcome == FeedView::Value(
                v,
            ) && n == consumed)
            &&& (outcome is TooLong <==> (consumed == 10 && forall|k: int|
                0 <= k < 10 ==> varint::continues(#[trigger] stream[k])))
            &&& (outcome is Closed <==> (consumed == stream.len() && stream.len() < 10 && forall|k: int|
                0 <= k < stream.len() ==> varint::continues(#[trigger] stream[k])))
        }),
{
    lemma_read_stream(Seq::empty(), stream);
    assert(Seq::<u8>::empty() + stream =~= stream);
}

/// Whatever follows a varint in the stream, reading it consumes exactly its bytes and
/// gives its value.
pub proof fn read_stream_stops_at_varint(s: Seq<u8>, rest: Seq<u8>, v: u64)
    requires
        varint::decode_varint(s) == Some((v, s.len())),
    ensures
        read_stream(Seq::empty(), s + rest) == (FeedView::Value(v), s.len()),
{
    varint::lemma_decode_prefix(s, rest);
    read_stream_decodes(s + rest);
}

impl View for VarintReader {
    type V = Seq<u8>;

    closed spec fn view(&self) -> Seq<u8> {
        self.taken@
    }
}

impl VarintReader {
    #[verifier::type_invariant]
    spec fn inv(self) -> bool {
        &&& self.taken@.len() <= 9
        &&& forall|k: int| 0 <= k < self.taken@.len() ==> varint::continues(#[trigger] self.taken@[k])
        &&& self.result == varint::group_value(self.taken@)
        &&& self.shift == 7 * self.taken@.len()
        &&& (1u64 << self.shift) == varint::place(self.taken@.len())
    }

    /// A reader that has taken nothing yet.
    pub fn new() -> (reader: Self)
        ensures
            reader@ == Seq::<u8>::empty(),
    {
        proof {
            assert((1u64 << 0u32) == 1) by (bit_vector);
            assert(varint::group_value(Seq::<u8>::empty()) == 0);
            assert(varint::place(0) == 1);
        }
        VarintReader { result: 0, shift: 0, taken: Ghost(Seq::empty()) }
    }

    /// Takes the next event of the stream: `Some(byte)` for a byte, `None` for its end.
    ///
    /// Reading agrees with `parse_varint`: a number is complete exactly when the bytes
    /// taken so far decode as a varint that ends at this byte, and it is too long exactly
    /// when no bytes that follow could make them decode.
    pub fn feed(self, event: Option<u8>) -> (outcome: VarintFeed)
        ensures
            outcome@ == feed_view(self@, event),
            match event {
                None => outcome is Closed,
                Some(byte) => {
                    let taken = self@.push(byte);
                    if !varint::continues(byte) {
                        &&& varint::decode_varint(taken) matches Some((v, n))
                        &&& n == taken.len()
                        &&& outcome == VarintFeed::Value(v)
                    } else if taken.len() == 10 {
                        &&& outcome is TooLong
                        &&& forall|rest: Seq<u8>| #[trigger] varint::decode_varint(taken + rest) is None
                    } else {
                        &&& outcome matches VarintFeed::More(reader)
                        &&& reader@ == taken
                    }
                },
            },
    {
        proof {
            use_type_invariant(&self);
        }
        match event {
            None => VarintFeed::Closed,
            Some(byte) => {
                let ghost taken = self.taken@.push(byte);
                proof {
                    varint::lemma_accumulate(self.result, self.shift, self.taken@, byte);
                }
                let result = self.result | (((byte & 0x7F) as u64) << self.shift);
                let shift = self.shift + 7;
                if byte & 0x80 == 0 {
                    proof {
                        varint::lemma_varint_end_skip(taken, 0, self.taken@.len());
                        assert(taken.take(taken.len() as int) =~= taken);
                        if taken.len() <= 9 {
                            varint::lemma_decode_len(taken);
                        }
                    }
                    return VarintFeed::Value(result);
                }
                if shift >= 64 {
                    proof {
                        assert forall|rest: Seq<u8>| #[trigger]
                            varint::decode_varint(taken + rest) is None by {
                            let t = taken + rest;
                            assert forall|k: int| 0 <= k < 10 implies varint::continues(#[trigger] t[k]) by {
                                assert(t[k] == taken[k]);
                            }
                            varint::lemma_varint_end_skip(t, 0, 10);
                        }
                    }
                    return VarintFeed::TooLong;
                }
                VarintFeed::More(VarintReader { result, shift, taken: Ghost(taken) })
            },
        }
    }
}

/// What reading a frame does with the length that starts it.
#[derive(Debug)]
pub enum FrameStart {
    /// An empty frame: read the next length.
    Skip,
    /// The stream ended: this is the package that reports it.
    Ended(ConnectPackage),
    /// Read a body of this many bytes.
    Read(usize),
}

/// Decides what to do with the length `package_len` read at the start of a frame; the
/// largest length stands for the end of the stream.
pub fn frame_start(package_len: usize) -> (start: FrameStart)
    ensures
        package_len == 0 ==> start is Skip,
        package_len == usize::MAX ==> (start matches FrameStart::Ended(p) && p.package_len
            == usize::MAX && p.package@.len() == 0 && p.original_package@.len() == 0),
        0 < package_len < usize::MAX ==> start == FrameStart::Read(package_len),
{
    if package_len == 0 {
        FrameStart::Skip
    } else if package_len == usize::MAX {
        FrameStart::Ended(ConnectPackage { package_len, package: Vec::new(), original_package: Vec::new() })
    } else {
        FrameStart::Read(package_len)
    }
}

} // verus!
