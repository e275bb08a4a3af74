use vstd::prelude::*;
use vstd::utf8::{decode_utf8, encode_utf8, is_ascii_chars, is_ascii_chars_encode_utf8};

use crate::libs::connect::connect::{ConnectState, PlayerConnect};
use crate::libs::connect::package;
use crate::libs::connect::package::ConnectPackage;
use crate::libs::connect::packet;
use crate::libs::connect::packet::{pack, prepend_length};
use crate::libs::varint;
use crate::libs::varint::encode_varint;
use crate::server::auth;

verus! {

/// What the status exchange does with a package from the player.
#[derive(Debug)]
pub enum StatusAction {
    /// A status request (id 0): ask the upstream server for its server-list entry.
    SendMotd,
    /// A ping (id 1) while connected upstream: pass the frame on and relay the answer.
    Forward,
    /// A ping with no upstream connection: answer with this frame, the ping itself.
    Echo(Vec<u8>),
    /// Any other package: nothing to do.
    Ignore,
}

/// The handshake that the proxy sends upstream on behalf of a client, after the protocol
/// version: address "play.hypixel.net", port 25565, next state status.
pub open spec fn upstream_handshake_tail() -> Seq<u8> {
    seq![
        0x10u8, 0x70, 0x6c, 0x61, 0x79, 0x2e, 0x68, 0x79, 0x70, 0x69, 0x78, 0x65, 0x6c, 0x2e,
        0x6e, 0x65, 0x74, 0x63, 0xdd, 0x01,
    ]
}

/// What the proxy sends upstream to fetch the server-list entry for a client of protocol
/// `version`: the handshake frame (packet 0, uncompressed), then the status request frame.
pub open spec fn motd_request(version: u16) -> Seq<u8> {
    packet::packed(varint::varint_bytes(version as nat) + upstream_handshake_tail(), 0, false)
        + seq![1u8, 0u8]
}

impl PlayerConnect {
    /// The bytes to send upstream to fetch the server-list entry for this connection's
    /// client.
    pub fn send_motd(&self) -> (request: Vec<u8>)
        requires
            self.player_info is Some,
        ensures
            request@ == motd_request(self.player_info->0.client_version),
    {
        let version = match &self.player_info {
            Some(info) => info.client_version,
            None => 0,
        };
        let mut shake_hand_package = encode_varint(version as usize);
        let mut tail = vec![
            0x10u8, 0x70, 0x6c, 0x61, 0x79, 0x2e, 0x68, 0x79, 0x70, 0x69, 0x78, 0x65, 0x6c, 0x2e,
            0x6e, 0x65, 0x74, 0x63, 0xdd, 0x01,
        ];
        assert(tail@ =~= upstream_handshake_tail());
        shake_hand_package.append(&mut tail);
        pack(&mut shake_hand_package, 0, false);
        let mut status_request = vec![1u8, 0u8];
        assert(status_request@ =~= seq![1u8, 0u8]);
        shake_hand_package.append(&mut status_request);
        shake_hand_package
    }
}

/// Decides what to do with a package that arrived in the status state, `has_proxy` saying
/// whether the connection upstream is open. The exchange always goes on afterwards.
pub fn listen(pak: &ConnectPackage, has_proxy: bool) -> (action: StatusAction)
    ensures
        ({
            let id = auth::byte_or(pak.package@, 0, 2);
            &&& id == 0 ==> action is SendMotd
            &&& id == 1 && has_proxy ==> action is Forward
            &&& id == 1 && !has_proxy ==> (action matches StatusAction::Echo(frame) && frame@
                == packet::length_prefixed(pak.package@))
            &&& id != 0 && id != 1 ==> action is Ignore
        }),
{
    let package_id = if pak.package.len() > 0 {
        pak.package[0]
    } else {
        2
    };
    if package_id == 0 {
        return StatusAction::SendMotd;
    }
    if package_id == 1 {
        if has_proxy {
            return StatusAction::Forward;
        }
        let mut packet = vstd::slice::slice_to_vec(pak.package.as_slice());
        prepend_length(&mut packet);
        return StatusAction::Echo(packet);
    }
    StatusAction::Ignore
}

/// The handshake that the proxy sends upstream for a client is one that this library
/// itself accepts: its frame decodes (uncompressed) to a handshake that gives the client's
/// protocol version, the address `play.hypixel.net`, port 25565 and the status state.
pub proof fn upstream_handshake_accepted(version: u16)
    ensures
        ({
            let data = seq![0u8] + varint::varint_bytes(version as nat) + upstream_handshake_tail();
            let frame = packet::packed(
                varint::varint_bytes(version as nat) + upstream_handshake_tail(),
                0,
                false,
            );
            &&& motd_request(version).take(frame.len() as int) == frame
            &&& varint::decode_varint(frame) matches Some((len, m))
            &&& len == frame.len() - m
            &&& package::unpacked(frame.subrange(m as int, frame.len() as int), false, None) == data
            &&& auth::handshake_defined(data)
            &&& auth::handshake_outcome(data) matches Ok((v, host, port, state))
            &&& v == version
            &&& decode_utf8(host) == "play.hypixel.net"@
            &&& port == 25565
            &&& state == ConnectState::Status
        }),
{
    let tail = upstream_handshake_tail();
    let e = varint::varint_bytes(version as nat);
    let bytes = e + tail;
    let data = seq![0u8] + e + tail;
    let frame = packet::packed(bytes, 0, false);
    assert(seq![0u8] + bytes =~= data);
    varint::varint_roundtrip(seq![0u8], version as u64, tail);
    varint::lemma_decode_len(varint::bytes_from(data, 1));
    assert(frame.len() <= usize::MAX) by {
        varint::lemma_decode_len(frame);
        varint::varint_roundtrip(Seq::empty(), data.len() as u64, data);
        assert(varint::bytes_from(Seq::<u8>::empty() + varint::varint_bytes(data.len()) + data, 0)
            =~= frame);
    }
    packet::frame_roundtrip(bytes, 0, false);
    assert(motd_request(version).take(frame.len() as int) =~= frame);
    let k = e.len();
    assert(k <= 10);
    let h: int = 1 + k as int;
    assert(data[h] == 0x10u8);
    let host = data.subrange(h + 1, h + 17);
    assert(host =~= tail.subrange(1, 17));
    reveal_strlit("play.hypixel.net");
    let name = "play.hypixel.net"@;
    assert(is_ascii_chars(name));
    is_ascii_chars_encode_utf8(name);
    assert(host =~= encode_utf8(name));
    vstd::utf8::encode_utf8_valid_utf8(name);
    vstd::utf8::encode_utf8_decode_utf8(name);
    assert(data[h + 17] == 0x63u8);
    assert(data[h + 18] == 0xddu8);
    assert(data[h + 19] == 0x01u8);
}

/// After the handshake frame, what goes upstream to fetch the server-list entry is the
/// status request and nothing else: a single frame that announces one byte and carries
/// packet id 0 with an empty body. It is the same for every protocol version.
pub proof fn status_request_follows_handshake(version: u16, other: u16)
    ensures
        ({
            let frame = packet::packed(
                varint::varint_bytes(version as nat) + upstream_handshake_tail(),
                0,
                false,
            );
            let request = motd_request(version);
            let rest = request.subrange(frame.len() as int, request.len() as int);
            let other_frame = packet::packed(
                varint::varint_bytes(other as nat) + upstream_handshake_tail(),
                0,
                false,
            );
            let other_request = motd_request(other);
            &&& request.take(frame.len() as int) == frame
            &&& rest.len() == 2
            &&& varint::decode_varint(rest) == Some((1u64, 1nat))
            &&& rest[1] == 0
            &&& package::unpacked(rest.subrange(1, 2), false, None) == seq![0u8]
            &&& other_request.subrange(other_frame.len() as int, other_request.len() as int)
                == rest
        }),
{
    let frame = packet::packed(
        varint::varint_bytes(version as nat) + upstream_handshake_tail(),
        0,
        false,
    );
    let request = motd_request(version);
    let rest = request.subrange(frame.len() as int, request.len() as int);
    assert(request.take(frame.len() as int) =~= frame);
    assert(rest =~= seq![1u8, 0u8]);
    let other_frame = packet::packed(
        varint::varint_bytes(other as nat) + upstream_handshake_tail(),
        0,
        false,
    );
    let other_request = motd_request(other);
    assert(other_request.subrange(other_frame.len() as int, other_request.len() as int)
        =~= seq![1u8, 0u8]);
    assert(varint::varint_bytes(1) =~= seq![1u8]);
    varint::varint_roundtrip(Seq::empty(), 1, seq![0u8]);
    assert(varint::bytes_from(Seq::<u8>::empty() + varint::varint_bytes(1) + seq![0u8], 0)
        =~= rest);
    assert(rest.subrange(1, 2) =~= seq![0u8]);
}

} // verus!
