use vstd::prelude::*;
use vstd::string::StringExecFns;

use crate::libs::connect::package;
use crate::libs::connect::package::ConnectPackage;
use crate::libs::connect::packet;
use crate::libs::connect::packet::pack;
use crate::libs::text;
use crate::libs::text::push_decimal;
use crate::libs::zlib;

verus! {

/// What a connection is doing after its handshake.
#[derive(PartialEq, Eq, Structural, Clone, Copy, Debug)]
pub enum ConnectState {
    Status,
    Proxy,
    ShakeHands,
}

/// Who is on the other end of a connection, as its handshake told it.
#[derive(Clone)]
pub struct PlayerInfo {
    pub player_name: String,
    /// The player's UUID as a number, its bytes taken most significant first.
    pub player_id: u128,
    pub client_ip: String,
    pub client_version: u16,
    pub target_host: String,
    pub target_port: u16,
}

/// The nil UUID: all 128 bits zero.
pub const NIL_UUID: u128 = 0;

/// The hex digit for `d` (below 16), lowercase.
pub open spec fn hex_digit(d: u128) -> char {
    if d < 10 {
        (48 + d) as char
    } else {
        (87 + d) as char
    }
}

/// The `i`-th hex digit of a UUID, counting from the most significant one.
pub open spec fn uuid_nibble(id: u128, i: int) -> u128 {
    (id >> ((124 - 4 * i) as u128)) & 0xf
}

/// The text of a UUID: its 32 hex digits, lowercase and most significant first, in groups
/// of 8, 4, 4, 4 and 12 separated by hyphens.
pub open spec fn uuid_text(id: u128) -> Seq<char> {
    Seq::new(
        36,
        |c: int|
            if c == 8 || c == 13 || c == 18 || c == 23 {
                '-'
            } else {
                hex_digit(
                    uuid_nibble(
                        id,
                        if c < 8 {
                            c
                        } else if c < 13 {
                            c - 1
                        } else if c < 18 {
                            c - 2
                        } else if c < 23 {
                            c - 3
                        } else {
                            c - 4
                        },
                    ),
                )
            },
    )
}

/// The nil UUID reads as 32 zeros in the hyphenated form.
pub proof fn nil_uuid_text()
    ensures
        uuid_text(NIL_UUID) == "00000000-0000-0000-0000-000000000000"@,
{
    reveal_strlit("00000000-0000-0000-0000-000000000000");
    assert forall|x: u128| (0u128 >> x) & 0xf == 0 by {
        assert((0u128 >> x) & 0xf == 0) by (bit_vector);
    }
    assert(uuid_text(NIL_UUID) =~= "00000000-0000-0000-0000-000000000000"@);
}

/// The text of the UUID `id` (taken most significant byte first), by
/// `uuid::Uuid::from_u128(id).to_string()`.
///
/// Trusted, not proved: uuid's `Display` writes the hyphenated lowercase form, which is
/// `uuid_text(id)`.
#[verifier::external_body]
pub(crate) fn uuid_to_string(id: u128) -> (text: String)
    ensures
        text@ == uuid_text(id),
{
    uuid::Uuid::from_u128(id).to_string()
}

/// A connection with a player: everything about it but its sockets.
pub struct PlayerConnect {
    /// The handshake frame as the player sent it.
    pub shake_hands_package: Vec<u8>,
    pub player_info: Option<PlayerInfo>,
    pub zlib_enable: bool,
    pub state: ConnectState,
}

/// How a connection names its player in messages: a client that has not logged in (nil
/// UUID) by its address and protocol version, a player also by name, and a connection
/// without a handshake as unknown.
pub open spec fn player_label(info: Option<PlayerInfo>) -> Seq<char> {
    match info {
        Some(p) => if p.player_id == NIL_UUID {
            "客户端("@ + p.client_ip@ + " < "@ + text::decimal(p.client_version as nat) + ")"@
        } else {
            "玩家<"@ + p.player_name@ + ">("@ + p.client_ip@ + " < "@ + text::decimal(
                p.client_version as nat,
            ) + ")"@
        },
        None => "Unknown"@,
    }
}

impl PlayerConnect {
    /// Names the player of this connection for messages.
    pub fn get_player_info(&self) -> (label: String)
        ensures
            label@ == player_label(self.player_info),
    {
        match &self.player_info {
            Some(p_info) => {
                if p_info.player_id == NIL_UUID {
                    let mut label = String::from_str("客户端(");
                    label.append(p_info.client_ip.as_str());
                    label.append(" < ");
                    push_decimal(&mut label, p_info.client_version);
                    label.append(")");
                    label
                } else {
                    let mut label = String::from_str("玩家<");
                    label.append(p_info.player_name.as_str());
                    label.append(">(");
                    label.append(p_info.client_ip.as_str());
                    label.append(" < ");
                    push_decimal(&mut label, p_info.client_version);
                    label.append(")");
                    label
                }
            },
            None => String::from_str("Unknown"),
        }
    }

    /// Decodes a frame body that came from this connection, with its compression setting.
    pub fn get_package(&self, body: Vec<u8>) -> (result: Option<ConnectPackage>)
        ensures
            result is Some <==> package::compressed_part_in_bounds(body@, self.zlib_enable) && (
            package::needs_inflate(body@, self.zlib_enable) ==> zlib::zlib_decompressed(
                package::compressed_part(body@),
            ) is Some),
            result matches Some(p) ==> {
                &&& p.package_len == body.len()
                &&& p.package@ == package::unpacked(
                    body@,
                    self.zlib_enable,
                    zlib::zlib_decompressed(package::compressed_part(body@)),
                )
                &&& p.original_package@ == package::received_frame(body@, self.zlib_enable)
            },
    {
        package::get_package(body, self.zlib_enable)
    }

    /// Turns `bytes` into the frame that carries packet `packet_id` on this connection.
    pub fn send_pack(&self, bytes: &mut Vec<u8>, packet_id: u8)
        ensures
            final(bytes)@ == packet::packed(old(bytes)@, packet_id, self.zlib_enable),
    {
        pack(bytes, packet_id, self.zlib_enable);
    }
}

} // verus!
