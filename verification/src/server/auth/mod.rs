use vstd::prelude::*;
use vstd::string::StringExecFns;
use vstd::utf8::{decode_utf8, valid_utf8};

use crate::libs::connect::connect::{
    uuid_to_string, ConnectState, PlayerConnect, PlayerInfo, NIL_UUID,
};
use crate::libs::connect::connect;
use crate::libs::connect::package::{BufferIndex, ConnectPackage};
use crate::libs::varint;
use crate::libs::varint::parse_varint;

pub mod status;

verus! {

/// What the listening loop of a connection does with the outcome of reading its next
/// package.
#[derive(PartialEq, Eq, Structural, Clone, Copy, Debug)]
pub enum ListenAction {
    /// The player went away (an empty package): shut the proxy connection down and stop;
    /// `announce` says whether to log the disconnect.
    Disconnect { announce: bool },
    /// Hand the package to the status exchange, then read on.
    HandleStatus,
    /// Nothing handles packages in this state: stop.
    Stop,
    /// Reading failed: stop; `as_error` says whether to report it as an error rather than
    /// as information.
    ReadFailed { as_error: bool },
}

/// Why a handshake was refused.
#[derive(PartialEq, Eq, Structural, Clone, Copy, Debug)]
pub enum HandshakeError {
    /// The first packet is not a handshake (its id is not 0).
    NotHandshake,
    /// The protocol version is not a readable varint.
    UnknownVersion,
    /// The packet ends before the length of the target address.
    NoHostLength,
    /// The target address is 48 bytes or longer.
    HostTooLong,
    /// The packet ends before the requested state.
    NoNextState,
    /// The requested state is neither status (1) nor login (2).
    UnknownNextState,
}

/// The byte at `i`, or `default` past the end.
pub open spec fn byte_or(pkg: Seq<u8>, i: int, default: u8) -> u8 {
    if 0 <= i < pkg.len() {
        pkg[i]
    } else {
        default
    }
}

/// Where the target address of a handshake lies (start and end), for a packet that gets
/// that far: id 0, a readable version, and an address length below 48.
pub open spec fn host_span(pkg: Seq<u8>) -> Option<(int, int)> {
    if byte_or(pkg, 0, 1) != 0 {
        None
    } else {
        match varint::decode_varint(varint::bytes_from(pkg, 1)) {
            None => None,
            Some((v, k)) => {
                let h = 1 + k as int;
                if h >= pkg.len() || pkg[h as int] >= 48 {
                    None
                } else {
                    Some((h + 1, h + 1 + pkg[h as int]))
                }
            },
        }
    }
}

/// Whether a handshake packet can be read at all: if it gets as far as its target
/// address, the address lies inside the packet and is valid UTF-8.
pub open spec fn handshake_defined(pkg: Seq<u8>) -> bool {
    match host_span(pkg) {
        Some((s, e)) => e <= pkg.len() && valid_utf8(pkg.subrange(s, e)),
        None => true,
    }
}

/// What a handshake packet says (protocol version, target address as bytes, target port,
/// state to go on in), or why it is refused.
///
/// The packet is: id 0 (a missing id counts as 1), the protocol version as a varint (kept
/// to its low 16 bits), one byte with the length of the target address (below 48), the
/// address, the port as two big-endian bytes (a missing byte counts as 0), and the state
/// to go on in: 1 for status, 2 for login through the proxy.
pub open spec fn handshake_outcome(pkg: Seq<u8>) -> Result<(u16, Seq<u8>, u16, ConnectState), HandshakeError> {
    if byte_or(pkg, 0, 1) != 0 {
        Err(HandshakeError::NotHandshake)
    } else {
        match varint::decode_varint(varint::bytes_from(pkg, 1)) {
            None => Err(HandshakeError::UnknownVersion),
            Some((v, k)) => {
                let h = 1 + k as int;
                if h >= pkg.len() {
                    Err(HandshakeError::NoHostLength)
                } else if pkg[h as int] >= 48 {
                    Err(HandshakeError::HostTooLong)
                } else {
                    let s = h + 1;
                    let e = s + pkg[h as int];
                    let port = (byte_or(pkg, e, 0) * 256 + byte_or(pkg, e + 1, 0)) as u16;
                    let host = pkg.subrange(s, e);
                    if e + 2 >= pkg.len() {
                        Err(HandshakeError::NoNextState)
                    } else if pkg[e + 2] == 1 {
                        Ok((v as u16, host, port, ConnectState::Status))
                    } else if pkg[e + 2] == 2 {
                        Ok((v as u16, host, port, ConnectState::Proxy))
                    } else {
                        Err(HandshakeError::UnknownNextState)
                    }
                }
            },
        }
    }
}

/// The address of a client as it is recorded: its peer address, or a placeholder when
/// the address is not known.
pub open spec fn client_ip_text(client_ip: Option<String>) -> Seq<char> {
    match client_ip {
        Some(ip) => ip@,
        None => "露米娅不知道哦<Unknown>"@,
    }
}

/// The address of a client as it is recorded: `client_ip`, or a placeholder when the
/// address is not known.
pub fn client_ip_or_unknown(client_ip: Option<String>) -> (text: String)
    ensures
        text@ == client_ip_text(client_ip),
{
    match client_ip {
        Some(ip) => ip,
        None => String::from_str("露米娅不知道哦<Unknown>"),
    }
}

/// Decodes `bytes` as UTF-8 with `std::str::from_utf8` and copies the text.
///
/// Trusted, not proved: `from_utf8` succeeds exactly on valid UTF-8 (vstd's
/// `valid_utf8`), and the text is what the bytes encode (vstd's `decode_utf8`).
#[verifier::external_body]
fn utf8_to_string(bytes: &[u8]) -> (text: Option<String>)
    ensures
        text is Some <==> valid_utf8(bytes@),
        text matches Some(t) ==> t@ == decode_utf8(bytes@),
{
    match std::str::from_utf8(bytes) {
        Ok(s) => Some(s.to_string()),
        Err(_) => None,
    }
}

/// Where the address of a handshake starts and how long it is, if the packet gets that
/// far; otherwise why it is refused.
fn read_host_span(pkg: &Vec<u8>) -> (result: Result<(u16, usize, u8), HandshakeError>)
    ensures
        match handshake_outcome(pkg@) {
            Err(e) => (e == HandshakeError::NotHandshake || e == HandshakeError::UnknownVersion
                || e == HandshakeError::NoHostLength || e == HandshakeError::HostTooLong)
                ==> result == Err::<(u16, usize, u8), HandshakeError>(e),
            Ok(_) => true,
        },
        result is Ok <==> host_span(pkg@) is Some,
        result matches Ok((version, s, len)) ==> {
            &&& host_span(pkg@) == Some((s as int, s + len))
            &&& s <= pkg.len()
            &&& len < 48
            &&& varint::decode_varint(varint::bytes_from(pkg@, 1)) matches Some((v, k))
            &&& version == v as u16
            &&& s == 2 + k
        },
{
    let mut package_index = BufferIndex(0);
    let package_id = if package_index.get() < pkg.len() {
        pkg[0]
    } else {
        1
    };
    if package_id != 0 {
        return Err(HandshakeError::NotHandshake);
    }
    proof {
        varint::lemma_decode_len(varint::bytes_from(pkg@, 1));
    }
    let client_version = match parse_varint(pkg.as_slice(), &mut package_index) {
        Some(i) => i as u16,
        None => {
            return Err(HandshakeError::UnknownVersion);
        },
    };
    let h = package_index.0;
    if h >= pkg.len() {
        return Err(HandshakeError::NoHostLength);
    }
    let target_host_len = pkg[h];
    if target_host_len >= 48 {
        return Err(HandshakeError::HostTooLong);
    }
    Ok((client_version, h + 1, target_host_len))
}

impl PlayerConnect {
    /// Decides what the listening loop does with `received`: the package read from the
    /// player, or `None` when reading failed.
    ///
    /// Only connections in the status state report their disconnects and read errors
    /// loudly, and only they hand packages on.
    pub fn listen(&self, received: Option<&ConnectPackage>) -> (action: ListenAction)
        ensures
            action == match received {
                Some(package) => if package.package@.len() == 0 {
                    ListenAction::Disconnect { announce: self.state == ConnectState::Status }
                } else if self.state == ConnectState::Status {
                    ListenAction::HandleStatus
                } else {
                    ListenAction::Stop
                },
                None => ListenAction::ReadFailed { as_error: self.state == ConnectState::Status },
            },
    {
        match received {
            Some(package) => {
                if package.package.is_empty() {
                    ListenAction::Disconnect { announce: self.state == ConnectState::Status }
                } else {
                    match self.state {
                        ConnectState::Status => ListenAction::HandleStatus,
                        _ => ListenAction::Stop,
                    }
                }
            },
            None => ListenAction::ReadFailed { as_error: self.state == ConnectState::Status },
        }
    }

    /// Whether the handshake in `package` can be read (see `handshake_defined`); a
    /// handshake that cannot be read ends the connection.
    pub fn handshake_defined(package: &ConnectPackage) -> (defined: bool)
        ensures
            defined == handshake_defined(package.package@),
    {
        let pkg = &package.package;
        match read_host_span(pkg) {
            Ok((_, s, len)) => {
                if len as usize > pkg.len() - s {
                    return false;
                }
                utf8_to_string(&pkg.as_slice()[s..s + len as usize]).is_some()
            },
            Err(_) => true,
        }
    }

    /// Reads the handshake that opens a connection from a client at `client_ip`.
    ///
    /// An accepted handshake gives the connection its player (a nil UUID, named by it,
    /// with the client's address, version and target) and its state; compression is off,
    /// and the handshake frame is kept as it was received.
    pub fn shake_hands(package: ConnectPackage, client_ip: Option<String>) -> (result: Result<
        PlayerConnect,
        HandshakeError,
    >)
        requires
            handshake_defined(package.package@),
        ensures
            match handshake_outcome(package.package@) {
                Err(e) => result == Err::<PlayerConnect, HandshakeError>(e),
                Ok((version, host, port, state)) => result matches Ok(c) && {
                    &&& c.state == state
                    &&& !c.zlib_enable
                    &&& c.shake_hands_package@ == package.original_package@
                    &&& c.player_info matches Some(info) && {
                        &&& info.player_id == NIL_UUID
                        &&& info.player_name@ == "00000000-0000-0000-0000-000000000000"@
                        &&& info.client_ip@ == client_ip_text(client_ip)
                        &&& info.client_version == version
                        &&& info.target_host@ == decode_utf8(host)
                        &&& info.target_port == port
                    }
                },
            },
    {
        let player_id = NIL_UUID;
        let player_name = uuid_to_string(player_id);
        proof {
            connect::nil_uuid_text();
        }
        let client_ip = client_ip_or_unknown(client_ip);
        let shake_hands_package = package.original_package;
        let pkg = package.package;
        let (client_version, s, len) = match read_host_span(&pkg) {
            Ok(span) => span,
            Err(e) => {
                return Err(e);
            },
        };
        let e = s + len as usize;
        let target_host = utf8_to_string(&pkg.as_slice()[s..e]).unwrap();
        let high = if e < pkg.len() {
            pkg[e]
        } else {
            0
        };
        let low = if e < pkg.len() && e + 1 < pkg.len() {
            pkg[e + 1]
        } else {
            0
        };
        let target_port = (high as u16) * 256 + low as u16;
        if !(e < pkg.len() && e + 1 < pkg.len() && e + 2 < pkg.len()) {
            return Err(HandshakeError::NoNextState);
        }
        let state = match pkg[e + 2] {
            1 => ConnectState::Status,
            2 => ConnectState::Proxy,
            _ => {
                return Err(HandshakeError::UnknownNextState);
            },
        };
        let player_info = PlayerInfo {
            player_name,
            player_id,
            client_ip,
            client_version,
            target_host,
            target_port,
        };
        Ok(PlayerConnect {
            shake_hands_package,
            player_info: Some(player_info),
            zlib_enable: false,
            state,
        })
    }
}

/// A handshake packet as a client writes it: id 0, the protocol version as a varint, one
/// byte with the length of the target address, the address, the port in two big-endian
/// bytes, the state to go on in, then whatever else the packet holds.
pub open spec fn handshake_packet(
    version: u64,
    host: Seq<u8>,
    port: u16,
    next_state: u8,
    more: Seq<u8>,
) -> Seq<u8> {
    seq![0u8] + varint::varint_bytes(version as nat) + seq![host.len() as u8] + host + seq![
        (port / 256) as u8,
        (port % 256) as u8,
        next_state,
    ] + more
}

/// A handshake is refused as too long exactly when its address is 48 bytes or more. One
/// with a shorter address can be read when the address is valid UTF-8, and then gives
/// the client's version (its low 16 bits), that address, that port and the state asked
/// for; a state other than status (1) or login (2) is refused.
pub proof fn handshake_address_limit(
    version: u64,
    host: Seq<u8>,
    port: u16,
    next_state: u8,
    more: Seq<u8>,
)
    requires
        host.len() < 256,
    ensures
        ({
            let pkg = handshake_packet(version, host, port, next_state, more);
            &&& host.len() >= 48 ==> handshake_defined(pkg) && handshake_outcome(pkg) == Err::<
                (u16, Seq<u8>, u16, ConnectState),
                HandshakeError,
            >(HandshakeError::HostTooLong)
            &&& host.len() < 48 ==> (handshake_defined(pkg) <==> valid_utf8(host))
            &&& host.len() < 48 && next_state == 1 ==> handshake_outcome(pkg) == Ok::<
                (u16, Seq<u8>, u16, ConnectState),
                HandshakeError,
            >((version as u16, host, port, ConnectState::Status))
            &&& host.len() < 48 && next_state == 2 ==> handshake_outcome(pkg) == Ok::<
                (u16, Seq<u8>, u16, ConnectState),
                HandshakeError,
            >((version as u16, host, port, ConnectState::Proxy))
            &&& host.len() < 48 && next_state != 1 && next_state != 2 ==> handshake_outcome(pkg)
                == Err::<(u16, Seq<u8>, u16, ConnectState), HandshakeError>(
                HandshakeError::UnknownNextState,
            )
        }),
{
    let pkg = handshake_packet(version, host, port, next_state, more);
    let e = varint::varint_bytes(version as nat);
    let hi = (port / 256) as u8;
    let lo = (port % 256) as u8;
    let after = seq![host.len() as u8] + host + seq![hi, lo, next_state] + more;
    assert(pkg =~= seq![0u8] + e + after);
    varint::varint_roundtrip(seq![0u8], version, after);
    let h: int = 1 + e.len() as int;
    assert(pkg[h] == host.len() as u8);
    let s: int = h + 1;
    let t: int = s + host.len();
    assert(pkg.subrange(s, t) =~= host);
    assert(pkg[t] == hi);
    assert(pkg[t + 1] == lo);
    assert(pkg[t + 2] == next_state);
    assert(hi as int * 256 + lo as int == port as int);
}

} // verus!
