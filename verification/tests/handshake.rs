use pixelroxy::libs::connect::connect::{ConnectState, PlayerConnect, PlayerInfo};
use pixelroxy::libs::connect::package::ConnectPackage;
use pixelroxy::server::auth::status::{listen, StatusAction};
use pixelroxy::server::auth::{HandshakeError, ListenAction};

fn package(bytes: Vec<u8>) -> ConnectPackage {
    let mut original = vec![bytes.len() as u8];
    original.extend(bytes.iter());
    ConnectPackage { package_len: bytes.len(), package: bytes, original_package: original }
}

fn handshake_bytes(host: &[u8], port: [u8; 2], state: u8) -> Vec<u8> {
    let mut bytes = vec![0x00, 0x2f, host.len() as u8];
    bytes.extend_from_slice(host);
    bytes.extend_from_slice(&port);
    bytes.push(state);
    bytes
}

fn shake(bytes: Vec<u8>) -> Result<PlayerConnect, HandshakeError> {
    let p = package(bytes);
    assert!(PlayerConnect::handshake_defined(&p));
    PlayerConnect::shake_hands(p, Some(String::from("10.0.0.1:4000")))
}

#[test]
fn status_handshake_accepted() {
    let bytes = handshake_bytes(b"localhost", [0x63, 0xdd], 1);
    let original = package(bytes.clone()).original_package;
    let c = shake(bytes).unwrap();
    assert_eq!(c.state, ConnectState::Status);
    assert!(!c.zlib_enable);
    assert_eq!(c.shake_hands_package, original);
    let info = c.player_info.unwrap();
    assert_eq!(info.player_id, 0);
    assert_eq!(info.player_name, "00000000-0000-0000-0000-000000000000");
    assert_eq!(info.client_ip, "10.0.0.1:4000");
    assert_eq!(info.client_version, 47);
    assert_eq!(info.target_host, "localhost");
    assert_eq!(info.target_port, 25565);
}

#[test]
fn login_handshake_accepted() {
    let c = shake(handshake_bytes("例子.cn".as_bytes(), [0x00, 0x01], 2)).unwrap();
    assert_eq!(c.state, ConnectState::Proxy);
    let info = c.player_info.unwrap();
    assert_eq!(info.target_host, "例子.cn");
    assert_eq!(info.target_port, 1);
}

#[test]
fn handshake_version_kept_to_sixteen_bits() {
    let mut bytes = vec![0x00, 0x81, 0x80, 0x04, 0x01, b'a'];
    bytes.extend_from_slice(&[0, 0, 1]);
    let info = shake(bytes).unwrap().player_info.unwrap();
    assert_eq!(info.client_version, 1);
}

#[test]
fn handshake_unknown_address() {
    let c = PlayerConnect::shake_hands(package(handshake_bytes(b"a", [0, 1], 1)), None).unwrap();
    assert_eq!(c.player_info.unwrap().client_ip, "露米娅不知道哦<Unknown>");
}

#[test]
fn handshake_errors() {
    assert_eq!(shake(vec![]).err(), Some(HandshakeError::NotHandshake));
    assert_eq!(shake(vec![0x01, 0x2f]).err(), Some(HandshakeError::NotHandshake));
    assert_eq!(shake(vec![0x00]).err(), Some(HandshakeError::UnknownVersion));
    assert_eq!(shake(vec![0x00, 0x80]).err(), Some(HandshakeError::UnknownVersion));
    assert_eq!(shake(vec![0x00, 0x2f]).err(), Some(HandshakeError::NoHostLength));
    assert_eq!(shake(vec![0x00, 0x2f, 48]).err(), Some(HandshakeError::HostTooLong));
    assert_eq!(shake(vec![0x00, 0x2f, 1, b'a']).err(), Some(HandshakeError::NoNextState));
    assert_eq!(shake(vec![0x00, 0x2f, 1, b'a', 0, 1]).err(), Some(HandshakeError::NoNextState));
    assert_eq!(shake(handshake_bytes(b"a", [0, 1], 3)).err(), Some(HandshakeError::UnknownNextState));
}

#[test]
fn handshake_port_from_missing_bytes_is_zero() {
    // the state byte is missing as well, so the port never matters
    assert_eq!(shake(vec![0x00, 0x2f, 1, b'a', 0x12]).err(), Some(HandshakeError::NoNextState));
}

#[test]
fn handshake_undefined_inputs() {
    assert!(!PlayerConnect::handshake_defined(&package(vec![0x00, 0x2f, 5, b'a'])));
    assert!(!PlayerConnect::handshake_defined(&package(vec![0x00, 0x2f, 1, 0xff, 0, 0, 1])));
    assert!(PlayerConnect::handshake_defined(&package(vec![0x01])));
    assert!(PlayerConnect::handshake_defined(&package(vec![0x00, 0x2f, 48, b'a'])));
}

fn status_connection(state: ConnectState) -> PlayerConnect {
    PlayerConnect {
        shake_hands_package: vec![],
        player_info: Some(PlayerInfo {
            player_name: String::from("00000000-0000-0000-0000-000000000000"),
            player_id: 0,
            client_ip: String::from("10.0.0.1:4000"),
            client_version: 47,
            target_host: String::from("localhost"),
            target_port: 25565,
        }),
        zlib_enable: false,
        state,
    }
}

#[test]
fn listen_decisions() {
    let status = status_connection(ConnectState::Status);
    let proxy = status_connection(ConnectState::Proxy);
    let empty = package(vec![]);
    let full = package(vec![0]);
    assert_eq!(status.listen(Some(&empty)), ListenAction::Disconnect { announce: true });
    assert_eq!(proxy.listen(Some(&empty)), ListenAction::Disconnect { announce: false });
    assert_eq!(status.listen(Some(&full)), ListenAction::HandleStatus);
    assert_eq!(proxy.listen(Some(&full)), ListenAction::Stop);
    assert_eq!(status.listen(None), ListenAction::ReadFailed { as_error: true });
    assert_eq!(proxy.listen(None), ListenAction::ReadFailed { as_error: false });
}

#[test]
fn status_listen_decisions() {
    assert!(matches!(listen(&package(vec![0]), false), StatusAction::SendMotd));
    assert!(matches!(listen(&package(vec![1, 9, 9]), true), StatusAction::Forward));
    match listen(&package(vec![1, 9, 9]), false) {
        StatusAction::Echo(frame) => assert_eq!(frame, vec![3, 1, 9, 9]),
        other => panic!("unexpected {:?}", other),
    }
    assert!(matches!(listen(&package(vec![5]), false), StatusAction::Ignore));
    assert!(matches!(listen(&package(vec![]), true), StatusAction::Ignore));
}

#[test]
fn motd_request_bytes() {
    let request = status_connection(ConnectState::Status).send_motd();
    let mut expected = vec![22u8, 0x00, 0x2f, 0x10];
    expected.extend_from_slice(b"play.hypixel.net");
    expected.extend_from_slice(&[0x63, 0xdd, 0x01, 0x01, 0x00]);
    assert_eq!(request, expected);
}

#[test]
fn motd_request_is_an_accepted_handshake() {
    for version in [0u16, 47, 127, 128, 765, 65535] {
        let mut c = status_connection(ConnectState::Status);
        c.player_info.as_mut().unwrap().client_version = version;
        let request = c.send_motd();
        let len = request[0] as usize;
        let body = request[1..1 + len].to_vec();
        let p = pixelroxy::libs::connect::package::get_package(body, false).unwrap();
        assert!(PlayerConnect::handshake_defined(&p));
        let accepted = PlayerConnect::shake_hands(p, None).unwrap();
        assert_eq!(accepted.state, ConnectState::Status);
        let info = accepted.player_info.unwrap();
        assert_eq!(info.client_version, version);
        assert_eq!(info.target_host, "play.hypixel.net");
        assert_eq!(info.target_port, 25565);
    }
}
