use pixelroxy::libs::connect::connect::{ConnectState, PlayerConnect, PlayerInfo};
use pixelroxy::libs::connect::package::{
    frame_start, get_package, package_from_parts, BufferIndex, ConnectPackage, FrameStart,
};
use pixelroxy::libs::connect::packet::pack;
use pixelroxy::libs::varint::{encode_varint, parse_varint};

fn split_frame(frame: &[u8]) -> Vec<u8> {
    let mut index = BufferIndex(0);
    let len = parse_varint(frame, &mut index).unwrap() as usize;
    let body = frame[index.0..].to_vec();
    assert_eq!(body.len(), len);
    body
}

#[test]
fn pack_without_compression() {
    let mut bytes = vec![1, 2, 3];
    pack(&mut bytes, 5, false);
    assert_eq!(bytes, vec![4, 5, 1, 2, 3]);
}

#[test]
fn pack_small_with_compression() {
    let mut bytes = vec![1, 2];
    pack(&mut bytes, 0, true);
    assert_eq!(bytes, vec![4, 0, 0, 1, 2]);
}

#[test]
fn pack_large_with_compression() {
    let original: Vec<u8> = (0..400u32).map(|i| (i % 7) as u8).collect();
    let mut bytes = original.clone();
    pack(&mut bytes, 3, true);
    let body = split_frame(&bytes);
    // uncompressed length 401, then a zlib stream that is not the packet itself
    assert_eq!(&body[..2], &encode_varint(401)[..]);
    assert_eq!(body[2], 0x78);
    assert!(body.len() < 401);
    let package = get_package(body, true).unwrap();
    let mut expected = vec![3u8];
    expected.extend(original);
    assert_eq!(package.package, expected);
    assert_eq!(package.original_package, bytes);
}

#[test]
fn frame_roundtrip_without_compression() {
    for size in [0usize, 1, 126, 127, 300, 20000] {
        let original: Vec<u8> = (0..size).map(|i| (i * 31 % 251) as u8).collect();
        let mut bytes = original.clone();
        pack(&mut bytes, 9, false);
        let body = split_frame(&bytes);
        let package = get_package(body, false).unwrap();
        let mut expected = vec![9u8];
        expected.extend(original);
        assert_eq!(package.package_len, expected.len());
        assert_eq!(package.package, expected);
        assert_eq!(package.original_package, bytes);
    }
}

#[test]
fn frame_roundtrip_with_compression() {
    for size in [256usize, 257, 1000, 70000] {
        let original: Vec<u8> = (0..size).map(|i| (i * 17 % 13) as u8).collect();
        let mut bytes = original.clone();
        pack(&mut bytes, 0x21, true);
        let body = split_frame(&bytes);
        let package = get_package(body, true).unwrap();
        let mut expected = vec![0x21u8];
        expected.extend(original);
        assert_eq!(package.package, expected);
    }
}

#[test]
fn small_compressed_frame_does_not_decode() {
    let mut bytes = vec![1, 2, 3];
    pack(&mut bytes, 0, true);
    let body = split_frame(&bytes);
    assert!(get_package(body, true).is_none());
}

#[test]
fn get_package_uncompressed() {
    let package = get_package(vec![0, 1], false).unwrap();
    assert_eq!(package.package_len, 2);
    assert_eq!(package.package, vec![0, 1]);
    assert_eq!(package.original_package, vec![2, 0, 1]);
}

#[test]
fn get_package_without_length_field() {
    let package = get_package(vec![0x80], true).unwrap();
    assert_eq!(package.package_len, 1);
    assert!(package.package.is_empty());
    assert!(package.original_package.is_empty());
}

#[test]
fn get_package_length_field_at_the_end() {
    assert!(get_package(vec![0x00], true).is_none());
}

#[test]
fn package_from_parts_uses_inflated_data() {
    let package = package_from_parts(vec![2, 0x55], true, Some(vec![7, 8]));
    assert_eq!(package.package, vec![7, 8]);
    assert_eq!(package.original_package, vec![2, 2, 0x55]);
}

#[test]
fn package_from_parts_length_mismatch() {
    let package = package_from_parts(vec![3, 0x55], true, Some(vec![7, 8]));
    assert!(package.package.is_empty());
    let package = package_from_parts(vec![0, 5, 6], true, Some(vec![9]));
    assert_eq!(package.package, vec![5, 6]);
    let package = package_from_parts(vec![0, 5, 6], true, Some(vec![]));
    assert!(package.package.is_empty());
}

#[test]
fn frame_start_decisions() {
    assert!(matches!(frame_start(0), FrameStart::Skip));
    assert!(matches!(frame_start(17), FrameStart::Read(17)));
    match frame_start(usize::MAX) {
        FrameStart::Ended(p) => {
            assert_eq!(p.package_len, usize::MAX);
            assert!(p.package.is_empty());
            assert!(p.original_package.is_empty());
        }
        _ => panic!("expected the end of the stream"),
    }
}

fn connection(player_info: Option<PlayerInfo>, zlib_enable: bool) -> PlayerConnect {
    PlayerConnect { shake_hands_package: vec![], player_info, zlib_enable, state: ConnectState::Status }
}

fn info(player_id: u128) -> PlayerInfo {
    PlayerInfo {
        player_name: String::from("Steve"),
        player_id,
        client_ip: String::from("1.2.3.4:5678"),
        client_version: 47,
        target_host: String::from("localhost"),
        target_port: 25565,
    }
}

#[test]
fn player_label_for_client() {
    assert_eq!(connection(Some(info(0)), false).get_player_info(), "客户端(1.2.3.4:5678 < 47)");
}

#[test]
fn player_label_for_player() {
    assert_eq!(connection(Some(info(5)), false).get_player_info(), "玩家<Steve>(1.2.3.4:5678 < 47)");
}

#[test]
fn player_label_unknown() {
    assert_eq!(connection(None, false).get_player_info(), "Unknown");
}

#[test]
fn player_label_version_zero_and_large() {
    let mut i = info(0);
    i.client_version = 0;
    assert_eq!(connection(Some(i), false).get_player_info(), "客户端(1.2.3.4:5678 < 0)");
    let mut i = info(0);
    i.client_version = 65535;
    assert_eq!(connection(Some(i), false).get_player_info(), "客户端(1.2.3.4:5678 < 65535)");
}

#[test]
fn send_pack_follows_connection_setting() {
    let c = connection(None, true);
    let mut bytes = vec![7];
    c.send_pack(&mut bytes, 1);
    assert_eq!(bytes, vec![3, 0, 1, 7]);
    let c = connection(None, false);
    let mut bytes = vec![7];
    c.send_pack(&mut bytes, 1);
    assert_eq!(bytes, vec![2, 1, 7]);
}

#[test]
fn connection_get_package_follows_setting() {
    let c = connection(None, false);
    let p: ConnectPackage = c.get_package(vec![0x80]).unwrap();
    assert_eq!(p.package, vec![0x80]);
    let c = connection(None, true);
    let p = c.get_package(vec![0x80]).unwrap();
    assert!(p.package.is_empty());
}
