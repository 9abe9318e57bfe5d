use micromayhem::input::{Input, InputMask};
use micromayhem::message::{
    BulletType, DecodeError, HeaderByte, Message, PlayerState, ProjectileState,
};
use micromayhem::map::{ArenaMap, MapError};
use micromayhem::quantize::QuantizedPosition;

fn pos(grid_x: i8, grid_y: i8, sub_x: u8, sub_y: u8) -> QuantizedPosition {
    QuantizedPosition { grid_x, grid_y, sub_x, sub_y }
}

fn state_message(data: Vec<u8>) -> Message {
    let mut payload = vec![4u8];
    payload.extend(data);
    Message::from_bytes(&payload).unwrap()
}

#[test]
fn headerbyte_from_test() {
    let a: u8 = 1;
    assert_eq!(HeaderByte::from_repr(a), Some(HeaderByte::Disconnect));
}

#[test]
fn headerbyte_unknown_is_none() {
    assert_eq!(HeaderByte::from_repr(6), None);
    assert_eq!(HeaderByte::from_repr(5), Some(HeaderByte::Input));
    assert_eq!(HeaderByte::State.to_byte(), 4);
}

#[test]
fn message_from_bytes_errors() {
    assert_eq!(Message::from_bytes(&[]).unwrap_err(), DecodeError::Empty);
    assert_eq!(Message::from_bytes(&[6, 1]).unwrap_err(), DecodeError::UnknownHeader);
    assert_eq!(Message::from_bytes(&[255]).unwrap_err(), DecodeError::UnknownHeader);
}

#[test]
fn message_bytes_round_trip() {
    let m = Message::from_bytes(&[3, 9, 8, 7]).unwrap();
    assert_eq!(m.header(), HeaderByte::Request);
    assert_eq!(*m.data(), vec![9, 8, 7]);
    assert_eq!(m.to_vec(), vec![3, 9, 8, 7]);
}

#[test]
fn connect_carries_name() {
    let m = Message::write_connect("Alice");
    assert_eq!(m.to_vec(), vec![0, b'A', b'l', b'i', b'c', b'e']);
}

#[test]
fn disconnect_is_header_only() {
    assert_eq!(Message::write_disconnect().to_vec(), vec![1]);
}

#[test]
fn request_round_trip() {
    let m = Message::write_request("Bob", 7);
    assert_eq!(m.to_vec(), vec![3, 7, b'B', b'o', b'b']);
    let (id, name) = m.read_request().unwrap();
    assert_eq!(id, 7);
    assert_eq!(name, "Bob");
}

#[test]
fn request_with_invalid_utf8_is_replaced() {
    let m = Message::from_bytes(&[3, 2, b'a', 0xFF, b'b']).unwrap();
    let (id, name) = m.read_request().unwrap();
    assert_eq!(id, 2);
    assert_eq!(name, "a\u{FFFD}b");
}

#[test]
fn request_without_id_fails() {
    let m = Message::from_bytes(&[3]).unwrap();
    assert_eq!(m.read_request().unwrap_err(), DecodeError::MissingId);
}

#[test]
fn verify_round_trip() {
    let map = ArenaMap::default_map();
    let m = Message::write_verify(0, &map);
    let mut expected = vec![2, 0];
    expected.extend([0x55u8; 16]);
    expected.extend([0xAAu8; 16]);
    assert_eq!(m.to_vec(), expected);
    let (id, back) = m.read_verify().unwrap();
    assert_eq!(id, 0);
    assert_eq!(back.to_bytes(), map.to_bytes());
}

#[test]
fn verify_errors() {
    let empty = Message::from_bytes(&[2]).unwrap();
    assert_eq!(empty.read_verify().unwrap_err(), DecodeError::MissingId);
    let short = Message::from_bytes(&[2, 7, 1, 2, 3]).unwrap();
    assert_eq!(short.read_verify().unwrap_err(), DecodeError::InvalidMap(MapError::Truncated));
    let mut bytes = vec![2u8, 7];
    bytes.extend([0xFFu8; 32]);
    let overlap = Message::from_bytes(&bytes).unwrap();
    assert_eq!(overlap.read_verify().unwrap_err(), DecodeError::InvalidMap(MapError::Overlap));
}

#[test]
fn input_round_trip() {
    let mut mask = InputMask::new();
    mask.add_mask(Input::Left);
    mask.add_mask(Input::Shoot);
    let m = Message::write_input(mask);
    assert_eq!(m.to_vec(), vec![5, 0b1_0001]);
    let back = m.read_input();
    assert!(back.has_mask(Input::Left));
    assert!(back.has_mask(Input::Shoot));
    assert!(!back.has_mask(Input::Right));
}

#[test]
fn input_without_data_is_empty_mask() {
    let m = Message::from_bytes(&[5]).unwrap();
    assert_eq!(m.read_input().bits(), 0);
}

#[test]
fn state_layout_is_exact() {
    let players = vec![PlayerState { id: 3, position: pos(-1, 2, 255, 16) }];
    let projectiles = vec![ProjectileState { id: 0x0102, kind: BulletType::Sniper, position: pos(0, -128, 1, 2) }];
    let m = Message::write_state(&players, &projectiles);
    assert_eq!(
        m.to_vec(),
        vec![4, 1, 3, 0xFF, 2, 255, 16, 0x02, 0x01, 2, 0, 0x80, 1, 2]
    );
}

#[test]
fn state_round_trip() {
    let players = vec![
        PlayerState { id: 0, position: pos(1, -5, 47, 156) },
        PlayerState { id: 9, position: pos(-128, 127, 0, 255) },
    ];
    let projectiles = vec![
        ProjectileState { id: 1, kind: BulletType::Pistol, position: pos(2, 3, 4, 5) },
        ProjectileState { id: 65535, kind: BulletType::Rifle, position: pos(-2, -3, 40, 50) },
    ];
    let m = Message::write_state(&players, &projectiles);
    let s = m.read_state().unwrap();
    assert_eq!(s.players, players);
    assert_eq!(s.projectiles, projectiles);
}

#[test]
fn state_with_no_entities() {
    let m = Message::write_state(&[], &[]);
    assert_eq!(m.to_vec(), vec![4, 0]);
    let s = m.read_state().unwrap();
    assert!(s.players.is_empty());
    assert!(s.projectiles.is_empty());
}

#[test]
fn state_with_trailing_partial_record_is_rejected() {
    let players = vec![PlayerState { id: 0, position: pos(0, 0, 0, 0) }];
    let projectiles = vec![ProjectileState { id: 5, kind: BulletType::Pistol, position: pos(1, 1, 1, 1) }];
    let mut data = Message::write_state(&players, &projectiles).data().clone();
    data.extend([1, 2, 3]);
    let m = state_message(data);
    assert_eq!(m.read_state().unwrap_err(), DecodeError::TruncatedProjectile);
}

#[test]
fn state_missing_player_count() {
    let m = state_message(vec![]);
    assert_eq!(m.read_state().unwrap_err(), DecodeError::MissingPlayerCount);
}

#[test]
fn state_truncated_player() {
    let m = state_message(vec![2, 0, 1, 1, 1, 1, 1]);
    assert_eq!(m.read_state().unwrap_err(), DecodeError::TruncatedPlayer);
}

#[test]
fn state_unknown_projectile_type() {
    let m = state_message(vec![0, 1, 0, 3, 0, 0, 0, 0]);
    assert_eq!(m.read_state().unwrap_err(), DecodeError::UnknownProjectileType);
}

#[test]
fn bullet_type_bytes() {
    assert_eq!(BulletType::from_repr(2), Some(BulletType::Sniper));
    assert_eq!(BulletType::from_repr(3), None);
    assert_eq!(BulletType::Rifle.to_byte(), 1);
}
