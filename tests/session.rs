use micromayhem::channel::{open_datagram, Channel, ReceiveError};
use micromayhem::client::{Client, ClientAction, SendError, SessionState};
use micromayhem::input::{Input, InputMask};
use micromayhem::map::ArenaMap;
use micromayhem::message::{DecodeError, HeaderByte, Message, PlayerState};
use micromayhem::packet::{Packet, PacketError};
use micromayhem::quantize::QuantizedPosition;
use micromayhem::registry::Address;
use micromayhem::server::{Server, ServerAction};
use micromayhem::PROTOCOL_ID;

fn server_addr() -> Address {
    Address { ip: 0xffff_7f00_0001, port: 30000 }
}

fn client_addr(port: u16) -> Address {
    Address { ip: 0xffff_7f00_0001, port }
}

#[test]
fn end_to_end_handshake_input_and_state() {
    let world_map = ArenaMap::default_map();
    let mut server = Server::new(4);
    let mut client = Client::new("Alice");
    assert_eq!(client.state(), SessionState::Disconnected);

    // connect
    let d = client.connect(&server_addr()).unwrap();
    assert_eq!(client.state(), SessionState::Connecting);
    let id = match server.on_datagram(&client_addr(30001), &d) {
        ServerAction::SendVerify { to, id } => {
            assert_eq!(to, client_addr(30001));
            id
        }
        other => panic!("unexpected {:?}", other),
    };
    assert_eq!(id, 0);
    assert_eq!(server.lookup(&client_addr(30001)), Some(0));

    // verify
    let d = server.frame_to(id, &Message::write_verify(id, &world_map)).unwrap();
    let request = match client.on_datagram(&server_addr(), &d) {
        ClientAction::Verified { id, map, request } => {
            assert_eq!(id, 0);
            assert_eq!(map.to_bytes(), world_map.to_bytes());
            request
        }
        other => panic!("unexpected {:?}", other),
    };
    assert_eq!(client.state(), SessionState::Verified);
    assert_eq!(client.try_get_id(), Some(0));

    // a verify that holds no valid map is ignored
    let d = server.frame_to(id, &Message::from_bytes(&[2, 0, 1]).unwrap()).unwrap();
    assert!(matches!(client.on_datagram(&server_addr(), &d), ClientAction::Nothing));

    // request
    let d = client.send_message(&request).unwrap();
    match server.on_datagram(&client_addr(30001), &d) {
        ServerAction::AddPlayer { id, name } => {
            assert_eq!(id, 0);
            assert_eq!(name, "Alice");
        }
        other => panic!("unexpected {:?}", other),
    }

    // input, then a world step that moves a player left by a quarter cell
    let mut mask = InputMask::new();
    mask.add_mask(Input::Left);
    let mut position: (i64, i64) = (1000, 500);
    server.begin_tick();
    let d = client.send_message(&Message::write_input(mask)).unwrap();
    assert!(matches!(server.on_datagram(&client_addr(30001), &d), ServerAction::Nothing));
    let input = server.input_of(0);
    assert!(input.has_mask(Input::Left));
    if input.has_mask(Input::Left) {
        position.0 -= 64;
    }

    // state
    let players = vec![PlayerState { id: 0, position: QuantizedPosition::quantize(position.0, position.1) }];
    let d = server.frame_to(0, &Message::write_state(&players, &[])).unwrap();
    match client.on_datagram(&server_addr(), &d) {
        ClientAction::ApplyState(s) => {
            assert_eq!(s.players.len(), 1);
            assert_eq!(s.players[0].id, 0);
            assert_eq!(
                s.players[0].position,
                QuantizedPosition { grid_x: 3, grid_y: 1, sub_x: 168, sub_y: 244 }
            );
            assert_eq!(s.players[0].position.dequantize(), (936, 500));
            assert!(s.projectiles.is_empty());
        }
        other => panic!("unexpected {:?}", other),
    }
    assert_eq!(client.state(), SessionState::Synchronized);

    // the server's last packet acknowledged the client's third packet
    let packet = Packet::from_bytes(&d).unwrap();
    assert_eq!(packet.get_sequence(), 2);
    assert_eq!(packet.get_ack(), 2);
    assert_eq!(packet.get_ackbitfield(), 0b11);
}

#[test]
fn server_full_ignores_connect() {
    let mut server = Server::new(1);
    let mut a = Client::new("a");
    let mut b = Client::new("b");
    let da = a.connect(&server_addr()).unwrap();
    let db = b.connect(&server_addr()).unwrap();
    assert!(matches!(server.on_datagram(&client_addr(1), &da), ServerAction::SendVerify { id: 0, .. }));
    assert!(matches!(server.on_datagram(&client_addr(2), &db), ServerAction::Nothing));
    assert_eq!(server.lookup(&client_addr(2)), None);
    assert_eq!(server.remotes(), vec![(client_addr(1), 0)]);
}

#[test]
fn server_disconnect_and_timeout_remove_peer() {
    let mut server = Server::new(2);
    let mut a = Client::new("a");
    let d = a.connect(&server_addr()).unwrap();
    server.on_datagram(&client_addr(1), &d);
    let d = a.send_message(&Message::write_disconnect()).unwrap();
    assert!(matches!(server.on_datagram(&client_addr(1), &d), ServerAction::RemovePlayer { id: 0 }));
    assert_eq!(server.lookup(&client_addr(1)), None);

    let mut b = Client::new("b");
    let d = b.connect(&server_addr()).unwrap();
    server.on_datagram(&client_addr(2), &d);
    assert!(matches!(server.on_timeout(&client_addr(2)), ServerAction::RemovePlayer { id: 0 }));
    assert!(matches!(server.on_timeout(&client_addr(2)), ServerAction::Nothing));
}

#[test]
fn server_ignores_request_with_wrong_id_and_unknown_sender() {
    let mut server = Server::new(2);
    let mut a = Client::new("a");
    let d = a.connect(&server_addr()).unwrap();
    server.on_datagram(&client_addr(1), &d);
    let d = a.send_message(&Message::write_request("a", 5)).unwrap();
    assert!(matches!(server.on_datagram(&client_addr(1), &d), ServerAction::Nothing));
    let mut c = Channel::new();
    let d = c.frame(PROTOCOL_ID, &Message::write_request("x", 0)).unwrap();
    assert!(matches!(server.on_datagram(&client_addr(9), &d), ServerAction::Nothing));
}

#[test]
fn server_input_last_writer_wins_and_tick_clears() {
    let mut server = Server::new(2);
    let mut a = Client::new("a");
    let d = a.connect(&server_addr()).unwrap();
    server.on_datagram(&client_addr(1), &d);
    let mut left = InputMask::new();
    left.add_mask(Input::Left);
    let mut right = InputMask::new();
    right.add_mask(Input::Right);
    let d = a.send_message(&Message::write_input(left)).unwrap();
    server.on_datagram(&client_addr(1), &d);
    let d = a.send_message(&Message::write_input(right)).unwrap();
    server.on_datagram(&client_addr(1), &d);
    assert_eq!(server.input_of(0).bits(), right.bits());
    server.begin_tick();
    assert_eq!(server.input_of(0).bits(), 0);
}

#[test]
fn server_counts_dropped_datagrams() {
    let mut server = Server::new(2);
    assert!(matches!(server.on_datagram(&client_addr(1), &[1, 2, 3]), ServerAction::Nothing));
    let foreign = Packet::new(PROTOCOL_ID + 1, 0, 0, 0, &[0]).unwrap().to_bytes();
    assert!(matches!(server.on_datagram(&client_addr(1), &foreign), ServerAction::Nothing));
    assert_eq!(server.dropped(), 2);
    assert_eq!(server.lookup(&client_addr(1)), None);
}

#[test]
fn client_ignores_strangers_and_early_datagrams() {
    let mut client = Client::new("a");
    let mut c = Channel::new();
    let d = c.frame(PROTOCOL_ID, &Message::write_verify(1, &ArenaMap::default_map())).unwrap();
    assert!(matches!(client.on_datagram(&server_addr(), &d), ClientAction::Nothing));
    assert_eq!(client.try_get_id(), None);
    client.connect(&server_addr()).unwrap();
    assert_eq!(client.try_get_remote(), Some(server_addr()));
    assert!(matches!(client.on_datagram(&client_addr(7), &d), ClientAction::Nothing));
    assert!(matches!(client.on_datagram(&server_addr(), &[0, 0]), ClientAction::Nothing));
    assert_eq!(client.dropped(), 1);
    assert!(matches!(client.on_datagram(&server_addr(), &d), ClientAction::Verified { id: 1, .. }));
}

#[test]
fn client_ignores_state_before_verify() {
    let mut client = Client::new("a");
    client.connect(&server_addr()).unwrap();
    let mut c = Channel::new();
    let d = c.frame(PROTOCOL_ID, &Message::write_state(&[], &[])).unwrap();
    assert!(matches!(client.on_datagram(&server_addr(), &d), ClientAction::Nothing));
    assert_eq!(client.state(), SessionState::Connecting);
}

#[test]
fn client_send_before_connect_fails() {
    let mut client = Client::new("a");
    assert_eq!(client.send_message(&Message::write_disconnect()).unwrap_err(), SendError::NotConnected);
}

#[test]
fn client_name_too_long_cannot_connect() {
    let name = "n".repeat(256);
    let mut client = Client::new(&name);
    assert_eq!(client.connect(&server_addr()).unwrap_err(), PacketError::PayloadTooLarge);
    assert_eq!(client.state(), SessionState::Disconnected);
}

#[test]
fn channel_frames_with_sequence_and_acks() {
    let mut sender = Channel::new();
    let mut receiver = Channel::new();
    for expected in 0..3u16 {
        let d = sender.frame(PROTOCOL_ID, &Message::write_disconnect()).unwrap();
        let m = receiver.receive(PROTOCOL_ID, &d).unwrap();
        assert_eq!(m.header(), HeaderByte::Disconnect);
        assert_eq!(receiver.remote_ack, expected);
    }
    assert_eq!(sender.next_sequence, 3);
    assert_eq!(receiver.remote_bitfield, 0b11);
}

#[test]
fn channel_sequence_wraps() {
    let mut c = Channel { next_sequence: 65535, remote_ack: 0, remote_bitfield: 0 };
    let d = c.frame(PROTOCOL_ID, &Message::write_disconnect()).unwrap();
    assert_eq!(Packet::from_bytes(&d).unwrap().get_sequence(), 65535);
    assert_eq!(c.next_sequence, 0);
}

#[test]
fn open_datagram_errors() {
    assert_eq!(open_datagram(PROTOCOL_ID, &[1]).unwrap_err(), ReceiveError::Frame(PacketError::Truncated));
    let foreign = Packet::new(7, 0, 0, 0, &[0]).unwrap().to_bytes();
    assert_eq!(open_datagram(PROTOCOL_ID, &foreign).unwrap_err(), ReceiveError::WrongProtocol);
    let empty = Packet::new(PROTOCOL_ID, 0, 0, 0, &[]).unwrap().to_bytes();
    assert_eq!(open_datagram(PROTOCOL_ID, &empty).unwrap_err(), ReceiveError::Message(DecodeError::Empty));
    let unknown = Packet::new(PROTOCOL_ID, 0, 0, 0, &[9]).unwrap().to_bytes();
    assert_eq!(open_datagram(PROTOCOL_ID, &unknown).unwrap_err(), ReceiveError::Message(DecodeError::UnknownHeader));
    let mut c = Channel::new();
    let d = c.frame(PROTOCOL_ID, &Message::write_connect("x")).unwrap();
    let mut r = Channel::new();
    assert!(r.receive(PROTOCOL_ID + 1, &d).is_err());
    assert_eq!(r, Channel::new());
}

#[test]
fn channel_refuses_oversize_message() {
    let mut c = Channel::new();
    let big = "x".repeat(255);
    assert_eq!(c.frame(PROTOCOL_ID, &Message::write_request(&big, 0)).unwrap_err(), PacketError::PayloadTooLarge);
    assert_eq!(c.next_sequence, 0);
}
