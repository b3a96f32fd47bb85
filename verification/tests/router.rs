use race_server::car::Transform;
use race_server::client::{ClientState, UserData};
use race_server::codec::seal;
use race_server::config::{Config, EventSettings, GameSettings, NetworkSettings};
use race_server::error::ServerError;
use race_server::math::{Quat, Vec3, WireQuat, UNIT};
use race_server::packet::{
    identify, parse_car_pair, parse_chat_message, parse_despawn_header, parse_size_event,
    parse_transform_header, parse_vehicle_header, PacketId,
};
use race_server::server::router::Routed;
use race_server::server::Server;
use race_server::spawns::{Spawn, Spawns};
use race_server::state::ServerState;

fn config(max_cars: Option<u8>) -> Config {
    Config {
        network: NetworkSettings { port: None, overlay_port: None },
        game: GameSettings {
            map: "/levels/track/info.json".to_string(),
            map_limits: None,
            map_limits_pit: None,
            map_limits_pit_exit: None,
            map_finish: None,
            map_spawns_pit: None,
            map_spawns_odd: None,
            map_spawns_even: None,
            map_checkpoints: None,
            server_physics: false,
            max_cars,
            max_laps: None,
            qual_time: None,
        },
        event: EventSettings { expected_clients: None },
    }
}

fn pit() -> Spawns {
    Spawns {
        extrapolate: true,
        spawns: vec![
            Spawn {
                pos: Vec3 { x: 10 * UNIT, y: 0, z: 0 },
                rot: WireQuat { x: 0, y: 0, z: 0, w: UNIT },
            },
            Spawn {
                pos: Vec3 { x: 10 * UNIT, y: 5 * UNIT, z: 0 },
                rot: WireQuat { x: 0, y: 0, z: 0, w: UNIT },
            },
        ],
    }
}

fn none() -> Spawns {
    Spawns { extrapolate: false, spawns: Vec::new() }
}

fn server(max_cars: Option<u8>, names: &[&str]) -> Server {
    let mut s = Server::new(config(max_cars), pit(), none(), none(), 3, 0);
    for name in names {
        s.join(UserData { username: name.to_string(), roles: "USER".to_string() }, 0).unwrap();
    }
    s
}

fn done(r: Result<Routed, ServerError>) -> bool {
    matches!(r, Ok(Routed::Done))
}

fn failed(r: Result<Routed, ServerError>) -> Option<ServerError> {
    r.err()
}

#[test]
fn packets_are_told_apart_by_their_first_byte() {
    assert_eq!(identify(b"H"), Ok(PacketId::Hello));
    assert_eq!(identify(b"p"), Ok(PacketId::Ping));
    assert_eq!(identify(b"C:0:hi"), Ok(PacketId::Chat));
    assert_eq!(identify(b"E:SetSize:0"), Ok(PacketId::Event));
    assert_eq!(identify(b"Os:x"), Ok(PacketId::Vehicle));
    assert_eq!(identify(b"Z:0:0:{}"), Ok(PacketId::Transform));
    assert_eq!(identify(b"Sn"), Ok(PacketId::Sync));
    for first in 86..=89u8 {
        assert_eq!(identify(&[first, 1, 2]), Ok(PacketId::PassThrough));
    }
    assert_eq!(identify(b"U"), Ok(PacketId::Unknown));
    assert_eq!(identify(b"Z"), Ok(PacketId::Transform));
    assert_eq!(identify(b"?"), Ok(PacketId::Unknown));
    assert_eq!(identify(b""), Err(ServerError::BrokenPacket));
}

#[test]
fn headers_read_or_do_not() {
    assert_eq!(parse_car_pair(b"1-2"), Some((1, 2)));
    assert_eq!(parse_car_pair(b"12-255"), Some((12, 255)));
    assert_eq!(parse_car_pair(b"1-256"), None);
    assert_eq!(parse_car_pair(b"1"), None);
    assert_eq!(parse_car_pair(b"-2"), None);
    assert_eq!(parse_car_pair(b"1-"), None);
    assert_eq!(parse_car_pair(b"1-2-3"), None);
    assert_eq!(parse_despawn_header(b"Od:3-1"), Some((3, 1)));
    assert_eq!(parse_despawn_header(b"Od"), None);
    assert_eq!(parse_despawn_header(b"Od:3"), None);
    assert_eq!(
        parse_vehicle_header(b"Oc:0-1:{\"a\":\"b:c\"}"),
        Some((0, 1, b"{\"a\":\"b:c\"}".to_vec()))
    );
    assert_eq!(parse_vehicle_header(b"Or:0-1:"), Some((0, 1, Vec::new())));
    assert_eq!(parse_vehicle_header(b"Or:0-1"), None);
    assert_eq!(parse_vehicle_header(b"Or:0:1:x"), None);
    assert_eq!(
        parse_transform_header(b"Z:2:0:{\"pos\":[1,2,3]}"),
        Some((2, 0, b"{\"pos\":[1,2,3]}".to_vec()))
    );
    assert_eq!(parse_transform_header(b"Z:2:0"), None);
    assert_eq!(parse_transform_header(b"Z:2:x:{}"), None);
    assert_eq!(parse_transform_header(b"Z:300:0:{}"), None);
    assert_eq!(parse_chat_message(b"C:0: hello \n"), b"hello".to_vec());
    assert_eq!(parse_chat_message(b"C:0:a:b"), b"a".to_vec());
    assert_eq!(parse_chat_message(b"C:0"), Vec::<u8>::new());
    assert_eq!(parse_size_event(b"3;1.5;4;2e0"), Some(3));
    assert_eq!(parse_size_event(b"3;1.5;4"), None);
    assert_eq!(parse_size_event(b"x;1;2;3"), None);
    assert_eq!(parse_size_event(b"3;wide;2;3"), None);
    assert_eq!(parse_size_event(b"3;1;2;3;extra"), Some(3));
}

#[test]
fn hello_is_answered_with_the_name() {
    let mut s = server(None, &["alice", "bob"]);
    assert!(done(s.parse_packet(1, b"H".to_vec())));
    assert_eq!(s.clients[1].queue, vec![b"Snbob".to_vec()]);
    assert!(s.clients[0].queue.is_empty());
}

#[test]
fn an_empty_packet_is_broken() {
    let mut s = server(None, &["alice"]);
    assert_eq!(failed(s.parse_packet(0, Vec::new())), Some(ServerError::BrokenPacket));
    assert_eq!(failed(s.parse_packet(0, b"ABG:nonsense".to_vec())), Some(ServerError::BrokenPacket));
    assert!(s.clients[0].queue.is_empty());
}

#[test]
fn a_packet_from_nowhere_is_refused() {
    let mut s = server(None, &["alice"]);
    assert_eq!(failed(s.parse_packet(1, b"H".to_vec())), Some(ServerError::ClientDoesntExist));
    assert_eq!(
        failed(s.parse_packet_udp(1, b"p".to_vec())),
        Some(ServerError::ClientDoesntExist)
    );
}

#[test]
fn unknown_packets_are_dropped() {
    let mut s = server(None, &["alice", "bob"]);
    assert!(done(s.parse_packet(0, b"?what".to_vec())));
    assert!(done(s.parse_packet(0, b"Snx".to_vec())));
    assert!(done(s.parse_packet(0, b"Ox:0-0:x".to_vec())));
    assert!(s.clients.iter().all(|c| c.queue.is_empty()));
}

#[test]
fn reserved_bytes_pass_through_to_the_peers() {
    let mut s = server(None, &["alice", "bob", "carol"]);
    for first in [b'V', b'W', b'X', b'Y'] {
        assert!(done(s.parse_packet(1, vec![first, b':', 1, 2])));
    }
    let expected: Vec<Vec<u8>> =
        [b'V', b'W', b'X', b'Y'].iter().map(|f| vec![*f, b':', 1, 2]).collect();
    assert_eq!(s.clients[0].queue, expected);
    assert!(s.clients[1].queue.is_empty());
    assert_eq!(s.clients[2].queue, expected);
}

#[test]
fn compressed_packets_are_routed_decompressed() {
    let mut s = server(None, &["alice", "bob"]);
    let mut chat = b"C:0:".to_vec();
    chat.extend(std::iter::repeat(b'z').take(600));
    let sealed = seal(chat.clone()).unwrap();
    assert_eq!(&sealed[..4], b"ABG:");
    assert!(done(s.parse_packet(0, sealed)));
    assert_eq!(s.clients[0].queue, vec![chat.clone()]);
    assert_eq!(s.clients[1].queue, vec![chat]);
}

#[test]
fn chat_goes_to_everybody() {
    let mut s = server(None, &["alice", "bob"]);
    assert!(done(s.parse_packet(0, b"C:0:hello there".to_vec())));
    assert_eq!(s.clients[0].queue, vec![b"C:0:hello there".to_vec()]);
    assert_eq!(s.clients[1].queue, vec![b"C:0:hello there".to_vec()]);
}

#[test]
fn ready_command_marks_the_sender() {
    let mut s = server(None, &["alice", "bob"]);
    assert!(done(s.parse_packet(1, b"C:1: !ready ".to_vec())));
    assert!(s.clients[1].ready);
    assert!(!s.clients[0].ready);
    assert_eq!(s.clients[1].queue, vec![b"C:Server:You are now ready!".to_vec()]);
    assert!(s.clients[0].queue.is_empty());
}

#[test]
fn unknown_commands_are_answered_in_private() {
    let mut s = server(None, &["alice", "bob"]);
    assert!(done(s.parse_packet(0, b"C:0:!dance".to_vec())));
    assert_eq!(s.clients[0].queue, vec![b"C:Server:Unknown command!".to_vec()]);
    assert!(s.clients[1].queue.is_empty());
    assert!(!s.clients[0].ready);
}

#[test]
fn pos_command_needs_a_car() {
    let mut s = server(None, &["alice"]);
    assert_eq!(failed(s.parse_packet(0, b"C:0:!pos".to_vec())), Some(ServerError::CarDoesntExist));
    s.allow_spawns = true;
    assert!(done(s.parse_packet(0, b"Os:0:{}".to_vec())));
    s.clients[0].queue.clear();
    assert!(done(s.parse_packet(0, b"C:0:!pos".to_vec())));
    assert!(s.clients[0].queue.is_empty());
}

#[test]
fn spawn_allowed() {
    let mut s = server(None, &["alice", "bob"]);
    s.allow_spawns = true;
    assert!(done(s.parse_packet(1, b"Os:0:{\"jbm\":\"pickup\"}".to_vec())));
    assert_eq!(s.clients[1].cars.len(), 1);
    assert_eq!(s.clients[1].cars[0].0, 0);
    assert_eq!(s.clients[1].cars[0].1.car_json, b"{\"jbm\":\"pickup\"}".to_vec());
    let announce = b"Os:USER:bob:1-0:{\"jbm\":\"pickup\"}".to_vec();
    assert_eq!(s.clients[1].queue, vec![b"E:GetSize:1".to_vec(), announce.clone()]);
    assert_eq!(s.clients[0].queue, vec![announce]);
}

#[test]
fn spawn_denied_by_max_cars() {
    let mut s = server(Some(1), &["alice", "bob"]);
    s.allow_spawns = true;
    assert!(done(s.parse_packet(0, b"Os:0:{\"n\":1}".to_vec())));
    s.clients[0].queue.clear();
    s.clients[1].queue.clear();
    assert!(done(s.parse_packet(0, b"Os:0:{\"n\":2}".to_vec())));
    assert_eq!(s.clients[0].cars.len(), 1);
    assert_eq!(
        s.clients[0].queue,
        vec![b"Os:USER:alice:0-1:{\"n\":2}".to_vec(), b"Od:0-1".to_vec()]
    );
    assert!(s.clients[1].queue.is_empty());
}

#[test]
fn spawn_denied_while_spawning_is_closed() {
    let mut s = server(None, &["alice", "bob"]);
    assert!(done(s.parse_packet(0, b"Os:0:{}".to_vec())));
    assert!(s.clients[0].cars.is_empty());
    assert_eq!(s.clients[0].queue, vec![b"Os:USER:alice:0-0:{}".to_vec(), b"Od:0-0".to_vec()]);
    assert!(s.clients[1].queue.is_empty());
}

#[test]
fn broken_vehicle_packets() {
    let mut s = server(None, &["alice"]);
    s.allow_spawns = true;
    assert_eq!(failed(s.parse_packet(0, b"Os:0".to_vec())), Some(ServerError::BrokenPacket));
    assert_eq!(failed(s.parse_packet(0, b"Os0000".to_vec())), Some(ServerError::BrokenPacket));
    assert_eq!(failed(s.parse_packet(0, b"Oc:0-0".to_vec())), Some(ServerError::BrokenPacket));
    assert_eq!(failed(s.parse_packet(0, b"Od:0+0".to_vec())), Some(ServerError::BrokenPacket));
    assert_eq!(failed(s.parse_packet(0, b"Od:0-".to_vec())), Some(ServerError::BrokenPacket));
    assert!(s.clients[0].cars.is_empty() && s.clients[0].queue.is_empty());
}

#[test]
fn vehicle_data_updates_the_car_and_goes_to_the_others() {
    let mut s = server(None, &["alice", "bob", "carol"]);
    s.allow_spawns = true;
    s.parse_packet(1, b"Os:0:{\"old\":1}".to_vec()).unwrap();
    for c in s.clients.iter_mut() {
        c.queue.clear();
    }
    let packet = b"Oc:1-0:{\"new\":2}".to_vec();
    assert!(done(s.parse_packet(1, packet.clone())));
    assert_eq!(s.clients[1].cars[0].1.car_json, b"{\"new\":2}".to_vec());
    assert_eq!(s.clients[0].queue, vec![packet.clone()]);
    assert!(s.clients[1].queue.is_empty());
    assert_eq!(s.clients[2].queue, vec![packet]);

    let stale = b"Oc:1-7:{\"x\":3}".to_vec();
    assert!(done(s.parse_packet(1, stale)));
    assert_eq!(s.clients[1].cars[0].1.car_json, b"{\"new\":2}".to_vec());
}

#[test]
fn despawn_unregisters_and_goes_to_everybody() {
    let mut s = server(None, &["alice", "bob"]);
    s.allow_spawns = true;
    s.parse_packet(0, b"Os:0:{}".to_vec()).unwrap();
    s.parse_packet(0, b"Os:0:{}".to_vec()).unwrap();
    for c in s.clients.iter_mut() {
        c.queue.clear();
    }
    assert!(done(s.parse_packet(0, b"Od:0-0".to_vec())));
    assert_eq!(s.clients[0].cars.iter().map(|c| c.0).collect::<Vec<u8>>(), vec![1]);
    assert_eq!(s.clients[0].queue, vec![b"Od:0-0".to_vec()]);
    assert_eq!(s.clients[1].queue, vec![b"Od:0-0".to_vec()]);
}

#[test]
fn broadcast_through_packets() {
    let mut s = server(None, &["alice", "bob"]);
    assert!(done(s.parse_packet(0, b"Ot:0-0:x".to_vec())));
    assert!(s.clients[0].queue.is_empty());
    assert_eq!(s.clients[1].queue, vec![b"Ot:0-0:x".to_vec()]);
    assert!(done(s.parse_packet(0, b"Om:0-0:y".to_vec())));
    assert_eq!(s.clients[0].queue, vec![b"Om:0-0:y".to_vec()]);
    assert_eq!(s.clients[1].queue, vec![b"Ot:0-0:x".to_vec(), b"Om:0-0:y".to_vec()]);
}

#[test]
fn respawn_goes_to_the_peers_unless_forced_to_the_pits() {
    let mut s = server(None, &["alice", "bob"]);
    let packet = b"Or:0-0:{\"pos\":{\"x\":1,\"y\":2,\"z\":3}}".to_vec();
    assert!(done(s.parse_packet(0, packet.clone())));
    assert!(s.clients[0].queue.is_empty());
    assert_eq!(s.clients[1].queue, vec![packet.clone()]);

    s.force_respawn_pits = true;
    match s.parse_packet(0, packet.clone()) {
        Ok(Routed::Respawn { client_id, car_id, json }) => {
            assert_eq!((client_id, car_id), (0, 0));
            assert_eq!(json, b"{\"pos\":{\"x\":1,\"y\":2,\"z\":3}}".to_vec());
        }
        other => panic!("{:?}", other),
    }
    assert_eq!(s.clients[1].queue, vec![packet]);
    assert_eq!(failed(s.parse_packet(0, b"Or:0_0:{}".to_vec())), Some(ServerError::BrokenPacket));
}

#[test]
fn a_forced_respawn_snaps_to_the_pit_slot() {
    let mut s = server(None, &["alice", "bob"]);
    s.allow_spawns = true;
    s.parse_packet(1, b"Os:0:{}".to_vec()).unwrap();
    for c in s.clients.iter_mut() {
        c.queue.clear();
    }
    s.server_state = ServerState::Qualifying;
    s.accepting = false;
    s.clients[1].cars[0].1.next_checkpoint = 2;
    s.clients[1].cars[0].1.lap_start = Some(5);
    s.clients[1].cars[0].1.offtrack_start = Some(6);

    s.respawn_in_pits(1, 1, 0, &Vec3 { x: 0, y: 0, z: 0 });
    let car = &s.clients[1].cars[0].1;
    assert_eq!(car.next_checkpoint, 0);
    assert_eq!(car.lap_start, None);
    assert_eq!(car.offtrack_start, None);
    assert_eq!(s.clients[1].queue, vec![b"E:Respawn:10;5;0#0;0;0;1".to_vec()]);
    assert!(s.clients[0].queue.is_empty());

    s.clients[1].queue.clear();
    s.respawn_in_pits(1, 1, 0, &Vec3 { x: 10 * UNIT, y: 5 * UNIT + 1000, z: 0 });
    assert!(s.clients[1].queue.is_empty());
}

#[test]
fn a_forced_respawn_is_not_snapped_on_the_grid() {
    for state in [ServerState::LiningUp, ServerState::Countdown] {
        let mut s = server(None, &["alice"]);
        s.allow_spawns = true;
        s.parse_packet(0, b"Os:0:{}".to_vec()).unwrap();
        s.clients[0].queue.clear();
        s.accepting = false;
        s.server_state = state;
        s.clients[0].cars[0].1.next_checkpoint = 2;
        s.clients[0].cars[0].1.lap_start = Some(5);
        s.respawn_in_pits(0, 0, 0, &Vec3 { x: 0, y: 0, z: 0 });
        assert!(s.clients[0].queue.is_empty());
        assert_eq!(s.clients[0].cars[0].1.next_checkpoint, 0);
        assert_eq!(s.clients[0].cars[0].1.lap_start, Some(5));
    }
}

#[test]
fn set_size_gives_the_reported_hitbox() {
    let mut s = server(None, &["alice", "bob"]);
    s.allow_spawns = true;
    s.parse_packet(1, b"Os:0:{}".to_vec()).unwrap();
    s.parse_packet(1, b"Os:0:{}".to_vec()).unwrap();
    for c in s.clients.iter_mut() {
        c.queue.clear();
    }
    assert!(done(s.parse_packet(0, b"E:SetSize:1;2.5;4.25;1.5".to_vec())));
    let hitbox = Vec3 { x: 650_000, y: 1_000_000, z: 600_000 };
    assert_eq!(s.clients[1].cars[0].1.hitbox_half, hitbox);
    assert_eq!(s.clients[1].cars[1].1.hitbox_half, Vec3 { x: UNIT, y: UNIT, z: UNIT });
    assert!(s.clients.iter().all(|c| c.queue.is_empty()));
    assert!(done(s.parse_packet(0, b"E:SetSize:0;1;1;1".to_vec())));
    assert!(done(s.parse_packet(0, b"E:SetSize:9;1;1;1".to_vec())));
}

#[test]
fn broken_and_unknown_events() {
    let mut s = server(None, &["alice"]);
    for broken in ["E:SetSize:x;1;2;3", "E:SetSize:0;1;2", "E:SetSize:0;a;2;3", "E:SetSize:"] {
        assert_eq!(
            failed(s.parse_packet(0, broken.as_bytes().to_vec())),
            Some(ServerError::BrokenPacket),
            "{}",
            broken
        );
    }
    assert!(done(s.parse_packet(0, b"E:SetSize".to_vec())));
    assert!(done(s.parse_packet(0, b"E:Honk:loud".to_vec())));
    assert!(done(s.parse_packet(0, b"E".to_vec())));
}

#[test]
fn a_ping_is_answered_with_a_ping() {
    let mut s = server(None, &["alice", "bob"]);
    let (at, routed) = s.process_udp(&[2, b':', b'p']).unwrap();
    assert_eq!(at, 1);
    assert!(matches!(routed, Routed::Done));
    assert!(s.clients[1].udp_known);
    assert!(!s.clients[0].udp_known);
    assert_eq!(s.clients[1].udp_queue, vec![b"p".to_vec()]);
    assert!(s.clients[0].udp_queue.is_empty());
    assert!(s.clients[1].queue.is_empty());
}

#[test]
fn datagrams_name_their_sender() {
    let mut s = server(None, &["alice"]);
    assert_eq!(s.process_udp(&[]).err(), Some(ServerError::BrokenPacket));
    assert_eq!(s.process_udp(&[0, b':', b'p']).err(), Some(ServerError::BrokenPacket));
    assert_eq!(s.process_udp(&[1]).err(), Some(ServerError::BrokenPacket));
    assert_eq!(s.process_udp(&[5, b':', b'p']).err(), Some(ServerError::ClientDoesntExist));
    assert_eq!(s.process_udp(&[1, b':']).err(), Some(ServerError::BrokenPacket));
    assert!(!s.clients[0].udp_known);
    assert_eq!(
        s.process_udp(&[1, b':', b'A', b'B', b'G', b':', 0]).err(),
        Some(ServerError::BrokenPacket)
    );
    assert!(s.clients[0].udp_known);
}

#[test]
fn datagram_pass_through_needs_known_addresses() {
    let mut s = server(None, &["alice", "bob", "carol"]);
    s.clients[0].udp_known = true;
    let (_, routed) = s.process_udp(&[2, b':', b'W', 7]).unwrap();
    assert!(matches!(routed, Routed::Done));
    assert_eq!(s.clients[0].udp_queue, vec![vec![b'W', 7]]);
    assert!(s.clients[1].udp_queue.is_empty());
    assert!(s.clients[2].udp_queue.is_empty());
    let (_, routed) = s.process_udp(&[2, b':', b'?']).unwrap();
    assert!(matches!(routed, Routed::Done));
}

#[test]
fn a_position_report_waits_to_be_decoded() {
    let mut s = server(None, &["alice"]);
    let mut datagram = vec![1, b':'];
    datagram.extend_from_slice(b"Z:0:0:{\"pos\":[1,2,3]}");
    match s.process_udp(&datagram) {
        Ok((0, Routed::Transform { client_id, car_id, json, packet })) => {
            assert_eq!((client_id, car_id), (0, 0));
            assert_eq!(json, b"{\"pos\":[1,2,3]}".to_vec());
            assert_eq!(packet, b"Z:0:0:{\"pos\":[1,2,3]}".to_vec());
        }
        other => panic!("{:?}", other),
    }
    assert!(s.clients[0].udp_queue.is_empty());
    let mut broken = vec![1, b':'];
    broken.extend_from_slice(b"Z:0:{}");
    assert_eq!(s.process_udp(&broken).err(), Some(ServerError::BrokenPacket));
}

#[test]
fn a_position_report_moves_the_car_and_goes_to_the_others() {
    let mut s = server(None, &["alice", "bob", "carol"]);
    s.allow_spawns = true;
    s.parse_packet(1, b"Os:0:{}".to_vec()).unwrap();
    s.clients[0].udp_known = true;
    s.clients[1].udp_known = true;
    let report = Transform {
        pos: Vec3 { x: 1, y: 2, z: 3 },
        rot: WireQuat { x: 4, y: 5, z: 6, w: 7 },
        vel: Vec3 { x: 8, y: 9, z: 10 },
        rvel: Vec3 { x: 11, y: 12, z: 13 },
        tim: 14,
        ping: 15,
    };
    assert_eq!(s.update_transform(1, 0, &report, b"Z:1:0:{}", 99), Ok(()));
    let car = &s.clients[1].cars[0].1;
    assert_eq!(car.pos, report.pos);
    assert_eq!(car.rot, Quat { w: 7, x: 4, y: 5, z: 6 });
    assert_eq!(car.vel, report.vel);
    assert_eq!(car.rvel, report.rvel);
    assert_eq!((car.tim, car.ping), (14, 15));
    assert_eq!(car.last_pos_update, Some(99));
    assert_eq!(s.clients[0].udp_queue, vec![b"Z:1:0:{}".to_vec()]);
    assert!(s.clients[1].udp_queue.is_empty());
    assert!(s.clients[2].udp_queue.is_empty());

    assert_eq!(
        s.update_transform(1, 4, &report, b"Z:1:4:{}", 100),
        Err(ServerError::CarDoesntExist)
    );
    assert_eq!(s.clients[0].udp_queue.len(), 1);
    assert_eq!(s.update_transform(9, 0, &report, b"Z:9:0:{}", 100), Ok(()));
    assert_eq!(s.clients[0].udp_queue.len(), 2);
    assert_eq!(s.clients[1].udp_queue, vec![b"Z:9:0:{}".to_vec()]);
}

#[test]
fn leaving_sessions_are_sent_no_broadcasts() {
    let mut s = server(None, &["alice", "bob"]);
    s.clients[1].state = ClientState::Disconnect;
    assert!(done(s.parse_packet(0, b"C:0:anyone?".to_vec())));
    assert_eq!(s.clients[0].queue.len(), 1);
    assert!(s.clients[1].queue.is_empty());
}

#[test]
fn no_two_cars_share_their_ids() {
    let mut s = server(None, &["alice", "bob", "carol"]);
    s.allow_spawns = true;
    let steps: [(usize, &[u8]); 12] = [
        (0, b"Os:0:{}"),
        (0, b"Os:0:{}"),
        (1, b"Os:0:{}"),
        (0, b"Od:0-0"),
        (0, b"Os:0:{}"),
        (2, b"Os:0:{}"),
        (2, b"Os:0:{}"),
        (2, b"Os:0:{}"),
        (1, b"Od:2-1"),
        (2, b"Os:0:{}"),
        (0, b"Oc:0-1:{\"a\":1}"),
        (1, b"Od:1-0"),
    ];
    for (at, packet) in steps {
        s.parse_packet(at, packet.to_vec()).unwrap();
        let mut keys: Vec<(u8, u8)> = Vec::new();
        for client in s.clients.iter() {
            for car in client.cars.iter() {
                assert!(!keys.contains(&(client.id, car.0)));
                keys.push((client.id, car.0));
            }
        }
    }
    assert_eq!(s.clients[0].cars.iter().map(|c| c.0).collect::<Vec<u8>>(), vec![1, 0]);
    assert_eq!(s.clients[2].cars.iter().map(|c| c.0).collect::<Vec<u8>>(), vec![0, 2, 1]);
    assert!(s.clients[1].cars.is_empty());
}

#[test]
fn server_errors_have_their_names() {
    assert_eq!(ServerError::BrokenPacket.name(), "BrokenPacket");
    assert_eq!(ServerError::CarDoesntExist.name(), "CarDoesntExist");
    assert_eq!(ServerError::ClientDoesntExist.name(), "ClientDoesntExist");
}
