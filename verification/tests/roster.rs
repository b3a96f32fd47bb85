use race_server::client::{kick_notice, Client, ClientState, UserData};
use race_server::codec::{frame, parse_frames, unseal};
use race_server::config::{Config, EventSettings, GameSettings, NetworkSettings};
use race_server::car::Car;
use race_server::error::AuthenticationError;
use race_server::math::Vec3;
use race_server::overlay::Overlay;
use race_server::server::Server;
use race_server::spawns::Spawns;
use race_server::state::ServerState;

fn config(expected: Option<Vec<&str>>) -> Config {
    Config {
        network: NetworkSettings { port: None, overlay_port: None },
        game: GameSettings {
            map: "/levels/track/info.json".to_string(),
            map_limits: None,
            map_limits_pit: None,
            map_limits_pit_exit: None,
            map_finish: None,
            map_spawns_pit: None,
            map_spawns_odd: None,
            map_spawns_even: None,
            map_checkpoints: None,
            server_physics: false,
            max_cars: None,
            max_laps: None,
            qual_time: None,
        },
        event: EventSettings {
            expected_clients: expected.map(|names| names.iter().map(|n| n.to_string()).collect()),
        },
    }
}

fn no_spawns() -> Spawns {
    Spawns { extrapolate: false, spawns: Vec::new() }
}

fn server(expected: Option<Vec<&str>>) -> Server {
    Server::new(config(expected), no_spawns(), no_spawns(), no_spawns(), 3, 0)
}

fn user(name: &str) -> UserData {
    UserData { username: name.to_string(), roles: "USER".to_string() }
}

#[test]
fn a_new_server_waits_for_clients() {
    let s = server(Some(vec!["alice"]));
    assert!(s.clients.is_empty());
    assert_eq!(s.server_state, ServerState::WaitingForClients);
    assert_eq!(s.countdown, 5);
    assert!(s.accepting);
    assert!(!s.allow_spawns);
    assert!(!s.force_respawn_pits);
    assert!(s.allow_respawns);
    assert!(!s.exit_requested);
    assert_eq!(s.track_limits_client, 0);
    assert_eq!(s.checkpoints, 3);
    assert!(s.finish_order.is_empty());
}

#[test]
fn settings_fall_back_to_their_defaults() {
    let mut c = config(None);
    assert_eq!(c.network.port(), 48900);
    assert_eq!(c.network.overlay_port(), 48901);
    assert_eq!(c.game.qual_time(), 120);
    assert_eq!(c.game.max_laps(), 5);
    c.network.port = Some(1);
    c.network.overlay_port = Some(2);
    c.game.qual_time = Some(3);
    c.game.max_laps = Some(4);
    assert_eq!(c.network.port(), 1);
    assert_eq!(c.network.overlay_port(), 2);
    assert_eq!(c.game.qual_time(), 3);
    assert_eq!(c.game.max_laps(), 4);
}

#[test]
fn whitelist_kick() {
    let mut s = server(Some(vec!["alice"]));
    let refused = s.join(user("bob"), 10).unwrap_err();
    assert_eq!(refused, AuthenticationError::NotWhitelisted);
    assert_eq!(refused.reason(), "Not whitelisted for this server!");
    assert_eq!(kick_notice(refused.reason()), b"KNot whitelisted for this server!".to_vec());
    assert!(s.clients.is_empty());

    let mut stranger = Client::new(9, user("bob"), 10);
    stranger.kick(refused.reason());
    assert_eq!(stranger.state, ClientState::Disconnect);
    assert_eq!(stranger.queue, vec![b"KNot whitelisted for this server!".to_vec()]);
}

#[test]
fn expected_names_are_compared_trimmed_and_case_sensitive() {
    let mut s = server(Some(vec![" alice ", "Bob"]));
    assert_eq!(s.join(user("alice\n"), 0), Ok(0));
    assert_eq!(s.join(user("bob"), 0), Err(AuthenticationError::NotWhitelisted));
    assert_eq!(s.join(user("\tBob"), 0), Ok(1));
    assert_eq!(s.clients.len(), 2);
}

#[test]
fn a_name_joins_once() {
    let mut s = server(None);
    assert_eq!(s.join(user("alice"), 0), Ok(0));
    assert_eq!(s.join(user(" alice"), 0), Err(AuthenticationError::NotWhitelisted));
    assert_eq!(s.clients.len(), 1);
}

#[test]
fn sessions_get_the_smallest_free_id() {
    let mut s = server(None);
    assert_eq!(s.join(user("a"), 5), Ok(0));
    assert_eq!(s.join(user("b"), 5), Ok(1));
    assert_eq!(s.join(user("c"), 5), Ok(2));
    s.clients[1].state = ClientState::Disconnect;
    s.remove_disconnected();
    assert_eq!(s.join(user("d"), 6), Ok(1));
    let ids: Vec<u8> = s.clients.iter().map(|c| c.id).collect();
    assert_eq!(ids, vec![0, 2, 1]);
    let joined = &s.clients[2];
    assert_eq!(joined.info.username, "d");
    assert_eq!(joined.state, ClientState::Connected);
    assert!(!joined.ready && !joined.finished && !joined.udp_known);
    assert_eq!(joined.grid_spot, 0);
    assert_eq!(joined.last_physics_update, 6);
    assert!(joined.cars.is_empty() && joined.queue.is_empty() && joined.overlay.is_none());
}

#[test]
fn a_closed_roster_admits_nobody() {
    let mut s = server(None);
    s.accepting = false;
    let refused = s.join(user("alice"), 0).unwrap_err();
    assert_eq!(refused, AuthenticationError::Closed);
    assert_eq!(refused.reason(), "Failed to authenticate player!");
    assert!(s.clients.is_empty());
}

#[test]
fn a_full_server_admits_nobody() {
    let mut s = server(None);
    for i in 0..256 {
        assert_eq!(s.join(user(&format!("p{}", i)), 0), Ok(i as u8));
    }
    assert_eq!(s.join(user("late"), 0), Err(AuthenticationError::Full));
    assert_eq!(s.clients.len(), 256);
}

#[test]
fn dropped_sessions_take_their_cars_with_them() {
    let mut s = server(None);
    s.join(user("a"), 0).unwrap();
    s.join(user("b"), 0).unwrap();
    s.join(user("c"), 0).unwrap();
    s.clients[1].register_car(Car::new(Vec::new()));
    s.clients[1].register_car(Car::new(Vec::new()));
    s.clients[2].register_car(Car::new(Vec::new()));
    s.clients[1].state = ClientState::Disconnect;
    s.clients[0].queue_packet(b"early".to_vec());
    s.clients[1].queue_packet(b"last words".to_vec());
    let gone = s.remove_disconnected();
    assert_eq!(gone.len(), 1);
    assert_eq!(gone[0].id, 1);
    assert_eq!(gone[0].queue, vec![b"last words".to_vec()]);
    assert_eq!(gone[0].cars.len(), 2);
    assert_eq!(s.clients.len(), 2);
    assert_eq!(s.clients[0].info.username, "a");
    assert_eq!(s.clients[1].info.username, "c");
    assert_eq!(
        s.clients[0].queue,
        vec![b"early".to_vec(), b"Od:1-0".to_vec(), b"Od:1-1".to_vec()]
    );
    assert_eq!(s.clients[1].queue, vec![b"Od:1-0".to_vec(), b"Od:1-1".to_vec()]);
    assert_eq!(s.clients[1].cars.len(), 1);
}

#[test]
fn a_sweep_without_leavers_changes_nothing() {
    let mut s = server(None);
    s.join(user("a"), 0).unwrap();
    assert!(s.remove_disconnected().is_empty());
    assert_eq!(s.clients.len(), 1);
    assert!(s.clients[0].queue.is_empty());
}

#[test]
fn overlays_attach_by_name_first_wins() {
    let mut s = server(None);
    s.join(user("alice"), 0).unwrap();
    s.join(user("bob"), 0).unwrap();
    let (name, mut first) = Overlay::new(b"Hbob\0").unwrap();
    first.set_laps(1);
    let marked = first.outbox.clone();
    s.add_overlay(name, first);
    let (name, second) = Overlay::new(b"Hbob\0").unwrap();
    s.add_overlay(name, second);
    let (name, third) = Overlay::new(b"Hcarol\0").unwrap();
    s.add_overlay(name, third);
    let (name, fourth) = Overlay::new(b"Halice\0").unwrap();
    s.add_overlay(name, fourth);
    s.attach_overlays();
    assert_eq!(s.clients[1].overlay.as_ref().unwrap().outbox, marked);
    assert!(s.clients[0].overlay.as_ref().unwrap().outbox.is_empty());
    let waiting: Vec<Vec<u8>> = s.unconnected_overlays.iter().map(|w| w.0.clone()).collect();
    assert_eq!(waiting, vec![b"bob".to_vec(), b"carol".to_vec()]);
    s.attach_overlays();
    assert_eq!(s.clients[1].overlay.as_ref().unwrap().outbox, marked);
    assert_eq!(s.unconnected_overlays.len(), 2);
}

#[test]
fn broadcasts_spare_the_owner_and_the_leaving() {
    let mut s = server(None);
    s.join(user("a"), 0).unwrap();
    s.join(user("b"), 0).unwrap();
    s.join(user("c"), 0).unwrap();
    s.clients[2].state = ClientState::Disconnect;
    s.broadcast(b"Vx", Some(0));
    assert!(s.clients[0].queue.is_empty());
    assert_eq!(s.clients[1].queue, vec![b"Vx".to_vec()]);
    assert!(s.clients[2].queue.is_empty());
    s.broadcast(b"Om:all", None);
    assert_eq!(s.clients[0].queue, vec![b"Om:all".to_vec()]);
    assert_eq!(s.clients[1].queue, vec![b"Vx".to_vec(), b"Om:all".to_vec()]);
}

#[test]
fn datagram_broadcasts_need_a_known_address() {
    let mut s = server(None);
    s.join(user("a"), 0).unwrap();
    s.join(user("b"), 0).unwrap();
    s.join(user("c"), 0).unwrap();
    s.clients[0].udp_known = true;
    s.clients[1].udp_known = true;
    s.broadcast_udp(b"Zp", Some(1));
    assert_eq!(s.clients[0].udp_queue, vec![b"Zp".to_vec()]);
    assert!(s.clients[1].udp_queue.is_empty());
    assert!(s.clients[2].udp_queue.is_empty());
    assert!(s.clients[0].queue.is_empty());
}

#[test]
fn cars_get_the_smallest_free_id() {
    let mut c = Client::new(3, user("a"), 0);
    assert_eq!(c.register_car(Car::new(Vec::new())), Some(0));
    assert_eq!(c.register_car(Car::new(Vec::new())), Some(1));
    assert_eq!(c.register_car(Car::new(Vec::new())), Some(2));
    c.unregister_car(1);
    assert_eq!(c.cars.iter().map(|car| car.0).collect::<Vec<u8>>(), vec![0, 2]);
    assert_eq!(c.register_car(Car::new(Vec::new())), Some(1));
    assert_eq!(c.find_car(1), Some(2));
    assert_eq!(c.find_car(7), None);
    c.unregister_car(7);
    assert_eq!(c.cars.len(), 3);
}

#[test]
fn a_session_holds_at_most_one_car_for_each_id() {
    let mut c = Client::new(0, user("a"), 0);
    for i in 0..256 {
        assert_eq!(c.register_car(Car::new(Vec::new())), Some(i as u8));
    }
    assert_eq!(c.register_car(Car::new(Vec::new())), None);
    assert_eq!(c.cars.len(), 256);
}

#[test]
fn events_and_kicks_have_their_packets() {
    let mut c = Client::new(0, user("a"), 0);
    c.trigger_client_event("GetSize", b"0");
    c.kick("Not ready in time!");
    assert_eq!(c.queue, vec![b"E:GetSize:0".to_vec(), b"KNot ready in time!".to_vec()]);
    assert_eq!(c.state, ClientState::Disconnect);
    assert_eq!(c.get_id(), 0);
    assert_eq!(c.get_name(), b"a");
    assert_eq!(c.get_roles(), b"USER");
}

#[test]
fn the_queue_goes_out_framed_and_sealed() {
    let mut c = Client::new(0, user("a"), 0);
    let long = vec![b'x'; 500];
    c.queue_packet(b"Sna".to_vec());
    c.queue_packet(long.clone());
    let bytes = c.take_stream_bytes();
    assert!(c.queue.is_empty());
    let (packets, used) = parse_frames(&bytes);
    assert_eq!(used, bytes.len());
    assert_eq!(packets.len(), 2);
    assert_eq!(packets[0], b"Sna".to_vec());
    assert_eq!(&packets[1][..4], b"ABG:");
    assert_eq!(unseal(packets[1].clone()), Ok(long));
    assert_eq!(&bytes[..7], &frame(b"Sna").unwrap()[..]);
    assert!(c.take_stream_bytes().is_empty());
}

#[test]
fn datagrams_go_out_sealed_one_by_one() {
    let mut c = Client::new(0, user("a"), 0);
    let long = vec![b'y'; 401];
    c.queue_datagram(b"p".to_vec());
    c.queue_datagram(long.clone());
    let out = c.take_datagrams();
    assert!(c.udp_queue.is_empty());
    assert_eq!(out.len(), 2);
    assert_eq!(out[0], b"p".to_vec());
    assert_eq!(&out[1][..4], b"ABG:");
    assert_eq!(unseal(out[1].clone()), Ok(long));
}

#[test]
fn progress_counts_laps_and_the_way_along_the_track() {
    let mut c = Client::new(0, user("a"), 0);
    assert_eq!(c.get_progress(), 0);
    c.register_car(Car::new(Vec::new()));
    c.cars[0].1.laps = 2;
    c.cars[0].1.last_progress = 250_000;
    assert_eq!(c.get_progress(), 2_250_000);
    assert_eq!(c.fastest_lap(), u64::MAX);
    c.cars[0].1.lap_times = vec![90_000, 80_000];
    c.register_car(Car::new(Vec::new()));
    c.cars[1].1.lap_times = vec![70_000];
    assert_eq!(c.fastest_lap(), 70_000);
}

#[test]
fn the_overlay_is_shown_laps_once() {
    let mut c = Client::new(0, user("a"), 0);
    c.update_overlay();
    c.register_car(Car::new(Vec::new()));
    c.cars[0].1.laps = 2;
    c.cars[0].1.lap_times = vec![61_000];
    c.update_overlay();
    assert!(c.cars[0].1.laps_ui_dirty);
    c.overlay = Some(Overlay::new(b"Ha\0").unwrap().1);
    c.update_overlay();
    assert!(!c.cars[0].1.laps_ui_dirty);
    let mut expected = Overlay::new(b"Ha\0").unwrap().1;
    expected.set_laps(2);
    expected.set_lap_times(&vec![61_000]);
    assert_eq!(c.overlay.as_ref().unwrap().outbox, expected.outbox);
    c.update_overlay();
    assert_eq!(c.overlay.as_ref().unwrap().outbox, expected.outbox);
}

#[test]
fn physics_advisories_are_throttled() {
    let mut c = Client::new(0, user("a"), 1_000);
    let vel = Vec3 { x: 1_500_000, y: 0, z: -2_000_000 };
    let spin = Vec3 { x: 250_000, y: -1_000_000, z: 0 };
    c.physics_advisory(&vel, &spin, 1_050);
    assert!(c.queue.is_empty());
    assert_eq!(c.last_physics_update, 1_000);
    c.physics_advisory(&vel, &spin, 1_101);
    assert!(c.queue.is_empty());
    assert_eq!(c.last_physics_update, 1_101);
    c.register_car(Car::new(Vec::new()));
    c.physics_advisory(&vel, &spin, 1_201);
    assert!(c.queue.is_empty());
    c.physics_advisory(&vel, &spin, 1_202);
    assert_eq!(c.queue, vec![b"E:SetVelocity:1.5;0;-2#-0.25;1;0".to_vec()]);
    assert_eq!(c.last_physics_update, 1_202);
}

#[test]
fn well_formedness_can_be_checked() {
    let mut s = server(Some(vec!["alice", "bob"]));
    assert!(s.is_well_formed());
    s.join(user("alice"), 0).unwrap();
    s.join(user("bob"), 0).unwrap();
    s.clients[0].register_car(Car::new(Vec::new()));
    s.clients[0].register_car(Car::new(Vec::new()));
    assert!(s.is_well_formed());

    let mut twin_ids = s.clone();
    twin_ids.clients[1].id = 0;
    assert!(!twin_ids.is_well_formed());
    assert!(!twin_ids.has_distinct_ids());

    let mut twin_names = s.clone();
    twin_names.clients[1].info.username = " alice ".to_string();
    assert!(!twin_names.is_well_formed());
    assert!(!twin_names.has_distinct_names());

    let mut stranger = s.clone();
    stranger.clients[1].info.username = "mallory".to_string();
    assert!(!stranger.is_well_formed());

    let mut twin_cars = s.clone();
    twin_cars.clients[0].cars[1].0 = 0;
    assert!(!twin_cars.is_well_formed());
    assert!(!twin_cars.clients[0].is_well_formed(3));

    let mut lost = s.clone();
    lost.clients[0].cars[1].1.next_checkpoint = 3;
    assert!(!lost.is_well_formed());
    lost.checkpoints = 0;
    assert!(lost.is_well_formed());

    let mut open_race = s.clone();
    open_race.server_state = ServerState::Race;
    assert!(!open_race.is_well_formed());
    open_race.accepting = false;
    assert!(open_race.is_well_formed());
    open_race.finish_order = vec![0];
    assert!(!open_race.is_well_formed());
    open_race.clients[0].finished = true;
    assert!(open_race.is_well_formed());
    open_race.finish_order = vec![0, 7, 0];
    assert!(!open_race.is_well_formed());
    open_race.finish_order = vec![0, 7];
    assert!(open_race.is_well_formed());
    open_race.accepting = true;
    open_race.server_state = ServerState::WaitingForReady;
    assert!(!open_race.is_well_formed());
}

#[test]
fn compression_threshold_on_the_wire() {
    let chat = |len: usize| {
        let mut payload = b"C:0:".to_vec();
        payload.resize(len, b'm');
        payload
    };
    let mut c = Client::new(0, user("a"), 0);
    c.queue_packet(chat(401));
    c.queue_packet(chat(400));
    c.queue_datagram(chat(401));
    c.queue_datagram(chat(400));
    let (frames, _) = parse_frames(&c.take_stream_bytes());
    assert_eq!(frames.len(), 2);
    assert_eq!(&frames[0][..4], b"ABG:");
    assert_eq!(frames[1], chat(400));
    let datagrams = c.take_datagrams();
    assert_eq!(datagrams.len(), 2);
    assert_eq!(&datagrams[0][..4], b"ABG:");
    assert_eq!(datagrams[1], chat(400));
}
