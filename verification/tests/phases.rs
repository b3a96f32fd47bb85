use race_server::car::Car;
use race_server::client::{ClientState, UserData};
use race_server::config::{Config, EventSettings, GameSettings, NetworkSettings};
use race_server::math::{Vec3, WireQuat, UNIT};
use race_server::overlay::Overlay;
use race_server::server::grid::places;
use race_server::server::track::Sighting;
use race_server::server::Server;
use race_server::spawns::{Spawn, Spawns};
use race_server::state::ServerState;

fn config(expected: Option<Vec<&str>>) -> Config {
    Config {
        network: NetworkSettings { port: None, overlay_port: None },
        game: GameSettings {
            map: "/levels/track/info.json".to_string(),
            map_limits: None,
            map_limits_pit: None,
            map_limits_pit_exit: None,
            map_finish: None,
            map_spawns_pit: None,
            map_spawns_odd: None,
            map_spawns_even: None,
            map_checkpoints: None,
            server_physics: true,
            max_cars: None,
            max_laps: None,
            qual_time: None,
        },
        event: EventSettings {
            expected_clients: expected.map(|names| names.iter().map(|n| n.to_string()).collect()),
        },
    }
}

fn row(x: i64) -> Spawns {
    let at = |y: i64| Spawn {
        pos: Vec3 { x: x * UNIT, y: y * UNIT, z: 0 },
        rot: WireQuat { x: 0, y: 0, z: 0, w: UNIT },
    };
    Spawns { extrapolate: true, spawns: vec![at(0), at(10)] }
}

fn server(expected: Option<Vec<&str>>, names: &[&str]) -> Server {
    let mut s = Server::new(config(expected), row(100), row(1), row(2), 3, 0);
    for name in names {
        s.join(UserData { username: name.to_string(), roles: "USER".to_string() }, 0).unwrap();
    }
    s
}

fn framed(message: &str) -> Vec<u8> {
    let mut out = (message.len() as u32).to_le_bytes().to_vec();
    out.extend_from_slice(message.as_bytes());
    out
}

fn give_overlay(s: &mut Server, at: usize) {
    s.clients[at].overlay = Some(Overlay::new(b"Hx\0").unwrap().1);
}

fn outbox(s: &Server, at: usize) -> Vec<u8> {
    s.clients[at].overlay.as_ref().unwrap().outbox.clone()
}

fn give_car(s: &mut Server, at: usize) {
    s.clients[at].register_car(Car::new(b"{}".to_vec()));
    s.clients[at].cars[0].1.laps_ui_dirty = false;
}

fn enter(s: &mut Server, state: ServerState, now: u64) {
    s.accepting = false;
    s.server_state = state;
    s.server_state_start = now;
    s.generic_timer0 = now;
}

#[test]
fn waiting_for_clients_goes_on_when_all_are_there() {
    let mut s = server(Some(vec!["alice", "bob"]), &["alice"]);
    give_overlay(&mut s, 0);
    s.advance(1_000);
    assert_eq!(s.server_state, ServerState::WaitingForClients);
    assert!(outbox(&s, 0).is_empty());
    s.join(UserData { username: " bob ".to_string(), roles: String::new() }, 1_500).unwrap();
    s.advance(2_000);
    assert_eq!(s.server_state, ServerState::WaitingForReady);
    assert_eq!(s.server_state_start, 2_000);
    assert!(s.accepting);
    assert_eq!(outbox(&s, 0), framed("S2"));
}

#[test]
fn waiting_for_clients_times_out_after_300_seconds() {
    let mut s = server(Some(vec!["alice", "bob"]), &["alice"]);
    s.advance(299_999);
    assert_eq!(s.server_state, ServerState::WaitingForClients);
    assert!(s.accepting);
    s.advance(300_000);
    assert_eq!(s.server_state, ServerState::WaitingForReady);
    assert!(!s.accepting);
}

#[test]
fn without_a_whitelist_nobody_is_waited_for() {
    let mut s = server(None, &[]);
    s.advance(1);
    assert_eq!(s.server_state, ServerState::WaitingForReady);
    assert!(!s.accepting);
}

#[test]
fn readiness_opens_spawning_and_closes_the_roster() {
    let mut s = server(None, &["alice", "bob"]);
    s.server_state = ServerState::WaitingForReady;
    give_overlay(&mut s, 1);
    s.clients[0].ready = true;
    s.advance(10);
    assert_eq!(s.server_state, ServerState::WaitingForReady);
    assert!(!s.allow_spawns);
    s.clients[1].ready = true;
    s.advance(20);
    assert_eq!(s.server_state, ServerState::WaitingForSpawns);
    assert_eq!(s.server_state_start, 20);
    assert!(s.allow_spawns);
    assert!(!s.accepting);
    assert!(s.clients.iter().all(|c| !c.ready));
    assert_eq!(outbox(&s, 1), framed("S3"));
}

#[test]
fn spawns_start_qualifying_in_the_pits() {
    let mut s = server(None, &["alice", "bob"]);
    enter(&mut s, ServerState::WaitingForSpawns, 0);
    s.allow_spawns = true;
    give_car(&mut s, 0);
    s.clients[0].register_car(Car::new(b"{}".to_vec()));
    s.advance(5);
    assert_eq!(s.server_state, ServerState::WaitingForSpawns);
    give_car(&mut s, 1);
    give_overlay(&mut s, 0);
    s.advance(7);
    assert_eq!(s.server_state, ServerState::Qualifying);
    assert_eq!(s.server_state_start, 7);
    assert!(!s.allow_spawns);
    assert!(s.force_respawn_pits);
    assert_eq!(outbox(&s, 0), framed("S4"));
    assert_eq!(
        s.clients[0].queue,
        vec![b"E:Respawn:100;0;0#0;0;0;1".to_vec(), b"E:Respawn:100;10;0#0;0;0;1".to_vec()]
    );
    assert_eq!(s.clients[1].queue, vec![b"E:Respawn:100;20;0#0;0;0;1".to_vec()]);
}

#[test]
fn qualifying_ordering() {
    let mut s = server(None, &["alice", "bob", "carol"]);
    enter(&mut s, ServerState::Qualifying, 0);
    s.force_respawn_pits = true;
    for at in 0..3 {
        give_car(&mut s, at);
    }
    s.clients[0].cars[0].1.lap_times = vec![80_000, 75_000];
    s.clients[1].cars[0].1.lap_times = vec![60_000];
    s.clients[2].cars[0].1.lap_times = vec![90_000, 95_000];
    for c in s.clients.iter_mut() {
        c.ready = true;
        c.cars[0].1.laps = 2;
        c.cars[0].1.next_checkpoint = 1;
        c.cars[0].1.lap_start = Some(3);
        c.cars[0].1.offtrack_start = Some(4);
    }
    s.advance(120_999);
    assert_eq!(s.server_state, ServerState::Qualifying);
    s.advance(121_000);
    assert_eq!(s.server_state, ServerState::LiningUp);
    assert_eq!(s.clients.iter().map(|c| c.grid_spot).collect::<Vec<usize>>(), vec![2, 1, 3]);
    for c in s.clients.iter() {
        let car = &c.cars[0].1;
        assert!(!c.ready);
        assert_eq!(car.laps, 0);
        assert!(car.lap_times.is_empty());
        assert_eq!(car.next_checkpoint, 0);
        assert_eq!(car.lap_start, None);
        assert_eq!(car.offtrack_start, None);
    }
    assert!(!s.allow_respawns && !s.allow_spawns && !s.force_respawn_pits);
    assert_eq!(s.generic_timer0, 121_000);
    assert_eq!(s.server_state_start, 121_000);
}

#[test]
fn sessions_without_a_lap_line_up_last_in_roster_order() {
    let mut s = server(None, &["a", "b", "c", "d"]);
    enter(&mut s, ServerState::Qualifying, 0);
    for at in 0..4 {
        give_car(&mut s, at);
    }
    s.clients[2].cars[0].1.lap_times = vec![70_000];
    s.clients[3].cars[0].1.lap_times = vec![70_000];
    s.set_grid();
    assert_eq!(s.clients.iter().map(|c| c.grid_spot).collect::<Vec<usize>>(), vec![3, 4, 1, 2]);
}

#[test]
fn places_are_a_permutation_in_key_order() {
    assert_eq!(places(&vec![75, 60, 90]), vec![2, 1, 3]);
    assert_eq!(places(&vec![5, 5, 5]), vec![1, 2, 3]);
    assert_eq!(places(&vec![-1, i128::MAX, i128::MIN, -1]), vec![2, 4, 1, 3]);
    assert_eq!(places(&Vec::new()), Vec::<usize>::new());
    let keys: Vec<i128> = (0..40).map(|i| ((i * 37) % 11) as i128).collect();
    let mut got = places(&keys);
    for i in 0..keys.len() {
        for j in 0..keys.len() {
            if keys[i] < keys[j] {
                assert!(got[i] < got[j]);
            }
        }
    }
    got.sort();
    assert_eq!(got, (1..=40).collect::<Vec<usize>>());
}

#[test]
fn lining_up_holds_cars_to_their_grid_slots() {
    let mut s = server(None, &["alice", "bob", "carol"]);
    enter(&mut s, ServerState::LiningUp, 0);
    for at in 0..3 {
        give_car(&mut s, at);
    }
    s.clients[0].grid_spot = 1;
    s.clients[1].grid_spot = 2;
    s.clients[2].grid_spot = 3;
    s.clients[0].cars[0].1.pos = Vec3 { x: UNIT, y: UNIT, z: 3 * UNIT };
    s.clients[1].cars[0].1.pos = Vec3 { x: 2 * UNIT, y: 0, z: 3 * UNIT + 1 };
    s.clients[2].cars[0].1.pos = Vec3 { x: 0, y: 0, z: 0 };
    s.advance(999);
    assert!(s.clients.iter().all(|c| c.queue.is_empty()));
    assert_eq!(s.generic_timer0, 0);
    s.advance(1_000);
    assert_eq!(s.generic_timer0, 1_000);
    assert_eq!(s.server_state, ServerState::LiningUp);
    assert!(s.clients[0].queue.is_empty());
    assert_eq!(s.clients[1].queue, vec![b"E:Respawn:2;0;0#0;0;0;1".to_vec()]);
    assert_eq!(s.clients[2].queue, vec![b"E:Respawn:1;10;0#0;0;0;1".to_vec()]);
}

#[test]
fn grid_slots_alternate_between_the_sides() {
    let s = server(None, &[]);
    let y = |spot: usize| s.get_grid_slot(spot).map(|slot| (slot.pos.x / UNIT, slot.pos.y / UNIT));
    assert_eq!(y(0), None);
    assert_eq!(y(1), Some((1, 0)));
    assert_eq!(y(2), Some((2, 0)));
    assert_eq!(y(3), Some((1, 10)));
    assert_eq!(y(4), Some((2, 10)));
    assert_eq!(y(5), Some((1, 20)));
    assert_eq!(y(6), Some((2, 20)));
}

#[test]
fn lining_up_ends_when_everybody_is_ready() {
    let mut s = server(None, &["alice", "bob"]);
    enter(&mut s, ServerState::LiningUp, 0);
    give_overlay(&mut s, 0);
    s.clients[0].ready = true;
    s.clients[1].ready = true;
    s.advance(500);
    assert_eq!(s.server_state, ServerState::LiningUp);
    s.advance(1_200);
    assert_eq!(s.server_state, ServerState::Countdown);
    assert_eq!(s.server_state_start, 1_200);
    assert_eq!(s.generic_timer0, 1_200);
    assert_eq!(outbox(&s, 0), framed("S6"));
    assert!(s.clients.iter().all(|c| c.state == ClientState::Connected));
}

#[test]
fn lining_up_times_out_after_45_seconds() {
    let mut s = server(None, &["alice", "bob"]);
    enter(&mut s, ServerState::LiningUp, 0);
    s.clients[0].ready = true;
    s.advance(45_999);
    assert_eq!(s.server_state, ServerState::LiningUp);
    s.advance(46_000);
    assert_eq!(s.server_state, ServerState::Countdown);
    assert_eq!(s.clients[0].state, ClientState::Connected);
    assert!(s.clients[0].queue.is_empty());
    assert_eq!(s.clients[1].state, ClientState::Disconnect);
    assert_eq!(s.clients[1].queue, vec![b"KNot ready in time!".to_vec()]);
}

#[test]
fn the_countdown_steps_once_a_second() {
    let mut s = server(None, &["alice"]);
    enter(&mut s, ServerState::Countdown, 10_000);
    give_overlay(&mut s, 0);
    s.advance(11_000);
    assert_eq!(s.countdown, 5);
    let mut now = 10_000;
    let mut expected = Vec::new();
    for count in (0..5).rev() {
        now += 1_001;
        s.advance(now);
        assert_eq!(s.countdown, count);
        assert_eq!(s.generic_timer0, now);
        assert_eq!(s.server_state, ServerState::Countdown);
        expected.extend_from_slice(&framed(&format!("C{}", count)));
    }
    assert_eq!(outbox(&s, 0), expected);
    s.advance(now + 1_000);
    assert_eq!(s.server_state, ServerState::Countdown);
    assert!(!s.force_respawn_pits);
    s.advance(now + 1_001);
    assert_eq!(s.server_state, ServerState::Race);
    assert!(s.force_respawn_pits);
    expected.extend_from_slice(&framed("S7"));
    assert_eq!(outbox(&s, 0), expected);
}

#[test]
fn the_race_tells_positions_by_progress() {
    let mut s = server(None, &["alice", "bob", "carol", "dave"]);
    enter(&mut s, ServerState::Race, 0);
    for at in 0..3 {
        give_car(&mut s, at);
        give_overlay(&mut s, at);
    }
    s.clients[0].cars[0].1.laps = 1;
    s.clients[0].cars[0].1.last_progress = 500_000;
    s.clients[1].cars[0].1.laps = 2;
    s.clients[1].cars[0].1.last_progress = 100_000;
    s.clients[2].cars[0].1.laps = 1;
    s.clients[2].cars[0].1.last_progress = 500_000;
    s.advance(50);
    assert!(outbox(&s, 0).is_empty());
    s.advance(51);
    assert_eq!(s.generic_timer0, 51);
    let told = |a: &str, b: &str| {
        let mut out = framed(a);
        out.extend_from_slice(&framed(b));
        out
    };
    assert_eq!(outbox(&s, 0), told("A2", "B4"));
    assert_eq!(outbox(&s, 1), told("A1", "B4"));
    assert_eq!(outbox(&s, 2), told("A3", "B4"));
    assert_eq!(s.server_state, ServerState::Race);
}

#[test]
fn finishers_enter_the_finish_order_once() {
    let mut s = server(None, &["alice", "bob", "carol"]);
    enter(&mut s, ServerState::Race, 0);
    for at in 0..2 {
        give_car(&mut s, at);
    }
    s.clients[0].cars[0].1.laps = 5;
    s.clients[1].cars[0].1.laps = 6;
    s.advance(10);
    assert_eq!(s.finish_order, vec![1]);
    assert!(s.clients[1].finished && !s.clients[0].finished && !s.clients[2].finished);
    s.advance(20);
    assert_eq!(s.finish_order, vec![1]);
    s.clients[0].cars[0].1.laps = 6;
    give_car(&mut s, 2);
    s.clients[2].cars[0].1.laps = 9;
    s.advance(30);
    assert_eq!(s.finish_order, vec![1, 0, 2]);
    assert_eq!(s.server_state, ServerState::Finish);
    assert_eq!(s.generic_timer0, 30);
    assert!(!s.exit_requested);
    s.advance(31_029);
    assert!(!s.exit_requested);
    s.advance(31_030);
    assert!(s.exit_requested);
    assert_eq!(s.finish_order, vec![1, 0, 2]);
}

#[test]
fn an_unknown_phase_stands_still() {
    let mut s = server(None, &["alice"]);
    s.server_state = ServerState::Unknown;
    s.advance(1_000_000);
    assert_eq!(s.server_state, ServerState::Unknown);
    assert!(s.clients[0].queue.is_empty());
}

#[test]
fn the_overlays_are_refreshed_every_100_milliseconds() {
    let mut s = server(None, &["alice", "bob"]);
    enter(&mut s, ServerState::Race, 0);
    give_overlay(&mut s, 0);
    give_overlay(&mut s, 1);
    s.update_overlays(100);
    assert!(outbox(&s, 0).is_empty());
    s.update_overlays(101);
    let mut expected = framed("M5");
    expected.extend_from_slice(&framed("S7"));
    assert_eq!(outbox(&s, 0), expected);
    assert_eq!(outbox(&s, 1), expected);
    assert_eq!(s.overlay_update_time, 101);
    s.server_state = ServerState::Finish;
    s.update_overlays(300);
    expected.extend_from_slice(&framed("M0"));
    expected.extend_from_slice(&framed("S8"));
    assert_eq!(outbox(&s, 0), expected);
}

#[test]
fn the_track_is_looked_at_for_one_session_in_turn() {
    let mut s = server(None, &["alice", "bob"]);
    enter(&mut s, ServerState::Qualifying, 0);
    give_car(&mut s, 0);
    give_car(&mut s, 1);
    let off = Sighting { on_track: Some(false), in_pit: false, at_checkpoint: false, progress: Some(250_000) };
    let on = Sighting { on_track: Some(true), in_pit: false, at_checkpoint: true, progress: None };
    s.observe(&vec![off], 100);
    assert_eq!(s.track_limits_client, 1);
    assert_eq!(s.clients[0].cars[0].1.offtrack_start, Some(100));
    assert_eq!(s.clients[0].cars[0].1.last_progress, 250_000);
    assert_eq!(s.clients[1].cars[0].1.offtrack_start, None);
    s.observe(&vec![off, off], 150);
    assert_eq!(s.track_limits_client, 2);
    assert_eq!(s.clients[1].cars[0].1.offtrack_start, Some(150));
    s.observe(&vec![on], 175);
    assert_eq!(s.track_limits_client, 3);
    assert_eq!(s.clients[0].incidents, 0);
    s.track_limits_client = 0;
    s.observe(&vec![on], 400);
    assert_eq!(s.clients[0].incidents, 1);
    assert_eq!(s.clients[0].cars[0].1.offtrack_start, None);
    assert_eq!(s.clients[0].cars[0].1.laps, 1);
    assert_eq!(s.clients[0].cars[0].1.lap_start, Some(400));
    assert_eq!(s.clients[0].cars[0].1.last_progress, 250_000);
    s.track_limits_client = 255;
    s.observe(&Vec::new(), 500);
    assert_eq!(s.track_limits_client, 0);
}

#[test]
fn the_track_is_not_looked_at_outside_qualifying_and_race() {
    let mut s = server(None, &["alice"]);
    enter(&mut s, ServerState::LiningUp, 0);
    give_car(&mut s, 0);
    assert!(!s.wants_physics());
    let off = Sighting { on_track: Some(false), in_pit: false, at_checkpoint: true, progress: Some(1) };
    s.observe(&vec![off], 100);
    assert_eq!(s.track_limits_client, 1);
    assert_eq!(s.clients[0].cars[0].1.offtrack_start, None);
    assert_eq!(s.clients[0].cars[0].1.laps, 0);
    s.server_state = ServerState::Race;
    assert!(s.wants_physics());
    s.config.game.server_physics = false;
    assert!(!s.wants_physics());
}

#[test]
fn a_contact_reaches_the_session_it_names() {
    let mut s = server(None, &["alice", "bob"]);
    give_car(&mut s, 1);
    let v = Vec3 { x: UNIT, y: 0, z: 0 };
    s.contact(1, &v, &v, 101);
    s.contact(7, &v, &v, 101);
    assert!(s.clients[0].queue.is_empty());
    assert_eq!(s.clients[1].queue, vec![b"E:SetVelocity:1;0;0#-1;0;0".to_vec()]);
}

#[test]
fn a_tick_advances_looks_shows_and_sweeps() {
    let mut s = server(None, &["alice", "bob"]);
    enter(&mut s, ServerState::LiningUp, 0);
    give_car(&mut s, 0);
    give_car(&mut s, 1);
    give_overlay(&mut s, 0);
    s.clients[0].grid_spot = 1;
    s.clients[1].grid_spot = 2;
    s.clients[0].cars[0].1.pos = Vec3 { x: UNIT, y: 0, z: 0 };
    s.clients[0].ready = true;
    let gone = s.process(&Vec::new(), 46_000);
    assert_eq!(gone.len(), 1);
    assert_eq!(gone[0].info.username, "bob");
    assert_eq!(
        gone[0].queue,
        vec![b"E:Respawn:2;0;0#0;0;0;1".to_vec(), b"KNot ready in time!".to_vec()]
    );
    assert_eq!(s.server_state, ServerState::Countdown);
    assert_eq!(s.track_limits_client, 1);
    assert_eq!(s.clients.len(), 1);
    assert_eq!(s.clients[0].info.username, "alice");
    assert_eq!(s.clients[0].queue, vec![b"Od:1-0".to_vec()]);
    let mut expected = framed("S6");
    expected.extend_from_slice(&framed("M0"));
    expected.extend_from_slice(&framed("S6"));
    assert_eq!(outbox(&s, 0), expected);
}
