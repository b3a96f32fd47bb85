use race_server::math::{lerp, saturate, Quat, Vec3, WireQuat};
use race_server::spawns::{Spawn, Spawns};

fn slot(x: i64, y: i64, z: i64, w: i64) -> Spawn {
    Spawn {
        pos: Vec3 { x, y, z },
        rot: WireQuat { x: 0, y: 0, z: w / 2, w },
    }
}

fn origin() -> Spawn {
    Spawn {
        pos: Vec3 { x: 0, y: 0, z: 0 },
        rot: WireQuat { x: 0, y: 0, z: 0, w: 0 },
    }
}

#[test]
fn listed_slots_come_as_they_are() {
    let spawns = Spawns {
        extrapolate: true,
        spawns: vec![slot(1, 2, 3, 4), slot(10, 20, 30, 40), slot(5, 5, 5, 5)],
    };
    assert_eq!(spawns.get_client_spawn(0), slot(1, 2, 3, 4));
    assert_eq!(spawns.get_client_spawn(2), slot(5, 5, 5, 5));
}

#[test]
fn extrapolation_is_lerp_of_the_first_two_slots() {
    let a = slot(1_000_000, 2_000_000, 0, 1_000_000);
    let b = slot(4_000_000, 1_000_000, 0, 1_000_000);
    let spawns = Spawns { extrapolate: true, spawns: vec![a, b] };
    for k in 2..=255u8 {
        let got = spawns.get_client_spawn(k);
        let t = k as i64;
        assert_eq!(got.pos.x, 1_000_000 + 3_000_000 * t);
        assert_eq!(got.pos.y, 2_000_000 - 1_000_000 * t);
        assert_eq!(got.pos.z, 0);
        assert_eq!(got.rot.w, 1_000_000);
        assert_eq!(got.rot.z, 500_000);
        assert_eq!(got.pos.x, lerp(a.pos.x, b.pos.x, k));
    }
}

#[test]
fn without_extrapolation_the_list_ends() {
    let spawns = Spawns { extrapolate: false, spawns: vec![slot(1, 1, 1, 1), slot(2, 2, 2, 2)] };
    assert_eq!(spawns.get_client_spawn(2), origin());
    assert_eq!(spawns.get_client_spawn(255), origin());
}

#[test]
fn one_slot_cannot_extrapolate() {
    let spawns = Spawns { extrapolate: true, spawns: vec![slot(1, 1, 1, 1)] };
    assert_eq!(spawns.get_client_spawn(0), slot(1, 1, 1, 1));
    assert_eq!(spawns.get_client_spawn(1), origin());
    let empty = Spawns { extrapolate: true, spawns: Vec::new() };
    assert_eq!(empty.get_client_spawn(0), origin());
}

#[test]
fn lerp_saturates_at_the_range_of_the_numbers() {
    assert_eq!(lerp(0, 10, 0), 0);
    assert_eq!(lerp(0, 10, 1), 10);
    assert_eq!(lerp(5, -5, 3), -25);
    assert_eq!(lerp(0, i64::MAX, 2), i64::MAX);
    assert_eq!(lerp(0, i64::MIN, 2), i64::MIN);
    assert_eq!(saturate(i128::MAX), i64::MAX);
    assert_eq!(saturate(-7), -7);
}

#[test]
fn event_data_lists_position_and_rotation() {
    let spawn = Spawn {
        pos: Vec3 { x: 12_500_000, y: -3_000_000, z: 250_000 },
        rot: WireQuat { x: 0, y: 0, z: 707_107, w: -707_107 },
    };
    assert_eq!(
        String::from_utf8(spawn.to_event_data()).unwrap(),
        "12.5;-3;0.25#0;0;0.707107;-0.707107"
    );
}

#[test]
fn wire_order_of_a_quaternion_round_trips() {
    let wire = WireQuat { x: 1, y: 2, z: 3, w: 4 };
    let q = Quat::from_wire(&wire);
    assert_eq!(q, Quat { w: 4, x: 1, y: 2, z: 3 });
    assert_eq!(q.to_wire(), wire);
    assert_eq!(Quat::from_wire(&q.to_wire()), q);
}

#[test]
fn distances_compare_without_roots() {
    let a = Vec3 { x: 0, y: 0, z: 0 };
    let on_circle = Vec3 { x: 600_000, y: 800_000, z: 0 };
    let outside = Vec3 { x: 600_001, y: 800_000, z: 0 };
    assert!(!a.farther_xy(&on_circle, 1_000_000));
    assert!(a.farther_xy(&outside, 1_000_000));
    assert!(!a.farther(&on_circle, 1_000_000));
    let above = Vec3 { x: 600_000, y: 800_000, z: 1 };
    assert!(a.farther(&above, 1_000_000));
    assert!(!a.farther_xy(&above, 1_000_000));
    assert!(!a.farther_z(&Vec3 { x: 0, y: 0, z: -3_000_000 }, 3_000_000));
    assert!(a.farther_z(&Vec3 { x: 0, y: 0, z: -3_000_001 }, 3_000_000));
    let far = Vec3 { x: i64::MAX, y: i64::MIN, z: i64::MAX };
    let other = Vec3 { x: i64::MIN, y: i64::MAX, z: i64::MIN };
    assert!(far.farther(&other, u32::MAX));
    assert!(far.farther_xy(&other, u32::MAX));
    assert!(!far.farther(&far, 0));
}
