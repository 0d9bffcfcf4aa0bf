use heredian::geometry::{dir_damage, hit, intersected, Area, CollisionMask};
use heredian::net::{Addr, Message};
use heredian::sim::{distance4, move_boss, move_chars, move_enemy, select_target, BOSS_LOCK};
use heredian::world::Ambients;
use heredian::{PacketCharInfo, ACTION_ATTACK, ACTION_IDLE, ACTION_WALK, DIRECTION_DOWN, DIRECTION_LEFT, DIRECTION_RIGHT, DIRECTION_UP};

fn open_area() -> Area {
    Area { width: 100, height: 100, mask: CollisionMask { width: 100, height: 100, walls: vec![false; 10000] } }
}

fn boxed(x: i16, y: i16) -> PacketCharInfo {
    PacketCharInfo { x, y, w: 10, h: 10, idmap: 1, healt: 20, ..Default::default() }
}

fn world_with(enemy: PacketCharInfo, boss_num: i16) -> (Ambients, Vec<Message<PacketCharInfo>>) {
    let mut w = Ambients::new(boss_num, vec![open_area()], vec![enemy]);
    let mut out = Vec::new();
    w.connect_client(Addr { ip: 1, port: 1 }, &mut out);
    out.clear();
    (w, out)
}

#[test]
fn test_distance() {
    let (mut p1, mut p2) = (PacketCharInfo::default(), PacketCharInfo::default());
    p1.x = 5;
    p1.y = 5;
    p1.w = 1;
    p1.h = p1.w;

    p2.x = 4;
    p2.y = 4;
    p2.w = 1;
    p2.h = p1.w;

    let dist = ((distance4(&p1, &p2) as f32) / 4.0).sqrt();
    assert_eq!(dist, 2.0f32.sqrt());

    let dist = ((distance4(&p2, &p1) as f32) / 4.0).sqrt();
    assert_eq!(dist, 2.0f32.sqrt());

    let dist = ((distance4(&p2, &p2) as f32) / 4.0).sqrt();
    assert_eq!(dist, 0.0);

    let dist = ((distance4(&p1, &p1) as f32) / 4.0).sqrt();
    assert_eq!(dist, 0.0);
}

#[test]
fn test_dir_damage() {
    let area = open_area();
    let attacker = PacketCharInfo { d: DIRECTION_RIGHT, damage: 5, ..boxed(0, 0) };
    let mut target = boxed(9, 0);
    assert!(dir_damage(&attacker, &mut target, &area));
    assert_eq!(target.healt, 15);
    assert_eq!(target.dhit, DIRECTION_RIGHT);
    assert_eq!(target.x, 12);
    assert!(!target.exit);
}

#[test]
fn attack_points_follow_the_facing() {
    let area = open_area();
    let mut below = boxed(0, 12);
    let up = PacketCharInfo { d: DIRECTION_UP, damage: 1, ..boxed(0, 20) };
    assert!(dir_damage(&up, &mut below, &area));
    assert_eq!(below.y, 9);
    let left = PacketCharInfo { d: DIRECTION_LEFT, damage: 1, ..boxed(30, 30) };
    let mut far = boxed(0, 0);
    assert!(!dir_damage(&left, &mut far, &area));
    assert_eq!(far, boxed(0, 0));
    let diagonal = PacketCharInfo { d: DIRECTION_UP | DIRECTION_LEFT, damage: 1, ..boxed(0, 0) };
    let mut near = boxed(0, 0);
    assert!(!dir_damage(&diagonal, &mut near, &area));
}

#[test]
fn knockback_into_a_wall_is_undone_but_damage_stays() {
    let area = open_area();
    let mut t = boxed(1, 0);
    assert!(hit(&mut t, 5, 5, DIRECTION_LEFT, 3, &area));
    assert_eq!(t.x, 1);
    assert_eq!(t.healt, 17);
    assert_eq!(t.dhit, DIRECTION_LEFT);
}

#[test]
fn health_floors_at_zero_and_exit_stays() {
    let area = open_area();
    let mut t = boxed(40, 40);
    let damages = [7i16, 7, 7, 7, 0];
    let mut seen_exit = false;
    for d in damages {
        let (cx, cy) = (t.x as i32 + 5, t.y as i32 + 5);
        assert!(hit(&mut t, cx, cy, DIRECTION_DOWN, d, &area));
        assert!(t.healt >= 0);
        if seen_exit {
            assert!(t.exit);
        }
        assert_eq!(t.exit, t.healt == 0);
        seen_exit = t.exit;
    }
    assert_eq!(t.healt, 0);
    assert!(t.exit);
    assert!(!hit(&mut t, 0, 0, DIRECTION_DOWN, -50, &area));
    let (cx, cy) = (t.x as i32 + 5, t.y as i32 + 5);
    assert!(hit(&mut t, cx, cy, DIRECTION_DOWN, -5, &area));
    assert_eq!(t.healt, 5);
    assert!(t.exit);
}

#[test]
fn enemy_pursues_a_player_in_sight() {
    let e = PacketCharInfo { vision: 50, step: 4, ..boxed(0, 0) };
    let (mut w, mut out) = world_with(e, 9);
    w.clients[0] = PacketCharInfo { idchar: w.clients[0].idchar, ..boxed(30, 0) };
    let mut lock = 0;
    w.enemy_tick(0, &mut lock, true, &mut out);
    assert_eq!(out.len(), 1);
    match out[0] {
        Message::Broadcast(p) => {
            assert_eq!(p.a, ACTION_WALK);
            assert_eq!((p.x, p.y), (4, 0));
            assert_eq!(p.d, DIRECTION_RIGHT);
            assert_eq!(p.totchar, 1);
            assert_eq!(p.totenemies, 1);
        },
        _ => panic!("expected a broadcast"),
    }
}

#[test]
fn enemy_without_a_target_idles_silently() {
    let e = PacketCharInfo { vision: 10, step: 4, a: ACTION_WALK, ..boxed(0, 0) };
    let (mut w, mut out) = world_with(e, 9);
    w.clients[0] = PacketCharInfo { idchar: w.clients[0].idchar, ..boxed(60, 0) };
    let mut lock = 0;
    w.enemy_tick(0, &mut lock, true, &mut out);
    assert!(out.is_empty());
    assert_eq!(w.enemies[0].a, ACTION_IDLE);
    assert_eq!(w.enemies[0].x, 0);
}

#[test]
fn dead_enemy_is_marked_then_pruned() {
    let e = PacketCharInfo { healt: 0, ..boxed(0, 0) };
    let (mut w, mut out) = world_with(e, 9);
    let mut lock = 0;
    w.enemy_tick(0, &mut lock, true, &mut out);
    assert!(w.enemies[0].exit);
    assert_eq!(out.len(), 1);
    w.prune_enemies();
    assert!(w.enemies.is_empty());
}

#[test]
fn enemy_strikes_a_touching_player_when_the_chance_comes_up() {
    let e = PacketCharInfo { vision: 50, step: 0, d: DIRECTION_RIGHT, damage: 6, ..boxed(0, 0) };
    let (mut w, mut out) = world_with(e, 9);
    let id = w.clients[0].idchar;
    w.clients[0] = PacketCharInfo { idchar: id, ..boxed(9, 0) };
    let mut lock = 0;
    w.enemy_tick(0, &mut lock, false, &mut out);
    assert_eq!(w.clients[0].healt, 20);
    w.enemy_tick(0, &mut lock, true, &mut out);
    assert_eq!(w.clients[0].healt, 14);
    assert!(out.iter().any(|m| matches!(m, Message::Broadcast(p) if p.idchar == id && p.healt == 14)));
}

#[test]
fn boss_decides_once_then_waits() {
    let boss = PacketCharInfo { numchar: 9, vision: 100, step: 5, ..boxed(0, 0) };
    let (mut w, mut out) = world_with(boss, 9);
    let id = w.clients[0].idchar;
    w.clients[0] = PacketCharInfo { idchar: id, ..boxed(12, 0) };
    let mut lock = 0;
    w.enemy_tick(0, &mut lock, false, &mut out);
    assert_eq!(lock, BOSS_LOCK);
    let after = w.enemies[0];
    assert_eq!(after.a, ACTION_ATTACK);
    assert_eq!(after.d, DIRECTION_RIGHT);
    assert_eq!((after.x, after.y), (0, 0));
    assert_eq!(out.len(), 1);
    for _ in 0..19 {
        w.enemy_tick(0, &mut lock, false, &mut out);
        assert_eq!((w.enemies[0].x, w.enemies[0].y), (0, 0));
    }
    assert_eq!(lock, 1);
    assert_eq!(out.len(), 1);
}

#[test]
fn boss_steps_along_the_larger_gap() {
    let mut boss = PacketCharInfo { step: 5, ..boxed(0, 0) };
    let player = boxed(60, 100);
    let mut lock = 0;
    assert!(move_boss(&mut boss, &player, &mut lock));
    assert_eq!((boss.x, boss.y), (0, 5));
    assert_eq!(boss.d, DIRECTION_DOWN);
    assert!(!move_boss(&mut boss, &player, &mut lock));
    assert_eq!(lock, BOSS_LOCK - 1);
}

#[test]
fn pursuit_splits_the_step_between_axes() {
    let area = open_area();
    let mut e = PacketCharInfo { step: 10, ..boxed(0, 0) };
    let target = boxed(30, 40);
    move_enemy(&mut e, &target, &area);
    assert_eq!((e.x, e.y), (6, 8));
    assert_eq!(e.d, DIRECTION_DOWN);
    let mut stuck = PacketCharInfo { step: 10, ..boxed(0, 0) };
    move_enemy(&mut stuck, &boxed(-50, 0), &area);
    assert_eq!((stuck.x, stuck.y), (0, 0));
    assert_eq!(stuck.d, DIRECTION_LEFT);
}

#[test]
fn farthest_player_in_sight_is_chosen() {
    let e = PacketCharInfo { vision: 40, ..boxed(0, 0) };
    let cs = vec![boxed(10, 0), boxed(30, 0), boxed(0, 30), boxed(50, 0), PacketCharInfo { exit: true, ..boxed(35, 0) }];
    assert_eq!(select_target(&e, &cs), Some(2));
    assert_eq!(select_target(&e, &vec![boxed(90, 90)]), None);
}

#[test]
fn walking_players_move_and_are_broadcast() {
    let mut cs = vec![
        PacketCharInfo { a: ACTION_WALK, d: DIRECTION_LEFT, step: 2, ..boxed(10, 10) },
        PacketCharInfo { a: ACTION_IDLE, d: DIRECTION_LEFT, step: 2, ..boxed(10, 10) },
        PacketCharInfo { a: 2, d: DIRECTION_DOWN, step: 3, ..boxed(10, 10) },
    ];
    let mut out = Vec::new();
    move_chars(&mut cs, &mut out);
    assert_eq!(cs[0].x, 8);
    assert_eq!(cs[1].x, 10);
    assert_eq!(cs[2].y, 13);
    assert_eq!(out.len(), 2);
}

#[test]
fn touching_boxes_intersect() {
    assert!(intersected(&boxed(0, 0), &boxed(10, 10)));
    assert!(!intersected(&boxed(0, 0), &boxed(11, 0)));
}

#[test]
fn walls_obstruct() {
    let mut walls = vec![false; 10000];
    walls[20 * 100 + 25] = true;
    let area = Area { width: 100, height: 100, mask: CollisionMask { width: 100, height: 100, walls } };
    assert!(area.obstructed(15, 10, 10, 10));
    assert!(!area.obstructed(30, 10, 10, 10));
    assert!(area.obstructed(-1, 10, 10, 10));
    assert!(area.obstructed(10, 95, 10, 10));
}

#[test]
fn enemy_pass_gives_each_enemy_its_turn_in_order() {
    let chaser = PacketCharInfo { idchar: 1, vision: 50, step: 4, d: DIRECTION_RIGHT, damage: 3, ..boxed(0, 0) };
    let dead = PacketCharInfo { idchar: 2, healt: 0, ..boxed(80, 80) };
    let mut w = Ambients::new(9, vec![open_area()], vec![chaser, dead]);
    let mut out = Vec::new();
    w.connect_client(Addr { ip: 1, port: 1 }, &mut out);
    out.clear();
    let id = w.clients[0].idchar;
    w.clients[0] = PacketCharInfo { idchar: id, ..boxed(9, 0) };
    let mut lock = 0;
    w.run_enemies_with(&mut lock, &vec![true, false], &mut out);
    assert_eq!(w.clients[0].healt, 17);
    assert!(w.enemies[1].exit);
    assert_eq!(out.len(), 3);
    assert!(matches!(out[0], Message::Broadcast(p) if p.idchar == id && p.healt == 17));
    assert!(matches!(out[1], Message::Broadcast(p) if p.idchar == 1 && p.a == ACTION_WALK));
    assert!(matches!(out[2], Message::Broadcast(p) if p.idchar == 2 && p.exit));
    w.run_enemies(&mut lock, &mut out);
    assert_eq!(w.enemies.len(), 1);
    assert_eq!(w.enemies[0].idchar, 1);
}
