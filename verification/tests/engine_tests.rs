use buster_engine::command::Command;
use buster_engine::entities::{Buster, BusterState, Roamer};
use buster_engine::geometry::Coord;
use buster_engine::machine::StateMachine;

fn unit(id: i32, x: i32, y: i32) -> Buster {
    Buster::new(id, x, y, false, false)
}

#[test]
fn search_to_move_to_bust_scenario() {
    // Unit at (0,0), roamer at (2000,0): inner exclusion radius is 900 and
    // the outer capture radius 1750, so the unit first approaches, then
    // captures once within the annulus.
    let mut m = StateMachine::new(0);
    m.update_tick(vec![Roamer::new(7, 2000, 0, 0, 3)], vec![unit(1, 0, 0)], vec![]);
    let cmd = m.player_tick(0);
    assert_eq!(m.good_busters[0].state, BusterState::MovingToGhost);
    assert_eq!(m.good_busters[0].busting_target_id, Some(7));
    assert_eq!(cmd, Command::Move { x: 2000, y: 0 });

    // next round the unit has closed to distance 1000: inside the outer
    // radius, outside the inner one
    m.update_tick(vec![Roamer::new(7, 2000, 0, 0, 3)], vec![unit(1, 1000, 0)], vec![]);
    let cmd = m.player_tick(0);
    assert_eq!(m.good_busters[0].state, BusterState::Busting);
    assert_eq!(cmd, Command::Bust { id: 7 });
}

#[test]
fn too_close_roamer_forces_backing_away() {
    let mut m = StateMachine::new(0);
    m.update_tick(vec![Roamer::new(7, 2000, 0, 0, 3)], vec![unit(1, 0, 0)], vec![]);
    m.player_tick(0);
    // the unit ends up at distance 500: inside the inner exclusion radius
    m.update_tick(vec![Roamer::new(7, 2000, 0, 0, 3)], vec![unit(1, 1500, 0)], vec![]);
    let cmd = m.player_tick(0);
    assert_eq!(m.good_busters[0].state, BusterState::MovingAwayFromGhost);
    // reflection away from the roamer through the unit's own position
    assert_eq!(cmd, Command::Move { x: 1000, y: 0 });
}

#[test]
fn stunned_unit_emits_move_and_no_action() {
    let mut m = StateMachine::new(0);
    m.update_tick(vec![], vec![unit(1, 0, 0)], vec![]);
    let dest = m.good_busters[0].movement_target;
    // observed incapacitated next round
    m.update_tick(vec![], vec![Buster::new(1, 0, 0, false, true)], vec![]);
    let cmd = m.player_tick(0);
    assert_eq!(m.good_busters[0].state, BusterState::Stunned);
    assert_eq!(cmd, Command::Move { x: dest.x, y: dest.y });
    assert!(!matches!(cmd, Command::Bust { .. }));
    assert!(!matches!(cmd, Command::Stun { .. }));
}

#[test]
fn claimed_opponent_is_excluded_for_teammates() {
    // Two units both see the same stunnable opponent; after the first
    // claims it, the second's query must exclude it.
    let mut m = StateMachine::new(0);
    m.update_tick(
        vec![],
        vec![unit(1, 0, 0), unit(2, 100, 0)],
        vec![Buster::new_opponent(9, 500, 0, false, false)],
    );
    let u0 = m.good_busters[0];
    let u1 = m.good_busters[1];
    assert_eq!(m.find_best_asshole_in_los(&u0), Some(0));
    m.set_asshole_target(0, 0);
    assert_eq!(m.bad_busters[0].state, BusterState::DeathMarked);
    assert_eq!(m.good_busters[0].stunning_target_id, Some(9));
    assert_eq!(m.find_best_asshole_in_los(&u1), None);
}

#[test]
fn opponent_query_prefers_carrier_and_respects_cooldown() {
    let mut m = StateMachine::new(0);
    m.update_tick(
        vec![],
        vec![unit(1, 0, 0)],
        vec![
            Buster::new_opponent(8, 400, 0, false, false),
            Buster::new_opponent(9, 600, 0, true, false),
        ],
    );
    let u = m.good_busters[0];
    // the carrier is preferred although it is not the first in range
    assert_eq!(m.find_best_asshole_in_los(&u), Some(1));
    // a unit on cooldown gets no candidate at all
    let mut cooling = u;
    cooling.stun_timer = 5;
    assert_eq!(m.find_best_asshole_in_los(&cooling), None);
}

#[test]
fn best_roamer_floors_resistance_and_keeps_first() {
    let mut m = StateMachine::new(0);
    m.update_tick(
        vec![
            Roamer::new(4, 1000, 0, 0, 2),
            Roamer::new(5, 1200, 0, 0, 3),
            Roamer::new(6, 800, 0, 0, 20),
        ],
        vec![unit(1, 0, 0)],
        vec![],
    );
    // resistances 2 and 3 both floor to key 3: the first found wins
    let u = m.good_busters[0];
    assert_eq!(m.find_best_ghost_in_los(&u), Some(0));
}

#[test]
fn difficulty_gate_defers_hard_roamers() {
    let mut m = StateMachine::new(0);
    let hard = Roamer::new(3, 0, 0, 0, 16);
    let easy = Roamer::new(4, 0, 0, 0, 15);
    m.turn_count = 49;
    assert!(!m.ghost_difficulty_test(&hard));
    assert!(m.ghost_difficulty_test(&easy));
    m.turn_count = 50;
    assert!(m.ghost_difficulty_test(&hard));
}

#[test]
fn roamer_round_trip_keeps_identity() {
    // A roamer observed, then observed again unchanged, reports the same
    // record and is not reinserted as a new one.
    let mut m = StateMachine::new(0);
    m.update_tick(vec![Roamer::new(5, 3000, 400, 2, 9)], vec![unit(1, 0, 0)], vec![]);
    assert_eq!(m.all_ghosts.len(), 1);
    m.update_tick(vec![Roamer::new(5, 3000, 400, 2, 9)], vec![unit(1, 0, 0)], vec![]);
    assert_eq!(m.all_ghosts.len(), 1);
    let g = m.all_ghosts[0];
    assert_eq!(g.entity_id, 5);
    assert_eq!(g.coords, Coord::new(3000, 400));
    assert_eq!(g.people_trapping, 2);
    assert_eq!(g.stamina, 9);
}

#[test]
fn removed_roamer_clears_unit_references() {
    let mut m = StateMachine::new(0);
    m.update_tick(vec![Roamer::new(7, 2000, 0, 0, 3)], vec![unit(1, 0, 0)], vec![]);
    m.player_tick(0);
    assert_eq!(m.good_busters[0].busting_target_id, Some(7));
    // the roamer vanishes from the next snapshot
    m.update_tick(vec![], vec![unit(1, 500, 0)], vec![]);
    assert!(m.all_ghosts.is_empty());
    assert_eq!(m.good_busters[0].busting_target_id, None);
}

#[test]
fn removed_opponent_clears_stun_references() {
    let mut m = StateMachine::new(0);
    m.update_tick(
        vec![],
        vec![unit(1, 0, 0)],
        vec![Buster::new_opponent(9, 500, 0, false, false)],
    );
    m.set_asshole_target(0, 0);
    assert_eq!(m.good_busters[0].stunning_target_id, Some(9));
    m.update_tick(vec![], vec![unit(1, 0, 0)], vec![]);
    assert!(m.bad_busters.is_empty());
    assert_eq!(m.good_busters[0].stunning_target_id, None);
}

#[test]
fn greedy_formation_gives_distinct_points_and_beats_generation_order() {
    // Three units, three generated points: every unit receives a distinct
    // generated point, and the greedy sum is no worse than assigning the
    // points in generation order.
    let starts = [(0, 0), (4000, 9000), (9000, 100)];
    let mut m = StateMachine::new(0);
    m.update_tick(
        vec![],
        vec![
            unit(1, starts[0].0, starts[0].1),
            unit(2, starts[1].0, starts[1].1),
            unit(3, starts[2].0, starts[2].1),
        ],
        vec![],
    );
    let pts = Coord::new(500, 500).throw_coords(3, false, 6500, false);
    let assigned: Vec<Coord> = m.good_busters.iter().map(|b| b.movement_target).collect();
    // distinct, and each one generated
    for i in 0..3 {
        assert!(pts.contains(&assigned[i]));
        for j in 0..i {
            assert_ne!(assigned[i], assigned[j]);
        }
    }
    let mut greedy_sum: i64 = 0;
    let mut order_sum: i64 = 0;
    for i in 0..3 {
        let at = Coord::new(starts[i].0, starts[i].1);
        greedy_sum += at.distance_to(&assigned[i]) as i64;
        order_sum += at.distance_to(&pts[i]) as i64;
    }
    assert!(greedy_sum <= order_sum);
}

#[test]
fn camping_threshold_forces_camp_formation() {
    let mut m = StateMachine::new(0);
    m.update_tick(vec![], vec![unit(1, 0, 0), unit(2, 100, 0)], vec![]);
    for _ in 0..99 {
        m.update_tick(vec![], vec![], vec![]);
    }
    assert_eq!(m.turn_count, 100);
    // the camp formation points were assigned at the threshold round
    let expected = vec![Coord::new(13000, 8250), Coord::new(15250, 6000)];
    let targets: Vec<Coord> = m.good_busters.iter().map(|b| b.movement_target).collect();
    for t in &targets {
        assert!(expected.contains(t));
    }
    assert_ne!(targets[0], targets[1]);
    // every searching unit transitions toward its camp point
    let c0 = m.player_tick(0);
    let c1 = m.player_tick(1);
    assert_eq!(m.good_busters[0].state, BusterState::MovingToCamp);
    assert_eq!(m.good_busters[1].state, BusterState::MovingToCamp);
    let t0 = m.good_busters[0].movement_target;
    let t1 = m.good_busters[1].movement_target;
    assert_eq!(c0, Command::Move { x: t0.x, y: t0.y });
    assert_eq!(c1, Command::Move { x: t1.x, y: t1.y });
}

#[test]
fn broadcast_steal_waits_for_threshold() {
    let mut m = StateMachine::new(0);
    m.update_tick(vec![Roamer::new(7, 2000, 0, 0, 3)], vec![unit(1, 0, 0)], vec![]);
    m.player_tick(0);
    // the unit now targets the roamer, so the next ping lists it
    m.update_tick(vec![Roamer::new(7, 2000, 0, 0, 3)], vec![unit(1, 0, 0)], vec![]);
    assert_eq!(m.global_ping_stack, vec![7]);
    let idle = unit(2, 5000, 5000);
    assert_eq!(m.steal_target_ghost_reference(&idle), None);
    m.turn_count = 50;
    assert_eq!(m.steal_target_ghost_reference(&idle), Some(7));
}

#[test]
fn stun_command_resets_cooldown() {
    let mut m = StateMachine::new(0);
    m.update_tick(
        vec![],
        vec![unit(1, 0, 0)],
        vec![Buster::new_opponent(9, 500, 0, true, false)],
    );
    let cmd = m.player_tick(0);
    // the opponent is within stun range at once: the unit claims it,
    // closes, and stuns in the same round
    assert_eq!(cmd, Command::Stun { id: 9 });
    assert_eq!(m.good_busters[0].state, BusterState::Stunning);
    assert_eq!(m.good_busters[0].stun_timer, 20);
}

#[test]
fn carried_roamer_goes_home_and_is_released() {
    let mut m = StateMachine::new(0);
    m.update_tick(vec![], vec![unit(1, 8000, 4000)], vec![]);
    m.player_tick(0);
    // the unit reports carrying a roamer far from home while capturing
    m.update_tick(vec![], vec![Buster::new(1, 8000, 4000, true, false)], vec![]);
    let mut u = m.good_busters[0];
    u.state = BusterState::Busting;
    m.good_busters[0] = u;
    let cmd = m.player_tick(0);
    assert_eq!(m.good_busters[0].state, BusterState::MovingToHome);
    assert_eq!(cmd, Command::Move { x: 0, y: 0 });
    // once within the release radius of the home corner, it releases
    m.update_tick(vec![], vec![Buster::new(1, 800, 400, true, false)], vec![]);
    let cmd = m.player_tick(0);
    assert_eq!(m.good_busters[0].state, BusterState::Releasing);
    assert_eq!(cmd, Command::Release);
}

#[test]
fn random_destination_stays_inside_arena() {
    let m = StateMachine::new(0);
    for _ in 0..50 {
        let mut u = unit(1, 0, 0);
        m.set_new_buster_movement_coords(&mut u);
        let t = u.movement_target;
        assert!(0 <= t.x && t.x < 16000);
        assert!(0 <= t.y && t.y < 9000);
    }
}

#[test]
fn searching_unit_redraws_destination_when_arrived() {
    let mut m = StateMachine::new(0);
    m.update_tick(vec![], vec![unit(1, 0, 0)], vec![]);
    // plant the unit exactly on its destination
    let mut u = m.good_busters[0];
    u.state = BusterState::Searching;
    u.movement_target = u.coords;
    m.good_busters[0] = u;
    m.player_tick(0);
    let after = m.good_busters[0];
    assert_eq!(after.state, BusterState::Searching);
    assert!(0 <= after.movement_target.x && after.movement_target.x < 16000);
    assert!(0 <= after.movement_target.y && after.movement_target.y < 9000);
}

#[test]
fn hard_roamer_is_skipped_early() {
    // An early-game unit ignores a high-resistance roamer entirely.
    let mut m = StateMachine::new(0);
    m.update_tick(vec![Roamer::new(7, 2000, 0, 0, 16)], vec![unit(1, 0, 0)], vec![]);
    m.player_tick(0);
    assert_eq!(m.good_busters[0].state, BusterState::Searching);
    assert_eq!(m.good_busters[0].busting_target_id, None);
}

#[test]
fn new_opponents_append_after_survivors() {
    let mut m = StateMachine::new(0);
    m.update_tick(
        vec![],
        vec![unit(1, 0, 0)],
        vec![Buster::new_opponent(8, 3000, 0, false, false)],
    );
    // opponent 8 survives and is refreshed in place; 9 is a first sighting
    m.update_tick(
        vec![],
        vec![unit(1, 0, 0)],
        vec![
            Buster::new_opponent(9, 4000, 0, false, false),
            Buster::new_opponent(8, 3100, 0, false, false),
        ],
    );
    assert_eq!(m.bad_busters.len(), 2);
    assert_eq!(m.bad_busters[0].entity_id, 8);
    assert_eq!(m.bad_busters[0].coords, Coord::new(3100, 0));
    assert_eq!(m.bad_busters[1].entity_id, 9);
}

#[test]
fn broadcast_list_follows_unit_order() {
    let mut m = StateMachine::new(0);
    let ghosts = vec![
        Roamer::new(4, 2000, 0, 0, 3),
        Roamer::new(5, 14000, 8000, 0, 3),
    ];
    m.update_tick(
        ghosts.clone(),
        vec![unit(1, 0, 0), unit(2, 15000, 8000)],
        vec![],
    );
    m.player_tick(0);
    m.player_tick(1);
    assert_eq!(m.good_busters[0].busting_target_id, Some(4));
    assert_eq!(m.good_busters[1].busting_target_id, Some(5));
    m.update_tick(
        ghosts,
        vec![unit(1, 0, 0), unit(2, 15000, 8000)],
        vec![],
    );
    assert_eq!(m.global_ping_stack, vec![4, 5]);
}

#[test]
fn steal_picks_the_closest_broadcast_roamer() {
    let mut m = StateMachine::new(0);
    let ghosts = vec![
        Roamer::new(4, 2000, 0, 0, 3),
        Roamer::new(5, 14000, 8000, 0, 3),
    ];
    m.update_tick(
        ghosts.clone(),
        vec![unit(1, 0, 0), unit(2, 15000, 8000)],
        vec![],
    );
    m.player_tick(0);
    m.player_tick(1);
    m.update_tick(
        ghosts,
        vec![unit(1, 0, 0), unit(2, 15000, 8000)],
        vec![],
    );
    m.turn_count = 60;
    let near_second = unit(3, 12000, 7000);
    assert_eq!(m.steal_target_ghost_reference(&near_second), Some(5));
    let near_first = unit(3, 1000, 1000);
    assert_eq!(m.steal_target_ghost_reference(&near_first), Some(4));
}

#[test]
fn controlled_units_are_never_removed() {
    // Controlled units persist even when a snapshot omits them.
    let mut m = StateMachine::new(0);
    m.update_tick(vec![], vec![unit(1, 0, 0), unit(2, 100, 0)], vec![]);
    m.update_tick(vec![], vec![unit(2, 150, 0)], vec![]);
    assert_eq!(m.good_busters.len(), 2);
    assert_eq!(m.good_busters[0].entity_id, 1);
    assert_eq!(m.good_busters[0].coords, Coord::new(0, 0));
    assert_eq!(m.good_busters[1].coords, Coord::new(150, 0));
}

#[test]
fn claim_marker_persists_until_the_opponent_is_removed() {
    let mut m = StateMachine::new(0);
    m.update_tick(
        vec![],
        vec![unit(1, 0, 0)],
        vec![Buster::new_opponent(9, 500, 0, true, false)],
    );
    let cmd = m.player_tick(0);
    assert_eq!(cmd, Command::Stun { id: 9 });
    assert_eq!(m.bad_busters[0].state, BusterState::DeathMarked);
    // next round the opponent is observed incapacitated; the unit's own
    // cooldown is now running, so it falls back to searching without
    // releasing the claim: the marker stays on the record
    m.update_tick(
        vec![],
        vec![unit(1, 0, 0)],
        vec![Buster::new_opponent(9, 500, 0, false, true)],
    );
    m.player_tick(0);
    assert_eq!(m.good_busters[0].state, BusterState::Searching);
    assert_eq!(m.bad_busters[0].state, BusterState::DeathMarked);
    // only removal clears it, together with the unit's reference
    m.update_tick(vec![], vec![unit(1, 0, 0)], vec![]);
    assert!(m.bad_busters.is_empty());
    assert_eq!(m.good_busters[0].stunning_target_id, None);
}

#[test]
fn backing_away_dead_zone_uses_unit_to_target_distance() {
    let mut m = StateMachine::new(0);
    m.update_tick(vec![Roamer::new(7, 2000, 0, 0, 3)], vec![unit(1, 1900, 0)], vec![]);
    // within rounded distance 300 of the target the reflection degenerates:
    // the unit is sent to the arena origin instead
    let mut u = m.good_busters[0];
    u.busting_target_id = Some(7);
    assert_eq!(m.do_away_ghost_move(&u), Command::Move { x: 0, y: 0 });
    // at distance 500 the reflection through the unit's position stands
    u.coords = Coord::new(1500, 0);
    assert_eq!(m.do_away_ghost_move(&u), Command::Move { x: 1000, y: 0 });
}

#[test]
fn retargeting_needs_a_strictly_more_attractive_roamer() {
    let mut m = StateMachine::new(0);
    // the hard roamer is ranked worse, so the unit targets the second one
    m.update_tick(
        vec![
            Roamer::new(4, 2000, 0, 0, 20),
            Roamer::new(5, 2100, 0, 0, 9),
        ],
        vec![unit(1, 0, 0)],
        vec![],
    );
    let cmd = m.player_tick(0);
    assert_eq!(m.good_busters[0].busting_target_id, Some(5));
    assert_eq!(cmd, Command::Move { x: 2100, y: 0 });
    // next round both roamers rank equally: a merely different best roamer
    // does not displace the current target
    m.update_tick(
        vec![
            Roamer::new(4, 2000, 0, 0, 9),
            Roamer::new(5, 2100, 0, 0, 9),
        ],
        vec![unit(1, 0, 0)],
        vec![],
    );
    let cmd = m.player_tick(0);
    assert_eq!(m.good_busters[0].busting_target_id, Some(5));
    assert_eq!(cmd, Command::Move { x: 2100, y: 0 });
    // once the first roamer ranks strictly better, the unit retargets
    m.update_tick(
        vec![
            Roamer::new(4, 2000, 0, 0, 2),
            Roamer::new(5, 2100, 0, 0, 9),
        ],
        vec![unit(1, 0, 0)],
        vec![],
    );
    let cmd = m.player_tick(0);
    assert_eq!(m.good_busters[0].busting_target_id, Some(4));
    assert_eq!(cmd, Command::Move { x: 2000, y: 0 });
}
