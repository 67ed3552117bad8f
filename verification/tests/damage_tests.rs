use eternal_gauntlet::damage::{
    apply_damage, despawn_dead_enemies, find_enemy, handle_wand_input, propagate, secondary_arc, DamageEvent,
    SecondaryArc, ARC_RADIUS, WAND_ARCS, WAND_RANGE,
};
use eternal_gauntlet::targeting::{
    distance_squared, get_enemies_in_cone, get_nearest_enemy_in_radius, is_within,
    is_within_angle, nearest_enemy, Enemy, HalfAngle, Position, TargetFilter,
};

fn at(x: i32, y: i32) -> Position {
    Position { x, y }
}

fn enemy(id: u64, x: i32, y: i32) -> Enemy {
    Enemy::new(id, at(x, y), 100, 1)
}

fn event(target: u64, amount: u32, arcs: u32) -> DamageEvent {
    DamageEvent { target, amount, arcs }
}

#[test]
fn a_chain_of_three_arcs_strikes_three_times() {
    let mut enemies =
        vec![enemy(1, 0, 0), enemy(2, 100, 0), enemy(3, 210, 0), enemy(4, 320, 0), enemy(5, 430, 0)];
    let struck = propagate(&mut enemies, event(1, 5, 3));
    assert_eq!(struck, vec![event(1, 5, 3), event(2, 5, 2), event(1, 5, 1)]);
    assert_eq!(struck.len(), 3);
    assert_eq!(enemies[0].damage_taken, 10);
    assert_eq!(enemies[1].damage_taken, 5);
    assert_eq!(enemies[2].damage_taken, 0);
}

#[test]
fn a_chain_moves_along_a_row() {
    let mut enemies = vec![enemy(1, 0, 0), enemy(2, 100, 0), enemy(3, 190, 0), enemy(4, 270, 0)];
    let struck = propagate(&mut enemies, event(1, 5, 3));
    assert_eq!(struck, vec![event(1, 5, 3), event(2, 5, 2), event(3, 5, 1)]);
    assert_eq!(enemies[3].damage_taken, 0);
    let struck = propagate(&mut enemies, event(1, 5, 4));
    assert_eq!(struck, vec![event(1, 5, 4), event(2, 5, 3), event(3, 5, 2), event(4, 5, 1)]);
}

#[test]
fn a_chain_without_neighbours_strikes_once() {
    let mut enemies = vec![enemy(1, 0, 0), enemy(2, 151, 0), enemy(3, 0, -151)];
    let struck = propagate(&mut enemies, event(1, 5, 3));
    assert_eq!(struck, vec![event(1, 5, 3)]);
    assert_eq!(enemies[0].damage_taken, 5);
    assert_eq!(enemies[1].damage_taken, 0);
    let mut alone = vec![enemy(9, 4, 4)];
    assert_eq!(propagate(&mut alone, event(9, 5, 3)), vec![event(9, 5, 3)]);
}

#[test]
fn a_chain_reaches_the_edge_of_the_radius() {
    let mut enemies = vec![enemy(1, 0, 0), enemy(2, 150, 0)];
    let struck = propagate(&mut enemies, event(1, 5, 2));
    assert_eq!(struck, vec![event(1, 5, 2), event(2, 5, 1)]);
    let mut diagonal = vec![enemy(1, 0, 0), enemy(2, 90, 120), enemy(3, 91, 120)];
    assert_eq!(propagate(&mut diagonal, event(1, 5, 2)), vec![event(1, 5, 2), event(2, 5, 1)]);
    let mut too_far = vec![enemy(1, 0, 0), enemy(3, 91, 120)];
    assert_eq!(propagate(&mut too_far, event(1, 5, 2)), vec![event(1, 5, 2)]);
}

#[test]
fn a_chain_may_return_to_an_enemy() {
    let mut enemies = vec![enemy(1, 0, 0), enemy(2, 50, 0)];
    let struck = propagate(&mut enemies, event(2, 7, 5));
    assert_eq!(
        struck,
        vec![event(2, 7, 5), event(1, 7, 4), event(2, 7, 3), event(1, 7, 2), event(2, 7, 1)]
    );
    assert_eq!(enemies[0].damage_taken, 14);
    assert_eq!(enemies[1].damage_taken, 21);
}

#[test]
fn an_event_without_arcs_still_strikes() {
    let mut enemies = vec![enemy(1, 0, 0), enemy(2, 50, 0)];
    assert_eq!(propagate(&mut enemies, event(1, 5, 0)), vec![event(1, 5, 0)]);
    assert_eq!(propagate(&mut enemies, event(1, 5, 1)), vec![event(1, 5, 1)]);
    assert_eq!(enemies[0].damage_taken, 10);
    assert_eq!(enemies[1].damage_taken, 0);
}

#[test]
fn an_event_for_a_missing_enemy_does_nothing() {
    let mut enemies = vec![enemy(1, 0, 0), enemy(2, 50, 0)];
    let before = enemies.clone();
    assert_eq!(propagate(&mut enemies, event(3, 5, 3)), vec![]);
    assert_eq!(enemies, before);
    assert_eq!(apply_damage(&mut enemies, &event(3, 5, 3)), None);
    assert_eq!(enemies, before);
    let mut nobody: Vec<Enemy> = vec![];
    assert_eq!(propagate(&mut nobody, event(1, 5, 3)), vec![]);
}

#[test]
fn dead_enemies_are_struck_too() {
    let mut enemies = vec![Enemy::new(1, at(0, 0), 3, 1), Enemy::new(2, at(10, 0), 3, 1)];
    let struck = propagate(&mut enemies, event(1, 5, 3));
    assert_eq!(struck.len(), 3);
    assert!(enemies[0].is_dead());
    assert!(enemies[1].is_dead());
    assert_eq!(enemies[0].damage_taken, 10);
    assert_eq!(enemies[0].remaining_health(), 0);
    assert_eq!(enemies[0].health, 3);
}

#[test]
fn health_left_after_hits() {
    let mut enemies = vec![Enemy::new(1, at(0, 0), 12, 1)];
    assert!(!enemies[0].is_dead());
    assert_eq!(enemies[0].remaining_health(), 12);
    apply_damage(&mut enemies, &event(1, 5, 1));
    assert_eq!(enemies[0].remaining_health(), 7);
    apply_damage(&mut enemies, &event(1, 7, 1));
    assert!(enemies[0].is_dead());
    assert_eq!(enemies[0].remaining_health(), 0);
    let mut worn = vec![Enemy { damage_taken: u128::MAX - 2, ..enemy(1, 0, 0) }];
    apply_damage(&mut worn, &event(1, 5, 1));
    assert_eq!(worn[0].damage_taken, u128::MAX);
}

#[test]
fn a_hit_reports_the_enemy_it_struck() {
    let mut enemies = vec![enemy(1, 0, 0), enemy(2, 50, 0)];
    let arc = apply_damage(&mut enemies, &event(2, 5, 3));
    assert_eq!(arc, Some(SecondaryArc { from_target: 2, damage_event: event(2, 5, 3) }));
    assert_eq!(enemies[1].damage_taken, 5);
    assert_eq!(enemies[1].position, at(50, 0));
    assert_eq!(enemies[1].id, 2);
    assert_eq!(enemies[0], enemy(1, 0, 0));
}

#[test]
fn an_arc_goes_to_the_nearest_other_enemy() {
    let enemies = vec![enemy(1, 0, 0), enemy(2, 100, 0), enemy(3, 0, 60), enemy(4, -60, 0)];
    let arc = SecondaryArc { from_target: 1, damage_event: event(1, 5, 3) };
    assert_eq!(secondary_arc(&enemies, &arc), Some(event(3, 5, 2)));
    let last = SecondaryArc { from_target: 1, damage_event: event(1, 5, 1) };
    assert_eq!(secondary_arc(&enemies, &last), None);
    let none = SecondaryArc { from_target: 1, damage_event: event(1, 5, 0) };
    assert_eq!(secondary_arc(&enemies, &none), None);
    let gone = SecondaryArc { from_target: 8, damage_event: event(8, 5, 3) };
    assert_eq!(secondary_arc(&enemies, &gone), None);
    let other = SecondaryArc { from_target: 3, damage_event: event(1, 5, 3) };
    assert_eq!(secondary_arc(&enemies, &other), Some(event(1, 5, 2)));
}

#[test]
fn enemies_are_found_by_id() {
    let enemies = vec![enemy(4, 0, 0), enemy(2, 1, 0), enemy(4, 2, 0)];
    assert_eq!(find_enemy(&enemies, 4), Some(0));
    assert_eq!(find_enemy(&enemies, 2), Some(1));
    assert_eq!(find_enemy(&enemies, 1), None);
    assert_eq!(find_enemy(&vec![], 1), None);
}

#[test]
fn the_cone_holds_what_lies_ahead() {
    let shooter = at(0, 0);
    let aim = at(1, 0);
    let right = HalfAngle::half_right();
    assert!(is_within(shooter, at(200, 50), 300));
    assert!(is_within_angle(shooter, aim, right, at(200, 50)));
    assert!(is_within(shooter, at(0, 200), 300));
    assert!(!is_within_angle(shooter, aim, right, at(0, 200)));
    let enemies = vec![enemy(1, 0, 200), enemy(2, 200, 50)];
    assert_eq!(get_enemies_in_cone(shooter, &enemies, aim, 300, right), Some(1));
    let off_axis = vec![enemy(1, 0, 200)];
    assert_eq!(get_enemies_in_cone(shooter, &off_axis, aim, 300, right), None);
}

#[test]
fn the_edge_of_the_cone_is_inside() {
    let shooter = at(10, 10);
    let aim = at(20, 10);
    let right = HalfAngle::half_right();
    assert!(is_within_angle(shooter, aim, right, at(110, 110)));
    assert!(is_within_angle(shooter, aim, right, at(110, -90)));
    assert!(!is_within_angle(shooter, aim, right, at(110, 111)));
    assert!(!is_within_angle(shooter, aim, right, at(110, -91)));
    assert!(!is_within_angle(shooter, aim, right, at(0, 10)));
    assert!(!is_within_angle(shooter, aim, right, at(-90, 110)));
}

#[test]
fn nothing_is_in_a_cone_without_direction() {
    let right = HalfAngle::half_right();
    assert!(!is_within_angle(at(0, 0), at(0, 0), right, at(5, 0)));
    assert!(!is_within_angle(at(0, 0), at(1, 0), right, at(0, 0)));
    let enemies = vec![enemy(1, 5, 0)];
    assert_eq!(get_enemies_in_cone(at(0, 0), &enemies, at(0, 0), 300, right), None);
    assert_eq!(get_enemies_in_cone(at(5, 0), &enemies, at(9, 0), 300, right), None);
}

#[test]
fn cones_of_other_widths() {
    let origin = at(0, 0);
    let aim = at(0, 5);
    let narrow = HalfAngle { tan_numerator: 1, tan_denominator: 2 };
    assert!(is_within_angle(origin, aim, narrow, at(50, 100)));
    assert!(!is_within_angle(origin, aim, narrow, at(51, 100)));
    let line = HalfAngle { tan_numerator: 0, tan_denominator: 1 };
    assert!(is_within_angle(origin, aim, line, at(0, 7)));
    assert!(!is_within_angle(origin, aim, line, at(1, 7000)));
    assert!(!is_within_angle(origin, aim, line, at(0, -7)));
    let half_plane = HalfAngle { tan_numerator: 1, tan_denominator: 0 };
    assert!(is_within_angle(origin, aim, half_plane, at(1000, 0)));
    assert!(is_within_angle(origin, aim, half_plane, at(-1000, 1)));
    assert!(!is_within_angle(origin, aim, half_plane, at(1000, -1)));
}

#[test]
fn the_cone_search_takes_the_nearest() {
    let enemies = vec![enemy(1, 250, 0), enemy(2, 100, 90), enemy(3, 301, 0), enemy(4, 120, 0)];
    let found = get_enemies_in_cone(at(0, 0), &enemies, at(40, 0), 300, HalfAngle::half_right());
    assert_eq!(found, Some(3));
    let far = vec![enemy(3, 301, 0)];
    assert_eq!(get_enemies_in_cone(at(0, 0), &far, at(40, 0), 300, HalfAngle::half_right()), None);
    let edge = vec![enemy(3, 300, 0)];
    assert_eq!(get_enemies_in_cone(at(0, 0), &edge, at(40, 0), 300, HalfAngle::half_right()), Some(0));
}

#[test]
fn the_radius_search_leaves_one_enemy_out() {
    let enemies = vec![enemy(1, 0, 0), enemy(2, 30, 40), enemy(3, 0, 49)];
    assert_eq!(get_nearest_enemy_in_radius(&enemies, at(0, 0), 150, 1), Some(2));
    assert_eq!(get_nearest_enemy_in_radius(&enemies, at(0, 0), 150, 3), Some(0));
    assert_eq!(get_nearest_enemy_in_radius(&enemies, at(0, 0), 150, 7), Some(0));
    assert_eq!(get_nearest_enemy_in_radius(&enemies, at(0, 0), 49, 1), Some(2));
    assert_eq!(get_nearest_enemy_in_radius(&enemies, at(0, 0), 48, 1), None);
    assert_eq!(get_nearest_enemy_in_radius(&vec![], at(0, 0), 150, 1), None);
}

#[test]
fn among_equals_the_first_wins() {
    let enemies = vec![enemy(1, 0, 50), enemy(2, 50, 0), enemy(3, -50, 0), enemy(4, 30, 40)];
    assert_eq!(get_nearest_enemy_in_radius(&enemies, at(0, 0), 150, 9), Some(0));
    assert_eq!(get_nearest_enemy_in_radius(&enemies, at(0, 0), 150, 1), Some(1));
    assert_eq!(get_nearest_enemy_in_radius(&enemies, at(0, 0), 150, 2), Some(0));
    let filter = TargetFilter::Radius { radius: 150, exclude: 1 };
    assert_eq!(nearest_enemy(&enemies, at(0, 0), &filter), Some(1));
    assert!(filter.accepts(at(0, 0), &enemies[3]));
    assert!(!filter.accepts(at(0, 0), &enemies[0]));
}

#[test]
fn distances_at_the_ends_of_the_world() {
    let low = at(i32::MIN, i32::MIN);
    let high = at(i32::MAX, i32::MAX);
    let side = (u32::MAX as u128) * (u32::MAX as u128);
    assert_eq!(distance_squared(low, high), 2 * side);
    assert_eq!(distance_squared(high, low), 2 * side);
    assert_eq!(distance_squared(at(3, 4), at(0, 0)), 25);
    assert_eq!(distance_squared(at(-3, 4), at(-3, 4)), 0);
    assert!(!is_within(low, high, u32::MAX));
    assert!(is_within(at(i32::MIN, 0), at(i32::MAX, 0), u32::MAX));
    assert!(is_within_angle(low, high, HalfAngle::half_right(), at(i32::MAX, i32::MIN)));
    assert!(is_within_angle(low, high, HalfAngle::half_right(), at(i32::MAX - 1, i32::MIN)));
    let raised = at(i32::MIN, i32::MIN + 1);
    assert!(!is_within_angle(raised, high, HalfAngle::half_right(), at(i32::MAX, i32::MIN)));
    let widest = HalfAngle { tan_numerator: u32::MAX, tan_denominator: u32::MAX };
    assert!(is_within_angle(low, high, widest, at(i32::MAX, i32::MIN)));
}

#[test]
fn the_wand_fires_at_the_nearest_enemy_ahead() {
    let enemies = vec![enemy(11, 0, 200), enemy(12, 200, 50), enemy(13, 100, 0)];
    let shot = handle_wand_input(at(0, 0), &enemies, Some(at(9, 0)), true, true, 525);
    assert_eq!(shot, Some(event(13, 525, 3)));
    assert_eq!(WAND_ARCS, 3);
    assert_eq!(WAND_RANGE, 300);
    assert_eq!(ARC_RADIUS, 150);
}

#[test]
fn the_wand_stays_silent() {
    let enemies = vec![enemy(11, 0, 200), enemy(12, 200, 50)];
    assert_eq!(handle_wand_input(at(0, 0), &enemies, None, true, true, 5), None);
    assert_eq!(handle_wand_input(at(0, 0), &enemies, Some(at(9, 0)), false, true, 5), None);
    assert_eq!(handle_wand_input(at(0, 0), &enemies, Some(at(9, 0)), true, false, 5), None);
    assert_eq!(handle_wand_input(at(0, 0), &enemies, Some(at(-9, 0)), true, true, 5), None);
    assert_eq!(handle_wand_input(at(0, 0), &vec![], Some(at(9, 0)), true, true, 5), None);
    assert_eq!(
        handle_wand_input(at(0, 0), &enemies, Some(at(9, 0)), true, true, 5),
        Some(event(12, 5, 3))
    );
}

#[test]
fn the_sweep_removes_the_dead() {
    let mut enemies = vec![
        Enemy::new(1, at(0, 0), 5, 1),
        Enemy::new(2, at(10, 0), 6, 1),
        Enemy::new(3, at(20, 0), 4, 1),
        Enemy::new(4, at(400, 0), 0, 1),
    ];
    assert_eq!(despawn_dead_enemies(&mut enemies), vec![4]);
    assert_eq!(enemies.len(), 3);
    apply_damage(&mut enemies, &event(1, 5, 1));
    apply_damage(&mut enemies, &event(2, 5, 1));
    apply_damage(&mut enemies, &event(3, 5, 1));
    let dead = despawn_dead_enemies(&mut enemies);
    assert_eq!(dead, vec![1, 3]);
    assert_eq!(enemies, vec![Enemy { damage_taken: 5, ..Enemy::new(2, at(10, 0), 6, 1) }]);
    assert_eq!(despawn_dead_enemies(&mut enemies), vec![]);
    assert_eq!(enemies.len(), 1);
    let mut nobody: Vec<Enemy> = vec![];
    assert_eq!(despawn_dead_enemies(&mut nobody), vec![]);
}

#[test]
fn damage_is_dealt_before_the_sweep() {
    let mut enemies = vec![Enemy::new(1, at(0, 0), 1, 1), Enemy::new(2, at(10, 0), 100, 1)];
    let struck = propagate(&mut enemies, event(1, 5, 3));
    assert_eq!(struck, vec![event(1, 5, 3), event(2, 5, 2), event(1, 5, 1)]);
    assert_eq!(enemies[0].damage_taken, 10);
    assert_eq!(despawn_dead_enemies(&mut enemies), vec![1]);
    assert_eq!(propagate(&mut enemies, event(1, 5, 3)), vec![]);
    assert_eq!(propagate(&mut enemies, event(2, 5, 3)), vec![event(2, 5, 3)]);
}

#[test]
fn wider_cones_and_larger_radii_hold_more() {
    let origin = at(0, 0);
    let aim = at(10, 0);
    let widths = [(0u32, 1u32), (1, 4), (1, 2), (1, 1), (2, 1), (7, 1), (1, 0)];
    let points = [at(5, 0), at(40, 9), at(40, 20), at(40, 40), at(40, 80), at(1, 300), at(0, 9)];
    for p in points {
        let mut inside_before = false;
        for (n, d) in widths {
            let inside =
                is_within_angle(origin, aim, HalfAngle { tan_numerator: n, tan_denominator: d }, p);
            assert!(inside || !inside_before);
            inside_before = inside;
        }
        assert!(inside_before);
        let mut within_before = false;
        for radius in [0u32, 5, 40, 41, 57, 300, 301] {
            let within = is_within(origin, p, radius);
            assert!(within || !within_before);
            within_before = within;
        }
        assert!(within_before);
    }
    for (n, d) in widths {
        assert!(is_within_angle(origin, aim, HalfAngle { tan_numerator: n, tan_denominator: d }, aim));
    }
}

#[test]
fn a_chain_never_outlasts_its_arcs() {
    let enemies: Vec<Enemy> = (0..12).map(|n| enemy(n, (n as i32) * 90, 0)).collect();
    for arcs in 0..9u32 {
        let mut field = enemies.clone();
        let struck = propagate(&mut field, event(5, 2, arcs));
        assert_eq!(struck.len() as u32, arcs.max(1));
        for (hop, e) in struck.iter().enumerate() {
            assert_eq!(e.arcs, arcs - hop as u32);
            assert_eq!(e.amount, 2);
        }
        let dealt: u128 = field.iter().map(|e| e.damage_taken).sum();
        assert_eq!(dealt, 2 * struck.len() as u128);
    }
}
