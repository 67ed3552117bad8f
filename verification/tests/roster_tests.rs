use eternal_gauntlet::roster::{
    scaled_health, AnimationIndices, EnemiesData, EnemyLevels, EnemyStats, EnemyType, LevelStats,
};
use eternal_gauntlet::text::{bytes_equal, bytes_spell_ignoring_case, to_ascii_lower};

fn levels(rows: &[(&str, u32, u32)]) -> EnemyLevels {
    EnemyLevels {
        levels: rows
            .iter()
            .map(|(level, health, damage)| LevelStats {
                level: level.to_string(),
                stats: EnemyStats { health: *health, damage: *damage },
            })
            .collect(),
    }
}

fn table() -> EnemiesData {
    EnemiesData {
        undead: levels(&[("1", 10, 1), ("2", 20, 2)]),
        orc: levels(&[("1", 30, 3), ("elite", 90, 9), ("1", 31, 4)]),
        demon: levels(&[]),
    }
}

#[test]
fn health_scales_with_the_cycle() {
    assert_eq!(scaled_health(100, 0), 100);
    assert_eq!(scaled_health(100, 1), 200);
    assert_eq!(scaled_health(100, 2), 300);
    assert_eq!(scaled_health(100, 3), 400);
    assert_eq!(scaled_health(100, 4), 500);
    assert_eq!(scaled_health(100, 5), 700);
    assert_eq!(scaled_health(7, 10), 7 * 13);
    assert_eq!(scaled_health(0, 9), 0);
}

#[test]
fn health_at_cycle_zero_is_the_base() {
    for base in [0u32, 1, 17, 4096, u32::MAX] {
        assert_eq!(scaled_health(base, 0), base as u128);
    }
}

#[test]
fn health_never_shrinks_in_later_cycles() {
    let mut last = 0u128;
    for cycle in 0..200u64 {
        let now = scaled_health(55, cycle);
        assert!(now >= last);
        last = now;
    }
}

#[test]
fn health_does_not_overflow() {
    let expected = (u32::MAX as u128) * (1 + (6 * (u64::MAX as u128)) / 5);
    assert_eq!(scaled_health(u32::MAX, u64::MAX), expected);
}

#[test]
fn race_names_are_matched_exactly() {
    assert_eq!(EnemyType::get_race("Undead"), EnemyType::Undead);
    assert_eq!(EnemyType::get_race("Orc"), EnemyType::Orc);
    assert_eq!(EnemyType::get_race("Demon"), EnemyType::Demon);
    assert_eq!(EnemyType::get_race("orc"), EnemyType::Undead);
    assert_eq!(EnemyType::get_race("DEMON"), EnemyType::Undead);
    assert_eq!(EnemyType::get_race("Goblin"), EnemyType::Undead);
    assert_eq!(EnemyType::get_race(""), EnemyType::Undead);
}

#[test]
fn animation_frames_of_the_undead() {
    let race = EnemyType::Undead;
    assert_eq!(race.get_animation_indicies("1"), AnimationIndices { first: 52, last: 55 });
    assert_eq!(race.get_animation_indicies("2"), AnimationIndices { first: 56, last: 59 });
    assert_eq!(race.get_animation_indicies("3"), AnimationIndices { first: 48, last: 51 });
    assert_eq!(race.get_animation_indicies("4"), AnimationIndices { first: 44, last: 47 });
    assert_eq!(race.get_animation_indicies("5"), AnimationIndices { first: 40, last: 43 });
}

#[test]
fn animation_frames_of_the_orcs() {
    let race = EnemyType::Orc;
    assert_eq!(race.get_animation_indicies("1"), AnimationIndices { first: 20, last: 23 });
    assert_eq!(race.get_animation_indicies("2"), AnimationIndices { first: 36, last: 39 });
    assert_eq!(race.get_animation_indicies("3"), AnimationIndices { first: 32, last: 35 });
    assert_eq!(race.get_animation_indicies("4"), AnimationIndices { first: 24, last: 27 });
    assert_eq!(race.get_animation_indicies("5"), AnimationIndices { first: 28, last: 31 });
}

#[test]
fn animation_frames_of_the_demons() {
    let race = EnemyType::Demon;
    assert_eq!(race.get_animation_indicies("1"), AnimationIndices { first: 8, last: 11 });
    assert_eq!(race.get_animation_indicies("2"), AnimationIndices { first: 16, last: 19 });
    assert_eq!(race.get_animation_indicies("3"), AnimationIndices { first: 4, last: 7 });
    assert_eq!(race.get_animation_indicies("4"), AnimationIndices { first: 12, last: 15 });
    assert_eq!(race.get_animation_indicies("5"), AnimationIndices { first: 0, last: 3 });
}

#[test]
fn unknown_tiers_show_the_first_frame() {
    for race in [EnemyType::Undead, EnemyType::Orc, EnemyType::Demon] {
        for level in ["0", "6", "", "11", "one", "1 "] {
            assert_eq!(race.get_animation_indicies(level), AnimationIndices { first: 0, last: 0 });
        }
    }
}

#[test]
fn frames_loop() {
    let frames = AnimationIndices { first: 20, last: 23 };
    assert_eq!(frames.next_frame(20), 21);
    assert_eq!(frames.next_frame(22), 23);
    assert_eq!(frames.next_frame(23), 20);
    assert_eq!(frames.next_frame(7), 8);
    assert_eq!(frames.next_frame(usize::MAX), 20);
}

#[test]
fn stats_lookup_ignores_the_case_of_the_race() {
    let table = table();
    assert_eq!(table.get_enemy_stats("Undead", "1"), Some(&EnemyStats { health: 10, damage: 1 }));
    assert_eq!(table.get_enemy_stats("undead", "2"), Some(&EnemyStats { health: 20, damage: 2 }));
    assert_eq!(table.get_enemy_stats("ORC", "elite"), Some(&EnemyStats { health: 90, damage: 9 }));
    assert_eq!(table.get_enemy_stats("oRc", "1"), Some(&EnemyStats { health: 30, damage: 3 }));
}

#[test]
fn stats_lookup_fails_for_unknown_rows() {
    let table = table();
    assert_eq!(table.get_enemy_stats("Undead", "3"), None);
    assert_eq!(table.get_enemy_stats("Demon", "1"), None);
    assert_eq!(table.get_enemy_stats("Goblin", "1"), None);
    assert_eq!(table.get_enemy_stats("", "1"), None);
    assert_eq!(table.get_enemy_stats("orcs", "1"), None);
    assert_eq!(table.get_enemy_stats("Orc", "Elite"), None);
}

#[test]
fn the_first_row_of_a_tier_counts() {
    let table = table();
    assert_eq!(table.orc.get("1"), Some(&EnemyStats { health: 30, damage: 3 }));
    assert_eq!(table.demon.get("1"), None);
}

#[test]
fn byte_comparisons() {
    assert!(bytes_equal(b"orc", b"orc"));
    assert!(!bytes_equal(b"orc", b"orcs"));
    assert!(!bytes_equal(b"orc", b"Orc"));
    assert!(bytes_equal(b"", b""));
    assert!(bytes_spell_ignoring_case(b"DeMoN", b"demon"));
    assert!(!bytes_spell_ignoring_case(b"demon", b"DEMON"));
    assert!(!bytes_spell_ignoring_case(b"demo", b"demon"));
    assert_eq!(to_ascii_lower(b'A'), b'a');
    assert_eq!(to_ascii_lower(b'Z'), b'z');
    assert_eq!(to_ascii_lower(b'a'), b'a');
    assert_eq!(to_ascii_lower(b'['), b'[');
    assert_eq!(to_ascii_lower(b'@'), b'@');
}
