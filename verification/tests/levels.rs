use rogue_xork::biome::Biome;
use rogue_xork::category::ZoneType;
use rogue_xork::domain::CategorySet;
use rogue_xork::level::{Level, ReachabilityValidator};
use rogue_xork::zone::{BossRoom, Zone};

fn level(rows: &[&str]) -> Level<()> {
    let zones: Vec<Vec<Zone>> = rows
        .iter()
        .map(|row| {
            row.chars()
                .map(|c| {
                    let mut zone = Zone::new("");
                    zone.feild_type(match c {
                        '#' => ZoneType::Wall,
                        'S' => ZoneType::Sanctuary,
                        'B' => ZoneType::BossEntry,
                        'm' => ZoneType::Mountains,
                        _ => ZoneType::OpenPath,
                    });
                    zone
                })
                .collect()
        })
        .collect();
    Level {
        dim: (rows[0].len(), rows.len()),
        zones,
        warp_in: (0, 0),
        boss_portal: (rows[0].len() - 1, rows.len() - 1),
        boss_room: BossRoom::new(Biome::Forest, None),
        biome: Biome::Forest,
    }
}

#[test]
fn standard_validator_passes_everything_but_walls() {
    let validator = ReachabilityValidator::standard();
    assert!(validator.passes().same_as(&CategorySet::all().without(ZoneType::Wall)));
    let l = level(&["S.#", "#.#", "#.B"]);
    assert!(validator.traverse(&l, l.warp_in, l.boss_portal));
    assert!(validator.traverse(&l, l.boss_portal, l.warp_in));
    assert!(!validator.traverse(&l, l.warp_in, (2, 0)));
    assert!(!validator.traverse(&l, (0, 1), l.boss_portal));
}

#[test]
fn walls_between_spawn_and_portal() {
    let validator = ReachabilityValidator::standard();
    let l = level(&["S.#.", "..#.", "..#B"]);
    assert!(!validator.traverse(&l, l.warp_in, l.boss_portal));
    assert!(validator.traverse(&l, l.warp_in, (1, 2)));
}

#[test]
fn traversable_set_is_configured() {
    let l = level(&["Sm.", "#m#", ".mB"]);
    assert!(ReachabilityValidator::standard().traverse(&l, l.warp_in, l.boss_portal));
    let no_mountains = ReachabilityValidator::new(
        CategorySet::all().without(ZoneType::Wall).without(ZoneType::Mountains),
    );
    assert!(!no_mountains.traverse(&l, l.warp_in, l.boss_portal));
    let nothing = ReachabilityValidator::new(CategorySet::empty());
    assert!(!nothing.traverse(&l, l.warp_in, l.warp_in));
    let all = ReachabilityValidator::new(CategorySet::all());
    assert!(all.traverse(&l, (0, 1), (2, 1)));
}

#[test]
fn places_off_the_level_are_not_reached() {
    let validator = ReachabilityValidator::standard();
    let l = level(&["S.", ".B"]);
    assert!(!validator.traverse(&l, (0, 0), (2, 0)));
    assert!(!validator.traverse(&l, (0, 2), (0, 0)));
}

#[test]
fn misshapen_level_connects_nothing() {
    let validator = ReachabilityValidator::standard();
    let mut l = level(&["S.", ".B"]);
    l.zones[1].pop();
    assert!(!l.is_shaped());
    assert!(!validator.traverse(&l, (0, 0), (0, 0)));
    let mut l = level(&["S.", ".B"]);
    l.dim = (2, 3);
    assert!(!validator.traverse(&l, (0, 0), (1, 1)));
}

#[test]
fn zone_lookup() {
    let l = level(&["S.#", "#.B"]);
    assert_eq!(l.zone(0, 0).unwrap().feild_type, ZoneType::Sanctuary);
    assert_eq!(l.zone(2, 1).unwrap().feild_type, ZoneType::BossEntry);
    assert_eq!(l.zone(2, 0).unwrap().feild_type, ZoneType::Wall);
    assert!(l.zone(3, 0).is_none());
    assert!(l.zone(0, 2).is_none());
}
