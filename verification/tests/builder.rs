use rogue_xork::biome::Biome;
use rogue_xork::builder::{
    AttemptError, Config, FailureCause, GenerationError, LevelBuilder, Pipeline, Verdict,
};
use rogue_xork::category::ZoneType;
use rogue_xork::domain::CategorySet;
use rogue_xork::level::{Level, ReachabilityValidator};
use rogue_xork::rules::{declared, AdjacencyRuleSet, Direction};
use rogue_xork::zone::Zone;

const DIRECTIONS: [Direction; 4] =
    [Direction::North, Direction::South, Direction::East, Direction::West];

const A: ZoneType = ZoneType::OpenPath;
const B: ZoneType = ZoneType::Coredor;

fn content(category: ZoneType, biome: Biome) -> Zone {
    let mut zone = Zone::new(&format!("{:?} in {}", category, biome.name()));
    zone.welcome("welcome");
    zone
}

fn boss(biome: Biome) -> String {
    format!("{} Boss", biome.name())
}

fn fixed(width: usize, height: usize, attempts: u32, seed: u64) -> Config {
    Config {
        min_width: width,
        max_width: width,
        min_height: height,
        max_height: height,
        max_attempts: attempts,
        seed,
        spawn: Some((0, 0)),
        boss_portal: Some((width - 1, height - 1)),
    }
}

/// `A` and `B` admit each other on every side, and both go together with
/// the sanctuary and the boss entry.
fn two_categories() -> AdjacencyRuleSet {
    let mut rules = AdjacencyRuleSet::new();
    let special = CategorySet::only(ZoneType::Sanctuary).with(ZoneType::BossEntry);
    for d in DIRECTIONS {
        rules.allow(A, d, CategorySet::only(B).union(special));
        rules.allow(B, d, CategorySet::only(A).union(special));
        rules.allow(ZoneType::Sanctuary, d, CategorySet::only(A).with(B));
        rules.allow(ZoneType::BossEntry, d, CategorySet::only(A).with(B));
    }
    rules
}

/// Only walls go beside walls, the sanctuary and the boss entry.
fn walled_in() -> AdjacencyRuleSet {
    let mut rules = AdjacencyRuleSet::new();
    let wall = CategorySet::only(ZoneType::Wall);
    for d in DIRECTIONS {
        rules.allow(ZoneType::Wall, d, wall.with(ZoneType::Sanctuary).with(ZoneType::BossEntry));
        rules.allow(ZoneType::Sanctuary, d, wall);
        rules.allow(ZoneType::BossEntry, d, wall);
    }
    rules
}

/// The declared neighbours, each declaration made for the facing side too.
fn both_ways() -> AdjacencyRuleSet {
    let mut rules = AdjacencyRuleSet::new();
    for i in 0..9u8 {
        let c = ZoneType::from_ordinal(i).unwrap();
        for d in DIRECTIONS {
            rules.allow_both_ways(c, d, declared(c));
        }
    }
    rules
}

fn both_ways_builder() -> LevelBuilder {
    LevelBuilder::with(both_ways(), ReachabilityValidator::standard())
}

/// Every category goes beside every category.
fn anything() -> AdjacencyRuleSet {
    let mut rules = AdjacencyRuleSet::new();
    for i in 0..9u8 {
        for d in DIRECTIONS {
            rules.allow(ZoneType::from_ordinal(i).unwrap(), d, CategorySet::all());
        }
    }
    rules
}

fn count(level: &Level<String>, category: ZoneType) -> usize {
    level.zones.iter().flatten().filter(|z| z.feild_type == category).count()
}

fn assert_whole(level: &Level<String>, rules: &AdjacencyRuleSet, validator: &ReachabilityValidator) {
    let (w, h) = level.dim;
    assert_eq!(level.zones.len(), h);
    assert!(level.zones.iter().all(|row| row.len() == w));
    assert!(level.is_shaped());
    assert_ne!(level.warp_in, level.boss_portal);
    assert_eq!(level.zone(level.warp_in.0, level.warp_in.1).unwrap().feild_type, ZoneType::Sanctuary);
    assert_eq!(level.zone(level.boss_portal.0, level.boss_portal.1).unwrap().feild_type, ZoneType::BossEntry);
    assert_eq!(count(level, ZoneType::Sanctuary), 1);
    assert_eq!(count(level, ZoneType::BossEntry), 1);
    assert!(validator.traverse(level, level.warp_in, level.boss_portal));
    for y in 0..h {
        for x in 0..w {
            let c = level.zones[y][x].feild_type;
            if y > 0 {
                assert!(rules.query(c, Direction::North).contains(level.zones[y - 1][x].feild_type));
            }
            if y + 1 < h {
                assert!(rules.query(c, Direction::South).contains(level.zones[y + 1][x].feild_type));
            }
            if x > 0 {
                assert!(rules.query(c, Direction::East).contains(level.zones[y][x - 1].feild_type));
            }
            if x + 1 < w {
                assert!(rules.query(c, Direction::West).contains(level.zones[y][x + 1].feild_type));
            }
        }
    }
}

#[test]
fn one_by_one_grid_is_an_invalid_configuration() {
    let builder = LevelBuilder::new();
    let mut config = fixed(1, 1, 5, 0);
    config.spawn = None;
    config.boss_portal = None;
    assert!(!config.is_valid());
    let r: Result<Level<String>, _> = builder.build(Biome::Forest, boss, content, &config);
    assert_eq!(r, Err(GenerationError::InvalidConfiguration));
    let a: Result<Level<String>, _> = builder.attempt(&config, &vec![], Biome::Forest, &content);
    assert_eq!(a, Err(AttemptError::InvalidConfiguration));
    assert_eq!(builder.plan(&config, &vec![]), Err(AttemptError::InvalidConfiguration));
}

#[test]
fn malformed_bounds_are_invalid_configurations() {
    let good = Config::standard(1);
    assert!(good.is_valid());
    let cases = [
        Config { min_width: 0, ..good },
        Config { min_height: 0, ..good },
        Config { min_width: 30, ..good },
        Config { min_height: 30, ..good },
        Config { max_attempts: 0, ..good },
        Config { max_width: usize::MAX, ..good },
        Config { max_width: usize::MAX / 2, max_height: 2, ..good },
        Config { spawn: Some((20, 0)), ..good },
        Config { boss_portal: Some((0, 20)), ..good },
        Config { spawn: Some((3, 4)), boss_portal: Some((3, 4)), ..good },
        Config { min_width: 1, min_height: 1, ..good },
    ];
    let builder = LevelBuilder::new();
    for config in cases {
        assert!(!config.is_valid(), "{:?}", config);
        let r: Result<Level<String>, _> = builder.build(Biome::Town, boss, content, &config);
        assert_eq!(r, Err(GenerationError::InvalidConfiguration));
    }
    assert!(Config { min_width: 1, min_height: 2, ..good }.is_valid());
    assert!(Config { spawn: Some((3, 4)), boss_portal: Some((4, 3)), ..good }.is_valid());
}

#[test]
fn standard_configuration() {
    let config = Config::standard(42);
    assert_eq!(
        config,
        Config {
            min_width: 20,
            max_width: 29,
            min_height: 20,
            max_height: 29,
            max_attempts: 5,
            seed: 42,
            spawn: None,
            boss_portal: None,
        }
    );
    let random = Config::random();
    assert_eq!(random, Config::standard(random.seed));
}

#[test]
fn two_categories_on_three_by_three() {
    let rules = two_categories();
    let validator = ReachabilityValidator::standard();
    let builder = LevelBuilder::with(rules, validator);
    for seed in 0..10 {
        let config = fixed(3, 3, 1, seed);
        let level: Level<String> = builder.build(Biome::Ruins, boss, content, &config).expect("done");
        assert_eq!(level.dim, (3, 3));
        assert_eq!(level.warp_in, (0, 0));
        assert_eq!(level.boss_portal, (2, 2));
        assert_whole(&level, &rules, &validator);
        // the seven ordinary cells alternate
        let first = level.zones[0][1].feild_type;
        assert!(first == A || first == B);
        let second = if first == A { B } else { A };
        for y in 0..3 {
            for x in 0..3 {
                if (x, y) != (0, 0) && (x, y) != (2, 2) {
                    let expected = if (x + y) % 2 == 1 { first } else { second };
                    assert_eq!(level.zones[y][x].feild_type, expected);
                }
            }
        }
    }
}

#[test]
fn walls_all_round_exhaust_the_attempts_as_unreachable() {
    let builder = LevelBuilder::with(walled_in(), ReachabilityValidator::standard());
    for attempts in [1, 3, 5] {
        let config = fixed(3, 3, attempts, 7);
        let r: Result<Level<String>, _> = builder.build(Biome::Dungeon, boss, content, &config);
        assert_eq!(r, Err(GenerationError::GenerationFailed { cause: FailureCause::Unreachable }));
    }
}

#[test]
fn walls_all_round_plan_is_solved_but_unreachable() {
    let builder = LevelBuilder::with(walled_in(), ReachabilityValidator::standard());
    let config = fixed(3, 3, 1, 0);
    let layout = builder.plan(&config, &vec![1, 2, 3, 4, 5, 6, 7, 8]).unwrap();
    assert_eq!((layout.width, layout.height), (3, 3));
    assert_eq!(layout.spawn, (0, 0));
    assert_eq!(layout.boss_portal, (2, 2));
    let mut expected = vec![ZoneType::Wall; 9];
    expected[0] = ZoneType::Sanctuary;
    expected[8] = ZoneType::BossEntry;
    assert_eq!(layout.categories, expected);
    let a: Result<Level<String>, _> = builder.attempt(&config, &vec![1, 2, 3], Biome::Forest, &content);
    assert_eq!(a, Err(AttemptError::Unreachable));
}

#[test]
fn walls_are_reachable_for_a_validator_that_passes_them() {
    let rules = walled_in();
    let validator = ReachabilityValidator::new(CategorySet::all());
    let builder = LevelBuilder::with(rules, validator);
    let level: Level<String> = builder.build(Biome::Desert, boss, content, &fixed(3, 3, 1, 0)).unwrap();
    assert_whole(&level, &rules, &validator);
    assert_eq!(count(&level, ZoneType::Wall), 7);
}

#[test]
fn one_attempt_that_contradicts_fails_as_contradiction() {
    let counted = std::cell::Cell::new(0u32);
    let counting = |c: ZoneType, b: Biome| {
        counted.set(counted.get() + 1);
        content(c, b)
    };
    let builder = LevelBuilder::with(AdjacencyRuleSet::new(), ReachabilityValidator::standard());
    let r: Result<Level<String>, _> = builder.build(Biome::Temple, boss, counting, &fixed(3, 3, 1, 11));
    assert_eq!(r, Err(GenerationError::GenerationFailed { cause: FailureCause::ContradictionExhausted }));
    assert_eq!(counted.get(), 0);
    let a: Result<Level<String>, _> = builder.attempt(&fixed(3, 3, 1, 11), &vec![9; 30], Biome::Temple, &content);
    assert_eq!(a, Err(AttemptError::Contradiction));
    assert_eq!(builder.plan(&fixed(3, 3, 1, 11), &vec![9; 30]), Err(AttemptError::Contradiction));
}

#[test]
fn build_is_deterministic_for_a_seed() {
    let builder = both_ways_builder();
    for seed in [0u64, 1, 2, 3, 0xDEAD_BEEF, u64::MAX] {
        let config = Config { min_width: 6, max_width: 12, min_height: 5, max_height: 9, ..Config::standard(seed) };
        let one: Result<Level<String>, _> = builder.build(Biome::Forest, boss, content, &config);
        let two: Result<Level<String>, _> = builder.build(Biome::Forest, boss, content, &config);
        assert_eq!(one, two);
    }
}

#[test]
fn different_seeds_give_different_levels() {
    let builder = both_ways_builder();
    let mut seen: Vec<Level<String>> = Vec::new();
    for seed in 0..12u64 {
        let config = Config { min_width: 6, max_width: 12, min_height: 5, max_height: 9, ..Config::standard(seed) };
        if let Ok(level) = builder.build(Biome::Forest, boss, content, &config) {
            assert!(!seen.contains(&level));
            seen.push(level);
        }
    }
    assert!(seen.len() >= 2);
    assert!(seen.iter().any(|l| l.dim != seen[0].dim));
    assert!(seen.iter().any(|l| l.warp_in != seen[0].warp_in));
}

#[test]
fn every_level_built_is_whole_and_reachable() {
    let rules = both_ways();
    let validator = ReachabilityValidator::standard();
    let builder = both_ways_builder();
    let mut built = 0;
    for seed in 0..25u64 {
        let config =
            Config { min_width: 4, max_width: 10, min_height: 4, max_height: 10, ..Config::standard(seed) };
        match builder.build(Biome::Mountains, boss, content, &config) {
            Ok(level) => {
                let level: Level<String> = level;
                built += 1;
                assert!(4 <= level.dim.0 && level.dim.0 <= 10);
                assert!(4 <= level.dim.1 && level.dim.1 <= 10);
                assert_whole(&level, &rules, &validator);
                assert_eq!(level.biome, Biome::Mountains);
                assert_eq!(level.boss_room.boss, Some("Mountains Boss".to_string()));
                assert_eq!(level.boss_room.name, "The Mountains Lair");
                assert_eq!(level.boss_room.minions, None);
                for row in &level.zones {
                    for zone in row {
                        assert_eq!(zone.name, format!("{:?} in Mountains", zone.feild_type));
                        assert_eq!(zone.welcome, "welcome");
                    }
                }
            }
            Err(GenerationError::GenerationFailed { cause }) => {
                assert!(cause == FailureCause::Unreachable || cause == FailureCause::ContradictionExhausted);
            }
            Err(GenerationError::InvalidConfiguration) => panic!("the configuration is valid"),
        }
    }
    assert!(built > 0);
}

#[test]
fn standard_size_level() {
    let builder = both_ways_builder();
    let mut built = 0;
    for seed in 0..4u64 {
        let r: Result<Level<String>, _> = builder.build(Biome::Town, boss, content, &Config::standard(seed));
        if let Ok(level) = r {
            built += 1;
            assert!(20 <= level.dim.0 && level.dim.0 <= 29);
            assert!(20 <= level.dim.1 && level.dim.1 <= 29);
            assert_whole(&level, &both_ways(), &ReachabilityValidator::standard());
        }
    }
    assert!(built > 0);
}

#[test]
fn plan_draws_size_and_places_from_the_first_four_words() {
    let builder = LevelBuilder::with(anything(), ReachabilityValidator::standard());
    let config = Config { min_width: 3, max_width: 6, min_height: 2, max_height: 4, ..Config::standard(0) };
    // width 3 + 5 % 4 = 4, height 2 + 7 % 3 = 3, spawn at place 13 % 12 = 1,
    // portal at place 0 % 11 = 0
    let layout = builder.plan(&config, &vec![5, 7, 13, 0]).unwrap();
    assert_eq!((layout.width, layout.height), (4, 3));
    assert_eq!(layout.spawn, (1, 0));
    assert_eq!(layout.boss_portal, (0, 0));
    // the portal skips the place of the spawn: 1 % 11 = 1 becomes 2, and
    // 10 % 11 = 10 becomes 11
    let layout = builder.plan(&config, &vec![5, 7, 13, 1]).unwrap();
    assert_eq!(layout.boss_portal, (2, 0));
    let layout = builder.plan(&config, &vec![5, 7, 13, 10]).unwrap();
    assert_eq!(layout.boss_portal, (3, 2));
    // without words every draw is the first choice, and the portal
    // steps aside
    let layout = builder.plan(&config, &vec![]).unwrap();
    assert_eq!((layout.width, layout.height), (3, 2));
    assert_eq!(layout.spawn, (0, 0));
    assert_eq!(layout.boss_portal, (1, 0));
    // a fixed portal is avoided by the spawn
    let pinned = Config { boss_portal: Some((1, 0)), ..config };
    let layout = builder.plan(&pinned, &vec![5, 7, 1, 99]).unwrap();
    assert_eq!(layout.boss_portal, (1, 0));
    assert_eq!(layout.spawn, (2, 0));
}

#[test]
fn attempt_gives_a_level_with_an_empty_boss_room() {
    let builder = LevelBuilder::with(two_categories(), ReachabilityValidator::standard());
    let level: Level<String> =
        builder.attempt(&fixed(3, 3, 1, 0), &vec![0; 30], Biome::Forest, &content).unwrap();
    assert_eq!(level.boss_room.boss, None);
    assert_eq!(level.boss_room.name, "The Forest Lair");
    assert_eq!(level.biome, Biome::Forest);
    assert_whole(&level, &two_categories(), &ReachabilityValidator::standard());
}

#[test]
fn content_factory_cannot_change_the_category() {
    let stubborn = |_c: ZoneType, _b: Biome| Zone::new("always a wall");
    let builder = LevelBuilder::with(two_categories(), ReachabilityValidator::standard());
    let level: Level<String> = builder.build(Biome::Forest, boss, stubborn, &fixed(3, 3, 1, 0)).unwrap();
    assert_eq!(count(&level, ZoneType::Wall), 0);
    assert_eq!(level.zones[0][0].feild_type, ZoneType::Sanctuary);
    assert_eq!(level.zones[0][0].name, "always a wall");
}

#[test]
fn pipeline_begins_with_the_first_attempt() {
    assert_eq!(Pipeline::Idle.begin(), Pipeline::Generating { attempt: 1 });
    assert_eq!(Pipeline::Done.begin(), Pipeline::Done);
    assert_eq!(Pipeline::Generating { attempt: 3 }.begin(), Pipeline::Generating { attempt: 3 });
}

#[test]
fn pipeline_is_done_on_a_reachable_level() {
    for attempt in [1, 2, 5] {
        assert_eq!(Pipeline::Generating { attempt }.advance(Verdict::Reachable, 5), Pipeline::Done);
    }
}

#[test]
fn pipeline_tries_again_until_the_attempts_are_used_up() {
    let mut state = Pipeline::Idle.begin();
    for attempt in 1..5 {
        assert_eq!(state, Pipeline::Generating { attempt });
        state = state.advance(if attempt % 2 == 0 { Verdict::Unreachable } else { Verdict::Contradiction }, 5);
    }
    assert_eq!(state, Pipeline::Generating { attempt: 5 });
    assert_eq!(
        state.advance(Verdict::Unreachable, 5),
        Pipeline::Failed { cause: FailureCause::Unreachable }
    );
    assert_eq!(
        state.advance(Verdict::Contradiction, 5),
        Pipeline::Failed { cause: FailureCause::ContradictionExhausted }
    );
}

#[test]
fn pipeline_with_one_attempt_fails_after_it() {
    let state = Pipeline::Idle.begin();
    assert_eq!(
        state.advance(Verdict::Contradiction, 1),
        Pipeline::Failed { cause: FailureCause::ContradictionExhausted }
    );
}

#[test]
fn pipeline_final_states_stay() {
    let failed = Pipeline::Failed { cause: FailureCause::Unreachable };
    for verdict in [Verdict::Reachable, Verdict::Contradiction, Verdict::Unreachable] {
        assert_eq!(Pipeline::Done.advance(verdict, 5), Pipeline::Done);
        assert_eq!(failed.advance(verdict, 5), failed);
        assert_eq!(Pipeline::Idle.advance(verdict, 5), Pipeline::Idle);
    }
}

#[test]
fn standard_builder_on_a_row_of_three() {
    // between a sanctuary and a boss entry stands what both admit and what
    // admits both: a shelter, an open path, a corridor or mountains
    let builder = LevelBuilder::new();
    let rules = AdjacencyRuleSet::standard();
    let validator = ReachabilityValidator::standard();
    let mut built = 0;
    for seed in 0..12u64 {
        let config = Config {
            min_width: 3,
            max_width: 3,
            min_height: 1,
            max_height: 1,
            spawn: Some((0, 0)),
            boss_portal: Some((2, 0)),
            ..Config::standard(seed)
        };
        match builder.build(Biome::Forest, boss, content, &config) {
            Ok(level) => {
                let level: Level<String> = level;
                built += 1;
                assert_whole(&level, &rules, &validator);
                let middle = level.zones[0][1].feild_type;
                assert!([ZoneType::Shelter, ZoneType::OpenPath, ZoneType::Coredor, ZoneType::Mountains]
                    .contains(&middle));
            }
            Err(e) => {
                assert_eq!(e, GenerationError::GenerationFailed { cause: FailureCause::ContradictionExhausted });
            }
        }
    }
    assert!(built > 0);
}

#[test]
fn standard_rules_keep_the_portal_from_the_side_of_the_spawn() {
    // a sanctuary was declared to admit a boss entry, a boss entry no
    // sanctuary: every attempt ends in a contradiction
    let builder = LevelBuilder::new();
    for seed in 0..5u64 {
        let config = Config {
            min_width: 2,
            max_width: 2,
            min_height: 1,
            max_height: 1,
            ..Config::standard(seed)
        };
        let r: Result<Level<String>, _> = builder.build(Biome::Forest, boss, content, &config);
        assert_eq!(r, Err(GenerationError::GenerationFailed { cause: FailureCause::ContradictionExhausted }));
    }
}
