use rogue_xork::category::ZoneType;
use rogue_xork::domain::CategorySet;
use rogue_xork::rules::{declared, AdjacencyRuleSet, Direction};

const DIRECTIONS: [Direction; 4] =
    [Direction::North, Direction::South, Direction::East, Direction::West];

fn categories() -> Vec<ZoneType> {
    (0..9u8).map(|i| ZoneType::from_ordinal(i).unwrap()).collect()
}

#[test]
fn query_of_unregistered_pair_is_empty() {
    let rules = AdjacencyRuleSet::new();
    for c in categories() {
        for d in DIRECTIONS {
            assert!(rules.query(c, d).is_empty());
            assert!(!rules.is_registered(c, d));
        }
    }
}

#[test]
fn query_is_idempotent() {
    let mut rules = AdjacencyRuleSet::new();
    let set = CategorySet::only(ZoneType::Wall).with(ZoneType::Temple);
    rules.allow(ZoneType::OpenPath, Direction::North, set);
    let first = rules.query(ZoneType::OpenPath, Direction::North);
    let second = rules.query(ZoneType::OpenPath, Direction::North);
    assert!(first.same_as(&set));
    assert!(second.same_as(&first));
    assert!(rules.query(ZoneType::OpenPath, Direction::South).is_empty());
    assert!(rules.query(ZoneType::Temple, Direction::North).is_empty());
}

#[test]
fn allow_is_not_symmetric() {
    let mut rules = AdjacencyRuleSet::new();
    rules.allow(ZoneType::OpenPath, Direction::North, CategorySet::only(ZoneType::Temple));
    assert!(rules.query(ZoneType::Temple, Direction::South).is_empty());
    assert!(!rules.is_registered(ZoneType::Temple, Direction::South));
}

#[test]
fn allow_twice_keeps_the_last_set() {
    let mut rules = AdjacencyRuleSet::new();
    rules.allow(ZoneType::Wall, Direction::East, CategorySet::only(ZoneType::Temple));
    rules.allow(ZoneType::Wall, Direction::East, CategorySet::only(ZoneType::Shelter));
    assert!(rules.query(ZoneType::Wall, Direction::East).same_as(&CategorySet::only(ZoneType::Shelter)));
}

#[test]
fn allow_both_ways_registers_the_facing_side() {
    let mut rules = AdjacencyRuleSet::new();
    let set = CategorySet::only(ZoneType::Temple).with(ZoneType::Wall);
    rules.allow_both_ways(ZoneType::OpenPath, Direction::North, set);
    assert!(rules.query(ZoneType::OpenPath, Direction::North).same_as(&set));
    assert!(rules.query(ZoneType::Temple, Direction::South).same_as(&CategorySet::only(ZoneType::OpenPath)));
    assert!(rules.query(ZoneType::Wall, Direction::South).same_as(&CategorySet::only(ZoneType::OpenPath)));
    assert!(rules.query(ZoneType::Temple, Direction::North).is_empty());
    assert!(rules.query(ZoneType::OpenPath, Direction::South).is_empty());
    rules.allow_both_ways(ZoneType::OpenPath, Direction::North, CategorySet::only(ZoneType::Shelter));
    assert_eq!(rules.query(ZoneType::OpenPath, Direction::North).len(), 3);
}

#[test]
fn query_any_is_the_union_over_the_candidates() {
    let mut rules = AdjacencyRuleSet::new();
    rules.allow(ZoneType::OpenPath, Direction::West, CategorySet::only(ZoneType::Temple));
    rules.allow(ZoneType::Coredor, Direction::West, CategorySet::only(ZoneType::Wall));
    let from = CategorySet::only(ZoneType::OpenPath).with(ZoneType::Coredor).with(ZoneType::Shelter);
    let got = rules.query_any(from, Direction::West);
    assert!(got.same_as(&CategorySet::only(ZoneType::Temple).with(ZoneType::Wall)));
    assert!(rules.query_any(CategorySet::empty(), Direction::West).is_empty());
    assert!(rules.query_any(from, Direction::East).is_empty());
}

#[test]
fn standard_rules_are_the_declarations_on_every_side() {
    let rules = AdjacencyRuleSet::standard();
    for a in categories() {
        for d in DIRECTIONS {
            assert!(rules.is_registered(a, d));
            assert!(rules.query(a, d).same_as(&declared(a)));
        }
    }
}

#[test]
fn standard_rules_add_nothing_for_the_facing_side() {
    let rules = AdjacencyRuleSet::standard();
    for d in DIRECTIONS {
        // a wall was declared to admit an open path, an open path no wall
        assert!(rules.query(ZoneType::Wall, d).contains(ZoneType::OpenPath));
        assert!(!rules.query(ZoneType::OpenPath, d).contains(ZoneType::Wall));
        // a sanctuary was declared to admit a treasure room, a treasure
        // room no sanctuary
        assert!(rules.query(ZoneType::Sanctuary, d).contains(ZoneType::TreasureRoom));
        assert!(!rules.query(ZoneType::TreasureRoom, d).contains(ZoneType::Sanctuary));
    }
}

#[test]
fn standard_rules_by_category() {
    let rules = AdjacencyRuleSet::standard();
    let all = CategorySet::all();
    let none = CategorySet::empty();
    for d in DIRECTIONS {
        let q = |c: ZoneType| rules.query(c, d);
        assert!(q(ZoneType::Shelter).same_as(
            &none
                .with(ZoneType::OpenPath)
                .with(ZoneType::Coredor)
                .with(ZoneType::Mountains)
                .with(ZoneType::Sanctuary)
                .with(ZoneType::BossEntry)
                .with(ZoneType::Wall)
        ));
        assert!(q(ZoneType::OpenPath).same_as(&all.without(ZoneType::Wall)));
        assert!(q(ZoneType::Coredor).same_as(
            &none
                .with(ZoneType::OpenPath)
                .with(ZoneType::Coredor)
                .with(ZoneType::Temple)
                .with(ZoneType::Sanctuary)
                .with(ZoneType::TreasureRoom)
                .with(ZoneType::BossEntry)
        ));
        assert!(q(ZoneType::Temple).same_as(&all.without(ZoneType::BossEntry).without(ZoneType::Wall)));
        assert!(q(ZoneType::Mountains).same_as(
            &none
                .with(ZoneType::OpenPath)
                .with(ZoneType::Temple)
                .with(ZoneType::Mountains)
                .with(ZoneType::Sanctuary)
                .with(ZoneType::BossEntry)
        ));
        assert!(q(ZoneType::Sanctuary).same_as(&all.without(ZoneType::Sanctuary).without(ZoneType::Wall)));
        assert!(q(ZoneType::TreasureRoom).same_as(
            &none.with(ZoneType::Shelter).with(ZoneType::Coredor).with(ZoneType::Temple)
        ));
        assert_eq!(q(ZoneType::TreasureRoom).len(), 3);
        assert!(q(ZoneType::BossEntry).same_as(
            &none
                .with(ZoneType::Shelter)
                .with(ZoneType::OpenPath)
                .with(ZoneType::Coredor)
                .with(ZoneType::Temple)
                .with(ZoneType::Mountains)
        ));
        assert_eq!(q(ZoneType::BossEntry).len(), 5);
        assert!(q(ZoneType::Wall).same_as(&all));
    }
}

#[test]
fn directions_and_their_opposites() {
    assert_eq!(Direction::North.opposite(), Direction::South);
    assert_eq!(Direction::South.opposite(), Direction::North);
    assert_eq!(Direction::East.opposite(), Direction::West);
    assert_eq!(Direction::West.opposite(), Direction::East);
    for (i, d) in DIRECTIONS.iter().enumerate() {
        assert_eq!(d.ordinal() as usize, i);
        assert_eq!(Direction::from_ordinal(i as u8), Some(*d));
    }
    assert_eq!(Direction::from_ordinal(4), None);
}
