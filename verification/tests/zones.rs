use rogue_xork::battle_logic::{stays_over, Target};
use rogue_xork::biome::{same_letter, same_text, Biome};
use rogue_xork::category::ZoneType;
use rogue_xork::enemies::{Boss, Lifeness};
use rogue_xork::game::{may_pop, ExploreState, GameState, PopError, StateStack};
use rogue_xork::items::ItemKey;
use rogue_xork::player::{default_name, pick_name, starting_stats, EquipType, Stats};
use rogue_xork::zone::{BossRoom, MobSpawner, Zone};

#[test]
fn new_zone_is_a_bare_wall() {
    let zone = Zone::new("Cellar");
    assert_eq!(zone.name, "Cellar");
    assert_eq!(zone.welcome, "");
    assert_eq!(zone.desc, "");
    assert_eq!(zone.feild_type, ZoneType::Wall);
    assert_eq!(zone.enemies, None);
    assert_eq!(zone.loot, None);
}

#[test]
fn zone_setters_change_one_field_each() {
    let mut zone = Zone::new("a");
    zone.name("b");
    zone.welcome("hello");
    zone.desc("a dark place");
    zone.feild_type(ZoneType::Temple);
    zone.set_item(ItemKey::new("key", 3));
    zone.set_enemies(Some(MobSpawner { mob: "Orc".to_string(), count: 2 }));
    assert_eq!(
        zone,
        Zone {
            name: "b".to_string(),
            welcome: "hello".to_string(),
            desc: "a dark place".to_string(),
            feild_type: ZoneType::Temple,
            enemies: Some(MobSpawner { mob: "Orc".to_string(), count: 2 }),
            loot: Some(ItemKey::new("key", 3)),
        }
    );
    zone.desc("brighter");
    assert_eq!(zone.welcome, "hello");
    assert_eq!(zone.desc, "brighter");
}

#[test]
fn item_key_keeps_name_and_instance() {
    let key = ItemKey::new("potion", 200);
    assert_eq!(key.name(), "potion");
    assert_eq!(key.inst(), 200);
    assert_ne!(key, ItemKey::new("potion", 201));
}

#[test]
fn boss_room_has_standard_texts() {
    let room: BossRoom<Boss> = BossRoom::new(Biome::Desert, None);
    assert_eq!(room.name, "The Desert Lair");
    assert_eq!(
        room.welcome,
        "This battle may be your last, can you slay the final boss of this zone, and leave here with life and limb?"
    );
    assert_eq!(
        room.desc,
        "The Desert Lair has been the final escapade of many adventures. will you meet the same fate?"
    );
    assert_eq!(room.boss, None);
    assert_eq!(room.minions, None);
}

#[test]
fn boss_room_setters() {
    let mut room: BossRoom<Boss> = BossRoom::new(Biome::Town, Some(Boss::new(Biome::Town)));
    assert_eq!(room.boss.as_ref().unwrap().get_name(), "Town Boss");
    room.kill_boss();
    assert_eq!(room.boss, None);
    room.set_boss(Boss::new(Biome::Ruins));
    assert_eq!(room.boss, Some(Boss::new(Biome::Ruins)));
    room.set_minions(Some(vec![Boss::new(Biome::Forest)]));
    assert_eq!(room.minions.as_ref().unwrap().len(), 1);
    room.name("Pit");
    room.welcome("Welcome to the pit");
    room.desc("It is deep");
    assert_eq!(room.name, "Pit");
    assert_eq!(room.welcome, "Welcome to the pit");
    assert_eq!(room.desc, "It is deep");
    assert_eq!(room.boss, Some(Boss::new(Biome::Ruins)));
}

#[test]
fn boss_is_named_after_its_biome() {
    let boss = Boss::new(Biome::Mountains);
    assert_eq!(boss.get_name(), "Mountains Boss");
    assert_eq!(boss.stats(), Stats { hp: 100, str: 15, mg_str: 15, def: 15, mg_def: 15, speed: 10 });
    assert_ne!(Lifeness::Alive, Lifeness::Dead);
}

#[test]
fn biome_names() {
    let names = [
        (Biome::Forest, "Forest"),
        (Biome::Temple, "Temple"),
        (Biome::Desert, "Desert"),
        (Biome::Mountains, "Mountains"),
        (Biome::Ruins, "Ruins"),
        (Biome::Dungeon, "Dungeon"),
        (Biome::Town, "Town"),
    ];
    for (biome, name) in names {
        assert_eq!(biome.name(), name);
        assert_eq!(Biome::parse(name), Some(biome));
        assert_eq!(Biome::parse(&name.to_lowercase()), Some(biome));
        assert_eq!(Biome::parse(&name.to_uppercase()), Some(biome));
    }
    assert_eq!(Biome::parse("fOrEsT"), Some(Biome::Forest));
    assert_eq!(Biome::parse(""), None);
    assert_eq!(Biome::parse("forest "), None);
    assert_eq!(Biome::parse("swamp"), None);
    assert_eq!(Biome::parse("towns"), None);
}

#[test]
fn letters_are_compared_without_case() {
    assert!(same_letter('a', 'A'));
    assert!(same_letter('Z', 'z'));
    assert!(same_letter('5', '5'));
    assert!(!same_letter('a', 'b'));
    assert!(!same_letter('@', '`'));
    assert!(!same_letter('[', '{'));
    assert!(same_text("Ruins", "rUINS"));
    assert!(!same_text("Ruins", "Ruin"));
    assert!(same_text("", ""));
    assert!(!same_text("é", "É"));
}

#[test]
fn player_defaults() {
    assert_eq!(default_name(0), "Calacuda");
    assert_eq!(default_name(5), "Christopher");
    assert_eq!(default_name(19), "Barry");
    assert_eq!(default_name(u64::MAX), "Christopher");
    assert_eq!(pick_name(Some("Ada")), "Ada");
    let names: Vec<&str> = (0..10).map(default_name).collect();
    for _ in 0..20 {
        assert!(names.contains(&pick_name(None).as_str()));
    }
    assert_eq!(starting_stats(), Stats { hp: 20, str: 5, mg_str: 1, def: 4, mg_def: 2, speed: 4 });
    assert_ne!(EquipType::Helmet, EquipType::Ring);
    assert_ne!(Target::TheSelf, Target::Enemy(0));
}

#[test]
fn battle_stays_over_only_with_enemies_left() {
    assert!(stays_over(true, 2));
    assert!(!stays_over(true, 0));
    assert!(!stays_over(false, 2));
    assert!(!stays_over(false, 0));
}

struct Countdown(u8);

impl GameState<()> for Countdown {
    fn step(&mut self, _cmd: &str, _player: &()) -> bool {
        self.0 = self.0.saturating_sub(1);
        self.0 == 0
    }

    fn is_done(&self) -> bool {
        self.0 == 0
    }
}

#[test]
fn only_a_finished_state_may_be_popped() {
    assert!(may_pop(Some(true)));
    assert!(!may_pop(Some(false)));
    assert!(!may_pop(None));
}

#[test]
fn exploring_never_ends() {
    let mut state = ExploreState::new();
    assert_eq!(state.loc, (128, 128));
    assert!(!GameState::<()>::is_done(&state));
    assert!(!state.step("north", &()));
    assert_eq!(state, ExploreState::new());
    let mut stack = StateStack::new(state);
    assert_eq!(stack.try_pop::<()>(), Err(PopError::StillRunning));
    assert!(!stack.advance("look", &()));
}

#[test]
fn state_stack_pops_only_what_is_done() {
    let mut stack = StateStack::new(Countdown(5));
    stack.push(Countdown(2));
    assert_eq!(stack.try_pop::<()>(), Err(PopError::StillRunning));
    assert!(!stack.step("wait", &()));
    assert_eq!(stack.try_pop::<()>(), Err(PopError::StillRunning));
    assert!(stack.step("wait", &()));
    assert_eq!(stack.try_pop::<()>(), Ok(()));
    assert_eq!(stack.try_pop::<()>(), Err(PopError::StillRunning));
    stack.push(Countdown(1));
    assert!(stack.advance("wait", &()));
    stack.pop();
    assert_eq!(stack.try_pop::<()>(), Err(PopError::StillRunning));
    assert!(!stack.step("wait", &()));
    assert!(!stack.advance("wait", &()));
    stack.pop();
}

#[test]
fn advance_leaves_the_top_state_as_its_step_left_it() {
    let mut stack = StateStack::new(Countdown(9));
    stack.push(Countdown(3));
    assert!(!stack.advance("wait", &()));
    assert!(!stack.advance("wait", &()));
    assert_eq!(stack.try_pop::<()>(), Err(PopError::StillRunning));
    assert!(stack.advance("wait", &()));
    // the state below was not touched: it needs its nine steps
    for _ in 0..8 {
        assert!(!stack.step("wait", &()));
        assert_eq!(stack.try_pop::<()>(), Err(PopError::StillRunning));
    }
    assert!(stack.step("wait", &()));
    assert_eq!(stack.try_pop::<()>(), Ok(()));
}
