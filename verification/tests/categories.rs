use rogue_xork::category::ZoneType;
use rogue_xork::domain::CategorySet;

#[test]
fn empty_set_has_no_members() {
    let s = CategorySet::empty();
    assert!(s.is_empty());
    assert_eq!(s.len(), 0);
    assert!(!s.contains(ZoneType::Wall));
    assert_eq!(s.nth(0), None);
}

#[test]
fn full_set_has_nine_members_in_declaration_order() {
    let s = CategorySet::all();
    assert_eq!(s.len(), 9);
    let expected = [
        ZoneType::Shelter,
        ZoneType::OpenPath,
        ZoneType::Coredor,
        ZoneType::Temple,
        ZoneType::Mountains,
        ZoneType::Sanctuary,
        ZoneType::TreasureRoom,
        ZoneType::BossEntry,
        ZoneType::Wall,
    ];
    for (k, c) in expected.iter().enumerate() {
        assert_eq!(s.nth(k as u8), Some(*c));
        assert_eq!(c.ordinal() as usize, k);
        assert_eq!(ZoneType::from_ordinal(k as u8), Some(*c));
    }
    assert_eq!(ZoneType::from_ordinal(9), None);
}

#[test]
fn single_set_holds_only_its_member() {
    let s = CategorySet::only(ZoneType::Temple);
    assert_eq!(s.len(), 1);
    assert!(s.contains(ZoneType::Temple));
    assert!(!s.contains(ZoneType::Wall));
    assert_eq!(s.nth(0), Some(ZoneType::Temple));
    assert_eq!(s.nth(1), None);
}

#[test]
fn with_and_without_add_and_remove() {
    let s = CategorySet::empty().with(ZoneType::Wall).with(ZoneType::Shelter);
    assert_eq!(s.len(), 2);
    assert_eq!(s.nth(0), Some(ZoneType::Shelter));
    assert_eq!(s.nth(1), Some(ZoneType::Wall));
    assert_eq!(s.nth(2), None);
    let t = s.without(ZoneType::Shelter);
    assert!(t.same_as(&CategorySet::only(ZoneType::Wall)));
    assert!(s.with(ZoneType::Wall).same_as(&s));
    assert!(t.without(ZoneType::Temple).same_as(&t));
}

#[test]
fn intersection_and_union() {
    let a = CategorySet::empty().with(ZoneType::Wall).with(ZoneType::Temple);
    let b = CategorySet::empty().with(ZoneType::Temple).with(ZoneType::OpenPath);
    assert!(a.intersect(b).same_as(&CategorySet::only(ZoneType::Temple)));
    assert_eq!(a.union(b).len(), 3);
    assert!(a.intersect(CategorySet::empty()).is_empty());
    assert!(a.union(CategorySet::all()).same_as(&CategorySet::all()));
}

#[test]
fn subset_test() {
    let a = CategorySet::only(ZoneType::Wall);
    let b = a.with(ZoneType::Temple);
    assert!(a.is_subset_of(&b));
    assert!(!b.is_subset_of(&a));
    assert!(CategorySet::empty().is_subset_of(&a));
    assert!(b.is_subset_of(&CategorySet::all()));
}
