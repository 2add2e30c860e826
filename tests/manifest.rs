use game_client::identifier::{identifier_for, ItemId};
use game_client::manifest::{CollisionPolicy, ConversionError, Item, ItemManifest};
use game_client::raw::{merge_all, RawItem, RawItemManifest};

fn record(name: &str, value: i32) -> RawItem {
    RawItem {
        name: name.to_string(),
        description: format!("about {}", name),
        value,
        weight_bits: 1.5f32.to_bits(),
        max_stack: 10,
        sprite: format!("sprites/{}.png", name),
    }
}

fn file(records: Vec<RawItem>) -> RawItemManifest {
    RawItemManifest { items: records }
}

fn names(m: &RawItemManifest) -> Vec<String> {
    m.items.iter().map(|r| r.name.clone()).collect()
}

#[test]
fn merge_from_appends_in_order() {
    let mut a = file(vec![record("Sword", 5)]);
    a.merge_from(file(vec![record("Shield", 3), record("Sword", 7)]));
    assert_eq!(names(&a), vec!["Sword", "Shield", "Sword"]);
    assert_eq!(a.items[2].value, 7);
}

#[test]
fn merge_grouping_does_not_matter() {
    let a = file(vec![record("A1", 1), record("A2", 2)]);
    let b = file(vec![record("B1", 3)]);
    let c = file(vec![record("C1", 4), record("C2", 5)]);

    let mut left = a.clone();
    left.merge_from(b.clone());
    left.merge_from(c.clone());

    let mut bc = b.clone();
    bc.merge_from(c.clone());
    let mut right = a.clone();
    right.merge_from(bc);

    assert_eq!(left, right);
    assert_eq!(merge_all(vec![a, b, c]), left);
}

#[test]
fn merge_all_of_nothing_is_empty() {
    assert!(merge_all(Vec::new()).items.is_empty());
    assert!(RawItemManifest::default().items.is_empty());
}

#[test]
fn identifier_is_deterministic() {
    let a = identifier_for("Healing Potion");
    let b = identifier_for("Healing Potion");
    assert_eq!(a, b);
    assert_ne!(identifier_for("Healing Potion"), identifier_for("Mana Potion"));
}

#[test]
fn identifier_values() {
    assert_eq!(identifier_for("").raw, 0);
    assert_eq!(identifier_for("a").raw, 98);
    assert_eq!(identifier_for("ab").raw, 98 + 99 * 53);
}

#[test]
fn duplicate_name_fails_conversion() {
    let merged = file(vec![record("Axe", 1), record("Bow", 2), record("Axe", 3)]);
    let r = ItemManifest::from_raw_manifest(merged, vec![10u32, 20, 30], CollisionPolicy::FailOnDuplicate);
    assert_eq!(r.err(), Some(ConversionError::DuplicateName("Axe".to_string())));
}

#[test]
fn first_repeated_name_is_reported() {
    let merged = file(vec![
        record("Axe", 1),
        record("Bow", 2),
        record("Bow", 3),
        record("Axe", 4),
    ]);
    let r = ItemManifest::from_raw_manifest(merged, vec![1u32, 2, 3, 4], CollisionPolicy::FailOnDuplicate);
    assert_eq!(r.err(), Some(ConversionError::DuplicateName("Bow".to_string())));
}

#[test]
fn unique_names_give_one_entry_each() {
    let merged = file(vec![record("Axe", 1), record("Bow", 2), record("Club", 3)]);
    let m = ItemManifest::from_raw_manifest(merged, vec![7u32, 8, 9], CollisionPolicy::FailOnDuplicate).unwrap();
    let ids = m.ids();
    assert_eq!(ids.len(), 3);
    for (name, value, sprite) in [("Axe", 1, 7u32), ("Bow", 2, 8), ("Club", 3, 9)] {
        let item = m.get(identifier_for(name)).unwrap();
        assert_eq!(item.name, name);
        assert_eq!(item.value, value);
        assert_eq!(item.sprite, sprite);
        assert_eq!(item.max_stack, 10);
        assert_eq!(f32::from_bits(item.weight_bits), 1.5);
        assert_eq!(item.description, format!("about {}", name));
        assert!(ids.contains(&identifier_for(name)));
    }
}

#[test]
fn missing_identifier_gives_none() {
    let merged = file(vec![record("Axe", 1)]);
    let m = ItemManifest::from_raw_manifest(merged, vec![1u32], CollisionPolicy::LastWins).unwrap();
    assert!(m.get(identifier_for("Bow")).is_none());
    assert!(m.get(ItemId { raw: 12345 }).is_none());
}

#[test]
fn empty_records_give_empty_manifest() {
    let m = ItemManifest::<u32>::from_raw_manifest(file(Vec::new()), Vec::new(), CollisionPolicy::FailOnDuplicate)
        .unwrap();
    assert!(m.ids().is_empty());
}

fn healing_potion_files() -> Vec<RawItemManifest> {
    vec![
        file(vec![record("Healing Potion", 25), record("Rope", 2)]),
        file(vec![record("Healing Potion", 40)]),
    ]
}

#[test]
fn healing_potion_fail_on_duplicate() {
    let merged = merge_all(healing_potion_files());
    let r = ItemManifest::from_raw_manifest(merged, vec!["a", "b", "c"], CollisionPolicy::FailOnDuplicate);
    assert_eq!(r.err(), Some(ConversionError::DuplicateName("Healing Potion".to_string())));
}

#[test]
fn healing_potion_last_wins() {
    let merged = merge_all(healing_potion_files());
    let m = ItemManifest::from_raw_manifest(merged, vec!["a", "b", "c"], CollisionPolicy::LastWins).unwrap();
    let potion: &Item<&str> = m.get(identifier_for("Healing Potion")).unwrap();
    assert_eq!(potion.value, 40);
    assert_eq!(potion.sprite, "c");
    assert_eq!(m.ids().len(), 2);
    assert_eq!(m.get(identifier_for("Rope")).unwrap().value, 2);
}

#[test]
fn healing_potion_first_wins() {
    let merged = merge_all(healing_potion_files());
    let m = ItemManifest::from_raw_manifest(merged, vec!["a", "b", "c"], CollisionPolicy::FirstWins).unwrap();
    let potion = m.get(identifier_for("Healing Potion")).unwrap();
    assert_eq!(potion.value, 25);
    assert_eq!(potion.sprite, "a");
    assert_eq!(m.ids().len(), 2);
}

fn weighted(name: &str, weight: f32) -> RawItem {
    RawItem { weight_bits: weight.to_bits(), ..record(name, 1) }
}

#[test]
fn negative_weight_fails_conversion() {
    let merged = file(vec![record("Axe", 1), weighted("Cursed Stone", -1.0), weighted("Feather", -0.5)]);
    for policy in [CollisionPolicy::FailOnDuplicate, CollisionPolicy::FirstWins, CollisionPolicy::LastWins] {
        let r = ItemManifest::from_raw_manifest(merged.clone(), vec![1u32, 2, 3], policy);
        assert_eq!(r.err(), Some(ConversionError::InvalidWeight("Cursed Stone".to_string())));
    }
}

#[test]
fn negative_infinity_weight_fails_conversion() {
    let merged = file(vec![weighted("Void", f32::NEG_INFINITY)]);
    let r = ItemManifest::from_raw_manifest(merged, vec![1u32], CollisionPolicy::LastWins);
    assert_eq!(r.err(), Some(ConversionError::InvalidWeight("Void".to_string())));
}

#[test]
fn invalid_weight_is_reported_before_duplicate_name() {
    let merged = file(vec![record("Axe", 1), record("Axe", 2), weighted("Cursed Stone", -3.0)]);
    let r = ItemManifest::from_raw_manifest(merged, vec![1u32, 2, 3], CollisionPolicy::FailOnDuplicate);
    assert_eq!(r.err(), Some(ConversionError::InvalidWeight("Cursed Stone".to_string())));
}

#[test]
fn zero_and_negative_zero_weight_and_zero_stack_convert() {
    let mut empty_stack = weighted("Dust", 0.0);
    empty_stack.max_stack = 0;
    let merged = file(vec![empty_stack, weighted("Ghost", -0.0)]);
    let m = ItemManifest::from_raw_manifest(merged, vec![1u32, 2], CollisionPolicy::FailOnDuplicate).unwrap();
    assert_eq!(m.get(identifier_for("Dust")).unwrap().max_stack, 0);
    assert_eq!(m.get(identifier_for("Ghost")).unwrap().weight_bits, (-0.0f32).to_bits());
}

#[test]
fn two_conversions_of_same_records_agree() {
    let merged = file(vec![record("Axe", 1), record("Bow", 2), record("Club", 3)]);
    let a = ItemManifest::from_raw_manifest(merged.clone(), vec![1u32, 2, 3], CollisionPolicy::FailOnDuplicate).unwrap();
    let b = ItemManifest::from_raw_manifest(merged.clone(), vec![4u32, 5, 6], CollisionPolicy::FailOnDuplicate).unwrap();
    let mut ids_a: Vec<u64> = a.ids().iter().map(|id| id.raw).collect();
    let mut ids_b: Vec<u64> = b.ids().iter().map(|id| id.raw).collect();
    ids_a.sort();
    ids_b.sort();
    assert_eq!(ids_a, ids_b);
    for r in &merged.items {
        assert!(a.get(identifier_for(&r.name)).is_some());
        assert_eq!(a.get(identifier_for(&r.name)).unwrap().name, b.get(identifier_for(&r.name)).unwrap().name);
    }
}
