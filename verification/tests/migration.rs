use aomori::demo;
use aomori::json::{json_eq, Json};
use aomori::maps::{DeepCopy, SortedMap};
use aomori::migration::{collect_legacy_inventories, entity_ids_consistent, migrate_legacy_inventories};
use aomori::model::{Entity, EntityKind, WorldState};
use aomori::runtime;

const DEMO_SOURCE: &str = "function query_look(ctx, args) return {} end";

fn demo_world() -> WorldState {
    let mut state = WorldState::genesis();
    demo::initialize(&mut state, DEMO_SOURCE.to_string()).unwrap();
    state
}

fn edit_entity(state: &mut WorldState, id: u64, f: impl FnOnce(&mut Entity)) {
    let at = state.entities.find(&id).unwrap();
    let mut entity = state.entities.value_at(at).deep_copy();
    f(&mut entity);
    state.entities.set_value_at(at, entity);
}

fn set_inventory_data(state: &mut WorldState, actor: u64, value: Json) {
    edit_entity(state, actor, |e| {
        e.data.insert("inventory".into(), value);
    });
}

fn ids(items: &[u64]) -> Json {
    Json::Array(items.iter().map(|id| Json::UInt(*id)).collect())
}

#[test]
fn migrates_inventory_for_any_actor_and_is_idempotent() {
    let mut state = demo_world();
    set_inventory_data(&mut state, 4, ids(&[5]));
    let old_head = state.head;

    assert!(migrate_legacy_inventories(&mut state).unwrap());
    assert_eq!(state.head, old_head + 1);
    assert_eq!(state.inventory(4), vec![5]);
    assert_eq!(state.entities.get(&5).unwrap().location, Some(4));
    assert!(!state.entities.get(&4).unwrap().data.contains_key(&"inventory".to_string()));
    assert!(!migrate_legacy_inventories(&mut state).unwrap());
    assert_eq!(state.head, old_head + 1);
}

#[test]
fn malformed_inventory_rolls_back_without_dropping_values() {
    let mut state = demo_world();
    let bad = Json::Array(vec![Json::UInt(5), Json::Str("bad".into())]);
    set_inventory_data(&mut state, 4, bad.deep_copy());
    let root = state.root();

    let error = migrate_legacy_inventories(&mut state).unwrap_err().message();
    assert!(error.contains("non-integer item at index 1"));
    assert_eq!(state.root(), root);
    assert!(json_eq(state.entities.get(&4).unwrap().data.get(&"inventory".to_string()).unwrap(), &bad));
}

#[test]
fn duplicate_legacy_claims_fail_and_roll_back() {
    let mut state = demo_world();
    let second_actor = runtime::create_entity(
        &mut state,
        EntityKind::Actor,
        "admin".into(),
        Some("demo".into()),
        Some(1),
        SortedMap::new(),
    )
    .unwrap();
    set_inventory_data(&mut state, 4, ids(&[5]));
    set_inventory_data(&mut state, second_actor, ids(&[5]));
    let root = state.root();

    let error = migrate_legacy_inventories(&mut state).unwrap_err().chain_message();
    assert!(error.contains("claimed by multiple actors"));
    assert_eq!(state.root(), root);
}

#[test]
fn duplicate_and_missing_items_fail_before_mutation() {
    for (inventory, expected) in
        [(ids(&[5, 5]), "contains duplicate item: 5"), (ids(&[999]), "references missing item: 999")]
    {
        let mut state = demo_world();
        set_inventory_data(&mut state, 4, inventory);
        let root = state.root();

        let error = migrate_legacy_inventories(&mut state).unwrap_err().message();
        assert!(error.contains(expected), "{error}");
        assert_eq!(state.root(), root);
    }
}

#[test]
fn non_item_reference_fails_before_mutation() {
    let mut state = demo_world();
    set_inventory_data(&mut state, 4, ids(&[6]));
    let root = state.root();

    let error = migrate_legacy_inventories(&mut state).unwrap_err().message();
    assert!(error.contains("references non-item entity: 6"));
    assert_eq!(state.root(), root);
}

#[test]
fn legacy_inventory_must_be_an_array() {
    let mut state = demo_world();
    set_inventory_data(&mut state, 4, Json::UInt(5));
    let error = migrate_legacy_inventories(&mut state).unwrap_err().message();
    assert_eq!(error, "legacy inventory for actor 4 must be an array");
}

#[test]
fn collected_inventories_list_each_actor_in_id_order() {
    let mut state = demo_world();
    set_inventory_data(&mut state, 6, ids(&[8]));
    set_inventory_data(&mut state, 4, ids(&[5]));
    let collected = collect_legacy_inventories(&state).unwrap();
    assert_eq!(collected, vec![(4, vec![5]), (6, vec![8])]);
}

#[test]
fn items_already_listed_are_not_listed_twice() {
    let mut state = demo_world();
    edit_entity(&mut state, 5, |e| e.location = Some(4));
    state.inventories.insert(4, vec![5]);
    set_inventory_data(&mut state, 4, ids(&[5]));
    assert!(migrate_legacy_inventories(&mut state).unwrap());
    assert_eq!(state.inventory(4), vec![5]);
}

#[test]
fn entity_ids_are_checked_against_their_keys() {
    let mut state = demo_world();
    assert!(entity_ids_consistent(&state));
    let entity = state.entities.remove(&4).unwrap();
    state.entities.insert(99, entity);
    assert!(!entity_ids_consistent(&state));
}
