use aomori::demo;
use aomori::json::Json;
use aomori::maps::DeepCopy;
use aomori::model::{Entity, QuestDefinition, WorldState};
use aomori::storage::{
    actors_contain_legacy_inventory, check_decoded_state, format_migration_path, format_migrations,
    quest_definitions_missing_giver, snapshot_for_save, snapshot_format_of, validate_current_schema,
    validate_legacy_state, FormatMigration, SnapshotStore, FORMAT_VERSION, LEGACY_FORMAT_VERSION,
};

const DEMO_SOURCE: &str = "function query_look(ctx, args) return {} end";

fn demo_world() -> WorldState {
    let mut state = WorldState::genesis();
    demo::initialize(&mut state, DEMO_SOURCE.to_string()).unwrap();
    state
}

fn member_mut<'a>(value: &'a mut Json, key: &str) -> &'a mut Json {
    match value {
        Json::Object(members) => &mut members.iter_mut().find(|(k, _)| k == key).unwrap().1,
        _ => panic!("not an object"),
    }
}

fn remove_member(value: &mut Json, key: &str) {
    match value {
        Json::Object(members) => members.retain(|(k, _)| k != key),
        _ => panic!("not an object"),
    }
}

fn insert_member(value: &mut Json, key: &str, v: Json) {
    match value {
        Json::Object(members) => members.push((key.to_string(), v)),
        _ => panic!("not an object"),
    }
}

fn edit_entity(state: &mut WorldState, id: u64, f: impl FnOnce(&mut Entity)) {
    let at = state.entities.find(&id).unwrap();
    let mut entity = state.entities.value_at(at).deep_copy();
    f(&mut entity);
    state.entities.set_value_at(at, entity);
}

#[test]
fn registered_format_migrations_are_contiguous_to_current() {
    assert_eq!(format_migration_path(LEGACY_FORMAT_VERSION, FORMAT_VERSION).unwrap(), format_migrations());
    assert!(format_migration_path(FORMAT_VERSION, FORMAT_VERSION).unwrap().is_empty());
    let error = format_migration_path(FORMAT_VERSION + 1, FORMAT_VERSION).unwrap_err().message();
    assert!(error.contains("no migration from version"));
}

#[test]
fn the_registered_migration_leads_from_the_older_format_to_the_current_one() {
    assert_eq!(
        format_migrations(),
        vec![FormatMigration { from_version: 1, to_version: 2, name: "snapshot_format_1_to_2" }]
    );
    assert_eq!(
        format_migration_path(3, 2).unwrap_err().message(),
        "unsupported snapshot format version: 3; no migration from version 3 to 2"
    );
}

#[test]
fn store_paths_sit_beside_the_snapshot() {
    let store = SnapshotStore::in_directory("/var/lib/aomori");
    assert_eq!(store.path(), "/var/lib/aomori/state.json");
    assert_eq!(store.backup_path(), "/var/lib/aomori/state.json.bak");
    assert_eq!(store.temporary_path(), "/var/lib/aomori/state.json.tmp");
    assert_eq!(store.backup_temporary_path(), "/var/lib/aomori/state.json.bak.tmp");
    let trailing = SnapshotStore::in_directory("data/");
    assert_eq!(trailing.path(), "data/state.json");
}

#[test]
fn saved_snapshots_carry_the_current_format_and_root() {
    let state = demo_world();
    let snapshot = snapshot_for_save(&state).unwrap();
    assert_eq!(snapshot.get_u64("format_version"), Some(FORMAT_VERSION as u64));
    assert_eq!(snapshot.get_str("state_root").unwrap(), &state.root());
    let format = snapshot_format_of(&snapshot).unwrap().unwrap();
    assert_eq!(format.0, FORMAT_VERSION);
    assert!(format.1.is_empty());
    check_decoded_state(&state, Some(state.root().as_str()), Some(FORMAT_VERSION), false, false).unwrap();
}

#[test]
fn current_schema_requires_every_state_field() {
    let state = demo_world();
    let mut snapshot = snapshot_for_save(&state).unwrap();
    remove_member(member_mut(&mut snapshot, "state"), "inventories");
    let error = validate_current_schema(&snapshot).unwrap_err().message();
    assert!(error.contains("state is missing field: inventories"), "{error}");
}

#[test]
fn current_schema_rejects_unknown_entity_fields() {
    let state = demo_world();
    let mut snapshot = snapshot_for_save(&state).unwrap();
    let entity = member_mut(member_mut(member_mut(&mut snapshot, "state"), "entities"), "4");
    insert_member(entity, "ignored_admin_token", Json::Str("must-not-survive".into()));
    let error = validate_current_schema(&snapshot).unwrap_err().message();
    assert!(error.contains("entity 4 contains unknown field: ignored_admin_token"), "{error}");
}

#[test]
fn current_schema_requires_every_quest_field() {
    let state = demo_world();
    let mut snapshot = snapshot_for_save(&state).unwrap();
    let quest = member_mut(member_mut(member_mut(&mut snapshot, "state"), "quests"), "lost_key");
    remove_member(quest, "prerequisite_quest_ids");
    let error = validate_current_schema(&snapshot).unwrap_err().message();
    assert!(error.contains("quest lost_key is missing field: prerequisite_quest_ids"), "{error}");
}

#[test]
fn legacy_actor_inventory_is_not_saved_as_current_schema() {
    let mut state = demo_world();
    edit_entity(&mut state, 4, |e| {
        e.data.insert("inventory".into(), Json::Array(vec![Json::UInt(5)]));
    });
    let error = snapshot_for_save(&state).unwrap_err().chain_message();
    assert!(error.contains("contains legacy actor inventory data"), "{error}");
    assert!(actors_contain_legacy_inventory(&state.to_json_with(true)));
    assert!(!actors_contain_legacy_inventory(&demo_world().to_json_with(true)));
}

#[test]
fn unknown_future_versions_are_refused() {
    let snapshot = Json::Object(vec![
        ("format_version".into(), Json::UInt(FORMAT_VERSION as u64 + 1)),
        ("state_root".into(), Json::Str("ignored".into())),
        ("state".into(), Json::Object(vec![])),
    ]);
    let error = snapshot_format_of(&snapshot).unwrap_err().chain_message();
    assert!(error.contains("unsupported snapshot format version"), "{error}");
    let zero = Json::Object(vec![("format_version".into(), Json::UInt(0))]);
    assert!(snapshot_format_of(&zero).is_err());
    let unversioned = Json::Object(vec![("accounts".into(), Json::Object(vec![]))]);
    assert!(snapshot_format_of(&unversioned).unwrap().is_none());
}

#[test]
fn recorded_root_must_match_the_state() {
    let state = demo_world();
    let error = check_decoded_state(&state, Some("wrong"), Some(FORMAT_VERSION), false, false)
        .unwrap_err()
        .message();
    assert!(error.contains("state root mismatch"), "{error}");
}

#[test]
fn legacy_checks_skip_the_older_schemas() {
    let mut state = demo_world();
    edit_entity(&mut state, 4, |e| {
        e.data.insert("inventory".into(), Json::Array(vec![Json::UInt(5)]));
    });
    state.inventories.insert(4, vec![999]);
    assert!(validate_legacy_state(&state, false, false).is_err());
    validate_legacy_state(&state, false, true).unwrap();
}

#[test]
fn quests_without_givers_mark_an_older_schema() {
    let state = demo_world();
    let mut snapshot = state.to_json_with(true);
    assert!(!quest_definitions_missing_giver(&snapshot));
    let quest = member_mut(member_mut(&mut snapshot, "quests"), "lost_key");
    remove_member(quest, "giver_entity_id");
    assert!(quest_definitions_missing_giver(&snapshot));
}

#[test]
fn invalid_quest_definition_is_not_saved() {
    let mut state = WorldState::genesis();
    state.quests.insert(
        "broken".into(),
        QuestDefinition {
            id: "broken".into(),
            title: "Broken".into(),
            giver_entity_id: 99,
            prerequisite_quest_ids: Vec::new(),
            required_item: "nothing".into(),
            completion_zone: "Nowhere".into(),
            reward_balance: 0,
            consume_required_item: false,
        },
    );
    let error = snapshot_for_save(&state).unwrap_err().chain_message();
    assert!(error.contains("validate world state"), "{error}");
}
