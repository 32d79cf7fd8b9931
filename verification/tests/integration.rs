use aomori::commit::{finish_command, run_receipt_for};
use aomori::demo;
use aomori::json::Json;
use aomori::maps::{DeepCopy, SortedMap};
use aomori::model::{
    Account, Contract, Entity, EntityKind, QuestDefinition, QuestProgress, QuestStatus, Receipt, Transaction,
    WorldEvent, WorldState,
};
use aomori::runtime;
use aomori::transaction::{check_transaction, finish_transaction};
use ed25519_dalek::{Signer, SigningKey};

const DEMO_SOURCE: &str = "function query_look(ctx, args) return {} end";
const WORLD_SOURCE: &str = "function command_go(ctx, args) return {} end";

fn valid() -> WorldState {
    let mut state = WorldState::genesis();
    demo::initialize(&mut state, DEMO_SOURCE.to_string()).unwrap();
    state
}

fn object(entries: Vec<(&str, Json)>) -> Json {
    Json::Object(entries.into_iter().map(|(k, v)| (k.to_string(), v)).collect())
}

fn edit_entity(state: &mut WorldState, id: u64, f: impl FnOnce(&mut Entity)) {
    let at = state.entities.find(&id).unwrap();
    let mut entity = state.entities.value_at(at).deep_copy();
    f(&mut entity);
    state.entities.set_value_at(at, entity);
}

fn edit_quest(state: &mut WorldState, id: &str, f: impl FnOnce(&mut QuestDefinition)) {
    let at = state.quests.find(&id.to_string()).unwrap();
    let mut quest = state.quests.value_at(at).deep_copy();
    f(&mut quest);
    state.quests.set_value_at(at, quest);
}

fn edit_account(state: &mut WorldState, name: &str, f: impl FnOnce(&mut Account)) {
    let at = state.accounts.find(&name.to_string()).unwrap();
    let mut account = state.accounts.value_at(at).deep_copy();
    f(&mut account);
    state.accounts.set_value_at(at, account);
}

fn edit_contract(state: &mut WorldState, key: &str, f: impl FnOnce(&mut Contract)) {
    let at = state.contracts.find(&key.to_string()).unwrap();
    let mut contract = state.contracts.value_at(at).deep_copy();
    f(&mut contract);
    state.contracts.set_value_at(at, contract);
}

fn edit_progress(state: &mut WorldState, key: &str, f: impl FnOnce(&mut QuestProgress)) {
    let at = state.quest_progress.find(&key.to_string()).unwrap();
    let mut progress = state.quest_progress.value_at(at).deep_copy();
    f(&mut progress);
    state.quest_progress.set_value_at(at, progress);
}

fn push_inventory(state: &mut WorldState, actor: u64, items: &[u64]) {
    let mut list = state.inventory(actor);
    list.extend_from_slice(items);
    state.inventories.insert(actor, list);
}

fn validation_error(state: &WorldState) -> String {
    state.validate().unwrap_err().message()
}

/// Moves the actor through an exit the way the demo's `go` command does,
/// then records the command.
fn go(state: &mut WorldState, actor: u64, direction: &str) {
    let original = state.deep_copy();
    let location = state.entities.get(&actor).unwrap().location.unwrap();
    let target = state.exit_target(location, direction).unwrap();
    state.move_actor(true, actor, target).unwrap();
    finish_command(state, &original, actor, "go");
}

/// Runs a host operation as a command and records it; on failure the world
/// is put back as it was.
fn command<T>(
    state: &mut WorldState,
    actor: u64,
    action: &str,
    f: impl FnOnce(&mut WorldState) -> Result<T, aomori::error::Error>,
) -> Result<T, aomori::error::Error> {
    let original = state.deep_copy();
    match f(state) {
        Ok(v) => {
            finish_command(state, &original, actor, action);
            Ok(v)
        }
        Err(e) => {
            *state = original;
            Err(e)
        }
    }
}

/// The demo's `give` command: hands an item over and announces it.
fn give(state: &mut WorldState, actor: u64, item: u64, target: u64) -> Result<u64, aomori::error::Error> {
    state.transfer_item(true, actor, item, target)?;
    let data = object(vec![("item_id", Json::UInt(item)), ("target_id", Json::UInt(target))]);
    state.emit_event(true, "item_transferred".into(), Some(actor), data)
}

#[test]
fn contract_versions_are_immutable_and_distinct() {
    let mut state = WorldState::genesis();
    let source = WORLD_SOURCE.to_string();
    runtime::deploy(&mut state, "world".into(), source.clone()).unwrap();
    runtime::deploy_version(&mut state, "world".into(), 2, source.clone()).unwrap();
    assert_eq!(state.contracts.get(&"world".to_string()).unwrap().version, 1);
    assert_eq!(state.contracts.get(&"world@2".to_string()).unwrap().version, 2);
    assert!(runtime::deploy_version(&mut state, "world".into(), 2, source).is_err());
}

#[test]
fn quest_definition_validation_rejects_invalid_givers_and_dependency_graphs() {
    let mut state = valid();
    edit_quest(&mut state, "lost_key", |q| q.giver_entity_id = 999);
    assert!(state.validate_quests().unwrap_err().message().contains("giver does not exist"));

    let mut state = valid();
    edit_quest(&mut state, "lost_key", |q| q.giver_entity_id = 1);
    assert!(state.validate_quests().unwrap_err().message().contains("giver is not an actor"));

    let mut state = valid();
    edit_quest(&mut state, "lost_key", |q| q.id = "wrong".into());
    assert!(state.validate_quests().unwrap_err().message().contains("map key does not match"));

    let mut state = valid();
    edit_quest(&mut state, "lost_key", |q| q.prerequisite_quest_ids = vec!["missing".into()]);
    assert!(state.validate_quests().unwrap_err().message().contains("prerequisite does not exist"));

    let mut state = valid();
    edit_quest(&mut state, "lost_key", |q| q.prerequisite_quest_ids = vec!["lost_key".into()]);
    assert!(state.validate_quests().unwrap_err().message().contains("cannot require itself"));

    let mut state = valid();
    edit_quest(&mut state, "lost_key", |q| q.prerequisite_quest_ids = vec!["ruins_tablet".into()]);
    edit_quest(&mut state, "ruins_tablet", |q| q.prerequisite_quest_ids = vec!["open_shrine".into()]);
    edit_quest(&mut state, "open_shrine", |q| q.prerequisite_quest_ids = vec!["lost_key".into()]);
    assert!(state.validate_quests().unwrap_err().message().contains("cycle detected"));

    let mut state = valid();
    edit_quest(&mut state, "open_shrine", |q| {
        q.prerequisite_quest_ids = vec!["lost_key".into(), "lost_key".into()]
    });
    assert!(state.validate_quests().unwrap_err().message().contains("duplicate prerequisite"));
}

#[test]
fn inventory_and_location_validation_rejects_inconsistent_worlds() {
    let mut state = valid();
    state.inventories.insert(999, Vec::new());
    assert!(validation_error(&state).contains("inventory owner does not exist"));

    let mut state = valid();
    state.inventories.insert(1, Vec::new());
    assert!(validation_error(&state).contains("inventory owner is not an actor"));

    let mut state = valid();
    push_inventory(&mut state, 4, &[999]);
    assert!(validation_error(&state).contains("item does not exist"));

    let mut state = valid();
    push_inventory(&mut state, 4, &[1]);
    assert!(validation_error(&state).contains("entity is not an item"));

    let mut state = valid();
    edit_entity(&mut state, 5, |e| e.location = Some(4));
    push_inventory(&mut state, 4, &[5, 5]);
    assert!(validation_error(&state).contains("duplicate item"));

    let mut state = valid();
    edit_entity(&mut state, 5, |e| e.location = Some(4));
    push_inventory(&mut state, 4, &[5]);
    push_inventory(&mut state, 6, &[5]);
    assert!(validation_error(&state).contains("multiple actors"));

    let mut state = valid();
    push_inventory(&mut state, 4, &[5]);
    assert!(validation_error(&state).contains("location does not match"));

    let mut state = valid();
    edit_entity(&mut state, 5, |e| e.location = Some(4));
    assert!(validation_error(&state).contains("missing from inventory"));

    let mut state = valid();
    edit_entity(&mut state, 5, |e| e.location = Some(999));
    assert!(validation_error(&state).contains("location does not exist"));

    let mut state = valid();
    edit_entity(&mut state, 5, |e| e.location = Some(8));
    assert!(validation_error(&state).contains("neither a zone nor an actor"));

    let mut state = valid();
    edit_entity(&mut state, 4, |e| e.location = Some(6));
    assert!(validation_error(&state).contains("location is not a zone"));

    let mut state = valid();
    edit_entity(&mut state, 1, |e| e.location = Some(2));
    assert!(validation_error(&state).contains("zone 1 must not have a location"));
}

#[test]
fn event_validation_rejects_corrupt_log_and_transaction_links() {
    let with_events = || {
        let mut state = valid();
        go(&mut state, 4, "east");
        state
    };

    let mut state = with_events();
    state.events[1].id = state.events[0].id;
    assert!(validation_error(&state).contains("strictly increasing"));

    let mut state = with_events();
    state.next_event_id = state.events.last().unwrap().id;
    assert!(validation_error(&state).contains("next_event_id"));

    let mut state = with_events();
    state.events[0].head = state.head + 1;
    assert!(validation_error(&state).contains("exceeds world head"));

    let mut state = with_events();
    state.events[0].kind.clear();
    assert!(validation_error(&state).contains("kind must not be empty"));

    let mut state = with_events();
    let at = state.events.iter().position(|event| event.kind == "entity_changed").unwrap();
    state.events[at].entity_id = None;
    assert!(validation_error(&state).contains("missing entity_id"));

    let mut state = with_events();
    let at = state.events.iter().position(|event| event.kind == "entity_changed").unwrap();
    state.events[at].data = object(vec![("change", Json::Str("unknown".into()))]);
    assert!(validation_error(&state).contains("invalid change"));

    let mut state = with_events();
    state.events.last_mut().unwrap().data = object(vec![]);
    assert!(validation_error(&state).contains("missing action"));

    let mut state = valid();
    let tx = Transaction {
        from: "admin".into(),
        nonce: 0,
        entity_id: 4,
        action: "go".into(),
        args: object(vec![("direction", Json::Str("east".into()))]),
        signature: None,
    };
    check_transaction(&state, &tx).unwrap();
    go(&mut state, 4, "east");
    let run = run_receipt_for(&state, Vec::new(), object(vec![("location", Json::UInt(2))]));
    let receipt = finish_transaction(&mut state, &tx, run).unwrap();
    state.receipts.insert(receipt.tx_id.clone(), receipt.deep_copy());
    state.validate().unwrap();

    let tx_event_index = state.events.iter().position(|event| event.kind == "transaction_executed").unwrap();
    let mut missing_receipt = state.deep_copy();
    missing_receipt.receipts.clear();
    assert!(validation_error(&missing_receipt).contains("receipt does not exist"));

    let mut mismatch = state.deep_copy();
    let data = &mismatch.events[tx_event_index].data;
    let tx_id = data.get_str("tx_id").unwrap().clone();
    let from = data.get_str("from").unwrap().clone();
    mismatch.events[tx_event_index].data =
        object(vec![("tx_id", Json::Str(tx_id)), ("from", Json::Str(from)), ("nonce", Json::UInt(99))]);
    assert!(validation_error(&mismatch).contains("does not match receipt"));

    let tx_event = state.events[tx_event_index].deep_copy();
    let mut duplicate = state;
    duplicate.events.push(WorldEvent { id: duplicate.next_event_id, head: duplicate.head, ..tx_event });
    duplicate.next_event_id += 1;
    assert!(validation_error(&duplicate).contains("duplicate transaction event"));
}

#[test]
fn core_reference_validation_rejects_inconsistent_maps_and_links() {
    let mut state = valid();
    edit_account(&mut state, "admin", |a| a.name = "other".into());
    assert!(validation_error(&state).contains("account map key"));

    let mut state = valid();
    edit_account(&mut state, "admin", |a| a.public_key = Some("not-hex".into()));
    assert!(validation_error(&state).contains("public key is not hex"));

    let mut state = valid();
    edit_account(&mut state, "admin", |a| a.public_key = Some("00".repeat(31)));
    assert!(validation_error(&state).contains("public key must be 32 bytes"));

    let mut state = valid();
    let contract = state.contracts.remove(&"demo".to_string()).unwrap();
    state.contracts.insert("wrong".into(), contract);
    assert!(validation_error(&state).contains("contract map key"));

    let mut state = valid();
    edit_contract(&mut state, "demo", |c| c.version = 0);
    assert!(validation_error(&state).contains("version must be greater than zero"));

    let mut state = valid();
    edit_contract(&mut state, "demo", |c| c.source_hash = "00".repeat(32));
    assert!(validation_error(&state).contains("source hash does not match"));

    let mut state = valid();
    let entity = state.entities.remove(&4).unwrap();
    state.entities.insert(99, entity);
    assert!(validation_error(&state).contains("entity map key"));

    let mut state = valid();
    edit_entity(&mut state, 4, |e| e.owner = "missing".into());
    assert!(validation_error(&state).contains("owner account does not exist"));

    let mut state = valid();
    edit_entity(&mut state, 4, |e| e.contract = Some("missing".into()));
    assert!(validation_error(&state).contains("contract does not exist"));

    let mut state = valid();
    state.next_entity_id = 8;
    assert!(validation_error(&state).contains("next_entity_id"));

    let progress_state = || {
        let mut state = valid();
        command(&mut state, 4, "accept", |s| s.accept_quest(true, 4, "lost_key".into(), 6)).unwrap();
        state
    };
    let mut state = progress_state();
    let progress = state.quest_progress.remove(&"4:lost_key".to_string()).unwrap();
    state.quest_progress.insert("wrong".into(), progress);
    assert!(validation_error(&state).contains("quest progress key"));

    let mut state = progress_state();
    edit_progress(&mut state, "4:lost_key", |p| p.actor_id = 1);
    let progress = state.quest_progress.remove(&"4:lost_key".to_string()).unwrap();
    state.quest_progress.insert("1:lost_key".into(), progress);
    assert!(validation_error(&state).contains("not an actor"));

    let mut state = progress_state();
    edit_progress(&mut state, "4:lost_key", |p| p.quest_id = "missing".into());
    let progress = state.quest_progress.remove(&"4:lost_key".to_string()).unwrap();
    state.quest_progress.insert("4:missing".into(), progress);
    assert!(validation_error(&state).contains("definition does not exist"));

    let receipt = Receipt {
        tx_id: "11".repeat(32),
        from: "admin".into(),
        nonce: 0,
        ok: true,
        messages: Vec::new(),
        result: object(vec![]),
        state_root: "22".repeat(32),
    };
    let mut state = valid();
    state.receipts.insert("wrong".into(), receipt.deep_copy());
    assert!(validation_error(&state).contains("receipt map key"));

    let mut state = valid();
    let mut missing_account_receipt = receipt.deep_copy();
    missing_account_receipt.from = "missing".into();
    state.receipts.insert(receipt.tx_id.clone(), missing_account_receipt);
    assert!(validation_error(&state).contains("receipt account does not exist"));

    let mut state = valid();
    let mut invalid_hash_receipt = receipt;
    invalid_hash_receipt.state_root = "bad".into();
    state.receipts.insert(invalid_hash_receipt.tx_id.clone(), invalid_hash_receipt);
    assert!(validation_error(&state).contains("receipt state root"));
}

#[test]
fn demo_item_transfer_requires_colocation_and_updates_owner_inventory() {
    let mut state = WorldState::genesis();
    let actor = demo::initialize(&mut state, DEMO_SOURCE.to_string()).unwrap();
    let mut recipient_data: SortedMap<String, Json> = SortedMap::new();
    recipient_data.insert("name".into(), Json::Str("Rowan".into()));
    let recipient =
        runtime::create_entity(&mut state, EntityKind::Actor, "admin".into(), None, Some(2), recipient_data)
            .unwrap();
    go(&mut state, actor, "east");
    command(&mut state, actor, "take", |s| s.take_item(true, actor, 5)).unwrap();
    command(&mut state, actor, "give", |s| give(s, actor, 5, recipient)).unwrap();
    assert!(state.inventory(actor).is_empty());
    assert_eq!(state.inventory(recipient), vec![5]);
    assert_eq!(state.entities.get(&5).unwrap().location, Some(recipient));
    assert!(state.events.iter().any(|event| event.kind == "item_transferred"));

    edit_entity(&mut state, actor, |e| e.location = Some(1));
    let root = state.root();
    assert!(command(&mut state, actor, "give", |s| give(s, actor, 5, recipient)).is_err());
    assert_eq!(state.root(), root);
    assert_eq!(state.inventory(recipient), vec![5]);
}

#[test]
fn demo_item_can_be_dropped_and_taken_again() {
    let mut state = WorldState::genesis();
    let actor = demo::initialize(&mut state, DEMO_SOURCE.to_string()).unwrap();
    go(&mut state, actor, "east");
    command(&mut state, actor, "take", |s| s.take_item(true, actor, 5)).unwrap();
    command(&mut state, actor, "drop", |s| s.drop_item(true, actor, 5)).unwrap();
    assert!(state.inventory(actor).is_empty());
    assert_eq!(state.entities.get(&5).unwrap().location, Some(2));
    command(&mut state, actor, "take", |s| s.take_item(true, actor, 5)).unwrap();
    assert_eq!(state.inventory(actor), vec![5]);
}

#[test]
fn demo_upgrade_is_versioned_and_idempotent() {
    let mut state = WorldState::genesis();
    let actor = demo::initialize(&mut state, DEMO_SOURCE.to_string()).unwrap();
    let old_source = "function query_old() return {} end".to_string();
    edit_contract(&mut state, "demo", |c| {
        c.source = old_source.clone();
        c.source_hash = blake3::hash(old_source.as_bytes()).to_hex().to_string();
    });
    state.quests.clear();
    edit_entity(&mut state, actor, |e| {
        e.data.insert("quest".into(), Json::Str("accepted".into()));
        e.data.insert("inventory".into(), Json::Array(vec![Json::UInt(5)]));
    });

    assert!(demo::ensure_current(&mut state, DEMO_SOURCE.to_string()).unwrap());
    assert_eq!(state.entities.get(&actor).unwrap().contract.as_deref(), Some("demo@2"));
    assert!(state.quests.contains_key(&"lost_key".to_string()));
    assert!(state.quests.contains_key(&"ruins_tablet".to_string()));
    assert!(state.quests.contains_key(&"open_shrine".to_string()));
    assert_eq!(state.quests.get(&"lost_key".to_string()).unwrap().giver_entity_id, 6);
    assert_eq!(state.quests.get(&"ruins_tablet".to_string()).unwrap().giver_entity_id, 7);
    assert_eq!(state.quest_progress.get(&"4:lost_key".to_string()).unwrap().status, QuestStatus::Accepted);
    assert_eq!(state.inventory(actor), vec![5]);
    assert_eq!(state.entities.get(&5).unwrap().location, Some(actor));
    assert!(!state.entities.get(&actor).unwrap().data.contains_key(&"inventory".to_string()));
    assert!(!demo::ensure_current(&mut state, DEMO_SOURCE.to_string()).unwrap());
    assert_eq!(state.contracts.len(), 2);
}

/// The demo's `accept` command: takes a quest from a giver and announces it.
fn accept(state: &mut WorldState, actor: u64, quest_id: &str, npc: u64) -> Result<(), aomori::error::Error> {
    state.accept_quest(true, actor, quest_id.to_string(), npc)?;
    let data = object(vec![("npc_id", Json::UInt(npc)), ("quest_id", Json::Str(quest_id.into()))]);
    state.emit_event(true, "quest_accepted".into(), Some(actor), data)?;
    Ok(())
}

/// The demo's `complete` command: completes a quest and announces the reward.
fn complete(state: &mut WorldState, actor: u64, quest_id: &str) -> Result<u64, aomori::error::Error> {
    let reward = state.complete_quest(true, actor, quest_id)?;
    let data = object(vec![("quest_id", Json::Str(quest_id.into())), ("reward", Json::UInt(reward))]);
    state.emit_event(true, "quest_completed".into(), Some(actor), data)?;
    Ok(reward)
}

fn balance(state: &WorldState, name: &str) -> u64 {
    state.accounts.get(&name.to_string()).unwrap().balance
}

fn progress_status(state: &WorldState, key: &str) -> QuestStatus {
    state.quest_progress.get(&key.to_string()).unwrap().status
}

#[test]
fn failed_command_does_not_emit_system_events() {
    let mut state = WorldState::genesis();
    let actor = demo::initialize(&mut state, DEMO_SOURCE.to_string()).unwrap();
    let event_count = state.events.len();
    let root = state.root();
    assert!(command(&mut state, actor, "complete", |s| complete(s, actor, "lost_key")).is_err());
    assert_eq!(state.events.len(), event_count);
    assert_eq!(state.root(), root);
}

#[test]
fn demo_quest_requires_location_and_rewards_account() {
    let mut state = WorldState::genesis();
    let actor = demo::initialize(&mut state, DEMO_SOURCE.to_string()).unwrap();
    assert_eq!(actor, 4);
    command(&mut state, actor, "accept", |s| accept(s, actor, "lost_key", 6)).unwrap();
    go(&mut state, actor, "east");
    command(&mut state, actor, "take", |s| s.take_item(true, actor, 5)).unwrap();
    assert!(command(&mut state, actor, "complete", |s| complete(s, actor, "lost_key")).is_err());
    go(&mut state, actor, "west");
    command(&mut state, actor, "complete", |s| complete(s, actor, "lost_key")).unwrap();
    assert_eq!(balance(&state, "admin"), 10);
    assert!(state.inventory(actor).is_empty());
    assert!(!state.entities.contains_key(&5));
    assert_eq!(progress_status(&state, "4:lost_key"), QuestStatus::Completed);
}

#[test]
fn demo_supports_parallel_quests_with_distinct_givers_and_item_policies() {
    let mut state = WorldState::genesis();
    let actor = demo::initialize(&mut state, DEMO_SOURCE.to_string()).unwrap();
    command(&mut state, actor, "accept", |s| accept(s, actor, "lost_key", 6)).unwrap();
    command(&mut state, actor, "accept", |s| accept(s, actor, "ruins_tablet", 7)).unwrap();
    go(&mut state, actor, "east");
    command(&mut state, actor, "take", |s| s.take_item(true, actor, 5)).unwrap();
    go(&mut state, actor, "east");
    command(&mut state, actor, "take", |s| s.take_item(true, actor, 8)).unwrap();
    go(&mut state, actor, "west");
    go(&mut state, actor, "west");
    command(&mut state, actor, "complete", |s| complete(s, actor, "lost_key")).unwrap();
    command(&mut state, actor, "complete", |s| complete(s, actor, "ruins_tablet")).unwrap();

    assert_eq!(balance(&state, "admin"), 16);
    assert_eq!(state.inventory(actor), vec![8]);
    assert!(!state.entities.contains_key(&5));
    assert!(state.entities.contains_key(&8));
    assert_eq!(progress_status(&state, "4:lost_key"), QuestStatus::Completed);
    assert_eq!(progress_status(&state, "4:ruins_tablet"), QuestStatus::Completed);
}

#[test]
fn quest_cannot_be_accepted_from_the_wrong_giver() {
    let mut state = WorldState::genesis();
    let actor = demo::initialize(&mut state, DEMO_SOURCE.to_string()).unwrap();
    let root = state.root();
    let result = command(&mut state, actor, "accept", |s| accept(s, actor, "lost_key", 7));
    assert!(result.unwrap_err().message().contains("quest giver does not match"));
    assert_eq!(state.root(), root);
    assert!(state.quest_progress.is_empty());
}

#[test]
fn quest_prerequisite_unlocks_only_after_completion() {
    let mut state = WorldState::genesis();
    let actor = demo::initialize(&mut state, DEMO_SOURCE.to_string()).unwrap();
    let root = state.root();
    let locked = command(&mut state, actor, "accept", |s| accept(s, actor, "open_shrine", 7));
    assert!(locked.unwrap_err().message().contains("quest prerequisite is not completed: lost_key"));
    assert_eq!(state.root(), root);

    command(&mut state, actor, "accept", |s| accept(s, actor, "lost_key", 6)).unwrap();
    go(&mut state, actor, "east");
    command(&mut state, actor, "take", |s| s.take_item(true, actor, 5)).unwrap();
    go(&mut state, actor, "west");
    command(&mut state, actor, "complete", |s| complete(s, actor, "lost_key")).unwrap();
    command(&mut state, actor, "accept", |s| accept(s, actor, "open_shrine", 7)).unwrap();
    go(&mut state, actor, "east");
    go(&mut state, actor, "east");
    command(&mut state, actor, "take", |s| s.take_item(true, actor, 8)).unwrap();
    command(&mut state, actor, "complete", |s| complete(s, actor, "open_shrine")).unwrap();

    assert_eq!(balance(&state, "admin"), 14);
    assert_eq!(progress_status(&state, "4:open_shrine"), QuestStatus::Completed);
    assert_eq!(state.inventory(actor), vec![8]);
}

#[test]
fn lua_cannot_emit_reserved_system_events() {
    let mut state = WorldState::genesis();
    runtime::deploy(&mut state, "reserved-events".into(), WORLD_SOURCE.to_string()).unwrap();
    let actor = runtime::create_entity(
        &mut state,
        EntityKind::Actor,
        "admin".into(),
        Some("reserved-events".into()),
        None,
        SortedMap::new(),
    )
    .unwrap();
    let original_root = state.root();
    let data = object(vec![("tx_id", Json::Str("fake".into()))]);
    let error = command(&mut state, actor, "spoof", |s| s.emit_event(true, "transaction_executed".into(), Some(actor), data))
        .unwrap_err()
        .message();
    assert!(error.contains("event kind is reserved"));
    assert_eq!(state.root(), original_root);
    assert!(state.events.is_empty());
}

#[test]
fn signed_transaction_is_verified_before_execution() {
    let mut state = WorldState::genesis();
    let signing_key = SigningKey::from_bytes(&[7u8; 32]);
    let public_key = hex::encode(signing_key.verifying_key().to_bytes());
    state.accounts.insert(
        "player".into(),
        Account { name: "player".into(), public_key: Some(public_key), nonce: 0, balance: 0 },
    );
    runtime::deploy(&mut state, "world".into(), WORLD_SOURCE.to_string()).unwrap();
    let mut zone_data: SortedMap<String, Json> = SortedMap::new();
    zone_data.insert("name".into(), Json::Str("Village".into()));
    zone_data.insert("exits".into(), object(vec![("north", Json::UInt(1))]));
    let zone = runtime::create_entity(&mut state, EntityKind::Zone, "player".into(), None, None, zone_data).unwrap();
    let actor = runtime::create_entity(
        &mut state,
        EntityKind::Actor,
        "player".into(),
        Some("world".into()),
        Some(zone),
        SortedMap::new(),
    )
    .unwrap();
    let mut tx = Transaction {
        from: "player".into(),
        nonce: 0,
        entity_id: actor,
        action: "go".into(),
        args: object(vec![("direction", Json::Str("north".into()))]),
        signature: None,
    };
    let payload = tx.signing_bytes();
    tx.signature = Some(hex::encode(signing_key.sign(&payload).to_bytes()));
    check_transaction(&state, &tx).unwrap();
    go(&mut state, actor, "north");
    let run = run_receipt_for(&state, Vec::new(), object(vec![("location", Json::UInt(zone))]));
    let receipt = finish_transaction(&mut state, &tx, run).unwrap();
    assert!(receipt.ok);
    assert_eq!(state.accounts.get(&"player".to_string()).unwrap().nonce, 1);
}

#[test]
fn lua_can_spawn_entities_update_data_and_emit_events() {
    let mut state = WorldState::genesis();
    runtime::deploy(&mut state, "tools".into(), WORLD_SOURCE.to_string()).unwrap();
    let actor = runtime::create_entity(
        &mut state,
        EntityKind::Actor,
        "admin".into(),
        Some("tools".into()),
        None,
        SortedMap::new(),
    )
    .unwrap();
    // What the `create_item` command of the "tools" contract asks of the host.
    let item = command(&mut state, actor, "create_item", |s| {
        let item = s.spawn_entity(true, actor, "item", None, object(vec![("name", Json::Str("key".into()))]))?;
        s.update_entity_data(true, actor, actor, "visited".into(), Json::Bool(true))?;
        s.emit_event(true, "item_created".into(), Some(item), object(vec![("name", Json::Str("key".into()))]))?;
        Ok(item)
    })
    .unwrap();
    assert!(matches!(state.entities.get(&item).unwrap().data.get(&"name".to_string()), Some(Json::Str(name)) if name == "key"));
    assert!(matches!(state.entities.get(&actor).unwrap().data.get(&"visited".to_string()), Some(Json::Bool(true))));
    assert_eq!(state.events[0].kind, "item_created");
    assert!(state.events.iter().any(|event| event.kind == "entity_changed"));
    assert!(state.events.iter().any(|event| event.kind == "command_executed"));
}

#[test]
fn upgrade_over_a_stale_entity_counter_is_not_repeatable() {
    let mut state = WorldState::genesis();
    demo::initialize(&mut state, DEMO_SOURCE.to_string()).unwrap();
    // Rowan and the tablet are gone, and the counter points at Mira's id.
    state.entities.remove(&7);
    state.entities.remove(&8);
    state.inventories.remove(&7);
    state.next_entity_id = 6;
    let first = demo::ensure_current(&mut state, DEMO_SOURCE.to_string());
    assert!(first.unwrap());
    state.validate().unwrap();
    // Rowan was created under Mira's id, so a second upgrade finds no Mira.
    let name = |state: &WorldState, id: u64| match state.entities.get(&id).unwrap().data.get(&"name".to_string()) {
        Some(Json::Str(n)) => n.clone(),
        _ => String::new(),
    };
    assert_eq!(name(&state, 6), "Rowan");
    let root = state.root();
    let second = demo::ensure_current(&mut state, DEMO_SOURCE.to_string()).unwrap_err();
    assert_eq!(second.message(), "demo Mira is missing");
    assert_eq!(state.root(), root);
}
