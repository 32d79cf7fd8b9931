use aomori::commit::{finish_command, keep_if_saved};
use aomori::demo;
use aomori::error::{Error, ErrorKind};
use aomori::json::{to_text, Json};
use aomori::maps::{DeepCopy, SortedMap};
use aomori::model::{EntityKind, QuestStatus, Transaction, WorldState};
use aomori::rpc::{
    admin_authorized, create_account, error_code, events_since, is_admin_method, is_known_method, list_entities, prometheus_label,
    quest_list, required_str, required_u64, transaction_policy, unsigned_command_policy,
};
use aomori::limiter::{client_identity, RateLimiter, MAX_CLIENT_BUCKETS};
use aomori::runtime::{
    contract_key, deploy_version, instruction_limit_exceeded, quest_progress_key, LuaLimits, DEFAULT_LUA_INSTRUCTION_LIMIT,
    DEFAULT_LUA_MEMORY_LIMIT,
};
use aomori::text::u64_to_string;
use aomori::transaction::{check_transaction, verify_signature};
use ed25519_dalek::{Signer, SigningKey};

const DEMO_SOURCE: &str = "function query_look(ctx, args) return {} end";

fn demo_world() -> WorldState {
    let mut state = WorldState::genesis();
    demo::initialize(&mut state, DEMO_SOURCE.to_string()).unwrap();
    state
}

fn object(entries: Vec<(&str, Json)>) -> Json {
    Json::Object(entries.into_iter().map(|(k, v)| (k.to_string(), v)).collect())
}

fn go_tx(from: &str, nonce: u64) -> Transaction {
    Transaction {
        from: from.into(),
        nonce,
        entity_id: 4,
        action: "go".into(),
        args: object(vec![("direction", Json::Str("east".into()))]),
        signature: None,
    }
}

#[test]
fn deployed_source_hash_is_the_blake3_hash_in_lowercase_hex() {
    let mut state = WorldState::genesis();
    deploy_version(&mut state, "c".into(), 1, "abc".into()).unwrap();
    let hash = state.contracts.get(&"c".to_string()).unwrap().source_hash.clone();
    assert_eq!(hash, blake3::hash(b"abc").to_hex().to_string());
    assert_eq!(hash.len(), 64);
    assert!(hash.chars().all(|c| c.is_ascii_digit() || ('a'..='f').contains(&c)));
}

#[test]
fn public_keys_decode_from_hex_of_either_case() {
    let key = SigningKey::from_bytes(&[7u8; 32]);
    let tx = go_tx("player", 0);
    let mut signed = go_tx("player", 0);
    signed.signature = None;
    let signature = hex::encode(key.sign(&signed.signing_bytes()).to_bytes());
    let lower = hex::encode(key.verifying_key().to_bytes());
    verify_signature(&lower, &signature, &tx).unwrap();
    verify_signature(&lower.to_uppercase(), &signature.to_uppercase(), &tx).unwrap();
    assert_eq!(
        verify_signature(&lower[1..], &signature, &tx).unwrap_err().message(),
        "public key must be 32-byte hex"
    );
    assert_eq!(
        verify_signature(&format!("zz{}", &lower[2..]), &signature, &tx).unwrap_err().message(),
        "public key must be 32-byte hex"
    );
}

#[test]
fn contract_and_progress_keys() {
    assert_eq!(contract_key("demo", 1), "demo");
    assert_eq!(contract_key("demo", 2), "demo@2");
    assert_eq!(contract_key("world", 17), "world@17");
    assert_eq!(quest_progress_key(4, "lost_key"), "4:lost_key");
    assert_eq!(u64_to_string(0), "0");
    assert_eq!(u64_to_string(18446744073709551615), "18446744073709551615");
}

#[test]
fn lua_limits_default_and_instruction_budget() {
    let limits = LuaLimits::default();
    assert_eq!(limits.instruction_limit, DEFAULT_LUA_INSTRUCTION_LIMIT);
    assert_eq!(limits.memory_limit, DEFAULT_LUA_MEMORY_LIMIT);
    assert_eq!(DEFAULT_LUA_INSTRUCTION_LIMIT, 200_000);
    assert_eq!(DEFAULT_LUA_MEMORY_LIMIT, 16 * 1024 * 1024);
    assert!(!instruction_limit_exceeded(200_000, &limits));
    assert!(instruction_limit_exceeded(200_001, &limits));
}

#[test]
fn genesis_world_is_valid_with_an_admin_account() {
    let state = WorldState::genesis();
    state.validate().unwrap();
    let admin = state.accounts.get(&"admin".to_string()).unwrap();
    assert_eq!(admin.nonce, 0);
    assert_eq!(state.head, 0);
    assert_eq!(state.next_entity_id, 1);
}

#[test]
fn demo_world_has_its_places_characters_and_quests() {
    let mut state = WorldState::genesis();
    let actor = demo::initialize(&mut state, DEMO_SOURCE.to_string()).unwrap();
    assert_eq!(actor, 4);
    assert_eq!(demo::find_named_entity(&state, EntityKind::Zone, "Village"), Some(1));
    assert_eq!(demo::find_named_entity(&state, EntityKind::Zone, "Ruins"), Some(3));
    assert_eq!(demo::find_named_entity(&state, EntityKind::Actor, "Mira"), Some(6));
    assert_eq!(demo::find_named_entity(&state, EntityKind::Actor, "Rowan"), Some(7));
    assert_eq!(demo::find_named_entity(&state, EntityKind::Item, "brass key"), Some(5));
    assert_eq!(demo::find_named_entity(&state, EntityKind::Item, "stone tablet"), Some(8));
    assert_eq!(state.exit_target(1, "east"), Some(2));
    assert_eq!(state.exit_target(2, "west"), Some(1));
    assert_eq!(state.exit_target(2, "east"), Some(3));
    assert_eq!(state.exit_target(3, "east"), None);
    let open_shrine = state.quests.get(&"open_shrine".to_string()).unwrap();
    assert_eq!(open_shrine.prerequisite_quest_ids, vec!["lost_key".to_string()]);
    assert_eq!(open_shrine.reward_balance, 4);
    state.validate().unwrap();
    let error = demo::initialize(&mut state, DEMO_SOURCE.to_string()).unwrap_err();
    assert_eq!(error.message(), "demo requires an empty world");
}

#[test]
fn upgrading_an_empty_world_builds_the_demo() {
    let mut state = WorldState::genesis();
    assert!(demo::ensure_current(&mut state, DEMO_SOURCE.to_string()).unwrap());
    assert_eq!(state.entities.len(), 8);
    assert!(!demo::ensure_current(&mut state, DEMO_SOURCE.to_string()).unwrap());
}

#[test]
fn upgrading_needs_the_demo_contract() {
    let mut state = WorldState::genesis();
    aomori::runtime::deploy(&mut state, "world".into(), "x = 1".into()).unwrap();
    let error = demo::ensure_current(&mut state, DEMO_SOURCE.to_string()).unwrap_err();
    assert_eq!(error.message(), "existing world does not contain the demo contract");
}

#[test]
fn upgrading_recreates_a_missing_rowan() {
    let mut state = demo_world();
    state.quests.clear();
    state.entities.remove(&7);
    let head = state.head;
    assert!(demo::ensure_current(&mut state, DEMO_SOURCE.to_string()).unwrap());
    assert_eq!(state.head, head + 2);
    let rowan = demo::find_named_entity(&state, EntityKind::Actor, "Rowan").unwrap();
    assert_eq!(rowan, 9);
    assert_eq!(state.quests.get(&"ruins_tablet".to_string()).unwrap().giver_entity_id, 9);
    assert_eq!(demo::latest_demo_version(&state), 1);
}

#[test]
fn each_client_has_its_own_token_bucket() {
    let mut limiter = RateLimiter::new(2);
    assert_eq!(limiter.count_request(1, 0), Ok(()));
    assert_eq!(limiter.count_request(1, 0), Ok(()));
    assert_eq!(limiter.count_request(1, 0), Err(500));
    assert_eq!(limiter.count_request(2, 0), Ok(()));
    assert_eq!(limiter.count_request(1, 499), Err(1));
    assert_eq!(limiter.count_request(1, 500), Ok(()));
    assert_eq!(limiter.tracked_clients(), 2);
}

#[test]
fn retry_after_is_the_time_to_the_next_token() {
    let mut limiter = RateLimiter::new(100);
    for _ in 0..100 {
        assert_eq!(limiter.count_request(7, 0), Ok(()));
    }
    assert_eq!(limiter.count_request(7, 0), Err(10));
    assert_eq!(limiter.count_request(7, 2), Err(8));
    assert_eq!(limiter.count_request(7, 10), Ok(()));
    assert_eq!(limiter.count_request(7, 5000), Ok(()));
}

#[test]
fn idle_buckets_are_forgotten() {
    let mut limiter = RateLimiter::new(1);
    assert_eq!(limiter.count_request(1, 0), Ok(()));
    assert_eq!(limiter.count_request(2, 599_999), Ok(()));
    assert_eq!(limiter.tracked_clients(), 2);
    assert_eq!(limiter.count_request(2, 600_000), Err(999));
    assert_eq!(limiter.tracked_clients(), 1);
}

#[test]
fn the_least_recently_used_bucket_gives_way_at_the_bound() {
    let mut limiter = RateLimiter::new(1);
    assert_eq!(limiter.count_request(0, 0), Ok(()));
    assert_eq!(limiter.count_request(0, 1), Err(999));
    for client in 1..=(MAX_CLIENT_BUCKETS as u128) {
        assert_eq!(limiter.count_request(client, 2), Ok(()));
    }
    assert_eq!(limiter.tracked_clients(), MAX_CLIENT_BUCKETS);
    assert_eq!(limiter.count_request(0, 3), Ok(()));
    assert_eq!(limiter.tracked_clients(), MAX_CLIENT_BUCKETS);
}

#[test]
fn the_client_is_found_through_trusted_proxies_only() {
    let trusted = vec![10, 11];
    assert_eq!(client_identity(5, &vec![Some(1), Some(2)], &trusted), 5);
    assert_eq!(client_identity(10, &vec![Some(1), Some(2)], &trusted), 2);
    assert_eq!(client_identity(10, &vec![Some(1), Some(11)], &trusted), 1);
    assert_eq!(client_identity(10, &vec![None, Some(11)], &trusted), 11);
    assert_eq!(client_identity(10, &vec![], &trusted), 10);
    assert_eq!(client_identity(10, &vec![Some(11), Some(10)], &trusted), 11);
}

#[test]
fn metric_labels_escape_quotes_backslashes_and_newlines() {
    assert_eq!(prometheus_label("plain"), "plain");
    assert_eq!(prometheus_label("a\"b\\c\nd"), "a\\\"b\\\\c\\nd");
}

#[test]
fn error_codes_follow_the_message() {
    assert_eq!(error_code("unknown method: x"), -32601);
    assert_eq!(error_code("entity_id required"), -32602);
    assert_eq!(error_code("invalid type: string"), -32602);
    assert_eq!(error_code("invalid nonce: expected 0, got 1"), -32003);
    assert_eq!(error_code("account is not the entity owner"), -32002);
    assert_eq!(error_code("signature required"), -32002);
    assert_eq!(error_code("signature must be 64-byte hex"), -32002);
    assert_eq!(error_code("unsigned commands are disabled"), -32002);
    assert_eq!(error_code("lua execution: boom"), -32000);
}

#[test]
fn method_names() {
    assert!(is_known_method("aomori_get_info"));
    assert!(!is_known_method("not_a_method"));
    assert!(is_admin_method("aomori_deploy"));
    assert!(!is_admin_method("aomori_get_info"));
}

#[test]
fn required_parameters_name_what_is_missing() {
    let params = object(vec![("entity_id", Json::UInt(4)), ("name", Json::Str("x".into()))]);
    assert_eq!(required_u64(&params, "entity_id").unwrap(), 4);
    assert_eq!(required_str(&params, "name").unwrap(), "x");
    assert_eq!(required_u64(&params, "missing").unwrap_err().message(), "missing required");
}

#[test]
fn accounts_are_created_once() {
    let mut state = WorldState::genesis();
    create_account(&mut state, "player".into(), None, 5).unwrap();
    assert_eq!(state.accounts.get(&"player".to_string()).unwrap().balance, 5);
    assert_eq!(state.head, 1);
    let error = create_account(&mut state, "player".into(), None, 0).unwrap_err();
    assert_eq!(error.message(), "account already exists: player");
    assert_eq!(state.head, 1);
}

#[test]
fn entity_listing_filters_by_location_and_kind() {
    let state = demo_world();
    let items = list_entities(&state, Some(2), Some("item"));
    match items {
        Json::Array(v) => {
            assert_eq!(v.len(), 1);
            assert_eq!(v[0].get_u64("id"), Some(5));
        }
        _ => panic!("not an array"),
    }
    match list_entities(&state, Some(1), None) {
        Json::Array(v) => assert_eq!(v.len(), 3),
        _ => panic!("not an array"),
    }
}

#[test]
fn quest_list_reports_locked_and_available() {
    let state = demo_world();
    let list = quest_list(&state, Some(4));
    let quests = list.get("quests").unwrap().as_array().unwrap();
    let status = |id: &str| {
        quests.iter().find(|q| q.get_str("id").unwrap() == id).unwrap().get_str("status").unwrap().clone()
    };
    assert_eq!(status("lost_key"), "available");
    assert_eq!(status("open_shrine"), "locked");
}

#[test]
fn event_pages_start_after_the_cursor() {
    let mut state = demo_world();
    let original = state.deep_copy();
    state.move_actor(true, 4, 2).unwrap();
    finish_command(&mut state, &original, 4, "go");
    let page = events_since(&state, 0, 1);
    assert_eq!(page.get("events").unwrap().as_array().unwrap().len(), 1);
    assert_eq!(page.get_u64("next"), Some(1));
    assert_eq!(page.get_u64("latest"), Some(2));
    let empty = events_since(&state, 5, 10);
    assert_eq!(empty.get("events").unwrap().as_array().unwrap().len(), 0);
    assert_eq!(empty.get_u64("next"), Some(5));
}

#[test]
fn commands_record_changed_entities_and_the_action() {
    let mut state = demo_world();
    let original = state.deep_copy();
    let head = state.head;
    state.move_actor(true, 4, 2).unwrap();
    finish_command(&mut state, &original, 4, "go");
    assert_eq!(state.head, head + 1);
    let kinds: Vec<&str> = state.events.iter().map(|e| e.kind.as_str()).collect();
    assert_eq!(kinds, vec!["entity_changed", "command_executed"]);
    assert_eq!(to_text(&state.events[1].data), "{\"action\":\"go\"}");
}

#[test]
fn queries_may_not_write() {
    let mut state = demo_world();
    let error = state.move_actor(false, 4, 2).unwrap_err();
    assert_eq!(error.message(), "query is read-only");
}

#[test]
fn quest_acceptance_checks_the_giver() {
    let mut state = demo_world();
    let error = state.accept_quest(true, 4, "lost_key".into(), 7).unwrap_err();
    assert!(error.message().contains("quest giver does not match"));
    state.accept_quest(true, 4, "lost_key".into(), 6).unwrap();
    assert_eq!(state.quest_status(4, "lost_key"), Some(QuestStatus::Accepted));
    let error = state.accept_quest(true, 4, "open_shrine".into(), 7).unwrap_err();
    assert!(error.message().contains("quest prerequisite is not completed: lost_key"));
}

#[test]
fn transactions_check_nonce_owner_and_signature_policy() {
    let state = demo_world();
    check_transaction(&state, &go_tx("admin", 0)).unwrap();
    let error = check_transaction(&state, &go_tx("admin", 1)).unwrap_err();
    assert_eq!(error.message(), "invalid nonce: expected 0, got 1");
    assert_eq!(error_code(&error.message()), -32003);
    let error = check_transaction(&state, &go_tx("nobody", 0)).unwrap_err();
    assert_eq!(error.message(), "account not found: nobody");
    let mut signed = go_tx("admin", 0);
    signed.signature = Some("00".repeat(64));
    assert!(check_transaction(&state, &signed).is_err());
}

#[test]
fn signatures_are_verified_against_the_unsigned_transaction() {
    let key = SigningKey::from_bytes(&[7u8; 32]);
    let public_key = hex::encode(key.verifying_key().to_bytes());
    let mut tx = go_tx("player", 0);
    let signature = hex::encode(key.sign(&tx.signing_bytes()).to_bytes());
    tx.signature = Some(signature.clone());
    verify_signature(&public_key, &signature, &tx).unwrap();

    let mut tampered = go_tx("player", 1);
    tampered.signature = Some(signature.clone());
    assert_eq!(
        verify_signature(&public_key, &signature, &tampered).unwrap_err().message(),
        "invalid transaction signature"
    );
    assert_eq!(
        verify_signature(&public_key, "abcd", &tx).unwrap_err().message(),
        "signature must be 64-byte hex"
    );
    assert_eq!(
        verify_signature("00", &signature, &tx).unwrap_err().message(),
        "public key must be 32-byte hex"
    );
}

#[test]
fn signed_accounts_need_a_valid_signature() {
    let key = SigningKey::from_bytes(&[9u8; 32]);
    let mut state = demo_world();
    create_account(&mut state, "player".into(), Some(hex::encode(key.verifying_key().to_bytes())), 0).unwrap();
    let mut tx = Transaction { entity_id: 7, ..go_tx("player", 0) };
    assert_eq!(check_transaction(&state, &tx).unwrap_err().message(), "signature required");
    let signature = hex::encode(key.sign(&tx.signing_bytes()).to_bytes());
    tx.signature = Some(signature);
    assert!(check_transaction(&state, &tx).unwrap_err().message().contains("owner"));
}

#[test]
fn error_messages_fill_their_templates() {
    let error = Error::two(ErrorKind::InvalidNonce, "3".into(), "4".into());
    assert_eq!(error.message(), "invalid nonce: expected 3, got 4");
    assert_eq!(Error::plain(ErrorKind::DemoNeedsEmptyWorld).message(), "demo requires an empty world");
}

#[test]
fn state_root_changes_with_the_world() {
    let a = WorldState::genesis();
    let mut b = WorldState::genesis();
    assert_eq!(a.root(), b.root());
    assert_eq!(a.root().len(), 64);
    create_account(&mut b, "player".into(), None, 0).unwrap();
    assert_ne!(a.root(), b.root());
}

#[test]
fn sorted_maps_keep_keys_in_order() {
    let mut m: SortedMap<u64, u64> = SortedMap::new();
    m.insert(5, 50);
    m.insert(1, 10);
    m.insert(3, 30);
    assert_eq!(*m.key_at(0), 1);
    assert_eq!(*m.key_at(2), 5);
    assert_eq!(m.insert(3, 33), Some(30));
    assert_eq!(m.remove(&1), Some(10));
    assert_eq!(m.len(), 2);
    assert_eq!(m.get(&3), Some(&33));
}

#[test]
fn requests_must_be_json_rpc_two_calls() {
    let call = aomori::rpc::read_call(&object(vec![
        ("jsonrpc", Json::Str("2.0".into())),
        ("id", Json::UInt(1)),
        ("method", Json::Str("aomori_get_info".into())),
    ]))
    .unwrap();
    assert_eq!(call.method, "aomori_get_info");
    assert_eq!(call.id.as_u64(), Some(1));
    assert!(matches!(call.params, Json::Object(ref m) if m.is_empty()));

    let wrong_version = object(vec![
        ("jsonrpc", Json::Str("1.0".into())),
        ("id", Json::UInt(7)),
        ("method", Json::Str("aomori_get_info".into())),
    ]);
    assert_eq!(aomori::rpc::read_call(&wrong_version).unwrap_err().as_u64(), Some(7));
    let not_text = object(vec![("jsonrpc", Json::UInt(2)), ("id", Json::UInt(7))]);
    assert!(matches!(aomori::rpc::read_call(&not_text).unwrap_err(), Json::Null));
    assert!(matches!(aomori::rpc::read_call(&Json::Array(vec![])).unwrap_err(), Json::Null));
}

#[test]
fn administrators_present_the_configured_bearer_token() {
    assert!(admin_authorized(Some("secret"), Some("Bearer secret")));
    assert!(!admin_authorized(Some("secret"), Some("Bearer wrong")));
    assert!(!admin_authorized(Some("secret"), Some("secret")));
    assert!(!admin_authorized(None, Some("Bearer secret")));
    assert!(!admin_authorized(Some("secret"), None));
}

#[test]
fn metric_labels_are_bounded_to_known_methods() {
    assert_eq!(aomori::rpc::metric_method("aomori_command"), "aomori_command");
    assert_eq!(aomori::rpc::metric_method("attacker-random-label"), "<unknown>");
}

#[test]
fn prometheus_page_lists_counters_and_method_series() {
    let mut metrics = aomori::rpc::Observability::default();
    metrics.record_rpc("aomori_command", None, 5);
    metrics.record_rpc("aomori_get_info", Some(-32601), 7);
    metrics.record_snapshot_save(3, false);
    let page = metrics.prometheus_text(4, 2, 8, 1);
    assert!(page.starts_with("# HELP aomori_world_head Current world head.\n# TYPE aomori_world_head gauge\naomori_world_head 4\n"));
    assert!(page.contains("aomori_snapshot_saves_total 1\n"));
    assert!(page.contains("aomori_rpc_method_requests_total{method=\"aomori_command\"} 1\n"));
    assert!(page.contains("# TYPE aomori_websocket_active gauge\n"));
    assert!(page.contains("aomori_rpc_error_code_total{code=\"-32601\"} 1\n"));
    assert!(page.ends_with("aomori_rpc_error_code_total{code=\"-32601\"} 1\n"));
}

#[test]
fn unsigned_writes_follow_the_node_policy() {
    assert!(unsigned_command_policy(true).is_ok());
    assert_eq!(unsigned_command_policy(false).unwrap_err().message(), "unsigned commands are disabled");
    let mut state = demo_world();
    let key = SigningKey::from_bytes(&[3u8; 32]);
    create_account(&mut state, "keyed".into(), Some(hex::encode(key.verifying_key().to_bytes())), 0).unwrap();
    assert_eq!(
        transaction_policy(&state, &go_tx("admin", 0), false).unwrap_err().message(),
        "unsigned transactions are disabled"
    );
    assert_eq!(error_code("unsigned transactions are disabled"), -32002);
    assert!(transaction_policy(&state, &go_tx("admin", 0), true).is_ok());
    assert!(transaction_policy(&state, &go_tx("keyed", 0), false).is_ok());
    assert!(transaction_policy(&state, &go_tx("nobody", 0), false).is_ok());
}

#[test]
fn a_mutation_is_kept_only_when_it_is_saved() {
    let original = WorldState::genesis();
    let mut state = WorldState::genesis();
    create_account(&mut state, "player".into(), None, 0).unwrap();
    let changed = state.root();
    assert!(keep_if_saved(&mut state, original.deep_copy(), true, true));
    assert_eq!(state.root(), changed);
    assert!(!keep_if_saved(&mut state, original.deep_copy(), true, false));
    assert_eq!(state.root(), original.root());
}

#[test]
fn queries_cannot_spawn_or_emit_even_at_the_counter_limit() {
    let mut state = demo_world();
    state.next_event_id = u64::MAX;
    state.next_entity_id = u64::MAX;
    let root = state.root();
    assert_eq!(
        state.spawn_entity(false, 4, "item", None, Json::Object(vec![])).unwrap_err().message(),
        "query is read-only"
    );
    assert_eq!(
        state.emit_event(false, "note".into(), None, Json::Object(vec![])).unwrap_err().message(),
        "query is read-only"
    );
    assert_eq!(state.root(), root);
}

#[test]
fn the_deployed_demo_version_is_found_by_its_source() {
    let state = demo_world();
    assert_eq!(demo::deployed_demo_key(&state, DEMO_SOURCE), Some("demo".to_string()));
    assert_eq!(demo::deployed_demo_key(&state, "function other() end"), None);
    assert!(demo::has_upgrade_headroom(&state));
    let mut full = demo_world();
    full.next_entity_id = u64::MAX - 1;
    assert!(!demo::has_upgrade_headroom(&full));
    let mut empty = WorldState::genesis();
    empty.head = u64::MAX - 11;
    assert!(!demo::has_upgrade_headroom(&empty));
    empty.head = u64::MAX - 12;
    assert!(demo::has_upgrade_headroom(&empty));
}
