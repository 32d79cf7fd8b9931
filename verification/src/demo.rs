//! The demo world: three zones, a player, two quest givers, two items and
//! three quests, and bringing an existing demo world up to date.
use crate::error::{err, outcome, Error, ErrorKind, ErrorV};
use crate::json::{as_str, lemma_members_view, members_view, Json, JsonV};
use crate::maps::{get, has_key, lemma_index_of, put, DeepCopy, SortedMap};
use crate::model::{ContractV, Entity, EntityKind, EntityV, QuestDefinition, QuestDefinitionV, QuestProgress, QuestProgressV, QuestStatus, WorldState, WorldV};
use crate::migration::{entity_ids_match, migrate_legacy_inventories, migration_effect};
use crate::runtime::{contract_key, contract_key_text, deploy_version, progress_key_text, quest_progress_key};
use crate::validate::source_hash_text;
use crate::text::str_eq;
use crate::runtime::{create_entity, create_entity_result, deploy, deploy_result, lemma_create_entity_no_owner, lemma_create_entity_ok};
use crate::world::world_errors;
use vstd::prelude::*;

verus! {

// ----------------------------------------------------------------------
// Quests
// ----------------------------------------------------------------------

/// "The Lost Key": bring the brass key back to the Village; it is used up.
pub open spec fn lost_key_view(giver_entity_id: u64) -> QuestDefinitionV {
    QuestDefinitionV {
        id: "lost_key"@,
        title: "The Lost Key"@,
        giver_entity_id,
        prerequisite_quest_ids: seq![],
        required_item: "brass key"@,
        completion_zone: "Village"@,
        reward_balance: 10,
        consume_required_item: true,
    }
}

/// "Echoes in Stone": bring the stone tablet to the Village.
pub open spec fn ruins_tablet_view(giver_entity_id: u64) -> QuestDefinitionV {
    QuestDefinitionV {
        id: "ruins_tablet"@,
        title: "Echoes in Stone"@,
        giver_entity_id,
        prerequisite_quest_ids: seq![],
        required_item: "stone tablet"@,
        completion_zone: "Village"@,
        reward_balance: 6,
        consume_required_item: false,
    }
}

/// "The Open Shrine": after the lost key, bring the stone tablet to the Ruins.
pub open spec fn open_shrine_view(giver_entity_id: u64) -> QuestDefinitionV {
    QuestDefinitionV {
        id: "open_shrine"@,
        title: "The Open Shrine"@,
        giver_entity_id,
        prerequisite_quest_ids: seq!["lost_key"@],
        required_item: "stone tablet"@,
        completion_zone: "Ruins"@,
        reward_balance: 4,
        consume_required_item: false,
    }
}

/// The lost key quest, given by `giver_entity_id`.
pub fn lost_key_quest(giver_entity_id: u64) -> (r: QuestDefinition)
    ensures
        r@ == lost_key_view(giver_entity_id),
{
    let r = QuestDefinition {
        id: "lost_key".to_owned(),
        title: "The Lost Key".to_owned(),
        giver_entity_id,
        prerequisite_quest_ids: Vec::new(),
        required_item: "brass key".to_owned(),
        completion_zone: "Village".to_owned(),
        reward_balance: 10,
        consume_required_item: true,
    };
    assert(r@.prerequisite_quest_ids =~= seq![]);
    r
}

/// The stone tablet quest, given by `giver_entity_id`.
pub fn ruins_tablet_quest(giver_entity_id: u64) -> (r: QuestDefinition)
    ensures
        r@ == ruins_tablet_view(giver_entity_id),
{
    let r = QuestDefinition {
        id: "ruins_tablet".to_owned(),
        title: "Echoes in Stone".to_owned(),
        giver_entity_id,
        prerequisite_quest_ids: Vec::new(),
        required_item: "stone tablet".to_owned(),
        completion_zone: "Village".to_owned(),
        reward_balance: 6,
        consume_required_item: false,
    };
    assert(r@.prerequisite_quest_ids =~= seq![]);
    r
}

/// The open shrine quest, given by `giver_entity_id`.
pub fn open_shrine_quest(giver_entity_id: u64) -> (r: QuestDefinition)
    ensures
        r@ == open_shrine_view(giver_entity_id),
{
    let mut prerequisites: Vec<String> = Vec::new();
    prerequisites.push("lost_key".to_owned());
    let r = QuestDefinition {
        id: "open_shrine".to_owned(),
        title: "The Open Shrine".to_owned(),
        giver_entity_id,
        prerequisite_quest_ids: prerequisites,
        required_item: "stone tablet".to_owned(),
        completion_zone: "Ruins".to_owned(),
        reward_balance: 4,
        consume_required_item: false,
    };
    assert(r@.prerequisite_quest_ids =~= seq!["lost_key"@]);
    r
}

// ----------------------------------------------------------------------
// Finding entities
// ----------------------------------------------------------------------

/// An entity's `name` data, when it is a string.
pub open spec fn entity_name(e: EntityV) -> Option<Seq<char>> {
    match get(e.data, "name"@) {
        Some(v) => as_str(v),
        None => None,
    }
}

/// The id of the first entity, in id order, of the kind and with the name.
pub open spec fn first_named_entity(es: Seq<(u64, EntityV)>, kind: EntityKind, name: Seq<char>) -> Option<u64>
    decreases es.len(),
{
    if es.len() == 0 {
        None
    } else if es[0].1.kind == kind && entity_name(es[0].1) == Some(name) {
        Some(es[0].1.id)
    } else {
        first_named_entity(es.drop_first(), kind, name)
    }
}

/// The name data of an entity.
fn name_data(e: &crate::model::Entity) -> (r: Option<&String>)
    ensures
        entity_name(e@) == match r {
            Some(s) => Some(s@),
            None => None,
        },
{
    match e.data.get(&"name".to_owned()) {
        Some(Json::Str(s)) => Some(s),
        _ => None,
    }
}

/// The id of the first entity, in id order, of the kind and with the name.
pub fn find_named_entity(state: &WorldState, kind: EntityKind, name: &str) -> (r: Option<u64>)
    ensures
        r == first_named_entity(state@.entities, kind, name@),
{
    let ghost es = state@.entities;
    let n = state.entities.len();
    assert(es.skip(0) =~= es);
    let mut i: usize = 0;
    while i < n
        invariant
            es == state@.entities,
            n == es.len(),
            i <= n,
            first_named_entity(es, kind, name@) == first_named_entity(es.skip(i as int), kind, name@),
        decreases n - i,
    {
        proof {
            assert(es.skip(i as int).drop_first() =~= es.skip(i + 1));
            assert(es.skip(i as int)[0] == es[i as int]);
        }
        let e = state.entities.value_at(i);
        if e.kind == kind {
            if let Some(n) = name_data(e) {
                if crate::text::str_eq(n.as_str(), name) {
                    return Some(e.id);
                }
            }
        }
        i += 1;
    }
    None
}

// ----------------------------------------------------------------------
// Building the demo world
// ----------------------------------------------------------------------

/// A map holding one text value.
#[verifier::opaque]
pub open spec fn text_map(key: Seq<char>, value: Seq<char>) -> Seq<(Seq<char>, JsonV)> {
    put::<Seq<char>, JsonV, String>(seq![], key, JsonV::Str(value))
}

/// A character's data: a name and a line of dialogue.
#[verifier::opaque]
pub open spec fn person_data(name: Seq<char>, dialogue: Seq<char>) -> Seq<(Seq<char>, JsonV)> {
    put::<Seq<char>, JsonV, String>(text_map("name"@, name), "dialogue"@, JsonV::Str(dialogue))
}

/// A zone's data: a name, a description and its exits.
#[verifier::opaque]
pub open spec fn zone_data(name: Seq<char>, description: Seq<char>, exits: JsonV) -> Seq<(Seq<char>, JsonV)> {
    put::<Seq<char>, JsonV, String>(
        put::<Seq<char>, JsonV, String>(text_map("name"@, name), "description"@, JsonV::Str(description)),
        "exits"@,
        exits,
    )
}

/// An exit list with one direction.
pub open spec fn one_exit(direction: Seq<char>, target: u64) -> JsonV {
    JsonV::Object(seq![(direction, JsonV::UInt(target))])
}

/// An exit list leading east and west.
pub open spec fn two_exits(east: u64, west: u64) -> JsonV {
    JsonV::Object(seq![("east"@, JsonV::UInt(east)), ("west"@, JsonV::UInt(west))])
}

pub open spec fn village_text() -> Seq<char> {
    "A warm village at the edge of an old forest."@
}

pub open spec fn forest_text() -> Seq<char> {
    "Tall trees hide a path toward the ruins."@
}

pub open spec fn ruins_text() -> Seq<char> {
    "Broken stones surround a locked shrine."@
}

pub open spec fn mira_text() -> Seq<char> {
    "The ruins remember every traveler."@
}

pub open spec fn rowan_text() -> Seq<char> {
    "A stone tablet in the ruins may preserve the old road."@
}

/// The entity created by a step that cannot fail.
pub open spec fn created(w: WorldV, kind: EntityKind, contract: Option<Seq<char>>, location: Option<u64>, data: Seq<(Seq<char>, JsonV)>) -> WorldV {
    create_entity_result(w, kind, "admin"@, contract, location, data)->Ok_0
}

/// The three zones, built on a world with an `admin` account: the
/// Village, the Forest and the Ruins, joined by exits.
#[verifier::opaque]
pub open spec fn demo_zones(w: WorldV) -> WorldV {
    let n = w.next_entity_id;
    let w2 = created(w, EntityKind::Zone, None, None, zone_data("Village"@, village_text(), one_exit("east"@, 2)));
    let w3 = created(w2, EntityKind::Zone, None, None, zone_data("Forest"@, forest_text(), two_exits(3, n)));
    let w4 = created(w3, EntityKind::Zone, None, None, zone_data("Ruins"@, ruins_text(), one_exit("west"@, (n + 1) as u64)));
    let village = get(w4.entities, n)->0;
    WorldV {
        entities: put::<u64, EntityV, u64>(
            w4.entities,
            n,
            EntityV {
                data: put::<Seq<char>, JsonV, String>(village.data, "exits"@, one_exit("east"@, (n + 1) as u64)),
                ..village
            },
        ),
        ..w4
    }
}

/// The player, the key, Mira, Rowan and the tablet, placed in the zones
/// whose ids start at `n`.
#[verifier::opaque]
pub open spec fn demo_inhabitants(w: WorldV, n: u64) -> WorldV {
    let w6 = created(w, EntityKind::Actor, Some("demo"@), Some(n), seq![]);
    let w7 = created(w6, EntityKind::Item, None, Some((n + 1) as u64), text_map("name"@, "brass key"@));
    let w8 = created(w7, EntityKind::Actor, Some("demo"@), Some(n), person_data("Mira"@, mira_text()));
    let w9 = created(w8, EntityKind::Actor, Some("demo"@), Some(n), person_data("Rowan"@, rowan_text()));
    created(w9, EntityKind::Item, None, Some((n + 2) as u64), text_map("name"@, "stone tablet"@))
}

/// The three quests, given by the characters whose ids start at `n + 5`.
#[verifier::opaque]
pub open spec fn demo_quests(w: WorldV, n: u64) -> WorldV {
    WorldV {
        quests: put::<Seq<char>, QuestDefinitionV, String>(
            put::<Seq<char>, QuestDefinitionV, String>(
                put::<Seq<char>, QuestDefinitionV, String>(w.quests, "lost_key"@, lost_key_view((n + 5) as u64)),
                "ruins_tablet"@,
                ruins_tablet_view((n + 6) as u64),
            ),
            "open_shrine"@,
            open_shrine_view((n + 6) as u64),
        ),
        ..w
    }
}

/// The demo world built on a world with an `admin` account and no entities
/// or contracts: the `demo` contract; the Village, the Forest and the Ruins
/// joined by exits; the player and Mira and Rowan in the Village; the brass
/// key in the Forest; the stone tablet in the Ruins; and the three quests.
#[verifier::opaque]
pub open spec fn demo_world(w: WorldV, source: Seq<char>) -> WorldV {
    let n = w.next_entity_id;
    demo_quests(demo_inhabitants(demo_zones(deploy_result(w, "demo"@, 1, source)->Ok_0), n), n)
}

/// Builds the demo world in an empty world; returns the player's id.
pub open spec fn initialize_effect(w: WorldV, source: Seq<char>) -> (WorldV, Result<u64, ErrorV>) {
    if w.entities.len() > 0 || w.contracts.len() > 0 {
        (w, Err(err(ErrorKind::DemoNeedsEmptyWorld, seq![])))
    } else if !has_key(w.accounts, "admin"@) {
        (deploy_result(w, "demo"@, 1, source)->Ok_0, Err(err(ErrorKind::AccountNotFound, seq!["admin"@])))
    } else {
        let d = demo_world(w, source);
        match world_errors(d) {
            Some(e) => (d, Err(e)),
            None => (d, Ok((w.next_entity_id + 3) as u64)),
        }
    }
}

/// A map holding one text value.
fn text_entry(key: &str, value: &str) -> (r: SortedMap<String, Json>)
    ensures
        r@ == text_map(key@, value@),
{
    proof {
        reveal(text_map);
    }
    let mut m: SortedMap<String, Json> = SortedMap::new();
    m.insert(key.to_owned(), Json::string(value));
    m
}

/// A character's data.
fn person(name: &str, dialogue: &str) -> (r: SortedMap<String, Json>)
    ensures
        r@ == person_data(name@, dialogue@),
{
    proof {
        reveal(person_data);
    }
    proof {
        reveal_strlit("name");
        reveal_strlit("dialogue");
    }
    let mut m = text_entry("name", name);
    m.insert("dialogue".to_owned(), Json::string(dialogue));
    m
}

/// A zone's data.
fn zone_entry(name: &str, description: &str, exits: Json) -> (r: SortedMap<String, Json>)
    ensures
        r@ == zone_data(name@, description@, exits@),
{
    proof {
        reveal(zone_data);
    }
    let mut m = text_entry("name", name);
    m.insert("description".to_owned(), Json::string(description));
    m.insert("exits".to_owned(), exits);
    m
}

/// An exit list with one direction.
fn exit_to(direction: &str, target: u64) -> (r: Json)
    ensures
        r@ == one_exit(direction@, target),
{
    let mut m: Vec<(String, Json)> = Vec::new();
    m.push((direction.to_owned(), Json::UInt(target)));
    proof {
        lemma_members_view(m@);
        assert(members_view(m@) =~= seq![(direction@, JsonV::UInt(target))]);
    }
    Json::Object(m)
}

/// An exit list leading east and west.
fn exits_east_west(east: u64, west: u64) -> (r: Json)
    ensures
        r@ == two_exits(east, west),
{
    let mut m: Vec<(String, Json)> = Vec::new();
    m.push(("east".to_owned(), Json::UInt(east)));
    m.push(("west".to_owned(), Json::UInt(west)));
    proof {
        lemma_members_view(m@);
        assert(members_view(m@) =~= seq![("east"@, JsonV::UInt(east)), ("west"@, JsonV::UInt(west))]);
    }
    Json::Object(m)
}

/// Creates an entity owned by the administrator.
fn admin_entity(
    state: &mut WorldState,
    kind: EntityKind,
    contract: Option<String>,
    location: Option<u64>,
    data: SortedMap<String, Json>,
) -> (r: Result<u64, Error>)
    requires
        old(state).head < u64::MAX,
        old(state).next_entity_id < u64::MAX,
    ensures
        crate::runtime::applied(
            create_entity_result(old(state)@, kind, "admin"@, crate::model::opt_chars(contract), location, data@),
            old(state)@,
            final(state)@,
            r,
        ),
        r matches Ok(id) ==> id == old(state).next_entity_id,
{
    create_entity(state, kind, "admin".to_owned(), contract, location, data)
}

/// An administrator's entity can be created once the administrator's
/// account exists, with the `demo` contract or none.
#[verifier::rlimit(60)]
proof fn lemma_admin_created(
    w: WorldV,
    kind: EntityKind,
    contract: Option<Seq<char>>,
    location: Option<u64>,
    data: Seq<(Seq<char>, JsonV)>,
)
    requires
        has_key(w.accounts, "admin"@),
        contract is None || has_key(w.contracts, contract->0),
        crate::maps::sorted::<u64, EntityV, u64>(w.entities),
        w.next_entity_id < u64::MAX,
        w.head < u64::MAX,
    ensures
        create_entity_result(w, kind, "admin"@, contract, location, data) is Ok,
        created(w, kind, contract, location, data).accounts == w.accounts,
        created(w, kind, contract, location, data).contracts == w.contracts,
        created(w, kind, contract, location, data).quests == w.quests,
        created(w, kind, contract, location, data).next_entity_id == w.next_entity_id + 1,
        created(w, kind, contract, location, data).head == w.head + 1,
        forall|x: u64| #[trigger] has_key(created(w, kind, contract, location, data).entities, x) == (has_key(w.entities, x) || x == w.next_entity_id),
        crate::maps::sorted::<u64, EntityV, u64>(created(w, kind, contract, location, data).entities),
{
    lemma_create_entity_ok(w, kind, "admin"@, contract, location, data);
    crate::maps::lemma_put::<u64, EntityV, u64>(
        w.entities,
        w.next_entity_id,
        EntityV { id: w.next_entity_id, kind, owner: "admin"@, location, contract, data },
    );
}

/// Builds the three zones.
#[verifier::rlimit(40)]
fn build_zones(state: &mut WorldState) -> (r: Result<(), Error>)
    requires
        old(state).head + 3 <= u64::MAX,
        old(state).next_entity_id + 3 <= u64::MAX,
    ensures
        has_key(old(state)@.accounts, "admin"@) ==> r is Ok && final(state)@ == demo_zones(old(state)@),
        has_key(old(state)@.accounts, "admin"@) ==> final(state)@.head == old(state)@.head + 3
            && final(state)@.next_entity_id == old(state)@.next_entity_id + 3 && final(state)@.accounts
            == old(state)@.accounts && final(state)@.contracts == old(state)@.contracts,
        !has_key(old(state)@.accounts, "admin"@) ==> (r matches Err(e) && e@ == err(
            ErrorKind::AccountNotFound,
            seq!["admin"@],
        )),
        !has_key(old(state)@.accounts, "admin"@) ==> final(state)@ == old(state)@,
{
    proof {
        reveal(demo_zones);
    }
    let ghost w = state@;
    let n = state.next_entity_id;
    let _ = state.entities.len();
    let ghost village_data = zone_data("Village"@, village_text(), one_exit("east"@, 2));
    proof {
        if has_key(w.accounts, "admin"@) {
            lemma_admin_created(w, EntityKind::Zone, None, None, village_data);
        } else {
            lemma_create_entity_no_owner(w, EntityKind::Zone, "admin"@, None, None, village_data);
        }
    }
    let village = admin_entity(
        state,
        EntityKind::Zone,
        None,
        None,
        zone_entry("Village", "A warm village at the edge of an old forest.", exit_to("east", 2)),
    )?;
    let ghost w2 = state@;
    let _ = state.entities.len();
    proof {
        lemma_admin_created(w2, EntityKind::Zone, None, None, zone_data("Forest"@, forest_text(), two_exits(3, n)));
    }
    let forest = admin_entity(
        state,
        EntityKind::Zone,
        None,
        None,
        zone_entry("Forest", "Tall trees hide a path toward the ruins.", exits_east_west(3, village)),
    )?;
    let ghost w3 = state@;
    let _ = state.entities.len();
    proof {
        lemma_admin_created(
            w3,
            EntityKind::Zone,
            None,
            None,
            zone_data("Ruins"@, ruins_text(), one_exit("west"@, (n + 1) as u64)),
        );
    }
    admin_entity(
        state,
        EntityKind::Zone,
        None,
        None,
        zone_entry("Ruins", "Broken stones surround a locked shrine.", exit_to("west", forest)),
    )?;
    let ghost w4 = state@;
    assert(has_key(w4.entities, n));
    let at = match state.entities.find(&village) {
        Some(at) => at,
        None => {
            return Ok(());
        },
    };
    proof {
        lemma_index_of::<u64, EntityV, u64>(state@.entities, at as int);
    }
    let mut v = crate::maps::DeepCopy::deep_copy(state.entities.value_at(at));
    v.data.insert("exits".to_owned(), exit_to("east", forest));
    state.entities.set_value_at(at, v);
    Ok(())
}

/// Places the player, the key, Mira, Rowan and the tablet; returns the player's id.
#[verifier::rlimit(40)]
fn build_inhabitants(state: &mut WorldState, n: u64) -> (r: u64)
    requires
        old(state).head + 5 <= u64::MAX,
        old(state).next_entity_id + 5 <= u64::MAX,
        n + 2 <= u64::MAX,
        has_key(old(state)@.accounts, "admin"@),
        has_key(old(state)@.contracts, "demo"@),
    ensures
        final(state)@ == demo_inhabitants(old(state)@, n),
        r == old(state).next_entity_id,
{
    proof {
        reveal(demo_inhabitants);
    }
    let ghost w5 = state@;
    let _ = state.entities.len();
    proof {
        lemma_admin_created(w5, EntityKind::Actor, Some("demo"@), Some(n), seq![]);
    }
    let none: SortedMap<String, Json> = SortedMap::new();
    assert(none@ =~= seq![]);
    let actor = match admin_entity(state, EntityKind::Actor, Some("demo".to_owned()), Some(n), none) {
        Ok(id) => id,
        Err(_) => {
            return 0;
        },
    };
    let ghost w6 = state@;
    let _ = state.entities.len();
    proof {
        lemma_admin_created(w6, EntityKind::Item, None, Some((n + 1) as u64), text_map("name"@, "brass key"@));
    }
    let _ = admin_entity(state, EntityKind::Item, None, Some(n + 1), text_entry("name", "brass key"));
    let ghost w7 = state@;
    let _ = state.entities.len();
    proof {
        lemma_admin_created(w7, EntityKind::Actor, Some("demo"@), Some(n), person_data("Mira"@, mira_text()));
    }
    let _ = admin_entity(
        state,
        EntityKind::Actor,
        Some("demo".to_owned()),
        Some(n),
        person("Mira", "The ruins remember every traveler."),
    );
    let ghost w8 = state@;
    let _ = state.entities.len();
    proof {
        lemma_admin_created(w8, EntityKind::Actor, Some("demo"@), Some(n), person_data("Rowan"@, rowan_text()));
    }
    let _ = admin_entity(
        state,
        EntityKind::Actor,
        Some("demo".to_owned()),
        Some(n),
        person("Rowan", "A stone tablet in the ruins may preserve the old road."),
    );
    let ghost w9 = state@;
    let _ = state.entities.len();
    proof {
        lemma_admin_created(w9, EntityKind::Item, None, Some((n + 2) as u64), text_map("name"@, "stone tablet"@));
    }
    let _ = admin_entity(state, EntityKind::Item, None, Some(n + 2), text_entry("name", "stone tablet"));
    actor
}

/// Builds the demo world, deploying `source` as the `demo` contract, in a
/// world with no entities or contracts; returns the player's id.
#[verifier::rlimit(60)]
pub fn initialize(state: &mut WorldState, source: String) -> (r: Result<u64, Error>)
    requires
        old(state).head + 12 <= u64::MAX,
        old(state).next_entity_id + 8 <= u64::MAX,
    ensures
        crate::host::host_outcome(initialize_effect(old(state)@, source@), final(state)@, r),
{
    if !state.entities.is_empty() || !state.contracts.is_empty() {
        return Err(Error::plain(ErrorKind::DemoNeedsEmptyWorld));
    }
    let ghost w = state@;
    let n = state.next_entity_id;
    proof {
        reveal_strlit("demo");
    }
    match deploy(state, "demo".to_owned(), source) {
        Ok(()) => {},
        Err(e) => {
            return Err(e);
        },
    }
    let ghost w1 = state@;
    assert(w1.contracts[0].0 == "demo"@);
    assert(has_key(w1.contracts, "demo"@));
    match build_zones(state) {
        Ok(()) => {},
        Err(e) => {
            return Err(e);
        },
    }
    let ghost w5 = state@;
    let actor = build_inhabitants(state, n);
    let ghost w10 = state@;
    state.quests.insert("lost_key".to_owned(), lost_key_quest(n + 5));
    state.quests.insert("ruins_tablet".to_owned(), ruins_tablet_quest(n + 6));
    state.quests.insert("open_shrine".to_owned(), open_shrine_quest(n + 6));
    proof {
        reveal(demo_quests);
        reveal(demo_world);
    }
    assert(state@ == demo_quests(w10, n));
    assert(state@ == demo_world(w, source@));
    state.validate()?;
    Ok(actor)
}


// ----------------------------------------------------------------------
// Bringing a demo world up to date
// ----------------------------------------------------------------------

/// Whether a contract key names a version of the `demo` contract.
pub open spec fn is_demo_contract(w: WorldV, key: Seq<char>) -> bool {
    match get(w.contracts, key) {
        Some(c) => c.name == "demo"@,
        None => false,
    }
}

/// Whether an entity is a demo character: bound to a version of the demo
/// contract, or the actor named Mira.
pub open spec fn demo_actor(w: WorldV, e: EntityV) -> bool {
    (match e.contract {
        Some(c) => is_demo_contract(w, c),
        None => false,
    }) || (e.kind == EntityKind::Actor && entity_name(e) == Some("Mira"@))
}

/// A demo character bound to the target contract; other entities unchanged.
pub open spec fn rebound(w: WorldV, e: EntityV, target: Seq<char>) -> EntityV {
    if demo_actor(w, e) {
        EntityV { contract: Some(target), ..e }
    } else {
        e
    }
}

/// The entities with every demo character bound to the target contract.
pub open spec fn rebind_entities(w: WorldV, target: Seq<char>) -> Seq<(u64, EntityV)> {
    Seq::new(w.entities.len(), |i: int| (w.entities[i].0, rebound(w, w.entities[i].1, target)))
}

/// Whether some demo character is bound to another contract than the target.
pub open spec fn rebinding_changes(w: WorldV, target: Seq<char>) -> bool {
    exists|i: int| 0 <= i < w.entities.len() && demo_actor(w, #[trigger] w.entities[i].1) && w.entities[i].1.contract != Some(target)
}

/// The quest status an older demo character kept in its `quest` data.
pub open spec fn legacy_status(e: EntityV) -> Option<QuestStatus> {
    match get(e.data, "quest"@) {
        Some(v) => match as_str(v) {
            Some(t) => if t == "accepted"@ {
                Some(QuestStatus::Accepted)
            } else if t == "completed"@ {
                Some(QuestStatus::Completed)
            } else {
                None
            },
            None => None,
        },
        None => None,
    }
}

/// The demo characters' older quest statuses, in entity id order.
pub open spec fn legacy_statuses(w: WorldV, es: Seq<(u64, EntityV)>) -> Seq<(u64, QuestStatus)>
    decreases es.len(),
{
    if es.len() == 0 {
        seq![]
    } else {
        let prev = legacy_statuses(w, es.drop_last());
        let e = es.last().1;
        if demo_actor(w, e) && legacy_status(e) is Some {
            prev.push((e.id, legacy_status(e)->0))
        } else {
            prev
        }
    }
}

/// The lost key progress of an actor with a status.
pub open spec fn lost_key_progress(actor: u64, status: QuestStatus) -> QuestProgressV {
    QuestProgressV { quest_id: "lost_key"@, actor_id: actor, status }
}

/// The progress records with each older status recorded as lost key
/// progress, where the actor has none yet.
pub open spec fn add_progress(ps: Seq<(Seq<char>, QuestProgressV)>, legacy: Seq<(u64, QuestStatus)>) -> Seq<(Seq<char>, QuestProgressV)>
    decreases legacy.len(),
{
    if legacy.len() == 0 {
        ps
    } else {
        let prev = add_progress(ps, legacy.drop_last());
        let key = progress_key_text(legacy.last().0, "lost_key"@);
        if has_key(prev, key) {
            prev
        } else {
            put::<Seq<char>, QuestProgressV, String>(prev, key, lost_key_progress(legacy.last().0, legacy.last().1))
        }
    }
}

/// Whether recording the older statuses adds a record.
pub open spec fn progress_added(ps: Seq<(Seq<char>, QuestProgressV)>, legacy: Seq<(u64, QuestStatus)>) -> bool
    decreases legacy.len(),
{
    if legacy.len() == 0 {
        false
    } else {
        progress_added(ps, legacy.drop_last()) || !has_key(
            add_progress(ps, legacy.drop_last()),
            progress_key_text(legacy.last().0, "lost_key"@),
        )
    }
}

/// The quests with each definition stored under its id unless already stored as is.
pub open spec fn refresh_quests(qs: Seq<(Seq<char>, QuestDefinitionV)>, defs: Seq<QuestDefinitionV>) -> Seq<(Seq<char>, QuestDefinitionV)>
    decreases defs.len(),
{
    if defs.len() == 0 {
        qs
    } else {
        let prev = refresh_quests(qs, defs.drop_last());
        if get(prev, defs.last().id) == Some(defs.last()) {
            prev
        } else {
            put::<Seq<char>, QuestDefinitionV, String>(prev, defs.last().id, defs.last())
        }
    }
}

/// Whether refreshing the quests stores a definition.
pub open spec fn quests_refreshed(qs: Seq<(Seq<char>, QuestDefinitionV)>, defs: Seq<QuestDefinitionV>) -> bool
    decreases defs.len(),
{
    if defs.len() == 0 {
        false
    } else {
        quests_refreshed(qs, defs.drop_last()) || get(refresh_quests(qs, defs.drop_last()), defs.last().id) != Some(
            defs.last(),
        )
    }
}

/// The key and version of the latest demo contract version with the given
/// source hash; among equal versions the last in key order.
pub open spec fn best_demo(cs: Seq<(Seq<char>, ContractV)>, hash: Seq<char>) -> Option<(Seq<char>, u32)>
    decreases cs.len(),
{
    if cs.len() == 0 {
        None
    } else {
        let prev = best_demo(cs.drop_last(), hash);
        let c = cs.last().1;
        if c.name == "demo"@ && c.source_hash == hash && (prev is None || c.version >= prev.unwrap().1) {
            Some((cs.last().0, c.version))
        } else {
            prev
        }
    }
}

/// The latest version of the demo contract; zero when there is none.
pub open spec fn max_demo_version(cs: Seq<(Seq<char>, ContractV)>) -> u32
    decreases cs.len(),
{
    if cs.len() == 0 {
        0
    } else {
        let prev = max_demo_version(cs.drop_last());
        if cs.last().1.name == "demo"@ && cs.last().1.version > prev {
            cs.last().1.version
        } else {
            prev
        }
    }
}

/// Whether some contract is a version of the demo contract.
pub open spec fn has_demo_contract(w: WorldV) -> bool {
    exists|i: int| 0 <= i < w.contracts.len() && (#[trigger] w.contracts[i]).1.name == "demo"@
}

/// Bringing a demo world up to date once its target contract is known:
/// demo characters are bound to it, older quest statuses become progress
/// records, Rowan and the stone tablet are created when missing, the quests
/// are refreshed, and the world must then be valid; the head advances when
/// anything changed.
#[verifier::opaque]
pub open spec fn ensure_with_target(w2: WorldV, target: Seq<char>, deployed: bool, migrated: bool) -> (WorldV, Result<bool, ErrorV>) {
    let w3 = WorldV { entities: rebind_entities(w2, target), ..w2 };
    let legacy = legacy_statuses(w2, w2.entities);
    let w4 = WorldV { quest_progress: add_progress(w3.quest_progress, legacy), ..w3 };
    let c1 = deployed || rebinding_changes(w2, target) || progress_added(w3.quest_progress, legacy);
    match first_named_entity(w4.entities, EntityKind::Zone, "Village"@) {
        None => (w4, Err(err(ErrorKind::DemoVillageMissing, seq![]))),
        Some(village) => match first_named_entity(w4.entities, EntityKind::Zone, "Ruins"@) {
            None => (w4, Err(err(ErrorKind::DemoRuinsMissing, seq![]))),
            Some(ruins) => match first_named_entity(w4.entities, EntityKind::Actor, "Mira"@) {
                None => (w4, Err(err(ErrorKind::DemoMiraMissing, seq![]))),
                Some(mira) => {
                    let rowan_step: (WorldV, Result<(u64, bool), ErrorV>) = match first_named_entity(
                        w4.entities,
                        EntityKind::Actor,
                        "Rowan"@,
                    ) {
                        Some(id) => (w4, Ok((id, false))),
                        None => match create_entity_result(
                            w4,
                            EntityKind::Actor,
                            "admin"@,
                            Some(target),
                            Some(village),
                            person_data("Rowan"@, rowan_text()),
                        ) {
                            Ok(w) => (w, Ok((w4.next_entity_id, true))),
                            Err(e) => (w4, Err(e)),
                        },
                    };
                    let w5 = rowan_step.0;
                    match rowan_step.1 {
                        Err(e) => (w5, Err(e)),
                        Ok(rowan) => {
                            let tablet_step: (WorldV, Result<bool, ErrorV>) = if first_named_entity(
                                w5.entities,
                                EntityKind::Item,
                                "stone tablet"@,
                            ) is Some {
                                (w5, Ok(false))
                            } else {
                                match create_entity_result(
                                    w5,
                                    EntityKind::Item,
                                    "admin"@,
                                    None,
                                    Some(ruins),
                                    text_map("name"@, "stone tablet"@),
                                ) {
                                    Ok(w) => (w, Ok(true)),
                                    Err(e) => (w5, Err(e)),
                                }
                            };
                            let w6 = tablet_step.0;
                            match tablet_step.1 {
                                Err(e) => (w6, Err(e)),
                                Ok(made_tablet) => {
                                    let defs = seq![
                                        lost_key_view(mira),
                                        ruins_tablet_view(rowan.0),
                                        open_shrine_view(rowan.0),
                                    ];
                                    let w7 = WorldV { quests: refresh_quests(w6.quests, defs), ..w6 };
                                    let changed = c1 || rowan.1 || made_tablet || quests_refreshed(w6.quests, defs);
                                    match world_errors(w7) {
                                        Some(e) => (w7, Err(e)),
                                        None => (
                                            if changed {
                                                WorldV { head: (w7.head + 1) as u64, ..w7 }
                                            } else {
                                                w7
                                            },
                                            Ok(changed || migrated),
                                        ),
                                    }
                                },
                            }
                        },
                    }
                },
            },
        },
    }
}

/// Bringing an existing demo world up to date: an empty world gets the demo
/// world; otherwise it must hold the demo contract, its legacy inventories
/// are migrated, and the demo contract version with this source becomes the
/// target, deployed as the next version when there is none.
pub open spec fn ensure_effect(w: WorldV, source: Seq<char>) -> (WorldV, Result<bool, ErrorV>) {
    if w.entities.len() == 0 && w.contracts.len() == 0 {
        let step = initialize_effect(w, source);
        (
            step.0,
            match step.1 {
                Ok(_) => Ok(true),
                Err(e) => Err(e),
            },
        )
    } else if !has_demo_contract(w) {
        (w, Err(err(ErrorKind::DemoContractMissing, seq![])))
    } else {
        match migration_effect(w) {
            Err(e) => (w, Err(e)),
            Ok(m) => {
                let w1 = m.0;
                match best_demo(w1.contracts, source_hash_text(source)) {
                    Some(best) => ensure_with_target(w1, best.0, false, m.1),
                    None => {
                        let version = (max_demo_version(w1.contracts) + 1) as u32;
                        match deploy_result(w1, "demo"@, version, source) {
                            Err(e) => (w1, Err(e)),
                            Ok(w2) => ensure_with_target(w2, contract_key_text("demo"@, version), true, m.1),
                        }
                    },
                }
            },
        }
    }
}

// ----------------------------------------------------------------------
// Finding the demo contract
// ----------------------------------------------------------------------

/// Whether some contract is a version of the demo contract.
fn holds_demo_contract(state: &WorldState) -> (r: bool)
    ensures
        r == has_demo_contract(state@),
{
    let n = state.contracts.len();
    let mut i: usize = 0;
    while i < n
        invariant
            n == state@.contracts.len(),
            i <= n,
            forall|j: int| 0 <= j < i ==> (#[trigger] state@.contracts[j]).1.name != "demo"@,
        decreases n - i,
    {
        if str_eq(state.contracts.value_at(i).name.as_str(), "demo") {
            return true;
        }
        i += 1;
    }
    false
}

/// The key of the latest demo contract version deployed with this source,
/// when there is one; the upgrade binds the demo characters to it.
pub fn deployed_demo_key(state: &WorldState, source: &str) -> (r: Option<String>)
    ensures
        match best_demo(state@.contracts, source_hash_text(source@)) {
            Some(b) => r matches Some(k) && k@ == b.0,
            None => r is None,
        },
{
    let hash = crate::digest::blake3_hex(source.as_bytes());
    best_demo_contract(state, hash.as_str())
}

/// The key of the latest demo contract version with the given source hash.
fn best_demo_contract(state: &WorldState, hash: &str) -> (r: Option<String>)
    ensures
        match best_demo(state@.contracts, hash@) {
            Some(b) => r matches Some(k) && k@ == b.0,
            None => r is None,
        },
{
    let ghost cs = state@.contracts;
    let n = state.contracts.len();
    let mut best: Option<(usize, u32)> = None;
    let mut i: usize = 0;
    assert(cs.take(0) =~= seq![]);
    while i < n
        invariant
            cs == state@.contracts,
            n == cs.len(),
            i <= n,
            match best_demo(cs.take(i as int), hash@) {
                Some(b) => best matches Some(p) && p.0 < n && cs[p.0 as int].0 == b.0 && p.1 == b.1,
                None => best is None,
            },
        decreases n - i,
    {
        proof {
            assert(cs.take(i + 1).drop_last() =~= cs.take(i as int));
        }
        let c = state.contracts.value_at(i);
        if str_eq(c.name.as_str(), "demo") && str_eq(c.source_hash.as_str(), hash) {
            let better = match best {
                None => true,
                Some(p) => c.version >= p.1,
            };
            if better {
                best = Some((i, c.version));
            }
        }
        i += 1;
    }
    proof {
        assert(cs.take(n as int) =~= cs);
    }
    match best {
        Some(p) => Some(state.contracts.key_at(p.0).deep_copy()),
        None => None,
    }
}

/// The latest version of the demo contract; zero when there is none.
pub fn latest_demo_version(state: &WorldState) -> (r: u32)
    ensures
        r == max_demo_version(state@.contracts),
{
    let ghost cs = state@.contracts;
    let n = state.contracts.len();
    let mut latest: u32 = 0;
    let mut i: usize = 0;
    assert(cs.take(0) =~= seq![]);
    while i < n
        invariant
            cs == state@.contracts,
            n == cs.len(),
            i <= n,
            latest == max_demo_version(cs.take(i as int)),
        decreases n - i,
    {
        proof {
            assert(cs.take(i + 1).drop_last() =~= cs.take(i as int));
        }
        let c = state.contracts.value_at(i);
        if str_eq(c.name.as_str(), "demo") && c.version > latest {
            latest = c.version;
        }
        i += 1;
    }
    proof {
        assert(cs.take(n as int) =~= cs);
    }
    latest
}

// ----------------------------------------------------------------------
// Demo characters
// ----------------------------------------------------------------------

/// Whether a contract key names a version of the demo contract.
fn demo_contract_key(state: &WorldState, key: &String) -> (r: bool)
    ensures
        r == is_demo_contract(state@, key@),
{
    match state.contracts.get(key) {
        Some(c) => str_eq(c.name.as_str(), "demo"),
        None => false,
    }
}

/// Whether an entity is a demo character.
fn is_demo_actor(state: &WorldState, e: &Entity) -> (r: bool)
    ensures
        r == demo_actor(state@, e@),
{
    let bound = match &e.contract {
        Some(c) => demo_contract_key(state, c),
        None => false,
    };
    if bound {
        return true;
    }
    if e.kind == EntityKind::Actor {
        match name_data(e) {
            Some(n) => str_eq(n.as_str(), "Mira"),
            None => false,
        }
    } else {
        false
    }
}

/// Whether an entity is bound to the given contract.
fn bound_to(e: &Entity, target: &String) -> (r: bool)
    ensures
        r == (e@.contract == Some(target@)),
{
    match &e.contract {
        Some(c) => str_eq(c.as_str(), target.as_str()),
        None => false,
    }
}

/// The quest status an older demo character kept in its `quest` data.
fn legacy_status_of(e: &Entity) -> (r: Option<QuestStatus>)
    ensures
        r == legacy_status(e@),
{
    match e.data.get(&"quest".to_owned()) {
        Some(Json::Str(s)) => {
            if str_eq(s.as_str(), "accepted") {
                Some(QuestStatus::Accepted)
            } else if str_eq(s.as_str(), "completed") {
                Some(QuestStatus::Completed)
            } else {
                None
            }
        },
        _ => None,
    }
}

/// Binds every demo character to the target contract; returns whether a
/// binding changed, and the demo characters' older quest statuses.
fn rebind_demo_actors(state: &mut WorldState, target: &String) -> (r: (bool, Vec<(u64, QuestStatus)>))
    ensures
        final(state)@ == (WorldV { entities: rebind_entities(old(state)@, target@), ..old(state)@ }),
        r.0 == rebinding_changes(old(state)@, target@),
        r.1@ == legacy_statuses(old(state)@, old(state)@.entities),
{
    let ghost w = state@;
    let n = state.entities.len();
    let mut changed = false;
    let mut legacy: Vec<(u64, QuestStatus)> = Vec::new();
    let mut i: usize = 0;
    assert(w.entities.take(0) =~= seq![]);
    while i < n
        invariant
            n == w.entities.len(),
            i <= n,
            state@.entities.len() == n,
            state@ == (WorldV { entities: state@.entities, ..w }),
            forall|j: int|
                0 <= j < i ==> #[trigger] state@.entities[j] == (w.entities[j].0, rebound(w, w.entities[j].1, target@)),
            forall|j: int| i <= j < n ==> #[trigger] state@.entities[j] == w.entities[j],
            changed == exists|j: int|
                0 <= j < i && demo_actor(w, #[trigger] w.entities[j].1) && w.entities[j].1.contract != Some(target@),
            legacy@ == legacy_statuses(w, w.entities.take(i as int)),
        decreases n - i,
    {
        proof {
            assert(w.entities.take(i + 1).drop_last() =~= w.entities.take(i as int));
            assert(state@.entities[i as int] == w.entities[i as int]);
        }
        let e = state.entities.value_at(i);
        let demo = is_demo_actor(state, e);
        let here = bound_to(e, target);
        let status = legacy_status_of(e);
        let id = e.id;
        if demo {
            if let Some(s) = status {
                legacy.push((id, s));
            }
        }
        if demo && !here {
            let mut copy = state.entities.value_at(i).deep_copy();
            copy.contract = Some(target.deep_copy());
            state.entities.set_value_at(i, copy);
            changed = true;
        }
        proof {
            let ew = w.entities[i as int].1;
            assert(demo_actor(w, ew) && ew.contract == Some(target@) ==> rebound(w, ew, target@) == ew);
        }
        i += 1;
    }
    proof {
        assert(w.entities.take(n as int) =~= w.entities);
        assert(state@.entities =~= rebind_entities(w, target@));
    }
    (changed, legacy)
}

/// Records each older status as lost key progress where the actor has none.
fn add_legacy_progress(state: &mut WorldState, legacy: &Vec<(u64, QuestStatus)>) -> (r: bool)
    ensures
        final(state)@ == (WorldV { quest_progress: add_progress(old(state)@.quest_progress, legacy@), ..old(state)@ }),
        r == progress_added(old(state)@.quest_progress, legacy@),
{
    let ghost w = state@;
    let mut added = false;
    let mut k: usize = 0;
    assert(legacy@.take(0) =~= seq![]);
    while k < legacy.len()
        invariant
            k <= legacy@.len(),
            state@ == (WorldV { quest_progress: add_progress(w.quest_progress, legacy@.take(k as int)), ..w }),
            added == progress_added(w.quest_progress, legacy@.take(k as int)),
        decreases legacy.len() - k,
    {
        proof {
            assert(legacy@.take(k + 1).drop_last() =~= legacy@.take(k as int));
        }
        let actor = legacy[k].0;
        let status = legacy[k].1;
        let key = quest_progress_key(actor, "lost_key");
        if !state.quest_progress.contains_key(&key) {
            state.quest_progress.insert(key, QuestProgress { quest_id: "lost_key".to_owned(), actor_id: actor, status });
            added = true;
        }
        k += 1;
    }
    proof {
        assert(legacy@.take(legacy@.len() as int) =~= legacy@);
    }
    added
}

// ----------------------------------------------------------------------
// Refreshing the quests
// ----------------------------------------------------------------------

/// Whether two lists of strings are equal.
fn same_strings(a: &Vec<String>, b: &Vec<String>) -> (r: bool)
    ensures
        r == (crate::model::strings_view(a@) == crate::model::strings_view(b@)),
{
    let ghost sa = crate::model::strings_view(a@);
    let ghost sb = crate::model::strings_view(b@);
    if a.len() != b.len() {
        assert(sa.len() != sb.len());
        return false;
    }
    let mut i: usize = 0;
    while i < a.len()
        invariant
            a@.len() == b@.len(),
            i <= a@.len(),
            sa == crate::model::strings_view(a@),
            sb == crate::model::strings_view(b@),
            forall|j: int| 0 <= j < i ==> sa[j] == sb[j],
        decreases a.len() - i,
    {
        if !str_eq(a[i].as_str(), b[i].as_str()) {
            assert(sa[i as int] != sb[i as int]);
            return false;
        }
        i += 1;
    }
    assert(sa =~= sb);
    true
}

/// Whether two quest definitions are equal.
fn same_definition(a: &QuestDefinition, b: &QuestDefinition) -> (r: bool)
    ensures
        r == (a@ == b@),
{
    str_eq(a.id.as_str(), b.id.as_str()) && str_eq(a.title.as_str(), b.title.as_str()) && a.giver_entity_id
        == b.giver_entity_id && same_strings(&a.prerequisite_quest_ids, &b.prerequisite_quest_ids) && str_eq(
        a.required_item.as_str(),
        b.required_item.as_str(),
    ) && str_eq(a.completion_zone.as_str(), b.completion_zone.as_str()) && a.reward_balance == b.reward_balance
        && a.consume_required_item == b.consume_required_item
}

/// Stores a definition under its id unless already stored as is; returns
/// whether it was stored.
fn refresh_quest(state: &mut WorldState, def: QuestDefinition) -> (r: bool)
    ensures
        r == (get(old(state)@.quests, def@.id) != Some(def@)),
        final(state)@ == (WorldV {
            quests: if r {
                put::<Seq<char>, QuestDefinitionV, String>(old(state)@.quests, def@.id, def@)
            } else {
                old(state)@.quests
            },
            ..old(state)@
        }),
{
    let current = match state.quests.get(&def.id) {
        Some(q) => same_definition(q, &def),
        None => false,
    };
    if current {
        false
    } else {
        let id = def.id.deep_copy();
        state.quests.insert(id, def);
        true
    }
}

/// The three demo quests, given by Mira and Rowan.
pub open spec fn demo_definitions(mira: u64, rowan: u64) -> Seq<QuestDefinitionV> {
    seq![lost_key_view(mira), ruins_tablet_view(rowan), open_shrine_view(rowan)]
}

/// Stores the three demo quests where they differ; returns whether any was stored.
fn refresh_demo_quests(state: &mut WorldState, mira: u64, rowan: u64) -> (r: bool)
    ensures
        final(state)@ == (WorldV { quests: refresh_quests(old(state)@.quests, demo_definitions(mira, rowan)), ..old(state)@ }),
        r == quests_refreshed(old(state)@.quests, demo_definitions(mira, rowan)),
{
    let ghost defs = demo_definitions(mira, rowan);
    let ghost q0 = state@.quests;
    let a = refresh_quest(state, lost_key_quest(mira));
    let ghost q1 = state@.quests;
    assert(refresh_quests(q0, defs.take(1)) == q1 && quests_refreshed(q0, defs.take(1)) == a) by {
        assert(defs.take(1).drop_last().len() == 0);
        assert(refresh_quests(q0, defs.take(1).drop_last()) == q0);
        assert(!quests_refreshed(q0, defs.take(1).drop_last()));
        assert(defs.take(1).last() == lost_key_view(mira));
    }
    let b = refresh_quest(state, ruins_tablet_quest(rowan));
    let ghost q2 = state@.quests;
    assert(refresh_quests(q0, defs.take(2)) == q2 && quests_refreshed(q0, defs.take(2)) == (a || b)) by {
        assert(defs.take(2).drop_last() =~= defs.take(1));
    }
    let c = refresh_quest(state, open_shrine_quest(rowan));
    assert(refresh_quests(q0, defs.take(3)) == state@.quests && quests_refreshed(q0, defs.take(3)) == (a || b
        || c)) by {
        assert(defs.take(3).drop_last() =~= defs.take(2));
    }
    assert(defs.take(3) =~= defs);
    a || b || c
}

// ----------------------------------------------------------------------
// Bringing the demo world up to date
// ----------------------------------------------------------------------

/// Creating an entity advances the head and the entity counter by one and
/// keeps the accounts, contracts and quests.
proof fn lemma_created_counters(
    w: WorldV,
    kind: EntityKind,
    owner: Seq<char>,
    contract: Option<Seq<char>>,
    location: Option<u64>,
    data: Seq<(Seq<char>, JsonV)>,
)
    ensures
        create_entity_result(w, kind, owner, contract, location, data) matches Ok(w2) ==> {
            &&& w2.head == (w.head + 1) as u64
            &&& w2.next_entity_id == (w.next_entity_id + 1) as u64
            &&& w2.contracts == w.contracts
            &&& w2.quests == w.quests
        },
{
    reveal(create_entity_result);
}

/// Brings a demo world up to date once its target contract is known.
#[verifier::rlimit(40)]
fn ensure_with_target_exec(state: &mut WorldState, target: String, deployed: bool, migrated: bool) -> (r: Result<bool, Error>)
    requires
        old(state).head + 3 <= u64::MAX,
        old(state).next_entity_id + 2 <= u64::MAX,
    ensures
        crate::host::host_outcome(ensure_with_target(old(state)@, target@, deployed, migrated), final(state)@, r),
{
    proof {
        reveal(ensure_with_target);
    }
    let ghost w2 = state@;
    let (rebound_changed, legacy) = rebind_demo_actors(state, &target);
    let added = add_legacy_progress(state, &legacy);
    let ghost w4 = state@;
    let c1 = deployed || rebound_changed || added;
    proof {
        reveal_strlit("Village");
        reveal_strlit("Ruins");
        reveal_strlit("Mira");
        reveal_strlit("Rowan");
    }
    let village = match find_named_entity(state, EntityKind::Zone, "Village") {
        Some(id) => id,
        None => {
            return Err(Error::plain(ErrorKind::DemoVillageMissing));
        },
    };
    let ruins = match find_named_entity(state, EntityKind::Zone, "Ruins") {
        Some(id) => id,
        None => {
            return Err(Error::plain(ErrorKind::DemoRuinsMissing));
        },
    };
    let mira = match find_named_entity(state, EntityKind::Actor, "Mira") {
        Some(id) => id,
        None => {
            return Err(Error::plain(ErrorKind::DemoMiraMissing));
        },
    };
    let (rowan, made_rowan) = match find_named_entity(state, EntityKind::Actor, "Rowan") {
        Some(id) => (id, false),
        None => {
            proof {
                lemma_created_counters(w4, EntityKind::Actor, "admin"@, Some(target@), Some(village), person_data("Rowan"@, rowan_text()));
            }
            let id = create_entity(
                state,
                EntityKind::Actor,
                "admin".to_owned(),
                Some(target.deep_copy()),
                Some(village),
                person("Rowan", "A stone tablet in the ruins may preserve the old road."),
            )?;
            (id, true)
        },
    };
    let ghost w5 = state@;
    let made_tablet = match find_named_entity(state, EntityKind::Item, "stone tablet") {
        Some(_) => false,
        None => {
            proof {
                lemma_created_counters(w5, EntityKind::Item, "admin"@, None, Some(ruins), text_map("name"@, "stone tablet"@));
            }
            create_entity(
                state,
                EntityKind::Item,
                "admin".to_owned(),
                None,
                Some(ruins),
                text_entry("name", "stone tablet"),
            )?;
            true
        },
    };
    let ghost w6 = state@;
    let refreshed = refresh_demo_quests(state, mira, rowan);
    let changed = c1 || made_rowan || made_tablet || refreshed;
    state.validate()?;
    if changed {
        state.head = state.head + 1;
    }
    Ok(changed || migrated)
}

/// Room on the counters for an upgrade: building the demo on an empty world
/// advances the head by up to twelve and hands out eight ids; bringing an
/// existing world up to date advances the head by up to five and hands out
/// up to two ids.
pub open spec fn upgrade_headroom(w: WorldV) -> bool {
    if w.entities.len() == 0 && w.contracts.len() == 0 {
        w.head + 12 <= u64::MAX && w.next_entity_id + 8 <= u64::MAX
    } else {
        w.head + 5 <= u64::MAX && w.next_entity_id + 2 <= u64::MAX
    }
}

/// Whether the counters have room for an upgrade.
pub fn has_upgrade_headroom(state: &WorldState) -> (r: bool)
    ensures
        r == upgrade_headroom(state@),
{
    if state.entities.is_empty() && state.contracts.is_empty() {
        state.head <= u64::MAX - 12 && state.next_entity_id <= u64::MAX - 8
    } else {
        state.head <= u64::MAX - 5 && state.next_entity_id <= u64::MAX - 2
    }
}

/// Brings a world up to date with the demo: an empty world becomes the demo
/// world; otherwise the world must hold the demo contract, its legacy
/// inventories are migrated, `source` is deployed as the next demo version
/// unless a version with its hash exists, demo characters are bound to that
/// version, older quest statuses become progress records, missing demo
/// characters and items are created and the quests refreshed. Returns
/// whether anything changed; the head advances when the demo content did.
#[verifier::rlimit(40)]
pub fn ensure_current(state: &mut WorldState, source: String) -> (r: Result<bool, Error>)
    requires
        upgrade_headroom(old(state)@),
        entity_ids_match(old(state)@),
        best_demo(old(state)@.contracts, source_hash_text(source@)) is None ==> max_demo_version(old(state)@.contracts)
            < u32::MAX,
    ensures
        crate::host::host_outcome(ensure_effect(old(state)@, source@), final(state)@, r),
{
    let ghost w = state@;
    if state.entities.is_empty() && state.contracts.is_empty() {
        return match initialize(state, source) {
            Ok(_) => Ok(true),
            Err(e) => Err(e),
        };
    }
    if !holds_demo_contract(state) {
        return Err(Error::plain(ErrorKind::DemoContractMissing));
    }
    proof {
        crate::migration::lemma_migration_keeps(w);
    }
    let migrated = migrate_legacy_inventories(state)?;
    let hash = crate::digest::blake3_hex(source.as_str().as_bytes());
    match best_demo_contract(state, hash.as_str()) {
        Some(key) => ensure_with_target_exec(state, key, false, migrated),
        None => {
            let version = latest_demo_version(state) + 1;
            proof {
                reveal_strlit("demo");
            }
            deploy_version(state, "demo".to_owned(), version, source)?;
            ensure_with_target_exec(state, contract_key("demo", version), true, migrated)
        },
    }
}

} // verus!
