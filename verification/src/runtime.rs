//! Deploying contracts, creating entities, running commands and
//! transactions against the world.
use crate::digest::blake3_hex;
use crate::error::{err, Error, ErrorKind, ErrorV};
use crate::json::{Json, JsonV};
use crate::maps::{has_key, put, SortedMap};
use crate::model::{Contract, ContractStatus, ContractV, Entity, EntityKind, EntityV, WorldEvent, WorldEventV, WorldState, WorldV};
use crate::text::{decimal, push_char, push_decimal};
use crate::validate::source_hash_text;
use vstd::prelude::*;

verus! {

/// The map key of a contract version: the bare name for version one,
/// `name@version` for later versions.
pub open spec fn contract_key_text(name: Seq<char>, version: u32) -> Seq<char> {
    if version == 1 {
        name
    } else {
        name + seq!['@'] + decimal(version as nat)
    }
}

/// The map key of an actor's progress with a quest: `actor:quest`.
pub open spec fn progress_key_text(actor_id: u64, quest_id: Seq<char>) -> Seq<char> {
    decimal(actor_id as nat) + seq![':'] + quest_id
}

/// The map key of a contract version.
pub fn contract_key(name: &str, version: u32) -> (r: String)
    ensures
        r@ == contract_key_text(name@, version),
{
    let mut key = name.to_owned();
    if version != 1 {
        push_char(&mut key, '@');
        push_decimal(&mut key, version as u64);
    }
    key
}

/// The map key of an actor's progress with a quest.
pub fn quest_progress_key(actor_id: u64, quest_id: &str) -> (r: String)
    ensures
        r@ == progress_key_text(actor_id, quest_id@),
{
    let mut key = crate::text::u64_to_string(actor_id);
    push_char(&mut key, ':');
    crate::text::push_str(&mut key, quest_id);
    key
}

/// The instructions a contract run may execute by default.
pub const DEFAULT_LUA_INSTRUCTION_LIMIT: u64 = 200_000;

/// The memory, in bytes, a contract run may use by default.
pub const DEFAULT_LUA_MEMORY_LIMIT: usize = 16777216;

/// How many instructions run between two checks of the instruction limit.
pub const LUA_HOOK_INTERVAL: u32 = 1000;

/// The resources a contract run may use.
#[derive(Clone, Copy, Debug)]
pub struct LuaLimits {
    pub instruction_limit: u64,
    pub memory_limit: usize,
}

impl Default for LuaLimits {
    fn default() -> (r: Self)
        ensures
            r.instruction_limit == DEFAULT_LUA_INSTRUCTION_LIMIT,
            r.memory_limit == DEFAULT_LUA_MEMORY_LIMIT,
    {
        LuaLimits { instruction_limit: DEFAULT_LUA_INSTRUCTION_LIMIT, memory_limit: DEFAULT_LUA_MEMORY_LIMIT }
    }
}

/// Whether a run that has executed `used` instructions has gone past its limit.
pub fn instruction_limit_exceeded(used: u64, limits: &LuaLimits) -> (r: bool)
    ensures
        r == (used > limits.instruction_limit),
{
    used > limits.instruction_limit
}

/// Whether an operation did what was expected: on success the world became
/// the expected one, on failure it reports the expected error and the world
/// is unchanged.
pub open spec fn applied<T>(expected: Result<WorldV, ErrorV>, before: WorldV, after: WorldV, r: Result<T, Error>) -> bool {
    match expected {
        Ok(w) => r is Ok && after == w,
        Err(e) => r matches Err(x) && x@ == e && after == before,
    }
}

/// Publishing version `version` of contract `name`: the version must be
/// positive and not yet published; the contract is stored under its key
/// with the hash of its source, and the head advances.
pub open spec fn deploy_result(w: WorldV, name: Seq<char>, version: u32, source: Seq<char>) -> Result<WorldV, ErrorV> {
    let key = contract_key_text(name, version);
    if version == 0 {
        Err(err(ErrorKind::VersionZero, seq![]))
    } else if has_key(w.contracts, key) {
        Err(err(ErrorKind::ContractVersionExists, seq![key]))
    } else {
        Ok(
            WorldV {
                contracts: put::<Seq<char>, ContractV, String>(
                    w.contracts,
                    key,
                    ContractV {
                        name,
                        version,
                        source,
                        source_hash: source_hash_text(source),
                        status: ContractStatus::Published,
                    },
                ),
                head: (w.head + 1) as u64,
                ..w
            },
        )
    }
}

/// Published versions are immutable: deploying a version that is already
/// published fails, whatever its source, and so leaves the world as it was.
pub proof fn lemma_published_version_is_immutable(w: WorldV, name: Seq<char>, version: u32, source: Seq<char>)
    requires
        has_key(w.contracts, contract_key_text(name, version)),
    ensures
        version != 0 ==> deploy_result(w, name, version, source) == Err::<WorldV, ErrorV>(
            err(ErrorKind::ContractVersionExists, seq![contract_key_text(name, version)]),
        ),
        deploy_result(w, name, version, source) is Err,
{
}

/// Creating an entity: its owner account and contract, when named, must
/// exist; it takes the next entity id, and the head advances.
#[verifier::opaque]
pub open spec fn create_entity_result(
    w: WorldV,
    kind: EntityKind,
    owner: Seq<char>,
    contract: Option<Seq<char>>,
    location: Option<u64>,
    data: Seq<(Seq<char>, JsonV)>,
) -> Result<WorldV, ErrorV> {
    if !has_key(w.accounts, owner) {
        Err(err(ErrorKind::AccountNotFound, seq![owner]))
    } else if contract is Some && !has_key(w.contracts, contract->0) {
        Err(err(ErrorKind::ContractNotFound, seq![contract->0]))
    } else {
        Ok(
            WorldV {
                entities: put::<u64, EntityV, u64>(
                    w.entities,
                    w.next_entity_id,
                    EntityV { id: w.next_entity_id, kind, owner, location, contract, data },
                ),
                next_entity_id: (w.next_entity_id + 1) as u64,
                head: (w.head + 1) as u64,
                ..w
            },
        )
    }
}

/// Creating an entity with an existing owner, and an existing contract or
/// none, succeeds; the accounts and contracts stay as they were, the new
/// entity is stored under the next id, and both counters advance.
pub proof fn lemma_create_entity_ok(
    w: WorldV,
    kind: EntityKind,
    owner: Seq<char>,
    contract: Option<Seq<char>>,
    location: Option<u64>,
    data: Seq<(Seq<char>, JsonV)>,
)
    requires
        has_key(w.accounts, owner),
        contract is None || has_key(w.contracts, contract->0),
    ensures
        create_entity_result(w, kind, owner, contract, location, data) == Ok::<WorldV, ErrorV>(
            WorldV {
                entities: put::<u64, EntityV, u64>(
                    w.entities,
                    w.next_entity_id,
                    EntityV { id: w.next_entity_id, kind, owner, location, contract, data },
                ),
                next_entity_id: (w.next_entity_id + 1) as u64,
                head: (w.head + 1) as u64,
                ..w
            },
        ),
{
    reveal(create_entity_result);
}

/// Creating an entity whose owner account is missing fails with that account's name.
pub proof fn lemma_create_entity_no_owner(
    w: WorldV,
    kind: EntityKind,
    owner: Seq<char>,
    contract: Option<Seq<char>>,
    location: Option<u64>,
    data: Seq<(Seq<char>, JsonV)>,
)
    requires
        !has_key(w.accounts, owner),
    ensures
        create_entity_result(w, kind, owner, contract, location, data) == Err::<WorldV, ErrorV>(
            err(ErrorKind::AccountNotFound, seq![owner]),
        ),
{
    reveal(create_entity_result);
}

/// The world after appending an event with the next event id at the current head.
pub open spec fn with_event(w: WorldV, kind: Seq<char>, entity_id: Option<u64>, data: JsonV) -> WorldV {
    WorldV {
        events: w.events.push(WorldEventV { id: w.next_event_id, head: w.head, kind, entity_id, data }),
        next_event_id: (w.next_event_id + 1) as u64,
        ..w
    }
}

/// Publishes version 1 of a contract.
pub fn deploy(state: &mut WorldState, name: String, source: String) -> (r: Result<(), Error>)
    requires
        old(state).head < u64::MAX,
    ensures
        applied(deploy_result(old(state)@, name@, 1, source@), old(state)@, final(state)@, r),
{
    deploy_version(state, name, 1, source)
}

/// Publishes a contract version; a published version is never replaced.
pub fn deploy_version(state: &mut WorldState, name: String, version: u32, source: String) -> (r: Result<(), Error>)
    requires
        old(state).head < u64::MAX,
    ensures
        applied(deploy_result(old(state)@, name@, version, source@), old(state)@, final(state)@, r),
{
    if version == 0 {
        return Err(Error::plain(ErrorKind::VersionZero));
    }
    let key = contract_key(name.as_str(), version);
    if state.contracts.contains_key(&key) {
        return Err(Error::one(ErrorKind::ContractVersionExists, key));
    }
    let hash = blake3_hex(source.as_str().as_bytes());
    state.contracts.insert(
        key,
        Contract { name, version, source, source_hash: hash, status: ContractStatus::Published },
    );
    state.head = state.head + 1;
    Ok(())
}

/// Creates an entity owned by an existing account; returns its id.
pub fn create_entity(
    state: &mut WorldState,
    kind: EntityKind,
    owner: String,
    contract: Option<String>,
    location: Option<u64>,
    data: SortedMap<String, Json>,
) -> (r: Result<u64, Error>)
    requires
        old(state).head < u64::MAX,
        old(state).next_entity_id < u64::MAX,
    ensures
        applied(
            create_entity_result(old(state)@, kind, owner@, crate::model::opt_chars(contract), location, data@),
            old(state)@,
            final(state)@,
            r,
        ),
        r matches Ok(id) ==> id == old(state).next_entity_id,
{
    proof {
        reveal(create_entity_result);
    }
    if !state.accounts.contains_key(&owner) {
        return Err(Error::one(ErrorKind::AccountNotFound, owner));
    }
    if let Some(c) = &contract {
        if !state.contracts.contains_key(c) {
            return Err(Error::one(ErrorKind::ContractNotFound, c.clone()));
        }
    }
    let id = state.next_entity_id;
    state.next_entity_id = state.next_entity_id + 1;
    state.entities.insert(id, Entity { id, kind, owner, location, contract, data });
    state.head = state.head + 1;
    Ok(id)
}

/// Appends an event with the next event id at the current head.
pub fn push_event(state: &mut WorldState, kind: &str, entity_id: Option<u64>, data: Json)
    requires
        old(state).next_event_id < u64::MAX,
    ensures
        final(state)@ == with_event(old(state)@, kind@, entity_id, data@),
{
    let id = state.next_event_id;
    state.next_event_id = state.next_event_id + 1;
    let head = state.head;
    state.events.push(WorldEvent { id, head, kind: kind.to_owned(), entity_id, data });
    assert(crate::model::events_view(state.events@) =~= old(state)@.events.push(
        WorldEventV { id, head, kind: kind@, entity_id, data: data@ },
    ));
}

} // verus!
