//! The world's data: accounts, contracts, entities, quests, inventories,
//! receipts and the event log, with their mathematical forms and their JSON
//! forms.
use crate::digest::{blake3_digest, blake3_hex, lower_hex};
use crate::json::{items_view, json_text, lemma_items_view, lemma_members_view, members_view, to_text, Json, JsonV};
use crate::maps::{DeepCopy, MapKey, SortedMap};
use crate::text::decimal;
use vstd::prelude::*;

verus! {

pub type EntityId = u64;

/// What an entity is.
#[derive(Clone, Copy, Debug, PartialEq, Eq, Structural)]
pub enum EntityKind {
    Actor,
    Zone,
    Item,
}

/// Whether a contract version may still be bound.
#[derive(Clone, Copy, Debug, PartialEq, Eq, Structural)]
pub enum ContractStatus {
    Published,
    Deprecated,
}

/// How far an actor has come with a quest.
#[derive(Clone, Copy, Debug, PartialEq, Eq, Structural)]
pub enum QuestStatus {
    Accepted,
    Completed,
}

impl Default for ContractStatus {
    fn default() -> (r: Self)
        ensures
            r == ContractStatus::Published,
    {
        ContractStatus::Published
    }
}

/// A thing in the world: an actor, a zone or an item.
pub struct Entity {
    pub id: EntityId,
    pub kind: EntityKind,
    pub owner: String,
    pub location: Option<EntityId>,
    pub contract: Option<String>,
    pub data: SortedMap<String, Json>,
}

/// One published version of a Lua contract.
pub struct Contract {
    pub name: String,
    pub version: u32,
    pub source: String,
    pub source_hash: String,
    pub status: ContractStatus,
}

/// An account that owns entities and signs transactions.
pub struct Account {
    pub name: String,
    pub public_key: Option<String>,
    pub nonce: u64,
    pub balance: u64,
}

/// A signed request to run a command on an entity.
pub struct Transaction {
    pub from: String,
    pub nonce: u64,
    pub entity_id: EntityId,
    pub action: String,
    pub args: Json,
    pub signature: Option<String>,
}

/// The outcome of a query, a command or a transaction.
pub struct Receipt {
    pub tx_id: String,
    pub from: String,
    pub nonce: u64,
    pub ok: bool,
    pub messages: Vec<String>,
    pub result: Json,
    pub state_root: String,
}

/// A quest that an actor can accept from a giver and complete.
pub struct QuestDefinition {
    pub id: String,
    pub title: String,
    pub giver_entity_id: EntityId,
    pub prerequisite_quest_ids: Vec<String>,
    pub required_item: String,
    pub completion_zone: String,
    pub reward_balance: u64,
    pub consume_required_item: bool,
}

/// An actor's progress with one quest.
pub struct QuestProgress {
    pub quest_id: String,
    pub actor_id: EntityId,
    pub status: QuestStatus,
}

/// One entry of the world's event log.
pub struct WorldEvent {
    pub id: u64,
    pub head: u64,
    pub kind: String,
    pub entity_id: Option<EntityId>,
    pub data: Json,
}

/// The whole world.
pub struct WorldState {
    pub accounts: SortedMap<String, Account>,
    pub entities: SortedMap<EntityId, Entity>,
    pub contracts: SortedMap<String, Contract>,
    pub receipts: SortedMap<String, Receipt>,
    pub quests: SortedMap<String, QuestDefinition>,
    pub quest_progress: SortedMap<String, QuestProgress>,
    pub inventories: SortedMap<EntityId, Vec<EntityId>>,
    pub events: Vec<WorldEvent>,
    pub next_event_id: u64,
    pub next_entity_id: EntityId,
    pub head: u64,
}

// ----------------------------------------------------------------------
// Mathematical forms
// ----------------------------------------------------------------------

pub struct EntityV {
    pub id: u64,
    pub kind: EntityKind,
    pub owner: Seq<char>,
    pub location: Option<u64>,
    pub contract: Option<Seq<char>>,
    pub data: Seq<(Seq<char>, JsonV)>,
}

pub struct ContractV {
    pub name: Seq<char>,
    pub version: u32,
    pub source: Seq<char>,
    pub source_hash: Seq<char>,
    pub status: ContractStatus,
}

pub struct AccountV {
    pub name: Seq<char>,
    pub public_key: Option<Seq<char>>,
    pub nonce: u64,
    pub balance: u64,
}

pub struct TransactionV {
    pub from: Seq<char>,
    pub nonce: u64,
    pub entity_id: u64,
    pub action: Seq<char>,
    pub args: JsonV,
    pub signature: Option<Seq<char>>,
}

pub struct ReceiptV {
    pub tx_id: Seq<char>,
    pub from: Seq<char>,
    pub nonce: u64,
    pub ok: bool,
    pub messages: Seq<Seq<char>>,
    pub result: JsonV,
    pub state_root: Seq<char>,
}

pub struct QuestDefinitionV {
    pub id: Seq<char>,
    pub title: Seq<char>,
    pub giver_entity_id: u64,
    pub prerequisite_quest_ids: Seq<Seq<char>>,
    pub required_item: Seq<char>,
    pub completion_zone: Seq<char>,
    pub reward_balance: u64,
    pub consume_required_item: bool,
}

pub struct QuestProgressV {
    pub quest_id: Seq<char>,
    pub actor_id: u64,
    pub status: QuestStatus,
}

pub struct WorldEventV {
    pub id: u64,
    pub head: u64,
    pub kind: Seq<char>,
    pub entity_id: Option<u64>,
    pub data: JsonV,
}

pub struct WorldV {
    pub accounts: Seq<(Seq<char>, AccountV)>,
    pub entities: Seq<(u64, EntityV)>,
    pub contracts: Seq<(Seq<char>, ContractV)>,
    pub receipts: Seq<(Seq<char>, ReceiptV)>,
    pub quests: Seq<(Seq<char>, QuestDefinitionV)>,
    pub quest_progress: Seq<(Seq<char>, QuestProgressV)>,
    pub inventories: Seq<(u64, Seq<u64>)>,
    pub events: Seq<WorldEventV>,
    pub next_event_id: u64,
    pub next_entity_id: u64,
    pub head: u64,
}

/// The characters of an optional string.
pub open spec fn opt_chars(o: Option<String>) -> Option<Seq<char>> {
    match o {
        Some(s) => Some(s@),
        None => None,
    }
}

/// The characters of each string.
pub open spec fn strings_view(v: Seq<String>) -> Seq<Seq<char>> {
    v.map_values(|s: String| s@)
}

/// The mathematical form of each event.
pub open spec fn events_view(v: Seq<WorldEvent>) -> Seq<WorldEventV> {
    v.map_values(|e: WorldEvent| e@)
}

impl View for Entity {
    type V = EntityV;

    open spec fn view(&self) -> EntityV {
        EntityV {
            id: self.id,
            kind: self.kind,
            owner: self.owner@,
            location: self.location,
            contract: opt_chars(self.contract),
            data: self.data@,
        }
    }
}

impl View for Contract {
    type V = ContractV;

    open spec fn view(&self) -> ContractV {
        ContractV {
            name: self.name@,
            version: self.version,
            source: self.source@,
            source_hash: self.source_hash@,
            status: self.status,
        }
    }
}

impl View for Account {
    type V = AccountV;

    open spec fn view(&self) -> AccountV {
        AccountV {
            name: self.name@,
            public_key: opt_chars(self.public_key),
            nonce: self.nonce,
            balance: self.balance,
        }
    }
}

impl View for Transaction {
    type V = TransactionV;

    open spec fn view(&self) -> TransactionV {
        TransactionV {
            from: self.from@,
            nonce: self.nonce,
            entity_id: self.entity_id,
            action: self.action@,
            args: self.args@,
            signature: opt_chars(self.signature),
        }
    }
}

impl View for Receipt {
    type V = ReceiptV;

    open spec fn view(&self) -> ReceiptV {
        ReceiptV {
            tx_id: self.tx_id@,
            from: self.from@,
            nonce: self.nonce,
            ok: self.ok,
            messages: strings_view(self.messages@),
            result: self.result@,
            state_root: self.state_root@,
        }
    }
}

impl View for QuestDefinition {
    type V = QuestDefinitionV;

    open spec fn view(&self) -> QuestDefinitionV {
        QuestDefinitionV {
            id: self.id@,
            title: self.title@,
            giver_entity_id: self.giver_entity_id,
            prerequisite_quest_ids: strings_view(self.prerequisite_quest_ids@),
            required_item: self.required_item@,
            completion_zone: self.completion_zone@,
            reward_balance: self.reward_balance,
            consume_required_item: self.consume_required_item,
        }
    }
}

impl View for QuestProgress {
    type V = QuestProgressV;

    open spec fn view(&self) -> QuestProgressV {
        QuestProgressV { quest_id: self.quest_id@, actor_id: self.actor_id, status: self.status }
    }
}

impl View for WorldEvent {
    type V = WorldEventV;

    open spec fn view(&self) -> WorldEventV {
        WorldEventV {
            id: self.id,
            head: self.head,
            kind: self.kind@,
            entity_id: self.entity_id,
            data: self.data@,
        }
    }
}

impl View for WorldState {
    type V = WorldV;

    open spec fn view(&self) -> WorldV {
        WorldV {
            accounts: self.accounts@,
            entities: self.entities@,
            contracts: self.contracts@,
            receipts: self.receipts@,
            quests: self.quests@,
            quest_progress: self.quest_progress@,
            inventories: self.inventories@,
            events: events_view(self.events@),
            next_event_id: self.next_event_id,
            next_entity_id: self.next_entity_id,
            head: self.head,
        }
    }
}

// ----------------------------------------------------------------------
// Copies
// ----------------------------------------------------------------------

fn copy_opt_string(o: &Option<String>) -> (r: Option<String>)
    ensures
        opt_chars(r) == opt_chars(*o),
{
    match o {
        Some(s) => Some(s.clone()),
        None => None,
    }
}

impl DeepCopy for Entity {
    fn deep_copy(&self) -> (r: Entity) {
        Entity {
            id: self.id,
            kind: self.kind,
            owner: self.owner.clone(),
            location: self.location,
            contract: copy_opt_string(&self.contract),
            data: self.data.deep_copy(),
        }
    }
}

impl DeepCopy for Contract {
    fn deep_copy(&self) -> (r: Contract) {
        Contract {
            name: self.name.clone(),
            version: self.version,
            source: self.source.clone(),
            source_hash: self.source_hash.clone(),
            status: self.status,
        }
    }
}

impl DeepCopy for Account {
    fn deep_copy(&self) -> (r: Account) {
        Account {
            name: self.name.clone(),
            public_key: copy_opt_string(&self.public_key),
            nonce: self.nonce,
            balance: self.balance,
        }
    }
}

impl DeepCopy for Transaction {
    fn deep_copy(&self) -> (r: Transaction) {
        Transaction {
            from: self.from.clone(),
            nonce: self.nonce,
            entity_id: self.entity_id,
            action: self.action.clone(),
            args: self.args.deep_copy(),
            signature: copy_opt_string(&self.signature),
        }
    }
}

impl DeepCopy for Receipt {
    fn deep_copy(&self) -> (r: Receipt) {
        Receipt {
            tx_id: self.tx_id.clone(),
            from: self.from.clone(),
            nonce: self.nonce,
            ok: self.ok,
            messages: self.messages.deep_copy(),
            result: self.result.deep_copy(),
            state_root: self.state_root.clone(),
        }
    }
}

impl DeepCopy for QuestDefinition {
    fn deep_copy(&self) -> (r: QuestDefinition) {
        QuestDefinition {
            id: self.id.clone(),
            title: self.title.clone(),
            giver_entity_id: self.giver_entity_id,
            prerequisite_quest_ids: self.prerequisite_quest_ids.deep_copy(),
            required_item: self.required_item.clone(),
            completion_zone: self.completion_zone.clone(),
            reward_balance: self.reward_balance,
            consume_required_item: self.consume_required_item,
        }
    }
}

impl DeepCopy for QuestProgress {
    fn deep_copy(&self) -> (r: QuestProgress) {
        QuestProgress { quest_id: self.quest_id.clone(), actor_id: self.actor_id, status: self.status }
    }
}

impl DeepCopy for WorldEvent {
    fn deep_copy(&self) -> (r: WorldEvent) {
        WorldEvent {
            id: self.id,
            head: self.head,
            kind: self.kind.clone(),
            entity_id: self.entity_id,
            data: self.data.deep_copy(),
        }
    }
}

/// A copy of an event log with the same mathematical form.
pub fn copy_events(v: &Vec<WorldEvent>) -> (r: Vec<WorldEvent>)
    ensures
        events_view(r@) == events_view(v@),
{
    let mut r: Vec<WorldEvent> = Vec::new();
    let mut i: usize = 0;
    while i < v.len()
        invariant
            i <= v.len(),
            r@.len() == i,
            forall|k: int| 0 <= k < i ==> (#[trigger] r@[k])@ == v@[k]@,
        decreases v.len() - i,
    {
        r.push(v[i].deep_copy());
        i += 1;
    }
    assert(events_view(r@) =~= events_view(v@));
    r
}

impl DeepCopy for WorldState {
    fn deep_copy(&self) -> (r: WorldState) {
        WorldState {
            accounts: self.accounts.deep_copy(),
            entities: self.entities.deep_copy(),
            contracts: self.contracts.deep_copy(),
            receipts: self.receipts.deep_copy(),
            quests: self.quests.deep_copy(),
            quest_progress: self.quest_progress.deep_copy(),
            inventories: self.inventories.deep_copy(),
            events: copy_events(&self.events),
            next_event_id: self.next_event_id,
            next_entity_id: self.next_entity_id,
            head: self.head,
        }
    }
}

impl Clone for Entity {
    fn clone(&self) -> Self {
        self.deep_copy()
    }
}

impl Clone for Contract {
    fn clone(&self) -> Self {
        self.deep_copy()
    }
}

impl Clone for Account {
    fn clone(&self) -> Self {
        self.deep_copy()
    }
}

impl Clone for Transaction {
    fn clone(&self) -> Self {
        self.deep_copy()
    }
}

impl Clone for Receipt {
    fn clone(&self) -> Self {
        self.deep_copy()
    }
}

impl Clone for QuestDefinition {
    fn clone(&self) -> Self {
        self.deep_copy()
    }
}

impl Clone for QuestProgress {
    fn clone(&self) -> Self {
        self.deep_copy()
    }
}

impl Clone for WorldEvent {
    fn clone(&self) -> Self {
        self.deep_copy()
    }
}

impl Clone for WorldState {
    fn clone(&self) -> Self {
        self.deep_copy()
    }
}

} // verus!
