//! The library's errors: a kind, the values the message mentions, and an
//! optional context naming the check that failed.
use crate::text::push_str;
use vstd::prelude::*;

verus! {

/// What went wrong.
#[derive(Clone, Copy, Debug, PartialEq, Eq, Structural)]
pub enum ErrorKind {
    EventIdOrder,
    EventHeadExceedsWorld,
    EventKindEmpty,
    TxEventMissingTxId,
    TxEventMissingFrom,
    TxEventMissingNonce,
    TxEventReceiptMissing,
    TxEventReceiptMismatch,
    TxEventDuplicate,
    EntityEventMissingEntity,
    EntityEventInvalidChange,
    QuestEventMissingActor,
    QuestEventMissingQuest,
    QuestEventInvalidStatus,
    CommandEventMissingEntity,
    CommandEventMissingAction,
    NextEventIdTooLow,
    AccountKeyMismatch,
    AccountNameEmpty,
    AccountKeyNotHex,
    AccountKeyLength,
    ContractNameEmpty,
    ContractKeyVersionZero,
    ContractKeyMismatch,
    ContractHashMismatch,
    EntityKeyMismatch,
    EntityOwnerMissing,
    EntityContractMissing,
    NextEntityIdTooLow,
    ProgressKeyMismatch,
    ProgressActorMissing,
    ProgressActorNotActor,
    ProgressQuestMissing,
    ReceiptKeyMismatch,
    ReceiptAccountMissing,
    HashNotHex,
    HashLength,
    ZoneHasLocation,
    ActorLocationMissing,
    ActorLocationNotZone,
    ItemLocationMissing,
    ItemLocationInvalid,
    InventoryOwnerMissing,
    InventoryOwnerNotActor,
    InventoryDuplicateItem,
    InventoryItemMissing,
    InventoryNotItem,
    ItemHeldTwice,
    InventoryLocationMismatch,
    ItemMissingFromInventory,
    QuestKeyMismatch,
    QuestIdEmpty,
    QuestGiverMissing,
    QuestGiverNotActor,
    QuestSelfPrerequisite,
    QuestDuplicatePrerequisite,
    QuestPrerequisiteMissing,
    QuestCycle,
    VersionZero,
    ContractVersionExists,
    AccountNotFound,
    ContractNotFound,
    EntityNotFound,
    EntityHasNoContract,
    InvalidNonce,
    SignatureRequired,
    UnexpectedSignature,
    NotEntityOwner,
    PublicKeyFormat,
    InvalidPublicKey,
    SignatureFormat,
    InvalidSignature,
    ReadOnlyQuery,
    TargetZoneNotFound,
    TargetNotZone,
    ActorNotFound,
    NotAnActor,
    CallerNotFound,
    ItemNotFound,
    ItemNotHere,
    ItemAlreadyHeld,
    ActorHasNoLocation,
    ItemNotInInventory,
    TransferToSelf,
    TargetActorNotFound,
    TransferTargetNotActor,
    TargetActorNotHere,
    InventoryInconsistent,
    TargetEntityNotFound,
    CallerNotOwner,
    LocationNotFound,
    UnknownEntityKind,
    EntityDataNotObject,
    EventKindRequired,
    EventKindReserved,
    EventEntityNotFound,
    QuestNotFound,
    QuestGiverMismatch,
    PrerequisiteIncomplete,
    CallerHasNoLocation,
    QuestGiverNotFound,
    QuestGiverNotHere,
    QuestAlreadyAccepted,
    QuestAlreadyCompleted,
    QuestNotAccepted,
    WrongCompletionZone,
    RequiredItemMissing,
    OwnerAccountNotFound,
    BalanceOverflow,
    LegacyInventoryNotArray,
    LegacyInventoryNonInteger,
    LegacyInventoryDuplicate,
    LegacyInventoryMissingItem,
    LegacyInventoryNonItem,
    LegacyItemClaimedTwice,
    HeadOverflow,
    DemoNeedsEmptyWorld,
    DemoContractMissing,
    DemoVillageMissing,
    DemoRuinsMissing,
    DemoMiraMissing,
    FormatVersionInvalid,
    UnsupportedFormat,
    AmbiguousMigration,
    InvalidMigration,
    RootMismatch,
    SnapshotNotObject,
    SnapshotStateNotObject,
    SchemaMissingField,
    SchemaUnknownField,
    SchemaLegacyInventory,
    SchemaEntriesNotObject,
    SchemaEntryNotObject,
    SchemaEntriesNotArray,
    AccountExists,
    ParamRequired,
    UnknownMethod,
    UnsignedCommandsDisabled,
    UnsignedTransactionsDisabled,
}

/// The check during which an error was found.
#[derive(Clone, Copy, Debug, PartialEq, Eq, Structural)]
pub enum Context {
    CoreReferences,
    EventLog,
    EntityLocations,
    QuestDefinitions,
    Inventories,
    CurrentSnapshotState,
    WorldStateCheck,
    CurrentSnapshotSchema,
    MigratedLocations,
    MigratedInventories,
}

/// An error: its kind, the values its message mentions, in order, and the
/// check that reported it, when one did.
#[derive(Debug)]
pub struct Error {
    pub kind: ErrorKind,
    pub args: Vec<String>,
    pub context: Option<Context>,
}

/// The mathematical form of an error.
pub struct ErrorV {
    pub kind: ErrorKind,
    pub args: Seq<Seq<char>>,
    pub context: Option<Context>,
}

impl View for Error {
    type V = ErrorV;

    open spec fn view(&self) -> ErrorV {
        ErrorV { kind: self.kind, args: self.args@.map_values(|s: String| s@), context: self.context }
    }
}

/// An error of a kind with the values its message mentions.
pub open spec fn err(kind: ErrorKind, args: Seq<Seq<char>>) -> ErrorV {
    ErrorV { kind, args, context: None }
}

/// The same error, reported by a check.
pub open spec fn in_context(e: ErrorV, c: Context) -> ErrorV {
    ErrorV { context: Some(c), ..e }
}

/// Whether a result reports exactly the expected first error, or success when none is expected.
pub open spec fn outcome(expected: Option<ErrorV>, r: Result<(), Error>) -> bool {
    match r {
        Ok(_) => expected is None,
        Err(e) => expected == Some(e@),
    }
}

/// The first error that a check finds among the items, in order.
pub open spec fn first_error<T>(s: Seq<T>, f: spec_fn(T) -> Option<ErrorV>) -> Option<ErrorV>
    decreases s.len(),
{
    if s.len() == 0 {
        None
    } else {
        match f(s[0]) {
            Some(e) => Some(e),
            None => first_error(s.drop_first(), f),
        }
    }
}

/// Scanning one more item: the first error from position `i` on.
pub proof fn lemma_first_error_step<T>(s: Seq<T>, f: spec_fn(T) -> Option<ErrorV>, i: int)
    requires
        0 <= i < s.len(),
    ensures
        first_error(s.skip(i), f) == match f(s[i]) {
            Some(e) => Some(e),
            None => first_error(s.skip(i + 1), f),
        },
{
    assert(s.skip(i).drop_first() =~= s.skip(i + 1));
    assert(s.skip(i)[0] == s[i]);
}

/// The first error of the whole sequence is that from position zero.
pub proof fn lemma_first_error_start<T>(s: Seq<T>, f: spec_fn(T) -> Option<ErrorV>)
    ensures
        first_error(s, f) == first_error(s.skip(0), f),
{
    assert(s.skip(0) =~= s);
}

/// Past the end there is no error.
pub proof fn lemma_first_error_end<T>(s: Seq<T>, f: spec_fn(T) -> Option<ErrorV>)
    ensures
        first_error(s.skip(s.len() as int), f) is None,
{
    assert(s.skip(s.len() as int) =~= Seq::<T>::empty());
}

/// A check finds no error exactly when it finds none in any item.
pub proof fn lemma_first_error_none<T>(s: Seq<T>, f: spec_fn(T) -> Option<ErrorV>)
    ensures
        first_error(s, f) is None <==> forall|i: int| 0 <= i < s.len() ==> (#[trigger] f(s[i])) is None,
    decreases s.len(),
{
    if s.len() > 0 {
        lemma_first_error_none(s.drop_first(), f);
        assert forall|i: int| 1 <= i < s.len() implies #[trigger] f(s[i]) == f(s.drop_first()[i - 1]) by {
        }
        if first_error(s, f) is None {
            assert forall|i: int| 0 <= i < s.len() implies (#[trigger] f(s[i])) is None by {
                if i > 0 {
                    assert(f(s.drop_first()[i - 1]) is None);
                }
            }
        }
        if forall|i: int| 0 <= i < s.len() ==> (#[trigger] f(s[i])) is None {
            assert(f(s[0]) is None);
            assert forall|i: int| 0 <= i < s.drop_first().len() implies (#[trigger] f(s.drop_first()[i])) is None by {
                assert(f(s[i + 1]) is None);
            }
        }
    }
}

/// The fixed pieces of a kind's message; the mentioned values go between them.
pub open spec fn template(k: ErrorKind) -> Seq<Seq<char>> {
    match k {
        ErrorKind::EventIdOrder => seq!["event ids must be positive and strictly increasing: "@, " after "@, ""@],
        ErrorKind::EventHeadExceedsWorld => seq!["event "@, " head exceeds world head: "@, " > "@, ""@],
        ErrorKind::EventKindEmpty => seq!["event "@, " kind must not be empty"@],
        ErrorKind::TxEventMissingTxId => seq!["transaction event "@, " is missing tx_id"@],
        ErrorKind::TxEventMissingFrom => seq!["transaction event "@, " is missing from"@],
        ErrorKind::TxEventMissingNonce => seq!["transaction event "@, " is missing nonce"@],
        ErrorKind::TxEventReceiptMissing => seq!["transaction event "@, " receipt does not exist: "@, ""@],
        ErrorKind::TxEventReceiptMismatch => seq!["transaction event "@, " does not match receipt "@, ""@],
        ErrorKind::TxEventDuplicate => seq!["duplicate transaction event for receipt: "@, ""@],
        ErrorKind::EntityEventMissingEntity => seq!["entity changed event "@, " is missing entity_id"@],
        ErrorKind::EntityEventInvalidChange => seq!["entity changed event "@, " has invalid change"@],
        ErrorKind::QuestEventMissingActor => seq!["quest progress event "@, " is missing actor entity_id"@],
        ErrorKind::QuestEventMissingQuest => seq!["quest progress event "@, " is missing quest_id"@],
        ErrorKind::QuestEventInvalidStatus => seq!["quest progress event "@, " has invalid status"@],
        ErrorKind::CommandEventMissingEntity => seq!["command event "@, " is missing entity_id"@],
        ErrorKind::CommandEventMissingAction => seq!["command event "@, " is missing action"@],
        ErrorKind::NextEventIdTooLow => seq!["next_event_id must be positive and greater than every existing event id"@],
        ErrorKind::AccountKeyMismatch => seq!["account map key does not match account name: "@, " != "@, ""@],
        ErrorKind::AccountNameEmpty => seq!["account name must not be empty"@],
        ErrorKind::AccountKeyNotHex => seq!["account "@, " public key is not hex"@],
        ErrorKind::AccountKeyLength => seq!["account "@, " public key must be 32 bytes"@],
        ErrorKind::ContractNameEmpty => seq!["contract name must not be empty"@],
        ErrorKind::ContractKeyVersionZero => seq!["contract "@, " version must be greater than zero"@],
        ErrorKind::ContractKeyMismatch => seq!["contract map key does not match name and version: "@, " != "@, ""@],
        ErrorKind::ContractHashMismatch => seq!["contract "@, " source hash does not match source"@],
        ErrorKind::EntityKeyMismatch => seq!["entity map key does not match entity id: "@, " != "@, ""@],
        ErrorKind::EntityOwnerMissing => seq!["entity "@, " owner account does not exist: "@, ""@],
        ErrorKind::EntityContractMissing => seq!["entity "@, " contract does not exist: "@, ""@],
        ErrorKind::NextEntityIdTooLow => seq!["next_entity_id must be greater than every existing entity id"@],
        ErrorKind::ProgressKeyMismatch => seq!["quest progress key does not match actor and quest: "@, " != "@, ""@],
        ErrorKind::ProgressActorMissing => seq!["quest progress actor does not exist: "@, ""@],
        ErrorKind::ProgressActorNotActor => seq!["quest progress entity is not an actor: "@, ""@],
        ErrorKind::ProgressQuestMissing => seq!["quest progress definition does not exist: "@, ""@],
        ErrorKind::ReceiptKeyMismatch => seq!["receipt map key does not match transaction id: "@, " != "@, ""@],
        ErrorKind::ReceiptAccountMissing => seq!["receipt account does not exist: "@, ""@],
        ErrorKind::HashNotHex => seq![""@, " is not hex"@],
        ErrorKind::HashLength => seq![""@, " must be 32 bytes"@],
        ErrorKind::ZoneHasLocation => seq!["zone "@, " must not have a location: "@, ""@],
        ErrorKind::ActorLocationMissing => seq!["actor "@, " location does not exist: "@, ""@],
        ErrorKind::ActorLocationNotZone => seq!["actor "@, " location is not a zone: "@, ""@],
        ErrorKind::ItemLocationMissing => seq!["item "@, " location does not exist: "@, ""@],
        ErrorKind::ItemLocationInvalid => seq!["item "@, " location is neither a zone nor an actor: "@, ""@],
        ErrorKind::InventoryOwnerMissing => seq!["inventory owner does not exist: "@, ""@],
        ErrorKind::InventoryOwnerNotActor => seq!["inventory owner is not an actor: "@, ""@],
        ErrorKind::InventoryDuplicateItem => seq!["inventory "@, " contains duplicate item: "@, ""@],
        ErrorKind::InventoryItemMissing => seq!["inventory "@, " item does not exist: "@, ""@],
        ErrorKind::InventoryNotItem => seq!["inventory "@, " entity is not an item: "@, ""@],
        ErrorKind::ItemHeldTwice => seq!["item "@, " is held by multiple actors: "@, " and "@, ""@],
        ErrorKind::InventoryLocationMismatch => seq!["item "@, " location does not match inventory owner "@, ""@],
        ErrorKind::ItemMissingFromInventory => seq!["item "@, " located at actor "@, " is missing from inventory"@],
        ErrorKind::QuestKeyMismatch => seq!["quest map key does not match definition id: "@, " != "@, ""@],
        ErrorKind::QuestIdEmpty => seq!["quest id must not be empty"@],
        ErrorKind::QuestGiverMissing => seq!["quest "@, " giver does not exist: "@, ""@],
        ErrorKind::QuestGiverNotActor => seq!["quest "@, " giver is not an actor"@],
        ErrorKind::QuestSelfPrerequisite => seq!["quest "@, " cannot require itself"@],
        ErrorKind::QuestDuplicatePrerequisite => seq!["quest "@, " has duplicate prerequisite: "@, ""@],
        ErrorKind::QuestPrerequisiteMissing => seq!["quest "@, " prerequisite does not exist: "@, ""@],
        ErrorKind::QuestCycle => seq!["quest prerequisite cycle detected at: "@, ""@],
        ErrorKind::VersionZero => seq!["contract version must be greater than zero"@],
        ErrorKind::ContractVersionExists => seq!["contract version already exists: "@, ""@],
        ErrorKind::AccountNotFound => seq!["account not found: "@, ""@],
        ErrorKind::ContractNotFound => seq!["contract not found: "@, ""@],
        ErrorKind::EntityNotFound => seq!["entity not found: "@, ""@],
        ErrorKind::EntityHasNoContract => seq!["entity has no contract"@],
        ErrorKind::InvalidNonce => seq!["invalid nonce: expected "@, ", got "@, ""@],
        ErrorKind::SignatureRequired => seq!["signature required"@],
        ErrorKind::UnexpectedSignature => seq!["signature provided for account without public key"@],
        ErrorKind::NotEntityOwner => seq!["account is not the entity owner"@],
        ErrorKind::PublicKeyFormat => seq!["public key must be 32-byte hex"@],
        ErrorKind::InvalidPublicKey => seq!["invalid public key"@],
        ErrorKind::SignatureFormat => seq!["signature must be 64-byte hex"@],
        ErrorKind::InvalidSignature => seq!["invalid transaction signature"@],
        ErrorKind::ReadOnlyQuery => seq!["query is read-only"@],
        ErrorKind::TargetZoneNotFound => seq!["target zone not found"@],
        ErrorKind::TargetNotZone => seq!["target is not a zone"@],
        ErrorKind::ActorNotFound => seq!["actor not found"@],
        ErrorKind::NotAnActor => seq!["entity is not an actor"@],
        ErrorKind::CallerNotFound => seq!["caller entity not found"@],
        ErrorKind::ItemNotFound => seq!["item not found"@],
        ErrorKind::ItemNotHere => seq!["item is not here"@],
        ErrorKind::ItemAlreadyHeld => seq!["item is already in an inventory"@],
        ErrorKind::ActorHasNoLocation => seq!["actor has no location"@],
        ErrorKind::ItemNotInInventory => seq!["item is not in inventory"@],
        ErrorKind::TransferToSelf => seq!["cannot transfer item to self"@],
        ErrorKind::TargetActorNotFound => seq!["target actor not found"@],
        ErrorKind::TransferTargetNotActor => seq!["transfer target is not an actor"@],
        ErrorKind::TargetActorNotHere => seq!["target actor is not here"@],
        ErrorKind::InventoryInconsistent => seq!["inventory item location is inconsistent"@],
        ErrorKind::TargetEntityNotFound => seq!["entity not found"@],
        ErrorKind::CallerNotOwner => seq!["caller is not the entity owner"@],
        ErrorKind::LocationNotFound => seq!["location not found"@],
        ErrorKind::UnknownEntityKind => seq!["unknown entity kind"@],
        ErrorKind::EntityDataNotObject => seq!["entity data must be an object"@],
        ErrorKind::EventKindRequired => seq!["event kind must not be empty"@],
        ErrorKind::EventKindReserved => seq!["event kind is reserved"@],
        ErrorKind::EventEntityNotFound => seq!["event entity not found"@],
        ErrorKind::QuestNotFound => seq!["quest not found"@],
        ErrorKind::QuestGiverMismatch => seq!["quest giver does not match"@],
        ErrorKind::PrerequisiteIncomplete => seq!["quest prerequisite is not completed: "@, ""@],
        ErrorKind::CallerHasNoLocation => seq!["caller entity has no location"@],
        ErrorKind::QuestGiverNotFound => seq!["quest giver not found"@],
        ErrorKind::QuestGiverNotHere => seq!["quest giver is not here"@],
        ErrorKind::QuestAlreadyAccepted => seq!["quest already accepted"@],
        ErrorKind::QuestAlreadyCompleted => seq!["quest already completed"@],
        ErrorKind::QuestNotAccepted => seq!["quest is not accepted"@],
        ErrorKind::WrongCompletionZone => seq!["return to "@, " to complete the quest"@],
        ErrorKind::RequiredItemMissing => seq!["the "@, " is required"@],
        ErrorKind::OwnerAccountNotFound => seq!["owner account not found"@],
        ErrorKind::BalanceOverflow => seq!["balance overflow"@],
        ErrorKind::LegacyInventoryNotArray => seq!["legacy inventory for actor "@, " must be an array"@],
        ErrorKind::LegacyInventoryNonInteger => seq!["legacy inventory for actor "@, " contains a non-integer item at index "@, ""@],
        ErrorKind::LegacyInventoryDuplicate => seq!["legacy inventory for actor "@, " contains duplicate item: "@, ""@],
        ErrorKind::LegacyInventoryMissingItem => seq!["legacy inventory for actor "@, " references missing item: "@, ""@],
        ErrorKind::LegacyInventoryNonItem => seq!["legacy inventory for actor "@, " references non-item entity: "@, ""@],
        ErrorKind::LegacyItemClaimedTwice => seq!["legacy item "@, " is claimed by multiple actors: "@, " and "@, ""@],
        ErrorKind::HeadOverflow => seq!["world head overflow during inventory migration"@],
        ErrorKind::DemoNeedsEmptyWorld => seq!["demo requires an empty world"@],
        ErrorKind::DemoContractMissing => seq!["existing world does not contain the demo contract"@],
        ErrorKind::DemoVillageMissing => seq!["demo Village is missing"@],
        ErrorKind::DemoRuinsMissing => seq!["demo Ruins are missing"@],
        ErrorKind::DemoMiraMissing => seq!["demo Mira is missing"@],
        ErrorKind::FormatVersionInvalid => seq!["snapshot format_version must be a positive integer"@],
        ErrorKind::UnsupportedFormat => seq!["unsupported snapshot format version: "@, "; no migration from version "@, " to "@, ""@],
        ErrorKind::AmbiguousMigration => seq!["ambiguous snapshot migrations from version "@, ""@],
        ErrorKind::InvalidMigration => seq!["invalid snapshot migration: "@, " to "@, ""@],
        ErrorKind::RootMismatch => seq!["snapshot state root mismatch: expected "@, ", got "@, ""@],
        ErrorKind::SnapshotNotObject => seq!["snapshot must be an object"@],
        ErrorKind::SnapshotStateNotObject => seq!["snapshot state must be an object"@],
        ErrorKind::SchemaMissingField => seq!["snapshot format version 2 "@, " is missing field: "@, ""@],
        ErrorKind::SchemaUnknownField => seq!["snapshot format version 2 "@, " contains unknown field: "@, ""@],
        ErrorKind::SchemaLegacyInventory => seq!["snapshot format version 2 contains legacy actor inventory data"@],
        ErrorKind::SchemaEntriesNotObject => seq!["snapshot "@, "s must be an object"@],
        ErrorKind::SchemaEntryNotObject => seq!["snapshot "@, " "@, " must be an object"@],
        ErrorKind::SchemaEntriesNotArray => seq!["snapshot "@, "s must be an array"@],
        ErrorKind::AccountExists => seq!["account already exists: "@, ""@],
        ErrorKind::ParamRequired => seq![""@, " required"@],
        ErrorKind::UnknownMethod => seq!["unknown method: "@, ""@],
        ErrorKind::UnsignedCommandsDisabled => seq!["unsigned commands are disabled"@],
        ErrorKind::UnsignedTransactionsDisabled => seq!["unsigned transactions are disabled"@],
    }
}

/// The text of a context.
pub open spec fn context_text(c: Context) -> Seq<char> {
    match c {
        Context::CoreReferences => "validate core references"@,
        Context::EventLog => "validate event log"@,
        Context::EntityLocations => "validate entity locations"@,
        Context::QuestDefinitions => "validate quest definitions"@,
        Context::Inventories => "validate inventories"@,
        Context::CurrentSnapshotState => "validate current snapshot state"@,
        Context::WorldStateCheck => "validate world state"@,
        Context::CurrentSnapshotSchema => "validate current snapshot schema"@,
        Context::MigratedLocations => "validate locations after legacy inventory migration"@,
        Context::MigratedInventories => "validate inventories after legacy inventory migration"@,
    }
}

/// The concatenation of a sequence of texts.
pub open spec fn concat(s: Seq<Seq<char>>) -> Seq<char>
    decreases s.len(),
{
    if s.len() == 0 {
        Seq::empty()
    } else {
        concat(s.drop_last()) + s.last()
    }
}

/// The i-th mentioned value, or nothing when there are fewer.
pub open spec fn arg_at(args: Seq<Seq<char>>, i: int) -> Seq<char> {
    if 0 <= i < args.len() {
        args[i]
    } else {
        Seq::empty()
    }
}

/// The pieces with the values between them.
pub open spec fn fill(pieces: Seq<Seq<char>>, args: Seq<Seq<char>>) -> Seq<char> {
    concat(Seq::new(pieces.len(), |i: int| if i + 1 < pieces.len() {
        pieces[i] + arg_at(args, i)
    } else {
        pieces[i]
    }))
}

/// The message of an error, without its context.
pub open spec fn base_text(e: ErrorV) -> Seq<char> {
    fill(template(e.kind), e.args)
}

/// The message an error shows: its context when it has one, its own message otherwise.
pub open spec fn message_text(e: ErrorV) -> Seq<char> {
    match e.context {
        Some(c) => context_text(c),
        None => base_text(e),
    }
}

/// The full message: the context, a colon, then the error's own message.
pub open spec fn chain_text(e: ErrorV) -> Seq<char> {
    match e.context {
        Some(c) => context_text(c) + ": "@ + base_text(e),
        None => base_text(e),
    }
}

pub open spec fn strs_view(v: Seq<&str>) -> Seq<Seq<char>> {
    v.map_values(|s: &str| s@)
}

fn pieces(k: ErrorKind) -> (r: Vec<&'static str>)
    ensures
        strs_view(r@) == template(k),
{
    let mut v: Vec<&'static str> = Vec::new();
    match k {
        ErrorKind::EventIdOrder => { v.push("event ids must be positive and strictly increasing: "); v.push(" after "); v.push(""); },
        ErrorKind::EventHeadExceedsWorld => { v.push("event "); v.push(" head exceeds world head: "); v.push(" > "); v.push(""); },
        ErrorKind::EventKindEmpty => { v.push("event "); v.push(" kind must not be empty"); },
        ErrorKind::TxEventMissingTxId => { v.push("transaction event "); v.push(" is missing tx_id"); },
        ErrorKind::TxEventMissingFrom => { v.push("transaction event "); v.push(" is missing from"); },
        ErrorKind::TxEventMissingNonce => { v.push("transaction event "); v.push(" is missing nonce"); },
        ErrorKind::TxEventReceiptMissing => { v.push("transaction event "); v.push(" receipt does not exist: "); v.push(""); },
        ErrorKind::TxEventReceiptMismatch => { v.push("transaction event "); v.push(" does not match receipt "); v.push(""); },
        ErrorKind::TxEventDuplicate => { v.push("duplicate transaction event for receipt: "); v.push(""); },
        ErrorKind::EntityEventMissingEntity => { v.push("entity changed event "); v.push(" is missing entity_id"); },
        ErrorKind::EntityEventInvalidChange => { v.push("entity changed event "); v.push(" has invalid change"); },
        ErrorKind::QuestEventMissingActor => { v.push("quest progress event "); v.push(" is missing actor entity_id"); },
        ErrorKind::QuestEventMissingQuest => { v.push("quest progress event "); v.push(" is missing quest_id"); },
        ErrorKind::QuestEventInvalidStatus => { v.push("quest progress event "); v.push(" has invalid status"); },
        ErrorKind::CommandEventMissingEntity => { v.push("command event "); v.push(" is missing entity_id"); },
        ErrorKind::CommandEventMissingAction => { v.push("command event "); v.push(" is missing action"); },
        ErrorKind::NextEventIdTooLow => { v.push("next_event_id must be positive and greater than every existing event id"); },
        ErrorKind::AccountKeyMismatch => { v.push("account map key does not match account name: "); v.push(" != "); v.push(""); },
        ErrorKind::AccountNameEmpty => { v.push("account name must not be empty"); },
        ErrorKind::AccountKeyNotHex => { v.push("account "); v.push(" public key is not hex"); },
        ErrorKind::AccountKeyLength => { v.push("account "); v.push(" public key must be 32 bytes"); },
        ErrorKind::ContractNameEmpty => { v.push("contract name must not be empty"); },
        ErrorKind::ContractKeyVersionZero => { v.push("contract "); v.push(" version must be greater than zero"); },
        ErrorKind::ContractKeyMismatch => { v.push("contract map key does not match name and version: "); v.push(" != "); v.push(""); },
        ErrorKind::ContractHashMismatch => { v.push("contract "); v.push(" source hash does not match source"); },
        ErrorKind::EntityKeyMismatch => { v.push("entity map key does not match entity id: "); v.push(" != "); v.push(""); },
        ErrorKind::EntityOwnerMissing => { v.push("entity "); v.push(" owner account does not exist: "); v.push(""); },
        ErrorKind::EntityContractMissing => { v.push("entity "); v.push(" contract does not exist: "); v.push(""); },
        ErrorKind::NextEntityIdTooLow => { v.push("next_entity_id must be greater than every existing entity id"); },
        ErrorKind::ProgressKeyMismatch => { v.push("quest progress key does not match actor and quest: "); v.push(" != "); v.push(""); },
        ErrorKind::ProgressActorMissing => { v.push("quest progress actor does not exist: "); v.push(""); },
        ErrorKind::ProgressActorNotActor => { v.push("quest progress entity is not an actor: "); v.push(""); },
        ErrorKind::ProgressQuestMissing => { v.push("quest progress definition does not exist: "); v.push(""); },
        ErrorKind::ReceiptKeyMismatch => { v.push("receipt map key does not match transaction id: "); v.push(" != "); v.push(""); },
        ErrorKind::ReceiptAccountMissing => { v.push("receipt account does not exist: "); v.push(""); },
        ErrorKind::HashNotHex => { v.push(""); v.push(" is not hex"); },
        ErrorKind::HashLength => { v.push(""); v.push(" must be 32 bytes"); },
        ErrorKind::ZoneHasLocation => { v.push("zone "); v.push(" must not have a location: "); v.push(""); },
        ErrorKind::ActorLocationMissing => { v.push("actor "); v.push(" location does not exist: "); v.push(""); },
        ErrorKind::ActorLocationNotZone => { v.push("actor "); v.push(" location is not a zone: "); v.push(""); },
        ErrorKind::ItemLocationMissing => { v.push("item "); v.push(" location does not exist: "); v.push(""); },
        ErrorKind::ItemLocationInvalid => { v.push("item "); v.push(" location is neither a zone nor an actor: "); v.push(""); },
        ErrorKind::InventoryOwnerMissing => { v.push("inventory owner does not exist: "); v.push(""); },
        ErrorKind::InventoryOwnerNotActor => { v.push("inventory owner is not an actor: "); v.push(""); },
        ErrorKind::InventoryDuplicateItem => { v.push("inventory "); v.push(" contains duplicate item: "); v.push(""); },
        ErrorKind::InventoryItemMissing => { v.push("inventory "); v.push(" item does not exist: "); v.push(""); },
        ErrorKind::InventoryNotItem => { v.push("inventory "); v.push(" entity is not an item: "); v.push(""); },
        ErrorKind::ItemHeldTwice => { v.push("item "); v.push(" is held by multiple actors: "); v.push(" and "); v.push(""); },
        ErrorKind::InventoryLocationMismatch => { v.push("item "); v.push(" location does not match inventory owner "); v.push(""); },
        ErrorKind::ItemMissingFromInventory => { v.push("item "); v.push(" located at actor "); v.push(" is missing from inventory"); },
        ErrorKind::QuestKeyMismatch => { v.push("quest map key does not match definition id: "); v.push(" != "); v.push(""); },
        ErrorKind::QuestIdEmpty => { v.push("quest id must not be empty"); },
        ErrorKind::QuestGiverMissing => { v.push("quest "); v.push(" giver does not exist: "); v.push(""); },
        ErrorKind::QuestGiverNotActor => { v.push("quest "); v.push(" giver is not an actor"); },
        ErrorKind::QuestSelfPrerequisite => { v.push("quest "); v.push(" cannot require itself"); },
        ErrorKind::QuestDuplicatePrerequisite => { v.push("quest "); v.push(" has duplicate prerequisite: "); v.push(""); },
        ErrorKind::QuestPrerequisiteMissing => { v.push("quest "); v.push(" prerequisite does not exist: "); v.push(""); },
        ErrorKind::QuestCycle => { v.push("quest prerequisite cycle detected at: "); v.push(""); },
        ErrorKind::VersionZero => { v.push("contract version must be greater than zero"); },
        ErrorKind::ContractVersionExists => { v.push("contract version already exists: "); v.push(""); },
        ErrorKind::AccountNotFound => { v.push("account not found: "); v.push(""); },
        ErrorKind::ContractNotFound => { v.push("contract not found: "); v.push(""); },
        ErrorKind::EntityNotFound => { v.push("entity not found: "); v.push(""); },
        ErrorKind::EntityHasNoContract => { v.push("entity has no contract"); },
        ErrorKind::InvalidNonce => { v.push("invalid nonce: expected "); v.push(", got "); v.push(""); },
        ErrorKind::SignatureRequired => { v.push("signature required"); },
        ErrorKind::UnexpectedSignature => { v.push("signature provided for account without public key"); },
        ErrorKind::NotEntityOwner => { v.push("account is not the entity owner"); },
        ErrorKind::PublicKeyFormat => { v.push("public key must be 32-byte hex"); },
        ErrorKind::InvalidPublicKey => { v.push("invalid public key"); },
        ErrorKind::SignatureFormat => { v.push("signature must be 64-byte hex"); },
        ErrorKind::InvalidSignature => { v.push("invalid transaction signature"); },
        ErrorKind::ReadOnlyQuery => { v.push("query is read-only"); },
        ErrorKind::TargetZoneNotFound => { v.push("target zone not found"); },
        ErrorKind::TargetNotZone => { v.push("target is not a zone"); },
        ErrorKind::ActorNotFound => { v.push("actor not found"); },
        ErrorKind::NotAnActor => { v.push("entity is not an actor"); },
        ErrorKind::CallerNotFound => { v.push("caller entity not found"); },
        ErrorKind::ItemNotFound => { v.push("item not found"); },
        ErrorKind::ItemNotHere => { v.push("item is not here"); },
        ErrorKind::ItemAlreadyHeld => { v.push("item is already in an inventory"); },
        ErrorKind::ActorHasNoLocation => { v.push("actor has no location"); },
        ErrorKind::ItemNotInInventory => { v.push("item is not in inventory"); },
        ErrorKind::TransferToSelf => { v.push("cannot transfer item to self"); },
        ErrorKind::TargetActorNotFound => { v.push("target actor not found"); },
        ErrorKind::TransferTargetNotActor => { v.push("transfer target is not an actor"); },
        ErrorKind::TargetActorNotHere => { v.push("target actor is not here"); },
        ErrorKind::InventoryInconsistent => { v.push("inventory item location is inconsistent"); },
        ErrorKind::TargetEntityNotFound => { v.push("entity not found"); },
        ErrorKind::CallerNotOwner => { v.push("caller is not the entity owner"); },
        ErrorKind::LocationNotFound => { v.push("location not found"); },
        ErrorKind::UnknownEntityKind => { v.push("unknown entity kind"); },
        ErrorKind::EntityDataNotObject => { v.push("entity data must be an object"); },
        ErrorKind::EventKindRequired => { v.push("event kind must not be empty"); },
        ErrorKind::EventKindReserved => { v.push("event kind is reserved"); },
        ErrorKind::EventEntityNotFound => { v.push("event entity not found"); },
        ErrorKind::QuestNotFound => { v.push("quest not found"); },
        ErrorKind::QuestGiverMismatch => { v.push("quest giver does not match"); },
        ErrorKind::PrerequisiteIncomplete => { v.push("quest prerequisite is not completed: "); v.push(""); },
        ErrorKind::CallerHasNoLocation => { v.push("caller entity has no location"); },
        ErrorKind::QuestGiverNotFound => { v.push("quest giver not found"); },
        ErrorKind::QuestGiverNotHere => { v.push("quest giver is not here"); },
        ErrorKind::QuestAlreadyAccepted => { v.push("quest already accepted"); },
        ErrorKind::QuestAlreadyCompleted => { v.push("quest already completed"); },
        ErrorKind::QuestNotAccepted => { v.push("quest is not accepted"); },
        ErrorKind::WrongCompletionZone => { v.push("return to "); v.push(" to complete the quest"); },
        ErrorKind::RequiredItemMissing => { v.push("the "); v.push(" is required"); },
        ErrorKind::OwnerAccountNotFound => { v.push("owner account not found"); },
        ErrorKind::BalanceOverflow => { v.push("balance overflow"); },
        ErrorKind::LegacyInventoryNotArray => { v.push("legacy inventory for actor "); v.push(" must be an array"); },
        ErrorKind::LegacyInventoryNonInteger => { v.push("legacy inventory for actor "); v.push(" contains a non-integer item at index "); v.push(""); },
        ErrorKind::LegacyInventoryDuplicate => { v.push("legacy inventory for actor "); v.push(" contains duplicate item: "); v.push(""); },
        ErrorKind::LegacyInventoryMissingItem => { v.push("legacy inventory for actor "); v.push(" references missing item: "); v.push(""); },
        ErrorKind::LegacyInventoryNonItem => { v.push("legacy inventory for actor "); v.push(" references non-item entity: "); v.push(""); },
        ErrorKind::LegacyItemClaimedTwice => { v.push("legacy item "); v.push(" is claimed by multiple actors: "); v.push(" and "); v.push(""); },
        ErrorKind::HeadOverflow => { v.push("world head overflow during inventory migration"); },
        ErrorKind::DemoNeedsEmptyWorld => { v.push("demo requires an empty world"); },
        ErrorKind::DemoContractMissing => { v.push("existing world does not contain the demo contract"); },
        ErrorKind::DemoVillageMissing => { v.push("demo Village is missing"); },
        ErrorKind::DemoRuinsMissing => { v.push("demo Ruins are missing"); },
        ErrorKind::DemoMiraMissing => { v.push("demo Mira is missing"); },
        ErrorKind::FormatVersionInvalid => { v.push("snapshot format_version must be a positive integer"); },
        ErrorKind::UnsupportedFormat => { v.push("unsupported snapshot format version: "); v.push("; no migration from version "); v.push(" to "); v.push(""); },
        ErrorKind::AmbiguousMigration => { v.push("ambiguous snapshot migrations from version "); v.push(""); },
        ErrorKind::InvalidMigration => { v.push("invalid snapshot migration: "); v.push(" to "); v.push(""); },
        ErrorKind::RootMismatch => { v.push("snapshot state root mismatch: expected "); v.push(", got "); v.push(""); },
        ErrorKind::SnapshotNotObject => { v.push("snapshot must be an object"); },
        ErrorKind::SnapshotStateNotObject => { v.push("snapshot state must be an object"); },
        ErrorKind::SchemaMissingField => { v.push("snapshot format version 2 "); v.push(" is missing field: "); v.push(""); },
        ErrorKind::SchemaUnknownField => { v.push("snapshot format version 2 "); v.push(" contains unknown field: "); v.push(""); },
        ErrorKind::SchemaLegacyInventory => { v.push("snapshot format version 2 contains legacy actor inventory data"); },
        ErrorKind::SchemaEntriesNotObject => { v.push("snapshot "); v.push("s must be an object"); },
        ErrorKind::SchemaEntryNotObject => { v.push("snapshot "); v.push(" "); v.push(" must be an object"); },
        ErrorKind::SchemaEntriesNotArray => { v.push("snapshot "); v.push("s must be an array"); },
        ErrorKind::AccountExists => { v.push("account already exists: "); v.push(""); },
        ErrorKind::ParamRequired => { v.push(""); v.push(" required"); },
        ErrorKind::UnknownMethod => { v.push("unknown method: "); v.push(""); },
        ErrorKind::UnsignedCommandsDisabled => { v.push("unsigned commands are disabled"); },
        ErrorKind::UnsignedTransactionsDisabled => { v.push("unsigned transactions are disabled"); },
    }
    assert(strs_view(v@) =~= template(k));
    v
}

fn context_str(c: Context) -> (r: &'static str)
    ensures
        r@ == context_text(c),
{
    match c {
        Context::CoreReferences => "validate core references",
        Context::EventLog => "validate event log",
        Context::EntityLocations => "validate entity locations",
        Context::QuestDefinitions => "validate quest definitions",
        Context::Inventories => "validate inventories",
        Context::CurrentSnapshotState => "validate current snapshot state",
        Context::WorldStateCheck => "validate world state",
        Context::CurrentSnapshotSchema => "validate current snapshot schema",
        Context::MigratedLocations => "validate locations after legacy inventory migration",
        Context::MigratedInventories => "validate inventories after legacy inventory migration",
    }
}

proof fn lemma_concat_push(s: Seq<Seq<char>>, x: Seq<char>)
    ensures
        concat(s.push(x)) == concat(s) + x,
{
    assert(s.push(x).drop_last() =~= s);
}

impl Error {
    /// An error of a kind with the values its message mentions.
    pub fn new(kind: ErrorKind, args: Vec<String>) -> (r: Error)
        ensures
            r@ == err(kind, args@.map_values(|s: String| s@)),
    {
        Error { kind, args, context: None }
    }

    /// An error of a kind whose message mentions no value.
    pub fn plain(kind: ErrorKind) -> (r: Error)
        ensures
            r@ == err(kind, Seq::empty()),
    {
        let r = Error { kind, args: Vec::new(), context: None };
        assert(r@.args =~= Seq::<Seq<char>>::empty());
        r
    }

    /// An error whose message mentions one value.
    pub fn one(kind: ErrorKind, a: String) -> (r: Error)
        ensures
            r@ == err(kind, seq![a@]),
    {
        let mut args: Vec<String> = Vec::new();
        args.push(a);
        let r = Error { kind, args, context: None };
        assert(r@.args =~= seq![a@]);
        r
    }

    /// An error whose message mentions two values.
    pub fn two(kind: ErrorKind, a: String, b: String) -> (r: Error)
        ensures
            r@ == err(kind, seq![a@, b@]),
    {
        let mut args: Vec<String> = Vec::new();
        args.push(a);
        args.push(b);
        let r = Error { kind, args, context: None };
        assert(r@.args =~= seq![a@, b@]);
        r
    }

    /// An error whose message mentions three values.
    pub fn three(kind: ErrorKind, a: String, b: String, c: String) -> (r: Error)
        ensures
            r@ == err(kind, seq![a@, b@, c@]),
    {
        let mut args: Vec<String> = Vec::new();
        args.push(a);
        args.push(b);
        args.push(c);
        let r = Error { kind, args, context: None };
        assert(r@.args =~= seq![a@, b@, c@]);
        r
    }

    /// The same error, reported by a check.
    pub fn with_context(self, c: Context) -> (r: Error)
        ensures
            r@ == in_context(self@, c),
    {
        Error { context: Some(c), ..self }
    }

    fn push_base(&self, out: &mut String)
        ensures
            final(out)@ == old(out)@ + base_text(self@),
    {
        let p = pieces(self.kind);
        let ghost tmpl = template(self.kind);
        let ghost args = self@.args;
        let ghost parts = Seq::new(tmpl.len(), |i: int| if i + 1 < tmpl.len() {
            tmpl[i] + arg_at(args, i)
        } else {
            tmpl[i]
        });
        let ghost start = out@;
        let mut i: usize = 0;
        while i < p.len()
            invariant
                i <= p@.len(),
                strs_view(p@) == tmpl,
                args == self@.args,
                parts.len() == tmpl.len(),
                forall|j: int| 0 <= j < parts.len() ==> #[trigger] parts[j] == if j + 1 < tmpl.len() {
                    tmpl[j] + arg_at(args, j)
                } else {
                    tmpl[j]
                },
                out@ == start + concat(parts.take(i as int)),
            decreases p.len() - i,
        {
            let ghost before = out@;
            push_str(out, p[i]);
            assert(p@[i as int]@ == tmpl[i as int]);
            if i + 1 < p.len() && i < self.args.len() {
                push_str(out, self.args[i].as_str());
            }
            proof {
                lemma_concat_push(parts.take(i as int), parts[i as int]);
                assert(parts.take(i + 1) =~= parts.take(i as int).push(parts[i as int]));
                assert(out@ =~= start + concat(parts.take(i + 1)));
            }
            i += 1;
        }
        assert(parts.take(p.len() as int) =~= parts);
    }

    /// The error's own message, without its context.
    pub fn base_message(&self) -> (r: String)
        ensures
            r@ == base_text(self@),
    {
        let mut out = String::new();
        self.push_base(&mut out);
        assert(out@ =~= base_text(self@));
        out
    }

    /// The message the error shows: its context when it has one, its own message otherwise.
    pub fn message(&self) -> (r: String)
        ensures
            r@ == message_text(self@),
    {
        match self.context {
            Some(c) => context_str(c).to_owned(),
            None => self.base_message(),
        }
    }

    /// The full message: the context, a colon, then the error's own message.
    pub fn chain_message(&self) -> (r: String)
        ensures
            r@ == chain_text(self@),
    {
        match self.context {
            Some(c) => {
                let mut out = context_str(c).to_owned();
                push_str(&mut out, ": ");
                self.push_base(&mut out);
                assert(out@ =~= chain_text(self@));
                out
            },
            None => self.base_message(),
        }
    }
}

} // verus!
