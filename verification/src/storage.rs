//! Snapshots of the world: format versions and the migrations between them,
//! the schema a current snapshot must follow, the markers of older schemas,
//! and the checks a decoded snapshot must pass.
use crate::error::{strs_view, err, first_error, in_context, lemma_first_error_end, lemma_first_error_start, lemma_first_error_step, outcome, Context, Error, ErrorKind, ErrorV};
use crate::events::event_errors;
use crate::inventory::{inventory_errors, positions};
use crate::json::{as_str, as_u64, first_member, lemma_items_view, lemma_members_view, items_view, member, members_view, Json, JsonV};
use crate::model::{WorldState, WorldV};
use crate::encode::{state_root, world_json};
use crate::quests::quest_errors;
use crate::text::{decimal, push_str, str_eq, u64_to_string};
use crate::validate::{location_errors, or_else, reference_errors};
use crate::world::world_errors;
use vstd::prelude::*;

verus! {

/// The snapshot format of older worlds.
pub const LEGACY_FORMAT_VERSION: u32 = 1;

/// The snapshot format this library writes.
pub const FORMAT_VERSION: u32 = 2;

/// A registered step from one snapshot format to a later one.
#[derive(Clone, Copy, Debug, PartialEq, Eq)]
pub struct FormatMigration {
    pub from_version: u32,
    pub to_version: u32,
    pub name: &'static str,
}

/// The mathematical form of a format migration.
pub struct FormatMigrationV {
    pub from_version: u32,
    pub to_version: u32,
    pub name: Seq<char>,
}

impl View for FormatMigration {
    type V = FormatMigrationV;

    open spec fn view(&self) -> FormatMigrationV {
        FormatMigrationV { from_version: self.from_version, to_version: self.to_version, name: self.name@ }
    }
}

/// The views of a list of migrations.
pub open spec fn migrations_view(s: Seq<FormatMigration>) -> Seq<FormatMigrationV> {
    s.map_values(|m: FormatMigration| m@)
}

/// The registered migrations: format 1 to format 2.
pub open spec fn registered_migrations() -> Seq<FormatMigrationV> {
    seq![FormatMigrationV { from_version: 1, to_version: 2, name: "snapshot_format_1_to_2"@ }]
}

/// The registered migrations.
pub fn format_migrations() -> (r: Vec<FormatMigration>)
    ensures
        migrations_view(r@) == registered_migrations(),
{
    let mut r: Vec<FormatMigration> = Vec::new();
    r.push(FormatMigration { from_version: LEGACY_FORMAT_VERSION, to_version: FORMAT_VERSION, name: "snapshot_format_1_to_2" });
    assert(migrations_view(r@) =~= registered_migrations());
    r
}

/// The migrations of a table that start at a version, in table order.
pub open spec fn starting_at(table: Seq<FormatMigrationV>, version: u32) -> Seq<FormatMigrationV>
    decreases table.len(),
{
    if table.len() == 0 {
        seq![]
    } else if table.last().from_version == version {
        starting_at(table.drop_last(), version).push(table.last())
    } else {
        starting_at(table.drop_last(), version)
    }
}

/// The migrations leading from `version` to `target`: exactly one
/// registered migration must start at each version on the way, and each
/// must move to a later version.
pub open spec fn migration_path(table: Seq<FormatMigrationV>, from: u32, version: u32, target: u32) -> Result<
    Seq<FormatMigrationV>,
    ErrorV,
>
    decreases u32::MAX - version,
{
    if version == target {
        Ok(seq![])
    } else {
        let c = starting_at(table, version);
        if c.len() == 0 {
            Err(
                err(
                    ErrorKind::UnsupportedFormat,
                    seq![decimal(from as nat), decimal(version as nat), decimal(target as nat)],
                ),
            )
        } else if c.len() > 1 {
            Err(err(ErrorKind::AmbiguousMigration, seq![decimal(version as nat)]))
        } else if c[0].to_version <= version {
            Err(err(ErrorKind::InvalidMigration, seq![decimal(version as nat), decimal(c[0].to_version as nat)]))
        } else {
            match migration_path(table, from, c[0].to_version, target) {
                Ok(rest) => Ok(seq![c[0]] + rest),
                Err(e) => Err(e),
            }
        }
    }
}

/// The registered migrations that start at a version.
fn migrations_from(table: &Vec<FormatMigration>, version: u32) -> (r: Vec<FormatMigration>)
    ensures
        migrations_view(r@) == starting_at(migrations_view(table@), version),
{
    let ghost t = migrations_view(table@);
    let mut r: Vec<FormatMigration> = Vec::new();
    let mut i: usize = 0;
    while i < table.len()
        invariant
            i <= table@.len(),
            t == migrations_view(table@),
            migrations_view(r@) == starting_at(t.take(i as int), version),
        decreases table.len() - i,
    {
        proof {
            assert(t.take(i + 1).drop_last() =~= t.take(i as int));
            assert(t.take(i + 1).last() == table@[i as int]@);
        }
        if table[i].from_version == version {
            let ghost before = r@;
            r.push(table[i]);
            assert(migrations_view(r@) =~= migrations_view(before).push(table@[i as int]@));
        }
        i += 1;
    }
    assert(t.take(table@.len() as int) =~= t);
    r
}

/// The registered migrations that lead from snapshot format `from` to `target`.
pub fn format_migration_path(from: u32, target: u32) -> (r: Result<Vec<FormatMigration>, Error>)
    ensures
        match migration_path(registered_migrations(), from, from, target) {
            Ok(p) => r matches Ok(v) && migrations_view(v@) == p,
            Err(e) => r matches Err(x) && x@ == e,
        },
{
    let table = format_migrations();
    let ghost t = registered_migrations();
    let mut version = from;
    let mut path: Vec<FormatMigration> = Vec::new();
    while version != target
        invariant
            migrations_view(table@) == t,
            t == registered_migrations(),
            migration_path(t, from, from, target) == match migration_path(t, from, version, target) {
                Ok(rest) => Ok(migrations_view(path@) + rest),
                Err(e) => Err(e),
            },
        decreases u32::MAX - version,
    {
        let candidates = migrations_from(&table, version);
        if candidates.len() == 0 {
            return Err(Error::three(ErrorKind::UnsupportedFormat, u64_to_string(from as u64), u64_to_string(version as u64), u64_to_string(target as u64)));
        }
        if candidates.len() > 1 {
            return Err(Error::one(ErrorKind::AmbiguousMigration, u64_to_string(version as u64)));
        }
        let migration = candidates[0];
        assert(migrations_view(candidates@)[0] == migration@);
        if migration.to_version <= version {
            return Err(Error::two(ErrorKind::InvalidMigration, u64_to_string(version as u64), u64_to_string(migration.to_version as u64)));
        }
        let ghost before = path@;
        path.push(migration);
        proof {
            assert(migrations_view(path@) =~= migrations_view(before).push(migration@));
            let rest = migration_path(t, from, migration.to_version, target);
            if rest is Ok {
                assert(migrations_view(before) + (seq![migration@] + rest->Ok_0) =~= migrations_view(path@) + rest->Ok_0);
            }
        }
        version = migration.to_version;
    }
    assert(migrations_view(path@) + Seq::<FormatMigrationV>::empty() =~= migrations_view(path@));
    Ok(path)
}

// ----------------------------------------------------------------------
// The current schema
// ----------------------------------------------------------------------

/// Whether an object has a member with the name.
pub open spec fn has_member(m: Seq<(Seq<char>, JsonV)>, k: Seq<char>) -> bool {
    exists|i: int| 0 <= i < m.len() && #[trigger] m[i].0 == k
}

pub open spec fn missing_field_check(m: Seq<(Seq<char>, JsonV)>, label: Seq<char>) -> spec_fn(Seq<char>) -> Option<ErrorV> {
    |f: Seq<char>|
        if has_member(m, f) {
            None
        } else {
            Some(err(ErrorKind::SchemaMissingField, seq![label, f]))
        }
}

pub open spec fn unknown_field_check(fields: Seq<Seq<char>>, label: Seq<char>) -> spec_fn((Seq<char>, JsonV)) -> Option<ErrorV> {
    |e: (Seq<char>, JsonV)|
        if fields.contains(e.0) {
            None
        } else {
            Some(err(ErrorKind::SchemaUnknownField, seq![label, e.0]))
        }
}

/// The error of an object that must have exactly the given fields: a
/// missing field, in the given order, then an unknown one, in member order.
pub open spec fn fields_error(m: Seq<(Seq<char>, JsonV)>, label: Seq<char>, fields: Seq<Seq<char>>) -> Option<ErrorV> {
    or_else(first_error(fields, missing_field_check(m, label)), first_error(m, unknown_field_check(fields, label)))
}

/// The label of one entry of a collection: its kind and its key.
pub open spec fn entry_label(label: Seq<char>, key: Seq<char>) -> Seq<char> {
    label + " "@ + key
}

pub open spec fn map_entry_check(label: Seq<char>, fields: Seq<Seq<char>>) -> spec_fn((Seq<char>, JsonV)) -> Option<ErrorV> {
    |e: (Seq<char>, JsonV)|
        match e.1 {
            JsonV::Object(m) => fields_error(m, entry_label(label, e.0), fields),
            _ => Some(err(ErrorKind::SchemaEntryNotObject, seq![label, e.0])),
        }
}

/// The error of a map whose entries must be objects with exactly the given fields.
pub open spec fn map_entries_error(v: Option<JsonV>, label: Seq<char>, fields: Seq<Seq<char>>) -> Option<ErrorV> {
    match v {
        Some(JsonV::Object(m)) => first_error(m, map_entry_check(label, fields)),
        _ => Some(err(ErrorKind::SchemaEntriesNotObject, seq![label])),
    }
}

pub open spec fn array_entry_check(items: Seq<JsonV>, label: Seq<char>, fields: Seq<Seq<char>>) -> spec_fn(int) -> Option<ErrorV> {
    |k: int|
        match items[k] {
            JsonV::Object(m) => fields_error(m, entry_label(label, decimal(k as nat)), fields),
            _ => Some(err(ErrorKind::SchemaEntryNotObject, seq![label, decimal(k as nat)])),
        }
}

/// The error of an array whose entries must be objects with exactly the given fields.
pub open spec fn array_entries_error(v: Option<JsonV>, label: Seq<char>, fields: Seq<Seq<char>>) -> Option<ErrorV> {
    match v {
        Some(JsonV::Array(items)) => first_error(positions(items.len()), array_entry_check(items, label, fields)),
        _ => Some(err(ErrorKind::SchemaEntriesNotArray, seq![label])),
    }
}

/// The world state inside a snapshot: its `state` member, or the whole
/// value when there is none.
pub open spec fn snapshot_state(v: JsonV) -> JsonV {
    match member(v, "state"@) {
        Some(s) => s,
        None => v,
    }
}

/// Whether an entity's JSON is an actor with `inventory` data.
pub open spec fn legacy_actor(e: JsonV) -> bool {
    &&& match member(e, "kind"@) {
        Some(k) => as_str(k) == Some("actor"@),
        None => false,
    }
    &&& match member(e, "data"@) {
        Some(d) => member(d, "inventory"@) is Some,
        None => false,
    }
}

/// Whether some actor of a snapshot keeps its inventory in its data.
pub open spec fn contains_legacy_inventory(v: JsonV) -> bool {
    match member(snapshot_state(v), "entities"@) {
        Some(JsonV::Object(es)) => exists|i: int| 0 <= i < es.len() && legacy_actor(#[trigger] es[i].1),
        _ => false,
    }
}

/// Whether some quest of a snapshot has no giver field.
pub open spec fn missing_quest_giver(v: JsonV) -> bool {
    match member(snapshot_state(v), "quests"@) {
        Some(JsonV::Object(qs)) => exists|i: int| 0 <= i < qs.len() && member(#[trigger] qs[i].1, "giver_entity_id"@) is None,
        _ => false,
    }
}

pub open spec fn envelope_fields() -> Seq<Seq<char>> {
    seq!["format_version"@, "state_root"@, "state"@]
}

pub open spec fn state_fields() -> Seq<Seq<char>> {
    seq![
        "accounts"@,
        "entities"@,
        "contracts"@,
        "receipts"@,
        "quests"@,
        "quest_progress"@,
        "inventories"@,
        "events"@,
        "next_event_id"@,
        "next_entity_id"@,
        "head"@,
    ]
}

pub open spec fn account_fields() -> Seq<Seq<char>> {
    seq!["name"@, "public_key"@, "nonce"@, "balance"@]
}

pub open spec fn entity_fields() -> Seq<Seq<char>> {
    seq!["id"@, "kind"@, "owner"@, "location"@, "contract"@, "data"@]
}

pub open spec fn contract_fields() -> Seq<Seq<char>> {
    seq!["name"@, "version"@, "source"@, "source_hash"@, "status"@]
}

pub open spec fn receipt_fields() -> Seq<Seq<char>> {
    seq!["tx_id"@, "from"@, "nonce"@, "ok"@, "messages"@, "result"@, "state_root"@]
}

pub open spec fn quest_fields() -> Seq<Seq<char>> {
    seq![
        "id"@,
        "title"@,
        "giver_entity_id"@,
        "prerequisite_quest_ids"@,
        "required_item"@,
        "completion_zone"@,
        "reward_balance"@,
        "consume_required_item"@,
    ]
}

pub open spec fn progress_fields() -> Seq<Seq<char>> {
    seq!["quest_id"@, "actor_id"@, "status"@]
}

pub open spec fn event_fields() -> Seq<Seq<char>> {
    seq!["id"@, "head"@, "kind"@, "entity_id"@, "data"@]
}

/// The collections of the state after its own fields and the inventory marker.
pub open spec fn state_collections_error(st: JsonV) -> Option<ErrorV> {
    or_else(
        map_entries_error(member(st, "accounts"@), "account"@, account_fields()),
        or_else(
            map_entries_error(member(st, "entities"@), "entity"@, entity_fields()),
            or_else(
                map_entries_error(member(st, "contracts"@), "contract"@, contract_fields()),
                or_else(
                    map_entries_error(member(st, "receipts"@), "receipt"@, receipt_fields()),
                    or_else(
                        map_entries_error(member(st, "quests"@), "quest"@, quest_fields()),
                        or_else(
                            map_entries_error(member(st, "quest_progress"@), "quest progress"@, progress_fields()),
                            array_entries_error(member(st, "events"@), "event"@, event_fields()),
                        ),
                    ),
                ),
            ),
        ),
    )
}

/// The first violation of the current snapshot schema: an object envelope
/// with exactly its fields, an object state with exactly its fields, no
/// actor inventory in entity data, and every record with exactly its fields.
pub open spec fn current_schema_error(v: JsonV) -> Option<ErrorV> {
    match v {
        JsonV::Object(env) => or_else(
            fields_error(env, "envelope"@, envelope_fields()),
            match first_member(env, "state"@) {
                Some(JsonV::Object(st)) => or_else(
                    fields_error(st, "state"@, state_fields()),
                    if contains_legacy_inventory(v) {
                        Some(err(ErrorKind::SchemaLegacyInventory, seq![]))
                    } else {
                        state_collections_error(JsonV::Object(st))
                    },
                ),
                _ => Some(err(ErrorKind::SnapshotStateNotObject, seq![])),
            },
        ),
        _ => Some(err(ErrorKind::SnapshotNotObject, seq![])),
    }
}


/// Whether an object has a member with the name.
fn has_field(m: &Vec<(String, Json)>, name: &str) -> (r: bool)
    ensures
        r == has_member(members_view(m@), name@),
{
    proof {
        lemma_members_view(m@);
    }
    let mut i: usize = 0;
    while i < m.len()
        invariant
            i <= m@.len(),
            members_view(m@).len() == m@.len(),
            forall|k: int| 0 <= k < m@.len() ==> #[trigger] members_view(m@)[k] == (m@[k].0@, m@[k].1@),
            forall|k: int| 0 <= k < i ==> members_view(m@)[k].0 != name@,
        decreases m.len() - i,
    {
        if str_eq(m[i].0.as_str(), name) {
            assert(members_view(m@)[i as int].0 == name@);
            return true;
        }
        i += 1;
    }
    false
}

/// Whether a name is one of the fields.
fn is_field(fields: &[&str], name: &str) -> (r: bool)
    ensures
        r == strs_view(fields@).contains(name@),
{
    let ghost names = strs_view(fields@);
    let mut i: usize = 0;
    while i < fields.len()
        invariant
            i <= fields@.len(),
            names == strs_view(fields@),
            forall|k: int| 0 <= k < i ==> names[k] != name@,
        decreases fields.len() - i,
    {
        if str_eq(fields[i], name) {
            assert(names[i as int] == name@);
            return true;
        }
        i += 1;
    }
    false
}

/// Checks that an object has exactly the given fields.
fn require_object_fields(m: &Vec<(String, Json)>, label: &str, fields: &[&str]) -> (r: Result<(), Error>)
    ensures
        outcome(fields_error(members_view(m@), label@, strs_view(fields@)), r),
{
    let ghost mv = members_view(m@);
    let ghost fv = strs_view(fields@);
    let ghost f = missing_field_check(mv, label@);
    let ghost g = unknown_field_check(fv, label@);
    proof {
        lemma_members_view(m@);
        lemma_first_error_start(fv, f);
    }
    let mut i: usize = 0;
    while i < fields.len()
        invariant
            i <= fields@.len(),
            fv == strs_view(fields@),
            mv == members_view(m@),
            f == missing_field_check(mv, label@),
            first_error(fv, f) == first_error(fv.skip(i as int), f),
        decreases fields.len() - i,
    {
        proof {
            lemma_first_error_step(fv, f, i as int);
        }
        if !has_field(m, fields[i]) {
            return Err(Error::two(ErrorKind::SchemaMissingField, label.to_owned(), fields[i].to_owned()));
        }
        i += 1;
    }
    proof {
        lemma_first_error_end(fv, f);
        lemma_first_error_start(mv, g);
    }
    let mut j: usize = 0;
    while j < m.len()
        invariant
            j <= m@.len(),
            fv == strs_view(fields@),
            mv == members_view(m@),
            mv.len() == m@.len(),
            forall|k: int| 0 <= k < m@.len() ==> #[trigger] mv[k] == (m@[k].0@, m@[k].1@),
            g == unknown_field_check(fv, label@),
            f == missing_field_check(mv, label@),
            first_error(fv, f) is None,
            first_error(mv, g) == first_error(mv.skip(j as int), g),
        decreases m.len() - j,
    {
        proof {
            lemma_first_error_step(mv, g, j as int);
        }
        if !is_field(fields, m[j].0.as_str()) {
            return Err(Error::two(ErrorKind::SchemaUnknownField, label.to_owned(), m[j].0.clone()));
        }
        j += 1;
    }
    proof {
        lemma_first_error_end(mv, g);
    }
    Ok(())
}

/// The label of a collection entry.
fn entry_label_of(label: &str, key: &str) -> (r: String)
    ensures
        r@ == entry_label(label@, key@),
{
    let mut r = label.to_owned();
    push_str(&mut r, " ");
    push_str(&mut r, key);
    r
}

/// Checks a map whose entries must be objects with exactly the given fields.
#[verifier::loop_isolation(false)]
fn require_map_entry_fields(entries: Option<&Json>, label: &str, fields: &[&str]) -> (r: Result<(), Error>)
    ensures
        outcome(
            map_entries_error(
                match entries {
                    Some(j) => Some(j@),
                    None => None,
                },
                label@,
                strs_view(fields@),
            ),
            r,
        ),
{
    let m = match entries {
        Some(Json::Object(m)) => m,
        _ => {
            return Err(Error::one(ErrorKind::SchemaEntriesNotObject, label.to_owned()));
        },
    };
    let ghost mv = members_view(m@);
    let ghost f = map_entry_check(label@, strs_view(fields@));
    let ghost expected = map_entries_error(
        match entries {
            Some(j) => Some(j@),
            None => None,
        },
        label@,
        strs_view(fields@),
    );
    proof {
        lemma_members_view(m@);
        lemma_first_error_start(mv, f);
        assert(expected == first_error(mv, f));
    }
    let mut i: usize = 0;
    while i < m.len()
        invariant
            i <= m@.len(),
            mv == members_view(m@),
            mv.len() == m@.len(),
            forall|k: int| 0 <= k < m@.len() ==> #[trigger] mv[k] == (m@[k].0@, m@[k].1@),
            f == map_entry_check(label@, strs_view(fields@)),
            expected == first_error(mv, f),
            first_error(mv, f) == first_error(mv.skip(i as int), f),
        decreases m.len() - i,
    {
        proof {
            lemma_first_error_step(mv, f, i as int);
        }
        match &m[i].1 {
            Json::Object(entry) => {
                let entry_label = entry_label_of(label, m[i].0.as_str());
                require_object_fields(entry, entry_label.as_str(), fields)?;
            },
            _ => {
                return Err(Error::two(ErrorKind::SchemaEntryNotObject, label.to_owned(), m[i].0.clone()));
            },
        }
        i += 1;
    }
    proof {
        lemma_first_error_end(mv, f);
    }
    Ok(())
}

/// Checks an array whose entries must be objects with exactly the given fields.
#[verifier::loop_isolation(false)]
fn require_array_entry_fields(entries: Option<&Json>, label: &str, fields: &[&str]) -> (r: Result<(), Error>)
    ensures
        outcome(
            array_entries_error(
                match entries {
                    Some(j) => Some(j@),
                    None => None,
                },
                label@,
                strs_view(fields@),
            ),
            r,
        ),
{
    let items = match entries {
        Some(Json::Array(items)) => items,
        _ => {
            return Err(Error::one(ErrorKind::SchemaEntriesNotArray, label.to_owned()));
        },
    };
    let ghost iv = items_view(items@);
    let ghost t = positions(iv.len());
    let ghost f = array_entry_check(iv, label@, strs_view(fields@));
    let ghost expected = array_entries_error(
        match entries {
            Some(j) => Some(j@),
            None => None,
        },
        label@,
        strs_view(fields@),
    );
    proof {
        lemma_items_view(items@);
        lemma_first_error_start(t, f);
        assert(expected == first_error(t, f));
    }
    let mut i: usize = 0;
    while i < items.len()
        invariant
            i <= items@.len(),
            iv == items_view(items@),
            iv.len() == items@.len(),
            forall|k: int| 0 <= k < items@.len() ==> #[trigger] iv[k] == items@[k]@,
            t == positions(iv.len()),
            f == array_entry_check(iv, label@, strs_view(fields@)),
            expected == first_error(t, f),
            first_error(t, f) == first_error(t.skip(i as int), f),
        decreases items.len() - i,
    {
        proof {
            lemma_first_error_step(t, f, i as int);
        }
        let index = u64_to_string(i as u64);
        match &items[i] {
            Json::Object(entry) => {
                let entry_label = entry_label_of(label, index.as_str());
                require_object_fields(entry, entry_label.as_str(), fields)?;
            },
            _ => {
                return Err(Error::two(ErrorKind::SchemaEntryNotObject, label.to_owned(), index));
            },
        }
        i += 1;
    }
    proof {
        lemma_first_error_end(t, f);
    }
    Ok(())
}

/// The world state inside a snapshot value.
fn state_of(value: &Json) -> (r: &Json)
    ensures
        r@ == snapshot_state(value@),
{
    match value.get("state") {
        Some(s) => s,
        None => value,
    }
}

/// Whether some actor of a snapshot keeps its inventory in its data.
#[verifier::loop_isolation(false)]
pub fn actors_contain_legacy_inventory(value: &Json) -> (r: bool)
    ensures
        r == contains_legacy_inventory(value@),
{
    let state = state_of(value);
    let entities = match state.get("entities") {
        Some(Json::Object(es)) => es,
        _ => {
            return false;
        },
    };
    let ghost ev = members_view(entities@);
    proof {
        lemma_members_view(entities@);
    }
    let mut i: usize = 0;
    while i < entities.len()
        invariant
            i <= entities@.len(),
            ev == members_view(entities@),
            ev.len() == entities@.len(),
            forall|k: int| 0 <= k < entities@.len() ==> #[trigger] ev[k] == (entities@[k].0@, entities@[k].1@),
            forall|k: int| 0 <= k < i ==> !legacy_actor(#[trigger] ev[k].1),
            member(snapshot_state(value@), "entities"@) == Some(JsonV::Object(ev)),
        decreases entities.len() - i,
    {
        let entity = &entities[i].1;
        let is_actor = match entity.get("kind") {
            Some(Json::Str(k)) => str_eq(k.as_str(), "actor"),
            _ => false,
        };
        let has_inventory = match entity.get("data") {
            Some(d) => d.get("inventory").is_some(),
            None => false,
        };
        if is_actor && has_inventory {
            assert(legacy_actor(ev[i as int].1));
            return true;
        }
        assert(!legacy_actor(ev[i as int].1));
        i += 1;
    }
    false
}

/// Whether some quest of a snapshot has no giver field.
#[verifier::loop_isolation(false)]
pub fn quest_definitions_missing_giver(value: &Json) -> (r: bool)
    ensures
        r == missing_quest_giver(value@),
{
    let state = state_of(value);
    let quests = match state.get("quests") {
        Some(Json::Object(qs)) => qs,
        _ => {
            return false;
        },
    };
    let ghost qv = members_view(quests@);
    proof {
        lemma_members_view(quests@);
    }
    let mut i: usize = 0;
    while i < quests.len()
        invariant
            i <= quests@.len(),
            qv == members_view(quests@),
            qv.len() == quests@.len(),
            forall|k: int| 0 <= k < quests@.len() ==> #[trigger] qv[k] == (quests@[k].0@, quests@[k].1@),
            forall|k: int| 0 <= k < i ==> member(#[trigger] qv[k].1, "giver_entity_id"@) is Some,
            member(snapshot_state(value@), "quests"@) == Some(JsonV::Object(qv)),
        decreases quests.len() - i,
    {
        if quests[i].1.get("giver_entity_id").is_none() {
            assert(member(qv[i as int].1, "giver_entity_id"@) is None);
            return true;
        }
        i += 1;
    }
    false
}

/// Checks a snapshot value against the current schema.
pub fn validate_current_schema(value: &Json) -> (r: Result<(), Error>)
    ensures
        outcome(current_schema_error(value@), r),
{
    let envelope = match value {
        Json::Object(m) => m,
        _ => {
            return Err(Error::plain(ErrorKind::SnapshotNotObject));
        },
    };
    let envelope_names: [&str; 3] = ["format_version", "state_root", "state"];
    proof {
        assert(strs_view(envelope_names@) =~= envelope_fields());
    }
    require_object_fields(envelope, "envelope", &envelope_names)?;
    let state = match value.get("state") {
        Some(s) => s,
        None => {
            return Err(Error::plain(ErrorKind::SnapshotStateNotObject));
        },
    };
    let fields = match state {
        Json::Object(f) => f,
        _ => {
            return Err(Error::plain(ErrorKind::SnapshotStateNotObject));
        },
    };
    let state_names: [&str; 11] = [
        "accounts",
        "entities",
        "contracts",
        "receipts",
        "quests",
        "quest_progress",
        "inventories",
        "events",
        "next_event_id",
        "next_entity_id",
        "head",
    ];
    proof {
        assert(strs_view(state_names@) =~= state_fields());
    }
    require_object_fields(fields, "state", &state_names)?;
    if actors_contain_legacy_inventory(value) {
        return Err(Error::plain(ErrorKind::SchemaLegacyInventory));
    }
    let account_names: [&str; 4] = ["name", "public_key", "nonce", "balance"];
    let entity_names: [&str; 6] = ["id", "kind", "owner", "location", "contract", "data"];
    let contract_names: [&str; 5] = ["name", "version", "source", "source_hash", "status"];
    let receipt_names: [&str; 7] = ["tx_id", "from", "nonce", "ok", "messages", "result", "state_root"];
    let quest_names: [&str; 8] = [
        "id",
        "title",
        "giver_entity_id",
        "prerequisite_quest_ids",
        "required_item",
        "completion_zone",
        "reward_balance",
        "consume_required_item",
    ];
    let progress_names: [&str; 3] = ["quest_id", "actor_id", "status"];
    let event_names: [&str; 5] = ["id", "head", "kind", "entity_id", "data"];
    proof {
        assert(strs_view(account_names@) =~= account_fields());
        assert(strs_view(entity_names@) =~= entity_fields());
        assert(strs_view(contract_names@) =~= contract_fields());
        assert(strs_view(receipt_names@) =~= receipt_fields());
        assert(strs_view(quest_names@) =~= quest_fields());
        assert(strs_view(progress_names@) =~= progress_fields());
        assert(strs_view(event_names@) =~= event_fields());
    }
    require_map_entry_fields(state.get("accounts"), "account", &account_names)?;
    require_map_entry_fields(state.get("entities"), "entity", &entity_names)?;
    require_map_entry_fields(state.get("contracts"), "contract", &contract_names)?;
    require_map_entry_fields(state.get("receipts"), "receipt", &receipt_names)?;
    require_map_entry_fields(state.get("quests"), "quest", &quest_names)?;
    require_map_entry_fields(state.get("quest_progress"), "quest progress", &progress_names)?;
    require_array_entry_fields(state.get("events"), "event", &event_names)
}


// ----------------------------------------------------------------------
// Decoded snapshots
// ----------------------------------------------------------------------

/// An error, reported by a check.
pub open spec fn within(o: Option<ErrorV>, c: Context) -> Option<ErrorV> {
    match o {
        Some(e) => Some(in_context(e, c)),
        None => None,
    }
}

/// The checks an older world passes: references, events and locations,
/// then quests and inventories unless they still follow an older schema.
pub open spec fn legacy_state_errors(w: WorldV, legacy_quests: bool, legacy_inventories: bool) -> Option<ErrorV> {
    or_else(
        within(reference_errors(w), Context::CoreReferences),
        or_else(
            within(event_errors(w), Context::EventLog),
            or_else(
                within(location_errors(w), Context::EntityLocations),
                or_else(
                    if legacy_quests {
                        None
                    } else {
                        within(quest_errors(w), Context::QuestDefinitions)
                    },
                    if legacy_inventories {
                        None
                    } else {
                        within(inventory_errors(w), Context::Inventories)
                    },
                ),
            ),
        ),
    )
}

/// Checks an older world, skipping the quest and inventory checks when
/// those still follow an older schema.
pub fn validate_legacy_state(state: &WorldState, legacy_quest_schema: bool, legacy_inventory_schema: bool) -> (r:
    Result<(), Error>)
    ensures
        outcome(legacy_state_errors(state@, legacy_quest_schema, legacy_inventory_schema), r),
{
    match state.validate_references() {
        Ok(()) => {},
        Err(e) => {
            return Err(e.with_context(Context::CoreReferences));
        },
    }
    match state.validate_events() {
        Ok(()) => {},
        Err(e) => {
            return Err(e.with_context(Context::EventLog));
        },
    }
    match state.validate_locations() {
        Ok(()) => {},
        Err(e) => {
            return Err(e.with_context(Context::EntityLocations));
        },
    }
    if !legacy_quest_schema {
        match state.validate_quests() {
            Ok(()) => {},
            Err(e) => {
                return Err(e.with_context(Context::QuestDefinitions));
            },
        }
    }
    if !legacy_inventory_schema {
        match state.validate_inventories() {
            Ok(()) => {},
            Err(e) => {
                return Err(e.with_context(Context::Inventories));
            },
        }
    }
    Ok(())
}

/// The format of a snapshot value: none when it has no `format_version`
/// (an unversioned older snapshot); otherwise the positive version and the
/// migrations to the current format, once a current snapshot has passed
/// the schema check.
pub open spec fn snapshot_format(v: JsonV) -> Result<Option<(u32, Seq<FormatMigrationV>)>, ErrorV> {
    match member(v, "format_version"@) {
        None => Ok(None),
        Some(fv) => match as_u64(fv) {
            Some(n) => if n == 0 || n > u32::MAX {
                Err(err(ErrorKind::FormatVersionInvalid, seq![]))
            } else {
                match migration_path(registered_migrations(), n as u32, n as u32, FORMAT_VERSION) {
                    Err(e) => Err(e),
                    Ok(p) => if n == FORMAT_VERSION {
                        match current_schema_error(v) {
                            Some(e) => Err(e),
                            None => Ok(Some((n as u32, p))),
                        }
                    } else {
                        Ok(Some((n as u32, p)))
                    },
                }
            },
            None => Err(err(ErrorKind::FormatVersionInvalid, seq![])),
        },
    }
}

/// Reads the format of a snapshot value.
pub fn snapshot_format_of(value: &Json) -> (r: Result<Option<(u32, Vec<FormatMigration>)>, Error>)
    ensures
        match snapshot_format(value@) {
            Ok(None) => r matches Ok(None),
            Ok(Some((n, p))) => r matches Ok(Some((m, v))) && m == n && migrations_view(v@) == p,
            Err(e) => r matches Err(x) && x@ == e,
        },
{
    let version = match value.get("format_version") {
        None => {
            return Ok(None);
        },
        Some(v) => match v.as_u64() {
            Some(n) => if n == 0 || n > 4294967295u64 {
                return Err(Error::plain(ErrorKind::FormatVersionInvalid));
            } else {
                n as u32
            },
            None => {
                return Err(Error::plain(ErrorKind::FormatVersionInvalid));
            },
        },
    };
    let migrations = format_migration_path(version, FORMAT_VERSION)?;
    if version == FORMAT_VERSION {
        validate_current_schema(value)?;
    }
    Ok(Some((version, migrations)))
}

/// The checks a decoded snapshot's state must pass: the root recorded in
/// a versioned snapshot must be the state's own; a snapshot without a
/// version or of the older format passes the older checks, a current one
/// every check.
pub open spec fn decoded_state_errors(
    w: WorldV,
    recorded_root: Option<Seq<char>>,
    version: Option<u32>,
    legacy_quests: bool,
    legacy_inventories: bool,
) -> Option<ErrorV> {
    match recorded_root {
        Some(root) if root != state_root(w) => Some(err(ErrorKind::RootMismatch, seq![root, state_root(w)])),
        _ => match version {
            Some(v) if v != LEGACY_FORMAT_VERSION => within(crate::world::world_errors(w), Context::CurrentSnapshotState),
            _ => legacy_state_errors(w, legacy_quests, legacy_inventories),
        },
    }
}

/// Checks the state of a decoded snapshot.
pub fn check_decoded_state(
    state: &WorldState,
    recorded_root: Option<&str>,
    version: Option<u32>,
    legacy_quest_schema: bool,
    legacy_inventory_schema: bool,
) -> (r: Result<(), Error>)
    ensures
        outcome(
            decoded_state_errors(
                state@,
                match recorded_root {
                    Some(s) => Some(s@),
                    None => None,
                },
                version,
                legacy_quest_schema,
                legacy_inventory_schema,
            ),
            r,
        ),
{
    if let Some(expected) = recorded_root {
        let actual = state.root();
        if !str_eq(expected, actual.as_str()) {
            return Err(Error::two(ErrorKind::RootMismatch, expected.to_owned(), actual));
        }
    }
    match version {
        Some(v) => if v != LEGACY_FORMAT_VERSION {
            return match state.validate() {
                Ok(()) => Ok(()),
                Err(e) => Err(e.with_context(Context::CurrentSnapshotState)),
            };
        },
        None => {},
    }
    validate_legacy_state(state, legacy_quest_schema, legacy_inventory_schema)
}

/// The JSON form of a current snapshot of a world.
pub open spec fn snapshot_json(w: WorldV) -> JsonV {
    JsonV::Object(
        seq![
            ("format_version"@, JsonV::UInt(FORMAT_VERSION as u64)),
            ("state_root"@, JsonV::Str(state_root(w))),
            ("state"@, world_json(w, true)),
        ],
    )
}

/// What saving requires: a valid world whose snapshot follows the current schema.
pub open spec fn save_errors(w: WorldV) -> Option<ErrorV> {
    or_else(
        within(crate::world::world_errors(w), Context::WorldStateCheck),
        within(current_schema_error(snapshot_json(w)), Context::CurrentSnapshotSchema),
    )
}

/// The snapshot of a world that may be saved.
pub fn snapshot_for_save(state: &WorldState) -> (r: Result<Json, Error>)
    ensures
        match save_errors(state@) {
            Some(e) => r matches Err(x) && x@ == e,
            None => r matches Ok(j) && j@ == snapshot_json(state@),
        },
{
    match state.validate() {
        Ok(()) => {},
        Err(e) => {
            return Err(e.with_context(Context::WorldStateCheck));
        },
    }
    let mut members: Vec<(String, Json)> = Vec::new();
    members.push(("format_version".to_owned(), Json::UInt(FORMAT_VERSION as u64)));
    members.push(("state_root".to_owned(), Json::Str(state.root())));
    members.push(("state".to_owned(), state.to_json_with(true)));
    proof {
        lemma_members_view(members@);
        assert(members_view(members@) =~= seq![
            ("format_version"@, JsonV::UInt(FORMAT_VERSION as u64)),
            ("state_root"@, JsonV::Str(state_root(state@))),
            ("state"@, world_json(state@, true)),
        ]);
    }
    let snapshot = Json::Object(members);
    match validate_current_schema(&snapshot) {
        Ok(()) => Ok(snapshot),
        Err(e) => Err(e.with_context(Context::CurrentSnapshotSchema)),
    }
}

// ----------------------------------------------------------------------
// Where snapshots live
// ----------------------------------------------------------------------

/// A path joined with a file name.
pub open spec fn join_path(dir: Seq<char>, name: Seq<char>) -> Seq<char> {
    if dir.len() == 0 {
        name
    } else if dir.last() == '/' {
        dir + name
    } else {
        dir + seq!['/'] + name
    }
}

/// The place of a world's snapshot: `state.json` in a data directory.
pub struct SnapshotStore {
    path: String,
}

impl View for SnapshotStore {
    type V = Seq<char>;

    closed spec fn view(&self) -> Seq<char> {
        self.path@
    }
}

impl SnapshotStore {
    /// The store for a data directory.
    pub fn in_directory(dir: &str) -> (r: SnapshotStore)
        ensures
            r@ == join_path(dir@, "state.json"@),
    {
        proof {
            reveal_strlit("state.json");
        }
        let mut path = dir.to_owned();
        if !dir.is_empty() && !crate::text::ends_with_char(dir, '/') {
            crate::text::push_char(&mut path, '/');
        }
        push_str(&mut path, "state.json");
        SnapshotStore { path }
    }

    /// The snapshot's path.
    pub fn path(&self) -> (r: &str)
        ensures
            r@ == self@,
    {
        self.path.as_str()
    }

    /// The backup's path: the snapshot's with extension `json.bak`.
    pub fn backup_path(&self) -> (r: String)
        ensures
            r@ == self@ + ".bak"@,
    {
        let mut r = self.path.clone();
        push_str(&mut r, ".bak");
        r
    }

    /// The path a new snapshot is written to before it replaces the old one:
    /// the snapshot's with extension `json.tmp`.
    pub fn temporary_path(&self) -> (r: String)
        ensures
            r@ == self@ + ".tmp"@,
    {
        let mut r = self.path.clone();
        push_str(&mut r, ".tmp");
        r
    }

    /// The path a new backup is written to before it replaces the old one:
    /// the snapshot's with extension `json.bak.tmp`.
    pub fn backup_temporary_path(&self) -> (r: String)
        ensures
            r@ == self@ + ".bak.tmp"@,
    {
        let mut r = self.path.clone();
        push_str(&mut r, ".bak.tmp");
        r
    }
}

} // verus!
