//! The operations a contract may ask of the host while it runs: reading
//! entities, moving actors and items, changing data, emitting events,
//! quests and balances. Each is given the world, whether the run is a
//! command (queries may only read), and the calling entity.
use crate::encode::{entity_json, ToJson};
use crate::error::{err, Error, ErrorKind, ErrorV};
use crate::json::{as_str, as_u64, lemma_members_view, member, members_view, Json, JsonV};
use crate::maps::{del, get, has_key, index_of, lemma_index_of, put, DeepCopy, SortedMap};
use crate::model::{AccountV, EntityKind, EntityV, QuestProgress, QuestProgressV, QuestStatus, WorldState, WorldV};
use crate::runtime::{create_entity, create_entity_result, progress_key_text, push_event, quest_progress_key, with_event};
use crate::text::str_eq;
use vstd::prelude::*;

verus! {

/// Whether a host operation did what was expected: the world became the
/// expected one and the result is the expected value or error.
pub open spec fn host_outcome<T>(expected: (WorldV, Result<T, ErrorV>), after: WorldV, r: Result<T, Error>) -> bool {
    &&& after == expected.0
    &&& match expected.1 {
        Ok(v) => r == Ok::<T, Error>(v),
        Err(e) => r matches Err(x) && x@ == e,
    }
}

/// The failure of an operation that leaves the world as it was.
pub open spec fn fail<T>(w: WorldV, kind: ErrorKind) -> (WorldV, Result<T, ErrorV>) {
    (w, Err(err(kind, seq![])))
}

/// The world with an entity stored under `id`.
pub open spec fn with_entity(w: WorldV, id: u64, e: EntityV) -> WorldV {
    WorldV { entities: put::<u64, EntityV, u64>(w.entities, id, e), ..w }
}

/// The world with an inventory stored under `id`.
pub open spec fn with_inventory(w: WorldV, id: u64, items: Seq<u64>) -> WorldV {
    WorldV { inventories: put::<u64, Seq<u64>, u64>(w.inventories, id, items), ..w }
}

/// The items an entity holds; none when it has no inventory.
pub open spec fn inventory_of(w: WorldV, id: u64) -> Seq<u64> {
    match get(w.inventories, id) {
        Some(items) => items,
        None => seq![],
    }
}

/// Whether some inventory lists the item.
pub open spec fn held_anywhere(w: WorldV, item: u64) -> bool {
    exists|i: int| 0 <= i < w.inventories.len() && (#[trigger] w.inventories[i]).1.contains(item)
}

/// Whether `p` is the first position of `x`.
pub open spec fn is_first_position(s: Seq<u64>, x: u64, p: int) -> bool {
    0 <= p < s.len() && s[p] == x && forall|q: int| 0 <= q < p ==> s[q] != x
}

/// The first position of `x`, when it occurs.
pub open spec fn first_position(s: Seq<u64>, x: u64) -> int {
    choose|p: int| is_first_position(s, x, p)
}

/// The entity with a new location.
pub open spec fn relocated(e: EntityV, location: u64) -> EntityV {
    EntityV { location: Some(location), ..e }
}

// ----------------------------------------------------------------------
// Reading
// ----------------------------------------------------------------------

/// The JSON form of an entity, when it exists.
pub open spec fn entity_view_json(w: WorldV, id: u64) -> Option<JsonV> {
    match get(w.entities, id) {
        Some(e) => Some(entity_json(e)),
        None => None,
    }
}

/// The zone an exit of a zone leads to: the number stored under the
/// direction in the zone's `exits` data.
pub open spec fn exit_target(w: WorldV, zone: u64, direction: Seq<char>) -> Option<u64> {
    match get(w.entities, zone) {
        Some(z) => match get(z.data, "exits"@) {
            Some(exits) => match member(exits, direction) {
                Some(t) => as_u64(t),
                None => None,
            },
            None => None,
        },
        None => None,
    }
}

// ----------------------------------------------------------------------
// Moving actors and entities
// ----------------------------------------------------------------------

/// Moving an actor into a zone.
pub open spec fn move_actor_effect(w: WorldV, command: bool, actor: u64, zone: u64) -> (WorldV, Result<(), ErrorV>) {
    if !command {
        fail(w, ErrorKind::ReadOnlyQuery)
    } else {
        match get(w.entities, zone) {
            None => fail(w, ErrorKind::TargetZoneNotFound),
            Some(z) => if z.kind != EntityKind::Zone {
                fail(w, ErrorKind::TargetNotZone)
            } else {
                match get(w.entities, actor) {
                    None => fail(w, ErrorKind::ActorNotFound),
                    Some(a) => if a.kind != EntityKind::Actor {
                        fail(w, ErrorKind::NotAnActor)
                    } else {
                        (with_entity(w, actor, relocated(a, z.id)), Ok(()))
                    },
                }
            },
        }
    }
}

/// Moving an entity owned by the caller's owner to an existing location.
pub open spec fn move_entity_effect(w: WorldV, command: bool, caller: u64, id: u64, location: u64) -> (WorldV, Result<(), ErrorV>) {
    if !command {
        fail(w, ErrorKind::ReadOnlyQuery)
    } else {
        match get(w.entities, caller) {
            None => fail(w, ErrorKind::CallerNotFound),
            Some(c) => match get(w.entities, id) {
                None => fail(w, ErrorKind::TargetEntityNotFound),
                Some(t) => if t.owner != c.owner {
                    fail(w, ErrorKind::CallerNotOwner)
                } else if !has_key(w.entities, location) {
                    fail(w, ErrorKind::LocationNotFound)
                } else {
                    (with_entity(w, id, relocated(t, location)), Ok(()))
                },
            },
        }
    }
}

/// Setting one data value of an entity owned by the caller's owner.
pub open spec fn update_data_effect(
    w: WorldV,
    command: bool,
    caller: u64,
    id: u64,
    key: Seq<char>,
    value: JsonV,
) -> (WorldV, Result<(), ErrorV>) {
    if !command {
        fail(w, ErrorKind::ReadOnlyQuery)
    } else {
        match get(w.entities, caller) {
            None => fail(w, ErrorKind::CallerNotFound),
            Some(c) => match get(w.entities, id) {
                None => fail(w, ErrorKind::TargetEntityNotFound),
                Some(t) => if c.owner != t.owner {
                    fail(w, ErrorKind::CallerNotOwner)
                } else {
                    (
                        with_entity(
                            w,
                            id,
                            EntityV { data: put::<Seq<char>, JsonV, String>(t.data, key, value), ..t },
                        ),
                        Ok(()),
                    )
                },
            },
        }
    }
}

// ----------------------------------------------------------------------
// Items
// ----------------------------------------------------------------------

/// Picking up an item that lies where the caller stands and that no
/// inventory lists.
pub open spec fn take_item_effect(w: WorldV, command: bool, caller: u64, item: u64) -> (WorldV, Result<u64, ErrorV>) {
    if !command {
        fail(w, ErrorKind::ReadOnlyQuery)
    } else {
        match get(w.entities, caller) {
            None => fail(w, ErrorKind::CallerNotFound),
            Some(c) => match get(w.entities, item) {
                None => fail(w, ErrorKind::ItemNotFound),
                Some(i) => if i.kind != EntityKind::Item || i.location != c.location {
                    fail(w, ErrorKind::ItemNotHere)
                } else if held_anywhere(w, item) {
                    fail(w, ErrorKind::ItemAlreadyHeld)
                } else {
                    (
                        with_inventory(
                            with_entity(w, item, relocated(i, caller)),
                            caller,
                            inventory_of(w, caller).push(item),
                        ),
                        Ok(item),
                    )
                },
            },
        }
    }
}

/// Dropping an item from the caller's inventory where the caller stands.
/// The item leaves the inventory before its entity is looked up.
pub open spec fn drop_item_effect(w: WorldV, command: bool, caller: u64, item: u64) -> (WorldV, Result<u64, ErrorV>) {
    if !command {
        fail(w, ErrorKind::ReadOnlyQuery)
    } else {
        match get(w.entities, caller) {
            None => fail(w, ErrorKind::CallerNotFound),
            Some(c) => match c.location {
                None => fail(w, ErrorKind::ActorHasNoLocation),
                Some(here) => match get(w.inventories, caller) {
                    None => fail(w, ErrorKind::ItemNotInInventory),
                    Some(items) => if !items.contains(item) {
                        fail(w, ErrorKind::ItemNotInInventory)
                    } else {
                        let w1 = with_inventory(w, caller, items.remove(first_position(items, item)));
                        match get(w.entities, item) {
                            None => (w1, Err(err(ErrorKind::ItemNotFound, seq![]))),
                            Some(i) => (with_entity(w1, item, relocated(i, here)), Ok(item)),
                        }
                    },
                },
            },
        }
    }
}

/// Handing an item from the caller's inventory to another actor standing
/// in the same place.
pub open spec fn transfer_item_effect(w: WorldV, command: bool, caller: u64, item: u64, target: u64) -> (
    WorldV,
    Result<u64, ErrorV>,
) {
    if !command {
        fail(w, ErrorKind::ReadOnlyQuery)
    } else if target == caller {
        fail(w, ErrorKind::TransferToSelf)
    } else {
        match get(w.entities, caller) {
            None => fail(w, ErrorKind::CallerNotFound),
            Some(c) => match get(w.entities, target) {
                None => fail(w, ErrorKind::TargetActorNotFound),
                Some(t) => if t.kind != EntityKind::Actor {
                    fail(w, ErrorKind::TransferTargetNotActor)
                } else if t.location != c.location {
                    fail(w, ErrorKind::TargetActorNotHere)
                } else {
                    match get(w.inventories, caller) {
                        None => fail(w, ErrorKind::ItemNotInInventory),
                        Some(items) => if !items.contains(item) {
                            fail(w, ErrorKind::ItemNotInInventory)
                        } else {
                            match get(w.entities, item) {
                                None => fail(w, ErrorKind::ItemNotFound),
                                Some(i) => if i.kind != EntityKind::Item || i.location != Some(caller) {
                                    fail(w, ErrorKind::InventoryInconsistent)
                                } else {
                                    let w1 = with_inventory(w, caller, items.remove(first_position(items, item)));
                                    let w2 = with_inventory(w1, target, inventory_of(w1, target).push(item));
                                    (with_entity(w2, item, relocated(i, target)), Ok(item))
                                },
                            }
                        },
                    }
                },
            },
        }
    }
}

/// The first position of `x` among the items, when it occurs.
fn find_position(items: &Vec<u64>, x: u64) -> (r: Option<usize>)
    ensures
        r is Some <==> items@.contains(x),
        r matches Some(p) ==> is_first_position(items@, x, p as int) && first_position(items@, x) == p,
{
    let mut p: usize = 0;
    while p < items.len()
        invariant
            p <= items@.len(),
            forall|q: int| 0 <= q < p ==> items@[q] != x,
        decreases items.len() - p,
    {
        if items[p] == x {
            proof {
                assert(is_first_position(items@, x, p as int));
                let c = first_position(items@, x);
                if c != p {
                    assert(is_first_position(items@, x, c));
                }
            }
            return Some(p);
        }
        p += 1;
    }
    None
}

impl WorldState {
    /// Whether the entity exists; also states that the entity map is sorted.
    fn locate(&self, id: u64) -> (r: Option<usize>)
        ensures
            crate::maps::sorted::<u64, EntityV, u64>(self@.entities),
            r is Some <==> has_key(self@.entities, id),
            r matches Some(i) ==> i < self@.entities.len() && self@.entities[i as int].0 == id && index_of(
                self@.entities,
                id,
            ) == i,
    {
        self.entities.find(&id)
    }

    /// Stores a new location for an existing entity.
    pub(crate) fn relocate(&mut self, id: u64, location: u64)
        requires
            has_key(old(self)@.entities, id),
        ensures
            final(self)@ == with_entity(old(self)@, id, relocated(get(old(self)@.entities, id)->0, location)),
    {
        let i = match self.locate(id) {
            Some(i) => i,
            None => {
                return;
            },
        };
        proof {
            lemma_index_of::<u64, EntityV, u64>(old(self)@.entities, i as int);
        }
        let mut e = self.entities.value_at(i).deep_copy();
        e.location = Some(location);
        self.entities.set_value_at(i, e);
    }

    /// Stores an inventory under an entity id.
    pub(crate) fn store_inventory(&mut self, id: u64, items: Vec<u64>)
        ensures
            final(self)@ == with_inventory(old(self)@, id, items@),
    {
        self.inventories.insert(id, items);
    }

    /// The items an entity holds, as a new list.
    pub fn inventory(&self, id: u64) -> (r: Vec<u64>)
        ensures
            r@ == inventory_of(self@, id),
    {
        match self.inventories.get(&id) {
            Some(items) => items.deep_copy(),
            None => Vec::new(),
        }
    }

    /// Whether some inventory lists the item.
    fn held_anywhere(&self, item: u64) -> (r: bool)
        ensures
            r == held_anywhere(self@, item),
    {
        let n = self.inventories.len();
        let mut i: usize = 0;
        while i < n
            invariant
                n == self@.inventories.len(),
                i <= n,
                forall|k: int| 0 <= k < i ==> !(#[trigger] self@.inventories[k]).1.contains(item),
            decreases n - i,
        {
            let items = self.inventories.value_at(i);
            if find_position(items, item).is_some() {
                return true;
            }
            i += 1;
        }
        false
    }

    /// The JSON form of an entity, when it exists.
    pub fn entity_json(&self, id: u64) -> (r: Option<Json>)
        ensures
            r is Some <==> has_key(self@.entities, id),
            r matches Some(j) ==> entity_view_json(self@, id) == Some(j@),
    {
        match self.entities.get(&id) {
            Some(e) => Some(e.to_json()),
            None => None,
        }
    }

    /// The zone an exit of a zone leads to.
    pub fn exit_target(&self, zone: u64, direction: &str) -> (r: Option<u64>)
        ensures
            r == exit_target(self@, zone, direction@),
    {
        match self.entities.get(&zone) {
            Some(z) => match z.data.get(&"exits".to_owned()) {
                Some(exits) => match exits.get(direction) {
                    Some(t) => t.as_u64(),
                    None => None,
                },
                None => None,
            },
            None => None,
        }
    }

    /// Moves an actor into a zone.
    pub fn move_actor(&mut self, command: bool, actor: u64, zone: u64) -> (r: Result<(), Error>)
        ensures
            host_outcome(move_actor_effect(old(self)@, command, actor, zone), final(self)@, r),
    {
        if !command {
            return Err(Error::plain(ErrorKind::ReadOnlyQuery));
        }
        let target = match self.entities.get(&zone) {
            None => {
                return Err(Error::plain(ErrorKind::TargetZoneNotFound));
            },
            Some(z) => {
                if z.kind != EntityKind::Zone {
                    return Err(Error::plain(ErrorKind::TargetNotZone));
                }
                z.id
            },
        };
        match self.entities.get(&actor) {
            None => {
                return Err(Error::plain(ErrorKind::ActorNotFound));
            },
            Some(a) => {
                if a.kind != EntityKind::Actor {
                    return Err(Error::plain(ErrorKind::NotAnActor));
                }
            },
        }
        self.relocate(actor, target);
        Ok(())
    }

    /// Moves an entity owned by the caller's owner to an existing location.
    pub fn move_entity(&mut self, command: bool, caller: u64, id: u64, location: u64) -> (r: Result<(), Error>)
        ensures
            host_outcome(move_entity_effect(old(self)@, command, caller, id, location), final(self)@, r),
    {
        if !command {
            return Err(Error::plain(ErrorKind::ReadOnlyQuery));
        }
        let caller_owner = match self.entities.get(&caller) {
            None => {
                return Err(Error::plain(ErrorKind::CallerNotFound));
            },
            Some(c) => c.owner.clone(),
        };
        match self.entities.get(&id) {
            None => {
                return Err(Error::plain(ErrorKind::TargetEntityNotFound));
            },
            Some(t) => {
                if !crate::text::str_eq(t.owner.as_str(), caller_owner.as_str()) {
                    return Err(Error::plain(ErrorKind::CallerNotOwner));
                }
            },
        }
        if !self.entities.contains_key(&location) {
            return Err(Error::plain(ErrorKind::LocationNotFound));
        }
        self.relocate(id, location);
        Ok(())
    }

    /// Sets one data value of an entity owned by the caller's owner.
    pub fn update_entity_data(&mut self, command: bool, caller: u64, id: u64, key: String, value: Json) -> (r: Result<
        (),
        Error,
    >)
        ensures
            host_outcome(update_data_effect(old(self)@, command, caller, id, key@, value@), final(self)@, r),
    {
        if !command {
            return Err(Error::plain(ErrorKind::ReadOnlyQuery));
        }
        let caller_owner = match self.entities.get(&caller) {
            None => {
                return Err(Error::plain(ErrorKind::CallerNotFound));
            },
            Some(c) => c.owner.clone(),
        };
        let i = match self.locate(id) {
            None => {
                return Err(Error::plain(ErrorKind::TargetEntityNotFound));
            },
            Some(i) => i,
        };
        proof {
            lemma_index_of::<u64, EntityV, u64>(self@.entities, i as int);
        }
        let mut e = self.entities.value_at(i).deep_copy();
        if !crate::text::str_eq(caller_owner.as_str(), e.owner.as_str()) {
            return Err(Error::plain(ErrorKind::CallerNotOwner));
        }
        e.data.insert(key, value);
        self.entities.set_value_at(i, e);
        Ok(())
    }

    /// Picks up an item that lies where the caller stands; returns its id.
    pub fn take_item(&mut self, command: bool, caller: u64, item: u64) -> (r: Result<u64, Error>)
        ensures
            host_outcome(take_item_effect(old(self)@, command, caller, item), final(self)@, r),
    {
        if !command {
            return Err(Error::plain(ErrorKind::ReadOnlyQuery));
        }
        let here = match self.entities.get(&caller) {
            None => {
                return Err(Error::plain(ErrorKind::CallerNotFound));
            },
            Some(c) => c.location,
        };
        match self.entities.get(&item) {
            None => {
                return Err(Error::plain(ErrorKind::ItemNotFound));
            },
            Some(i) => {
                if i.kind != EntityKind::Item || i.location != here {
                    return Err(Error::plain(ErrorKind::ItemNotHere));
                }
            },
        }
        if self.held_anywhere(item) {
            return Err(Error::plain(ErrorKind::ItemAlreadyHeld));
        }
        let mut items = self.inventory(caller);
        self.relocate(item, caller);
        items.push(item);
        self.store_inventory(caller, items);
        Ok(item)
    }

    /// Drops an item from the caller's inventory where the caller stands;
    /// returns its id.
    pub fn drop_item(&mut self, command: bool, caller: u64, item: u64) -> (r: Result<u64, Error>)
        ensures
            host_outcome(drop_item_effect(old(self)@, command, caller, item), final(self)@, r),
    {
        if !command {
            return Err(Error::plain(ErrorKind::ReadOnlyQuery));
        }
        let here = match self.entities.get(&caller) {
            None => {
                return Err(Error::plain(ErrorKind::CallerNotFound));
            },
            Some(c) => match c.location {
                None => {
                    return Err(Error::plain(ErrorKind::ActorHasNoLocation));
                },
                Some(l) => l,
            },
        };
        let mut items = match self.inventories.get(&caller) {
            None => {
                return Err(Error::plain(ErrorKind::ItemNotInInventory));
            },
            Some(items) => items.deep_copy(),
        };
        let position = match find_position(&items, item) {
            None => {
                return Err(Error::plain(ErrorKind::ItemNotInInventory));
            },
            Some(p) => p,
        };
        items.remove(position);
        self.store_inventory(caller, items);
        if !self.entities.contains_key(&item) {
            return Err(Error::plain(ErrorKind::ItemNotFound));
        }
        self.relocate(item, here);
        Ok(item)
    }

    /// Hands an item from the caller's inventory to another actor standing
    /// in the same place; returns its id.
    pub fn transfer_item(&mut self, command: bool, caller: u64, item: u64, target: u64) -> (r: Result<u64, Error>)
        ensures
            host_outcome(transfer_item_effect(old(self)@, command, caller, item, target), final(self)@, r),
    {
        if !command {
            return Err(Error::plain(ErrorKind::ReadOnlyQuery));
        }
        if target == caller {
            return Err(Error::plain(ErrorKind::TransferToSelf));
        }
        let here = match self.entities.get(&caller) {
            None => {
                return Err(Error::plain(ErrorKind::CallerNotFound));
            },
            Some(c) => c.location,
        };
        match self.entities.get(&target) {
            None => {
                return Err(Error::plain(ErrorKind::TargetActorNotFound));
            },
            Some(t) => {
                if t.kind != EntityKind::Actor {
                    return Err(Error::plain(ErrorKind::TransferTargetNotActor));
                }
                if t.location != here {
                    return Err(Error::plain(ErrorKind::TargetActorNotHere));
                }
            },
        }
        let mut items = match self.inventories.get(&caller) {
            None => {
                return Err(Error::plain(ErrorKind::ItemNotInInventory));
            },
            Some(items) => items.deep_copy(),
        };
        let position = match find_position(&items, item) {
            None => {
                return Err(Error::plain(ErrorKind::ItemNotInInventory));
            },
            Some(p) => p,
        };
        match self.entities.get(&item) {
            None => {
                return Err(Error::plain(ErrorKind::ItemNotFound));
            },
            Some(i) => {
                if i.kind != EntityKind::Item || i.location != Some(caller) {
                    return Err(Error::plain(ErrorKind::InventoryInconsistent));
                }
            },
        }
        items.remove(position);
        self.store_inventory(caller, items);
        let mut received = self.inventory(target);
        received.push(item);
        self.store_inventory(target, received);
        self.relocate(item, target);
        Ok(item)
    }
}


// ----------------------------------------------------------------------
// Spawning and events
// ----------------------------------------------------------------------

/// The entity kind a name stands for.
pub open spec fn kind_from_name(name: Seq<char>) -> Option<EntityKind> {
    if name == "actor"@ {
        Some(EntityKind::Actor)
    } else if name == "zone"@ {
        Some(EntityKind::Zone)
    } else if name == "item"@ {
        Some(EntityKind::Item)
    } else {
        None
    }
}

/// The map made of object members, a later member replacing an earlier one
/// with the same name.
pub open spec fn members_map(m: Seq<(Seq<char>, JsonV)>) -> Seq<(Seq<char>, JsonV)>
    decreases m.len(),
{
    if m.len() == 0 {
        seq![]
    } else {
        put::<Seq<char>, JsonV, String>(members_map(m.drop_last()), m.last().0, m.last().1)
    }
}

/// Spawning an entity of a named kind, with object data, owned by the
/// caller's owner.
pub open spec fn spawn_effect(
    w: WorldV,
    command: bool,
    caller: u64,
    kind: Seq<char>,
    location: Option<u64>,
    data: JsonV,
) -> (WorldV, Result<u64, ErrorV>) {
    if !command {
        fail(w, ErrorKind::ReadOnlyQuery)
    } else {
        match kind_from_name(kind) {
            None => fail(w, ErrorKind::UnknownEntityKind),
            Some(k) => match data {
                JsonV::Object(m) => match get(w.entities, caller) {
                    None => fail(w, ErrorKind::CallerNotFound),
                    Some(c) => match create_entity_result(w, k, c.owner, None, location, members_map(m)) {
                        Ok(w2) => (w2, Ok(w.next_entity_id)),
                        Err(e) => (w, Err(e)),
                    },
                },
                _ => fail(w, ErrorKind::EntityDataNotObject),
            },
        }
    }
}

/// Whether an event kind is one the runtime itself records.
pub open spec fn reserved_kind(kind: Seq<char>) -> bool {
    kind == "entity_changed"@ || kind == "quest_progress_changed"@ || kind == "command_executed"@ || kind
        == "transaction_executed"@
}

/// Emitting a contract event of an unreserved kind about an existing entity.
pub open spec fn emit_effect(
    w: WorldV,
    command: bool,
    kind: Seq<char>,
    entity_id: Option<u64>,
    data: JsonV,
) -> (WorldV, Result<u64, ErrorV>) {
    if !command {
        fail(w, ErrorKind::ReadOnlyQuery)
    } else if kind.len() == 0 {
        fail(w, ErrorKind::EventKindRequired)
    } else if reserved_kind(kind) {
        fail(w, ErrorKind::EventKindReserved)
    } else if entity_id is Some && !has_key(w.entities, entity_id->0) {
        fail(w, ErrorKind::EventEntityNotFound)
    } else {
        (with_event(w, kind, entity_id, data), Ok(w.next_event_id))
    }
}

// ----------------------------------------------------------------------
// Quests and balances
// ----------------------------------------------------------------------

/// The caller's progress status with a quest.
pub open spec fn quest_status_of(w: WorldV, actor: u64, quest_id: Seq<char>) -> Option<QuestStatus> {
    match get(w.quest_progress, progress_key_text(actor, quest_id)) {
        Some(p) => Some(p.status),
        None => None,
    }
}

/// The first prerequisite the actor has not completed.
pub open spec fn first_incomplete(w: WorldV, actor: u64, ps: Seq<Seq<char>>) -> Option<Seq<char>>
    decreases ps.len(),
{
    if ps.len() == 0 {
        None
    } else if quest_status_of(w, actor, ps[0]) != Some(QuestStatus::Completed) {
        Some(ps[0])
    } else {
        first_incomplete(w, actor, ps.drop_first())
    }
}

/// Where an entity stands, when it exists and has a location.
pub open spec fn location_of(w: WorldV, id: u64) -> Option<u64> {
    match get(w.entities, id) {
        Some(e) => e.location,
        None => None,
    }
}

/// Accepting a quest from its giver, standing where the caller stands,
/// once every prerequisite is completed.
pub open spec fn accept_effect(w: WorldV, command: bool, caller: u64, quest_id: Seq<char>, giver: u64) -> (
    WorldV,
    Result<(), ErrorV>,
) {
    if !command {
        fail(w, ErrorKind::ReadOnlyQuery)
    } else {
        match get(w.quests, quest_id) {
            None => fail(w, ErrorKind::QuestNotFound),
            Some(q) => if q.giver_entity_id != giver {
                fail(w, ErrorKind::QuestGiverMismatch)
            } else {
                match first_incomplete(w, caller, q.prerequisite_quest_ids) {
                    Some(p) => (w, Err(err(ErrorKind::PrerequisiteIncomplete, seq![p]))),
                    None => match location_of(w, caller) {
                        None => fail(w, ErrorKind::CallerHasNoLocation),
                        Some(here) => match get(w.entities, giver) {
                            None => fail(w, ErrorKind::QuestGiverNotFound),
                            Some(g) => if g.kind != EntityKind::Actor || g.location != Some(here) {
                                fail(w, ErrorKind::QuestGiverNotHere)
                            } else if has_key(w.quest_progress, progress_key_text(caller, quest_id)) {
                                fail(w, ErrorKind::QuestAlreadyAccepted)
                            } else {
                                (
                                    WorldV {
                                        quest_progress: put::<Seq<char>, QuestProgressV, String>(
                                            w.quest_progress,
                                            progress_key_text(caller, quest_id),
                                            QuestProgressV {
                                                quest_id,
                                                actor_id: caller,
                                                status: QuestStatus::Accepted,
                                            },
                                        ),
                                        ..w
                                    },
                                    Ok(()),
                                )
                            },
                        },
                    },
                }
            },
        }
    }
}

/// The `name` data of an entity, when it is a string.
pub open spec fn name_of(w: WorldV, id: u64) -> Option<Seq<char>> {
    match get(w.entities, id) {
        Some(e) => match get(e.data, "name"@) {
            Some(v) => as_str(v),
            None => None,
        },
        None => None,
    }
}

/// The first listed item whose entity is named `name`.
pub open spec fn first_named(w: WorldV, items: Seq<u64>, name: Seq<char>) -> Option<u64>
    decreases items.len(),
{
    if items.len() == 0 {
        None
    } else if name_of(w, items[0]) == Some(name) {
        Some(items[0])
    } else {
        first_named(w, items.drop_first(), name)
    }
}

/// The list without any occurrence of `x`.
pub open spec fn without(s: Seq<u64>, x: u64) -> Seq<u64>
    decreases s.len(),
{
    if s.len() == 0 {
        seq![]
    } else if s.last() == x {
        without(s.drop_last(), x)
    } else {
        without(s.drop_last(), x).push(s.last())
    }
}

/// The name of the zone an entity stands in.
pub open spec fn zone_name_of(w: WorldV, location: Option<u64>) -> Option<Seq<char>> {
    match location {
        Some(l) => name_of(w, l),
        None => None,
    }
}

/// Completing an accepted quest in its completion zone while holding its
/// required item: the reward is credited to the owner's account, the item
/// is used up when the quest says so, and the progress is completed.
pub open spec fn complete_effect(w: WorldV, command: bool, caller: u64, quest_id: Seq<char>) -> (
    WorldV,
    Result<u64, ErrorV>,
) {
    let key = progress_key_text(caller, quest_id);
    if !command {
        fail(w, ErrorKind::ReadOnlyQuery)
    } else {
        match get(w.quests, quest_id) {
            None => fail(w, ErrorKind::QuestNotFound),
            Some(q) => match get(w.quest_progress, key) {
                None => fail(w, ErrorKind::QuestNotAccepted),
                Some(p) => if p.status == QuestStatus::Completed {
                    fail(w, ErrorKind::QuestAlreadyCompleted)
                } else {
                    match get(w.entities, caller) {
                        None => fail(w, ErrorKind::CallerNotFound),
                        Some(a) => if zone_name_of(w, a.location) != Some(q.completion_zone) {
                            (w, Err(err(ErrorKind::WrongCompletionZone, seq![q.completion_zone])))
                        } else {
                            match first_named(w, inventory_of(w, caller), q.required_item) {
                                None => (w, Err(err(ErrorKind::RequiredItemMissing, seq![q.required_item]))),
                                Some(item) => match get(w.accounts, a.owner) {
                                    None => fail(w, ErrorKind::OwnerAccountNotFound),
                                    Some(acct) => if acct.balance + q.reward_balance > u64::MAX {
                                        fail(w, ErrorKind::BalanceOverflow)
                                    } else {
                                        let w1 = WorldV {
                                            accounts: put::<Seq<char>, AccountV, String>(
                                                w.accounts,
                                                a.owner,
                                                AccountV { balance: (acct.balance + q.reward_balance) as u64, ..acct },
                                            ),
                                            ..w
                                        };
                                        let w2 = if q.consume_required_item {
                                            WorldV {
                                                entities: del(w1.entities, item),
                                                ..with_inventory(w1, caller, without(inventory_of(w, caller), item))
                                            }
                                        } else {
                                            w1
                                        };
                                        (
                                            WorldV {
                                                quest_progress: put::<Seq<char>, QuestProgressV, String>(
                                                    w2.quest_progress,
                                                    key,
                                                    QuestProgressV { status: QuestStatus::Completed, ..p },
                                                ),
                                                ..w2
                                            },
                                            Ok(q.reward_balance),
                                        )
                                    },
                                },
                            }
                        },
                    }
                },
            },
        }
    }
}

/// The balance of the caller's owner; zero when the account is gone.
pub open spec fn balance_effect(w: WorldV, caller: u64) -> Result<u64, ErrorV> {
    match get(w.entities, caller) {
        None => Err(err(ErrorKind::CallerNotFound, seq![])),
        Some(c) => match get(w.accounts, c.owner) {
            Some(a) => Ok(a.balance),
            None => Ok(0),
        },
    }
}

/// Crediting the caller's owner; returns the new balance.
pub open spec fn credit_effect(w: WorldV, command: bool, caller: u64, amount: u64) -> (WorldV, Result<u64, ErrorV>) {
    if !command {
        fail(w, ErrorKind::ReadOnlyQuery)
    } else {
        match get(w.entities, caller) {
            None => fail(w, ErrorKind::CallerNotFound),
            Some(c) => match get(w.accounts, c.owner) {
                None => fail(w, ErrorKind::OwnerAccountNotFound),
                Some(a) => if a.balance + amount > u64::MAX {
                    fail(w, ErrorKind::BalanceOverflow)
                } else {
                    (
                        WorldV {
                            accounts: put::<Seq<char>, AccountV, String>(
                                w.accounts,
                                c.owner,
                                AccountV { balance: (a.balance + amount) as u64, ..a },
                            ),
                            ..w
                        },
                        Ok((a.balance + amount) as u64),
                    )
                },
            },
        }
    }
}

/// The map made of a list of object members.
fn members_to_map(m: &Vec<(String, Json)>) -> (r: SortedMap<String, Json>)
    ensures
        r@ == members_map(members_view(m@)),
{
    let ghost mv = members_view(m@);
    proof {
        lemma_members_view(m@);
    }
    let mut r: SortedMap<String, Json> = SortedMap::new();
    let mut i: usize = 0;
    while i < m.len()
        invariant
            i <= m@.len(),
            mv == members_view(m@),
            mv.len() == m@.len(),
            forall|k: int| 0 <= k < m@.len() ==> #[trigger] mv[k] == (m@[k].0@, m@[k].1@),
            r@ == members_map(mv.take(i as int)),
        decreases m.len() - i,
    {
        r.insert(m[i].0.clone(), m[i].1.deep_copy());
        proof {
            assert(mv.take(i + 1).drop_last() =~= mv.take(i as int));
        }
        i += 1;
    }
    assert(mv.take(m@.len() as int) =~= mv);
    r
}

/// The first prerequisite the actor has not completed.
fn find_incomplete(state: &WorldState, actor: u64, ps: &Vec<String>) -> (r: Option<String>)
    ensures
        first_incomplete(state@, actor, crate::model::strings_view(ps@)) == match r {
            Some(s) => Some(s@),
            None => None,
        },
{
    let ghost names = crate::model::strings_view(ps@);
    assert(names.skip(0) =~= names);
    let mut i: usize = 0;
    while i < ps.len()
        invariant
            i <= ps@.len(),
            names == crate::model::strings_view(ps@),
            first_incomplete(state@, actor, names) == first_incomplete(state@, actor, names.skip(i as int)),
        decreases ps.len() - i,
    {
        proof {
            assert(names.skip(i as int).drop_first() =~= names.skip(i + 1));
            assert(names.skip(i as int)[0] == ps@[i as int]@);
        }
        let key = quest_progress_key(actor, ps[i].as_str());
        let completed = match state.quest_progress.get(&key) {
            Some(p) => p.status == QuestStatus::Completed,
            None => false,
        };
        if !completed {
            return Some(ps[i].clone());
        }
        i += 1;
    }
    None
}

/// The name of an entity, when it exists and its `name` data is a string.
fn entity_name(state: &WorldState, id: u64) -> (r: Option<&String>)
    ensures
        name_of(state@, id) == match r {
            Some(s) => Some(s@),
            None => None,
        },
{
    match state.entities.get(&id) {
        Some(e) => match e.data.get(&"name".to_owned()) {
            Some(v) => match v {
                Json::Str(s) => Some(s),
                _ => None,
            },
            None => None,
        },
        None => None,
    }
}

/// The first listed item whose entity is named `name`.
fn find_named(state: &WorldState, items: &Vec<u64>, name: &str) -> (r: Option<u64>)
    ensures
        r == first_named(state@, items@, name@),
{
    assert(items@.skip(0) =~= items@);
    let mut i: usize = 0;
    while i < items.len()
        invariant
            i <= items@.len(),
            first_named(state@, items@, name@) == first_named(state@, items@.skip(i as int), name@),
        decreases items.len() - i,
    {
        proof {
            assert(items@.skip(i as int).drop_first() =~= items@.skip(i + 1));
        }
        match entity_name(state, items[i]) {
            Some(n) => {
                if str_eq(n.as_str(), name) {
                    return Some(items[i]);
                }
            },
            None => {},
        }
        i += 1;
    }
    None
}

/// The list without any occurrence of `x`.
fn remove_all(items: &Vec<u64>, x: u64) -> (r: Vec<u64>)
    ensures
        r@ == without(items@, x),
{
    let mut r: Vec<u64> = Vec::new();
    let mut i: usize = 0;
    while i < items.len()
        invariant
            i <= items@.len(),
            r@ == without(items@.take(i as int), x),
        decreases items.len() - i,
    {
        proof {
            assert(items@.take(i + 1).drop_last() =~= items@.take(i as int));
        }
        if items[i] != x {
            r.push(items[i]);
        }
        i += 1;
    }
    assert(items@.take(items@.len() as int) =~= items@);
    r
}

impl WorldState {
    /// Spawns an entity of a named kind owned by the caller's owner; returns its id.
    pub fn spawn_entity(&mut self, command: bool, caller: u64, kind: &str, location: Option<u64>, data: Json) -> (r:
        Result<u64, Error>)
        requires
            command ==> old(self).head < u64::MAX,
            command ==> old(self).next_entity_id < u64::MAX,
        ensures
            host_outcome(spawn_effect(old(self)@, command, caller, kind@, location, data@), final(self)@, r),
    {
        if !command {
            return Err(Error::plain(ErrorKind::ReadOnlyQuery));
        }
        proof {
            reveal_strlit("actor");
            reveal_strlit("zone");
            reveal_strlit("item");
        }
        let k = if str_eq(kind, "actor") {
            EntityKind::Actor
        } else if str_eq(kind, "zone") {
            EntityKind::Zone
        } else if str_eq(kind, "item") {
            EntityKind::Item
        } else {
            return Err(Error::plain(ErrorKind::UnknownEntityKind));
        };
        let map = match &data {
            Json::Object(m) => members_to_map(m),
            _ => {
                return Err(Error::plain(ErrorKind::EntityDataNotObject));
            },
        };
        let owner = match self.entities.get(&caller) {
            None => {
                return Err(Error::plain(ErrorKind::CallerNotFound));
            },
            Some(c) => c.owner.clone(),
        };
        let ghost before = self@;
        let r = create_entity(self, k, owner, None, location, map);
        proof {
            if r is Err {
                assert(self@ == before);
            }
        }
        r
    }

    /// Emits a contract event; returns its id.
    pub fn emit_event(&mut self, command: bool, kind: String, entity_id: Option<u64>, data: Json) -> (r: Result<
        u64,
        Error,
    >)
        requires
            command ==> old(self).next_event_id < u64::MAX,
        ensures
            host_outcome(emit_effect(old(self)@, command, kind@, entity_id, data@), final(self)@, r),
    {
        if !command {
            return Err(Error::plain(ErrorKind::ReadOnlyQuery));
        }
        if kind.as_str().is_empty() {
            return Err(Error::plain(ErrorKind::EventKindRequired));
        }
        if str_eq(kind.as_str(), "entity_changed") || str_eq(kind.as_str(), "quest_progress_changed") || str_eq(
            kind.as_str(),
            "command_executed",
        ) || str_eq(kind.as_str(), "transaction_executed") {
            return Err(Error::plain(ErrorKind::EventKindReserved));
        }
        if let Some(id) = entity_id {
            if !self.entities.contains_key(&id) {
                return Err(Error::plain(ErrorKind::EventEntityNotFound));
            }
        }
        let id = self.next_event_id;
        push_event(self, kind.as_str(), entity_id, data);
        Ok(id)
    }

    /// The caller's progress status with a quest, when it has any.
    pub fn quest_status(&self, caller: u64, quest_id: &str) -> (r: Option<QuestStatus>)
        ensures
            r == quest_status_of(self@, caller, quest_id@),
    {
        let key = quest_progress_key(caller, quest_id);
        match self.quest_progress.get(&key) {
            Some(p) => Some(p.status),
            None => None,
        }
    }

    /// Accepts a quest for the caller.
    pub fn accept_quest(&mut self, command: bool, caller: u64, quest_id: String, giver: u64) -> (r: Result<(), Error>)
        ensures
            host_outcome(accept_effect(old(self)@, command, caller, quest_id@, giver), final(self)@, r),
    {
        if !command {
            return Err(Error::plain(ErrorKind::ReadOnlyQuery));
        }
        match self.quests.get(&quest_id) {
            None => {
                return Err(Error::plain(ErrorKind::QuestNotFound));
            },
            Some(q) => {
                if q.giver_entity_id != giver {
                    return Err(Error::plain(ErrorKind::QuestGiverMismatch));
                }
                if let Some(p) = find_incomplete(self, caller, &q.prerequisite_quest_ids) {
                    return Err(Error::one(ErrorKind::PrerequisiteIncomplete, p));
                }
            },
        }
        let here = match self.entities.get(&caller) {
            Some(a) => match a.location {
                Some(l) => l,
                None => {
                    return Err(Error::plain(ErrorKind::CallerHasNoLocation));
                },
            },
            None => {
                return Err(Error::plain(ErrorKind::CallerHasNoLocation));
            },
        };
        match self.entities.get(&giver) {
            None => {
                return Err(Error::plain(ErrorKind::QuestGiverNotFound));
            },
            Some(g) => {
                if g.kind != EntityKind::Actor || g.location != Some(here) {
                    return Err(Error::plain(ErrorKind::QuestGiverNotHere));
                }
            },
        }
        let key = quest_progress_key(caller, quest_id.as_str());
        if self.quest_progress.contains_key(&key) {
            return Err(Error::plain(ErrorKind::QuestAlreadyAccepted));
        }
        self.quest_progress.insert(key, QuestProgress { quest_id, actor_id: caller, status: QuestStatus::Accepted });
        Ok(())
    }

    /// Completes an accepted quest for the caller; returns the reward.
    pub fn complete_quest(&mut self, command: bool, caller: u64, quest_id: &str) -> (r: Result<u64, Error>)
        ensures
            host_outcome(complete_effect(old(self)@, command, caller, quest_id@), final(self)@, r),
    {
        if !command {
            return Err(Error::plain(ErrorKind::ReadOnlyQuery));
        }
        let quest = match self.quests.get(&quest_id.to_owned()) {
            None => {
                return Err(Error::plain(ErrorKind::QuestNotFound));
            },
            Some(q) => q.deep_copy(),
        };
        let key = quest_progress_key(caller, quest_id);
        let progress_at = match self.quest_progress.find(&key) {
            None => {
                return Err(Error::plain(ErrorKind::QuestNotAccepted));
            },
            Some(i) => i,
        };
        proof {
            lemma_index_of::<Seq<char>, QuestProgressV, String>(self@.quest_progress, progress_at as int);
        }
        if self.quest_progress.value_at(progress_at).status == QuestStatus::Completed {
            return Err(Error::plain(ErrorKind::QuestAlreadyCompleted));
        }
        let actor = match self.entities.get(&caller) {
            None => {
                return Err(Error::plain(ErrorKind::CallerNotFound));
            },
            Some(a) => a.deep_copy(),
        };
        let zone_name = match actor.location {
            Some(l) => entity_name(self, l),
            None => None,
        };
        let in_zone = match zone_name {
            Some(n) => str_eq(n.as_str(), quest.completion_zone.as_str()),
            None => false,
        };
        if !in_zone {
            return Err(Error::one(ErrorKind::WrongCompletionZone, quest.completion_zone.clone()));
        }
        let held = self.inventory(caller);
        let item = match find_named(self, &held, quest.required_item.as_str()) {
            None => {
                return Err(Error::one(ErrorKind::RequiredItemMissing, quest.required_item.clone()));
            },
            Some(item) => item,
        };
        let account_at = match self.accounts.find(&actor.owner) {
            None => {
                return Err(Error::plain(ErrorKind::OwnerAccountNotFound));
            },
            Some(i) => i,
        };
        proof {
            lemma_index_of::<Seq<char>, AccountV, String>(self@.accounts, account_at as int);
        }
        let mut account = self.accounts.value_at(account_at).deep_copy();
        account.balance = match account.balance.checked_add(quest.reward_balance) {
            None => {
                return Err(Error::plain(ErrorKind::BalanceOverflow));
            },
            Some(b) => b,
        };
        self.accounts.set_value_at(account_at, account);
        if quest.consume_required_item {
            let kept = remove_all(&held, item);
            self.inventories.insert(caller, kept);
            self.entities.remove(&item);
        }
        let progress_at = match self.quest_progress.find(&key) {
            None => {
                return Err(Error::plain(ErrorKind::QuestNotAccepted));
            },
            Some(i) => i,
        };
        proof {
            lemma_index_of::<Seq<char>, QuestProgressV, String>(self@.quest_progress, progress_at as int);
        }
        let mut progress = self.quest_progress.value_at(progress_at).deep_copy();
        progress.status = QuestStatus::Completed;
        self.quest_progress.set_value_at(progress_at, progress);
        Ok(quest.reward_balance)
    }

    /// The balance of the caller's owner.
    pub fn balance(&self, caller: u64) -> (r: Result<u64, Error>)
        ensures
            match balance_effect(self@, caller) {
                Ok(b) => r == Ok::<u64, Error>(b),
                Err(e) => r matches Err(x) && x@ == e,
            },
    {
        match self.entities.get(&caller) {
            None => Err(Error::plain(ErrorKind::CallerNotFound)),
            Some(c) => match self.accounts.get(&c.owner) {
                Some(a) => Ok(a.balance),
                None => Ok(0),
            },
        }
    }

    /// Credits the caller's owner; returns the new balance.
    pub fn credit_balance(&mut self, command: bool, caller: u64, amount: u64) -> (r: Result<u64, Error>)
        ensures
            host_outcome(credit_effect(old(self)@, command, caller, amount), final(self)@, r),
    {
        if !command {
            return Err(Error::plain(ErrorKind::ReadOnlyQuery));
        }
        let owner = match self.entities.get(&caller) {
            None => {
                return Err(Error::plain(ErrorKind::CallerNotFound));
            },
            Some(c) => c.owner.clone(),
        };
        let at = match self.accounts.find(&owner) {
            None => {
                return Err(Error::plain(ErrorKind::OwnerAccountNotFound));
            },
            Some(i) => i,
        };
        proof {
            lemma_index_of::<Seq<char>, AccountV, String>(self@.accounts, at as int);
        }
        let mut account = self.accounts.value_at(at).deep_copy();
        account.balance = match account.balance.checked_add(amount) {
            None => {
                return Err(Error::plain(ErrorKind::BalanceOverflow));
            },
            Some(b) => b,
        };
        let balance = account.balance;
        self.accounts.set_value_at(at, account);
        Ok(balance)
    }
}

/// Queries cannot write: every host operation that changes the world, when
/// called from a query, fails as read-only and leaves the world as it was.
pub proof fn lemma_queries_cannot_write(
    w: WorldV,
    caller: u64,
    id: u64,
    target: u64,
    key: Seq<char>,
    value: JsonV,
    kind: Seq<char>,
    location: Option<u64>,
    entity_id: Option<u64>,
    quest_id: Seq<char>,
    amount: u64,
)
    ensures
        move_actor_effect(w, false, caller, target) == fail::<()>(w, ErrorKind::ReadOnlyQuery),
        move_entity_effect(w, false, caller, id, target) == fail::<()>(w, ErrorKind::ReadOnlyQuery),
        update_data_effect(w, false, caller, id, key, value) == fail::<()>(w, ErrorKind::ReadOnlyQuery),
        take_item_effect(w, false, caller, id) == fail::<u64>(w, ErrorKind::ReadOnlyQuery),
        drop_item_effect(w, false, caller, id) == fail::<u64>(w, ErrorKind::ReadOnlyQuery),
        transfer_item_effect(w, false, caller, id, target) == fail::<u64>(w, ErrorKind::ReadOnlyQuery),
        spawn_effect(w, false, caller, kind, location, value) == fail::<u64>(w, ErrorKind::ReadOnlyQuery),
        emit_effect(w, false, kind, entity_id, value) == fail::<u64>(w, ErrorKind::ReadOnlyQuery),
        accept_effect(w, false, caller, quest_id, target) == fail::<()>(w, ErrorKind::ReadOnlyQuery),
        complete_effect(w, false, caller, quest_id) == fail::<u64>(w, ErrorKind::ReadOnlyQuery),
        credit_effect(w, false, caller, amount) == fail::<u64>(w, ErrorKind::ReadOnlyQuery),
{
}


/// A quest is accepted at most once: an actor that already has progress on
/// the quest (accepted or completed) is refused, and the world is left as
/// it was; a refused acceptance never changes the world; an accepted one
/// finds no progress before and records exactly the actor's acceptance.
pub proof fn lemma_accept_only_once(w: WorldV, command: bool, caller: u64, quest_id: Seq<char>, giver: u64)
    requires
        crate::maps::sorted::<Seq<char>, QuestProgressV, String>(w.quest_progress),
    ensures
        has_key(w.quest_progress, progress_key_text(caller, quest_id)) ==> {
            &&& accept_effect(w, command, caller, quest_id, giver).1 is Err
            &&& accept_effect(w, command, caller, quest_id, giver).0 == w
        },
        accept_effect(w, command, caller, quest_id, giver).1 is Err ==> accept_effect(
            w,
            command,
            caller,
            quest_id,
            giver,
        ).0 == w,
        accept_effect(w, command, caller, quest_id, giver).1 is Ok ==> {
            let after = accept_effect(w, command, caller, quest_id, giver).0;
            &&& command
            &&& !has_key(w.quest_progress, progress_key_text(caller, quest_id))
            &&& get(after.quest_progress, progress_key_text(caller, quest_id)) == Some(
                QuestProgressV { quest_id, actor_id: caller, status: QuestStatus::Accepted },
            )
            &&& after == (WorldV { quest_progress: after.quest_progress, ..w })
        },
{
    let key = progress_key_text(caller, quest_id);
    let p = QuestProgressV { quest_id, actor_id: caller, status: QuestStatus::Accepted };
    crate::maps::lemma_put::<Seq<char>, QuestProgressV, String>(w.quest_progress, key, p);
}

/// Accepting the same quest twice: once the first acceptance succeeds, the
/// second is refused and leaves the world as the first left it.
pub proof fn lemma_accept_twice(w: WorldV, caller: u64, quest_id: Seq<char>, giver: u64)
    requires
        crate::maps::sorted::<Seq<char>, QuestProgressV, String>(w.quest_progress),
        accept_effect(w, true, caller, quest_id, giver).1 is Ok,
    ensures
        ({
            let once = accept_effect(w, true, caller, quest_id, giver).0;
            &&& accept_effect(once, true, caller, quest_id, giver).1 is Err
            &&& accept_effect(once, true, caller, quest_id, giver).0 == once
        }),
{
    lemma_accept_only_once(w, true, caller, quest_id, giver);
    let once = accept_effect(w, true, caller, quest_id, giver).0;
    crate::maps::lemma_put::<Seq<char>, QuestProgressV, String>(
        w.quest_progress,
        progress_key_text(caller, quest_id),
        QuestProgressV { quest_id, actor_id: caller, status: QuestStatus::Accepted },
    );
    assert(has_key(once.quest_progress, progress_key_text(caller, quest_id)));
    lemma_accept_only_once(once, true, caller, quest_id, giver);
}

/// An item is taken only where the caller stands: a successful take found
/// an item (of kind item) at the caller's location, and leaves it located at
/// the caller and listed last in the caller's inventory; a refused take
/// leaves the world as it was.
pub proof fn lemma_take_only_here(w: WorldV, command: bool, caller: u64, item: u64)
    requires
        crate::maps::sorted::<u64, EntityV, u64>(w.entities),
        crate::maps::sorted::<u64, Seq<u64>, u64>(w.inventories),
    ensures
        take_item_effect(w, command, caller, item).1 is Err ==> take_item_effect(w, command, caller, item).0 == w,
        take_item_effect(w, command, caller, item).1 is Ok ==> {
            let after = take_item_effect(w, command, caller, item).0;
            &&& command
            &&& take_item_effect(w, command, caller, item).1 == Ok::<u64, ErrorV>(item)
            &&& get(w.entities, item) matches Some(i) && i.kind == EntityKind::Item
            &&& get(w.entities, caller) matches Some(c) && get(w.entities, item)->0.location == c.location
            &&& get(after.entities, item) matches Some(i) && i.location == Some(caller)
            &&& inventory_of(after, caller) == inventory_of(w, caller).push(item)
        },
{
    if take_item_effect(w, command, caller, item).1 is Ok {
        let i = get(w.entities, item)->0;
        let a = with_entity(w, item, relocated(i, caller));
        crate::maps::lemma_put::<u64, EntityV, u64>(w.entities, item, relocated(i, caller));
        crate::maps::lemma_put::<u64, Seq<u64>, u64>(a.inventories, caller, inventory_of(w, caller).push(item));
    }
}


/// An actor moves only into a zone: a successful move found a zone and an
/// actor, and leaves the actor located in that zone with nothing else
/// changed but the actor; a refused move leaves the world as it was.
pub proof fn lemma_move_only_into_zones(w: WorldV, command: bool, actor: u64, zone: u64)
    requires
        crate::maps::sorted::<u64, EntityV, u64>(w.entities),
        crate::migration::entity_ids_match(w),
    ensures
        move_actor_effect(w, command, actor, zone).1 is Err ==> move_actor_effect(w, command, actor, zone).0 == w,
        move_actor_effect(w, command, actor, zone).1 is Ok ==> {
            let after = move_actor_effect(w, command, actor, zone).0;
            &&& command
            &&& get(w.entities, zone) matches Some(z) && z.kind == EntityKind::Zone
            &&& get(w.entities, actor) matches Some(a) && a.kind == EntityKind::Actor
            &&& get(after.entities, actor) == Some(EntityV { location: Some(zone), ..get(w.entities, actor)->0 })
            &&& after == (WorldV { entities: after.entities, ..w })
        },
{
    if move_actor_effect(w, command, actor, zone).1 is Ok {
        let a = get(w.entities, actor)->0;
        let z = get(w.entities, zone)->0;
        let i = index_of(w.entities, zone);
        assert(w.entities[i].0 == zone);
        assert(z.id == zone);
        crate::maps::lemma_put::<u64, EntityV, u64>(w.entities, actor, relocated(a, z.id));
    }
}

/// An item the list holds has a first position in it.
proof fn lemma_first_position(s: Seq<u64>, x: u64)
    requires
        s.contains(x),
    ensures
        is_first_position(s, x, first_position(s, x)),
    decreases s.len(),
{
    let init = s.drop_last();
    if init.contains(x) {
        lemma_first_position(init, x);
        let p = first_position(init, x);
        assert forall|q: int| 0 <= q < p implies s[q] != x by {
            assert(s[q] == init[q]);
        }
        assert(s[p] == init[p]);
        assert(is_first_position(s, x, p));
    } else {
        let k = choose|k: int| 0 <= k < s.len() && s[k] == x;
        if k < s.len() - 1 {
            assert(init[k] == x);
        }
        assert forall|q: int| 0 <= q < s.len() - 1 implies s[q] != x by {
            assert(s[q] == init[q]);
        }
        assert(is_first_position(s, x, s.len() - 1));
    }
}

/// An item is dropped only from the caller's own inventory: a successful
/// drop found it there and the caller somewhere, leaves it located where
/// the caller stands, and shortens the caller's inventory by one.
pub proof fn lemma_drop_only_own_items(w: WorldV, command: bool, caller: u64, item: u64)
    requires
        crate::maps::sorted::<u64, EntityV, u64>(w.entities),
        crate::maps::sorted::<u64, Seq<u64>, u64>(w.inventories),
    ensures
        drop_item_effect(w, command, caller, item).1 is Ok ==> {
            let after = drop_item_effect(w, command, caller, item).0;
            &&& command
            &&& drop_item_effect(w, command, caller, item).1 == Ok::<u64, ErrorV>(item)
            &&& inventory_of(w, caller).contains(item)
            &&& get(w.entities, caller) matches Some(c) && c.location is Some
            &&& get(after.entities, item) matches Some(i) && i.location == get(w.entities, caller)->0.location
            &&& inventory_of(after, caller).len() + 1 == inventory_of(w, caller).len()
        },
{
    if drop_item_effect(w, command, caller, item).1 is Ok {
        let c = get(w.entities, caller)->0;
        let items = get(w.inventories, caller)->0;
        let rest = items.remove(first_position(items, item));
        let w1 = with_inventory(w, caller, rest);
        let i = get(w.entities, item)->0;
        crate::maps::lemma_put::<u64, Seq<u64>, u64>(w.inventories, caller, rest);
        crate::maps::lemma_put::<u64, EntityV, u64>(w1.entities, item, relocated(i, c.location->0));
        lemma_first_position(items, item);
    }
}

/// An item is handed only to another actor standing with the caller, from
/// the caller's inventory: after a successful transfer the item is located
/// at the target and listed last in the target's inventory; a refused
/// transfer leaves the world as it was.
pub proof fn lemma_transfer_only_to_colocated_actors(w: WorldV, command: bool, caller: u64, item: u64, target: u64)
    requires
        crate::maps::sorted::<u64, EntityV, u64>(w.entities),
        crate::maps::sorted::<u64, Seq<u64>, u64>(w.inventories),
    ensures
        transfer_item_effect(w, command, caller, item, target).1 is Err ==> transfer_item_effect(
            w,
            command,
            caller,
            item,
            target,
        ).0 == w,
        transfer_item_effect(w, command, caller, item, target).1 is Ok ==> {
            let after = transfer_item_effect(w, command, caller, item, target).0;
            &&& command
            &&& target != caller
            &&& get(w.entities, target) matches Some(t) && t.kind == EntityKind::Actor
            &&& get(w.entities, caller) matches Some(c) && get(w.entities, target)->0.location == c.location
            &&& inventory_of(w, caller).contains(item)
            &&& get(after.entities, item) matches Some(i) && i.location == Some(target)
            &&& inventory_of(after, target) == inventory_of(w, target).push(item)
        },
{
    if transfer_item_effect(w, command, caller, item, target).1 is Ok {
        let items = get(w.inventories, caller)->0;
        let rest = items.remove(first_position(items, item));
        let w1 = with_inventory(w, caller, rest);
        crate::maps::lemma_put::<u64, Seq<u64>, u64>(w.inventories, caller, rest);
        assert(inventory_of(w1, target) == inventory_of(w, target));
        let w2 = with_inventory(w1, target, inventory_of(w1, target).push(item));
        crate::maps::lemma_put::<u64, Seq<u64>, u64>(w1.inventories, target, inventory_of(w1, target).push(item));
        let i = get(w.entities, item)->0;
        crate::maps::lemma_put::<u64, EntityV, u64>(w2.entities, item, relocated(i, target));
    }
}

/// The first item with a name is one of the items, and has that name.
proof fn lemma_first_named_held(w: WorldV, items: Seq<u64>, name: Seq<char>)
    ensures
        first_named(w, items, name) matches Some(x) ==> items.contains(x) && name_of(w, x) == Some(name),
    decreases items.len(),
{
    if items.len() > 0 {
        lemma_first_named_held(w, items.drop_first(), name);
        if first_named(w, items, name) is Some && name_of(w, items[0]) != Some(name) {
            let x = first_named(w, items, name)->0;
            let k = choose|k: int| 0 <= k < items.drop_first().len() && items.drop_first()[k] == x;
            assert(items[k + 1] == x);
        }
    }
}

/// Completing a quest: it succeeds only on an accepted (not yet completed)
/// quest while the caller holds an item with the required name, marks the
/// quest completed, and credits exactly the quest's reward to the owner of
/// the caller; a refused completion leaves the world as it was, and a
/// quest cannot be completed twice.
pub proof fn lemma_complete_once_with_reward(w: WorldV, command: bool, caller: u64, quest_id: Seq<char>)
    requires
        crate::maps::sorted::<Seq<char>, QuestProgressV, String>(w.quest_progress),
        crate::maps::sorted::<Seq<char>, AccountV, String>(w.accounts),
    ensures
        complete_effect(w, command, caller, quest_id).1 is Err ==> complete_effect(w, command, caller, quest_id).0 == w,
        complete_effect(w, command, caller, quest_id).1 is Ok ==> {
            let key = progress_key_text(caller, quest_id);
            let after = complete_effect(w, command, caller, quest_id).0;
            let q = get(w.quests, quest_id)->0;
            let owner = get(w.entities, caller)->0.owner;
            &&& command
            &&& get(w.quests, quest_id) is Some
            &&& get(w.quest_progress, key) matches Some(p) && p.status == QuestStatus::Accepted
            &&& get(after.quest_progress, key) matches Some(p) && p.status == QuestStatus::Completed
            &&& complete_effect(w, command, caller, quest_id).1 == Ok::<u64, ErrorV>(q.reward_balance)
            &&& get(w.entities, caller) is Some
            &&& exists|k: int|
                0 <= k < inventory_of(w, caller).len() && name_of(w, #[trigger] inventory_of(w, caller)[k]) == Some(
                    q.required_item,
                )
            &&& get(w.accounts, owner) matches Some(a) && get(after.accounts, owner) == Some(
                AccountV { balance: (a.balance + q.reward_balance) as u64, ..a },
            )
            &&& complete_effect(after, command, caller, quest_id).1 is Err
        },
{
    if complete_effect(w, command, caller, quest_id).1 is Ok {
        let key = progress_key_text(caller, quest_id);
        let q = get(w.quests, quest_id)->0;
        let p = get(w.quest_progress, key)->0;
        let a = get(w.entities, caller)->0;
        let acct = get(w.accounts, a.owner)->0;
        let item = first_named(w, inventory_of(w, caller), q.required_item)->0;
        lemma_first_named_held(w, inventory_of(w, caller), q.required_item);
        let nacct = AccountV { balance: (acct.balance + q.reward_balance) as u64, ..acct };
        crate::maps::lemma_put::<Seq<char>, AccountV, String>(w.accounts, a.owner, nacct);
        crate::maps::lemma_put::<Seq<char>, QuestProgressV, String>(
            w.quest_progress,
            key,
            QuestProgressV { status: QuestStatus::Completed, ..p },
        );
        match p.status {
            QuestStatus::Accepted => {},
            QuestStatus::Completed => {},
        }
    }
}


/// Scripts emit only their own kinds of event: an emitted event has a
/// non-empty kind that is none of the runtime's (`entity_changed`,
/// `quest_progress_changed`, `command_executed`, `transaction_executed`),
/// names an existing entity when it names one, and is appended to the log
/// under the next event id with the current head; a refused one changes
/// nothing.
pub proof fn lemma_emit_only_script_events(w: WorldV, command: bool, kind: Seq<char>, entity_id: Option<u64>, data: JsonV)
    requires
        command ==> w.next_event_id < u64::MAX,
    ensures
        emit_effect(w, command, kind, entity_id, data).1 is Err ==> emit_effect(w, command, kind, entity_id, data).0 == w,
        emit_effect(w, command, kind, entity_id, data).1 is Ok ==> {
            let after = emit_effect(w, command, kind, entity_id, data).0;
            &&& command
            &&& kind.len() > 0
            &&& kind != "entity_changed"@ && kind != "quest_progress_changed"@ && kind != "command_executed"@
            &&& kind != "transaction_executed"@
            &&& (entity_id matches Some(id) ==> has_key(w.entities, id))
            &&& emit_effect(w, command, kind, entity_id, data).1 == Ok::<u64, ErrorV>(w.next_event_id)
            &&& after.events == w.events.push(
                crate::model::WorldEventV { id: w.next_event_id, head: w.head, kind, entity_id, data },
            )
            &&& after.next_event_id == w.next_event_id + 1
            &&& after.entities == w.entities && after.accounts == w.accounts
        },
{
}

/// A credit goes to the caller's owner: a successful credit adds exactly
/// the amount to that account's balance and returns the new balance; a
/// refused one (no caller, no account, overflow, query) changes nothing.
pub proof fn lemma_credit_adds_to_owner(w: WorldV, command: bool, caller: u64, amount: u64)
    requires
        crate::maps::sorted::<Seq<char>, AccountV, String>(w.accounts),
    ensures
        credit_effect(w, command, caller, amount).1 is Err ==> credit_effect(w, command, caller, amount).0 == w,
        credit_effect(w, command, caller, amount).1 is Ok ==> {
            let after = credit_effect(w, command, caller, amount).0;
            let owner = get(w.entities, caller)->0.owner;
            &&& command
            &&& get(w.entities, caller) is Some
            &&& get(w.accounts, owner) matches Some(a) && a.balance + amount <= u64::MAX
                && credit_effect(w, command, caller, amount).1 == Ok::<u64, ErrorV>((a.balance + amount) as u64)
                && get(after.accounts, owner) == Some(AccountV { balance: (a.balance + amount) as u64, ..a })
            &&& forall|n: Seq<char>| n != owner ==> #[trigger] get(after.accounts, n) == get(w.accounts, n)
            &&& after == (WorldV { accounts: after.accounts, ..w })
        },
{
    if credit_effect(w, command, caller, amount).1 is Ok {
        let c = get(w.entities, caller)->0;
        let a = get(w.accounts, c.owner)->0;
        crate::maps::lemma_put::<Seq<char>, AccountV, String>(
            w.accounts,
            c.owner,
            AccountV { balance: (a.balance + amount) as u64, ..a },
        );
    }
}

/// Only what the caller's owner owns can be moved or changed: a successful
/// move or data update found the target with the caller's owner, the move
/// into an existing location, and leaves exactly the new location or data
/// value; refused ones change nothing.
pub proof fn lemma_owner_moves_and_updates(
    w: WorldV,
    command: bool,
    caller: u64,
    id: u64,
    location: u64,
    key: Seq<char>,
    value: JsonV,
)
    requires
        crate::maps::sorted::<u64, EntityV, u64>(w.entities),
        forall|p: int| 0 <= p < w.entities.len() ==> crate::maps::sorted::<Seq<char>, JsonV, String>(#[trigger] w.entities[p].1.data),
    ensures
        move_entity_effect(w, command, caller, id, location).1 is Err ==> move_entity_effect(w, command, caller, id, location).0 == w,
        move_entity_effect(w, command, caller, id, location).1 is Ok ==> {
            let after = move_entity_effect(w, command, caller, id, location).0;
            &&& command
            &&& get(w.entities, caller) matches Some(c) && get(w.entities, id) matches Some(t) && t.owner == c.owner
            &&& has_key(w.entities, location)
            &&& get(after.entities, id) == Some(EntityV { location: Some(location), ..get(w.entities, id)->0 })
        },
        update_data_effect(w, command, caller, id, key, value).1 is Err ==> update_data_effect(w, command, caller, id, key, value).0 == w,
        update_data_effect(w, command, caller, id, key, value).1 is Ok ==> {
            let after = update_data_effect(w, command, caller, id, key, value).0;
            &&& command
            &&& get(w.entities, caller) matches Some(c) && get(w.entities, id) matches Some(t) && t.owner == c.owner
            &&& get(after.entities, id) matches Some(e) && get(e.data, key) == Some(value)
                && e.owner == get(w.entities, id)->0.owner
        },
{
    if move_entity_effect(w, command, caller, id, location).1 is Ok {
        let t = get(w.entities, id)->0;
        crate::maps::lemma_put::<u64, EntityV, u64>(w.entities, id, relocated(t, location));
    }
    if update_data_effect(w, command, caller, id, key, value).1 is Ok {
        let t = get(w.entities, id)->0;
        let i = index_of(w.entities, id);
        assert(w.entities[i].1 == t);
        let e = EntityV { data: put::<Seq<char>, JsonV, String>(t.data, key, value), ..t };
        crate::maps::lemma_put::<Seq<char>, JsonV, String>(t.data, key, value);
        crate::maps::lemma_put::<u64, EntityV, u64>(w.entities, id, e);
    }
}

} // verus!
