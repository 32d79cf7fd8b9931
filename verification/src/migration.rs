//! Moving inventories kept in an actor's `inventory` data, as older worlds
//! did, into the world's inventory table.
use crate::error::{err, first_error, in_context, lemma_first_error_end, lemma_first_error_start, lemma_first_error_step, Context, Error, ErrorKind, ErrorV};
use crate::host::{inventory_of, relocated, with_entity};
use crate::inventory::{inventory_errors, positions};
use crate::json::{as_u64, items_view, lemma_items_view, Json, JsonV};
use crate::maps::{del, get, has_key, index_of, lemma_del, lemma_index_of, lemma_put, put, sorted, DeepCopy, SortedMap};
use crate::model::{EntityKind, EntityV, WorldState, WorldV};
use crate::text::{decimal, u64_to_string};
use crate::validate::location_errors;
use vstd::prelude::*;

verus! {

/// The legacy inventory an entity carries: an actor's `inventory` data.
pub open spec fn legacy_list(e: EntityV) -> Option<JsonV> {
    if e.kind == EntityKind::Actor {
        get(e.data, "inventory"@)
    } else {
        None
    }
}

/// The numbers of a legacy list's entries.
pub open spec fn list_ids(vs: Seq<JsonV>) -> Seq<u64> {
    Seq::new(vs.len(), |k: int| as_u64(vs[k])->0)
}

/// The actor of the last of the first `p` entities whose legacy list names `x`.
pub open spec fn legacy_claimer(w: WorldV, p: int, x: u64) -> Option<u64>
    decreases p,
{
    if p <= 0 {
        None
    } else {
        match legacy_list(w.entities[p - 1].1) {
            Some(JsonV::Array(vs)) => if list_ids(vs).take(vs.len() as int).contains(x) {
                Some(w.entities[p - 1].1.id)
            } else {
                legacy_claimer(w, p - 1, x)
            },
            _ => legacy_claimer(w, p - 1, x),
        }
    }
}

/// The error of the `k`-th entry of the legacy list of the `p`-th entity, if any.
pub open spec fn legacy_item_error(w: WorldV, p: int, k: int) -> Option<ErrorV> {
    let e = w.entities[p].1;
    let vs = legacy_list(e)->0->Array_0;
    let actor = decimal(e.id as nat);
    match as_u64(vs[k]) {
        None => Some(err(ErrorKind::LegacyInventoryNonInteger, seq![actor, decimal(k as nat)])),
        Some(x) => if list_ids(vs).take(k).contains(x) {
            Some(err(ErrorKind::LegacyInventoryDuplicate, seq![actor, decimal(x as nat)]))
        } else {
            match get(w.entities, x) {
                None => Some(err(ErrorKind::LegacyInventoryMissingItem, seq![actor, decimal(x as nat)])),
                Some(i) => if i.kind != EntityKind::Item {
                    Some(err(ErrorKind::LegacyInventoryNonItem, seq![actor, decimal(x as nat)]))
                } else {
                    match legacy_claimer(w, p, x) {
                        Some(prev) => Some(
                            err(ErrorKind::LegacyItemClaimedTwice, seq![decimal(x as nat), decimal(prev as nat), actor]),
                        ),
                        None => None,
                    }
                },
            }
        },
    }
}

pub open spec fn legacy_item_check(w: WorldV, p: int) -> spec_fn(int) -> Option<ErrorV> {
    |k: int| legacy_item_error(w, p, k)
}

/// The error of the legacy list of the `p`-th entity, if any.
pub open spec fn legacy_entity_error(w: WorldV, p: int) -> Option<ErrorV> {
    let e = w.entities[p].1;
    match legacy_list(e) {
        None => None,
        Some(JsonV::Array(vs)) => first_error(positions(vs.len()), legacy_item_check(w, p)),
        Some(_) => Some(err(ErrorKind::LegacyInventoryNotArray, seq![decimal(e.id as nat)])),
    }
}

pub open spec fn legacy_entity_check(w: WorldV) -> spec_fn(int) -> Option<ErrorV> {
    |p: int| legacy_entity_error(w, p)
}

/// The first error among the legacy inventories, in entity id order.
pub open spec fn legacy_errors(w: WorldV) -> Option<ErrorV> {
    first_error(positions(w.entities.len()), legacy_entity_check(w))
}

/// The legacy inventories of the first `p` entities, as actor and item ids.
pub open spec fn legacy_migrations_upto(w: WorldV, p: int) -> Seq<(u64, Seq<u64>)>
    decreases p,
{
    if p <= 0 {
        seq![]
    } else {
        let prev = legacy_migrations_upto(w, p - 1);
        match legacy_list(w.entities[p - 1].1) {
            Some(JsonV::Array(vs)) => prev.push((w.entities[p - 1].1.id, list_ids(vs))),
            _ => prev,
        }
    }
}

/// Every legacy inventory, in entity id order.
pub open spec fn legacy_migrations(w: WorldV) -> Seq<(u64, Seq<u64>)> {
    legacy_migrations_upto(w, w.entities.len() as int)
}

/// The list with each new item appended once.
pub open spec fn append_new(list: Seq<u64>, items: Seq<u64>) -> Seq<u64>
    decreases items.len(),
{
    if items.len() == 0 {
        list
    } else {
        let prev = append_new(list, items.drop_last());
        if prev.contains(items.last()) {
            prev
        } else {
            prev.push(items.last())
        }
    }
}

/// The world with each listed item located at the actor.
pub open spec fn relocate_items(w: WorldV, items: Seq<u64>, actor: u64) -> WorldV
    decreases items.len(),
{
    if items.len() == 0 {
        w
    } else {
        let w1 = relocate_items(w, items.drop_last(), actor);
        with_entity(w1, items.last(), relocated(get(w1.entities, items.last())->0, actor))
    }
}

/// One actor's migration: its `inventory` data is dropped, the items join
/// its inventory once each, and each item is located at the actor.
pub open spec fn apply_migration(w: WorldV, actor: u64, items: Seq<u64>) -> WorldV {
    let e = get(w.entities, actor)->0;
    let w1 = with_entity(w, actor, EntityV { data: del(e.data, "inventory"@), ..e });
    let w2 = WorldV {
        inventories: put::<u64, Seq<u64>, u64>(w1.inventories, actor, append_new(inventory_of(w1, actor), items)),
        ..w1
    };
    relocate_items(w2, items, actor)
}

/// Every migration, in order.
pub open spec fn apply_migrations(w: WorldV, migs: Seq<(u64, Seq<u64>)>) -> WorldV
    decreases migs.len(),
{
    if migs.len() == 0 {
        w
    } else {
        let w1 = apply_migrations(w, migs.drop_last());
        apply_migration(w1, migs.last().0, migs.last().1)
    }
}

/// Migrating the legacy inventories: nothing changes when there are none;
/// otherwise the migrated world, one head later, must have valid locations
/// and inventories.
pub open spec fn migration_effect(w: WorldV) -> Result<(WorldV, bool), ErrorV> {
    match legacy_errors(w) {
        Some(e) => Err(e),
        None => {
            let migs = legacy_migrations(w);
            if migs.len() == 0 {
                Ok((w, false))
            } else if w.head == u64::MAX {
                Err(err(ErrorKind::HeadOverflow, seq![]))
            } else {
                let c = WorldV { head: (w.head + 1) as u64, ..apply_migrations(w, migs) };
                match location_errors(c) {
                    Some(e) => Err(in_context(e, Context::MigratedLocations)),
                    None => match inventory_errors(c) {
                        Some(e) => Err(in_context(e, Context::MigratedInventories)),
                        None => Ok((c, true)),
                    },
                }
            }
        },
    }
}

/// Whether every migrated item is an existing entity.
pub open spec fn migrations_resolved(w: WorldV, migs: Seq<(u64, Seq<u64>)>) -> bool {
    forall|i: int, k: int| 0 <= i < migs.len() && 0 <= k < migs[i].1.len() ==> has_key(w.entities, #[trigger] migs[i].1[k])
}

/// Whether `x` occurs among the first `k` numbers.
fn number_before(v: &Vec<u64>, k: usize, x: u64) -> (r: bool)
    requires
        k <= v@.len(),
    ensures
        r == v@.take(k as int).contains(x),
{
    let mut j: usize = 0;
    while j < k
        invariant
            k <= v@.len(),
            j <= k,
            forall|i: int| 0 <= i < j ==> v@[i] != x,
        decreases k - j,
    {
        if v[j] == x {
            assert(v@.take(k as int)[j as int] == x);
            return true;
        }
        j += 1;
    }
    assert forall|i: int| 0 <= i < v@.take(k as int).len() implies v@.take(k as int)[i] != x by {
        assert(v@.take(k as int)[i] == v@[i]);
    }
    false
}

/// The legacy inventories, checked: every entry a number, no item listed
/// twice or by two actors, every item an existing item entity.
pub fn collect_legacy_inventories(state: &WorldState) -> (r: Result<Vec<(u64, Vec<u64>)>, Error>)
    ensures
        match legacy_errors(state@) {
            Some(e) => r matches Err(x) && x@ == e,
            None => r matches Ok(m) && m@.len() == legacy_migrations(state@).len() && forall|i: int|
                0 <= i < m@.len() ==> (#[trigger] m@[i]).0 == legacy_migrations(state@)[i].0 && m@[i].1@
                    == legacy_migrations(state@)[i].1,
        },
        r is Ok ==> migrations_resolved(state@, legacy_migrations(state@)),
{
    let ghost w = state@;
    let ghost f = legacy_entity_check(w);
    let n = state.entities.len();
    let ghost s = positions(n as nat);
    let mut migrations: Vec<(u64, Vec<u64>)> = Vec::new();
    let mut claimed_by: SortedMap<u64, u64> = SortedMap::new();
    proof {
        lemma_first_error_start(s, f);
    }
    let inventory_key = "inventory".to_owned();
    let mut p: usize = 0;
    while p < n
        invariant
            w == state@,
            n == w.entities.len(),
            p <= n,
            f == legacy_entity_check(w),
            s == positions(n as nat),
            inventory_key@ == "inventory"@,
            first_error(s, f) == first_error(s.skip(p as int), f),
            forall|x: u64| #[trigger] get(claimed_by@, x) == legacy_claimer(w, p as int, x),
            migrations@.len() == legacy_migrations_upto(w, p as int).len(),
            forall|i: int|
                0 <= i < migrations@.len() ==> (#[trigger] migrations@[i]).0 == legacy_migrations_upto(w, p as int)[i].0
                    && migrations@[i].1@ == legacy_migrations_upto(w, p as int)[i].1,
            migrations_resolved(w, legacy_migrations_upto(w, p as int)),
        decreases n - p,
    {
        proof {
            lemma_first_error_step(s, f, p as int);
        }
        let actor = state.entities.value_at(p);
        let ghost e = actor@;
        assert(w.entities[p as int].1 == e);
        assert(f(s[p as int]) == legacy_entity_error(w, p as int));
        let value = if actor.kind == EntityKind::Actor {
            actor.data.get(&inventory_key)
        } else {
            None
        };
        assert(legacy_list(e) == match value {
            Some(v) => Some(v@),
            None => None::<JsonV>,
        });
        let ghost prev_migs = legacy_migrations_upto(w, p as int);
        match value {
            None => {
                assert(legacy_migrations_upto(w, p + 1) == prev_migs);
            },
            Some(v) => {
                let values = match v.as_array() {
                    None => {
                        return Err(Error::one(ErrorKind::LegacyInventoryNotArray, u64_to_string(actor.id)));
                    },
                    Some(vs) => vs,
                };
                let ghost vs = items_view(values@);
                proof {
                    lemma_items_view(values@);
                }
                let ghost g = legacy_item_check(w, p as int);
                let m = values.len();
                let ghost t = positions(m as nat);
                proof {
                    lemma_first_error_start(t, g);
                }
                let mut item_ids: Vec<u64> = Vec::new();
                let mut k: usize = 0;
                while k < m
                    invariant
                        w == state@,
                        n == w.entities.len(),
                        p < n,
                        e == w.entities[p as int].1,
                        e.id == actor.id,
                        legacy_list(e) == Some(JsonV::Array(vs)),
                        vs == items_view(values@),
                        vs.len() == values@.len(),
                        forall|i: int| 0 <= i < values@.len() ==> #[trigger] vs[i] == values@[i]@,
                        m == values@.len(),
                        k <= m,
                        g == legacy_item_check(w, p as int),
                        t == positions(m as nat),
                        f == legacy_entity_check(w),
                        s == positions(n as nat),
                        first_error(s, f) == match first_error(t, g) {
                            Some(e) => Some(e),
                            None => first_error(s.skip(p + 1), f),
                        },
                        first_error(t, g) == first_error(t.skip(k as int), g),
                        item_ids@ == list_ids(vs).take(k as int),
                        forall|j: int| 0 <= j < k ==> has_key(w.entities, #[trigger] item_ids@[j]),
                        forall|x: u64| #[trigger]
                            get(claimed_by@, x) == if item_ids@.contains(x) {
                                Some(actor.id)
                            } else {
                                legacy_claimer(w, p as int, x)
                            },
                    decreases m - k,
                {
                    proof {
                        lemma_first_error_step(t, g, k as int);
                    }
                    assert(g(t[k as int]) == legacy_item_error(w, p as int, k as int));
                    let item_id = match values[k].as_u64() {
                        None => {
                            return Err(Error::two(ErrorKind::LegacyInventoryNonInteger, u64_to_string(actor.id), u64_to_string(k as u64)));
                        },
                        Some(x) => x,
                    };
                    if number_before(&item_ids, k, item_id) {
                        assert(item_ids@.take(k as int) =~= list_ids(vs).take(k as int));
                        return Err(Error::two(ErrorKind::LegacyInventoryDuplicate, u64_to_string(actor.id), u64_to_string(item_id)));
                    }
                    proof {
                        assert(item_ids@.take(k as int) =~= item_ids@);
                    }
                    match state.entities.get(&item_id) {
                        None => {
                            return Err(Error::two(ErrorKind::LegacyInventoryMissingItem, u64_to_string(actor.id), u64_to_string(item_id)));
                        },
                        Some(item) => {
                            if item.kind != EntityKind::Item {
                                return Err(Error::two(ErrorKind::LegacyInventoryNonItem, u64_to_string(actor.id), u64_to_string(item_id)));
                            }
                        },
                    }
                    let ghost before = claimed_by@;
                    let _ = claimed_by.len();
                    match claimed_by.insert(item_id, actor.id) {
                        Some(previous) => {
                            return Err(Error::three(ErrorKind::LegacyItemClaimedTwice, u64_to_string(item_id), u64_to_string(previous), u64_to_string(actor.id)));
                        },
                        None => {},
                    }
                    let ghost prefix = item_ids@;
                    assert(!list_ids(vs).take(k as int).contains(item_id));
                    assert(legacy_claimer(w, p as int, item_id) is None);
                    assert(legacy_item_error(w, p as int, k as int) is None);
                    item_ids.push(item_id);
                    proof {
                        lemma_put::<u64, u64, u64>(before, item_id, actor.id);
                        assert(item_ids@ =~= list_ids(vs).take(k + 1));
                        assert forall|y: u64| #[trigger] item_ids@.contains(y) == (prefix.contains(y) || y == item_id) by {
                            if prefix.contains(y) {
                                let j = choose|j: int| 0 <= j < prefix.len() && prefix[j] == y;
                                assert(item_ids@[j] == y);
                            }
                            if item_ids@.contains(y) && y != item_id {
                                let j = choose|j: int| 0 <= j < item_ids@.len() && item_ids@[j] == y;
                                assert(prefix[j] == y);
                            }
                            assert(item_ids@[k as int] == item_id);
                        }
                        assert forall|y: u64| #[trigger] get(claimed_by@, y) == if item_ids@.contains(y) {
                            Some(actor.id)
                        } else {
                            legacy_claimer(w, p as int, y)
                        } by {
                            assert(get(before, y) == if prefix.contains(y) {
                                Some(actor.id)
                            } else {
                                legacy_claimer(w, p as int, y)
                            });
                        }
                    }
                    k += 1;
                }
                proof {
                    lemma_first_error_end(t, g);
                    assert(list_ids(vs).take(m as int) =~= list_ids(vs));
                    assert(legacy_migrations_upto(w, p + 1) == prev_migs.push((e.id, list_ids(vs))));
                    assert forall|x: u64| #[trigger] get(claimed_by@, x) == legacy_claimer(w, p + 1, x) by {
                        assert(list_ids(vs).take(vs.len() as int) =~= list_ids(vs));
                    }
                    let nm = prev_migs.push((e.id, list_ids(vs)));
                    assert forall|i: int, j: int| 0 <= i < nm.len() && 0 <= j < nm[i].1.len() implies has_key(
                        w.entities,
                        #[trigger] nm[i].1[j],
                    ) by {
                        if i < prev_migs.len() {
                            assert(nm[i] == prev_migs[i]);
                        } else {
                            assert(nm[i].1 == item_ids@);
                        }
                    }
                }
                migrations.push((actor.id, item_ids));
            },
        }
        p += 1;
    }
    proof {
        lemma_first_error_end(s, f);
    }
    Ok(migrations)
}


/// Whether every entity is stored under its own id.
pub open spec fn entity_ids_match(w: WorldV) -> bool {
    forall|p: int| 0 <= p < w.entities.len() ==> (#[trigger] w.entities[p]).0 == w.entities[p].1.id
}

proof fn lemma_migration_actors(w: WorldV, p: int)
    requires
        entity_ids_match(w),
        0 <= p <= w.entities.len(),
    ensures
        forall|i: int| 0 <= i < legacy_migrations_upto(w, p).len() ==> has_key(w.entities, #[trigger] legacy_migrations_upto(w, p)[i].0),
    decreases p,
{
    if p > 0 {
        lemma_migration_actors(w, p - 1);
        let prev = legacy_migrations_upto(w, p - 1);
        let cur = legacy_migrations_upto(w, p);
        assert(w.entities[p - 1].0 == w.entities[p - 1].1.id);
        assert(has_key(w.entities, w.entities[p - 1].0));
        assert forall|i: int| 0 <= i < cur.len() implies has_key(w.entities, #[trigger] cur[i].0) by {
            if i < prev.len() {
                assert(cur[i] == prev[i]);
            }
        }
    }
}

/// Whether `x` is in the list.
fn listed(v: &Vec<u64>, x: u64) -> (r: bool)
    ensures
        r == v@.contains(x),
{
    let r = number_before(v, v.len(), x);
    assert(v@.take(v@.len() as int) =~= v@);
    r
}

/// Moves every legacy inventory into the inventory table, one head later,
/// when there is any; returns whether there was. The world is left as it
/// was when the legacy data is malformed or the result would not be valid.
pub fn migrate_legacy_inventories(state: &mut WorldState) -> (r: Result<bool, Error>)
    requires
        entity_ids_match(old(state)@),
    ensures
        match migration_effect(old(state)@) {
            Ok((w, changed)) => r == Ok::<bool, Error>(changed) && final(state)@ == w,
            Err(e) => r matches Err(x) && x@ == e && final(state)@ == old(state)@,
        },
{
    let ghost w = state@;
    let migrations = match collect_legacy_inventories(state) {
        Ok(m) => m,
        Err(e) => {
            return Err(e);
        },
    };
    let ghost migs = legacy_migrations(w);
    if migrations.len() == 0 {
        return Ok(false);
    }
    proof {
        lemma_migration_actors(w, w.entities.len() as int);
        assert(migs.take(0) =~= seq![]);
    }
    let mut candidate = state.deep_copy();
    let inventory_key = "inventory".to_owned();
    let mut i: usize = 0;
    while i < migrations.len()
        invariant
            w == old(state)@,
            w == state@,
            migs == legacy_migrations(w),
            migrations@.len() == migs.len(),
            forall|x: int|
                0 <= x < migrations@.len() ==> (#[trigger] migrations@[x]).0 == migs[x].0 && migrations@[x].1@
                    == migs[x].1,
            forall|x: int| 0 <= x < migs.len() ==> has_key(w.entities, #[trigger] migs[x].0),
            migrations_resolved(w, migs),
            inventory_key@ == "inventory"@,
            i <= migrations@.len(),
            candidate@ == apply_migrations(w, migs.take(i as int)),
            candidate@.head == w.head,
            forall|x: u64| #[trigger] has_key(candidate@.entities, x) == has_key(w.entities, x),
        decreases migrations.len() - i,
    {
        let actor = migrations[i].0;
        let items = &migrations[i].1;
        let ghost w0 = candidate@;
        assert(has_key(w.entities, migs[i as int].0));
        assert(migrations@[i as int].0 == migs[i as int].0);
        assert(has_key(candidate@.entities, actor));
        // Drop the actor's `inventory` data.
        let at = match candidate.entities.find(&actor) {
            Some(at) => at,
            None => {
                assert(false);
                0
            },
        };
        proof {
            lemma_index_of::<u64, EntityV, u64>(w0.entities, at as int);
        }
        let mut e = candidate.entities.value_at(at).deep_copy();
        e.data.remove(&inventory_key);
        candidate.entities.set_value_at(at, e);
        let ghost w1 = candidate@;
        proof {
            lemma_put::<u64, EntityV, u64>(w0.entities, actor, w1.entities[at as int].1);
        }
        // Append the items not yet listed.
        let mut list = candidate.inventory(actor);
        let ghost start = list@;
        let mut k: usize = 0;
        while k < items.len()
            invariant
                k <= items@.len(),
                list@ == append_new(start, items@.take(k as int)),
            decreases items.len() - k,
        {
            proof {
                assert(items@.take(k + 1).drop_last() =~= items@.take(k as int));
            }
            if !listed(&list, items[k]) {
                list.push(items[k]);
            }
            k += 1;
        }
        proof {
            assert(items@.take(items@.len() as int) =~= items@);
        }
        candidate.store_inventory(actor, list);
        let ghost w2 = candidate@;
        // Locate every item at the actor.
        let mut k: usize = 0;
        while k < items.len()
            invariant
                k <= items@.len(),
                items@ == migs[i as int].1,
                migrations_resolved(w, migs),
                i < migs.len(),
                forall|x: u64| #[trigger] has_key(candidate@.entities, x) == has_key(w.entities, x),
                candidate@ == relocate_items(w2, items@.take(k as int), actor),
                candidate@.head == w.head,
                w2.head == w.head,
            decreases items.len() - k,
        {
            proof {
                assert(items@.take(k + 1).drop_last() =~= items@.take(k as int));
                assert(has_key(w.entities, migs[i as int].1[k as int]));
            }
            let ghost before = candidate@;
            let _ = candidate.entities.len();
            candidate.relocate(items[k], actor);
            proof {
                lemma_put::<u64, EntityV, u64>(
                    before.entities,
                    items@[k as int],
                    relocated(get(before.entities, items@[k as int])->0, actor),
                );
            }
            k += 1;
        }
        proof {
            assert(items@.take(items@.len() as int) =~= items@);
            assert(migs.take(i + 1).drop_last() =~= migs.take(i as int));
        }
        i += 1;
    }
    proof {
        assert(migs.take(migrations@.len() as int) =~= migs);
    }
    candidate.head = match candidate.head.checked_add(1) {
        Some(h) => h,
        None => {
            return Err(Error::plain(ErrorKind::HeadOverflow));
        },
    };
    match candidate.validate_locations() {
        Ok(()) => {},
        Err(e) => {
            return Err(e.with_context(Context::MigratedLocations));
        },
    }
    match candidate.validate_inventories() {
        Ok(()) => {},
        Err(e) => {
            return Err(e.with_context(Context::MigratedInventories));
        },
    }
    *state = candidate;
    Ok(true)
}

/// Relocating items changes only the entities.
proof fn lemma_relocate_keeps(w: WorldV, items: Seq<u64>, actor: u64)
    ensures
        relocate_items(w, items, actor) == (WorldV { entities: relocate_items(w, items, actor).entities, ..w }),
    decreases items.len(),
{
    if items.len() > 0 {
        lemma_relocate_keeps(w, items.drop_last(), actor);
    }
}

/// Migrations change only the entities and the inventories.
proof fn lemma_migrations_keep(w: WorldV, migs: Seq<(u64, Seq<u64>)>)
    ensures
        apply_migrations(w, migs) == (WorldV {
            entities: apply_migrations(w, migs).entities,
            inventories: apply_migrations(w, migs).inventories,
            ..w
        }),
    decreases migs.len(),
{
    if migs.len() > 0 {
        let w1 = apply_migrations(w, migs.drop_last());
        lemma_migrations_keep(w, migs.drop_last());
        let actor = migs.last().0;
        let items = migs.last().1;
        let e = get(w1.entities, actor)->0;
        let a = with_entity(w1, actor, EntityV { data: del(e.data, "inventory"@), ..e });
        let b = WorldV {
            inventories: put::<u64, Seq<u64>, u64>(a.inventories, actor, append_new(inventory_of(a, actor), items)),
            ..a
        };
        lemma_relocate_keeps(b, items, actor);
    }
}

/// A successful migration keeps the accounts, contracts, quests, progress
/// records and entity counter, and advances the head by at most one.
pub proof fn lemma_migration_keeps(w: WorldV)
    ensures
        migration_effect(w) matches Ok((c, _)) ==> {
            &&& c.accounts == w.accounts
            &&& c.contracts == w.contracts
            &&& c.quests == w.quests
            &&& c.quest_progress == w.quest_progress
            &&& c.next_entity_id == w.next_entity_id
            &&& c.head <= w.head + 1
        },
{
    lemma_migrations_keep(w, legacy_migrations(w));
}

/// Whether each entity is stored under its own id.
pub fn entity_ids_consistent(state: &WorldState) -> (r: bool)
    ensures
        r == entity_ids_match(state@),
{
    let n = state.entities.len();
    let mut i: usize = 0;
    while i < n
        invariant
            n == state@.entities.len(),
            i <= n,
            forall|p: int| 0 <= p < i ==> (#[trigger] state@.entities[p]).0 == state@.entities[p].1.id,
        decreases n - i,
    {
        if *state.entities.key_at(i) != state.entities.value_at(i).id {
            return false;
        }
        i += 1;
    }
    true
}

// ----------------------------------------------------------------------
// Migrating twice
// ----------------------------------------------------------------------

/// Whether no actor keeps an inventory in its data.
pub open spec fn no_legacy_inventories(w: WorldV) -> bool {
    forall|p: int| 0 <= p < w.entities.len() ==> legacy_list(#[trigger] w.entities[p].1) is None
}

proof fn lemma_no_legacy_upto(w: WorldV, p: int)
    requires
        no_legacy_inventories(w),
        0 <= p <= w.entities.len(),
    ensures
        legacy_migrations_upto(w, p).len() == 0,
    decreases p,
{
    if p > 0 {
        lemma_no_legacy_upto(w, p - 1);
        assert(legacy_list(w.entities[p - 1].1) is None);
    }
}

/// A world without legacy inventories migrates to itself, unchanged.
pub proof fn lemma_no_legacy_effect(w: WorldV)
    requires
        no_legacy_inventories(w),
    ensures
        migration_effect(w) == Ok::<(WorldV, bool), ErrorV>((w, false)),
{
    let s = positions(w.entities.len());
    let f = legacy_entity_check(w);
    assert forall|i: int| 0 <= i < s.len() implies (#[trigger] f(s[i])) is None by {
        assert(legacy_list(w.entities[i].1) is None);
    }
    crate::error::lemma_first_error_none(s, f);
    lemma_no_legacy_upto(w, w.entities.len() as int);
}

/// Without legacy errors, every legacy list is an array of existing
/// entities, and every actor that keeps one is among the migrations.
proof fn lemma_legacy_lists(w: WorldV, p: int)
    requires
        legacy_errors(w) is None,
        entity_ids_match(w),
        0 <= p <= w.entities.len(),
    ensures
        migrations_resolved(w, legacy_migrations_upto(w, p)),
        forall|j: int|
            0 <= j < legacy_migrations_upto(w, p).len() ==> has_key(w.entities, #[trigger] legacy_migrations_upto(w, p)[j].0),
        forall|q: int|
            0 <= q < p && legacy_list(#[trigger] w.entities[q].1) is Some ==> exists|j: int|
                0 <= j < legacy_migrations_upto(w, p).len() && legacy_migrations_upto(w, p)[j].0 == w.entities[q].0,
    decreases p,
{
    if p > 0 {
        lemma_legacy_lists(w, p - 1);
        let prev = legacy_migrations_upto(w, p - 1);
        let cur = legacy_migrations_upto(w, p);
        let s = positions(w.entities.len());
        let f = legacy_entity_check(w);
        crate::error::lemma_first_error_none(s, f);
        assert(f(s[p - 1]) is None);
        let e = w.entities[p - 1].1;
        assert(w.entities[p - 1].0 == e.id);
        match legacy_list(e) {
            Some(JsonV::Array(vs)) => {
                assert(cur == prev.push((e.id, list_ids(vs))));
                let t = positions(vs.len());
                let g = legacy_item_check(w, p - 1);
                crate::error::lemma_first_error_none(t, g);
                assert forall|i: int, k: int| 0 <= i < cur.len() && 0 <= k < cur[i].1.len() implies has_key(
                    w.entities,
                    #[trigger] cur[i].1[k],
                ) by {
                    if i < prev.len() {
                        assert(cur[i] == prev[i]);
                    } else {
                        assert(g(t[k]) is None);
                        assert(legacy_item_error(w, p - 1, k) is None);
                    }
                }
                assert forall|j: int| 0 <= j < cur.len() implies has_key(w.entities, #[trigger] cur[j].0) by {
                    if j < prev.len() {
                        assert(cur[j] == prev[j]);
                    } else {
                        assert(w.entities[p - 1].0 == cur[j].0);
                    }
                }
                assert forall|q: int| 0 <= q < p && legacy_list(#[trigger] w.entities[q].1) is Some implies exists|j: int|
                    0 <= j < cur.len() && cur[j].0 == w.entities[q].0 by {
                    if q < p - 1 {
                        let j = choose|j: int| 0 <= j < prev.len() && prev[j].0 == w.entities[q].0;
                        assert(cur[j] == prev[j]);
                    } else {
                        assert(cur[prev.len() as int].0 == w.entities[q].0);
                    }
                }
            },
            Some(_) => {
                assert(false);
            },
            None => {
                assert(cur == prev);
            },
        }
    }
}

/// Relocating existing items keeps the keys, the order, and each entity's kind and data.
proof fn lemma_relocate_entities(w: WorldV, items: Seq<u64>, actor: u64)
    requires
        sorted::<u64, EntityV, u64>(w.entities),
        forall|k: int| 0 <= k < items.len() ==> has_key(w.entities, #[trigger] items[k]),
    ensures
        sorted::<u64, EntityV, u64>(relocate_items(w, items, actor).entities),
        forall|x: u64| #[trigger] has_key(relocate_items(w, items, actor).entities, x) == has_key(w.entities, x),
        forall|x: u64|
            has_key(w.entities, x) ==> (#[trigger] get(relocate_items(w, items, actor).entities, x)->0).kind == get(
                w.entities,
                x,
            )->0.kind && get(relocate_items(w, items, actor).entities, x)->0.data == get(w.entities, x)->0.data,
    decreases items.len(),
{
    if items.len() > 0 {
        let w1 = relocate_items(w, items.drop_last(), actor);
        lemma_relocate_entities(w, items.drop_last(), actor);
        let it = items.last();
        assert(has_key(w.entities, items[items.len() - 1]));
        lemma_put::<u64, EntityV, u64>(w1.entities, it, relocated(get(w1.entities, it)->0, actor));
    }
}

/// After the first `i` migrations, an entity that still keeps a legacy
/// inventory is an actor whose migration is still to come.
proof fn lemma_migrations_clear(w: WorldV, migs: Seq<(u64, Seq<u64>)>, i: int)
    requires
        sorted::<u64, EntityV, u64>(w.entities),
        migrations_resolved(w, migs),
        forall|j: int| 0 <= j < migs.len() ==> has_key(w.entities, #[trigger] migs[j].0),
        forall|x: u64| has_key(w.entities, x) ==> sorted::<Seq<char>, JsonV, String>(#[trigger] get(w.entities, x)->0.data),
        forall|x: u64|
            has_key(w.entities, x) && legacy_list(#[trigger] get(w.entities, x)->0) is Some ==> exists|j: int|
                0 <= j < migs.len() && migs[j].0 == x,
        0 <= i <= migs.len(),
    ensures
        sorted::<u64, EntityV, u64>(apply_migrations(w, migs.take(i)).entities),
        forall|x: u64| #[trigger] has_key(apply_migrations(w, migs.take(i)).entities, x) == has_key(w.entities, x),
        forall|x: u64|
            has_key(apply_migrations(w, migs.take(i)).entities, x) ==> sorted::<Seq<char>, JsonV, String>(
                #[trigger] get(apply_migrations(w, migs.take(i)).entities, x)->0.data,
            ),
        forall|x: u64|
            has_key(apply_migrations(w, migs.take(i)).entities, x) && legacy_list(
                #[trigger] get(apply_migrations(w, migs.take(i)).entities, x)->0,
            ) is Some ==> exists|j: int| i <= j < migs.len() && migs[j].0 == x,
    decreases i,
{
    if i == 0 {
        assert(migs.take(0) =~= seq![]);
    } else {
        lemma_migrations_clear(w, migs, i - 1);
        assert(migs.take(i).drop_last() =~= migs.take(i - 1));
        let c0 = apply_migrations(w, migs.take(i - 1));
        let actor = migs[i - 1].0;
        let items = migs[i - 1].1;
        assert(migs.take(i).last() == migs[i - 1]);
        let e = get(c0.entities, actor)->0;
        let e1 = EntityV { data: del(e.data, "inventory"@), ..e };
        assert(has_key(w.entities, migs[i - 1].0));
        lemma_del::<Seq<char>, JsonV, String>(e.data, "inventory"@);
        let a = with_entity(c0, actor, e1);
        lemma_put::<u64, EntityV, u64>(c0.entities, actor, e1);
        let b = WorldV {
            inventories: put::<u64, Seq<u64>, u64>(a.inventories, actor, append_new(inventory_of(a, actor), items)),
            ..a
        };
        assert forall|k: int| 0 <= k < items.len() implies has_key(b.entities, #[trigger] items[k]) by {
            assert(has_key(w.entities, migs[i - 1].1[k]));
        }
        lemma_relocate_entities(b, items, actor);
        let c = apply_migrations(w, migs.take(i));
        assert(c == relocate_items(b, items, actor));
        assert(legacy_list(e1) is None);
        assert forall|x: u64| has_key(c.entities, x) implies sorted::<Seq<char>, JsonV, String>(
            #[trigger] get(c.entities, x)->0.data,
        ) by {
            assert(has_key(b.entities, x));
            if x != actor {
                assert(has_key(c0.entities, x));
            }
        }
        assert forall|x: u64|
            has_key(c.entities, x) && legacy_list(#[trigger] get(c.entities, x)->0) is Some implies exists|j: int|
                i <= j < migs.len() && migs[j].0 == x by {
            assert(has_key(b.entities, x));
            if x != actor {
                assert(has_key(c0.entities, x));
                let j = choose|j: int| i - 1 <= j < migs.len() && migs[j].0 == x;
                assert(j != i - 1);
            }
        }
    }
}

/// A successful migration leaves no legacy inventory, keeps the entity
/// map's order and keys, and keeps each entity's data in order.
pub proof fn lemma_migrated_world(w: WorldV)
    requires
        entity_ids_match(w),
        sorted::<u64, EntityV, u64>(w.entities),
        forall|p: int| 0 <= p < w.entities.len() ==> sorted::<Seq<char>, JsonV, String>(#[trigger] w.entities[p].1.data),
    ensures
        migration_effect(w) matches Ok((c, _)) ==> {
            &&& no_legacy_inventories(c)
            &&& sorted::<u64, EntityV, u64>(c.entities)
            &&& forall|x: u64| #[trigger] has_key(c.entities, x) == has_key(w.entities, x)
        },
{
    if legacy_errors(w) is None {
        let migs = legacy_migrations(w);
        lemma_legacy_lists(w, w.entities.len() as int);
        if migs.len() == 0 {
            assert forall|p: int| 0 <= p < w.entities.len() implies legacy_list(#[trigger] w.entities[p].1) is None by {
                if legacy_list(w.entities[p].1) is Some {
                    let j = choose|j: int| 0 <= j < migs.len() && migs[j].0 == w.entities[p].0;
                }
            }
        } else if w.head < u64::MAX {
            assert forall|x: u64|
                has_key(w.entities, x) && legacy_list(#[trigger] get(w.entities, x)->0) is Some implies exists|j: int|
                    0 <= j < migs.len() && migs[j].0 == x by {
                let p = index_of(w.entities, x);
                lemma_index_of::<u64, EntityV, u64>(w.entities, p);
                assert(legacy_list(w.entities[p].1) is Some);
            }
            assert forall|x: u64| has_key(w.entities, x) implies sorted::<Seq<char>, JsonV, String>(
                #[trigger] get(w.entities, x)->0.data,
            ) by {
                let p = index_of(w.entities, x);
                lemma_index_of::<u64, EntityV, u64>(w.entities, p);
                assert(sorted::<Seq<char>, JsonV, String>(w.entities[p].1.data));
            }
            lemma_migrations_clear(w, migs, migs.len() as int);
            assert(migs.take(migs.len() as int) =~= migs);
            let c = WorldV { head: (w.head + 1) as u64, ..apply_migrations(w, migs) };
            assert forall|p: int| 0 <= p < c.entities.len() implies legacy_list(#[trigger] c.entities[p].1) is None by {
                lemma_index_of::<u64, EntityV, u64>(c.entities, p);
                assert(has_key(c.entities, c.entities[p].0));
            }
        }
    }
}

/// Migrating is idempotent: once a migration has succeeded, migrating the
/// result again succeeds, reports no change and changes nothing.
pub proof fn lemma_migration_idempotent(w: WorldV)
    requires
        entity_ids_match(w),
        sorted::<u64, EntityV, u64>(w.entities),
        forall|p: int| 0 <= p < w.entities.len() ==> sorted::<Seq<char>, JsonV, String>(#[trigger] w.entities[p].1.data),
    ensures
        migration_effect(w) matches Ok((c, _)) ==> migration_effect(c) == Ok::<(WorldV, bool), ErrorV>((c, false)),
{
    lemma_migrated_world(w);
    match migration_effect(w) {
        Ok((c, _)) => lemma_no_legacy_effect(c),
        Err(_) => {},
    }
}


/// Legacy inventories found among the first `p` entities stay found among more.
proof fn lemma_migrations_upto_grow(w: WorldV, p: int, q: int)
    requires
        0 <= p <= q,
    ensures
        legacy_migrations_upto(w, p).len() <= legacy_migrations_upto(w, q).len(),
    decreases q - p,
{
    if p < q {
        lemma_migrations_upto_grow(w, p, q - 1);
    }
}

/// The migration reports a change exactly when some actor keeps a legacy
/// inventory, and when it reports none the world is left as it was.
pub proof fn lemma_migration_reports_change(w: WorldV)
    ensures
        migration_effect(w) matches Ok((m, changed)) ==> ((changed <==> !no_legacy_inventories(w)) && (!changed
            ==> m == w)),
{
    if no_legacy_inventories(w) {
        lemma_no_legacy_effect(w);
    } else if migration_effect(w) is Ok {
        let p = choose|p: int| 0 <= p < w.entities.len() && legacy_list(#[trigger] w.entities[p].1) is Some;
        let s = positions(w.entities.len());
        crate::error::lemma_first_error_none(s, legacy_entity_check(w));
        assert(legacy_errors(w) is None);
        assert(s[p] == p);
        assert((legacy_entity_check(w))(s[p]) is None);
        assert(legacy_entity_error(w, p) is None);
        assert(legacy_migrations_upto(w, p + 1).len() == legacy_migrations_upto(w, p).len() + 1);
        lemma_migrations_upto_grow(w, p + 1, w.entities.len() as int);
    }
}

} // verus!
