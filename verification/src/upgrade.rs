//! Bringing the demo world up to date twice: once an upgrade has
//! succeeded, upgrading again with the same source changes nothing.
use crate::demo::{
    entity_name, person_data, rowan_text, text_map, best_demo, demo_actor, demo_definitions, ensure_effect, ensure_with_target, first_named_entity, has_demo_contract,
    legacy_status, legacy_statuses, add_progress, progress_added, quests_refreshed, rebind_entities, rebinding_changes,
    rebound, refresh_quests,
};
use crate::maps::{get, has_key, lemma_put, lemma_put_append, put, sorted};
use crate::migration::{legacy_list, lemma_no_legacy_effect, migration_effect, no_legacy_inventories};
use crate::json::JsonV;
use crate::model::{ContractV, EntityKind, EntityV, QuestDefinitionV, QuestProgressV, QuestStatus, WorldV};
use crate::runtime::{create_entity_result, progress_key_text};
use crate::validate::source_hash_text;
use crate::world::world_errors;
use vstd::prelude::*;

verus! {

/// Whether a contract is a version of the demo contract with the given source hash.
pub open spec fn demo_with_hash(c: ContractV, hash: Seq<char>) -> bool {
    c.name == "demo"@ && c.source_hash == hash
}

/// A world the upgrade has nothing left to do in: no legacy inventories;
/// a demo version with this source, to which every demo character is
/// bound; a progress record for every older quest status; the Village, the
/// Ruins, Mira, Rowan and the tablet; the quests as Mira and Rowan give
/// them; and no validation error.
pub open spec fn demo_settled(w: WorldV, source: Seq<char>) -> bool {
    let es = w.entities;
    &&& no_legacy_inventories(w)
    &&& best_demo(w.contracts, source_hash_text(source)) is Some
    &&& forall|i: int|
        0 <= i < es.len() && demo_actor(w, #[trigger] es[i].1) ==> es[i].1.contract == Some(
            best_demo(w.contracts, source_hash_text(source)).unwrap().0,
        )
    &&& forall|i: int|
        0 <= i < es.len() && demo_actor(w, #[trigger] es[i].1) && legacy_status(es[i].1) is Some ==> has_key(
            w.quest_progress,
            progress_key_text(es[i].1.id, "lost_key"@),
        )
    &&& first_named_entity(es, EntityKind::Zone, "Village"@) is Some
    &&& first_named_entity(es, EntityKind::Zone, "Ruins"@) is Some
    &&& first_named_entity(es, EntityKind::Item, "stone tablet"@) is Some
    &&& first_named_entity(es, EntityKind::Actor, "Mira"@) is Some
    &&& first_named_entity(es, EntityKind::Actor, "Rowan"@) is Some
    &&& forall|k: int|
        0 <= k < 3 ==> get(
            w.quests,
            (#[trigger] demo_definitions(
                first_named_entity(es, EntityKind::Actor, "Mira"@)->0,
                first_named_entity(es, EntityKind::Actor, "Rowan"@)->0,
            )[k]).id,
        ) == Some(
            demo_definitions(
                first_named_entity(es, EntityKind::Actor, "Mira"@)->0,
                first_named_entity(es, EntityKind::Actor, "Rowan"@)->0,
            )[k],
        )
    &&& world_errors(w) is None
}

/// The best demo version is one of the contracts, with this hash.
proof fn lemma_best_demo_found(cs: Seq<(Seq<char>, ContractV)>, hash: Seq<char>)
    ensures
        best_demo(cs, hash) matches Some(b) ==> exists|i: int|
            0 <= i < cs.len() && (#[trigger] cs[i]).0 == b.0 && demo_with_hash(cs[i].1, hash) && cs[i].1.version == b.1,
    decreases cs.len(),
{
    if cs.len() > 0 {
        lemma_best_demo_found(cs.drop_last(), hash);
        if best_demo(cs, hash) != best_demo(cs.drop_last(), hash) {
            assert(cs[cs.len() - 1] == cs.last());
        } else if best_demo(cs.drop_last(), hash) is Some {
            let b = best_demo(cs.drop_last(), hash)->0;
            let i = choose|i: int|
                0 <= i < cs.drop_last().len() && (#[trigger] cs.drop_last()[i]).0 == b.0 && demo_with_hash(
                    cs.drop_last()[i].1,
                    hash,
                ) && cs.drop_last()[i].1.version == b.1;
            assert(cs[i] == cs.drop_last()[i]);
        }
    }
}

/// Rebinding a world whose demo characters are all bound to the target changes nothing.
proof fn lemma_rebinding_settled(w: WorldV, target: Seq<char>)
    requires
        forall|i: int| 0 <= i < w.entities.len() && demo_actor(w, #[trigger] w.entities[i].1) ==> w.entities[i].1.contract == Some(target),
    ensures
        rebind_entities(w, target) == w.entities,
        !rebinding_changes(w, target),
{
    assert forall|i: int| 0 <= i < w.entities.len() implies #[trigger] rebind_entities(w, target)[i] == w.entities[i] by {
        let e = w.entities[i].1;
        if demo_actor(w, e) {
            assert(rebound(w, e, target) =~= e);
        }
    }
    assert(rebind_entities(w, target) =~= w.entities);
}

/// Each older status comes from a demo character with that id and status.
proof fn lemma_legacy_statuses_from(w: WorldV, es: Seq<(u64, EntityV)>)
    ensures
        forall|j: int|
            0 <= j < legacy_statuses(w, es).len() ==> exists|i: int|
                0 <= i < es.len() && demo_actor(w, #[trigger] es[i].1) && legacy_status(es[i].1) is Some && es[i].1.id
                    == (#[trigger] legacy_statuses(w, es)[j]).0,
    decreases es.len(),
{
    if es.len() > 0 {
        lemma_legacy_statuses_from(w, es.drop_last());
        let prev = legacy_statuses(w, es.drop_last());
        let cur = legacy_statuses(w, es);
        assert forall|j: int| 0 <= j < cur.len() implies exists|i: int|
            0 <= i < es.len() && demo_actor(w, #[trigger] es[i].1) && legacy_status(es[i].1) is Some && es[i].1.id
                == (#[trigger] cur[j]).0 by {
            if j < prev.len() {
                assert(cur[j] == prev[j]);
                let i = choose|i: int|
                    0 <= i < es.drop_last().len() && demo_actor(w, #[trigger] es.drop_last()[i].1) && legacy_status(
                        es.drop_last()[i].1,
                    ) is Some && es.drop_last()[i].1.id == prev[j].0;
                assert(es[i] == es.drop_last()[i]);
            } else {
                assert(es[es.len() - 1] == es.last());
            }
        }
    }
}

/// Recording statuses whose actors all have progress already changes nothing.
proof fn lemma_progress_settled(ps: Seq<(Seq<char>, QuestProgressV)>, legacy: Seq<(u64, QuestStatus)>)
    requires
        forall|j: int| 0 <= j < legacy.len() ==> has_key(ps, progress_key_text(#[trigger] legacy[j].0, "lost_key"@)),
    ensures
        add_progress(ps, legacy) == ps,
        !progress_added(ps, legacy),
    decreases legacy.len(),
{
    if legacy.len() > 0 {
        lemma_progress_settled(ps, legacy.drop_last());
        assert(legacy.drop_last().len() == legacy.len() - 1);
        assert forall|j: int| 0 <= j < legacy.drop_last().len() implies has_key(
            ps,
            progress_key_text(#[trigger] legacy.drop_last()[j].0, "lost_key"@),
        ) by {
            assert(legacy.drop_last()[j] == legacy[j]);
        }
        assert(legacy.last() == legacy[legacy.len() - 1]);
    }
}

/// Refreshing quests that are all stored as given changes nothing.
proof fn lemma_quests_settled(qs: Seq<(Seq<char>, QuestDefinitionV)>, defs: Seq<QuestDefinitionV>)
    requires
        forall|k: int| 0 <= k < defs.len() ==> get(qs, (#[trigger] defs[k]).id) == Some(defs[k]),
    ensures
        refresh_quests(qs, defs) == qs,
        !quests_refreshed(qs, defs),
    decreases defs.len(),
{
    if defs.len() > 0 {
        assert forall|k: int| 0 <= k < defs.drop_last().len() implies get(qs, (#[trigger] defs.drop_last()[k]).id)
            == Some(defs.drop_last()[k]) by {
            assert(defs.drop_last()[k] == defs[k]);
        }
        lemma_quests_settled(qs, defs.drop_last());
        assert(defs.last() == defs[defs.len() - 1]);
    }
}

/// In a settled world the upgrade finds nothing to do: it reports no
/// change and leaves the world as it is.
pub proof fn lemma_settled_upgrade_is_identity(w: WorldV, source: Seq<char>)
    requires
        demo_settled(w, source),
    ensures
        ensure_effect(w, source) == (w, Ok::<bool, crate::error::ErrorV>(false)),
{
    let hash = source_hash_text(source);
    let b = best_demo(w.contracts, hash)->0;
    lemma_best_demo_found(w.contracts, hash);
    let i = choose|i: int|
        0 <= i < w.contracts.len() && (#[trigger] w.contracts[i]).0 == b.0 && demo_with_hash(w.contracts[i].1, hash)
            && w.contracts[i].1.version == b.1;
    assert(has_demo_contract(w));
    let village = first_named_entity(w.entities, EntityKind::Zone, "Village"@);
    assert(w.entities.len() > 0) by {
        if w.entities.len() == 0 {
            assert(village is None);
        }
    }
    lemma_no_legacy_effect(w);
    assert(migration_effect(w) == Ok::<(WorldV, bool), crate::error::ErrorV>((w, false)));
    lemma_rebinding_settled(w, b.0);
    let legacy = legacy_statuses(w, w.entities);
    lemma_legacy_statuses_from(w, w.entities);
    assert forall|j: int| 0 <= j < legacy.len() implies has_key(
        w.quest_progress,
        progress_key_text(#[trigger] legacy[j].0, "lost_key"@),
    ) by {
        let i = choose|i: int|
            0 <= i < w.entities.len() && demo_actor(w, #[trigger] w.entities[i].1) && legacy_status(w.entities[i].1) is Some
                && w.entities[i].1.id == legacy[j].0;
    }
    lemma_progress_settled(w.quest_progress, legacy);
    let w3 = WorldV { entities: rebind_entities(w, b.0), ..w };
    assert(w3 == w);
    let mira = first_named_entity(w.entities, EntityKind::Actor, "Mira"@)->0;
    let rowan = first_named_entity(w.entities, EntityKind::Actor, "Rowan"@)->0;
    let defs = demo_definitions(mira, rowan);
    assert forall|k: int| 0 <= k < defs.len() implies get(w.quests, (#[trigger] defs[k]).id) == Some(defs[k]) by {
        assert(defs.len() == 3);
    }
    lemma_quests_settled(w.quests, defs);
    reveal(ensure_with_target);
    assert(ensure_with_target(w, b.0, false, false) == (w, Ok::<bool, crate::error::ErrorV>(false)));
}

// ----------------------------------------------------------------------
// Facts about one upgrade
// ----------------------------------------------------------------------

/// Appending an entity keeps the first match, or is the first match.
proof fn lemma_first_named_push(es: Seq<(u64, EntityV)>, x: (u64, EntityV), kind: EntityKind, name: Seq<char>)
    ensures
        first_named_entity(es.push(x), kind, name) == match first_named_entity(es, kind, name) {
            Some(i) => Some(i),
            None => if x.1.kind == kind && entity_name(x.1) == Some(name) {
                Some(x.1.id)
            } else {
                None
            },
        },
    decreases es.len(),
{
    if es.len() > 0 {
        assert(es.push(x)[0] == es[0]);
        assert(es.push(x).drop_first() =~= es.drop_first().push(x));
        lemma_first_named_push(es.drop_first(), x, kind, name);
    } else {
        assert(es.push(x)[0] == x);
        assert(es.push(x).drop_first() =~= seq![]);
        assert(first_named_entity(es.push(x).drop_first(), kind, name) is None);
    }
}

/// Each demo character with an older status is among the older statuses.
proof fn lemma_legacy_statuses_cover(w: WorldV, es: Seq<(u64, EntityV)>)
    ensures
        forall|i: int|
            0 <= i < es.len() && demo_actor(w, #[trigger] es[i].1) && legacy_status(es[i].1) is Some ==> exists|j: int|
                0 <= j < legacy_statuses(w, es).len() && legacy_statuses(w, es)[j].0 == es[i].1.id,
    decreases es.len(),
{
    if es.len() > 0 {
        lemma_legacy_statuses_cover(w, es.drop_last());
        let prev = legacy_statuses(w, es.drop_last());
        let cur = legacy_statuses(w, es);
        assert forall|i: int| 0 <= i < es.len() && demo_actor(w, #[trigger] es[i].1) && legacy_status(es[i].1) is Some implies exists|j: int|
            0 <= j < cur.len() && cur[j].0 == es[i].1.id by {
            if i < es.len() - 1 {
                assert(es.drop_last()[i] == es[i]);
                let j = choose|j: int| 0 <= j < prev.len() && prev[j].0 == es.drop_last()[i].1.id;
                assert(cur[j] == prev[j]);
            } else {
                assert(es.last() == es[i]);
                assert(cur[prev.len() as int].0 == es[i].1.id);
            }
        }
    }
}

/// Recording older statuses keeps the present records and adds one for each status.
proof fn lemma_progress_added_keys(ps: Seq<(Seq<char>, QuestProgressV)>, legacy: Seq<(u64, QuestStatus)>)
    requires
        crate::maps::sorted::<Seq<char>, QuestProgressV, String>(ps),
    ensures
        crate::maps::sorted::<Seq<char>, QuestProgressV, String>(add_progress(ps, legacy)),
        forall|x: Seq<char>| has_key(ps, x) ==> #[trigger] has_key(add_progress(ps, legacy), x),
        forall|j: int|
            0 <= j < legacy.len() ==> has_key(add_progress(ps, legacy), progress_key_text(#[trigger] legacy[j].0, "lost_key"@)),
    decreases legacy.len(),
{
    if legacy.len() > 0 {
        lemma_progress_added_keys(ps, legacy.drop_last());
        let prev = add_progress(ps, legacy.drop_last());
        let key = progress_key_text(legacy.last().0, "lost_key"@);
        if !has_key(prev, key) {
            lemma_put::<Seq<char>, QuestProgressV, String>(
                prev,
                key,
                crate::demo::lost_key_progress(legacy.last().0, legacy.last().1),
            );
        }
        assert forall|j: int| 0 <= j < legacy.len() implies has_key(
            add_progress(ps, legacy),
            progress_key_text(#[trigger] legacy[j].0, "lost_key"@),
        ) by {
            if j < legacy.len() - 1 {
                assert(legacy.drop_last()[j] == legacy[j]);
            }
        }
    }
}

/// After refreshing quests with distinct ids, each is stored as given.
proof fn lemma_quests_refreshed_hold(qs: Seq<(Seq<char>, QuestDefinitionV)>, defs: Seq<QuestDefinitionV>)
    requires
        crate::maps::sorted::<Seq<char>, QuestDefinitionV, String>(qs),
        forall|a: int, b: int| 0 <= a < b < defs.len() ==> (#[trigger] defs[a]).id != (#[trigger] defs[b]).id,
    ensures
        crate::maps::sorted::<Seq<char>, QuestDefinitionV, String>(refresh_quests(qs, defs)),
        forall|k: int| 0 <= k < defs.len() ==> get(refresh_quests(qs, defs), (#[trigger] defs[k]).id) == Some(defs[k]),
    decreases defs.len(),
{
    if defs.len() > 0 {
        let init = defs.drop_last();
        assert forall|a: int, b: int| 0 <= a < b < init.len() implies (#[trigger] init[a]).id != (#[trigger] init[b]).id by {
            assert(init[a] == defs[a]);
            assert(init[b] == defs[b]);
        }
        lemma_quests_refreshed_hold(qs, init);
        let prev = refresh_quests(qs, init);
        let last = defs.last();
        if get(prev, last.id) != Some(last) {
            lemma_put::<Seq<char>, QuestDefinitionV, String>(prev, last.id, last);
        }
        assert forall|k: int| 0 <= k < defs.len() implies get(refresh_quests(qs, defs), (#[trigger] defs[k]).id) == Some(
            defs[k],
        ) by {
            if k < defs.len() - 1 {
                assert(init[k] == defs[k]);
                assert(defs[k].id != defs[defs.len() - 1].id);
            }
        }
    }
}

/// Without a best version, no contract is the demo with the hash.
proof fn lemma_best_demo_none(cs: Seq<(Seq<char>, ContractV)>, hash: Seq<char>)
    ensures
        best_demo(cs, hash) is None ==> forall|i: int| 0 <= i < cs.len() ==> !demo_with_hash(#[trigger] cs[i].1, hash),
    decreases cs.len(),
{
    if cs.len() > 0 {
        lemma_best_demo_none(cs.drop_last(), hash);
        if best_demo(cs, hash) is None {
            assert forall|i: int| 0 <= i < cs.len() implies !demo_with_hash(#[trigger] cs[i].1, hash) by {
                if i < cs.len() - 1 {
                    assert(cs.drop_last()[i] == cs[i]);
                }
            }
        }
    }
}

/// The only demo version with the hash is the best one.
proof fn lemma_best_demo_unique(cs: Seq<(Seq<char>, ContractV)>, hash: Seq<char>, i: int)
    requires
        0 <= i < cs.len(),
        demo_with_hash(cs[i].1, hash),
        forall|j: int| 0 <= j < cs.len() && j != i ==> !demo_with_hash(#[trigger] cs[j].1, hash),
    ensures
        best_demo(cs, hash) == Some((cs[i].0, cs[i].1.version)),
    decreases cs.len(),
{
    let init = cs.drop_last();
    if i == cs.len() - 1 {
        assert forall|j: int| 0 <= j < init.len() implies !demo_with_hash(#[trigger] init[j].1, hash) by {
            assert(init[j] == cs[j]);
        }
        lemma_best_demo_found(init, hash);
        if best_demo(init, hash) is Some {
            let b = best_demo(init, hash)->0;
            let j = choose|j: int|
                0 <= j < init.len() && (#[trigger] init[j]).0 == b.0 && demo_with_hash(init[j].1, hash) && init[j].1.version == b.1;
        }
    } else {
        assert(init[i] == cs[i]);
        assert forall|j: int| 0 <= j < init.len() && j != i implies !demo_with_hash(#[trigger] init[j].1, hash) by {
            assert(init[j] == cs[j]);
        }
        lemma_best_demo_unique(init, hash, i);
        assert(!demo_with_hash(cs[cs.len() - 1].1, hash));
    }
}

/// The data of a character, and of a named item: a name, and neither an
/// inventory nor a quest status.
proof fn lemma_new_entity_data(name: Seq<char>, dialogue: Seq<char>)
    ensures
        get(person_data(name, dialogue), "name"@) == Some(JsonV::Str(name)),
        get(person_data(name, dialogue), "inventory"@) is None,
        get(person_data(name, dialogue), "quest"@) is None,
        get(text_map("name"@, name), "name"@) == Some(JsonV::Str(name)),
        get(text_map("name"@, name), "quest"@) is None,
{
    reveal(text_map);
    reveal(person_data);
    reveal_strlit("name");
    reveal_strlit("dialogue");
    reveal_strlit("inventory");
    reveal_strlit("quest");
    assert("name"@.len() != "dialogue"@.len());
    assert("name"@ != "dialogue"@);
    let empty: Seq<(Seq<char>, JsonV)> = seq![];
    lemma_put::<Seq<char>, JsonV, String>(empty, "name"@, JsonV::Str(name));
    assert(text_map("name"@, name) == put::<Seq<char>, JsonV, String>(empty, "name"@, JsonV::Str(name)));
    assert(get(text_map("name"@, name), "name"@) == Some(JsonV::Str(name)));
    lemma_put::<Seq<char>, JsonV, String>(text_map("name"@, name), "dialogue"@, JsonV::Str(dialogue));
}

/// The demo quests have distinct ids.
proof fn lemma_demo_definition_ids(mira: u64, rowan: u64)
    ensures
        forall|a: int, b: int|
            0 <= a < b < demo_definitions(mira, rowan).len() ==> (#[trigger] demo_definitions(mira, rowan)[a]).id
                != (#[trigger] demo_definitions(mira, rowan)[b]).id,
{
    reveal_strlit("lost_key");
    reveal_strlit("ruins_tablet");
    reveal_strlit("open_shrine");
    let d = demo_definitions(mira, rowan);
    assert(d[0].id.len() == 8 && d[1].id.len() == 12 && d[2].id.len() == 11);
    assert(d.len() == 3);
}

/// Once its target is known, a successful upgrade leaves a settled world.
#[verifier::rlimit(80)]
proof fn lemma_target_settles(w2: WorldV, source: Seq<char>, target: Seq<char>, deployed: bool, migrated: bool)
    requires
        best_demo(w2.contracts, source_hash_text(source)) matches Some(b) && b.0 == target,
        no_legacy_inventories(w2),
        sorted::<u64, EntityV, u64>(w2.entities),
        sorted::<Seq<char>, QuestDefinitionV, String>(w2.quests),
        sorted::<Seq<char>, QuestProgressV, String>(w2.quest_progress),
        forall|i: int| 0 <= i < w2.entities.len() ==> (#[trigger] w2.entities[i]).0 < w2.next_entity_id,
        w2.next_entity_id + 2 <= u64::MAX,
        w2.head + 3 <= u64::MAX,
        ensure_with_target(w2, target, deployed, migrated).1 is Ok,
    ensures
        demo_settled(ensure_with_target(w2, target, deployed, migrated).0, source),
{
    reveal(create_entity_result);
    reveal(ensure_with_target);
    lemma_new_entity_data("Rowan"@, rowan_text());
    lemma_new_entity_data("stone tablet"@, rowan_text());
    let es3 = rebind_entities(w2, target);
    let w3 = WorldV { entities: es3, ..w2 };
    let legacy = legacy_statuses(w2, w2.entities);
    let w4 = WorldV { quest_progress: add_progress(w3.quest_progress, legacy), ..w3 };
    let village = first_named_entity(w4.entities, EntityKind::Zone, "Village"@)->0;
    let ruins = first_named_entity(w4.entities, EntityKind::Zone, "Ruins"@)->0;
    let mira = first_named_entity(w4.entities, EntityKind::Actor, "Mira"@)->0;
    let n = w4.next_entity_id;
    let found_rowan = first_named_entity(w4.entities, EntityKind::Actor, "Rowan"@);
    let rowan_e = EntityV {
        id: n,
        kind: EntityKind::Actor,
        owner: "admin"@,
        location: Some(village),
        contract: Some(target),
        data: person_data("Rowan"@, rowan_text()),
    };
    assert forall|j: int| 0 <= j < w4.entities.len() implies (#[trigger] w4.entities[j]).0 < n by {
        assert(w4.entities[j].0 == w2.entities[j].0);
    }
    lemma_put_append::<u64, EntityV, u64>(w4.entities, n, rowan_e);
    let w5 = if found_rowan is Some {
        w4
    } else {
        WorldV {
            entities: w4.entities.push((n, rowan_e)),
            next_entity_id: (n + 1) as u64,
            head: (w4.head + 1) as u64,
            ..w4
        }
    };
    let rowan = if found_rowan is Some {
        found_rowan->0
    } else {
        n
    };
    let m = w5.next_entity_id;
    let tablet_e = EntityV {
        id: m,
        kind: EntityKind::Item,
        owner: "admin"@,
        location: Some(ruins),
        contract: None,
        data: text_map("name"@, "stone tablet"@),
    };
    let found_tablet = first_named_entity(w5.entities, EntityKind::Item, "stone tablet"@);
    assert forall|j: int| 0 <= j < w5.entities.len() implies (#[trigger] w5.entities[j]).0 < m by {
        if j < w4.entities.len() {
            assert(w5.entities[j] == w4.entities[j]);
        }
    }
    lemma_put_append::<u64, EntityV, u64>(w5.entities, m, tablet_e);
    let w6 = if found_tablet is Some {
        w5
    } else {
        WorldV {
            entities: w5.entities.push((m, tablet_e)),
            next_entity_id: (m + 1) as u64,
            head: (w5.head + 1) as u64,
            ..w5
        }
    };
    let defs = demo_definitions(mira, rowan);
    let w7 = WorldV { quests: refresh_quests(w6.quests, defs), ..w6 };
    let out = ensure_with_target(w2, target, deployed, migrated);
    assert(out.0 == w7 || out.0 == crate::world::at_head(w7, (w7.head + 1) as u64));
    assert(world_errors(w7) is None);
    crate::world::lemma_valid_at_later_head(w7, (w7.head + 1) as u64);
    let wf = out.0;
    assert(wf.entities == w6.entities);
    assert(wf.contracts == w2.contracts);
    assert(wf.quest_progress == w4.quest_progress);
    // Finding the villagers and the tablet again.
    if found_rowan is None {
        lemma_first_named_push(w4.entities, (n, rowan_e), EntityKind::Zone, "Village"@);
        lemma_first_named_push(w4.entities, (n, rowan_e), EntityKind::Zone, "Ruins"@);
        lemma_first_named_push(w4.entities, (n, rowan_e), EntityKind::Actor, "Mira"@);
        lemma_first_named_push(w4.entities, (n, rowan_e), EntityKind::Actor, "Rowan"@);
        lemma_first_named_push(w4.entities, (n, rowan_e), EntityKind::Item, "stone tablet"@);
    }
    if found_tablet is None {
        lemma_first_named_push(w5.entities, (m, tablet_e), EntityKind::Zone, "Village"@);
        lemma_first_named_push(w5.entities, (m, tablet_e), EntityKind::Zone, "Ruins"@);
        lemma_first_named_push(w5.entities, (m, tablet_e), EntityKind::Actor, "Mira"@);
        lemma_first_named_push(w5.entities, (m, tablet_e), EntityKind::Actor, "Rowan"@);
        lemma_first_named_push(w5.entities, (m, tablet_e), EntityKind::Item, "stone tablet"@);
    }
    assert(first_named_entity(wf.entities, EntityKind::Actor, "Mira"@) == Some(mira));
    assert(first_named_entity(wf.entities, EntityKind::Actor, "Rowan"@) == Some(rowan));
    // The quests as Mira and Rowan give them.
    lemma_demo_definition_ids(mira, rowan);
    lemma_quests_refreshed_hold(w6.quests, defs);
    // Every entity is a rebound one or a new one.
    lemma_legacy_statuses_cover(w2, w2.entities);
    lemma_progress_added_keys(w2.quest_progress, legacy);
    assert forall|i: int| 0 <= i < wf.entities.len() implies {
        &&& legacy_list((#[trigger] wf.entities[i]).1) is None
        &&& demo_actor(wf, wf.entities[i].1) ==> wf.entities[i].1.contract == Some(target)
        &&& demo_actor(wf, wf.entities[i].1) && legacy_status(wf.entities[i].1) is Some ==> has_key(
            wf.quest_progress,
            progress_key_text(wf.entities[i].1.id, "lost_key"@),
        )
    } by {
        if i < es3.len() {
            let e0 = w2.entities[i].1;
            assert(wf.entities[i] == es3[i]);
            assert(legacy_list(e0) is None);
            if demo_actor(wf, wf.entities[i].1) && legacy_status(wf.entities[i].1) is Some {
                assert(demo_actor(w2, e0));
                let j = choose|j: int| 0 <= j < legacy.len() && legacy[j].0 == w2.entities[i].1.id;
                assert(has_key(w4.quest_progress, progress_key_text(legacy[j].0, "lost_key"@)));
            }
        } else if i == es3.len() && found_rowan is None {
            assert(wf.entities[i] == (n, rowan_e));
        } else {
            assert(wf.entities[i] == (m, tablet_e));
        }
    }
    assert(no_legacy_inventories(wf));
}

/// Whether the world's maps keep their keys in order, each entity's data
/// too, every entity is stored under its own id, and every id is below the
/// next one to be given out.
pub open spec fn world_well_formed(w: WorldV) -> bool {
    &&& sorted::<u64, EntityV, u64>(w.entities)
    &&& sorted::<Seq<char>, ContractV, String>(w.contracts)
    &&& sorted::<Seq<char>, QuestDefinitionV, String>(w.quests)
    &&& sorted::<Seq<char>, QuestProgressV, String>(w.quest_progress)
    &&& forall|p: int| 0 <= p < w.entities.len() ==> sorted::<Seq<char>, JsonV, String>(#[trigger] w.entities[p].1.data)
    &&& crate::migration::entity_ids_match(w)
    &&& forall|p: int| 0 <= p < w.entities.len() ==> (#[trigger] w.entities[p]).0 < w.next_entity_id
}

/// Publishing the only version with a hash makes it the best one.
proof fn lemma_deployed_best(m: Seq<(Seq<char>, ContractV)>, key: Seq<char>, c: ContractV)
    requires
        sorted::<Seq<char>, ContractV, String>(m),
        best_demo(m, c.source_hash) is None,
        c.name == "demo"@,
    ensures
        best_demo(put::<Seq<char>, ContractV, String>(m, key, c), c.source_hash) == Some((key, c.version)),
{
    let hash = c.source_hash;
    lemma_put::<Seq<char>, ContractV, String>(m, key, c);
    lemma_best_demo_none(m, hash);
    let cs = put::<Seq<char>, ContractV, String>(m, key, c);
    assert(has_key(cs, key));
    let i = crate::maps::index_of(cs, key);
    crate::maps::lemma_index_of::<Seq<char>, ContractV, String>(cs, i);
    assert(cs[i].1 == c);
    assert forall|j: int| 0 <= j < cs.len() && j != i implies !demo_with_hash(#[trigger] cs[j].1, hash) by {
        crate::maps::lemma_index_of::<Seq<char>, ContractV, String>(cs, j);
        let x = cs[j].0;
        if x == key {
            crate::maps::lemma_unique::<Seq<char>, ContractV, String>(cs, i, j);
        }
        assert(get(m, x) == Some(cs[j].1));
        let k = crate::maps::index_of(m, x);
        assert(m[k].1 == cs[j].1);
    }
    lemma_best_demo_unique(cs, hash, i);
}

/// Upgrading a world that already holds entities or contracts, when it
/// succeeds, leaves a settled world.
#[verifier::rlimit(60)]
proof fn lemma_update_settles(w: WorldV, source: Seq<char>)
    requires
        world_well_formed(w),
        !(w.entities.len() == 0 && w.contracts.len() == 0),
        w.next_entity_id + 2 <= u64::MAX,
        w.head + 5 <= u64::MAX,
        ensure_effect(w, source).1 is Ok,
    ensures
        demo_settled(ensure_effect(w, source).0, source),
{
    let hash = source_hash_text(source);
    crate::migration::lemma_migration_keeps(w);
    crate::migration::lemma_migrated_world(w);
    let m = migration_effect(w)->Ok_0;
    let w1 = m.0;
    assert forall|i: int| 0 <= i < w1.entities.len() implies (#[trigger] w1.entities[i]).0 < w1.next_entity_id by {
        let x = w1.entities[i].0;
        assert(has_key(w1.entities, x));
        assert(has_key(w.entities, x));
        let j = choose|j: int| 0 <= j < w.entities.len() && #[trigger] w.entities[j].0 == x;
    }
    match best_demo(w1.contracts, hash) {
        Some(best) => {
            lemma_target_settles(w1, source, best.0, false, m.1);
        },
        None => {
            let version = (crate::demo::max_demo_version(w1.contracts) + 1) as u32;
            let key = crate::runtime::contract_key_text("demo"@, version);
            let c = ContractV {
                name: "demo"@,
                version,
                source,
                source_hash: hash,
                status: crate::model::ContractStatus::Published,
            };
            let w2 = crate::runtime::deploy_result(w1, "demo"@, version, source)->Ok_0;
            assert(w2.contracts == put::<Seq<char>, ContractV, String>(w1.contracts, key, c));
            lemma_deployed_best(w1.contracts, key, c);
            lemma_target_settles(w2, source, key, true, m.1);
        },
    }
}

// ----------------------------------------------------------------------
// The demo world as built
// ----------------------------------------------------------------------

/// A zone's data: its name, and neither an inventory nor a quest status.
proof fn lemma_zone_data(name: Seq<char>, description: Seq<char>, exits: JsonV, later_exits: JsonV)
    ensures
        sorted::<Seq<char>, JsonV, String>(crate::demo::zone_data(name, description, exits)),
        get(crate::demo::zone_data(name, description, exits), "name"@) == Some(JsonV::Str(name)),
        get(crate::demo::zone_data(name, description, exits), "inventory"@) is None,
        get(crate::demo::zone_data(name, description, exits), "quest"@) is None,
        get(put::<Seq<char>, JsonV, String>(crate::demo::zone_data(name, description, exits), "exits"@, later_exits), "name"@)
            == Some(JsonV::Str(name)),
        get(put::<Seq<char>, JsonV, String>(crate::demo::zone_data(name, description, exits), "exits"@, later_exits), "inventory"@)
            is None,
        get(put::<Seq<char>, JsonV, String>(crate::demo::zone_data(name, description, exits), "exits"@, later_exits), "quest"@)
            is None,
{
    reveal(text_map);
    reveal(crate::demo::zone_data);
    reveal_strlit("name");
    reveal_strlit("description");
    reveal_strlit("exits");
    reveal_strlit("inventory");
    reveal_strlit("quest");
    assert("name"@.len() == 4 && "description"@.len() == 11 && "exits"@.len() == 5);
    assert("inventory"@.len() == 9 && "quest"@.len() == 5 && "quest"@[0] == 'q' && "exits"@[0] == 'e');
    let empty: Seq<(Seq<char>, JsonV)> = seq![];
    lemma_put::<Seq<char>, JsonV, String>(empty, "name"@, JsonV::Str(name));
    let t = text_map("name"@, name);
    lemma_put::<Seq<char>, JsonV, String>(t, "description"@, JsonV::Str(description));
    let d = put::<Seq<char>, JsonV, String>(t, "description"@, JsonV::Str(description));
    lemma_put::<Seq<char>, JsonV, String>(d, "exits"@, exits);
    let z = put::<Seq<char>, JsonV, String>(d, "exits"@, exits);
    lemma_put::<Seq<char>, JsonV, String>(z, "exits"@, later_exits);
}

/// The first entity of a kind and name is found at its position.
proof fn lemma_first_named_at(es: Seq<(u64, EntityV)>, kind: EntityKind, name: Seq<char>, k: int)
    requires
        0 <= k < es.len(),
        es[k].1.kind == kind && entity_name(es[k].1) == Some(name),
        forall|j: int| 0 <= j < k ==> !((#[trigger] es[j]).1.kind == kind && entity_name(es[j].1) == Some(name)),
    ensures
        first_named_entity(es, kind, name) == Some(es[k].1.id),
    decreases k,
{
    if k > 0 {
        let rest = es.drop_first();
        assert(!(es[0].1.kind == kind && entity_name(es[0].1) == Some(name)));
        assert forall|j: int| 0 <= j < k - 1 implies !((#[trigger] rest[j]).1.kind == kind && entity_name(rest[j].1)
            == Some(name)) by {
            assert(rest[j] == es[j + 1]);
        }
        assert(rest[k - 1] == es[k]);
        lemma_first_named_at(rest, kind, name, k - 1);
    }
}

/// The Village as finally stored, with its exit east to the Forest.
pub open spec fn village_entity(n: u64) -> EntityV {
    EntityV {
        id: n,
        kind: EntityKind::Zone,
        owner: "admin"@,
        location: None,
        contract: None,
        data: put::<Seq<char>, JsonV, String>(
            crate::demo::zone_data("Village"@, crate::demo::village_text(), crate::demo::one_exit("east"@, 2)),
            "exits"@,
            crate::demo::one_exit("east"@, (n + 1) as u64),
        ),
    }
}

/// An entity the administrator created.
pub open spec fn admin_made(
    id: u64,
    kind: EntityKind,
    contract: Option<Seq<char>>,
    location: Option<u64>,
    data: Seq<(Seq<char>, JsonV)>,
) -> EntityV {
    EntityV { id, kind, owner: "admin"@, location, contract, data }
}

/// The three zones as built on a world without entities.
#[verifier::rlimit(80)]
proof fn lemma_zones_shape(w: WorldV)
    requires
        w.entities.len() == 0,
        has_key(w.accounts, "admin"@),
        w.next_entity_id + 8 <= u64::MAX,
        w.head + 8 <= u64::MAX,
    ensures
        ({
            let n = w.next_entity_id;
            let z = crate::demo::demo_zones(w);
            &&& z.entities == seq![
                (n, village_entity(n)),
                ((n + 1) as u64, admin_made((n + 1) as u64, EntityKind::Zone, None, None, crate::demo::zone_data("Forest"@, crate::demo::forest_text(), crate::demo::two_exits(3, n)))),
                ((n + 2) as u64, admin_made((n + 2) as u64, EntityKind::Zone, None, None, crate::demo::zone_data("Ruins"@, crate::demo::ruins_text(), crate::demo::one_exit("west"@, (n + 1) as u64)))),
            ]
            &&& z.next_entity_id == n + 3
            &&& z.head == w.head + 3
            &&& z.accounts == w.accounts
            &&& z.contracts == w.contracts
            &&& z.quests == w.quests
        }),
{
    reveal(crate::demo::demo_zones);
    let n = w.next_entity_id;
    let vd = crate::demo::zone_data("Village"@, crate::demo::village_text(), crate::demo::one_exit("east"@, 2));
    let fd = crate::demo::zone_data("Forest"@, crate::demo::forest_text(), crate::demo::two_exits(3, n));
    let rd = crate::demo::zone_data("Ruins"@, crate::demo::ruins_text(), crate::demo::one_exit("west"@, (n + 1) as u64));
    let v0 = admin_made(n, EntityKind::Zone, None, None, vd);
    let f = admin_made((n + 1) as u64, EntityKind::Zone, None, None, fd);
    let r = admin_made((n + 2) as u64, EntityKind::Zone, None, None, rd);
    lemma_put_append::<u64, EntityV, u64>(w.entities, n, v0);
    let e2 = w.entities.push((n, v0));
    lemma_put_append::<u64, EntityV, u64>(e2, (n + 1) as u64, f);
    let e3 = e2.push(((n + 1) as u64, f));
    lemma_put_append::<u64, EntityV, u64>(e3, (n + 2) as u64, r);
    let e4 = e3.push(((n + 2) as u64, r));
    crate::runtime::lemma_create_entity_ok(w, EntityKind::Zone, "admin"@, None, None, vd);
    let w2 = crate::demo::created(w, EntityKind::Zone, None, None, vd);
    assert(w2.entities == e2);
    crate::runtime::lemma_create_entity_ok(w2, EntityKind::Zone, "admin"@, None, None, fd);
    let w3 = crate::demo::created(w2, EntityKind::Zone, None, None, fd);
    assert(w3.entities == e3);
    crate::runtime::lemma_create_entity_ok(w3, EntityKind::Zone, "admin"@, None, None, rd);
    let w4 = crate::demo::created(w3, EntityKind::Zone, None, None, rd);
    assert(w4.entities == e4);
    crate::maps::lemma_index_of::<u64, EntityV, u64>(e4, 0);
    assert(get(e4, n) == Some(v0));
    let v1 = EntityV { data: put::<Seq<char>, JsonV, String>(v0.data, "exits"@, crate::demo::one_exit("east"@, (n + 1) as u64)), ..v0 };
    assert(v1 == village_entity(n));
    assert(put::<u64, EntityV, u64>(e4, n, v1) == e4.update(0, (n, v1)));
    assert(e4.update(0, (n, v1)) =~= seq![(n, v1), ((n + 1) as u64, f), ((n + 2) as u64, r)]);
    let z = crate::demo::demo_zones(w);
    assert(w4.next_entity_id == n + 3);
    assert(w4.head == w.head + 3);
    assert(z.entities == put::<u64, EntityV, u64>(e4, n, v1));
    assert(z.next_entity_id == n + 3);
    assert(z.head == w.head + 3);
    assert(z.quests == w.quests);
}

/// The administrator creating an entity above every id appends it.
proof fn lemma_created_append(
    w: WorldV,
    kind: EntityKind,
    contract: Option<Seq<char>>,
    location: Option<u64>,
    data: Seq<(Seq<char>, JsonV)>,
)
    requires
        has_key(w.accounts, "admin"@),
        contract is None || has_key(w.contracts, contract->0),
        forall|j: int| 0 <= j < w.entities.len() ==> (#[trigger] w.entities[j]).0 < w.next_entity_id,
        w.next_entity_id < u64::MAX,
        w.head < u64::MAX,
    ensures
        crate::demo::created(w, kind, contract, location, data) == (WorldV {
            entities: w.entities.push((w.next_entity_id, admin_made(w.next_entity_id, kind, contract, location, data))),
            next_entity_id: (w.next_entity_id + 1) as u64,
            head: (w.head + 1) as u64,
            ..w
        }),
{
    crate::runtime::lemma_create_entity_ok(w, kind, "admin"@, contract, location, data);
    lemma_put_append::<u64, EntityV, u64>(
        w.entities,
        w.next_entity_id,
        admin_made(w.next_entity_id, kind, contract, location, data),
    );
}

/// The player, the key, Mira, Rowan and the tablet, as placed.
#[verifier::rlimit(40)]
proof fn lemma_inhabitants_shape(z: WorldV, n: u64)
    requires
        has_key(z.accounts, "admin"@),
        has_key(z.contracts, "demo"@),
        z.next_entity_id == n + 3,
        n + 8 <= u64::MAX,
        z.head + 5 <= u64::MAX,
        forall|j: int| 0 <= j < z.entities.len() ==> (#[trigger] z.entities[j]).0 < z.next_entity_id,
    ensures
        crate::demo::demo_inhabitants(z, n).entities == z.entities.push(
            ((n + 3) as u64, admin_made((n + 3) as u64, EntityKind::Actor, Some("demo"@), Some(n), seq![])),
        ).push(
            ((n + 4) as u64, admin_made((n + 4) as u64, EntityKind::Item, None, Some((n + 1) as u64), text_map("name"@, "brass key"@))),
        ).push(
            ((n + 5) as u64, admin_made((n + 5) as u64, EntityKind::Actor, Some("demo"@), Some(n), person_data("Mira"@, crate::demo::mira_text()))),
        ).push(
            ((n + 6) as u64, admin_made((n + 6) as u64, EntityKind::Actor, Some("demo"@), Some(n), person_data("Rowan"@, rowan_text()))),
        ).push(
            ((n + 7) as u64, admin_made((n + 7) as u64, EntityKind::Item, None, Some((n + 2) as u64), text_map("name"@, "stone tablet"@))),
        ),
        crate::demo::demo_inhabitants(z, n).contracts == z.contracts,
        crate::demo::demo_inhabitants(z, n).quests == z.quests,
        crate::demo::demo_inhabitants(z, n).accounts == z.accounts,
{
    reveal(crate::demo::demo_inhabitants);
    lemma_created_append(z, EntityKind::Actor, Some("demo"@), Some(n), seq![]);
    let w6 = crate::demo::created(z, EntityKind::Actor, Some("demo"@), Some(n), seq![]);
    assert forall|j: int| 0 <= j < w6.entities.len() implies (#[trigger] w6.entities[j]).0 < w6.next_entity_id by {
        if j < z.entities.len() {
            assert(w6.entities[j] == z.entities[j]);
        }
    }
    lemma_created_append(w6, EntityKind::Item, None, Some((n + 1) as u64), text_map("name"@, "brass key"@));
    let w7 = crate::demo::created(w6, EntityKind::Item, None, Some((n + 1) as u64), text_map("name"@, "brass key"@));
    assert forall|j: int| 0 <= j < w7.entities.len() implies (#[trigger] w7.entities[j]).0 < w7.next_entity_id by {
        if j < w6.entities.len() {
            assert(w7.entities[j] == w6.entities[j]);
        }
    }
    lemma_created_append(w7, EntityKind::Actor, Some("demo"@), Some(n), person_data("Mira"@, crate::demo::mira_text()));
    let w8 = crate::demo::created(w7, EntityKind::Actor, Some("demo"@), Some(n), person_data("Mira"@, crate::demo::mira_text()));
    assert forall|j: int| 0 <= j < w8.entities.len() implies (#[trigger] w8.entities[j]).0 < w8.next_entity_id by {
        if j < w7.entities.len() {
            assert(w8.entities[j] == w7.entities[j]);
        }
    }
    lemma_created_append(w8, EntityKind::Actor, Some("demo"@), Some(n), person_data("Rowan"@, rowan_text()));
    let w9 = crate::demo::created(w8, EntityKind::Actor, Some("demo"@), Some(n), person_data("Rowan"@, rowan_text()));
    assert forall|j: int| 0 <= j < w9.entities.len() implies (#[trigger] w9.entities[j]).0 < w9.next_entity_id by {
        if j < w8.entities.len() {
            assert(w9.entities[j] == w8.entities[j]);
        }
    }
    lemma_created_append(w9, EntityKind::Item, None, Some((n + 2) as u64), text_map("name"@, "stone tablet"@));
}

/// The demo world's entities, in id order, from id `n`.
pub open spec fn demo_entities(n: u64) -> Seq<(u64, EntityV)> {
    seq![
        (n, village_entity(n)),
        ((n + 1) as u64, admin_made((n + 1) as u64, EntityKind::Zone, None, None, crate::demo::zone_data("Forest"@, crate::demo::forest_text(), crate::demo::two_exits(3, n)))),
        ((n + 2) as u64, admin_made((n + 2) as u64, EntityKind::Zone, None, None, crate::demo::zone_data("Ruins"@, crate::demo::ruins_text(), crate::demo::one_exit("west"@, (n + 1) as u64)))),
    ].push(
        ((n + 3) as u64, admin_made((n + 3) as u64, EntityKind::Actor, Some("demo"@), Some(n), seq![])),
    ).push(
        ((n + 4) as u64, admin_made((n + 4) as u64, EntityKind::Item, None, Some((n + 1) as u64), text_map("name"@, "brass key"@))),
    ).push(
        ((n + 5) as u64, admin_made((n + 5) as u64, EntityKind::Actor, Some("demo"@), Some(n), person_data("Mira"@, crate::demo::mira_text()))),
    ).push(
        ((n + 6) as u64, admin_made((n + 6) as u64, EntityKind::Actor, Some("demo"@), Some(n), person_data("Rowan"@, rowan_text()))),
    ).push(
        ((n + 7) as u64, admin_made((n + 7) as u64, EntityKind::Item, None, Some((n + 2) as u64), text_map("name"@, "stone tablet"@))),
    )
}

/// The demo world's contracts, entities and quests, as built on an empty world.
#[verifier::rlimit(40)]
proof fn lemma_demo_world_shape(w: WorldV, source: Seq<char>)
    requires
        w.entities.len() == 0,
        w.contracts.len() == 0,
        has_key(w.accounts, "admin"@),
        w.next_entity_id + 8 <= u64::MAX,
        w.head + 12 <= u64::MAX,
    ensures
        crate::demo::demo_world(w, source).contracts == seq![(
            "demo"@,
            ContractV {
                name: "demo"@,
                version: 1,
                source,
                source_hash: source_hash_text(source),
                status: crate::model::ContractStatus::Published,
            },
        )],
        crate::demo::demo_world(w, source).entities == demo_entities(w.next_entity_id),
        crate::demo::demo_world(w, source).quests == put::<Seq<char>, QuestDefinitionV, String>(
            put::<Seq<char>, QuestDefinitionV, String>(
                put::<Seq<char>, QuestDefinitionV, String>(
                    w.quests,
                    "lost_key"@,
                    crate::demo::lost_key_view((w.next_entity_id + 5) as u64),
                ),
                "ruins_tablet"@,
                crate::demo::ruins_tablet_view((w.next_entity_id + 6) as u64),
            ),
            "open_shrine"@,
            crate::demo::open_shrine_view((w.next_entity_id + 6) as u64),
        ),
{
    reveal(crate::demo::demo_world);
    reveal(crate::demo::demo_quests);
    let n = w.next_entity_id;
    let hash = source_hash_text(source);
    let c1 = ContractV { name: "demo"@, version: 1, source, source_hash: hash, status: crate::model::ContractStatus::Published };
    lemma_put_append::<Seq<char>, ContractV, String>(w.contracts, "demo"@, c1);
    let w1 = crate::runtime::deploy_result(w, "demo"@, 1, source)->Ok_0;
    assert(w1.contracts =~= seq![("demo"@, c1)]);
    assert(has_key(w1.contracts, "demo"@)) by {
        assert(w1.contracts[0].0 == "demo"@);
    }
    lemma_zones_shape(w1);
    let z = crate::demo::demo_zones(w1);
    assert forall|j: int| 0 <= j < z.entities.len() implies (#[trigger] z.entities[j]).0 < z.next_entity_id by {}
    lemma_inhabitants_shape(z, n);
}

/// What the demo entities are: their names, ids and bindings, and that
/// none keeps an inventory or a quest status in its data.
#[verifier::rlimit(60)]
proof fn lemma_demo_entities_facts(n: u64, target: Seq<char>)
    requires
        n + 8 <= u64::MAX,
        target == "demo"@,
    ensures
        ({
            let es = demo_entities(n);
            &&& es.len() == 8
            &&& first_named_entity(es, EntityKind::Zone, "Village"@) == Some(n)
            &&& first_named_entity(es, EntityKind::Zone, "Ruins"@) == Some((n + 2) as u64)
            &&& first_named_entity(es, EntityKind::Actor, "Mira"@) == Some((n + 5) as u64)
            &&& first_named_entity(es, EntityKind::Actor, "Rowan"@) == Some((n + 6) as u64)
            &&& first_named_entity(es, EntityKind::Item, "stone tablet"@) == Some((n + 7) as u64)
            &&& forall|i: int|
                0 <= i < es.len() ==> {
                    &&& legacy_list((#[trigger] es[i]).1) is None
                    &&& legacy_status(es[i].1) is None
                    &&& (es[i].1.kind == EntityKind::Actor ==> es[i].1.contract == Some(target))
                    &&& (es[i].1.kind != EntityKind::Actor ==> es[i].1.contract is None)
                }
        }),
{
    let es = demo_entities(n);
    lemma_zone_data(
        "Village"@,
        crate::demo::village_text(),
        crate::demo::one_exit("east"@, 2),
        crate::demo::one_exit("east"@, (n + 1) as u64),
    );
    lemma_zone_data("Forest"@, crate::demo::forest_text(), crate::demo::two_exits(3, n), JsonV::Null);
    lemma_zone_data("Ruins"@, crate::demo::ruins_text(), crate::demo::one_exit("west"@, (n + 1) as u64), JsonV::Null);
    lemma_new_entity_data("Mira"@, crate::demo::mira_text());
    lemma_new_entity_data("Rowan"@, rowan_text());
    lemma_new_entity_data("brass key"@, rowan_text());
    lemma_new_entity_data("stone tablet"@, rowan_text());
    reveal_strlit("Village");
    reveal_strlit("Forest");
    reveal_strlit("Ruins");
    reveal_strlit("Mira");
    reveal_strlit("Rowan");
    reveal_strlit("brass key");
    reveal_strlit("stone tablet");
    assert("Village"@.len() == 7 && "Forest"@.len() == 6 && "Ruins"@.len() == 5);
    assert("Mira"@.len() == 4 && "Rowan"@.len() == 5 && "brass key"@.len() == 9 && "stone tablet"@.len() == 12);
    let empty: Seq<(Seq<char>, JsonV)> = seq![];
    assert(get(empty, "name"@) is None && get(empty, "inventory"@) is None && get(empty, "quest"@) is None);
    assert(es[3].1.data == empty);
    assert(entity_name(es[0].1) == Some("Village"@));
    assert(entity_name(es[1].1) == Some("Forest"@));
    assert(entity_name(es[2].1) == Some("Ruins"@));
    assert(entity_name(es[3].1) is None);
    assert(entity_name(es[4].1) == Some("brass key"@));
    assert(entity_name(es[5].1) == Some("Mira"@));
    assert(entity_name(es[6].1) == Some("Rowan"@));
    assert(entity_name(es[7].1) == Some("stone tablet"@));
    lemma_first_named_at(es, EntityKind::Zone, "Village"@, 0);
    lemma_first_named_at(es, EntityKind::Zone, "Ruins"@, 2);
    lemma_first_named_at(es, EntityKind::Actor, "Mira"@, 5);
    lemma_first_named_at(es, EntityKind::Actor, "Rowan"@, 6);
    lemma_first_named_at(es, EntityKind::Item, "stone tablet"@, 7);
}

/// A single demo contract with the hash is the best version.
proof fn lemma_best_demo_single(key: Seq<char>, c: ContractV, hash: Seq<char>)
    requires
        demo_with_hash(c, hash),
    ensures
        best_demo(seq![(key, c)], hash) == Some((key, c.version)),
{
    let cs = seq![(key, c)];
    assert(cs.drop_last() =~= Seq::<(Seq<char>, ContractV)>::empty());
    assert(best_demo(cs.drop_last(), hash) is None);
    assert(cs.last() == (key, c));
}

/// The quests of the demo world are those Mira and Rowan give.
#[verifier::spinoff_prover]
#[verifier::rlimit(40)]
proof fn lemma_demo_quests_present(q0: Seq<(Seq<char>, QuestDefinitionV)>, mira: u64, rowan: u64)
    requires
        sorted::<Seq<char>, QuestDefinitionV, String>(q0),
    ensures
        ({
            let defs = demo_definitions(mira, rowan);
            let q = put::<Seq<char>, QuestDefinitionV, String>(
                put::<Seq<char>, QuestDefinitionV, String>(
                    put::<Seq<char>, QuestDefinitionV, String>(q0, "lost_key"@, crate::demo::lost_key_view(mira)),
                    "ruins_tablet"@,
                    crate::demo::ruins_tablet_view(rowan),
                ),
                "open_shrine"@,
                crate::demo::open_shrine_view(rowan),
            );
            forall|k: int| 0 <= k < 3 ==> get(q, (#[trigger] defs[k]).id) == Some(defs[k])
        }),
{
    let defs = demo_definitions(mira, rowan);
    reveal_strlit("lost_key");
    reveal_strlit("ruins_tablet");
    reveal_strlit("open_shrine");
    assert(defs[0].id.len() == 8 && defs[1].id.len() == 12 && defs[2].id.len() == 11);
    assert(defs[0] == crate::demo::lost_key_view(mira));
    assert(defs[1] == crate::demo::ruins_tablet_view(rowan));
    assert(defs[2] == crate::demo::open_shrine_view(rowan));
    assert(defs[0].id != defs[1].id && defs[0].id != defs[2].id && defs[1].id != defs[2].id);
    let q1 = put::<Seq<char>, QuestDefinitionV, String>(q0, defs[0].id, defs[0]);
    let q2 = put::<Seq<char>, QuestDefinitionV, String>(q1, defs[1].id, defs[1]);
    let q3 = put::<Seq<char>, QuestDefinitionV, String>(q2, defs[2].id, defs[2]);
    lemma_put::<Seq<char>, QuestDefinitionV, String>(q0, defs[0].id, defs[0]);
    lemma_put::<Seq<char>, QuestDefinitionV, String>(q1, defs[1].id, defs[1]);
    lemma_put::<Seq<char>, QuestDefinitionV, String>(q2, defs[2].id, defs[2]);
    assert(get(q1, defs[0].id) == Some(defs[0]));
    assert(get(q2, defs[0].id) == Some(defs[0]));
    assert(get(q2, defs[1].id) == Some(defs[1]));
    assert(get(q3, defs[0].id) == Some(defs[0]));
    assert(get(q3, defs[1].id) == Some(defs[1]));
    assert(get(q3, defs[2].id) == Some(defs[2]));
    assert forall|k: int| 0 <= k < 3 implies get(q3, (#[trigger] defs[k]).id) == Some(defs[k]) by {
        if k == 0 {
        } else if k == 1 {
        } else {
        }
    }
}

/// The demo world, as built on an empty world, is settled.
#[verifier::rlimit(40)]
proof fn lemma_initialize_settles(w: WorldV, source: Seq<char>)
    requires
        w.entities.len() == 0,
        w.contracts.len() == 0,
        has_key(w.accounts, "admin"@),
        sorted::<Seq<char>, QuestDefinitionV, String>(w.quests),
        w.next_entity_id + 8 <= u64::MAX,
        w.head + 12 <= u64::MAX,
        world_errors(crate::demo::demo_world(w, source)) is None,
    ensures
        demo_settled(crate::demo::demo_world(w, source), source),
{
    let n = w.next_entity_id;
    let hash = source_hash_text(source);
    lemma_demo_world_shape(w, source);
    lemma_demo_entities_facts(n, "demo"@);
    let dw = crate::demo::demo_world(w, source);
    let es = dw.entities;
    // The demo contract is the best version.
    let c1 = dw.contracts[0].1;
    lemma_best_demo_single("demo"@, c1, hash);
    assert forall|i: int| 0 <= i < es.len() && demo_actor(dw, #[trigger] es[i].1) implies es[i].1.contract == Some(
        "demo"@,
    ) by {}
    lemma_demo_quests_present(w.quests, (n + 5) as u64, (n + 6) as u64);
    assert(no_legacy_inventories(dw));
}

/// A valid world's entity ids all lie below its next id.
proof fn lemma_valid_ids_below_next(w: WorldV)
    requires
        sorted::<u64, EntityV, u64>(w.entities),
        world_errors(w) is None,
    ensures
        forall|x: u64| has_key(w.entities, x) ==> x < w.next_entity_id,
{
    reveal(world_errors);
    assert(crate::validate::reference_errors(w) is None);
    assert(crate::validate::next_entity_error(w) is None);
    assert forall|x: u64| has_key(w.entities, x) implies x < w.next_entity_id by {
        let i = choose|i: int| 0 <= i < w.entities.len() && #[trigger] w.entities[i].0 == x;
        let l = w.entities.len() - 1;
        if i < l {
            assert(w.entities[i].0 < w.entities[l].0);
        }
        assert(w.entities.last() == w.entities[l]);
    }
}

/// Entity creation keeps every key and adds the next id.
proof fn lemma_create_grows(
    w: WorldV,
    kind: EntityKind,
    owner: Seq<char>,
    contract: Option<Seq<char>>,
    location: Option<u64>,
    data: Seq<(Seq<char>, JsonV)>,
)
    requires
        sorted::<u64, EntityV, u64>(w.entities),
        w.next_entity_id < u64::MAX,
        create_entity_result(w, kind, owner, contract, location, data) is Ok,
    ensures
        ({
            let c = create_entity_result(w, kind, owner, contract, location, data)->Ok_0;
            &&& sorted::<u64, EntityV, u64>(c.entities)
            &&& forall|x: u64| has_key(w.entities, x) ==> #[trigger] has_key(c.entities, x)
            &&& c.next_entity_id == w.next_entity_id + 1
        }),
{
    reveal(create_entity_result);
    lemma_put::<u64, EntityV, u64>(
        w.entities,
        w.next_entity_id,
        EntityV { id: w.next_entity_id, kind, owner, location, contract, data },
    );
}

/// A successful upgrade step keeps every entity key, keeps the entity map
/// sorted, and hands out at most two new ids.
#[verifier::rlimit(60)]
proof fn lemma_target_grows(w2: WorldV, target: Seq<char>, deployed: bool, migrated: bool)
    requires
        sorted::<u64, EntityV, u64>(w2.entities),
        w2.next_entity_id + 2 <= u64::MAX,
        ensure_with_target(w2, target, deployed, migrated).1 is Ok,
    ensures
        forall|x: u64|
            has_key(w2.entities, x) ==> x < #[trigger] ensure_with_target(w2, target, deployed, migrated).0.next_entity_id,
        ensure_with_target(w2, target, deployed, migrated).0.next_entity_id <= w2.next_entity_id + 2,
{
    reveal(ensure_with_target);
    let w3 = WorldV { entities: rebind_entities(w2, target), ..w2 };
    assert forall|x: u64| has_key(w2.entities, x) implies #[trigger] has_key(w3.entities, x) by {
        let i = choose|i: int| 0 <= i < w2.entities.len() && #[trigger] w2.entities[i].0 == x;
        assert(w3.entities[i].0 == x);
    }
    assert(sorted::<u64, EntityV, u64>(w3.entities)) by {
        assert forall|i: int, j: int| 0 <= i < j < w3.entities.len() implies #[trigger] w3.entities[i].0 < #[trigger] w3.entities[j].0 by {
            assert(w2.entities[i].0 < w2.entities[j].0);
        }
    }
    let legacy = legacy_statuses(w2, w2.entities);
    let w4 = WorldV { quest_progress: add_progress(w3.quest_progress, legacy), ..w3 };
    let village = first_named_entity(w4.entities, EntityKind::Zone, "Village"@)->0;
    let ruins = first_named_entity(w4.entities, EntityKind::Zone, "Ruins"@)->0;
    let w5 = if first_named_entity(w4.entities, EntityKind::Actor, "Rowan"@) is Some {
        w4
    } else {
        let d = person_data("Rowan"@, rowan_text());
        lemma_create_grows(w4, EntityKind::Actor, "admin"@, Some(target), Some(village), d);
        create_entity_result(w4, EntityKind::Actor, "admin"@, Some(target), Some(village), d)->Ok_0
    };
    let w6 = if first_named_entity(w5.entities, EntityKind::Item, "stone tablet"@) is Some {
        w5
    } else {
        let d = text_map("name"@, "stone tablet"@);
        lemma_create_grows(w5, EntityKind::Item, "admin"@, None, Some(ruins), d);
        create_entity_result(w5, EntityKind::Item, "admin"@, None, Some(ruins), d)->Ok_0
    };
    let mira = first_named_entity(w4.entities, EntityKind::Actor, "Mira"@)->0;
    let rowan = if first_named_entity(w4.entities, EntityKind::Actor, "Rowan"@) is Some {
        first_named_entity(w4.entities, EntityKind::Actor, "Rowan"@)->0
    } else {
        w4.next_entity_id
    };
    let defs = seq![
        crate::demo::lost_key_view(mira),
        crate::demo::ruins_tablet_view(rowan),
        crate::demo::open_shrine_view(rowan),
    ];
    let w7 = WorldV { quests: crate::demo::refresh_quests(w6.quests, defs), ..w6 };
    assert(world_errors(w7) is None);
    lemma_valid_ids_below_next(w7);
    assert forall|x: u64| has_key(w2.entities, x) implies x < #[trigger] ensure_with_target(
        w2,
        target,
        deployed,
        migrated,
    ).0.next_entity_id by {
        assert(has_key(w3.entities, x));
        assert(has_key(w5.entities, x));
        assert(has_key(w6.entities, x));
    }
}

/// An upgrade that hands out no id already in use succeeds only on a world
/// whose entity ids all lie below the next id.
#[verifier::rlimit(40)]
proof fn lemma_no_stale_ids(w: WorldV, source: Seq<char>)
    requires
        sorted::<u64, EntityV, u64>(w.entities),
        sorted::<Seq<char>, ContractV, String>(w.contracts),
        forall|p: int| 0 <= p < w.entities.len() ==> sorted::<Seq<char>, JsonV, String>(#[trigger] w.entities[p].1.data),
        crate::migration::entity_ids_match(w),
        !(w.entities.len() == 0 && w.contracts.len() == 0),
        !has_key(w.entities, w.next_entity_id),
        !has_key(w.entities, (w.next_entity_id + 1) as u64),
        w.next_entity_id + 2 <= u64::MAX,
        ensure_effect(w, source).1 is Ok,
    ensures
        forall|p: int| 0 <= p < w.entities.len() ==> (#[trigger] w.entities[p]).0 < w.next_entity_id,
{
    let hash = source_hash_text(source);
    crate::migration::lemma_migration_keeps(w);
    crate::migration::lemma_migrated_world(w);
    let m = migration_effect(w)->Ok_0;
    let w1 = m.0;
    let w2 = match best_demo(w1.contracts, hash) {
        Some(best) => w1,
        None => {
            let version = (crate::demo::max_demo_version(w1.contracts) + 1) as u32;
            crate::runtime::deploy_result(w1, "demo"@, version, source)->Ok_0
        },
    };
    let (target, deployed) = match best_demo(w1.contracts, hash) {
        Some(best) => (best.0, false),
        None => (crate::runtime::contract_key_text("demo"@, (crate::demo::max_demo_version(w1.contracts) + 1) as u32), true),
    };
    assert(ensure_effect(w, source) == ensure_with_target(w2, target, deployed, m.1));
    lemma_target_grows(w2, target, deployed, m.1);
    let f = ensure_with_target(w2, target, deployed, m.1).0;
    assert forall|p: int| 0 <= p < w.entities.len() implies (#[trigger] w.entities[p]).0 < w.next_entity_id by {
        let x = w.entities[p].0;
        assert(has_key(w.entities, x));
        assert(has_key(w1.entities, x));
        assert(has_key(w2.entities, x));
        assert(x < f.next_entity_id);
    }
}

/// An upgrade that succeeds leaves a settled world.
pub proof fn lemma_upgrade_settles(w: WorldV, source: Seq<char>)
    requires
        world_well_formed(w),
        crate::demo::upgrade_headroom(w),
        ensure_effect(w, source).1 is Ok,
    ensures
        demo_settled(ensure_effect(w, source).0, source),
{
    if w.entities.len() == 0 && w.contracts.len() == 0 {
        lemma_initialize_settles(w, source);
    } else {
        lemma_update_settles(w, source);
    }
}

/// Whether the maps of a world keep their keys in order, each entity's data
/// too, and every entity is stored under its own id: what every world the
/// library builds satisfies, and what the upgrade requires.
pub open spec fn world_maps_ordered(w: WorldV) -> bool {
    &&& sorted::<u64, EntityV, u64>(w.entities)
    &&& sorted::<Seq<char>, ContractV, String>(w.contracts)
    &&& sorted::<Seq<char>, QuestDefinitionV, String>(w.quests)
    &&& sorted::<Seq<char>, QuestProgressV, String>(w.quest_progress)
    &&& forall|p: int| 0 <= p < w.entities.len() ==> sorted::<Seq<char>, JsonV, String>(#[trigger] w.entities[p].1.data)
    &&& crate::migration::entity_ids_match(w)
}

/// Upgrading the demo is idempotent: once an upgrade with a source has
/// succeeded, the upgraded world is valid, and upgrading again with the
/// same source succeeds, reports no change, and leaves the world exactly as
/// it was. The upgrade must not hand out an id already in use (it creates
/// entities under the next two ids; one created over an existing entity
/// replaces it); the counter headroom is what the upgrade itself requires.
pub proof fn lemma_upgrade_idempotent(w: WorldV, source: Seq<char>)
    requires
        world_maps_ordered(w),
        !has_key(w.entities, w.next_entity_id),
        !has_key(w.entities, (w.next_entity_id + 1) as u64),
        crate::demo::upgrade_headroom(w),
        ensure_effect(w, source).1 is Ok,
    ensures
        world_errors(ensure_effect(w, source).0) is None,
        ensure_effect(ensure_effect(w, source).0, source) == (
            ensure_effect(w, source).0,
            Ok::<bool, crate::error::ErrorV>(false),
        ),
{
    if !(w.entities.len() == 0 && w.contracts.len() == 0) {
        lemma_no_stale_ids(w, source);
    }
    assert(world_well_formed(w));
    lemma_upgrade_settles(w, source);
    lemma_settled_upgrade_is_identity(ensure_effect(w, source).0, source);
}

} // verus!
