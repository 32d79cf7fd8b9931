//! Running a contract action: what the run needs from the world before it
//! starts, and how a command's changes are recorded once it has finished.
use crate::encode::quest_status_name;
use crate::error::{err, Error, ErrorKind, ErrorV};
use crate::json::{json_eq, Json, JsonV};
use crate::maps::{get, has_key, index_of, lemma_index_of, sorted, MapKey, SortedMap};
use crate::model::{Entity, EntityV, QuestProgress, QuestProgressV, Receipt, ReceiptV, WorldEventV, WorldState, WorldV};
use crate::runtime::{push_event, with_event};
use crate::text::{decimal, str_eq, u64_to_string};
use vstd::prelude::*;

verus! {

// ----------------------------------------------------------------------
// Before the run
// ----------------------------------------------------------------------

/// The name and source of the contract bound to an entity.
pub open spec fn contract_for(w: WorldV, entity_id: u64) -> Result<(Seq<char>, Seq<char>), ErrorV> {
    match get(w.entities, entity_id) {
        None => Err(err(ErrorKind::EntityNotFound, seq![decimal(entity_id as nat)])),
        Some(e) => match e.contract {
            None => Err(err(ErrorKind::EntityHasNoContract, seq![])),
            Some(c) => match get(w.contracts, c) {
                None => Err(err(ErrorKind::ContractNotFound, seq![c])),
                Some(k) => Ok((c, k.source)),
            },
        },
    }
}

/// The name and source of the contract an action on the entity runs.
pub fn prepare_execution(state: &WorldState, entity_id: u64) -> (r: Result<(String, String), Error>)
    ensures
        match contract_for(state@, entity_id) {
            Ok((name, source)) => r matches Ok((n, s)) && n@ == name && s@ == source,
            Err(e) => r matches Err(x) && x@ == e,
        },
{
    let entity = match state.entities.get(&entity_id) {
        None => {
            return Err(Error::one(ErrorKind::EntityNotFound, u64_to_string(entity_id)));
        },
        Some(e) => e,
    };
    let name = match &entity.contract {
        None => {
            return Err(Error::plain(ErrorKind::EntityHasNoContract));
        },
        Some(c) => c.clone(),
    };
    match state.contracts.get(&name) {
        None => Err(Error::one(ErrorKind::ContractNotFound, name)),
        Some(c) => Ok((name, c.source.clone())),
    }
}

// ----------------------------------------------------------------------
// Changed keys
// ----------------------------------------------------------------------

/// Values whose mathematical forms can be compared.
pub trait SameView: View + Sized {
    fn same_view(&self, other: &Self) -> (r: bool)
        ensures
            r == (self@ == other@),
    ;
}

impl SameView for Entity {
    fn same_view(&self, other: &Entity) -> (r: bool) {
        if self.id != other.id || self.kind != other.kind || self.location != other.location {
            return false;
        }
        if !str_eq(self.owner.as_str(), other.owner.as_str()) {
            return false;
        }
        match (&self.contract, &other.contract) {
            (Some(a), Some(b)) => {
                if !str_eq(a.as_str(), b.as_str()) {
                    return false;
                }
            },
            (None, None) => {},
            _ => {
                return false;
            },
        }
        let n = self.data.len();
        if n != other.data.len() {
            return false;
        }
        let mut i: usize = 0;
        while i < n
            invariant
                n == self.data@.len(),
                n == other.data@.len(),
                i <= n,
                forall|k: int| 0 <= k < i ==> self.data@[k] == other.data@[k],
            decreases n - i,
        {
            if !str_eq(self.data.key_at(i).as_str(), other.data.key_at(i).as_str()) || !json_eq(
                self.data.value_at(i),
                other.data.value_at(i),
            ) {
                assert(self.data@[i as int] != other.data@[i as int]);
                return false;
            }
            i += 1;
        }
        assert(self.data@ =~= other.data@);
        true
    }
}

impl SameView for QuestProgress {
    fn same_view(&self, other: &QuestProgress) -> (r: bool) {
        str_eq(self.quest_id.as_str(), other.quest_id.as_str()) && self.actor_id == other.actor_id && self.status
            == other.status
    }
}

/// Whether the keys are strictly increasing.
pub open spec fn increasing<K: MapKey>(s: Seq<K::V>) -> bool {
    forall|i: int, j: int| 0 <= i < j < s.len() ==> K::key_lt(#[trigger] s[i], #[trigger] s[j])
}

/// Whether `keys` lists, in increasing order, exactly the keys under
/// which the two maps differ.
pub open spec fn lists_changes<K: MapKey, V: View>(keys: Seq<K::V>, a: Seq<(K::V, V::V)>, b: Seq<(K::V, V::V)>) -> bool {
    &&& increasing::<K>(keys)
    &&& forall|x: K::V| #[trigger] keys.contains(x) <==> get(a, x) != get(b, x)
}

/// The keys under which two maps differ, in increasing order.
pub open spec fn changed_keys<K: MapKey, V: View>(a: Seq<(K::V, V::V)>, b: Seq<(K::V, V::V)>) -> Seq<K::V> {
    choose|keys: Seq<K::V>| lists_changes::<K, V>(keys, a, b)
}

/// The views of a list of keys.
pub open spec fn keys_view<K: View>(s: Seq<K>) -> Seq<K::V> {
    s.map_values(|k: K| k@)
}

/// Two increasing lists with the same members are the same list.
proof fn lemma_increasing_unique<K: MapKey>(s: Seq<K::V>, t: Seq<K::V>)
    requires
        increasing::<K>(s),
        increasing::<K>(t),
        forall|x: K::V| s.contains(x) <==> t.contains(x),
    ensures
        s == t,
    decreases s.len(),
{
    if s.len() == 0 {
        if t.len() > 0 {
            assert(t.contains(t[0]));
        }
        assert(s =~= t);
    } else {
        assert(s.contains(s[0]));
        assert(t.len() > 0);
        assert(t.contains(t[0]));
        let k = choose|k: int| 0 <= k < t.len() && t[k] == s[0];
        let m = choose|m: int| 0 <= m < s.len() && s[m] == t[0];
        if k > 0 {
            assert(K::key_lt(t[0], t[k]));
            if m > 0 {
                assert(K::key_lt(s[0], s[m]));
                K::lemma_lt_transitive(s[0], s[m], s[0]);
            }
            K::lemma_lt_irreflexive(s[0]);
        }
        assert(s[0] == t[0]);
        let s1 = s.drop_first();
        let t1 = t.drop_first();
        assert forall|x: K::V| s1.contains(x) <==> t1.contains(x) by {
            if s1.contains(x) {
                let a = choose|a: int| 0 <= a < s1.len() && s1[a] == x;
                assert(s[a + 1] == x);
                assert(K::key_lt(s[0], x));
                K::lemma_lt_irreflexive(x);
                assert(t.contains(x));
                let b = choose|b: int| 0 <= b < t.len() && t[b] == x;
                if b == 0 {
                    assert(false);
                }
                assert(t1[b - 1] == x);
            }
            if t1.contains(x) {
                let a = choose|a: int| 0 <= a < t1.len() && t1[a] == x;
                assert(t[a + 1] == x);
                assert(K::key_lt(t[0], x));
                K::lemma_lt_irreflexive(x);
                assert(s.contains(x));
                let b = choose|b: int| 0 <= b < s.len() && s[b] == x;
                if b == 0 {
                    assert(false);
                }
                assert(s1[b - 1] == x);
            }
        }
        assert(increasing::<K>(s1)) by {
            assert forall|i: int, j: int| 0 <= i < j < s1.len() implies K::key_lt(#[trigger] s1[i], #[trigger] s1[j]) by {
                assert(s1[i] == s[i + 1] && s1[j] == s[j + 1]);
            }
        }
        assert(increasing::<K>(t1)) by {
            assert forall|i: int, j: int| 0 <= i < j < t1.len() implies K::key_lt(#[trigger] t1[i], #[trigger] t1[j]) by {
                assert(t1[i] == t[i + 1] && t1[j] == t[j + 1]);
            }
        }
        lemma_increasing_unique::<K>(s1, t1);
        assert(s =~= t) by {
            assert forall|i: int| 0 <= i < s.len() implies s[i] == t[i] by {
                if i > 0 {
                    assert(s[i] == s1[i - 1]);
                    assert(t[i] == t1[i - 1]);
                }
            }
        }
    }
}

/// Whether some entry among the first `i` has the key.
pub open spec fn among_first<A, B>(m: Seq<(A, B)>, i: int, x: A) -> bool {
    exists|p: int| 0 <= p < i && #[trigger] m[p].0 == x
}

/// The keys under which two maps differ, in increasing order.
fn changed_keys_of<K: MapKey, V: SameView>(a: &SortedMap<K, V>, b: &SortedMap<K, V>) -> (r: Vec<K>)
    ensures
        lists_changes::<K, V>(keys_view(r@), a@, b@),
        r@.len() <= a@.len() + b@.len(),
{
    let n = a.len();
    let m = b.len();
    let mut out: Vec<K> = Vec::new();
    let mut i: usize = 0;
    let mut j: usize = 0;
    while i < n || j < m
        invariant
            n == a@.len(),
            m == b@.len(),
            sorted::<K::V, V::V, K>(a@),
            sorted::<K::V, V::V, K>(b@),
            i <= n,
            j <= m,
            increasing::<K>(keys_view(out@)),
            out@.len() <= i + j,
            forall|k: int|
                0 <= k < out@.len() ==> (i < n ==> K::key_lt(#[trigger] keys_view(out@)[k], a@[i as int].0)) && (j
                    < m ==> K::key_lt(keys_view(out@)[k], b@[j as int].0)),
            forall|p: int| 0 <= p < i && j < m ==> K::key_lt(#[trigger] a@[p].0, b@[j as int].0),
            forall|q: int| 0 <= q < j && i < n ==> K::key_lt(#[trigger] b@[q].0, a@[i as int].0),
            forall|x: K::V|
                #[trigger] keys_view(out@).contains(x) <==> ((among_first(a@, i as int, x) || among_first(
                    b@,
                    j as int,
                    x,
                )) && get(a@, x) != get(b@, x)),
        decreases (n - i) + (m - j),
    {
        let ghost before = keys_view(out@);
        let take_a = i < n && (j >= m || a.key_at(i).less(b.key_at(j)));
        let take_b = !take_a && j < m && (i >= n || b.key_at(j).less(a.key_at(i)));
        if take_a {
            let ghost x = a@[i as int].0;
            proof {
                lemma_index_of::<K::V, V::V, K>(a@, i as int);
                if has_key(b@, x) {
                    let q = index_of(b@, x);
                    lemma_index_of::<K::V, V::V, K>(b@, q);
                    if q < j {
                        K::lemma_lt_irreflexive(x);
                    } else if q > j {
                        K::lemma_lt_transitive(x, b@[j as int].0, x);
                        K::lemma_lt_irreflexive(x);
                    } else {
                        K::lemma_lt_irreflexive(x);
                    }
                }
            }
            out.push(a.key_at(i).duplicate());
            proof {
                assert(keys_view(out@) =~= before.push(x));
                assert forall|y: K::V| #[trigger] keys_view(out@).contains(y) <==> ((among_first(a@, i + 1, y)
                    || among_first(b@, j as int, y)) && get(a@, y) != get(b@, y)) by {
                    if keys_view(out@).contains(y) && y != x {
                        let k = choose|k: int| 0 <= k < keys_view(out@).len() && keys_view(out@)[k] == y;
                        assert(before[k] == y);
                    }
                    if before.contains(y) {
                        let k = choose|k: int| 0 <= k < before.len() && before[k] == y;
                        assert(keys_view(out@)[k] == y);
                    }
                    if among_first(a@, i + 1, y) {
                        let p = choose|p: int| 0 <= p < i + 1 && #[trigger] a@[p].0 == y;
                        if p < i {
                            assert(among_first(a@, i as int, y));
                        }
                    }
                    if among_first(a@, i as int, y) {
                        let p = choose|p: int| 0 <= p < i && #[trigger] a@[p].0 == y;
                        assert(among_first(a@, i + 1, y));
                    }
                    assert(keys_view(out@)[before.len() as int] == x);
                    assert(a@[i as int].0 == x);
                }
                assert forall|k: int|
                    0 <= k < out@.len() implies (i + 1 < n ==> K::key_lt(
                        #[trigger] keys_view(out@)[k],
                        a@[i + 1].0,
                    )) && (j < m ==> K::key_lt(keys_view(out@)[k], b@[j as int].0)) by {
                    if k < before.len() {
                        assert(keys_view(out@)[k] == before[k]);
                        if i + 1 < n {
                            K::lemma_lt_transitive(before[k], x, a@[i + 1].0);
                        }
                    }
                }
                assert forall|p: int, q: int| 0 <= p < q < out@.len() implies K::key_lt(
                    #[trigger] keys_view(out@)[p],
                    #[trigger] keys_view(out@)[q],
                ) by {
                    assert(keys_view(out@)[p] == before[p]);
                    if q < before.len() {
                        assert(keys_view(out@)[q] == before[q]);
                    }
                }
                assert forall|q: int| 0 <= q < j && i + 1 < n implies K::key_lt(#[trigger] b@[q].0, a@[i + 1].0) by {
                    K::lemma_lt_transitive(b@[q].0, x, a@[i + 1].0);
                }
            }
            i += 1;
        } else if take_b {
            let ghost x = b@[j as int].0;
            proof {
                lemma_index_of::<K::V, V::V, K>(b@, j as int);
                if has_key(a@, x) {
                    let p = index_of(a@, x);
                    lemma_index_of::<K::V, V::V, K>(a@, p);
                    if p < i {
                        K::lemma_lt_irreflexive(x);
                    } else if p > i {
                        K::lemma_lt_transitive(x, a@[i as int].0, x);
                        K::lemma_lt_irreflexive(x);
                    } else {
                        K::lemma_lt_irreflexive(x);
                    }
                }
            }
            out.push(b.key_at(j).duplicate());
            proof {
                assert(keys_view(out@) =~= before.push(x));
                assert forall|y: K::V| #[trigger] keys_view(out@).contains(y) <==> ((among_first(a@, i as int, y)
                    || among_first(b@, j + 1, y)) && get(a@, y) != get(b@, y)) by {
                    if keys_view(out@).contains(y) && y != x {
                        let k = choose|k: int| 0 <= k < keys_view(out@).len() && keys_view(out@)[k] == y;
                        assert(before[k] == y);
                    }
                    if before.contains(y) {
                        let k = choose|k: int| 0 <= k < before.len() && before[k] == y;
                        assert(keys_view(out@)[k] == y);
                    }
                    if among_first(b@, j + 1, y) {
                        let q = choose|q: int| 0 <= q < j + 1 && #[trigger] b@[q].0 == y;
                        if q < j {
                            assert(among_first(b@, j as int, y));
                        }
                    }
                    if among_first(b@, j as int, y) {
                        let q = choose|q: int| 0 <= q < j && #[trigger] b@[q].0 == y;
                        assert(among_first(b@, j + 1, y));
                    }
                    assert(keys_view(out@)[before.len() as int] == x);
                    assert(b@[j as int].0 == x);
                }
                assert forall|k: int|
                    0 <= k < out@.len() implies (i < n ==> K::key_lt(#[trigger] keys_view(out@)[k], a@[i as int].0))
                        && (j + 1 < m ==> K::key_lt(keys_view(out@)[k], b@[j + 1].0)) by {
                    if k < before.len() {
                        assert(keys_view(out@)[k] == before[k]);
                        if j + 1 < m {
                            K::lemma_lt_transitive(before[k], x, b@[j + 1].0);
                        }
                    }
                }
                assert forall|p: int, q: int| 0 <= p < q < out@.len() implies K::key_lt(
                    #[trigger] keys_view(out@)[p],
                    #[trigger] keys_view(out@)[q],
                ) by {
                    assert(keys_view(out@)[p] == before[p]);
                    if q < before.len() {
                        assert(keys_view(out@)[q] == before[q]);
                    }
                }
                assert forall|p: int| 0 <= p < i && j + 1 < m implies K::key_lt(#[trigger] a@[p].0, b@[j + 1].0) by {
                    K::lemma_lt_transitive(a@[p].0, x, b@[j + 1].0);
                }
            }
            j += 1;
        } else {
            // Both lists are at the same key.
            let ghost x = a@[i as int].0;
            proof {
                K::lemma_lt_total(a@[i as int].0, b@[j as int].0);
                assert(b@[j as int].0 == x);
                lemma_index_of::<K::V, V::V, K>(a@, i as int);
                lemma_index_of::<K::V, V::V, K>(b@, j as int);
            }
            let differ = !a.value_at(i).same_view(b.value_at(j));
            if differ {
                out.push(a.key_at(i).duplicate());
            }
            proof {
                if differ {
                    assert(keys_view(out@) =~= before.push(x));
                } else {
                    assert(keys_view(out@) =~= before);
                }
                assert forall|y: K::V| #[trigger] keys_view(out@).contains(y) <==> ((among_first(a@, i + 1, y)
                    || among_first(b@, j + 1, y)) && get(a@, y) != get(b@, y)) by {
                    if keys_view(out@).contains(y) && y != x {
                        let k = choose|k: int| 0 <= k < keys_view(out@).len() && keys_view(out@)[k] == y;
                        assert(before[k] == y);
                    }
                    if before.contains(y) {
                        let k = choose|k: int| 0 <= k < before.len() && before[k] == y;
                        assert(keys_view(out@)[k] == y);
                    }
                    if among_first(a@, i + 1, y) {
                        let p = choose|p: int| 0 <= p < i + 1 && #[trigger] a@[p].0 == y;
                        if p < i {
                            assert(among_first(a@, i as int, y));
                        }
                    }
                    if among_first(a@, i as int, y) {
                        let p = choose|p: int| 0 <= p < i && #[trigger] a@[p].0 == y;
                        assert(among_first(a@, i + 1, y));
                    }
                    if among_first(b@, j + 1, y) {
                        let q = choose|q: int| 0 <= q < j + 1 && #[trigger] b@[q].0 == y;
                        if q < j {
                            assert(among_first(b@, j as int, y));
                        }
                    }
                    if among_first(b@, j as int, y) {
                        let q = choose|q: int| 0 <= q < j && #[trigger] b@[q].0 == y;
                        assert(among_first(b@, j + 1, y));
                    }
                    if differ {
                        assert(keys_view(out@)[before.len() as int] == x);
                    }
                    assert(a@[i as int].0 == x);
                    assert(b@[j as int].0 == x);
                }
                assert forall|k: int|
                    0 <= k < out@.len() implies (i + 1 < n ==> K::key_lt(
                        #[trigger] keys_view(out@)[k],
                        a@[i + 1].0,
                    )) && (j + 1 < m ==> K::key_lt(keys_view(out@)[k], b@[j + 1].0)) by {
                    if k < before.len() {
                        assert(keys_view(out@)[k] == before[k]);
                        if i + 1 < n {
                            K::lemma_lt_transitive(before[k], x, a@[i + 1].0);
                        }
                        if j + 1 < m {
                            K::lemma_lt_transitive(before[k], x, b@[j + 1].0);
                        }
                    }
                }
                assert forall|p: int, q: int| 0 <= p < q < out@.len() implies K::key_lt(
                    #[trigger] keys_view(out@)[p],
                    #[trigger] keys_view(out@)[q],
                ) by {
                    assert(keys_view(out@)[p] == before[p]);
                    if q < before.len() {
                        assert(keys_view(out@)[q] == before[q]);
                    }
                }
                assert forall|p: int| 0 <= p < i + 1 && j + 1 < m implies K::key_lt(#[trigger] a@[p].0, b@[j + 1].0) by {
                    if p < i {
                        K::lemma_lt_transitive(a@[p].0, x, b@[j + 1].0);
                    }
                }
                assert forall|q: int| 0 <= q < j + 1 && i + 1 < n implies K::key_lt(#[trigger] b@[q].0, a@[i + 1].0) by {
                    if q < j {
                        K::lemma_lt_transitive(b@[q].0, x, a@[i + 1].0);
                    }
                }
            }
            i += 1;
            j += 1;
        }
    }
    proof {
        assert forall|x: K::V| #[trigger] keys_view(out@).contains(x) <==> get(a@, x) != get(b@, x) by {
            if has_key(a@, x) {
                let p = index_of(a@, x);
                assert(among_first(a@, n as int, x));
            }
            if has_key(b@, x) {
                let q = index_of(b@, x);
                assert(among_first(b@, m as int, x));
            }
        }
    }
    out
}


// ----------------------------------------------------------------------
// After a command
// ----------------------------------------------------------------------

/// How an entity changed: created, deleted or updated.
pub open spec fn change_name(a: Option<EntityV>, b: Option<EntityV>) -> Seq<char> {
    match (a, b) {
        (None, Some(_)) => "created"@,
        (Some(_), None) => "deleted"@,
        _ => "updated"@,
    }
}

/// The payload of an `entity_changed` event.
pub open spec fn change_data(name: Seq<char>) -> JsonV {
    JsonV::Object(seq![("change"@, JsonV::Str(name))])
}

/// The `entity_changed` events for the listed entity ids, numbered from `start`.
pub open spec fn entity_events(ids: Seq<u64>, before: WorldV, after: WorldV, head: u64, start: int) -> Seq<WorldEventV> {
    Seq::new(
        ids.len(),
        |k: int|
            WorldEventV {
                id: (start + k) as u64,
                head,
                kind: "entity_changed"@,
                entity_id: Some(ids[k]),
                data: change_data(change_name(get(before.entities, ids[k]), get(after.entities, ids[k]))),
            },
    )
}

/// The payload of a `quest_progress_changed` event.
pub open spec fn progress_data(p: QuestProgressV) -> JsonV {
    JsonV::Object(seq![("quest_id"@, JsonV::Str(p.quest_id)), ("status"@, JsonV::Str(quest_status_name(p.status)))])
}

/// The `quest_progress_changed` events for the listed progress keys that
/// still exist, numbered from `start`.
pub open spec fn progress_events(keys: Seq<Seq<char>>, after: WorldV, head: u64, start: int) -> Seq<WorldEventV>
    decreases keys.len(),
{
    if keys.len() == 0 {
        seq![]
    } else {
        let prev = progress_events(keys.drop_last(), after, head, start);
        match get(after.quest_progress, keys.last()) {
            Some(p) => prev.push(
                WorldEventV {
                    id: (start + prev.len()) as u64,
                    head,
                    kind: "quest_progress_changed"@,
                    entity_id: Some(p.actor_id),
                    data: progress_data(p),
                },
            ),
            None => prev,
        }
    }
}

/// The world once a command that turned `before` into `after` is recorded:
/// the head advances, then one event for each changed entity, in id order,
/// one for each changed and still present quest progress, in key order, and
/// one for the command itself.
pub open spec fn command_commit(before: WorldV, after: WorldV, entity_id: u64, action: Seq<char>) -> WorldV {
    let head = (after.head + 1) as u64;
    let ids = changed_keys::<u64, Entity>(before.entities, after.entities);
    let keys = changed_keys::<String, QuestProgress>(before.quest_progress, after.quest_progress);
    let e1 = entity_events(ids, before, after, head, after.next_event_id as int);
    let s2 = after.next_event_id + e1.len();
    let e2 = progress_events(keys, after, head, s2);
    let s3 = s2 + e2.len();
    let command = WorldEventV {
        id: s3 as u64,
        head,
        kind: "command_executed"@,
        entity_id: Some(entity_id),
        data: JsonV::Object(seq![("action"@, JsonV::Str(action))]),
    };
    WorldV { head, events: after.events + e1 + e2 + seq![command], next_event_id: (s3 + 1) as u64, ..after }
}

proof fn lemma_progress_events_len(keys: Seq<Seq<char>>, after: WorldV, head: u64, start: int)
    ensures
        progress_events(keys, after, head, start).len() <= keys.len(),
    decreases keys.len(),
{
    if keys.len() > 0 {
        lemma_progress_events_len(keys.drop_last(), after, head, start);
    }
}

/// A one-member JSON object holding a string.
fn string_member(name: &str, value: &str) -> (r: Json)
    ensures
        r@ == JsonV::Object(seq![(name@, JsonV::Str(value@))]),
{
    let mut m: Vec<(String, Json)> = Vec::new();
    m.push((name.to_owned(), Json::string(value)));
    proof {
        crate::json::lemma_members_view(m@);
        assert(crate::json::members_view(m@) =~= seq![(name@, JsonV::Str(value@))]);
    }
    Json::Object(m)
}

/// Records a finished command: `state` is the world the command left and
/// `original` the world before it ran.
pub fn finish_command(state: &mut WorldState, original: &WorldState, entity_id: u64, action: &str)
    requires
        old(state).head < u64::MAX,
        old(state).next_event_id + original@.entities.len() + old(state)@.entities.len()
            + original@.quest_progress.len() + old(state)@.quest_progress.len() + 1 <= u64::MAX,
    ensures
        final(state)@ == command_commit(original@, old(state)@, entity_id, action@),
{
    let ghost after = state@;
    let ids = changed_keys_of(&original.entities, &state.entities);
    let keys = changed_keys_of(&original.quest_progress, &state.quest_progress);
    let ghost idsv = keys_view(ids@);
    let ghost keysv = keys_view(keys@);
    proof {
        let chosen = changed_keys::<u64, Entity>(original@.entities, after.entities);
        lemma_increasing_unique::<u64>(idsv, chosen);
        let chosen_keys = changed_keys::<String, QuestProgress>(original@.quest_progress, after.quest_progress);
        lemma_increasing_unique::<String>(keysv, chosen_keys);
        assert(idsv.len() == ids@.len());
        assert forall|k: int| 0 <= k < ids@.len() implies idsv[k] == ids@[k] by {
        }
    }
    state.head = state.head + 1;
    let ghost base = state@;
    let head = state.head;
    let mut k: usize = 0;
    while k < ids.len()
        invariant
            k <= ids@.len(),
            idsv == keys_view(ids@),
            idsv.len() == ids@.len(),
            forall|x: int| 0 <= x < ids@.len() ==> idsv[x] == ids@[x],
            idsv.len() <= original@.entities.len() + after.entities.len(),
            keysv.len() <= original@.quest_progress.len() + after.quest_progress.len(),
            after.next_event_id + original@.entities.len() + after.entities.len() + original@.quest_progress.len()
                + after.quest_progress.len() + 1 <= u64::MAX,
            head == base.head,
            base == (WorldV { head: (after.head + 1) as u64, ..after }),
            state@ == (WorldV {
                events: base.events + entity_events(idsv.take(k as int), original@, after, head, base.next_event_id as int),
                next_event_id: (base.next_event_id + k) as u64,
                ..base
            }),
        decreases ids.len() - k,
    {
        let id = ids[k];
        let change = match (original.entities.get(&id), state.entities.get(&id)) {
            (None, Some(_)) => "created",
            (Some(_), None) => "deleted",
            _ => "updated",
        };
        proof {
            reveal_strlit("created");
            reveal_strlit("deleted");
            reveal_strlit("updated");
        }
        let ghost before_events = state@.events;
        push_event(state, "entity_changed", Some(id), string_member("change", change));
        proof {
            let e = entity_events(idsv.take(k + 1), original@, after, head, base.next_event_id as int);
            let e0 = entity_events(idsv.take(k as int), original@, after, head, base.next_event_id as int);
            assert(e =~= e0.push(e[k as int]));
            assert(state@.events =~= base.events + e);
        }
        k += 1;
    }
    proof {
        assert(idsv.take(ids@.len() as int) =~= idsv);
    }
    let ghost e1 = entity_events(idsv, original@, after, head, base.next_event_id as int);
    let ghost s2 = base.next_event_id + e1.len();
    let mut k: usize = 0;
    while k < keys.len()
        invariant
            k <= keys@.len(),
            keysv == keys_view(keys@),
            keysv.len() == keys@.len(),
            forall|x: int| 0 <= x < keys@.len() ==> keysv[x] == keys@[x]@,
            e1.len() == idsv.len(),
            idsv.len() <= original@.entities.len() + after.entities.len(),
            keysv.len() <= original@.quest_progress.len() + after.quest_progress.len(),
            after.next_event_id + original@.entities.len() + after.entities.len() + original@.quest_progress.len()
                + after.quest_progress.len() + 1 <= u64::MAX,
            s2 == base.next_event_id + e1.len(),
            head == base.head,
            base == (WorldV { head: (after.head + 1) as u64, ..after }),
            state@ == (WorldV {
                events: base.events + e1 + progress_events(keysv.take(k as int), after, head, s2),
                next_event_id: (s2 + progress_events(keysv.take(k as int), after, head, s2).len()) as u64,
                ..base
            }),
        decreases keys.len() - k,
    {
        proof {
            lemma_progress_events_len(keysv.take(k as int), after, head, s2);
            assert(keysv.take(k + 1).drop_last() =~= keysv.take(k as int));
            assert(keysv.take(k + 1).last() == keys@[k as int]@);
        }
        match state.quest_progress.get(&keys[k]) {
            Some(p) => {
                let data = progress_json(p);
                let actor = p.actor_id;
                push_event(state, "quest_progress_changed", Some(actor), data);
                proof {
                    assert(state@.events =~= base.events + e1 + progress_events(keysv.take(k + 1), after, head, s2));
                }
            },
            None => {},
        }
        k += 1;
    }
    proof {
        assert(keysv.take(keys@.len() as int) =~= keysv);
        lemma_progress_events_len(keysv, after, head, s2);
    }
    push_event(state, "command_executed", Some(entity_id), string_member("action", action));
    proof {
        let e2 = progress_events(keysv, after, head, s2);
        assert(state@.events =~= after.events + e1 + e2 + seq![
            WorldEventV {
                id: (s2 + e2.len()) as u64,
                head,
                kind: "command_executed"@,
                entity_id: Some(entity_id),
                data: JsonV::Object(seq![("action"@, JsonV::Str(action@))]),
            },
        ]);
    }
}

/// The payload of a `quest_progress_changed` event.
fn progress_json(p: &QuestProgress) -> (r: Json)
    ensures
        r@ == progress_data(p@),
{
    let status = match p.status {
        crate::model::QuestStatus::Accepted => "accepted",
        crate::model::QuestStatus::Completed => "completed",
    };
    let mut m: Vec<(String, Json)> = Vec::new();
    m.push(("quest_id".to_owned(), Json::string(p.quest_id.as_str())));
    m.push(("status".to_owned(), Json::string(status)));
    proof {
        crate::json::lemma_members_view(m@);
        assert(crate::json::members_view(m@) =~= seq![
            ("quest_id"@, JsonV::Str(p@.quest_id)),
            ("status"@, JsonV::Str(quest_status_name(p@.status))),
        ]);
    }
    Json::Object(m)
}

/// The receipt of a query or command: no transaction, sender or nonce; the
/// narration, the action's result and the state root.
pub open spec fn run_receipt(w: WorldV, messages: Seq<Seq<char>>, result: JsonV) -> ReceiptV {
    ReceiptV {
        tx_id: seq![],
        from: seq![],
        nonce: 0,
        ok: true,
        messages,
        result,
        state_root: crate::encode::state_root(w),
    }
}

/// The receipt of a query or command run against `state`.
pub fn run_receipt_for(state: &WorldState, messages: Vec<String>, result: Json) -> (r: Receipt)
    ensures
        r@ == run_receipt(state@, crate::model::strings_view(messages@), result@),
{
    Receipt {
        tx_id: String::new(),
        from: String::new(),
        nonce: 0,
        ok: true,
        messages,
        result,
        state_root: state.root(),
    }
}

/// Settles a run of a contract action. A command that succeeded replaces
/// the world with the world it left, `next`, and records it; a query, or a
/// run that failed, leaves the world exactly as it was, whatever `next` holds.
pub fn settle_run(state: &mut WorldState, next: WorldState, succeeded: bool, command: bool, entity_id: u64, action: &str)
    requires
        succeeded && command ==> next.head < u64::MAX,
        succeeded && command ==> next.next_event_id + old(state)@.entities.len() + next@.entities.len()
            + old(state)@.quest_progress.len() + next@.quest_progress.len() + 1 <= u64::MAX,
    ensures
        if succeeded && command {
            final(state)@ == command_commit(old(state)@, next@, entity_id, action@)
        } else {
            final(state)@ == old(state)@
        },
{
    if succeeded && command {
        let mut original = next;
        std::mem::swap(state, &mut original);
        finish_command(state, &original, entity_id, action);
    }
}

/// After a mutation and the save of its result: the world is kept when
/// both succeeded, and put back as it was before the mutation otherwise.
pub fn keep_if_saved(world: &mut WorldState, original: WorldState, mutated: bool, saved: bool) -> (kept: bool)
    ensures
        kept == (mutated && saved),
        final(world)@ == if kept {
            old(world)@
        } else {
            original@
        },
{
    if mutated && saved {
        true
    } else {
        *world = original;
        false
    }
}

} // verus!
