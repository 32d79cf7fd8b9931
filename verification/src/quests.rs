//! Quest definitions: each is stored under its id, has an actor as giver,
//! and lists existing, distinct prerequisites; and no chain of
//! prerequisites runs in a circle.
use crate::error::{err, first_error, lemma_first_error_end, lemma_first_error_none, lemma_first_error_start, lemma_first_error_step, outcome, Error, ErrorKind, ErrorV};
use crate::inventory::positions;
use crate::maps::{get, has_key, index_of, lemma_index_of, sorted};
use crate::model::{EntityKind, QuestDefinitionV, WorldState, WorldV};
use crate::text::{decimal, str_eq, u64_to_string};
use crate::validate::or_else;
use vstd::prelude::*;
use vstd::set_lib::{lemma_len_subset, lemma_subset_equality};

verus! {

/// The error of the `j`-th prerequisite of a quest, if any.
pub open spec fn prerequisite_error(w: WorldV, q: QuestDefinitionV, j: int) -> Option<ErrorV> {
    let p = q.prerequisite_quest_ids[j];
    if p == q.id {
        Some(err(ErrorKind::QuestSelfPrerequisite, seq![q.id]))
    } else if q.prerequisite_quest_ids.take(j).contains(p) {
        Some(err(ErrorKind::QuestDuplicatePrerequisite, seq![q.id, p]))
    } else if !has_key(w.quests, p) {
        Some(err(ErrorKind::QuestPrerequisiteMissing, seq![q.id, p]))
    } else {
        None
    }
}

pub open spec fn prerequisite_check(w: WorldV, q: QuestDefinitionV) -> spec_fn(int) -> Option<ErrorV> {
    |j: int| prerequisite_error(w, q, j)
}

/// The error of one quest definition, if any.
pub open spec fn quest_definition_error(w: WorldV, key: Seq<char>, q: QuestDefinitionV) -> Option<ErrorV> {
    if key != q.id {
        Some(err(ErrorKind::QuestKeyMismatch, seq![key, q.id]))
    } else if q.id.len() == 0 {
        Some(err(ErrorKind::QuestIdEmpty, seq![]))
    } else {
        match get(w.entities, q.giver_entity_id) {
            None => Some(err(ErrorKind::QuestGiverMissing, seq![q.id, decimal(q.giver_entity_id as nat)])),
            Some(g) => if g.kind != EntityKind::Actor {
                Some(err(ErrorKind::QuestGiverNotActor, seq![q.id]))
            } else {
                first_error(positions(q.prerequisite_quest_ids.len()), prerequisite_check(w, q))
            },
        }
    }
}

pub open spec fn quest_definition_check(w: WorldV) -> spec_fn((Seq<char>, QuestDefinitionV)) -> Option<ErrorV> {
    |e: (Seq<char>, QuestDefinitionV)| quest_definition_error(w, e.0, e.1)
}

/// The prerequisites of a quest id; none for an unknown id.
pub open spec fn prerequisites_of(w: WorldV, id: Seq<char>) -> Seq<Seq<char>> {
    match get(w.quests, id) {
        Some(q) => q.prerequisite_quest_ids,
        None => seq![],
    }
}

/// One round of settling: the quests all of whose prerequisites are in `prev`.
pub open spec fn settle_step(w: WorldV, prev: Set<Seq<char>>) -> Set<Seq<char>> {
    Set::new(
        |id: Seq<char>|
            forall|j: int|
                0 <= j < prerequisites_of(w, id).len() ==> prev.contains(#[trigger] prerequisites_of(w, id)[j]),
    )
}

/// The quests every chain of whose prerequisites ends within `d` steps.
pub open spec fn settled_within(w: WorldV, d: nat) -> Set<Seq<char>>
    decreases d,
{
    if d == 0 {
        Set::empty()
    } else {
        settle_step(w, settled_within(w, (d - 1) as nat))
    }
}

/// Whether every chain of prerequisites that starts at quest `id` is finite,
/// so that the quest does not depend on itself.
pub open spec fn prerequisites_settle(w: WorldV, id: Seq<char>) -> bool {
    exists|d: nat| settled_within(w, d).contains(id)
}

/// The cycle error of a quest whose prerequisites never settle.
pub open spec fn cycle_error(w: WorldV, key: Seq<char>) -> Option<ErrorV> {
    if prerequisites_settle(w, key) {
        None
    } else {
        Some(err(ErrorKind::QuestCycle, seq![key]))
    }
}

pub open spec fn cycle_check(w: WorldV) -> spec_fn((Seq<char>, QuestDefinitionV)) -> Option<ErrorV> {
    |e: (Seq<char>, QuestDefinitionV)| cycle_error(w, e.0)
}

/// The first quest error: definitions in id order, then the first quest,
/// in id order, caught in a cycle of prerequisites.
pub open spec fn quest_errors(w: WorldV) -> Option<ErrorV> {
    or_else(first_error(w.quests, quest_definition_check(w)), first_error(w.quests, cycle_check(w)))
}

// ----------------------------------------------------------------------
// Facts used by the check
// ----------------------------------------------------------------------

/// The prerequisites of the quest at position `i`.
spec fn pre(w: WorldV, i: int) -> Seq<Seq<char>> {
    w.quests[i].1.prerequisite_quest_ids
}

/// The prerequisites of the quest at position `i` are distinct and exist.
spec fn resolved(w: WorldV, i: int) -> bool {
    &&& pre(w, i).no_duplicates()
    &&& forall|j: int| 0 <= j < pre(w, i).len() ==> has_key(w.quests, #[trigger] pre(w, i)[j])
}

/// How many of the prerequisites are at positions that are not yet done.
spec fn pending(q: Seq<(Seq<char>, QuestDefinitionV)>, pre: Seq<Seq<char>>, done: Seq<usize>) -> nat
    decreases pre.len(),
{
    if pre.len() == 0 {
        0
    } else {
        pending(q, pre.drop_last(), done) + if done.contains(index_of(q, pre.last()) as usize) {
            0nat
        } else {
            1nat
        }
    }
}

/// Whether some prerequisite of the quest at position `k` is not yet done.
spec fn has_pending(w: WorldV, done: Seq<usize>, k: int) -> bool {
    exists|j: int| 0 <= j < pre(w, k).len() && !done.contains(index_of(w.quests, #[trigger] pre(w, k)[j]) as usize)
}

proof fn lemma_key_position(q: Seq<(Seq<char>, QuestDefinitionV)>, k: Seq<char>)
    requires
        has_key(q, k),
    ensures
        0 <= index_of(q, k) < q.len(),
        q[index_of(q, k)].0 == k,
{
}

proof fn lemma_push_contains(done: Seq<usize>, p: usize, y: usize)
    ensures
        done.push(p).contains(y) == (done.contains(y) || y == p),
{
    if done.contains(y) {
        let s = choose|s: int| 0 <= s < done.len() && done[s] == y;
        assert(done.push(p)[s] == y);
    }
    if y == p {
        assert(done.push(p)[done.len() as int] == y);
    }
    if done.push(p).contains(y) && y != p {
        let s = choose|s: int| 0 <= s < done.push(p).len() && done.push(p)[s] == y;
        assert(done[s] == y);
    }
}

/// Marking one more position done lowers the count by one exactly for the
/// lists that name the quest at that position.
proof fn lemma_pending_push(
    q: Seq<(Seq<char>, QuestDefinitionV)>,
    pre: Seq<Seq<char>>,
    done: Seq<usize>,
    p: usize,
)
    requires
        sorted::<Seq<char>, QuestDefinitionV, String>(q),
        q.len() <= usize::MAX,
        p < q.len(),
        !done.contains(p),
        pre.no_duplicates(),
        forall|j: int| 0 <= j < pre.len() ==> has_key(q, #[trigger] pre[j]),
    ensures
        pending(q, pre, done.push(p)) == pending(q, pre, done) - if pre.contains(q[p as int].0) {
            1int
        } else {
            0int
        },
    decreases pre.len(),
{
    if pre.len() > 0 {
        let d = pre.drop_last();
        assert forall|j: int| 0 <= j < d.len() implies has_key(q, #[trigger] d[j]) by {
            assert(d[j] == pre[j]);
        }
        lemma_pending_push(q, d, done, p);
        let last = pre.last();
        assert(has_key(q, pre[pre.len() - 1]));
        lemma_key_position(q, last);
        let x = index_of(q, last);
        lemma_index_of::<Seq<char>, QuestDefinitionV, String>(q, p as int);
        lemma_push_contains(done, p, x as usize);
        if x == p {
            assert(last == q[p as int].0);
        }
        if last == q[p as int].0 {
            assert(x == p);
            if d.contains(last) {
                let j = choose|j: int| 0 <= j < d.len() && d[j] == last;
                assert(pre[j] == pre[pre.len() - 1]);
            }
        }
        assert(pre.contains(q[p as int].0) == (d.contains(q[p as int].0) || last == q[p as int].0)) by {
            if d.contains(q[p as int].0) {
                let j = choose|j: int| 0 <= j < d.len() && d[j] == q[p as int].0;
                assert(pre[j] == d[j]);
            }
            if pre.contains(q[p as int].0) && last != q[p as int].0 {
                let j = choose|j: int| 0 <= j < pre.len() && pre[j] == q[p as int].0;
                assert(d[j] == pre[j]);
            }
        }
    }
}

/// The count is zero exactly when every prerequisite is done.
proof fn lemma_pending_zero(q: Seq<(Seq<char>, QuestDefinitionV)>, pre: Seq<Seq<char>>, done: Seq<usize>)
    ensures
        pending(q, pre, done) == 0 <==> forall|j: int|
            0 <= j < pre.len() ==> done.contains(index_of(q, #[trigger] pre[j]) as usize),
    decreases pre.len(),
{
    if pre.len() > 0 {
        let d = pre.drop_last();
        lemma_pending_zero(q, d, done);
        assert forall|j: int| 0 <= j < d.len() implies #[trigger] d[j] == pre[j] by {
        }
        if pending(q, pre, done) == 0 {
            assert forall|j: int| 0 <= j < pre.len() implies done.contains(index_of(q, #[trigger] pre[j]) as usize) by {
                if j < d.len() {
                    assert(done.contains(index_of(q, d[j]) as usize));
                }
            }
        }
        if forall|j: int| 0 <= j < pre.len() ==> done.contains(index_of(q, #[trigger] pre[j]) as usize) {
            assert(done.contains(index_of(q, pre[pre.len() - 1]) as usize));
            assert forall|j: int| 0 <= j < d.len() implies done.contains(index_of(q, #[trigger] d[j]) as usize) by {
                assert(done.contains(index_of(q, pre[j]) as usize));
            }
        }
    }
}

proof fn lemma_pending_nothing_done(q: Seq<(Seq<char>, QuestDefinitionV)>, pre: Seq<Seq<char>>, done: Seq<usize>)
    requires
        done.len() == 0,
    ensures
        pending(q, pre, done) == pre.len(),
    decreases pre.len(),
{
    if pre.len() > 0 {
        lemma_pending_nothing_done(q, pre.drop_last(), done);
    }
}

proof fn lemma_settled_monotone(w: WorldV, d: nat, e: nat, id: Seq<char>)
    requires
        settled_within(w, d).contains(id),
        d <= e,
    ensures
        settled_within(w, e).contains(id),
    decreases d,
{
    let ps = prerequisites_of(w, id);
    assert forall|j: int| 0 <= j < ps.len() implies settled_within(w, (e - 1) as nat).contains(#[trigger] ps[j]) by {
        assert(settled_within(w, (d - 1) as nat).contains(ps[j]));
        lemma_settled_monotone(w, (d - 1) as nat, (e - 1) as nat, ps[j]);
    }
}

/// Quests outside the done list, each with a prerequisite outside it too,
/// never settle.
proof fn lemma_stuck(w: WorldV, done: Seq<usize>, d: nat, i: int)
    requires
        sorted::<Seq<char>, QuestDefinitionV, String>(w.quests),
        w.quests.len() <= usize::MAX,
        0 <= i < w.quests.len(),
        !done.contains(i as usize),
        forall|k: int| 0 <= k < w.quests.len() ==> #[trigger] resolved(w, k),
        forall|k: int| 0 <= k < w.quests.len() && !done.contains(k as usize) ==> #[trigger] has_pending(w, done, k),
    ensures
        !settled_within(w, d).contains(w.quests[i].0),
    decreases d,
{
    if d > 0 {
        lemma_index_of::<Seq<char>, QuestDefinitionV, String>(w.quests, i);
        assert(prerequisites_of(w, w.quests[i].0) == pre(w, i));
        assert(resolved(w, i));
        assert(has_pending(w, done, i));
        let j = choose|j: int|
            0 <= j < pre(w, i).len() && !done.contains(index_of(w.quests, #[trigger] pre(w, i)[j]) as usize);
        let k = pre(w, i)[j];
        assert(has_key(w.quests, k));
        lemma_key_position(w.quests, k);
        let x = index_of(w.quests, k);
        lemma_stuck(w, done, (d - 1) as nat, x);
        assert(!settled_within(w, (d - 1) as nat).contains(prerequisites_of(w, w.quests[i].0)[j]));
    }
}

proof fn lemma_below_range(n: nat)
    requires
        n <= usize::MAX + 1,
    ensures
        Set::new(|x: usize| x < n).finite(),
        Set::new(|x: usize| x < n).len() == n,
    decreases n,
{
    if n == 0 {
        assert(Set::new(|x: usize| x < n) =~= Set::<usize>::empty());
    } else {
        lemma_below_range((n - 1) as nat);
        assert(Set::new(|x: usize| x < (n - 1) as nat).insert((n - 1) as usize) =~= Set::new(|x: usize| x < n));
    }
}

/// A list of distinct positions below `n` has at most `n` entries, and has
/// `n` exactly when it holds every position.
proof fn lemma_pigeonhole(s: Seq<usize>, n: nat)
    requires
        s.no_duplicates(),
        forall|k: int| 0 <= k < s.len() ==> s[k] < n,
        n <= usize::MAX,
    ensures
        s.len() <= n,
        (forall|x: usize| x < n ==> s.contains(x)) <==> s.len() == n,
{
    let all = Set::new(|x: usize| x < n);
    lemma_below_range(n);
    s.unique_seq_to_set();
    assert(s.to_set().subset_of(all)) by {
        assert forall|x: usize| s.to_set().contains(x) implies all.contains(x) by {
            let k = choose|k: int| 0 <= k < s.len() && s[k] == x;
        }
    }
    lemma_len_subset(s.to_set(), all);
    if forall|x: usize| x < n ==> s.contains(x) {
        assert(all.subset_of(s.to_set()));
        lemma_len_subset(all, s.to_set());
    }
    if s.len() == n {
        lemma_subset_equality(s.to_set(), all);
        assert forall|x: usize| x < n implies s.contains(x) by {
            assert(all.contains(x));
        }
    }
}

/// Whether `t` is one of the first `k` strings.
fn named_before(v: &Vec<String>, k: usize, t: &str) -> (r: bool)
    requires
        k <= v@.len(),
    ensures
        r == v@.map_values(|s: String| s@).take(k as int).contains(t@),
{
    let ghost names = v@.map_values(|s: String| s@);
    let mut j: usize = 0;
    while j < k
        invariant
            k <= v@.len(),
            names == v@.map_values(|s: String| s@),
            j <= k,
            forall|i: int| 0 <= i < j ==> names[i] != t@,
        decreases k - j,
    {
        if str_eq(v[j].as_str(), t) {
            assert(names.take(k as int)[j as int] == t@);
            return true;
        }
        j += 1;
    }
    assert forall|i: int| 0 <= i < names.take(k as int).len() implies names.take(k as int)[i] != t@ by {
        assert(names.take(k as int)[i] == names[i]);
    }
    false
}

impl WorldState {
    /// Checks the quest definitions in id order; returns the facts the
    /// cycle check relies on.
    fn validate_quest_definitions(&self) -> (r: Result<(), Error>)
        ensures
            outcome(first_error(self@.quests, quest_definition_check(self@)), r),
            r is Ok ==> forall|i: int| 0 <= i < self@.quests.len() ==> #[trigger] resolved(self@, i),
    {
        let ghost w = self@;
        let ghost f = quest_definition_check(w);
        let n = self.quests.len();
        proof {
            lemma_first_error_start(w.quests, f);
        }
        let mut i: usize = 0;
        while i < n
            invariant
                w == self@,
                n == w.quests.len(),
                i <= n,
                f == quest_definition_check(w),
                first_error(w.quests, f) == first_error(w.quests.skip(i as int), f),
                forall|k: int| 0 <= k < i ==> #[trigger] resolved(w, k),
            decreases n - i,
        {
            proof {
                lemma_first_error_step(w.quests, f, i as int);
            }
            let key = self.quests.key_at(i);
            let q = self.quests.value_at(i);
            assert(f(w.quests[i as int]) == quest_definition_error(w, key@, q@));
            if !str_eq(key.as_str(), q.id.as_str()) {
                return Err(Error::two(ErrorKind::QuestKeyMismatch, key.clone(), q.id.clone()));
            }
            if q.id.as_str().is_empty() {
                return Err(Error::plain(ErrorKind::QuestIdEmpty));
            }
            match self.entities.get(&q.giver_entity_id) {
                None => {
                    return Err(Error::two(ErrorKind::QuestGiverMissing, q.id.clone(), u64_to_string(q.giver_entity_id)));
                },
                Some(g) => {
                    if g.kind != EntityKind::Actor {
                        return Err(Error::one(ErrorKind::QuestGiverNotActor, q.id.clone()));
                    }
                },
            }
            let ghost g = prerequisite_check(w, q@);
            let ghost ps = q@.prerequisite_quest_ids;
            let m = q.prerequisite_quest_ids.len();
            let ghost t = positions(m as nat);
            proof {
                lemma_first_error_start(t, g);
            }
            let mut j: usize = 0;
            while j < m
                invariant
                    w == self@,
                    n == w.quests.len(),
                    i < n,
                    w.quests[i as int].1 == q@,
                    ps == q@.prerequisite_quest_ids,
                    ps == pre(w, i as int),
                    m == ps.len(),
                    m == q.prerequisite_quest_ids@.len(),
                    j <= m,
                    g == prerequisite_check(w, q@),
                    t == positions(m as nat),
                    f == quest_definition_check(w),
                    first_error(w.quests, f) == match first_error(t, g) {
                        Some(e) => Some(e),
                        None => first_error(w.quests.skip(i + 1), f),
                    },
                    first_error(t, g) == first_error(t.skip(j as int), g),
                    ps.take(j as int).no_duplicates(),
                    forall|k: int| 0 <= k < j ==> has_key(w.quests, #[trigger] ps[k]),
                    forall|k: int| 0 <= k < i ==> #[trigger] resolved(w, k),
                decreases m - j,
            {
                proof {
                    lemma_first_error_step(t, g, j as int);
                }
                let p = &q.prerequisite_quest_ids[j];
                assert(ps[j as int] == p@);
                assert(g(t[j as int]) == prerequisite_error(w, q@, j as int));
                if str_eq(p.as_str(), q.id.as_str()) {
                    return Err(Error::one(ErrorKind::QuestSelfPrerequisite, q.id.clone()));
                }
                if named_before(&q.prerequisite_quest_ids, j, p.as_str()) {
                    return Err(Error::two(ErrorKind::QuestDuplicatePrerequisite, q.id.clone(), p.clone()));
                }
                if !self.quests.contains_key(p) {
                    return Err(Error::two(ErrorKind::QuestPrerequisiteMissing, q.id.clone(), p.clone()));
                }
                proof {
                    let before = ps.take(j as int);
                    let after = ps.take(j + 1);
                    assert(after =~= before.push(ps[j as int]));
                    assert forall|a: int, b: int| 0 <= a < after.len() && 0 <= b < after.len() && a != b implies after[a]
                        != after[b] by {
                        if a < j && b < j {
                            assert(after[a] == before[a] && after[b] == before[b]);
                        } else if a == j {
                            assert(after[b] == before[b]);
                        } else {
                            assert(after[a] == before[a]);
                        }
                    }
                }
                j += 1;
            }
            proof {
                lemma_first_error_end(t, g);
                assert(ps.take(m as int) =~= ps);
                assert(resolved(w, i as int));
            }
            i += 1;
        }
        proof {
            lemma_first_error_end(w.quests, f);
        }
        Ok(())
    }

    /// Checks the quest definitions, then that no quest depends on itself
    /// through a chain of prerequisites: quests are settled in rounds from
    /// those without prerequisites, and the first quest, in id order, that
    /// is never settled is reported.
    pub fn validate_quests(&self) -> (r: Result<(), Error>)
        ensures
            outcome(quest_errors(self@), r),
    {
        match self.validate_quest_definitions() {
            Ok(()) => {},
            Err(e) => {
                return Err(e);
            },
        }
        let ghost w = self@;
        let ghost qs = w.quests;
        let n = self.quests.len();
        // Each quest's count of prerequisites not yet settled.
        let mut indegree: Vec<usize> = Vec::new();
        let mut i: usize = 0;
        while i < n
            invariant
                w == self@,
                qs == w.quests,
                n == qs.len(),
                i <= n,
                indegree@.len() == i,
                forall|k: int| 0 <= k < i ==> indegree@[k] == pre(w, k).len(),
            decreases n - i,
        {
            let q = self.quests.value_at(i);
            indegree.push(q.prerequisite_quest_ids.len());
            i += 1;
        }
        // For each quest, the quests that list it as a prerequisite.
        let mut dependents: Vec<Vec<usize>> = Vec::new();
        let mut i: usize = 0;
        while i < n
            invariant
                i <= n,
                dependents@.len() == i,
                forall|p: int| 0 <= p < i ==> (#[trigger] dependents@[p])@.len() == 0,
            decreases n - i,
        {
            dependents.push(Vec::new());
            i += 1;
        }
        let _ = self.quests.len();
        let mut i: usize = 0;
        while i < n
            invariant
                w == self@,
                qs == w.quests,
                n == qs.len(),
                sorted::<Seq<char>, QuestDefinitionV, String>(qs),
                forall|k: int| 0 <= k < n ==> #[trigger] resolved(w, k),
                i <= n,
                dependents@.len() == n,
                forall|p: int, a: int, b: int|
                    0 <= p < n && 0 <= a < b < dependents@[p]@.len() ==> #[trigger] dependents@[p]@[a]
                        < #[trigger] dependents@[p]@[b],
                forall|p: int, a: int|
                    0 <= p < n && 0 <= a < dependents@[p]@.len() ==> #[trigger] dependents@[p]@[a] < i,
                forall|p: int, c: usize|
                    0 <= p < n && c < i ==> (#[trigger] dependents@[p]@.contains(c) <==> pre(w, c as int).contains(
                        qs[p].0,
                    )),
            decreases n - i,
        {
            let q = self.quests.value_at(i);
            let m = q.prerequisite_quest_ids.len();
            let ghost ps = pre(w, i as int);
            assert(ps == q@.prerequisite_quest_ids);
            let mut j: usize = 0;
            while j < m
                invariant
                    w == self@,
                    qs == w.quests,
                    n == qs.len(),
                    sorted::<Seq<char>, QuestDefinitionV, String>(qs),
                    forall|k: int| 0 <= k < n ==> #[trigger] resolved(w, k),
                    i < n,
                    ps == pre(w, i as int),
                    ps == q@.prerequisite_quest_ids,
                    m == ps.len(),
                    j <= m,
                    dependents@.len() == n,
                    forall|p: int, a: int, b: int|
                        0 <= p < n && 0 <= a < b < dependents@[p]@.len() ==> #[trigger] dependents@[p]@[a]
                            < #[trigger] dependents@[p]@[b],
                    forall|p: int, a: int|
                        0 <= p < n && 0 <= a < dependents@[p]@.len() ==> #[trigger] dependents@[p]@[a] <= i,
                    forall|p: int, c: usize|
                        0 <= p < n && c < i ==> (#[trigger] dependents@[p]@.contains(c) <==> pre(
                            w,
                            c as int,
                        ).contains(qs[p].0)),
                    forall|p: int|
                        0 <= p < n ==> (#[trigger] dependents@[p]@.contains(i) <==> ps.take(j as int).contains(
                            qs[p].0,
                        )),
                decreases m - j,
            {
                let name = &q.prerequisite_quest_ids[j];
                assert(ps[j as int] == name@);
                assert(resolved(w, i as int));
                assert(has_key(qs, ps[j as int]));
                let p = match self.quests.find(name) {
                    Some(p) => p,
                    None => {
                        assert(false);
                        0
                    },
                };
                assert(qs[p as int].0 == ps[j as int]);
                let ghost old_deps = dependents@;
                let mut list: Vec<usize> = Vec::new();
                dependents.set_and_swap(p, &mut list);
                let ghost old_list = list@;
                assert(old_list == old_deps[p as int]@);
                proof {
                    // `i` is not yet listed under `p`: the prerequisites are distinct.
                    assert forall|a: int| 0 <= a < old_list.len() implies old_list[a] < i by {
                        assert(old_deps[p as int]@[a] <= i);
                        if old_list[a] == i {
                            assert(old_deps[p as int]@.contains(i));
                            assert(ps.take(j as int).contains(qs[p as int].0));
                            let k = choose|k: int| 0 <= k < j && ps.take(j as int)[k] == qs[p as int].0;
                            assert(ps[k] == ps[j as int]);
                        }
                    }
                }
                list.push(i);
                dependents.set_and_swap(p, &mut list);
                proof {
                    let before = ps.take(j as int);
                    let after = ps.take(j + 1);
                    assert(after =~= before.push(ps[j as int]));
                    let nl = dependents@[p as int]@;
                    assert(nl == old_list.push(i));
                    assert forall|r: int| 0 <= r < n && r != p implies #[trigger] dependents@[r] == old_deps[r] by {
                    }
                    assert forall|r: int, a: int, b: int|
                        0 <= r < n && 0 <= a < b < dependents@[r]@.len() implies #[trigger] dependents@[r]@[a]
                            < #[trigger] dependents@[r]@[b] by {
                        if r == p {
                            if b < old_list.len() {
                                assert(old_deps[r]@[a] < old_deps[r]@[b]);
                            } else {
                                assert(old_list[a] < i);
                            }
                        }
                    }
                    assert forall|r: int, a: int|
                        0 <= r < n && 0 <= a < dependents@[r]@.len() implies #[trigger] dependents@[r]@[a] <= i by {
                        if r == p && a < old_list.len() {
                            assert(old_deps[r]@[a] <= i);
                        }
                    }
                    assert forall|r: int| 0 <= r < n implies (#[trigger] dependents@[r]@.contains(i) <==> after.contains(
                        qs[r].0,
                    )) by {
                        assert(after.contains(qs[r].0) == (before.contains(qs[r].0) || ps[j as int] == qs[r].0))
                            by {
                            if before.contains(qs[r].0) {
                                let k = choose|k: int| 0 <= k < before.len() && before[k] == qs[r].0;
                                assert(after[k] == before[k]);
                            }
                            if after.contains(qs[r].0) && ps[j as int] != qs[r].0 {
                                let k = choose|k: int| 0 <= k < after.len() && after[k] == qs[r].0;
                                assert(before[k] == after[k]);
                            }
                            if ps[j as int] == qs[r].0 {
                                assert(after[j as int] == qs[r].0);
                            }
                        }
                        if r == p {
                            assert(nl[nl.len() - 1] == i);
                        } else {
                            lemma_index_of::<Seq<char>, QuestDefinitionV, String>(qs, r);
                            lemma_index_of::<Seq<char>, QuestDefinitionV, String>(qs, p as int);
                            assert(ps[j as int] != qs[r].0);
                        }
                    }
                    assert forall|r: int, c: usize|
                        0 <= r < n && c < i implies (#[trigger] dependents@[r]@.contains(c) <==> pre(
                            w,
                            c as int,
                        ).contains(qs[r].0)) by {
                        if r == p {
                            assert(old_deps[r]@.contains(c) <==> pre(w, c as int).contains(qs[r].0));
                            if nl.contains(c) {
                                let a = choose|a: int| 0 <= a < nl.len() && nl[a] == c;
                                assert(a < old_list.len());
                                assert(old_list[a] == c);
                            }
                            if old_list.contains(c) {
                                let a = choose|a: int| 0 <= a < old_list.len() && old_list[a] == c;
                                assert(nl[a] == c);
                            }
                        }
                    }
                }
                j += 1;
            }
            proof {
                assert(ps.take(m as int) =~= ps);
            }
            i += 1;
        }
        // The quests that are ready, in the order they settle.
        let mut ready: Vec<usize> = Vec::new();
        let mut i: usize = 0;
        while i < n
            invariant
                w == self@,
                qs == w.quests,
                n == qs.len(),
                sorted::<Seq<char>, QuestDefinitionV, String>(qs),
                i <= n,
                indegree@.len() == n,
                forall|k: int| 0 <= k < n ==> indegree@[k] == pre(w, k).len(),
                ready@.no_duplicates(),
                forall|s: int| 0 <= s < ready@.len() ==> ready@[s] < i,
                forall|k: usize| k < i ==> (#[trigger] ready@.contains(k) <==> indegree@[k as int] == 0),
                forall|s: int|
                    0 <= s < ready@.len() ==> settled_within(w, (s + 1) as nat).contains(#[trigger] qs[ready@[s] as int].0),
                ready@.len() <= i,
            decreases n - i,
        {
            if indegree[i] == 0 {
                proof {
                    lemma_index_of::<Seq<char>, QuestDefinitionV, String>(qs, i as int);
                    assert(prerequisites_of(w, qs[i as int].0) == pre(w, i as int));
                    assert(settled_within(w, (ready@.len() + 1) as nat).contains(qs[i as int].0));
                    assert forall|k: usize| k < i implies (#[trigger] ready@.push(i).contains(k) <==> indegree@[k as int]
                        == 0) by {
                        lemma_push_contains(ready@, i, k);
                    }
                    lemma_push_contains(ready@, i, i);
                    if ready@.contains(i) {
                        let s = choose|s: int| 0 <= s < ready@.len() && ready@[s] == i;
                    }
                }
                ready.push(i);
            }
            proof {
                assert forall|k: usize| k <= i implies (#[trigger] ready@.contains(k) <==> indegree@[k as int] == 0) by {
                    if k == i && ready@.contains(k) {
                        let s = choose|s: int| 0 <= s < ready@.len() && ready@[s] == k;
                    }
                }
            }
            i += 1;
        }
        proof {
            assert forall|k: int| 0 <= k < n implies #[trigger] indegree@[k] == pending(qs, pre(w, k), ready@.take(0)) by {
                lemma_pending_nothing_done(qs, pre(w, k), ready@.take(0));
            }
        }
        let mut head: usize = 0;
        let mut processed: usize = 0;
        while head < ready.len()
            invariant
                w == self@,
                qs == w.quests,
                n == qs.len(),
                n <= usize::MAX,
                sorted::<Seq<char>, QuestDefinitionV, String>(qs),
                forall|k: int| 0 <= k < n ==> #[trigger] resolved(w, k),
                indegree@.len() == n,
                dependents@.len() == n,
                forall|p: int, a: int, b: int|
                    0 <= p < n && 0 <= a < b < dependents@[p]@.len() ==> #[trigger] dependents@[p]@[a]
                        < #[trigger] dependents@[p]@[b],
                forall|p: int, a: int|
                    0 <= p < n && 0 <= a < dependents@[p]@.len() ==> #[trigger] dependents@[p]@[a] < n,
                forall|p: int, c: usize|
                    0 <= p < n && c < n ==> (#[trigger] dependents@[p]@.contains(c) <==> pre(w, c as int).contains(
                        qs[p].0,
                    )),
                ready@.no_duplicates(),
                forall|s: int| 0 <= s < ready@.len() ==> ready@[s] < n,
                ready@.len() <= n,
                head <= ready@.len(),
                processed == head,
                forall|k: usize| k < n ==> (#[trigger] ready@.contains(k) <==> indegree@[k as int] == 0),
                forall|k: int| 0 <= k < n ==> #[trigger] indegree@[k] == pending(qs, pre(w, k), ready@.take(head as int)),
                forall|s: int|
                    0 <= s < ready@.len() ==> settled_within(w, (s + 1) as nat).contains(#[trigger] qs[ready@[s] as int].0),
            decreases n - head,
        {
            let p = ready[head];
            let ghost done0 = ready@.take(head as int);
            proof {
                assert(ready@.take(head + 1) =~= done0.push(p));
                if done0.contains(p) {
                    let s = choose|s: int| 0 <= s < done0.len() && done0[s] == p;
                    assert(ready@[s] == ready@[head as int]);
                }
            }
            head += 1;
            processed += 1;
            let ghost done1 = ready@.take(head as int);
            let children = &dependents[p];
            let ghost kids = children@;
            let mut k: usize = 0;
            while k < children.len()
                invariant
                    w == self@,
                    qs == w.quests,
                    n == qs.len(),
                    n <= usize::MAX,
                    sorted::<Seq<char>, QuestDefinitionV, String>(qs),
                    forall|x: int| 0 <= x < n ==> #[trigger] resolved(w, x),
                    p < n,
                    !done0.contains(p),
                    done1 == done0.push(p),
                    kids == children@,
                    k <= kids.len(),
                    forall|a: int, b: int| 0 <= a < b < kids.len() ==> #[trigger] kids[a] < #[trigger] kids[b],
                    forall|a: int| 0 <= a < kids.len() ==> #[trigger] kids[a] < n,
                    forall|c: usize| c < n ==> (#[trigger] kids.contains(c) <==> pre(w, c as int).contains(qs[p as int].0)),
                    indegree@.len() == n,
                    ready@.no_duplicates(),
                    forall|s: int| 0 <= s < ready@.len() ==> ready@[s] < n,
                    ready@.len() <= n,
                    head <= ready@.len(),
                    ready@.take(head as int) == done1,
                    forall|x: usize| x < n ==> (#[trigger] ready@.contains(x) <==> indegree@[x as int] == 0),
                    forall|x: usize|
                        x < n ==> #[trigger] indegree@[x as int] == pending(qs, pre(w, x as int), done0) - if kids.take(
                            k as int,
                        ).contains(x) {
                            1int
                        } else {
                            0int
                        },
                    forall|s: int|
                        0 <= s < ready@.len() ==> settled_within(w, (s + 1) as nat).contains(#[trigger] qs[ready@[s] as int].0),
                decreases kids.len() - k,
            {
                let c = children[k];
                let ghost before = kids.take(k as int);
                let ghost after = kids.take(k + 1);
                let ghost pc = pre(w, c as int);
                proof {
                    assert(after =~= before.push(c));
                    if before.contains(c) {
                        let a = choose|a: int| 0 <= a < before.len() && before[a] == c;
                        assert(kids[a] < kids[k as int]);
                    }
                    assert(kids[k as int] == c);
                    assert(kids.contains(c));
                    assert(pc.contains(qs[p as int].0));
                    assert(resolved(w, c as int));
                    lemma_index_of::<Seq<char>, QuestDefinitionV, String>(qs, p as int);
                    lemma_pending_zero(qs, pc, done0);
                    let jj = choose|jj: int| 0 <= jj < pc.len() && pc[jj] == qs[p as int].0;
                    assert(!done0.contains(index_of(qs, pc[jj]) as usize));
                    lemma_pending_push(qs, pc, done0, p);
                    assert(indegree@[c as int] == pending(qs, pc, done0));
                    assert(indegree@[c as int] > 0);
                    assert(!ready@.contains(c));
                }
                let ghost old_deg = indegree@;
                let degree = indegree[c] - 1;
                indegree.set(c, degree);
                proof {
                    assert forall|x: usize| x < n implies #[trigger] indegree@[x as int] == pending(
                        qs,
                        pre(w, x as int),
                        done0,
                    ) - if after.contains(x) {
                        1int
                    } else {
                        0int
                    } by {
                        lemma_push_contains(before, c, x);
                    }
                }
                if degree == 0 {
                    proof {
                        assert(pending(qs, pc, done1) == 0);
                        lemma_pending_zero(qs, pc, done1);
                        lemma_index_of::<Seq<char>, QuestDefinitionV, String>(qs, c as int);
                        assert(prerequisites_of(w, qs[c as int].0) == pc);
                        let len = ready@.len();
                        assert forall|jj: int| 0 <= jj < pc.len() implies settled_within(w, len as nat).contains(#[trigger] pc[jj]) by {
                            assert(has_key(qs, pc[jj]));
                            lemma_key_position(qs, pc[jj]);
                            let x = index_of(qs, pc[jj]) as usize;
                            assert(done1.contains(x));
                            let s = choose|s: int| 0 <= s < done1.len() && done1[s] == x;
                            assert(ready@[s] == x);
                            assert(settled_within(w, (s + 1) as nat).contains(qs[ready@[s] as int].0));
                            lemma_settled_monotone(w, (s + 1) as nat, len as nat, pc[jj]);
                        }
                        assert(settled_within(w, (len + 1) as nat).contains(qs[c as int].0));
                        assert forall|x: usize| x < n implies (#[trigger] ready@.push(c).contains(x) <==> indegree@[x as int]
                            == 0) by {
                            lemma_push_contains(ready@, c, x);
                            if x != c {
                                assert(ready@.contains(x) <==> old_deg[x as int] == 0);
                            }
                        }
                        assert(ready@.push(c).take(head as int) =~= ready@.take(head as int));
                        assert(ready@.push(c).no_duplicates());
                        lemma_pigeonhole(ready@.push(c), n as nat);
                    }
                    ready.push(c);
                } else {
                    proof {
                        assert forall|x: usize| x < n implies (#[trigger] ready@.contains(x) <==> indegree@[x as int] == 0) by {
                            if x != c {
                                assert(ready@.contains(x) <==> old_deg[x as int] == 0);
                            }
                        }
                    }
                }
                k += 1;
            }
            proof {
                assert(kids.take(kids.len() as int) =~= kids);
                assert forall|x: int| 0 <= x < n implies #[trigger] indegree@[x] == pending(qs, pre(w, x), ready@.take(head as int)) by {
                    assert(resolved(w, x));
                    lemma_pending_push(qs, pre(w, x), done0, p);
                    assert(indegree@[(x as usize) as int] == indegree@[x]);
                    assert(kids.contains(x as usize) <==> pre(w, x).contains(qs[p as int].0));
                }
            }
        }
        proof {
            assert(ready@.take(head as int) =~= ready@);
            // Every quest left out has a prerequisite left out.
            assert forall|x: int| 0 <= x < n && !ready@.contains(x as usize) implies #[trigger] has_pending(w, ready@, x) by {
                lemma_pending_zero(qs, pre(w, x), ready@);
                assert(indegree@[x] > 0);
            }
            assert forall|x: usize| x < n implies (#[trigger] prerequisites_settle(w, qs[x as int].0) <==> ready@.contains(x)) by {
                if ready@.contains(x) {
                    let s = choose|s: int| 0 <= s < ready@.len() && ready@[s] == x;
                    assert(settled_within(w, (s + 1) as nat).contains(qs[ready@[s] as int].0));
                } else {
                    assert forall|d: nat| !settled_within(w, d).contains(qs[x as int].0) by {
                        lemma_stuck(w, ready@, d, x as int);
                    }
                }
            }
            lemma_pigeonhole(ready@, n as nat);
        }
        let ghost h = cycle_check(w);
        if processed != n {
            proof {
                lemma_first_error_start(qs, h);
            }
            let mut i: usize = 0;
            while i < n
                invariant
                    w == self@,
                    qs == w.quests,
                    n == qs.len(),
                    i <= n,
                    h == cycle_check(w),
                    first_error(qs, quest_definition_check(w)) is None,
                    indegree@.len() == n,
                    forall|x: usize| x < n ==> (#[trigger] ready@.contains(x) <==> indegree@[x as int] == 0),
                    forall|x: usize| x < n ==> (#[trigger] prerequisites_settle(w, qs[x as int].0) <==> ready@.contains(x)),
                    forall|x: usize| x < i ==> indegree@[x as int] == 0,
                    first_error(qs, h) == first_error(qs.skip(i as int), h),
                decreases n - i,
            {
                proof {
                    lemma_first_error_step(qs, h, i as int);
                    assert(h(qs[i as int]) == cycle_error(w, qs[i as int].0));
                    assert(prerequisites_settle(w, qs[i as int].0) <==> ready@.contains(i));
                    assert(ready@.contains(i) <==> indegree@[i as int] == 0);
                }
                if indegree[i] > 0 {
                    let key = self.quests.key_at(i);
                    return Err(Error::one(ErrorKind::QuestCycle, key.clone()));
                }
                i += 1;
            }
            proof {
                assert forall|x: usize| x < n implies ready@.contains(x) by {
                    assert(indegree@[x as int] == 0);
                }
            }
            return Err(Error::one(ErrorKind::QuestCycle, "unknown".to_string()));
        }
        proof {
            assert forall|x: int| 0 <= x < qs.len() implies (#[trigger] h(qs[x])) is None by {
                assert(ready@.contains(x as usize));
                assert(prerequisites_settle(w, qs[(x as usize) as int].0));
            }
            lemma_first_error_none(qs, h);
        }
        Ok(())
    }
}

} // verus!
