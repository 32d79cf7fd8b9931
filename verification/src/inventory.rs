//! Inventories: every listed item exists, is an item, is listed once, by one
//! actor, and lies with that actor; every item lying with an actor is listed.
use crate::error::{err, first_error, lemma_first_error_end, lemma_first_error_start, lemma_first_error_step, outcome, Error, ErrorKind, ErrorV};
use crate::maps::{get, lemma_put, put, SortedMap};
use crate::model::{EntityKind, EntityV, WorldState, WorldV};
use crate::text::{decimal, u64_to_string};
use crate::validate::or_else;
use vstd::prelude::*;

verus! {

/// The positions `0 .. n`.
pub open spec fn positions(n: nat) -> Seq<int> {
    Seq::new(n, |i: int| i)
}

/// The owner of the last of the first `o` inventories that lists item `x`.
pub open spec fn last_holder(inv: Seq<(u64, Seq<u64>)>, o: int, x: u64) -> Option<u64>
    decreases o,
{
    if o <= 0 {
        None
    } else if inv[o - 1].1.contains(x) {
        Some(inv[o - 1].0)
    } else {
        last_holder(inv, o - 1, x)
    }
}

/// The error of the `k`-th item listed in the `o`-th inventory, if any.
pub open spec fn inventory_item_error(w: WorldV, o: int, k: int) -> Option<ErrorV> {
    let owner = w.inventories[o].0;
    let items = w.inventories[o].1;
    let x = items[k];
    let names = seq![decimal(owner as nat), decimal(x as nat)];
    if items.take(k).contains(x) {
        Some(err(ErrorKind::InventoryDuplicateItem, names))
    } else {
        match get(w.entities, x) {
            None => Some(err(ErrorKind::InventoryItemMissing, names)),
            Some(e) => if e.kind != EntityKind::Item {
                Some(err(ErrorKind::InventoryNotItem, names))
            } else {
                match last_holder(w.inventories, o, x) {
                    Some(p) => Some(
                        err(ErrorKind::ItemHeldTwice, seq![decimal(x as nat), decimal(p as nat), decimal(owner as nat)]),
                    ),
                    None => if e.location != Some(owner) {
                        Some(err(ErrorKind::InventoryLocationMismatch, seq![decimal(x as nat), decimal(owner as nat)]))
                    } else {
                        None
                    },
                }
            },
        }
    }
}

pub open spec fn inventory_item_check(w: WorldV, o: int) -> spec_fn(int) -> Option<ErrorV> {
    |k: int| inventory_item_error(w, o, k)
}

/// The error of the `o`-th inventory: its owner must be an existing actor,
/// then its items are checked in order.
pub open spec fn inventory_owner_error(w: WorldV, o: int) -> Option<ErrorV> {
    let owner = w.inventories[o].0;
    match get(w.entities, owner) {
        None => Some(err(ErrorKind::InventoryOwnerMissing, seq![decimal(owner as nat)])),
        Some(e) => if e.kind != EntityKind::Actor {
            Some(err(ErrorKind::InventoryOwnerNotActor, seq![decimal(owner as nat)]))
        } else {
            first_error(positions(w.inventories[o].1.len()), inventory_item_check(w, o))
        },
    }
}

pub open spec fn inventory_owner_check(w: WorldV) -> spec_fn(int) -> Option<ErrorV> {
    |o: int| inventory_owner_error(w, o)
}

/// An item lying with an existing actor must be listed in that actor's inventory.
pub open spec fn unlisted_item_error(w: WorldV, e: EntityV) -> Option<ErrorV> {
    if e.kind != EntityKind::Item {
        None
    } else {
        match e.location {
            None => None,
            Some(l) => match get(w.entities, l) {
                Some(t) => if t.kind == EntityKind::Actor && last_holder(
                    w.inventories,
                    w.inventories.len() as int,
                    e.id,
                ) != Some(l) {
                    Some(err(ErrorKind::ItemMissingFromInventory, seq![decimal(e.id as nat), decimal(l as nat)]))
                } else {
                    None
                },
                None => None,
            },
        }
    }
}

pub open spec fn unlisted_item_check(w: WorldV) -> spec_fn((u64, EntityV)) -> Option<ErrorV> {
    |p: (u64, EntityV)| unlisted_item_error(w, p.1)
}

/// The first inventory error: inventories in owner order, then entities in id order.
pub open spec fn inventory_errors(w: WorldV) -> Option<ErrorV> {
    or_else(
        first_error(positions(w.inventories.len()), inventory_owner_check(w)),
        first_error(w.entities, unlisted_item_check(w)),
    )
}

/// Whether `x` occurs among the first `k` entries.
fn listed_before(v: &Vec<u64>, k: usize, x: u64) -> (r: bool)
    requires
        k <= v@.len(),
    ensures
        r == v@.take(k as int).contains(x),
{
    let mut j: usize = 0;
    while j < k
        invariant
            k <= v@.len(),
            j <= k,
            forall|i: int| 0 <= i < j ==> v@[i] != x,
        decreases k - j,
    {
        if v[j] == x {
            assert(v@.take(k as int)[j as int] == x);
            return true;
        }
        j += 1;
    }
    assert forall|i: int| 0 <= i < v@.take(k as int).len() implies v@.take(k as int)[i] != x by {
        assert(v@.take(k as int)[i] == v@[i]);
    }
    false
}

impl WorldState {
    /// Checks the inventories against the entities they list and the
    /// entities against the inventories that should list them.
    pub fn validate_inventories(&self) -> (r: Result<(), Error>)
        ensures
            outcome(inventory_errors(self@), r),
    {
        let ghost w = self@;
        let ghost inv = w.inventories;
        let ghost f = inventory_owner_check(w);
        let n = self.inventories.len();
        let ghost s = positions(n as nat);
        let mut held_by: SortedMap<u64, u64> = SortedMap::new();
        proof {
            lemma_first_error_start(s, f);
        }
        let mut o: usize = 0;
        while o < n
            invariant
                w == self@,
                inv == w.inventories,
                n == inv.len(),
                o <= n,
                f == inventory_owner_check(w),
                s == positions(n as nat),
                first_error(s, f) == first_error(s.skip(o as int), f),
                forall|x: u64| #[trigger] get(held_by@, x) == last_holder(inv, o as int, x),
            decreases n - o,
        {
            proof {
                lemma_first_error_step(s, f, o as int);
            }
            let owner_id = *self.inventories.key_at(o);
            let items = self.inventories.value_at(o);
            assert(inv[o as int].0 == owner_id && inv[o as int].1 == items@);
            match self.entities.get(&owner_id) {
                None => {
                    return Err(Error::one(ErrorKind::InventoryOwnerMissing, u64_to_string(owner_id)));
                },
                Some(owner) => {
                    if owner.kind != EntityKind::Actor {
                        return Err(Error::one(ErrorKind::InventoryOwnerNotActor, u64_to_string(owner_id)));
                    }
                },
            }
            let ghost g = inventory_item_check(w, o as int);
            let m = items.len();
            let ghost t = positions(m as nat);
            assert(f(s[o as int]) == first_error(t, g));
            proof {
                lemma_first_error_start(t, g);
            }
            let mut k: usize = 0;
            while k < m
                invariant
                    w == self@,
                    inv == w.inventories,
                    n == inv.len(),
                    o < n,
                    inv[o as int].0 == owner_id,
                    inv[o as int].1 == items@,
                    m == items@.len(),
                    k <= m,
                    g == inventory_item_check(w, o as int),
                    f == inventory_owner_check(w),
                    s == positions(n as nat),
                    t == positions(m as nat),
                    first_error(s, f) == match first_error(t, g) {
                        Some(e) => Some(e),
                        None => first_error(s.skip(o + 1), f),
                    },
                    first_error(t, g) == first_error(t.skip(k as int), g),
                    forall|x: u64| #[trigger]
                        get(held_by@, x) == if items@.take(k as int).contains(x) {
                            Some(owner_id)
                        } else {
                            last_holder(inv, o as int, x)
                        },
                decreases m - k,
            {
                proof {
                    lemma_first_error_step(t, g, k as int);
                }
                let x = items[k];
                assert(g(t[k as int]) == inventory_item_error(w, o as int, k as int));
                if listed_before(items, k, x) {
                    return Err(Error::two(ErrorKind::InventoryDuplicateItem, u64_to_string(owner_id), u64_to_string(x)));
                }
                let item = match self.entities.get(&x) {
                    None => {
                        return Err(Error::two(ErrorKind::InventoryItemMissing, u64_to_string(owner_id), u64_to_string(x)));
                    },
                    Some(e) => e,
                };
                if item.kind != EntityKind::Item {
                    return Err(Error::two(ErrorKind::InventoryNotItem, u64_to_string(owner_id), u64_to_string(x)));
                }
                let ghost before = held_by@;
                let _ = held_by.len();
                match held_by.insert(x, owner_id) {
                    Some(previous) => {
                        return Err(Error::three(ErrorKind::ItemHeldTwice, u64_to_string(x), u64_to_string(previous), u64_to_string(owner_id)));
                    },
                    None => {},
                }
                proof {
                    lemma_put::<u64, u64, u64>(before, x, owner_id);
                    let prefix = items@.take(k as int);
                    let longer = items@.take(k + 1);
                    assert(longer[k as int] == x);
                    assert forall|y: u64| #[trigger] longer.contains(y) == (prefix.contains(y) || y == x) by {
                        if prefix.contains(y) {
                            let j = choose|j: int| 0 <= j < prefix.len() && prefix[j] == y;
                            assert(longer[j] == y);
                        }
                        if longer.contains(y) && y != x {
                            let j = choose|j: int| 0 <= j < longer.len() && longer[j] == y;
                            assert(prefix[j] == y);
                        }
                    }
                    assert forall|y: u64| #[trigger] get(held_by@, y) == if longer.contains(y) {
                        Some(owner_id)
                    } else {
                        last_holder(inv, o as int, y)
                    } by {
                        assert(get(before, y) == if prefix.contains(y) {
                            Some(owner_id)
                        } else {
                            last_holder(inv, o as int, y)
                        });
                    }
                }
                if item.location != Some(owner_id) {
                    return Err(Error::two(ErrorKind::InventoryLocationMismatch, u64_to_string(x), u64_to_string(owner_id)));
                }
                k += 1;
            }
            proof {
                lemma_first_error_end(t, g);
                assert(items@.take(m as int) =~= items@);
            }
            o += 1;
        }
        proof {
            lemma_first_error_end(s, f);
        }
        let ghost h = unlisted_item_check(w);
        let ne = self.entities.len();
        proof {
            lemma_first_error_start(w.entities, h);
        }
        let mut i: usize = 0;
        while i < ne
            invariant
                w == self@,
                inv == w.inventories,
                n == inv.len(),
                ne == w.entities.len(),
                i <= ne,
                h == unlisted_item_check(w),
                f == inventory_owner_check(w),
                s == positions(n as nat),
                first_error(s, f) is None,
                first_error(w.entities, h) == first_error(w.entities.skip(i as int), h),
                forall|x: u64| #[trigger] get(held_by@, x) == last_holder(inv, n as int, x),
            decreases ne - i,
        {
            proof {
                lemma_first_error_step(w.entities, h, i as int);
            }
            let e = self.entities.value_at(i);
            assert(h(w.entities[i as int]) == unlisted_item_error(w, e@));
            assert(get(held_by@, e.id) == last_holder(inv, n as int, e.id));
            if e.kind == EntityKind::Item {
                if let Some(l) = e.location {
                    if let Some(target) = self.entities.get(&l) {
                        if target.kind == EntityKind::Actor {
                            let listed = match held_by.get(&e.id) {
                                Some(holder) => *holder == l,
                                None => false,
                            };
                            if !listed {
                                return Err(Error::two(ErrorKind::ItemMissingFromInventory, u64_to_string(e.id), u64_to_string(l)));
                            }
                        }
                    }
                }
            }
            i += 1;
        }
        proof {
            lemma_first_error_end(w.entities, h);
        }
        Ok(())
    }
}

} // verus!
