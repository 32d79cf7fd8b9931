//! The starting world and the check of every invariant at once.
use crate::error::{first_error, outcome, Error, ErrorV};
use crate::events::{event_errors, event_positions, next_event_error};
use crate::inventory::{inventory_errors, positions};
use crate::maps::SortedMap;
use crate::model::{Account, AccountV, WorldEventV, WorldState, WorldV};
use crate::quests::quest_errors;
use crate::validate::{account_check, account_error, location_errors, next_entity_error, or_else, reference_errors};
use vstd::prelude::*;

verus! {

/// The first error of the whole world: references, then the event log,
/// locations, quests and inventories.
#[verifier::opaque]
pub open spec fn world_errors(w: WorldV) -> Option<ErrorV> {
    or_else(
        reference_errors(w),
        or_else(
            event_errors(w),
            or_else(location_errors(w), or_else(quest_errors(w), inventory_errors(w))),
        ),
    )
}

/// The administrator's account, as the starting world holds it.
pub open spec fn admin_account() -> AccountV {
    AccountV { name: "admin"@, public_key: None, nonce: 0, balance: 0 }
}

/// The starting world: one administrator account and nothing else.
pub open spec fn genesis_view() -> WorldV {
    WorldV {
        accounts: seq![("admin"@, admin_account())],
        entities: seq![],
        contracts: seq![],
        receipts: seq![],
        quests: seq![],
        quest_progress: seq![],
        inventories: seq![],
        events: seq![],
        next_event_id: 1,
        next_entity_id: 1,
        head: 0,
    }
}

/// The starting world satisfies every invariant.
pub proof fn lemma_genesis_valid()
    ensures
        world_errors(genesis_view()) is None,
{
    let w = genesis_view();
    reveal(world_errors);
    reveal_strlit("admin");
    assert("admin"@.len() == 5);
    assert(account_error(w.accounts[0].0, w.accounts[0].1) is None);
    assert(account_check()(w.accounts[0]) is None);
    assert(w.accounts.drop_first() =~= seq![]);
    assert(first_error(w.accounts.drop_first(), account_check()) is None);
    assert(first_error(w.accounts, account_check()) is None);
    assert(next_entity_error(w) is None);
    assert(event_positions(w) =~= seq![]);
    assert(next_event_error(w) is None);
    assert(positions(w.inventories.len()) =~= seq![]);
}

impl WorldState {
    /// The starting world: an `admin` account with no key, nonce or
    /// balance; no entities, contracts, receipts, quests or events; the
    /// next event and entity ids both 1; head 0.
    pub fn genesis() -> (r: WorldState)
        ensures
            r@ == genesis_view(),
    {
        let mut accounts: SortedMap<String, Account> = SortedMap::new();
        let admin = Account { name: "admin".to_owned(), public_key: None, nonce: 0, balance: 0 };
        accounts.insert("admin".to_owned(), admin);
        let r = WorldState {
            accounts,
            entities: SortedMap::new(),
            contracts: SortedMap::new(),
            receipts: SortedMap::new(),
            quests: SortedMap::new(),
            quest_progress: SortedMap::new(),
            inventories: SortedMap::new(),
            events: Vec::new(),
            next_event_id: 1,
            next_entity_id: 1,
            head: 0,
        };
        assert(r@.accounts =~= genesis_view().accounts);
        assert(r@.events =~= Seq::<WorldEventV>::empty());
        r
    }

    /// Checks every invariant of the world, reporting the first violation.
    pub fn validate(&self) -> (r: Result<(), Error>)
        ensures
            outcome(world_errors(self@), r),
    {
        proof {
            reveal(world_errors);
        }
        self.validate_references()?;
        self.validate_events()?;
        self.validate_locations()?;
        self.validate_quests()?;
        self.validate_inventories()?;
        Ok(())
    }
}

// ----------------------------------------------------------------------
// Validity and the head
// ----------------------------------------------------------------------

/// The world with another head.
pub open spec fn at_head(w: WorldV, h: u64) -> WorldV {
    WorldV { head: h, ..w }
}

proof fn lemma_settled_within_at_head(w: WorldV, h: u64, d: nat)
    ensures
        crate::quests::settled_within(at_head(w, h), d) == crate::quests::settled_within(w, d),
    decreases d,
{
    if d > 0 {
        lemma_settled_within_at_head(w, h, (d - 1) as nat);
        let prev = crate::quests::settled_within(w, (d - 1) as nat);
        assert forall|id: Seq<char>| #[trigger] crate::quests::settle_step(at_head(w, h), prev).contains(id)
            == crate::quests::settle_step(w, prev).contains(id) by {
            assert(crate::quests::prerequisites_of(at_head(w, h), id) == crate::quests::prerequisites_of(w, id));
        }
        assert(crate::quests::settle_step(at_head(w, h), prev) =~= crate::quests::settle_step(w, prev));
    }
}

/// Every check but the event log's ignores the head.
proof fn lemma_checks_at_head(w: WorldV, h: u64)
    ensures
        crate::validate::reference_errors(at_head(w, h)) == crate::validate::reference_errors(w),
        crate::validate::location_errors(at_head(w, h)) == crate::validate::location_errors(w),
        crate::quests::quest_errors(at_head(w, h)) == crate::quests::quest_errors(w),
        crate::inventory::inventory_errors(at_head(w, h)) == crate::inventory::inventory_errors(w),
{
    let v = at_head(w, h);
    assert(crate::validate::entity_ref_check(v) =~= crate::validate::entity_ref_check(w));
    assert(crate::validate::progress_check(v) =~= crate::validate::progress_check(w));
    assert(crate::validate::receipt_check(v) =~= crate::validate::receipt_check(w));
    assert(crate::validate::location_check(v) =~= crate::validate::location_check(w));
    assert forall|e: (Seq<char>, crate::model::QuestDefinitionV)|
        #[trigger] crate::quests::quest_definition_check(v)(e) == crate::quests::quest_definition_check(w)(e) by {
        assert(crate::quests::prerequisite_check(v, e.1) =~= crate::quests::prerequisite_check(w, e.1));
    }
    assert(crate::quests::quest_definition_check(v) =~= crate::quests::quest_definition_check(w));
    assert forall|e: (Seq<char>, crate::model::QuestDefinitionV)|
        #[trigger] crate::quests::cycle_check(v)(e) == crate::quests::cycle_check(w)(e) by {
        assert forall|d: nat|
            #![trigger crate::quests::settled_within(v, d)]
            #![trigger crate::quests::settled_within(w, d)]
            crate::quests::settled_within(v, d) == crate::quests::settled_within(w, d) by {
            lemma_settled_within_at_head(w, h, d);
        }
        assert(crate::quests::prerequisites_settle(v, e.0) == crate::quests::prerequisites_settle(w, e.0));
    }
    assert(crate::quests::cycle_check(v) =~= crate::quests::cycle_check(w));
    assert forall|o: int| #[trigger] crate::inventory::inventory_owner_check(v)(o) == crate::inventory::inventory_owner_check(
        w,
    )(o) by {
        assert(crate::inventory::inventory_item_check(v, o) =~= crate::inventory::inventory_item_check(w, o));
    }
    assert(crate::inventory::inventory_owner_check(v) =~= crate::inventory::inventory_owner_check(w));
    assert(crate::inventory::unlisted_item_check(v) =~= crate::inventory::unlisted_item_check(w));
}

/// A valid world stays valid with a later head: every event's head is
/// still within the world's, and no other check reads the head.
pub proof fn lemma_valid_at_later_head(w: WorldV, h: u64)
    requires
        world_errors(w) is None,
        w.head <= h,
    ensures
        world_errors(at_head(w, h)) is None,
{
    reveal(world_errors);
    lemma_checks_at_head(w, h);
    let v = at_head(w, h);
    let s = crate::events::event_positions(w);
    crate::error::lemma_first_error_none(s, crate::events::event_check(w));
    crate::error::lemma_first_error_none(crate::events::event_positions(v), crate::events::event_check(v));
    assert forall|i: int| 0 <= i < s.len() implies (#[trigger] crate::events::event_check(v)(s[i])) is None by {
        assert(crate::events::event_check(w)(s[i]) is None);
        assert(crate::events::event_error(v, i) is None);
    }
    assert(crate::events::event_positions(v) == s);
}

} // verus!
