//! The world's invariants, checked in key order; each check reports the
//! first violation it meets.
use crate::error::{err, first_error, lemma_first_error_end, lemma_first_error_start, lemma_first_error_step, outcome, Error, ErrorKind, ErrorV};
use crate::digest::{blake3_digest, blake3_hex, hex_bytes, hex_decode, is_hex, lower_hex};
use crate::maps::{get, has_key};
use crate::model::{AccountV, ContractV, EntityKind, EntityV, QuestProgressV, ReceiptV, WorldState, WorldV};
use crate::runtime::{contract_key, contract_key_text, progress_key_text, quest_progress_key};
use crate::text::{decimal, str_eq, u64_to_string};
use vstd::utf8::encode_utf8;
use vstd::prelude::*;

verus! {

/// The location error of one entity, if any: a zone has no location, an
/// actor stands in an existing zone, an item lies in an existing zone or is
/// held by an existing actor.
pub open spec fn location_error(w: WorldV, e: EntityV) -> Option<ErrorV> {
    match e.location {
        None => None,
        Some(l) => match e.kind {
            EntityKind::Zone => Some(err(ErrorKind::ZoneHasLocation, seq![decimal(e.id as nat), decimal(l as nat)])),
            EntityKind::Actor => match get(w.entities, l) {
                None => Some(err(ErrorKind::ActorLocationMissing, seq![decimal(e.id as nat), decimal(l as nat)])),
                Some(t) => if t.kind != EntityKind::Zone {
                    Some(err(ErrorKind::ActorLocationNotZone, seq![decimal(e.id as nat), decimal(l as nat)]))
                } else {
                    None
                },
            },
            EntityKind::Item => match get(w.entities, l) {
                None => Some(err(ErrorKind::ItemLocationMissing, seq![decimal(e.id as nat), decimal(l as nat)])),
                Some(t) => if t.kind == EntityKind::Item {
                    Some(err(ErrorKind::ItemLocationInvalid, seq![decimal(e.id as nat), decimal(l as nat)]))
                } else {
                    None
                },
            },
        },
    }
}

/// The location check of one entry of the entity map.
pub open spec fn location_check(w: WorldV) -> spec_fn((u64, EntityV)) -> Option<ErrorV> {
    |p: (u64, EntityV)| location_error(w, p.1)
}

/// The first location error, in entity id order.
pub open spec fn location_errors(w: WorldV) -> Option<ErrorV> {
    first_error(w.entities, location_check(w))
}

/// The first of two checks that reports an error.
pub open spec fn or_else(a: Option<ErrorV>, b: Option<ErrorV>) -> Option<ErrorV> {
    if a is Some {
        a
    } else {
        b
    }
}

/// The error of a hash field that is not 32 bytes of hexadecimal.
pub open spec fn hash_error(label: Seq<char>, value: Seq<char>) -> Option<ErrorV> {
    if !is_hex(value) {
        Some(err(ErrorKind::HashNotHex, seq![label]))
    } else if hex_bytes(value).len() != 32 {
        Some(err(ErrorKind::HashLength, seq![label]))
    } else {
        None
    }
}

/// An account is stored under its name, which is not empty, and its
/// optional public key is 32 bytes of hexadecimal.
pub open spec fn account_error(key: Seq<char>, a: AccountV) -> Option<ErrorV> {
    if key != a.name {
        Some(err(ErrorKind::AccountKeyMismatch, seq![key, a.name]))
    } else if a.name.len() == 0 {
        Some(err(ErrorKind::AccountNameEmpty, seq![]))
    } else {
        match a.public_key {
            None => None,
            Some(pk) => if !is_hex(pk) {
                Some(err(ErrorKind::AccountKeyNotHex, seq![a.name]))
            } else if hex_bytes(pk).len() != 32 {
                Some(err(ErrorKind::AccountKeyLength, seq![a.name]))
            } else {
                None
            },
        }
    }
}

/// The lowercase hexadecimal BLAKE3 digest of a text's UTF-8 bytes.
pub open spec fn source_hash_text(source: Seq<char>) -> Seq<char> {
    lower_hex(blake3_digest(encode_utf8(source)))
}

/// A contract has a name and a positive version, is stored under its
/// contract key, and its hash is that of its source.
pub open spec fn contract_error(key: Seq<char>, c: ContractV) -> Option<ErrorV> {
    if c.name.len() == 0 {
        Some(err(ErrorKind::ContractNameEmpty, seq![]))
    } else if c.version == 0 {
        Some(err(ErrorKind::ContractKeyVersionZero, seq![key]))
    } else if key != contract_key_text(c.name, c.version) {
        Some(err(ErrorKind::ContractKeyMismatch, seq![key, contract_key_text(c.name, c.version)]))
    } else if c.source_hash != source_hash_text(c.source) {
        Some(err(ErrorKind::ContractHashMismatch, seq![key]))
    } else {
        None
    }
}

/// An entity is stored under its id, its owner exists and so does its contract.
pub open spec fn entity_ref_error(w: WorldV, key: u64, e: EntityV) -> Option<ErrorV> {
    if key != e.id {
        Some(err(ErrorKind::EntityKeyMismatch, seq![decimal(key as nat), decimal(e.id as nat)]))
    } else if !has_key(w.accounts, e.owner) {
        Some(err(ErrorKind::EntityOwnerMissing, seq![decimal(e.id as nat), e.owner]))
    } else {
        match e.contract {
            Some(c) => if !has_key(w.contracts, c) {
                Some(err(ErrorKind::EntityContractMissing, seq![decimal(e.id as nat), c]))
            } else {
                None
            },
            None => None,
        }
    }
}

/// The next entity id is above every entity id (and positive in an empty world).
pub open spec fn next_entity_error(w: WorldV) -> Option<ErrorV> {
    if (w.entities.len() > 0 && w.next_entity_id <= w.entities.last().0) || (w.entities.len() == 0
        && w.next_entity_id == 0) {
        Some(err(ErrorKind::NextEntityIdTooLow, seq![]))
    } else {
        None
    }
}

/// A progress record is stored under `actor:quest`, and its actor and quest exist.
pub open spec fn progress_error(w: WorldV, key: Seq<char>, p: QuestProgressV) -> Option<ErrorV> {
    if key != progress_key_text(p.actor_id, p.quest_id) {
        Some(err(ErrorKind::ProgressKeyMismatch, seq![key, progress_key_text(p.actor_id, p.quest_id)]))
    } else {
        match get(w.entities, p.actor_id) {
            None => Some(err(ErrorKind::ProgressActorMissing, seq![decimal(p.actor_id as nat)])),
            Some(a) => if a.kind != EntityKind::Actor {
                Some(err(ErrorKind::ProgressActorNotActor, seq![decimal(p.actor_id as nat)]))
            } else if !has_key(w.quests, p.quest_id) {
                Some(err(ErrorKind::ProgressQuestMissing, seq![p.quest_id]))
            } else {
                None
            },
        }
    }
}

/// A receipt is stored under its transaction id, its account exists, and
/// its transaction id and state root are 32-byte hexadecimal hashes.
pub open spec fn receipt_error(w: WorldV, key: Seq<char>, r: ReceiptV) -> Option<ErrorV> {
    if key != r.tx_id {
        Some(err(ErrorKind::ReceiptKeyMismatch, seq![key, r.tx_id]))
    } else if !has_key(w.accounts, r.from) {
        Some(err(ErrorKind::ReceiptAccountMissing, seq![r.from]))
    } else {
        or_else(
            hash_error("receipt transaction id"@, r.tx_id),
            hash_error("receipt state root"@, r.state_root),
        )
    }
}

pub open spec fn account_check() -> spec_fn((Seq<char>, AccountV)) -> Option<ErrorV> {
    |p: (Seq<char>, AccountV)| account_error(p.0, p.1)
}

pub open spec fn contract_check() -> spec_fn((Seq<char>, ContractV)) -> Option<ErrorV> {
    |p: (Seq<char>, ContractV)| contract_error(p.0, p.1)
}

pub open spec fn entity_ref_check(w: WorldV) -> spec_fn((u64, EntityV)) -> Option<ErrorV> {
    |p: (u64, EntityV)| entity_ref_error(w, p.0, p.1)
}

pub open spec fn progress_check(w: WorldV) -> spec_fn((Seq<char>, QuestProgressV)) -> Option<ErrorV> {
    |p: (Seq<char>, QuestProgressV)| progress_error(w, p.0, p.1)
}

pub open spec fn receipt_check(w: WorldV) -> spec_fn((Seq<char>, ReceiptV)) -> Option<ErrorV> {
    |p: (Seq<char>, ReceiptV)| receipt_error(w, p.0, p.1)
}

/// The first reference error: accounts, then contracts, entities, the next
/// entity id, quest progress and receipts, each in key order.
pub open spec fn reference_errors(w: WorldV) -> Option<ErrorV> {
    or_else(
        first_error(w.accounts, account_check()),
        or_else(
            first_error(w.contracts, contract_check()),
            or_else(
                first_error(w.entities, entity_ref_check(w)),
                or_else(
                    next_entity_error(w),
                    or_else(
                        first_error(w.quest_progress, progress_check(w)),
                        first_error(w.receipts, receipt_check(w)),
                    ),
                ),
            ),
        ),
    )
}

/// Reports a problem when the text is not a 32-byte hexadecimal hash.
fn validate_hash(label: &str, value: &str) -> (r: Result<(), Error>)
    ensures
        outcome(hash_error(label@, value@), r),
{
    match hex_decode(value) {
        None => Err(Error::one(ErrorKind::HashNotHex, label.to_owned())),
        Some(bytes) => if bytes.len() != 32 {
            Err(Error::one(ErrorKind::HashLength, label.to_owned()))
        } else {
            Ok(())
        },
    }
}

impl WorldState {
    fn validate_accounts(&self) -> (r: Result<(), Error>)
        ensures
            outcome(first_error(self@.accounts, account_check()), r),
    {
        let ghost f = account_check();
        let n = self.accounts.len();
        proof {
            lemma_first_error_start(self@.accounts, f);
        }
        let mut i: usize = 0;
        while i < n
            invariant
                n == self@.accounts.len(),
                i <= n,
                f == account_check(),
                first_error(self@.accounts, f) == first_error(self@.accounts.skip(i as int), f),
            decreases n - i,
        {
            proof {
                lemma_first_error_step(self@.accounts, f, i as int);
            }
            let key = self.accounts.key_at(i);
            let a = self.accounts.value_at(i);
            assert(f(self@.accounts[i as int]) == account_error(key@, a@));
            if !str_eq(key.as_str(), a.name.as_str()) {
                return Err(Error::two(ErrorKind::AccountKeyMismatch, key.clone(), a.name.clone()));
            }
            if a.name.as_str().is_empty() {
                return Err(Error::plain(ErrorKind::AccountNameEmpty));
            }
            if let Some(pk) = &a.public_key {
                match hex_decode(pk.as_str()) {
                    None => {
                        return Err(Error::one(ErrorKind::AccountKeyNotHex, a.name.clone()));
                    },
                    Some(bytes) => {
                        if bytes.len() != 32 {
                            return Err(Error::one(ErrorKind::AccountKeyLength, a.name.clone()));
                        }
                    },
                }
            }
            i += 1;
        }
        proof {
            lemma_first_error_end(self@.accounts, f);
        }
        Ok(())
    }

    fn validate_contracts(&self) -> (r: Result<(), Error>)
        ensures
            outcome(first_error(self@.contracts, contract_check()), r),
    {
        let ghost f = contract_check();
        let n = self.contracts.len();
        proof {
            lemma_first_error_start(self@.contracts, f);
        }
        let mut i: usize = 0;
        while i < n
            invariant
                n == self@.contracts.len(),
                i <= n,
                f == contract_check(),
                first_error(self@.contracts, f) == first_error(self@.contracts.skip(i as int), f),
            decreases n - i,
        {
            proof {
                lemma_first_error_step(self@.contracts, f, i as int);
            }
            let key = self.contracts.key_at(i);
            let c = self.contracts.value_at(i);
            assert(f(self@.contracts[i as int]) == contract_error(key@, c@));
            if c.name.as_str().is_empty() {
                return Err(Error::plain(ErrorKind::ContractNameEmpty));
            }
            if c.version == 0 {
                return Err(Error::one(ErrorKind::ContractKeyVersionZero, key.clone()));
            }
            let expected = contract_key(c.name.as_str(), c.version);
            if !str_eq(key.as_str(), expected.as_str()) {
                return Err(Error::two(ErrorKind::ContractKeyMismatch, key.clone(), expected));
            }
            let hash = blake3_hex(c.source.as_str().as_bytes());
            if !str_eq(c.source_hash.as_str(), hash.as_str()) {
                return Err(Error::one(ErrorKind::ContractHashMismatch, key.clone()));
            }
            i += 1;
        }
        proof {
            lemma_first_error_end(self@.contracts, f);
        }
        Ok(())
    }

    fn validate_entity_refs(&self) -> (r: Result<(), Error>)
        ensures
            outcome(first_error(self@.entities, entity_ref_check(self@)), r),
    {
        let ghost f = entity_ref_check(self@);
        let n = self.entities.len();
        proof {
            lemma_first_error_start(self@.entities, f);
        }
        let mut i: usize = 0;
        while i < n
            invariant
                n == self@.entities.len(),
                i <= n,
                f == entity_ref_check(self@),
                first_error(self@.entities, f) == first_error(self@.entities.skip(i as int), f),
            decreases n - i,
        {
            proof {
                lemma_first_error_step(self@.entities, f, i as int);
            }
            let key = *self.entities.key_at(i);
            let e = self.entities.value_at(i);
            assert(f(self@.entities[i as int]) == entity_ref_error(self@, key, e@));
            if key != e.id {
                return Err(Error::two(ErrorKind::EntityKeyMismatch, u64_to_string(key), u64_to_string(e.id)));
            }
            if !self.accounts.contains_key(&e.owner) {
                return Err(Error::two(ErrorKind::EntityOwnerMissing, u64_to_string(e.id), e.owner.clone()));
            }
            if let Some(c) = &e.contract {
                if !self.contracts.contains_key(c) {
                    return Err(Error::two(ErrorKind::EntityContractMissing, u64_to_string(e.id), c.clone()));
                }
            }
            i += 1;
        }
        proof {
            lemma_first_error_end(self@.entities, f);
        }
        Ok(())
    }

    fn validate_next_entity(&self) -> (r: Result<(), Error>)
        ensures
            outcome(next_entity_error(self@), r),
    {
        let n = self.entities.len();
        let too_low = if n > 0 {
            self.next_entity_id <= *self.entities.key_at(n - 1)
        } else {
            self.next_entity_id == 0
        };
        if too_low {
            Err(Error::plain(ErrorKind::NextEntityIdTooLow))
        } else {
            Ok(())
        }
    }

    fn validate_progress_refs(&self) -> (r: Result<(), Error>)
        ensures
            outcome(first_error(self@.quest_progress, progress_check(self@)), r),
    {
        let ghost f = progress_check(self@);
        let n = self.quest_progress.len();
        proof {
            lemma_first_error_start(self@.quest_progress, f);
        }
        let mut i: usize = 0;
        while i < n
            invariant
                n == self@.quest_progress.len(),
                i <= n,
                f == progress_check(self@),
                first_error(self@.quest_progress, f) == first_error(self@.quest_progress.skip(i as int), f),
            decreases n - i,
        {
            proof {
                lemma_first_error_step(self@.quest_progress, f, i as int);
            }
            let key = self.quest_progress.key_at(i);
            let p = self.quest_progress.value_at(i);
            assert(f(self@.quest_progress[i as int]) == progress_error(self@, key@, p@));
            let expected = quest_progress_key(p.actor_id, p.quest_id.as_str());
            if !str_eq(key.as_str(), expected.as_str()) {
                return Err(Error::two(ErrorKind::ProgressKeyMismatch, key.clone(), expected));
            }
            match self.entities.get(&p.actor_id) {
                None => {
                    return Err(Error::one(ErrorKind::ProgressActorMissing, u64_to_string(p.actor_id)));
                },
                Some(a) => {
                    if a.kind != EntityKind::Actor {
                        return Err(Error::one(ErrorKind::ProgressActorNotActor, u64_to_string(p.actor_id)));
                    }
                },
            }
            if !self.quests.contains_key(&p.quest_id) {
                return Err(Error::one(ErrorKind::ProgressQuestMissing, p.quest_id.clone()));
            }
            i += 1;
        }
        proof {
            lemma_first_error_end(self@.quest_progress, f);
        }
        Ok(())
    }

    fn validate_receipt_refs(&self) -> (r: Result<(), Error>)
        ensures
            outcome(first_error(self@.receipts, receipt_check(self@)), r),
    {
        let ghost f = receipt_check(self@);
        let n = self.receipts.len();
        proof {
            lemma_first_error_start(self@.receipts, f);
        }
        let mut i: usize = 0;
        while i < n
            invariant
                n == self@.receipts.len(),
                i <= n,
                f == receipt_check(self@),
                first_error(self@.receipts, f) == first_error(self@.receipts.skip(i as int), f),
            decreases n - i,
        {
            proof {
                lemma_first_error_step(self@.receipts, f, i as int);
            }
            let key = self.receipts.key_at(i);
            let rc = self.receipts.value_at(i);
            assert(f(self@.receipts[i as int]) == receipt_error(self@, key@, rc@));
            if !str_eq(key.as_str(), rc.tx_id.as_str()) {
                return Err(Error::two(ErrorKind::ReceiptKeyMismatch, key.clone(), rc.tx_id.clone()));
            }
            if !self.accounts.contains_key(&rc.from) {
                return Err(Error::one(ErrorKind::ReceiptAccountMissing, rc.from.clone()));
            }
            validate_hash("receipt transaction id", rc.tx_id.as_str())?;
            validate_hash("receipt state root", rc.state_root.as_str())?;
            i += 1;
        }
        proof {
            lemma_first_error_end(self@.receipts, f);
        }
        Ok(())
    }

    /// Checks that every map entry is stored under its own key and that
    /// every reference between records points at an existing record.
    pub fn validate_references(&self) -> (r: Result<(), Error>)
        ensures
            outcome(reference_errors(self@), r),
    {
        self.validate_accounts()?;
        self.validate_contracts()?;
        self.validate_entity_refs()?;
        self.validate_next_entity()?;
        self.validate_progress_refs()?;
        self.validate_receipt_refs()?;
        Ok(())
    }

    /// Checks that every located entity sits where its kind allows.
    pub fn validate_locations(&self) -> (r: Result<(), Error>)
        ensures
            outcome(location_errors(self@), r),
    {
        let ghost f = location_check(self@);
        let n = self.entities.len();
        proof {
            lemma_first_error_start(self@.entities, f);
        }
        let mut i: usize = 0;
        while i < n
            invariant
                n == self@.entities.len(),
                i <= n,
                f == location_check(self@),
                location_errors(self@) == first_error(self@.entities.skip(i as int), f),
            decreases n - i,
        {
            proof {
                lemma_first_error_step(self@.entities, f, i as int);
            }
            let e = self.entities.value_at(i);
            assert(f(self@.entities[i as int]) == location_error(self@, e@));
            if let Some(l) = e.location {
                match e.kind {
                    EntityKind::Zone => {
                        return Err(Error::two(ErrorKind::ZoneHasLocation, u64_to_string(e.id), u64_to_string(l)));
                    },
                    EntityKind::Actor => match self.entities.get(&l) {
                        None => {
                            return Err(Error::two(ErrorKind::ActorLocationMissing, u64_to_string(e.id), u64_to_string(l)));
                        },
                        Some(t) => {
                            if t.kind != EntityKind::Zone {
                                return Err(Error::two(ErrorKind::ActorLocationNotZone, u64_to_string(e.id), u64_to_string(l)));
                            }
                        },
                    },
                    EntityKind::Item => match self.entities.get(&l) {
                        None => {
                            return Err(Error::two(ErrorKind::ItemLocationMissing, u64_to_string(e.id), u64_to_string(l)));
                        },
                        Some(t) => {
                            if t.kind == EntityKind::Item {
                                return Err(Error::two(ErrorKind::ItemLocationInvalid, u64_to_string(e.id), u64_to_string(l)));
                            }
                        },
                    },
                }
            }
            i += 1;
        }
        proof {
            lemma_first_error_end(self@.entities, f);
        }
        Ok(())
    }
}

} // verus!
