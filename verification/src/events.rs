//! The event log's invariants.
use crate::error::{err, first_error, lemma_first_error_end, lemma_first_error_start, lemma_first_error_step, outcome, Error, ErrorKind, ErrorV};
use crate::json::{member_str, member_u64, JsonV};
use crate::maps::get;
use crate::model::{WorldEventV, WorldState, WorldV};
use crate::text::{decimal, str_eq, u64_to_string};
use crate::validate::or_else;
use vstd::prelude::*;

verus! {

/// The id of the event before position `i`, or zero at the start.
pub open spec fn previous_event_id(w: WorldV, i: int) -> u64 {
    if i == 0 {
        0
    } else {
        w.events[i - 1].id
    }
}

/// Whether an earlier event records the same transaction.
pub open spec fn earlier_transaction_event(w: WorldV, i: int, tx_id: Seq<char>) -> bool {
    exists|j: int|
        0 <= j < i && (#[trigger] w.events[j]).kind == "transaction_executed"@ && member_str(
            w.events[j].data,
            "tx_id"@,
        ) == Some(tx_id)
}

/// A `transaction_executed` event names a stored receipt with the same
/// sender and nonce, and no earlier event names the same receipt.
pub open spec fn transaction_event_error(w: WorldV, i: int, ev: WorldEventV) -> Option<ErrorV> {
    let id = decimal(ev.id as nat);
    match member_str(ev.data, "tx_id"@) {
        None => Some(err(ErrorKind::TxEventMissingTxId, seq![id])),
        Some(tx_id) => match member_str(ev.data, "from"@) {
            None => Some(err(ErrorKind::TxEventMissingFrom, seq![id])),
            Some(from) => match member_u64(ev.data, "nonce"@) {
                None => Some(err(ErrorKind::TxEventMissingNonce, seq![id])),
                Some(nonce) => match get(w.receipts, tx_id) {
                    None => Some(err(ErrorKind::TxEventReceiptMissing, seq![id, tx_id])),
                    Some(receipt) => if receipt.from != from || receipt.nonce != nonce {
                        Some(err(ErrorKind::TxEventReceiptMismatch, seq![id, tx_id]))
                    } else if earlier_transaction_event(w, i, tx_id) {
                        Some(err(ErrorKind::TxEventDuplicate, seq![tx_id]))
                    } else {
                        None
                    },
                },
            },
        },
    }
}

/// Whether an optional text is present and not empty.
pub open spec fn non_empty(o: Option<Seq<char>>) -> bool {
    match o {
        Some(s) => s.len() > 0,
        None => false,
    }
}

/// The error of the event at position `i`, if any.
pub open spec fn event_error(w: WorldV, i: int) -> Option<ErrorV> {
    let ev = w.events[i];
    let id = decimal(ev.id as nat);
    if ev.id == 0 || ev.id <= previous_event_id(w, i) {
        Some(err(ErrorKind::EventIdOrder, seq![id, decimal(previous_event_id(w, i) as nat)]))
    } else if ev.head > w.head {
        Some(err(ErrorKind::EventHeadExceedsWorld, seq![id, decimal(ev.head as nat), decimal(w.head as nat)]))
    } else if ev.kind.len() == 0 {
        Some(err(ErrorKind::EventKindEmpty, seq![id]))
    } else if ev.kind == "transaction_executed"@ {
        transaction_event_error(w, i, ev)
    } else if ev.kind == "entity_changed"@ {
        if ev.entity_id is None {
            Some(err(ErrorKind::EntityEventMissingEntity, seq![id]))
        } else if !(member_str(ev.data, "change"@) == Some("created"@) || member_str(ev.data, "change"@)
            == Some("updated"@) || member_str(ev.data, "change"@) == Some("deleted"@)) {
            Some(err(ErrorKind::EntityEventInvalidChange, seq![id]))
        } else {
            None
        }
    } else if ev.kind == "quest_progress_changed"@ {
        if ev.entity_id is None {
            Some(err(ErrorKind::QuestEventMissingActor, seq![id]))
        } else if !non_empty(member_str(ev.data, "quest_id"@)) {
            Some(err(ErrorKind::QuestEventMissingQuest, seq![id]))
        } else if !(member_str(ev.data, "status"@) == Some("accepted"@) || member_str(ev.data, "status"@)
            == Some("completed"@)) {
            Some(err(ErrorKind::QuestEventInvalidStatus, seq![id]))
        } else {
            None
        }
    } else if ev.kind == "command_executed"@ {
        if ev.entity_id is None {
            Some(err(ErrorKind::CommandEventMissingEntity, seq![id]))
        } else if !non_empty(member_str(ev.data, "action"@)) {
            Some(err(ErrorKind::CommandEventMissingAction, seq![id]))
        } else {
            None
        }
    } else {
        None
    }
}

pub open spec fn event_check(w: WorldV) -> spec_fn(int) -> Option<ErrorV> {
    |i: int| event_error(w, i)
}

/// The positions of the event log.
pub open spec fn event_positions(w: WorldV) -> Seq<int> {
    Seq::new(w.events.len(), |i: int| i)
}

/// The next event id is positive and above every event id.
pub open spec fn next_event_error(w: WorldV) -> Option<ErrorV> {
    if w.next_event_id == 0 || w.next_event_id <= previous_event_id(w, w.events.len() as int) {
        Some(err(ErrorKind::NextEventIdTooLow, seq![]))
    } else {
        None
    }
}

/// The first event log error, in log order, then the next event id.
pub open spec fn event_errors(w: WorldV) -> Option<ErrorV> {
    or_else(first_error(event_positions(w), event_check(w)), next_event_error(w))
}

/// Whether some string of the list has the given characters.
pub open spec fn holds_text(v: Seq<String>, t: Seq<char>) -> bool {
    exists|k: int| 0 <= k < v.len() && (#[trigger] v[k])@ == t
}

fn find_text(v: &Vec<String>, t: &str) -> (r: bool)
    ensures
        r == holds_text(v@, t@),
{
    let mut k: usize = 0;
    while k < v.len()
        invariant
            k <= v.len(),
            forall|j: int| 0 <= j < k ==> (#[trigger] v@[j])@ != t@,
        decreases v.len() - k,
    {
        if str_eq(v[k].as_str(), t) {
            return true;
        }
        k += 1;
    }
    false
}

impl WorldState {
    /// Checks the event log: strictly increasing positive ids, heads no
    /// later than the world's, non-empty kinds, the payloads of the system
    /// events, transaction events that match their receipts once each, and
    /// a next event id above every id.
    pub fn validate_events(&self) -> (r: Result<(), Error>)
        ensures
            outcome(event_errors(self@), r),
    {
        let ghost w = self@;
        let ghost f = event_check(w);
        let ghost s = event_positions(w);
        let n = self.events.len();
        proof {
            lemma_first_error_start(s, f);
        }
        let mut previous_id: u64 = 0;
        let mut seen: Vec<String> = Vec::new();
        let mut i: usize = 0;
        while i < n
            invariant
                w == self@,
                n == w.events.len(),
                n == self.events@.len(),
                s == event_positions(w),
                f == event_check(w),
                i <= n,
                previous_id == previous_event_id(w, i as int),
                forall|t: Seq<char>|
                    #![trigger holds_text(seen@, t)]
                    #![trigger earlier_transaction_event(w, i as int, t)]
                    holds_text(seen@, t) <==> earlier_transaction_event(w, i as int, t),
                first_error(s, f) == first_error(s.skip(i as int), f),
            decreases n - i,
        {
            proof {
                lemma_first_error_step(s, f, i as int);
            }
            let ev = &self.events[i];
            assert(w.events[i as int] == ev@);
            assert(f(s[i as int]) == event_error(w, i as int));
            if ev.id == 0 || ev.id <= previous_id {
                return Err(Error::two(ErrorKind::EventIdOrder, u64_to_string(ev.id), u64_to_string(previous_id)));
            }
            if ev.head > self.head {
                return Err(Error::three(ErrorKind::EventHeadExceedsWorld, u64_to_string(ev.id), u64_to_string(ev.head), u64_to_string(self.head)));
            }
            if ev.kind.as_str().is_empty() {
                return Err(Error::one(ErrorKind::EventKindEmpty, u64_to_string(ev.id)));
            }
            let ghost seen_before = seen@;
            if str_eq(ev.kind.as_str(), "transaction_executed") {
                let tx_id = match ev.data.get_str("tx_id") {
                    Some(t) => t,
                    None => {
                        return Err(Error::one(ErrorKind::TxEventMissingTxId, u64_to_string(ev.id)));
                    },
                };
                let from = match ev.data.get_str("from") {
                    Some(t) => t,
                    None => {
                        return Err(Error::one(ErrorKind::TxEventMissingFrom, u64_to_string(ev.id)));
                    },
                };
                let nonce = match ev.data.get_u64("nonce") {
                    Some(x) => x,
                    None => {
                        return Err(Error::one(ErrorKind::TxEventMissingNonce, u64_to_string(ev.id)));
                    },
                };
                let receipt = match self.receipts.get(tx_id) {
                    Some(rc) => rc,
                    None => {
                        return Err(Error::two(ErrorKind::TxEventReceiptMissing, u64_to_string(ev.id), tx_id.clone()));
                    },
                };
                if !str_eq(receipt.from.as_str(), from.as_str()) || receipt.nonce != nonce {
                    return Err(Error::two(ErrorKind::TxEventReceiptMismatch, u64_to_string(ev.id), tx_id.clone()));
                }
                if find_text(&seen, tx_id.as_str()) {
                    return Err(Error::one(ErrorKind::TxEventDuplicate, tx_id.clone()));
                }
                seen.push(tx_id.clone());
                proof {
                    assert forall|t: Seq<char>|
                        #![trigger holds_text(seen@, t)]
                        #![trigger earlier_transaction_event(w, i + 1, t)]
                        holds_text(seen@, t) <==> earlier_transaction_event(w, i + 1, t) by {
                        if holds_text(seen@, t) {
                            let k = choose|k: int| 0 <= k < seen@.len() && (#[trigger] seen@[k])@ == t;
                            if k < seen_before.len() {
                                assert(seen_before[k] == seen@[k]);
                                assert(holds_text(seen_before, t));
                                let j = choose|j: int|
                                    0 <= j < i && (#[trigger] w.events[j]).kind == "transaction_executed"@
                                        && member_str(w.events[j].data, "tx_id"@) == Some(t);
                                assert(0 <= j < i + 1);
                            } else {
                                assert(w.events[i as int].kind == "transaction_executed"@);
                            }
                        }
                        if earlier_transaction_event(w, i + 1, t) {
                            let j = choose|j: int|
                                0 <= j < i + 1 && (#[trigger] w.events[j]).kind == "transaction_executed"@
                                    && member_str(w.events[j].data, "tx_id"@) == Some(t);
                            if j < i {
                                assert(earlier_transaction_event(w, i as int, t));
                                let k = choose|k: int| 0 <= k < seen_before.len() && (#[trigger] seen_before[k])@ == t;
                                assert(seen@[k] == seen_before[k]);
                            } else {
                                assert(seen@[seen_before.len() as int]@ == t);
                            }
                        }
                    }
                }
            } else {
                if str_eq(ev.kind.as_str(), "entity_changed") {
                    if ev.entity_id.is_none() {
                        return Err(Error::one(ErrorKind::EntityEventMissingEntity, u64_to_string(ev.id)));
                    }
                    let valid = match ev.data.get_str("change") {
                        Some(c) => str_eq(c.as_str(), "created") || str_eq(c.as_str(), "updated") || str_eq(c.as_str(), "deleted"),
                        None => false,
                    };
                    if !valid {
                        return Err(Error::one(ErrorKind::EntityEventInvalidChange, u64_to_string(ev.id)));
                    }
                } else if str_eq(ev.kind.as_str(), "quest_progress_changed") {
                    if ev.entity_id.is_none() {
                        return Err(Error::one(ErrorKind::QuestEventMissingActor, u64_to_string(ev.id)));
                    }
                    let has_quest = match ev.data.get_str("quest_id") {
                        Some(q) => !q.as_str().is_empty(),
                        None => false,
                    };
                    if !has_quest {
                        return Err(Error::one(ErrorKind::QuestEventMissingQuest, u64_to_string(ev.id)));
                    }
                    let valid = match ev.data.get_str("status") {
                        Some(c) => str_eq(c.as_str(), "accepted") || str_eq(c.as_str(), "completed"),
                        None => false,
                    };
                    if !valid {
                        return Err(Error::one(ErrorKind::QuestEventInvalidStatus, u64_to_string(ev.id)));
                    }
                } else if str_eq(ev.kind.as_str(), "command_executed") {
                    if ev.entity_id.is_none() {
                        return Err(Error::one(ErrorKind::CommandEventMissingEntity, u64_to_string(ev.id)));
                    }
                    let has_action = match ev.data.get_str("action") {
                        Some(a) => !a.as_str().is_empty(),
                        None => false,
                    };
                    if !has_action {
                        return Err(Error::one(ErrorKind::CommandEventMissingAction, u64_to_string(ev.id)));
                    }
                }
                proof {
                    assert forall|t: Seq<char>|
                        #![trigger holds_text(seen@, t)]
                        #![trigger earlier_transaction_event(w, i + 1, t)]
                        holds_text(seen@, t) <==> earlier_transaction_event(w, i + 1, t) by {
                        if earlier_transaction_event(w, i + 1, t) {
                            let j = choose|j: int|
                                0 <= j < i + 1 && (#[trigger] w.events[j]).kind == "transaction_executed"@
                                    && member_str(w.events[j].data, "tx_id"@) == Some(t);
                            assert(j != i);
                            assert(earlier_transaction_event(w, i as int, t));
                        }
                        if earlier_transaction_event(w, i as int, t) {
                            let j = choose|j: int|
                                0 <= j < i && (#[trigger] w.events[j]).kind == "transaction_executed"@
                                    && member_str(w.events[j].data, "tx_id"@) == Some(t);
                            assert(0 <= j < i + 1);
                        }
                    }
                }
            }
            previous_id = ev.id;
            i += 1;
        }
        proof {
            lemma_first_error_end(s, f);
        }
        if self.next_event_id == 0 || self.next_event_id <= previous_id {
            return Err(Error::plain(ErrorKind::NextEventIdTooLow));
        }
        Ok(())
    }
}

} // verus!
