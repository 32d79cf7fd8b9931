//! The JSON form of the world, the text it is hashed from, and the state
//! root and transaction ids derived from it.
//!
//! Struct fields appear in declaration order, maps in key order with
//! numeric keys written in decimal, enums as lowercase names and absent
//! optional values as `null`: the form `serde_json` gives these types.
use crate::digest::{blake3_digest, blake3_hex, lower_hex};
use crate::json::{items_view, json_text, lemma_items_view, lemma_members_view, members_view, to_text, Json, JsonV};
use crate::maps::{DeepCopy, MapKey, SortedMap};
use crate::model::{opt_chars, strings_view, events_view, Account, AccountV, Contract, ContractStatus, ContractV, Entity, EntityKind, EntityV, QuestDefinition, QuestDefinitionV, QuestProgress, QuestProgressV, QuestStatus, Receipt, ReceiptV, Transaction, TransactionV, WorldEvent, WorldEventV, WorldState, WorldV};
use crate::text::{decimal, u64_to_string};
use vstd::prelude::*;
use vstd::utf8::encode_utf8;

verus! {

/// Values with a JSON form.
pub trait ToJson: View + Sized {
    spec fn json_of(v: Self::V) -> JsonV;

    fn to_json(&self) -> (r: Json)
        ensures
            r@ == Self::json_of(self@),
    ;
}

/// The JSON form of an optional number.
pub open spec fn opt_u64_json(o: Option<u64>) -> JsonV {
    match o {
        Some(n) => JsonV::UInt(n),
        None => JsonV::Null,
    }
}

/// The JSON form of an optional string.
pub open spec fn opt_str_json(o: Option<Seq<char>>) -> JsonV {
    match o {
        Some(s) => JsonV::Str(s),
        None => JsonV::Null,
    }
}

/// The JSON form of a list of strings.
pub open spec fn strings_json(v: Seq<Seq<char>>) -> JsonV {
    JsonV::Array(Seq::new(v.len(), |i: int| JsonV::Str(v[i])))
}

/// The name an entity kind is written with.
pub open spec fn kind_name(k: EntityKind) -> Seq<char> {
    match k {
        EntityKind::Actor => "actor"@,
        EntityKind::Zone => "zone"@,
        EntityKind::Item => "item"@,
    }
}

/// The name a contract status is written with.
pub open spec fn contract_status_name(s: ContractStatus) -> Seq<char> {
    match s {
        ContractStatus::Published => "published"@,
        ContractStatus::Deprecated => "deprecated"@,
    }
}

/// The name a quest status is written with.
pub open spec fn quest_status_name(s: QuestStatus) -> Seq<char> {
    match s {
        QuestStatus::Accepted => "accepted"@,
        QuestStatus::Completed => "completed"@,
    }
}

/// The JSON form of a map keyed by strings.
pub open spec fn str_map_json<V: ToJson>(m: Seq<(Seq<char>, V::V)>) -> JsonV {
    JsonV::Object(Seq::new(m.len(), |i: int| (m[i].0, V::json_of(m[i].1))))
}

/// The JSON form of a map keyed by numbers.
pub open spec fn id_map_json<V: ToJson>(m: Seq<(u64, V::V)>) -> JsonV {
    JsonV::Object(Seq::new(m.len(), |i: int| (decimal(m[i].0 as nat), V::json_of(m[i].1))))
}

pub open spec fn entity_json(e: EntityV) -> JsonV {
    JsonV::Object(
        seq![
            ("id"@, JsonV::UInt(e.id)),
            ("kind"@, JsonV::Str(kind_name(e.kind))),
            ("owner"@, JsonV::Str(e.owner)),
            ("location"@, opt_u64_json(e.location)),
            ("contract"@, opt_str_json(e.contract)),
            ("data"@, JsonV::Object(e.data)),
        ],
    )
}

pub open spec fn contract_json(c: ContractV) -> JsonV {
    JsonV::Object(
        seq![
            ("name"@, JsonV::Str(c.name)),
            ("version"@, JsonV::UInt(c.version as u64)),
            ("source"@, JsonV::Str(c.source)),
            ("source_hash"@, JsonV::Str(c.source_hash)),
            ("status"@, JsonV::Str(contract_status_name(c.status))),
        ],
    )
}

pub open spec fn account_json(a: AccountV) -> JsonV {
    JsonV::Object(
        seq![
            ("name"@, JsonV::Str(a.name)),
            ("public_key"@, opt_str_json(a.public_key)),
            ("nonce"@, JsonV::UInt(a.nonce)),
            ("balance"@, JsonV::UInt(a.balance)),
        ],
    )
}

pub open spec fn transaction_json(t: TransactionV) -> JsonV {
    JsonV::Object(
        seq![
            ("from"@, JsonV::Str(t.from)),
            ("nonce"@, JsonV::UInt(t.nonce)),
            ("entity_id"@, JsonV::UInt(t.entity_id)),
            ("action"@, JsonV::Str(t.action)),
            ("args"@, t.args),
            ("signature"@, opt_str_json(t.signature)),
        ],
    )
}

pub open spec fn receipt_json(r: ReceiptV) -> JsonV {
    JsonV::Object(
        seq![
            ("tx_id"@, JsonV::Str(r.tx_id)),
            ("from"@, JsonV::Str(r.from)),
            ("nonce"@, JsonV::UInt(r.nonce)),
            ("ok"@, JsonV::Bool(r.ok)),
            ("messages"@, strings_json(r.messages)),
            ("result"@, r.result),
            ("state_root"@, JsonV::Str(r.state_root)),
        ],
    )
}

pub open spec fn quest_json(q: QuestDefinitionV) -> JsonV {
    JsonV::Object(
        seq![
            ("id"@, JsonV::Str(q.id)),
            ("title"@, JsonV::Str(q.title)),
            ("giver_entity_id"@, JsonV::UInt(q.giver_entity_id)),
            ("prerequisite_quest_ids"@, strings_json(q.prerequisite_quest_ids)),
            ("required_item"@, JsonV::Str(q.required_item)),
            ("completion_zone"@, JsonV::Str(q.completion_zone)),
            ("reward_balance"@, JsonV::UInt(q.reward_balance)),
            ("consume_required_item"@, JsonV::Bool(q.consume_required_item)),
        ],
    )
}

pub open spec fn progress_json(p: QuestProgressV) -> JsonV {
    JsonV::Object(
        seq![
            ("quest_id"@, JsonV::Str(p.quest_id)),
            ("actor_id"@, JsonV::UInt(p.actor_id)),
            ("status"@, JsonV::Str(quest_status_name(p.status))),
        ],
    )
}

pub open spec fn event_json(e: WorldEventV) -> JsonV {
    JsonV::Object(
        seq![
            ("id"@, JsonV::UInt(e.id)),
            ("head"@, JsonV::UInt(e.head)),
            ("kind"@, JsonV::Str(e.kind)),
            ("entity_id"@, opt_u64_json(e.entity_id)),
            ("data"@, e.data),
        ],
    )
}

pub open spec fn ids_json(v: Seq<u64>) -> JsonV {
    JsonV::Array(Seq::new(v.len(), |i: int| JsonV::UInt(v[i])))
}

/// The JSON form of the world; receipts are left out (an empty object) unless asked for.
pub open spec fn world_json(w: WorldV, with_receipts: bool) -> JsonV {
    JsonV::Object(
        seq![
            ("accounts"@, str_map_json::<Account>(w.accounts)),
            ("entities"@, id_map_json::<Entity>(w.entities)),
            ("contracts"@, str_map_json::<Contract>(w.contracts)),
            ("receipts"@, if with_receipts {
                str_map_json::<Receipt>(w.receipts)
            } else {
                JsonV::Object(Seq::empty())
            }),
            ("quests"@, str_map_json::<QuestDefinition>(w.quests)),
            ("quest_progress"@, str_map_json::<QuestProgress>(w.quest_progress)),
            ("inventories"@, id_map_json::<Vec<u64>>(w.inventories)),
            ("events"@, JsonV::Array(Seq::new(w.events.len(), |i: int| event_json(w.events[i])))),
            ("next_event_id"@, JsonV::UInt(w.next_event_id)),
            ("next_entity_id"@, JsonV::UInt(w.next_entity_id)),
            ("head"@, JsonV::UInt(w.head)),
        ],
    )
}

/// The state root: the BLAKE3 digest, in hexadecimal, of the world's JSON
/// text with the receipts left out.
pub open spec fn state_root(w: WorldV) -> Seq<char> {
    lower_hex(blake3_digest(encode_utf8(json_text(world_json(w, false)))))
}

/// The state root covers the whole world but its receipts: the JSON it
/// hashes is exactly the JSON the world would have with no receipts, every
/// other member (quests, progress, inventories, events, counters) included.
pub proof fn lemma_root_leaves_out_only_receipts(w: WorldV)
    ensures
        world_json(w, false) == world_json(WorldV { receipts: Seq::empty(), ..w }, true),
        state_root(w) == lower_hex(
            blake3_digest(encode_utf8(json_text(world_json(WorldV { receipts: Seq::empty(), ..w }, true)))),
        ),
{
    let e = Seq::<(Seq<char>, ReceiptV)>::empty();
    assert(str_map_json::<Receipt>(e) == JsonV::Object(Seq::empty())) by {
        if let JsonV::Object(m) = str_map_json::<Receipt>(e) {
            assert(m =~= Seq::<(Seq<char>, JsonV)>::empty());
        }
    }
    assert(world_json(w, false) =~~= world_json(WorldV { receipts: Seq::empty(), ..w }, true));
}

/// Different quest progress gives different JSON for the state root: two
/// worlds alike in all but their progress records are hashed from different
/// texts, so the root tells accepted and completed quests apart.
pub proof fn lemma_root_covers_progress(w1: WorldV, w2: WorldV)
    requires
        w2 == (WorldV { quest_progress: w2.quest_progress, ..w1 }),
        w1.quest_progress != w2.quest_progress,
    ensures
        world_json(w1, false) != world_json(w2, false),
{
    if world_json(w1, false) == world_json(w2, false) {
        let m1 = str_map_json::<QuestProgress>(w1.quest_progress);
        let m2 = str_map_json::<QuestProgress>(w2.quest_progress);
        if let JsonV::Object(o1) = world_json(w1, false) {
            if let JsonV::Object(o2) = world_json(w2, false) {
                assert(o1[5] == o2[5]);
                assert(m1 == m2);
            }
        }
        let p1 = w1.quest_progress;
        let p2 = w2.quest_progress;
        if let JsonV::Object(s1) = m1 {
            if let JsonV::Object(s2) = m2 {
                assert(s1.len() == p1.len() && s2.len() == p2.len());
                reveal_strlit("accepted");
                reveal_strlit("completed");
                assert forall|i: int| 0 <= i < p1.len() implies #[trigger] p1[i] == p2[i] by {
                    assert(s1[i] == s2[i]);
                    let a = p1[i].1;
                    let b = p2[i].1;
                    if let JsonV::Object(f1) = progress_json(a) {
                        if let JsonV::Object(f2) = progress_json(b) {
                            assert(f1[0] == f2[0]);
                            assert(f1[1] == f2[1]);
                            assert(f1[2] == f2[2]);
                            assert(quest_status_name(a.status).len() != quest_status_name(b.status).len() || a.status
                                == b.status);
                        }
                    }
                }
                assert(p1 =~= p2);
            }
        }
    }
}

/// A transaction's id: the BLAKE3 digest, in hexadecimal, of its JSON text.
pub open spec fn transaction_id(t: TransactionV) -> Seq<char> {
    lower_hex(blake3_digest(encode_utf8(json_text(transaction_json(t)))))
}

/// The bytes an account signs: the JSON text of the transaction with no signature.
pub open spec fn signing_bytes(t: TransactionV) -> Seq<u8> {
    encode_utf8(json_text(transaction_json(TransactionV { signature: None, ..t })))
}

fn push_member(f: &mut Vec<(String, Json)>, k: String, v: Json)
    ensures
        members_view(final(f)@) == members_view(old(f)@).push((k@, v@)),
{
    let ghost prev = f@;
    f.push((k, v));
    assert(f@.drop_last() =~= prev);
}

fn field(f: &mut Vec<(String, Json)>, name: &str, v: Json)
    ensures
        members_view(final(f)@) == members_view(old(f)@).push((name@, v@)),
{
    push_member(f, name.to_owned(), v);
}

fn opt_u64_to_json(o: Option<u64>) -> (r: Json)
    ensures
        r@ == opt_u64_json(o),
{
    match o {
        Some(n) => Json::UInt(n),
        None => Json::Null,
    }
}

fn opt_str_to_json(o: &Option<String>) -> (r: Json)
    ensures
        r@ == opt_str_json(opt_chars(*o)),
{
    match o {
        Some(s) => Json::Str(s.clone()),
        None => Json::Null,
    }
}

pub fn strings_to_json(v: &Vec<String>) -> (r: Json)
    ensures
        r@ == strings_json(strings_view(v@)),
{
    let mut items: Vec<Json> = Vec::new();
    let mut i: usize = 0;
    while i < v.len()
        invariant
            i <= v.len(),
            items@.len() == i,
            forall|k: int| 0 <= k < i ==> (#[trigger] items@[k])@ == JsonV::Str(v@[k]@),
        decreases v.len() - i,
    {
        items.push(Json::Str(v[i].clone()));
        i += 1;
    }
    proof {
        lemma_items_view(items@);
        assert(items_view(items@) =~= Seq::new(v@.len(), |k: int| JsonV::Str(strings_view(v@)[k])));
    }
    Json::Array(items)
}

fn kind_to_json(k: EntityKind) -> (r: Json)
    ensures
        r@ == JsonV::Str(kind_name(k)),
{
    match k {
        EntityKind::Actor => Json::string("actor"),
        EntityKind::Zone => Json::string("zone"),
        EntityKind::Item => Json::string("item"),
    }
}

fn quest_status_to_json(s: QuestStatus) -> (r: Json)
    ensures
        r@ == JsonV::Str(quest_status_name(s)),
{
    match s {
        QuestStatus::Accepted => Json::string("accepted"),
        QuestStatus::Completed => Json::string("completed"),
    }
}

/// The JSON form of a map keyed by strings.
pub fn str_map_to_json<V: ToJson>(m: &SortedMap<String, V>) -> (r: Json)
    ensures
        r@ == str_map_json::<V>(m@),
{
    let n = m.len();
    let mut f: Vec<(String, Json)> = Vec::new();
    let mut i: usize = 0;
    while i < n
        invariant
            n == m@.len(),
            i <= n,
            members_view(f@) == Seq::new(i as nat, |k: int| (m@[k].0, V::json_of(m@[k].1))),
        decreases n - i,
    {
        let ghost prev = members_view(f@);
        let key = m.key_at(i).clone();
        let value = m.value_at(i).to_json();
        push_member(&mut f, key, value);
        proof {
            assert(members_view(f@) == prev.push((m@[i as int].0, V::json_of(m@[i as int].1))));
            assert(members_view(f@) =~= Seq::new((i + 1) as nat, |k: int| (m@[k].0, V::json_of(m@[k].1))));
        }
        i += 1;
    }
    Json::Object(f)
}

/// The JSON form of a map keyed by numbers.
pub fn id_map_to_json<V: ToJson>(m: &SortedMap<u64, V>) -> (r: Json)
    ensures
        r@ == id_map_json::<V>(m@),
{
    let n = m.len();
    let mut f: Vec<(String, Json)> = Vec::new();
    let mut i: usize = 0;
    while i < n
        invariant
            n == m@.len(),
            i <= n,
            members_view(f@) == Seq::new(i as nat, |k: int| (decimal(m@[k].0 as nat), V::json_of(m@[k].1))),
        decreases n - i,
    {
        let ghost prev = members_view(f@);
        let key = u64_to_string(*m.key_at(i));
        let value = m.value_at(i).to_json();
        push_member(&mut f, key, value);
        proof {
            assert(members_view(f@) == prev.push((decimal(m@[i as int].0 as nat), V::json_of(m@[i as int].1))));
            assert(members_view(f@) =~= Seq::new((i + 1) as nat, |k: int| (decimal(m@[k].0 as nat), V::json_of(m@[k].1))));
        }
        i += 1;
    }
    Json::Object(f)
}

impl ToJson for Json {
    open spec fn json_of(v: JsonV) -> JsonV {
        v
    }

    fn to_json(&self) -> (r: Json) {
        self.deep_copy()
    }
}

impl ToJson for Vec<u64> {
    open spec fn json_of(v: Seq<u64>) -> JsonV {
        ids_json(v)
    }

    fn to_json(&self) -> (r: Json) {
        let mut items: Vec<Json> = Vec::new();
        let mut i: usize = 0;
        while i < self.len()
            invariant
                i <= self.len(),
                items@.len() == i,
                forall|k: int| 0 <= k < i ==> (#[trigger] items@[k])@ == JsonV::UInt(self@[k]),
            decreases self.len() - i,
        {
            items.push(Json::UInt(self[i]));
            i += 1;
        }
        proof {
            lemma_items_view(items@);
            assert(items_view(items@) =~= Seq::new(self@.len(), |k: int| JsonV::UInt(self@[k])));
        }
        Json::Array(items)
    }
}

impl ToJson for Entity {
    open spec fn json_of(e: EntityV) -> JsonV {
        entity_json(e)
    }

    fn to_json(&self) -> (r: Json) {
        let mut f: Vec<(String, Json)> = Vec::new();
        field(&mut f, "id", Json::UInt(self.id));
        field(&mut f, "kind", kind_to_json(self.kind));
        field(&mut f, "owner", Json::Str(self.owner.clone()));
        field(&mut f, "location", opt_u64_to_json(self.location));
        field(&mut f, "contract", opt_str_to_json(&self.contract));
        let data = str_map_to_json::<Json>(&self.data);
        proof {
            let d = self.data@;
            assert(Seq::new(d.len(), |i: int| (d[i].0, <Json as ToJson>::json_of(d[i].1))) =~= d);
            assert(data@ == JsonV::Object(d));
        }
        field(&mut f, "data", data);
        assert(members_view(f@) =~= seq![
            ("id"@, JsonV::UInt(self.id)),
            ("kind"@, JsonV::Str(kind_name(self.kind))),
            ("owner"@, JsonV::Str(self.owner@)),
            ("location"@, opt_u64_json(self.location)),
            ("contract"@, opt_str_json(opt_chars(self.contract))),
            ("data"@, JsonV::Object(self.data@)),
        ]);
        Json::Object(f)
    }
}

impl ToJson for Contract {
    open spec fn json_of(c: ContractV) -> JsonV {
        contract_json(c)
    }

    fn to_json(&self) -> (r: Json) {
        let mut f: Vec<(String, Json)> = Vec::new();
        field(&mut f, "name", Json::Str(self.name.clone()));
        field(&mut f, "version", Json::UInt(self.version as u64));
        field(&mut f, "source", Json::Str(self.source.clone()));
        field(&mut f, "source_hash", Json::Str(self.source_hash.clone()));
        let status = match self.status {
            ContractStatus::Published => Json::string("published"),
            ContractStatus::Deprecated => Json::string("deprecated"),
        };
        field(&mut f, "status", status);
        assert(members_view(f@) =~= seq![
            ("name"@, JsonV::Str(self.name@)),
            ("version"@, JsonV::UInt(self.version as u64)),
            ("source"@, JsonV::Str(self.source@)),
            ("source_hash"@, JsonV::Str(self.source_hash@)),
            ("status"@, JsonV::Str(contract_status_name(self.status))),
        ]);
        Json::Object(f)
    }
}

impl ToJson for Account {
    open spec fn json_of(a: AccountV) -> JsonV {
        account_json(a)
    }

    fn to_json(&self) -> (r: Json) {
        let mut f: Vec<(String, Json)> = Vec::new();
        field(&mut f, "name", Json::Str(self.name.clone()));
        field(&mut f, "public_key", opt_str_to_json(&self.public_key));
        field(&mut f, "nonce", Json::UInt(self.nonce));
        field(&mut f, "balance", Json::UInt(self.balance));
        assert(members_view(f@) =~= seq![
            ("name"@, JsonV::Str(self.name@)),
            ("public_key"@, opt_str_json(opt_chars(self.public_key))),
            ("nonce"@, JsonV::UInt(self.nonce)),
            ("balance"@, JsonV::UInt(self.balance)),
        ]);
        Json::Object(f)
    }
}

impl ToJson for Transaction {
    open spec fn json_of(t: TransactionV) -> JsonV {
        transaction_json(t)
    }

    fn to_json(&self) -> (r: Json) {
        let mut f: Vec<(String, Json)> = Vec::new();
        field(&mut f, "from", Json::Str(self.from.clone()));
        field(&mut f, "nonce", Json::UInt(self.nonce));
        field(&mut f, "entity_id", Json::UInt(self.entity_id));
        field(&mut f, "action", Json::Str(self.action.clone()));
        field(&mut f, "args", self.args.deep_copy());
        field(&mut f, "signature", opt_str_to_json(&self.signature));
        assert(members_view(f@) =~= seq![
            ("from"@, JsonV::Str(self.from@)),
            ("nonce"@, JsonV::UInt(self.nonce)),
            ("entity_id"@, JsonV::UInt(self.entity_id)),
            ("action"@, JsonV::Str(self.action@)),
            ("args"@, self.args@),
            ("signature"@, opt_str_json(opt_chars(self.signature))),
        ]);
        Json::Object(f)
    }
}

impl ToJson for Receipt {
    open spec fn json_of(r: ReceiptV) -> JsonV {
        receipt_json(r)
    }

    fn to_json(&self) -> (r: Json) {
        let mut f: Vec<(String, Json)> = Vec::new();
        field(&mut f, "tx_id", Json::Str(self.tx_id.clone()));
        field(&mut f, "from", Json::Str(self.from.clone()));
        field(&mut f, "nonce", Json::UInt(self.nonce));
        field(&mut f, "ok", Json::Bool(self.ok));
        field(&mut f, "messages", strings_to_json(&self.messages));
        field(&mut f, "result", self.result.deep_copy());
        field(&mut f, "state_root", Json::Str(self.state_root.clone()));
        assert(members_view(f@) =~= seq![
            ("tx_id"@, JsonV::Str(self.tx_id@)),
            ("from"@, JsonV::Str(self.from@)),
            ("nonce"@, JsonV::UInt(self.nonce)),
            ("ok"@, JsonV::Bool(self.ok)),
            ("messages"@, strings_json(strings_view(self.messages@))),
            ("result"@, self.result@),
            ("state_root"@, JsonV::Str(self.state_root@)),
        ]);
        Json::Object(f)
    }
}

impl ToJson for QuestDefinition {
    open spec fn json_of(q: QuestDefinitionV) -> JsonV {
        quest_json(q)
    }

    fn to_json(&self) -> (r: Json) {
        let mut f: Vec<(String, Json)> = Vec::new();
        field(&mut f, "id", Json::Str(self.id.clone()));
        field(&mut f, "title", Json::Str(self.title.clone()));
        field(&mut f, "giver_entity_id", Json::UInt(self.giver_entity_id));
        field(&mut f, "prerequisite_quest_ids", strings_to_json(&self.prerequisite_quest_ids));
        field(&mut f, "required_item", Json::Str(self.required_item.clone()));
        field(&mut f, "completion_zone", Json::Str(self.completion_zone.clone()));
        field(&mut f, "reward_balance", Json::UInt(self.reward_balance));
        field(&mut f, "consume_required_item", Json::Bool(self.consume_required_item));
        assert(members_view(f@) =~= seq![
            ("id"@, JsonV::Str(self.id@)),
            ("title"@, JsonV::Str(self.title@)),
            ("giver_entity_id"@, JsonV::UInt(self.giver_entity_id)),
            ("prerequisite_quest_ids"@, strings_json(strings_view(self.prerequisite_quest_ids@))),
            ("required_item"@, JsonV::Str(self.required_item@)),
            ("completion_zone"@, JsonV::Str(self.completion_zone@)),
            ("reward_balance"@, JsonV::UInt(self.reward_balance)),
            ("consume_required_item"@, JsonV::Bool(self.consume_required_item)),
        ]);
        Json::Object(f)
    }
}

impl ToJson for QuestProgress {
    open spec fn json_of(p: QuestProgressV) -> JsonV {
        progress_json(p)
    }

    fn to_json(&self) -> (r: Json) {
        let mut f: Vec<(String, Json)> = Vec::new();
        field(&mut f, "quest_id", Json::Str(self.quest_id.clone()));
        field(&mut f, "actor_id", Json::UInt(self.actor_id));
        field(&mut f, "status", quest_status_to_json(self.status));
        assert(members_view(f@) =~= seq![
            ("quest_id"@, JsonV::Str(self.quest_id@)),
            ("actor_id"@, JsonV::UInt(self.actor_id)),
            ("status"@, JsonV::Str(quest_status_name(self.status))),
        ]);
        Json::Object(f)
    }
}

impl ToJson for WorldEvent {
    open spec fn json_of(e: WorldEventV) -> JsonV {
        event_json(e)
    }

    fn to_json(&self) -> (r: Json) {
        let mut f: Vec<(String, Json)> = Vec::new();
        field(&mut f, "id", Json::UInt(self.id));
        field(&mut f, "head", Json::UInt(self.head));
        field(&mut f, "kind", Json::Str(self.kind.clone()));
        field(&mut f, "entity_id", opt_u64_to_json(self.entity_id));
        field(&mut f, "data", self.data.deep_copy());
        assert(members_view(f@) =~= seq![
            ("id"@, JsonV::UInt(self.id)),
            ("head"@, JsonV::UInt(self.head)),
            ("kind"@, JsonV::Str(self.kind@)),
            ("entity_id"@, opt_u64_json(self.entity_id)),
            ("data"@, self.data@),
        ]);
        Json::Object(f)
    }
}

fn events_to_json(v: &Vec<WorldEvent>) -> (r: Json)
    ensures
        r@ == JsonV::Array(Seq::new(v@.len(), |i: int| event_json(events_view(v@)[i]))),
{
    let mut items: Vec<Json> = Vec::new();
    let mut i: usize = 0;
    while i < v.len()
        invariant
            i <= v.len(),
            items@.len() == i,
            forall|k: int| 0 <= k < i ==> (#[trigger] items@[k])@ == event_json(v@[k]@),
        decreases v.len() - i,
    {
        items.push(v[i].to_json());
        i += 1;
    }
    proof {
        lemma_items_view(items@);
        assert(items_view(items@) =~= Seq::new(v@.len(), |k: int| event_json(events_view(v@)[k])));
    }
    Json::Array(items)
}

impl WorldState {
    /// The JSON form of the world, with or without its receipts.
    pub fn to_json_with(&self, with_receipts: bool) -> (r: Json)
        ensures
            r@ == world_json(self@, with_receipts),
    {
        let mut f: Vec<(String, Json)> = Vec::new();
        field(&mut f, "accounts", str_map_to_json(&self.accounts));
        field(&mut f, "entities", id_map_to_json(&self.entities));
        field(&mut f, "contracts", str_map_to_json(&self.contracts));
        let receipts = if with_receipts {
            str_map_to_json(&self.receipts)
        } else {
            let empty: Vec<(String, Json)> = Vec::new();
            assert(members_view(empty@) =~= Seq::<(Seq<char>, JsonV)>::empty());
            Json::Object(empty)
        };
        field(&mut f, "receipts", receipts);
        field(&mut f, "quests", str_map_to_json(&self.quests));
        field(&mut f, "quest_progress", str_map_to_json(&self.quest_progress));
        field(&mut f, "inventories", id_map_to_json(&self.inventories));
        field(&mut f, "events", events_to_json(&self.events));
        field(&mut f, "next_event_id", Json::UInt(self.next_event_id));
        field(&mut f, "next_entity_id", Json::UInt(self.next_entity_id));
        field(&mut f, "head", Json::UInt(self.head));
        let ghost w = self@;
        assert(members_view(f@) =~= seq![
            ("accounts"@, str_map_json::<Account>(w.accounts)),
            ("entities"@, id_map_json::<Entity>(w.entities)),
            ("contracts"@, str_map_json::<Contract>(w.contracts)),
            ("receipts"@, if with_receipts {
                str_map_json::<Receipt>(w.receipts)
            } else {
                JsonV::Object(Seq::empty())
            }),
            ("quests"@, str_map_json::<QuestDefinition>(w.quests)),
            ("quest_progress"@, str_map_json::<QuestProgress>(w.quest_progress)),
            ("inventories"@, id_map_json::<Vec<u64>>(w.inventories)),
            ("events"@, JsonV::Array(Seq::new(w.events.len(), |i: int| event_json(w.events[i])))),
            ("next_event_id"@, JsonV::UInt(w.next_event_id)),
            ("next_entity_id"@, JsonV::UInt(w.next_entity_id)),
            ("head"@, JsonV::UInt(w.head)),
        ]);
        Json::Object(f)
    }

    /// The state root: the BLAKE3 hash of the world's JSON text with the
    /// receipts left out, as lowercase hexadecimal.
    pub fn root(&self) -> (r: String)
        ensures
            r@ == state_root(self@),
            r@.len() == 64,
    {
        let j = self.to_json_with(false);
        let t = to_text(&j);
        blake3_hex(t.as_str().as_bytes())
    }
}

impl Transaction {
    /// The transaction id: the BLAKE3 hash of the transaction's JSON text.
    pub fn id(&self) -> (r: String)
        ensures
            r@ == transaction_id(self@),
            r@.len() == 64,
    {
        let t = to_text(&self.to_json());
        blake3_hex(t.as_str().as_bytes())
    }

    /// The bytes that the sender signs: the transaction's JSON text with no signature.
    pub fn signing_bytes(&self) -> (r: Vec<u8>)
        ensures
            r@ == signing_bytes(self@),
    {
        let unsigned = Transaction {
            from: self.from.clone(),
            nonce: self.nonce,
            entity_id: self.entity_id,
            action: self.action.clone(),
            args: self.args.deep_copy(),
            signature: None,
        };
        let t = to_text(&unsigned.to_json());
        assert(unsigned@ == TransactionV { signature: None, ..self@ });
        let bytes = t.as_str().as_bytes();
        let mut r: Vec<u8> = Vec::new();
        let mut i: usize = 0;
        while i < bytes.len()
            invariant
                i <= bytes@.len(),
                r@ == bytes@.take(i as int),
            decreases bytes@.len() - i,
        {
            r.push(bytes[i]);
            i += 1;
            assert(r@ =~= bytes@.take(i as int));
        }
        assert(bytes@.take(bytes@.len() as int) =~= bytes@);
        r
    }
}

} // verus!
