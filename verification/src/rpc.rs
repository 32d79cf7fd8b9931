//! The JSON-RPC service's own logic: the metrics it keeps,
//! which methods exist and which need the administrator, how an error
//! message maps to an error code, and the answers of the read methods.
use crate::encode::{entity_json, event_json, kind_name, quest_status_name, state_root, ToJson};
use crate::error::{err, Error, ErrorKind, ErrorV};
use crate::json::{as_str, as_u64, items_view, lemma_items_view, lemma_members_view, member, members_view, Json, JsonV};
use crate::maps::{get, has_key, lemma_index_of, put, DeepCopy, SortedMap};
use crate::model::{Account, AccountV, EntityV, QuestDefinitionV, QuestStatus, WorldEventV, WorldState, WorldV};
use crate::runtime::{applied, progress_key_text, quest_progress_key, LuaLimits};
use crate::text::{contains, decimal, push_char, push_str, push_wide_decimal, seq_contains, seq_starts_with, signed_decimal, starts_with, str_eq};
use vstd::prelude::*;

verus! {

// ----------------------------------------------------------------------
// Metrics
// ----------------------------------------------------------------------

/// The counters of one RPC method.
pub struct MethodMetrics {
    pub requests: u64,
    pub errors: u64,
    pub duration_micros: u128,
    pub max_duration_micros: u128,
}

impl View for MethodMetrics {
    type V = MethodMetrics;

    open spec fn view(&self) -> MethodMetrics {
        *self
    }
}

impl Default for MethodMetrics {
    fn default() -> (r: Self)
        ensures
            r == (MethodMetrics { requests: 0, errors: 0, duration_micros: 0, max_duration_micros: 0 }),
    {
        MethodMetrics { requests: 0, errors: 0, duration_micros: 0, max_duration_micros: 0 }
    }
}

/// The service's counters.
pub struct Observability {
    pub next_request_id: u64,
    pub rpc_requests: u64,
    pub rpc_errors: u64,
    pub rpc_duration_micros: u128,
    pub rpc_max_duration_micros: u128,
    pub errors_by_code: SortedMap<i64, u64>,
    pub methods: SortedMap<String, MethodMetrics>,
    pub snapshot_saves: u64,
    pub snapshot_failures: u64,
    pub snapshot_duration_micros: u128,
    pub snapshot_max_duration_micros: u128,
    pub websocket_active: u64,
    pub websocket_connections: u64,
    pub websocket_lag_incidents: u64,
    pub websocket_missed_events: u64,
}

/// The mathematical form of the service's counters.
pub struct ObservabilityV {
    pub next_request_id: u64,
    pub rpc_requests: u64,
    pub rpc_errors: u64,
    pub rpc_duration_micros: u128,
    pub rpc_max_duration_micros: u128,
    pub errors_by_code: Seq<(i64, u64)>,
    pub methods: Seq<(Seq<char>, MethodMetrics)>,
    pub snapshot_saves: u64,
    pub snapshot_failures: u64,
    pub snapshot_duration_micros: u128,
    pub snapshot_max_duration_micros: u128,
    pub websocket_active: u64,
    pub websocket_connections: u64,
    pub websocket_lag_incidents: u64,
    pub websocket_missed_events: u64,
}

impl View for Observability {
    type V = ObservabilityV;

    open spec fn view(&self) -> ObservabilityV {
        ObservabilityV {
            next_request_id: self.next_request_id,
            rpc_requests: self.rpc_requests,
            rpc_errors: self.rpc_errors,
            rpc_duration_micros: self.rpc_duration_micros,
            rpc_max_duration_micros: self.rpc_max_duration_micros,
            errors_by_code: self.errors_by_code@,
            methods: self.methods@,
            snapshot_saves: self.snapshot_saves,
            snapshot_failures: self.snapshot_failures,
            snapshot_duration_micros: self.snapshot_duration_micros,
            snapshot_max_duration_micros: self.snapshot_max_duration_micros,
            websocket_active: self.websocket_active,
            websocket_connections: self.websocket_connections,
            websocket_lag_incidents: self.websocket_lag_incidents,
            websocket_missed_events: self.websocket_missed_events,
        }
    }
}

/// Counters that have all started at zero.
pub open spec fn zero_metrics() -> ObservabilityV {
    ObservabilityV {
        next_request_id: 0,
        rpc_requests: 0,
        rpc_errors: 0,
        rpc_duration_micros: 0,
        rpc_max_duration_micros: 0,
        errors_by_code: seq![],
        methods: seq![],
        snapshot_saves: 0,
        snapshot_failures: 0,
        snapshot_duration_micros: 0,
        snapshot_max_duration_micros: 0,
        websocket_active: 0,
        websocket_connections: 0,
        websocket_lag_incidents: 0,
        websocket_missed_events: 0,
    }
}

impl Default for Observability {
    fn default() -> (r: Self)
        ensures
            r@ == zero_metrics(),
    {
        Observability {
            next_request_id: 0,
            rpc_requests: 0,
            rpc_errors: 0,
            rpc_duration_micros: 0,
            rpc_max_duration_micros: 0,
            errors_by_code: SortedMap::new(),
            methods: SortedMap::new(),
            snapshot_saves: 0,
            snapshot_failures: 0,
            snapshot_duration_micros: 0,
            snapshot_max_duration_micros: 0,
            websocket_active: 0,
            websocket_connections: 0,
            websocket_lag_incidents: 0,
            websocket_missed_events: 0,
        }
    }
}

/// The larger of two durations.
pub open spec fn longest(a: u128, b: u128) -> u128 {
    if a >= b {
        a
    } else {
        b
    }
}

/// The counters of a method before a request is counted: none yet when it
/// has not been seen.
pub open spec fn method_counters(o: ObservabilityV, method: Seq<char>) -> MethodMetrics {
    match get(o.methods, method) {
        Some(m) => m,
        None => MethodMetrics { requests: 0, errors: 0, duration_micros: 0, max_duration_micros: 0 },
    }
}

/// Whether counting one more request cannot overflow a counter.
pub open spec fn can_record(o: ObservabilityV, method: Seq<char>, code: Option<i64>, duration: u128) -> bool {
    let m = method_counters(o, method);
    &&& o.rpc_requests < u64::MAX
    &&& o.rpc_errors < u64::MAX
    &&& o.rpc_duration_micros + duration <= u128::MAX
    &&& m.requests < u64::MAX
    &&& m.errors < u64::MAX
    &&& m.duration_micros + duration <= u128::MAX
    &&& match code {
        Some(c) => match get(o.errors_by_code, c) {
            Some(n) => n < u64::MAX,
            None => true,
        },
        None => true,
    }
}

/// The counters after one request, of the given duration, that ended with
/// the given error code or none.
pub open spec fn record_effect(o: ObservabilityV, method: Seq<char>, code: Option<i64>, duration: u128) -> ObservabilityV {
    let m = method_counters(o, method);
    let failed = code is Some;
    ObservabilityV {
        rpc_requests: (o.rpc_requests + 1) as u64,
        rpc_duration_micros: (o.rpc_duration_micros + duration) as u128,
        rpc_max_duration_micros: longest(o.rpc_max_duration_micros, duration),
        rpc_errors: if failed {
            (o.rpc_errors + 1) as u64
        } else {
            o.rpc_errors
        },
        errors_by_code: match code {
            Some(c) => put::<i64, u64, i64>(
                o.errors_by_code,
                c,
                match get(o.errors_by_code, c) {
                    Some(n) => (n + 1) as u64,
                    None => 1,
                },
            ),
            None => o.errors_by_code,
        },
        methods: put::<Seq<char>, MethodMetrics, String>(
            o.methods,
            method,
            MethodMetrics {
                requests: (m.requests + 1) as u64,
                errors: if failed {
                    (m.errors + 1) as u64
                } else {
                    m.errors
                },
                duration_micros: (m.duration_micros + duration) as u128,
                max_duration_micros: longest(m.max_duration_micros, duration),
            },
        ),
        ..o
    }
}

impl Observability {
    /// The id of the next request.
    pub fn next_request(&mut self) -> (r: u64)
        requires
            old(self).next_request_id < u64::MAX,
        ensures
            r == old(self).next_request_id + 1,
            final(self)@ == (ObservabilityV { next_request_id: r, ..old(self)@ }),
    {
        self.next_request_id = self.next_request_id + 1;
        self.next_request_id
    }

    /// Counts a finished request.
    pub fn record_rpc(&mut self, method: &str, error_code: Option<i64>, duration_micros: u128)
        requires
            can_record(old(self)@, method@, error_code, duration_micros),
        ensures
            final(self)@ == record_effect(old(self)@, method@, error_code, duration_micros),
    {
        self.rpc_requests = self.rpc_requests + 1;
        self.rpc_duration_micros = self.rpc_duration_micros + duration_micros;
        if duration_micros > self.rpc_max_duration_micros {
            self.rpc_max_duration_micros = duration_micros;
        }
        if let Some(code) = error_code {
            self.rpc_errors = self.rpc_errors + 1;
            let count = match self.errors_by_code.get(&code) {
                Some(n) => *n + 1,
                None => 1,
            };
            self.errors_by_code.insert(code, count);
        }
        let key = method.to_owned();
        let current = match self.methods.get(&key) {
            Some(m) => MethodMetrics {
                requests: m.requests,
                errors: m.errors,
                duration_micros: m.duration_micros,
                max_duration_micros: m.max_duration_micros,
            },
            None => MethodMetrics::default(),
        };
        let updated = MethodMetrics {
            requests: current.requests + 1,
            errors: if error_code.is_some() {
                current.errors + 1
            } else {
                current.errors
            },
            duration_micros: current.duration_micros + duration_micros,
            max_duration_micros: if duration_micros > current.max_duration_micros {
                duration_micros
            } else {
                current.max_duration_micros
            },
        };
        self.methods.insert(key, updated);
    }

    /// Counts a snapshot save of the given duration, and its failure.
    pub fn record_snapshot_save(&mut self, duration_micros: u128, failed: bool)
        requires
            old(self).snapshot_saves < u64::MAX,
            old(self).snapshot_failures < u64::MAX,
            old(self).snapshot_duration_micros + duration_micros <= u128::MAX,
        ensures
            final(self)@ == (ObservabilityV {
                snapshot_saves: (old(self).snapshot_saves + 1) as u64,
                snapshot_duration_micros: (old(self).snapshot_duration_micros + duration_micros) as u128,
                snapshot_max_duration_micros: longest(old(self).snapshot_max_duration_micros, duration_micros),
                snapshot_failures: if failed {
                    (old(self).snapshot_failures + 1) as u64
                } else {
                    old(self).snapshot_failures
                },
                ..old(self)@
            }),
    {
        self.snapshot_saves = self.snapshot_saves + 1;
        self.snapshot_duration_micros = self.snapshot_duration_micros + duration_micros;
        if duration_micros > self.snapshot_max_duration_micros {
            self.snapshot_max_duration_micros = duration_micros;
        }
        if failed {
            self.snapshot_failures = self.snapshot_failures + 1;
        }
    }

    /// Counts a new event stream connection.
    pub fn websocket_opened(&mut self)
        requires
            old(self).websocket_active < u64::MAX,
            old(self).websocket_connections < u64::MAX,
        ensures
            final(self)@ == (ObservabilityV {
                websocket_active: (old(self).websocket_active + 1) as u64,
                websocket_connections: (old(self).websocket_connections + 1) as u64,
                ..old(self)@
            }),
    {
        self.websocket_active = self.websocket_active + 1;
        self.websocket_connections = self.websocket_connections + 1;
    }

    /// Counts a lagging receiver that missed events.
    pub fn websocket_lagged(&mut self, missed: u64)
        requires
            old(self).websocket_lag_incidents < u64::MAX,
            old(self).websocket_missed_events + missed <= u64::MAX,
        ensures
            final(self)@ == (ObservabilityV {
                websocket_lag_incidents: (old(self).websocket_lag_incidents + 1) as u64,
                websocket_missed_events: (old(self).websocket_missed_events + missed) as u64,
                ..old(self)@
            }),
    {
        self.websocket_lag_incidents = self.websocket_lag_incidents + 1;
        self.websocket_missed_events = self.websocket_missed_events + missed;
    }

    /// Counts a closed event stream connection; the count never goes below zero.
    pub fn websocket_closed(&mut self)
        ensures
            final(self)@ == (ObservabilityV {
                websocket_active: if old(self).websocket_active > 0 {
                    (old(self).websocket_active - 1) as u64
                } else {
                    0
                },
                ..old(self)@
            }),
    {
        self.websocket_active = self.websocket_active.saturating_sub(1);
    }
}

/// A Prometheus label value: backslashes, double quotes and newlines escaped.
pub open spec fn label_text(s: Seq<char>) -> Seq<char>
    decreases s.len(),
{
    if s.len() == 0 {
        seq![]
    } else {
        label_text(s.drop_last()) + if s.last() == '\\' {
            seq!['\\', '\\']
        } else if s.last() == '"' {
            seq!['\\', '"']
        } else if s.last() == '\n' {
            seq!['\\', 'n']
        } else {
            seq![s.last()]
        }
    }
}

/// Escapes a Prometheus label value.
pub fn prometheus_label(value: &str) -> (r: String)
    ensures
        r@ == label_text(value@),
{
    let cs = crate::text::chars_of(value);
    let mut out = String::new();
    let mut i: usize = 0;
    while i < cs.len()
        invariant
            i <= cs@.len(),
            cs@ == value@,
            out@ == label_text(value@.take(i as int)),
        decreases cs.len() - i,
    {
        proof {
            assert(value@.take(i + 1).drop_last() =~= value@.take(i as int));
        }
        let c = cs[i];
        if c == '\\' {
            push_char(&mut out, '\\');
            push_char(&mut out, '\\');
        } else if c == '"' {
            push_char(&mut out, '\\');
            push_char(&mut out, '"');
        } else if c == '\n' {
            push_char(&mut out, '\\');
            push_char(&mut out, 'n');
        } else {
            push_char(&mut out, c);
        }
        proof {
            assert(out@ =~= label_text(value@.take(i + 1)));
        }
        i += 1;
    }
    assert(value@.take(cs@.len() as int) =~= value@);
    out
}

// ----------------------------------------------------------------------
// Methods
// ----------------------------------------------------------------------

/// The methods the service answers.
pub open spec fn known_methods() -> Seq<Seq<char>> {
    seq![
        "aomori_get_account"@,
        "aomori_create_account"@,
        "aomori_get_receipt"@,
        "aomori_submit_transaction"@,
        "aomori_list_entities"@,
        "aomori_get_quests"@,
        "aomori_get_events"@,
        "aomori_get_info"@,
        "aomori_get_entity"@,
        "aomori_deploy"@,
        "aomori_create_entity"@,
        "aomori_query"@,
        "aomori_command"@,
    ]
}

/// The methods only the administrator may call.
pub open spec fn admin_methods() -> Seq<Seq<char>> {
    seq!["aomori_create_account"@, "aomori_deploy"@, "aomori_create_entity"@]
}

/// Whether a name is one of the listed names.
fn listed_name(names: &[&str], name: &str) -> (r: bool)
    ensures
        r == crate::error::strs_view(names@).contains(name@),
{
    let ghost v = crate::error::strs_view(names@);
    let mut i: usize = 0;
    while i < names.len()
        invariant
            i <= names@.len(),
            v == crate::error::strs_view(names@),
            forall|k: int| 0 <= k < i ==> v[k] != name@,
        decreases names.len() - i,
    {
        if str_eq(names[i], name) {
            assert(v[i as int] == name@);
            return true;
        }
        i += 1;
    }
    false
}

/// Whether the service answers a method.
pub fn is_known_method(method: &str) -> (r: bool)
    ensures
        r == known_methods().contains(method@),
{
    let names: [&str; 13] = [
        "aomori_get_account",
        "aomori_create_account",
        "aomori_get_receipt",
        "aomori_submit_transaction",
        "aomori_list_entities",
        "aomori_get_quests",
        "aomori_get_events",
        "aomori_get_info",
        "aomori_get_entity",
        "aomori_deploy",
        "aomori_create_entity",
        "aomori_query",
        "aomori_command",
    ];
    assert(crate::error::strs_view(names@) =~= known_methods());
    listed_name(&names, method)
}

/// Whether a method needs the administrator's token.
pub fn is_admin_method(method: &str) -> (r: bool)
    ensures
        r == admin_methods().contains(method@),
{
    let names: [&str; 3] = ["aomori_create_account", "aomori_deploy", "aomori_create_entity"];
    assert(crate::error::strs_view(names@) =~= admin_methods());
    listed_name(&names, method)
}

/// The unsigned-write policy for commands: an unsigned command runs only
/// when the node allows unsigned commands.
pub fn unsigned_command_policy(allow_unsigned: bool) -> (r: Result<(), Error>)
    ensures
        allow_unsigned ==> r is Ok,
        !allow_unsigned ==> (r matches Err(e) && e@ == err(ErrorKind::UnsignedCommandsDisabled, Seq::empty())),
{
    if allow_unsigned {
        Ok(())
    } else {
        Err(Error::plain(ErrorKind::UnsignedCommandsDisabled))
    }
}

/// Whether a transaction comes from an account that has no public key.
pub open spec fn from_unsigned_account(w: WorldV, from: Seq<char>) -> bool {
    get(w.accounts, from) matches Some(a) && a.public_key is None
}

/// The unsigned-write policy for transactions: one from an account without
/// a public key is refused unless the node allows unsigned writes.
pub fn transaction_policy(state: &WorldState, tx: &crate::model::Transaction, allow_unsigned: bool) -> (r: Result<(), Error>)
    ensures
        !allow_unsigned && from_unsigned_account(state@, tx@.from) ==> (r matches Err(e) && e@ == err(
            ErrorKind::UnsignedTransactionsDisabled,
            Seq::empty(),
        )),
        !(!allow_unsigned && from_unsigned_account(state@, tx@.from)) ==> r is Ok,
{
    if allow_unsigned {
        return Ok(());
    }
    match state.accounts.get(&tx.from) {
        Some(account) => if account.public_key.is_none() {
            Err(Error::plain(ErrorKind::UnsignedTransactionsDisabled))
        } else {
            Ok(())
        },
        None => Ok(()),
    }
}

/// The JSON-RPC error code of an error message: unknown method, a refused
/// signature, invalid parameters, stale nonce, refused authority, or a
/// generic failure.
pub open spec fn code_of(message: Seq<char>) -> i64 {
    if seq_starts_with(message, "unknown method"@) {
        -32601i64
    } else if seq_starts_with(message, "signature"@) {
        -32002i64
    } else if seq_contains(message, "required"@) || seq_starts_with(message, "invalid type"@) {
        -32602i64
    } else if seq_starts_with(message, "invalid nonce"@) {
        -32003i64
    } else if seq_contains(message, "owner"@) || seq_starts_with(message, "signature"@) || seq_starts_with(
        message,
        "invalid transaction signature"@,
    ) || seq_starts_with(message, "unsigned commands"@) || seq_starts_with(message, "unsigned transactions"@) {
        -32002i64
    } else {
        -32000i64
    }
}

/// The JSON-RPC error code of an error message.
pub fn error_code(message: &str) -> (r: i64)
    ensures
        r == code_of(message@),
{
    if starts_with(message, "unknown method") {
        -32601
    } else if starts_with(message, "signature") {
        -32002
    } else if contains(message, "required") || starts_with(message, "invalid type") {
        -32602
    } else if starts_with(message, "invalid nonce") {
        -32003
    } else if contains(message, "owner") || starts_with(message, "signature") || starts_with(
        message,
        "invalid transaction signature",
    ) || starts_with(message, "unsigned commands") || starts_with(message, "unsigned transactions") {
        -32002
    } else {
        -32000
    }
}

// ----------------------------------------------------------------------
// Answers
// ----------------------------------------------------------------------

/// A required string parameter.
pub fn required_str<'a>(params: &'a Json, name: &str) -> (r: Result<&'a String, Error>)
    ensures
        match member(params@, name@) {
            Some(v) => match as_str(v) {
                Some(s) => r matches Ok(x) && x@ == s,
                None => r matches Err(e) && e@ == err(ErrorKind::ParamRequired, seq![name@]),
            },
            None => r matches Err(e) && e@ == err(ErrorKind::ParamRequired, seq![name@]),
        },
{
    match params.get(name) {
        Some(Json::Str(s)) => Ok(s),
        _ => Err(Error::one(ErrorKind::ParamRequired, name.to_owned())),
    }
}

/// A required number parameter.
pub fn required_u64(params: &Json, name: &str) -> (r: Result<u64, Error>)
    ensures
        match member(params@, name@) {
            Some(v) => match as_u64(v) {
                Some(n) => r == Ok::<u64, Error>(n),
                None => r matches Err(e) && e@ == err(ErrorKind::ParamRequired, seq![name@]),
            },
            None => r matches Err(e) && e@ == err(ErrorKind::ParamRequired, seq![name@]),
        },
{
    match params.get(name) {
        Some(v) => match v.as_u64() {
            Some(n) => Ok(n),
            None => Err(Error::one(ErrorKind::ParamRequired, name.to_owned())),
        },
        None => Err(Error::one(ErrorKind::ParamRequired, name.to_owned())),
    }
}

/// An optional number parameter.
pub fn optional_u64(params: &Json, name: &str) -> (r: Option<u64>)
    ensures
        r == match member(params@, name@) {
            Some(v) => as_u64(v),
            None => None,
        },
{
    match params.get(name) {
        Some(v) => v.as_u64(),
        None => None,
    }
}

/// Creating an account: its name must be new; it starts with nonce zero
/// and the head advances.
pub open spec fn create_account_result(w: WorldV, name: Seq<char>, public_key: Option<Seq<char>>, balance: u64) -> Result<
    WorldV,
    ErrorV,
> {
    if has_key(w.accounts, name) {
        Err(err(ErrorKind::AccountExists, seq![name]))
    } else {
        Ok(
            WorldV {
                accounts: put::<Seq<char>, AccountV, String>(
                    w.accounts,
                    name,
                    AccountV { name, public_key, nonce: 0, balance },
                ),
                head: (w.head + 1) as u64,
                ..w
            },
        )
    }
}

/// Creates an account with a new name.
pub fn create_account(state: &mut WorldState, name: String, public_key: Option<String>, balance: u64) -> (r: Result<
    (),
    Error,
>)
    requires
        old(state).head < u64::MAX,
    ensures
        applied(
            create_account_result(old(state)@, name@, crate::model::opt_chars(public_key), balance),
            old(state)@,
            final(state)@,
            r,
        ),
{
    if state.accounts.contains_key(&name) {
        return Err(Error::one(ErrorKind::AccountExists, name));
    }
    let key = name.clone();
    state.accounts.insert(key, Account { name, public_key, nonce: 0, balance });
    state.head = state.head + 1;
    Ok(())
}

/// Whether an entity passes the listing filters: at the location and of
/// the kind, when given.
pub open spec fn listed(e: EntityV, location: Option<u64>, kind: Option<Seq<char>>) -> bool {
    &&& match location {
        Some(l) => e.location == Some(l),
        None => true,
    }
    &&& match kind {
        Some(k) => kind_name(e.kind) == k,
        None => true,
    }
}

/// The entities, in id order, that pass the listing filters.
pub open spec fn listed_entities(es: Seq<(u64, EntityV)>, location: Option<u64>, kind: Option<Seq<char>>) -> Seq<JsonV>
    decreases es.len(),
{
    if es.len() == 0 {
        seq![]
    } else {
        let prev = listed_entities(es.drop_last(), location, kind);
        if listed(es.last().1, location, kind) {
            prev.push(entity_json(es.last().1))
        } else {
            prev
        }
    }
}

/// The name an entity kind is written with.
fn kind_text(k: crate::model::EntityKind) -> (r: &'static str)
    ensures
        r@ == kind_name(k),
{
    match k {
        crate::model::EntityKind::Actor => "actor",
        crate::model::EntityKind::Zone => "zone",
        crate::model::EntityKind::Item => "item",
    }
}

/// The entities that pass the listing filters, as a JSON array.
pub fn list_entities(state: &WorldState, location: Option<u64>, kind: Option<&str>) -> (r: Json)
    ensures
        r@ == JsonV::Array(
            listed_entities(
                state@.entities,
                location,
                match kind {
                    Some(k) => Some(k@),
                    None => None,
                },
            ),
        ),
{
    let ghost kv = match kind {
        Some(k) => Some(k@),
        None => None::<Seq<char>>,
    };
    let mut out: Vec<Json> = Vec::new();
    let n = state.entities.len();
    let mut i: usize = 0;
    while i < n
        invariant
            n == state@.entities.len(),
            i <= n,
            kv == match kind {
                Some(k) => Some(k@),
                None => None::<Seq<char>>,
            },
            items_view(out@) == listed_entities(state@.entities.take(i as int), location, kv),
        decreases n - i,
    {
        proof {
            assert(state@.entities.take(i + 1).drop_last() =~= state@.entities.take(i as int));
        }
        let e = state.entities.value_at(i);
        let at_location = match location {
            Some(l) => e.location == Some(l),
            None => true,
        };
        let of_kind = match kind {
            Some(k) => str_eq(kind_text(e.kind), k),
            None => true,
        };
        if at_location && of_kind {
            let ghost before = out@;
            out.push(e.to_json());
            assert(out@.drop_last() =~= before);
        }
        i += 1;
    }
    assert(state@.entities.take(n as int) =~= state@.entities);
    Json::Array(out)
}

/// Whether the actor has completed a quest.
pub open spec fn completed_by(w: WorldV, actor: u64, quest_id: Seq<char>) -> bool {
    match get(w.quest_progress, progress_key_text(actor, quest_id)) {
        Some(p) => p.status == QuestStatus::Completed,
        None => false,
    }
}

/// A quest's status for an actor: its progress when it has any; otherwise
/// available once every prerequisite is completed, locked before. Without
/// an actor every quest is available.
pub open spec fn quest_status_text(w: WorldV, actor: Option<u64>, q: QuestDefinitionV) -> Seq<char> {
    match actor {
        Some(a) => match get(w.quest_progress, progress_key_text(a, q.id)) {
            Some(p) => quest_status_name(p.status),
            None => if forall|j: int| 0 <= j < q.prerequisite_quest_ids.len() ==> completed_by(w, a, #[trigger] q.prerequisite_quest_ids[j]) {
                "available"@
            } else {
                "locked"@
            },
        },
        None => "available"@,
    }
}

/// A quest's entry in the quest list: its definition and its status.
pub open spec fn quest_entry(w: WorldV, actor: Option<u64>, q: QuestDefinitionV) -> JsonV {
    JsonV::Object(
        seq![
            ("id"@, JsonV::Str(q.id)),
            ("title"@, JsonV::Str(q.title)),
            ("giver_entity_id"@, JsonV::UInt(q.giver_entity_id)),
            ("prerequisite_quest_ids"@, crate::encode::strings_json(q.prerequisite_quest_ids)),
            ("required_item"@, JsonV::Str(q.required_item)),
            ("completion_zone"@, JsonV::Str(q.completion_zone)),
            ("reward_balance"@, JsonV::UInt(q.reward_balance)),
            ("consume_required_item"@, JsonV::Bool(q.consume_required_item)),
            ("status"@, JsonV::Str(quest_status_text(w, actor, q))),
        ],
    )
}

/// Whether the actor has completed every listed quest.
fn all_completed(state: &WorldState, actor: u64, ids: &Vec<String>) -> (r: bool)
    ensures
        r == forall|j: int| 0 <= j < ids@.len() ==> completed_by(state@, actor, #[trigger] ids@[j]@),
{
    let mut j: usize = 0;
    while j < ids.len()
        invariant
            j <= ids@.len(),
            forall|k: int| 0 <= k < j ==> completed_by(state@, actor, #[trigger] ids@[k]@),
        decreases ids.len() - j,
    {
        let key = quest_progress_key(actor, ids[j].as_str());
        let done = match state.quest_progress.get(&key) {
            Some(p) => p.status == QuestStatus::Completed,
            None => false,
        };
        if !done {
            assert(!completed_by(state@, actor, ids@[j as int]@));
            return false;
        }
        j += 1;
    }
    true
}

/// A quest's status for an actor.
fn quest_status_for(state: &WorldState, actor: Option<u64>, q: &crate::model::QuestDefinition) -> (r: &'static str)
    ensures
        r@ == quest_status_text(state@, actor, q@),
{
    proof {
        reveal_strlit("accepted");
        reveal_strlit("completed");
        reveal_strlit("available");
        reveal_strlit("locked");
    }
    match actor {
        Some(a) => {
            let key = quest_progress_key(a, q.id.as_str());
            match state.quest_progress.get(&key) {
                Some(p) => match p.status {
                    QuestStatus::Accepted => "accepted",
                    QuestStatus::Completed => "completed",
                },
                None => {
                    let all = all_completed(state, a, &q.prerequisite_quest_ids);
                    proof {
                        let ps = q@.prerequisite_quest_ids;
                        assert(ps.len() == q.prerequisite_quest_ids@.len());
                        assert forall|j: int| 0 <= j < ps.len() implies #[trigger] ps[j] == q.prerequisite_quest_ids@[j]@ by {
                        }
                        if all {
                            assert forall|j: int| 0 <= j < ps.len() implies completed_by(state@, a, #[trigger] ps[j]) by {
                                assert(completed_by(state@, a, q.prerequisite_quest_ids@[j]@));
                            }
                        } else {
                            let j = choose|j: int| 0 <= j < q.prerequisite_quest_ids@.len() && !completed_by(state@, a, #[trigger] q.prerequisite_quest_ids@[j]@);
                            assert(!completed_by(state@, a, ps[j]));
                        }
                    }
                    if all {
                        "available"
                    } else {
                        "locked"
                    }
                },
            }
        },
        None => "available",
    }
}

/// The quest list: every quest, in id order, with its status for the actor.
pub fn quest_list(state: &WorldState, actor: Option<u64>) -> (r: Json)
    ensures
        r@ == JsonV::Object(
            seq![
                ("quests"@, JsonV::Array(Seq::new(state@.quests.len(), |i: int| quest_entry(state@, actor, state@.quests[i].1)))),
            ],
        ),
{
    let mut out: Vec<Json> = Vec::new();
    let n = state.quests.len();
    let mut i: usize = 0;
    while i < n
        invariant
            n == state@.quests.len(),
            i <= n,
            out@.len() == i,
            forall|k: int| 0 <= k < i ==> (#[trigger] out@[k])@ == quest_entry(state@, actor, state@.quests[k].1),
        decreases n - i,
    {
        let q = state.quests.value_at(i);
        let status = quest_status_for(state, actor, q);
        let mut m: Vec<(String, Json)> = Vec::new();
        m.push(("id".to_owned(), Json::string(q.id.as_str())));
        m.push(("title".to_owned(), Json::string(q.title.as_str())));
        m.push(("giver_entity_id".to_owned(), Json::UInt(q.giver_entity_id)));
        m.push(("prerequisite_quest_ids".to_owned(), crate::encode::strings_to_json(&q.prerequisite_quest_ids)));
        m.push(("required_item".to_owned(), Json::string(q.required_item.as_str())));
        m.push(("completion_zone".to_owned(), Json::string(q.completion_zone.as_str())));
        m.push(("reward_balance".to_owned(), Json::UInt(q.reward_balance)));
        m.push(("consume_required_item".to_owned(), Json::Bool(q.consume_required_item)));
        m.push(("status".to_owned(), Json::string(status)));
        proof {
            lemma_members_view(m@);
            assert(state@.quests[i as int].1 == q@);
            assert(members_view(m@) =~= quest_entry(state@, actor, q@)->Object_0);
        }
        out.push(Json::Object(m));
        i += 1;
    }
    proof {
        lemma_items_view(out@);
        assert(items_view(out@) =~= Seq::new(n as nat, |i: int| quest_entry(state@, actor, state@.quests[i].1)));
    }
    let mut top: Vec<(String, Json)> = Vec::new();
    let quests = Json::Array(out);
    top.push(("quests".to_owned(), quests));
    proof {
        lemma_members_view(top@);
        assert(members_view(top@) =~= seq![("quests"@, quests@)]);
    }
    Json::Object(top)
}

/// The events after `since`, at most `limit` of them and never more than
/// 500, and the id to ask from next time: the last one given, or `since`.
pub open spec fn events_after(events: Seq<WorldEventV>, since: u64, limit: u64) -> Seq<WorldEventV>
    decreases events.len(),
{
    if events.len() == 0 {
        seq![]
    } else {
        let prev = events_after(events.drop_last(), since, limit);
        if events.last().id > since && prev.len() < (if limit > 500 {
            500
        } else {
            limit
        }) {
            prev.push(events.last())
        } else {
            prev
        }
    }
}

/// The page of events after `since`: the events, the next position, and
/// the id of the latest event in the log (zero when it is empty).
pub open spec fn events_page(w: WorldV, since: u64, limit: u64) -> JsonV {
    let page = events_after(w.events, since, limit);
    JsonV::Object(
        seq![
            ("events"@, JsonV::Array(Seq::new(page.len(), |i: int| event_json(page[i])))),
            ("next"@, JsonV::UInt(
                if page.len() > 0 {
                    page.last().id
                } else {
                    since
                },
            )),
            ("latest"@, JsonV::UInt(
                if w.events.len() > 0 {
                    w.events.last().id
                } else {
                    0
                },
            )),
        ],
    )
}

proof fn lemma_events_after_len(events: Seq<WorldEventV>, since: u64, limit: u64)
    ensures
        events_after(events, since, limit).len() <= events.len(),
    decreases events.len(),
{
    if events.len() > 0 {
        lemma_events_after_len(events.drop_last(), since, limit);
    }
}

/// Whether an event comes after the cursor.
pub open spec fn after_cursor(since: u64) -> spec_fn(WorldEventV) -> bool {
    |e: WorldEventV| e.id > since
}

/// A page of events is the first `limit` (at most 500) events of the log
/// whose id is above the cursor, in log order: the cursor itself is never
/// sent again, and no event after it is skipped.
pub proof fn lemma_page_is_first_after_cursor(events: Seq<WorldEventV>, since: u64, limit: u64)
    ensures
        ({
            let later = events.filter(after_cursor(since));
            let cap: int = if limit > 500 {
                500
            } else {
                limit as int
            };
            events_after(events, since, limit) == if later.len() <= cap {
                later
            } else {
                later.take(cap)
            }
        }),
        forall|i: int|
            0 <= i < events_after(events, since, limit).len() ==> (#[trigger] events_after(events, since, limit)[i]).id
                > since,
    decreases events.len(),
{
    reveal(Seq::filter);
    let cap: int = if limit > 500 {
        500
    } else {
        limit as int
    };
    let later = events.filter(after_cursor(since));
    if events.len() > 0 {
        let init = events.drop_last();
        lemma_page_is_first_after_cursor(init, since, limit);
        let pl = init.filter(after_cursor(since));
        let prev = events_after(init, since, limit);
        let x = events.last();
        if x.id > since {
            assert(later == pl.push(x));
            if pl.len() < cap {
                assert(prev == pl);
            } else {
                assert(prev.len() == cap);
                assert(pl.push(x).take(cap) =~= pl.take(cap));
                if pl.len() == cap {
                    assert(pl.take(cap) =~= pl);
                }
            }
        } else {
            assert(later == pl);
        }
        assert forall|i: int|
            0 <= i < events_after(events, since, limit).len() implies (#[trigger] events_after(events, since, limit)[i]).id
                > since by {
            if i < prev.len() {
                assert(events_after(events, since, limit)[i] == prev[i]);
            }
        }
    } else {
        assert(later =~= Seq::<WorldEventV>::empty());
    }
}

/// A quest with no progress for an actor is listed as available exactly
/// when the actor has completed every prerequisite (progress with status
/// completed), and as locked otherwise; a quest with progress is listed
/// with its progress status.
pub proof fn lemma_quest_status_needs_completed_prerequisites(w: WorldV, actor: u64, q: QuestDefinitionV)
    ensures
        get(w.quest_progress, progress_key_text(actor, q.id)) is None ==> {
            &&& (quest_status_text(w, Some(actor), q) == "available"@) == (forall|j: int|
                0 <= j < q.prerequisite_quest_ids.len() ==> (get(
                    w.quest_progress,
                    progress_key_text(actor, #[trigger] q.prerequisite_quest_ids[j]),
                ) matches Some(p) && p.status == QuestStatus::Completed))
            &&& (quest_status_text(w, Some(actor), q) == "available"@ || quest_status_text(w, Some(actor), q)
                == "locked"@)
        },
        get(w.quest_progress, progress_key_text(actor, q.id)) matches Some(p) ==> quest_status_text(w, Some(actor), q)
            == quest_status_name(p.status),
        quest_status_text(w, None, q) == "available"@,
{
    reveal_strlit("available");
    reveal_strlit("locked");
    assert("available"@.len() != "locked"@.len());
}

/// Whether an entry stands at the location (when one is asked for) and is
/// of the kind (when one is asked for).
pub open spec fn entry_passes(location: Option<u64>, kind: Option<Seq<char>>) -> spec_fn((u64, EntityV)) -> bool {
    |x: (u64, EntityV)|
        (location is None || x.1.location == location) && (kind is None || kind_name(x.1.kind) == kind->0)
}

/// The entity listing is every entity, in id order, that stands at the
/// asked location and is of the asked kind, and nothing else.
pub proof fn lemma_listing_is_the_filtered_entities(es: Seq<(u64, EntityV)>, location: Option<u64>, kind: Option<Seq<char>>)
    ensures
        listed_entities(es, location, kind) == es.filter(entry_passes(location, kind)).map_values(
            |x: (u64, EntityV)| entity_json(x.1),
        ),
    decreases es.len(),
{
    reveal(Seq::filter);
    if es.len() > 0 {
        lemma_listing_is_the_filtered_entities(es.drop_last(), location, kind);
        let f = es.drop_last().filter(entry_passes(location, kind));
        assert(f.push(es.last()).map_values(|x: (u64, EntityV)| entity_json(x.1)) =~= f.map_values(
            |x: (u64, EntityV)| entity_json(x.1),
        ).push(entity_json(es.last().1)));
    } else {
        assert(es.filter(entry_passes(location, kind)).map_values(|x: (u64, EntityV)| entity_json(x.1)) =~= seq![]);
    }
}

/// A page of the event log.
pub fn events_since(state: &WorldState, since: u64, limit: u64) -> (r: Json)
    ensures
        r@ == events_page(state@, since, limit),
{
    let cap: u64 = if limit > 500 {
        500
    } else {
        limit
    };
    let ghost evs = state@.events;
    let mut out: Vec<Json> = Vec::new();
    let ghost mut page: Seq<WorldEventV> = seq![];
    let mut next = since;
    let mut i: usize = 0;
    while i < state.events.len()
        invariant
            i <= state.events@.len(),
            evs == state@.events,
            evs.len() == state.events@.len(),
            forall|k: int| 0 <= k < state.events@.len() ==> #[trigger] evs[k] == state.events@[k]@,
            cap == (if limit > 500 {
                500
            } else {
                limit
            }),
            page == events_after(evs.take(i as int), since, limit),
            out@.len() == page.len(),
            forall|k: int| 0 <= k < page.len() ==> (#[trigger] out@[k])@ == event_json(page[k]),
            next == if page.len() > 0 {
                page.last().id
            } else {
                since
            },
        decreases state.events.len() - i,
    {
        proof {
            assert(evs.take(i + 1).drop_last() =~= evs.take(i as int));
            assert(evs.take(i + 1).last() == evs[i as int]);
            lemma_events_after_len(evs.take(i as int), since, limit);
        }
        let e = &state.events[i];
        if e.id > since && (out.len() as u64) < cap {
            out.push(e.to_json());
            next = e.id;
            proof {
                page = page.push(e@);
            }
        }
        i += 1;
    }
    proof {
        assert(evs.take(evs.len() as int) =~= evs);
        lemma_items_view(out@);
        assert(items_view(out@) =~= Seq::new(page.len(), |k: int| event_json(page[k])));
    }
    let mut top: Vec<(String, Json)> = Vec::new();
    top.push(("events".to_owned(), Json::Array(out)));
    top.push(("next".to_owned(), Json::UInt(next)));
    let latest = if state.events.len() > 0 {
        state.events[state.events.len() - 1].id
    } else {
        0
    };
    top.push(("latest".to_owned(), Json::UInt(latest)));
    proof {
        lemma_members_view(top@);
        assert(members_view(top@) =~= events_page(state@, since, limit)->Object_0);
    }
    Json::Object(top)
}

// ----------------------------------------------------------------------
// Prometheus text
// ----------------------------------------------------------------------

/// One metric: its help line, its type line and its sample.
pub open spec fn metric_text(name: Seq<char>, help: Seq<char>, kind: Seq<char>, value: nat) -> Seq<char> {
    "# HELP "@ + name + seq![' '] + help + seq!['\n'] + "# TYPE "@ + name + seq![' '] + kind + seq!['\n'] + name + seq![' ']
        + decimal(value) + seq!['\n']
}

/// One sample of a labelled series.
pub open spec fn labelled_sample(name: Seq<char>, label: Seq<char>, value: Seq<char>, count: nat) -> Seq<char> {
    name + seq!['{'] + label + seq!['=', '"'] + value + seq!['"', '}', ' '] + decimal(count) + seq!['\n']
}

/// The four samples of one method's counters.
pub open spec fn method_samples(method: Seq<char>, m: MethodMetrics) -> Seq<char> {
    let l = label_text(method);
    labelled_sample("aomori_rpc_method_requests_total"@, "method"@, l, m.requests as nat) + labelled_sample(
        "aomori_rpc_method_errors_total"@,
        "method"@,
        l,
        m.errors as nat,
    ) + labelled_sample("aomori_rpc_method_duration_micros_total"@, "method"@, l, m.duration_micros as nat)
        + labelled_sample("aomori_rpc_method_duration_micros_max"@, "method"@, l, m.max_duration_micros as nat)
}

/// The samples of every method, in method order.
pub open spec fn method_lines(ms: Seq<(Seq<char>, MethodMetrics)>) -> Seq<char>
    decreases ms.len(),
{
    if ms.len() == 0 {
        seq![]
    } else {
        method_lines(ms.drop_last()) + method_samples(ms.last().0, ms.last().1)
    }
}

/// The error count of every error code, in code order.
pub open spec fn code_lines(cs: Seq<(i64, u64)>) -> Seq<char>
    decreases cs.len(),
{
    if cs.len() == 0 {
        seq![]
    } else {
        code_lines(cs.drop_last()) + labelled_sample(
            "aomori_rpc_error_code_total"@,
            "code"@,
            signed_decimal(cs.last().0 as int),
            cs.last().1 as nat,
        )
    }
}

/// The Prometheus page: the world's gauges, the service's counters, then
/// the per-method series and the per-code series.
pub open spec fn prometheus_page(o: ObservabilityV, head: u64, events: u64, entities: u64, accounts: u64) -> Seq<char> {
    metric_text("aomori_world_head"@, "Current world head."@, "gauge"@, head as nat)
        + metric_text("aomori_world_events"@, "Current persisted event count."@, "gauge"@, events as nat)
        + metric_text("aomori_world_entities"@, "Current entity count."@, "gauge"@, entities as nat)
        + metric_text("aomori_world_accounts"@, "Current account count."@, "gauge"@, accounts as nat)
        + metric_text("aomori_rpc_requests_total"@, "Total RPC requests."@, "counter"@, o.rpc_requests as nat)
        + metric_text("aomori_rpc_errors_total"@, "Total RPC errors."@, "counter"@, o.rpc_errors as nat)
        + metric_text("aomori_rpc_duration_micros_total"@, "Cumulative RPC duration in microseconds."@, "counter"@, o.rpc_duration_micros as nat)
        + metric_text("aomori_rpc_duration_micros_max"@, "Maximum observed RPC duration in microseconds."@, "gauge"@, o.rpc_max_duration_micros as nat)
        + metric_text("aomori_snapshot_saves_total"@, "Total snapshot save attempts from RPC mutations."@, "counter"@, o.snapshot_saves as nat)
        + metric_text("aomori_snapshot_failures_total"@, "Total failed snapshot saves from RPC mutations."@, "counter"@, o.snapshot_failures as nat)
        + metric_text("aomori_snapshot_duration_micros_total"@, "Cumulative snapshot save duration in microseconds."@, "counter"@, o.snapshot_duration_micros as nat)
        + metric_text("aomori_snapshot_duration_micros_max"@, "Maximum observed snapshot save duration in microseconds."@, "gauge"@, o.snapshot_max_duration_micros as nat)
        + metric_text("aomori_websocket_active"@, "Current WebSocket event stream connections."@, "gauge"@, o.websocket_active as nat)
        + metric_text("aomori_websocket_connections_total"@, "Total WebSocket event stream connections."@, "counter"@, o.websocket_connections as nat)
        + metric_text("aomori_websocket_lag_incidents_total"@, "Total WebSocket lag incidents."@, "counter"@, o.websocket_lag_incidents as nat)
        + metric_text("aomori_websocket_missed_events_total"@, "Total events missed by lagged WebSocket receivers."@, "counter"@, o.websocket_missed_events as nat)
        + "# HELP aomori_rpc_method_requests_total RPC requests by bounded method label.\n"@
        + "# TYPE aomori_rpc_method_requests_total counter\n"@
        + "# HELP aomori_rpc_method_errors_total RPC errors by bounded method label.\n"@
        + "# TYPE aomori_rpc_method_errors_total counter\n"@
        + "# HELP aomori_rpc_method_duration_micros_total Cumulative RPC duration by bounded method label.\n"@
        + "# TYPE aomori_rpc_method_duration_micros_total counter\n"@
        + "# HELP aomori_rpc_method_duration_micros_max Maximum RPC duration by bounded method label.\n"@
        + "# TYPE aomori_rpc_method_duration_micros_max gauge\n"@
        + method_lines(o.methods)
        + "# HELP aomori_rpc_error_code_total RPC errors by JSON-RPC error code.\n"@
        + "# TYPE aomori_rpc_error_code_total counter\n"@
        + code_lines(o.errors_by_code)
}

/// Appends one metric.
fn push_metric(out: &mut String, name: &str, help: &str, kind: &str, value: u128)
    ensures
        final(out)@ == old(out)@ + metric_text(name@, help@, kind@, value as nat),
{
    push_str(out, "# HELP ");
    push_str(out, name);
    push_char(out, ' ');
    push_str(out, help);
    push_char(out, '\n');
    push_str(out, "# TYPE ");
    push_str(out, name);
    push_char(out, ' ');
    push_str(out, kind);
    push_char(out, '\n');
    push_str(out, name);
    push_char(out, ' ');
    push_wide_decimal(out, value);
    push_char(out, '\n');
    assert(final(out)@ =~= old(out)@ + metric_text(name@, help@, kind@, value as nat));
}

/// Appends one labelled sample.
fn push_sample(out: &mut String, name: &str, label: &str, value: &str, count: u128)
    ensures
        final(out)@ == old(out)@ + labelled_sample(name@, label@, value@, count as nat),
{
    push_str(out, name);
    push_char(out, '{');
    push_str(out, label);
    push_char(out, '=');
    push_char(out, '"');
    push_str(out, value);
    push_char(out, '"');
    push_char(out, '}');
    push_char(out, ' ');
    push_wide_decimal(out, count);
    push_char(out, '\n');
    assert(final(out)@ =~= old(out)@ + labelled_sample(name@, label@, value@, count as nat));
}

impl Observability {
    /// The Prometheus text of the counters and the world's gauges.
    #[verifier::rlimit(40)]
    pub fn prometheus_text(&self, head: u64, events: u64, entities: u64, accounts: u64) -> (r: String)
        ensures
            r@ == prometheus_page(self@, head, events, entities, accounts),
    {
        let ghost o = self@;
        let mut out = String::new();
        push_metric(&mut out, "aomori_world_head", "Current world head.", "gauge", head as u128);
        push_metric(&mut out, "aomori_world_events", "Current persisted event count.", "gauge", events as u128);
        push_metric(&mut out, "aomori_world_entities", "Current entity count.", "gauge", entities as u128);
        push_metric(&mut out, "aomori_world_accounts", "Current account count.", "gauge", accounts as u128);
        push_metric(&mut out, "aomori_rpc_requests_total", "Total RPC requests.", "counter", self.rpc_requests as u128);
        push_metric(&mut out, "aomori_rpc_errors_total", "Total RPC errors.", "counter", self.rpc_errors as u128);
        push_metric(&mut out, "aomori_rpc_duration_micros_total", "Cumulative RPC duration in microseconds.", "counter", self.rpc_duration_micros as u128);
        push_metric(&mut out, "aomori_rpc_duration_micros_max", "Maximum observed RPC duration in microseconds.", "gauge", self.rpc_max_duration_micros as u128);
        push_metric(&mut out, "aomori_snapshot_saves_total", "Total snapshot save attempts from RPC mutations.", "counter", self.snapshot_saves as u128);
        push_metric(&mut out, "aomori_snapshot_failures_total", "Total failed snapshot saves from RPC mutations.", "counter", self.snapshot_failures as u128);
        push_metric(&mut out, "aomori_snapshot_duration_micros_total", "Cumulative snapshot save duration in microseconds.", "counter", self.snapshot_duration_micros as u128);
        push_metric(&mut out, "aomori_snapshot_duration_micros_max", "Maximum observed snapshot save duration in microseconds.", "gauge", self.snapshot_max_duration_micros as u128);
        push_metric(&mut out, "aomori_websocket_active", "Current WebSocket event stream connections.", "gauge", self.websocket_active as u128);
        push_metric(&mut out, "aomori_websocket_connections_total", "Total WebSocket event stream connections.", "counter", self.websocket_connections as u128);
        push_metric(&mut out, "aomori_websocket_lag_incidents_total", "Total WebSocket lag incidents.", "counter", self.websocket_lag_incidents as u128);
        push_metric(&mut out, "aomori_websocket_missed_events_total", "Total events missed by lagged WebSocket receivers.", "counter", self.websocket_missed_events as u128);
        push_str(&mut out, "# HELP aomori_rpc_method_requests_total RPC requests by bounded method label.\n");
        push_str(&mut out, "# TYPE aomori_rpc_method_requests_total counter\n");
        push_str(&mut out, "# HELP aomori_rpc_method_errors_total RPC errors by bounded method label.\n");
        push_str(&mut out, "# TYPE aomori_rpc_method_errors_total counter\n");
        push_str(&mut out, "# HELP aomori_rpc_method_duration_micros_total Cumulative RPC duration by bounded method label.\n");
        push_str(&mut out, "# TYPE aomori_rpc_method_duration_micros_total counter\n");
        push_str(&mut out, "# HELP aomori_rpc_method_duration_micros_max Maximum RPC duration by bounded method label.\n");
        push_str(&mut out, "# TYPE aomori_rpc_method_duration_micros_max gauge\n");
        let ghost before_methods = out@;
        let n = self.methods.len();
        let mut i: usize = 0;
        assert(o.methods.take(0) =~= seq![]);
        assert(out@ =~= before_methods + method_lines(o.methods.take(0)));
        while i < n
            invariant
                o == self@,
                n == o.methods.len(),
                i <= n,
                out@ == before_methods + method_lines(o.methods.take(i as int)),
            decreases n - i,
        {
            proof {
                assert(o.methods.take(i + 1).drop_last() =~= o.methods.take(i as int));
            }
            let label = prometheus_label(self.methods.key_at(i).as_str());
            let m = self.methods.value_at(i);
            let ghost mid = out@;
            push_sample(&mut out, "aomori_rpc_method_requests_total", "method", label.as_str(), m.requests as u128);
            push_sample(&mut out, "aomori_rpc_method_errors_total", "method", label.as_str(), m.errors as u128);
            push_sample(&mut out, "aomori_rpc_method_duration_micros_total", "method", label.as_str(), m.duration_micros);
            push_sample(&mut out, "aomori_rpc_method_duration_micros_max", "method", label.as_str(), m.max_duration_micros);
            assert(out@ =~= mid + method_samples(o.methods[i as int].0, o.methods[i as int].1));
            i += 1;
        }
        assert(o.methods.take(n as int) =~= o.methods);
        push_str(&mut out, "# HELP aomori_rpc_error_code_total RPC errors by JSON-RPC error code.\n");
        push_str(&mut out, "# TYPE aomori_rpc_error_code_total counter\n");
        let ghost before_codes = out@;
        let k = self.errors_by_code.len();
        let mut j: usize = 0;
        assert(o.errors_by_code.take(0) =~= seq![]);
        assert(out@ =~= before_codes + code_lines(o.errors_by_code.take(0)));
        while j < k
            invariant
                o == self@,
                k == o.errors_by_code.len(),
                j <= k,
                out@ == before_codes + code_lines(o.errors_by_code.take(j as int)),
            decreases k - j,
        {
            proof {
                assert(o.errors_by_code.take(j + 1).drop_last() =~= o.errors_by_code.take(j as int));
            }
            let mut code = String::new();
            crate::text::push_signed_decimal(&mut code, *self.errors_by_code.key_at(j));
            let count = *self.errors_by_code.value_at(j);
            push_sample(&mut out, "aomori_rpc_error_code_total", "code", code.as_str(), count as u128);
            assert(code@ =~= signed_decimal(o.errors_by_code[j as int].0 as int));
            j += 1;
        }
        assert(o.errors_by_code.take(k as int) =~= o.errors_by_code);
        assert(out@ =~= prometheus_page(o, head, events, entities, accounts));
        out
    }
}

// ----------------------------------------------------------------------
// Requests
// ----------------------------------------------------------------------

/// A JSON-RPC call: its id, its method and its parameters.
#[derive(Debug)]
pub struct RpcCall {
    pub id: Json,
    pub method: String,
    pub params: Json,
}

/// Whether a member is absent, null or a string.
pub open spec fn text_or_null(v: Option<JsonV>) -> bool {
    match v {
        None => true,
        Some(JsonV::Null) => true,
        Some(JsonV::Str(_)) => true,
        _ => false,
    }
}

/// Reading a request value: it must be an object whose `jsonrpc` and
/// `method` are absent, null or strings, or it is answered with a null id.
/// It is a call when `jsonrpc` is "2.0" and `method` a non-empty string;
/// otherwise it is answered with its own id (null when absent). A call's
/// parameters default to an empty object when absent or null.
pub open spec fn call_of(v: JsonV) -> Result<(JsonV, Seq<char>, JsonV), JsonV> {
    match v {
        JsonV::Object(_) => if !(text_or_null(member(v, "jsonrpc"@)) && text_or_null(member(v, "method"@))) {
            Err(JsonV::Null)
        } else {
            let id = match member(v, "id"@) {
                Some(x) => x,
                None => JsonV::Null,
            };
            let params = match member(v, "params"@) {
                None => JsonV::Object(seq![]),
                Some(JsonV::Null) => JsonV::Object(seq![]),
                Some(x) => x,
            };
            match (member(v, "jsonrpc"@), member(v, "method"@)) {
                (Some(JsonV::Str(j)), Some(JsonV::Str(m))) => if j == "2.0"@ && m.len() > 0 {
                    Ok((id, m, params))
                } else {
                    Err(id)
                },
                _ => Err(id),
            }
        },
        _ => Err(JsonV::Null),
    }
}

/// Whether a member, when present, is null or a string.
fn member_text_or_null(v: &Json, key: &str) -> (r: bool)
    ensures
        r == text_or_null(member(v@, key@)),
{
    match v.get(key) {
        None => true,
        Some(Json::Null) => true,
        Some(Json::Str(_)) => true,
        _ => false,
    }
}

/// Reads a request value as a call, or gives the id to answer an invalid
/// request with.
pub fn read_call(value: &Json) -> (r: Result<RpcCall, Json>)
    ensures
        match call_of(value@) {
            Ok((id, method, params)) => r matches Ok(c) && c.id@ == id && c.method@ == method && c.params@ == params,
            Err(id) => r matches Err(x) && x@ == id,
        },
{
    proof {
        reveal_strlit("2.0");
    }
    match value {
        Json::Object(_) => {},
        _ => {
            return Err(Json::Null);
        },
    }
    if !(member_text_or_null(value, "jsonrpc") && member_text_or_null(value, "method")) {
        return Err(Json::Null);
    }
    let id = match value.get("id") {
        Some(x) => x.deep_copy(),
        None => Json::Null,
    };
    let empty: Vec<(String, Json)> = Vec::new();
    proof {
        lemma_members_view(empty@);
        assert(members_view(empty@) =~= seq![]);
    }
    let params = match value.get("params") {
        None => Json::Object(empty),
        Some(Json::Null) => Json::Object(empty),
        Some(x) => x.deep_copy(),
    };
    match (value.get("jsonrpc"), value.get("method")) {
        (Some(Json::Str(j)), Some(Json::Str(m))) => {
            if str_eq(j.as_str(), "2.0") && crate::text::chars_of(m.as_str()).len() > 0 {
                Ok(RpcCall { id, method: m.clone(), params })
            } else {
                Err(id)
            }
        },
        _ => Err(id),
    }
}

/// The method name recorded in the metrics: a known method's own name,
/// `<unknown>` for any other, so that the series stay bounded.
pub fn metric_method(method: &str) -> (r: &'static str)
    ensures
        known_methods().contains(method@) ==> r@ == method@,
        !known_methods().contains(method@) ==> r@ == "<unknown>"@,
{
    let names: [&'static str; 13] = [
        "aomori_get_account",
        "aomori_create_account",
        "aomori_get_receipt",
        "aomori_submit_transaction",
        "aomori_list_entities",
        "aomori_get_quests",
        "aomori_get_events",
        "aomori_get_info",
        "aomori_get_entity",
        "aomori_deploy",
        "aomori_create_entity",
        "aomori_query",
        "aomori_command",
    ];
    let mut i: usize = 0;
    while i < 13
        invariant
            i <= 13,
            names@.len() == 13,
            crate::error::strs_view(names@) == known_methods(),
            forall|k: int| 0 <= k < i ==> known_methods()[k] != method@,
        decreases 13 - i,
    {
        if str_eq(names[i], method) {
            assert(known_methods()[i as int] == names[i as int]@);
            return names[i];
        }
        i += 1;
    }
    "<unknown>"
}

/// The bearer token of an `Authorization` header value.
pub open spec fn bearer_token(header: Seq<char>) -> Option<Seq<char>> {
    if seq_starts_with(header, "Bearer "@) {
        Some(header.skip(7))
    } else {
        None
    }
}

/// Whether a request may call an administrator method: a token must be
/// configured and the request must present exactly that bearer token.
pub fn admin_authorized(configured: Option<&str>, header: Option<&str>) -> (r: bool)
    ensures
        r == match (configured, header) {
            (Some(t), Some(h)) => bearer_token(h@) == Some(t@),
            _ => false,
        },
{
    proof {
        reveal_strlit("Bearer ");
    }
    match (configured, header) {
        (Some(t), Some(h)) => {
            if starts_with(h, "Bearer ") {
                let token = crate::text::chars_of(h);
                assert(token@.len() >= 7);
                let expected = crate::text::chars_of(t);
                let tl = token.len();
                if tl - 7 != expected.len() {
                    assert(h@.skip(7).len() != t@.len());
                    return false;
                }
                let mut i: usize = 0;
                while i < expected.len()
                    invariant
                        token@ == h@,
                        expected@ == t@,
                        tl == token@.len(),
                        configured == Some(t),
                        header == Some(h),
                        seq_starts_with(h@, "Bearer "@),
                        "Bearer "@.len() == 7,
                        token@.len() >= 7,
                        token@.len() - 7 == expected@.len(),
                        i <= expected@.len(),
                        forall|k: int| 0 <= k < i ==> token@[k + 7] == expected@[k],
                    decreases expected.len() - i,
                {
                    if token[i + 7] != expected[i] {
                        assert(h@.skip(7)[i as int] == h@[i + 7]);
                        assert(h@.skip(7)[i as int] != t@[i as int]);
                        assert(h@.skip(7) != t@);
                        return false;
                    }
                    i += 1;
                }
                assert(h@.skip(7) =~= t@);
                true
            } else {
                false
            }
        },
        _ => false,
    }
}

} // verus!
