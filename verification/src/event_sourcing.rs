//! Event sourcing: an append-only event log, snapshots, versioned event
//! payloads and replay.
//!
//! The log is the single source of truth: events are only ever appended,
//! each carries a per-vault sequence number (1, 2, 3, ...) and a schema
//! version. Snapshots capture a vault's state at a sequence number so that
//! replay only has to apply the events after it.
use vstd::prelude::*;
use crate::clock::{utc_now, Timestamp};
use crate::json::{scalar_as_i64, scalar_as_str, scalar_as_u64, JsonObject, JsonScalar};
use crate::text::str_eq;

verus! {

/// Current schema version for new events.
pub const CURRENT_SCHEMA_VERSION: u32 = 1;

// ---------------------------------------------------------------------------
// Vault model
// ---------------------------------------------------------------------------

/// Category of a vault event.
#[derive(Copy, Clone, Debug, PartialEq, Eq, Structural)]
pub enum EventType {
    Deposit,
    Withdrawal,
    CheckIn,
    TtlUpdate,
    StatusChange,
    Release,
}

/// Lifecycle status of a vault.
#[derive(Copy, Clone, Debug, PartialEq, Eq, Structural)]
pub enum VaultStatus {
    Active,
    Expired,
    Released,
    Paused,
}

/// The vault fields the event log reconstructs.
#[derive(Debug)]
pub struct Vault {
    pub id: String,
    pub balance: i128,
    pub status: VaultStatus,
    pub last_check_in: Timestamp,
    pub ttl_remaining: Option<u64>,
}

/// An event in the legacy event-store format.
#[derive(Debug)]
pub struct VaultEvent {
    pub vault_id: String,
    pub event_type: EventType,
    pub data: EventData,
}

// ---------------------------------------------------------------------------
// Payloads
// ---------------------------------------------------------------------------

/// An event's JSON payload: an object, or any other JSON value.
#[derive(Debug)]
pub enum EventData {
    Object(JsonObject),
    Value(JsonScalar),
}

/// Abstract payload: an object as a map from keys to values.
pub enum EventDataView {
    Object(Map<Seq<char>, JsonScalar>),
    Value(JsonScalar),
}

impl View for EventData {
    type V = EventDataView;

    open spec fn view(&self) -> EventDataView {
        match self {
            EventData::Object(o) => EventDataView::Object(o@),
            EventData::Value(v) => EventDataView::Value(*v),
        }
    }
}

impl EventData {
    /// An object payload has distinct keys.
    pub open spec fn wf(&self) -> bool {
        match self {
            EventData::Object(o) => o.wf(),
            EventData::Value(_) => true,
        }
    }

    /// `Value::get`: the field under `key`, for an object payload.
    pub fn get(&self, key: &str) -> (r: Option<&JsonScalar>)
        requires
            self.wf(),
        ensures
            match r {
                Some(v) => data_get(self@, key@) == Some(*v),
                None => data_get(self@, key@) is None,
            },
    {
        match self {
            EventData::Object(o) => o.get(key),
            EventData::Value(_) => None,
        }
    }
}

impl Clone for EventData {
    fn clone(&self) -> (r: Self)
        ensures
            r@ == self@,
            r.wf() == self.wf(),
    {
        match self {
            EventData::Object(o) => EventData::Object(o.clone()),
            EventData::Value(v) => EventData::Value(v.clone()),
        }
    }
}

/// The field under `key` of a payload (objects only).
pub open spec fn data_get(d: EventDataView, key: Seq<char>) -> Option<JsonScalar> {
    match d {
        EventDataView::Object(m) => if m.contains_key(key) {
            Some(m[key])
        } else {
            None
        },
        EventDataView::Value(_) => None,
    }
}

/// The field under `key` as a signed integer.
pub open spec fn data_i64(d: EventDataView, key: Seq<char>) -> Option<i64> {
    match data_get(d, key) {
        Some(v) => scalar_as_i64(v),
        None => None,
    }
}

/// The field under `key` as an unsigned integer.
pub open spec fn data_u64(d: EventDataView, key: Seq<char>) -> Option<u64> {
    match data_get(d, key) {
        Some(v) => scalar_as_u64(v),
        None => None,
    }
}

/// The field under `key` as a string.
pub open spec fn data_str(d: EventDataView, key: Seq<char>) -> Option<Seq<char>> {
    match data_get(d, key) {
        Some(v) => scalar_as_str(v),
        None => None,
    }
}

// ---------------------------------------------------------------------------
// Stored events
// ---------------------------------------------------------------------------

/// An immutable, versioned event stored in the append-only log.
#[derive(Debug)]
pub struct StoredEvent {
    /// Vault this event belongs to.
    pub vault_id: String,
    /// Per-vault sequence number (1-based).
    pub sequence: u64,
    pub event_type: EventType,
    /// Time the event was appended.
    pub timestamp: Timestamp,
    /// JSON payload whose shape is governed by `schema_version`.
    pub data: EventData,
    /// Schema version of `data` at the time the event was written.
    pub schema_version: u32,
}

/// Abstract value of a stored event.
pub struct StoredEventView {
    pub vault_id: Seq<char>,
    pub sequence: u64,
    pub event_type: EventType,
    pub timestamp: Timestamp,
    pub data: EventDataView,
    pub schema_version: u32,
}

impl View for StoredEvent {
    type V = StoredEventView;

    open spec fn view(&self) -> StoredEventView {
        StoredEventView {
            vault_id: self.vault_id@,
            sequence: self.sequence,
            event_type: self.event_type,
            timestamp: self.timestamp,
            data: self.data@,
            schema_version: self.schema_version,
        }
    }
}

impl Clone for StoredEvent {
    fn clone(&self) -> (r: Self)
        ensures
            r@ == self@,
            r.data.wf() == self.data.wf(),
    {
        StoredEvent {
            vault_id: self.vault_id.clone(),
            sequence: self.sequence,
            event_type: self.event_type,
            timestamp: self.timestamp,
            data: self.data.clone(),
            schema_version: self.schema_version,
        }
    }
}

/// The payload after the schema 0 to 1 migration: the field `amount` is
/// renamed `balance_delta`.
pub open spec fn renamed_amount(d: EventDataView) -> EventDataView {
    match d {
        EventDataView::Object(m) => if m.contains_key("amount"@) {
            EventDataView::Object(m.remove("amount"@).insert("balance_delta"@, m["amount"@]))
        } else {
            d
        },
        EventDataView::Value(_) => d,
    }
}

/// The event migrated to the current schema: schema 0 is migrated to 1,
/// any other version is left as it is.
pub open spec fn migrated(e: StoredEventView) -> StoredEventView {
    if e.schema_version == 0 {
        StoredEventView {
            vault_id: e.vault_id,
            sequence: e.sequence,
            event_type: e.event_type,
            timestamp: e.timestamp,
            data: renamed_amount(e.data),
            schema_version: 1,
        }
    } else {
        e
    }
}

impl StoredEvent {
    /// An event for appending, stamped with time `now` at the current
    /// schema version.
    pub fn new_at(
        vault_id: String,
        sequence: u64,
        event_type: EventType,
        data: EventData,
        now: Timestamp,
    ) -> (e: Self)
        ensures
            e.vault_id == vault_id,
            e.sequence == sequence,
            e.event_type == event_type,
            e.timestamp == now,
            e.data == data,
            e.schema_version == CURRENT_SCHEMA_VERSION,
    {
        StoredEvent {
            vault_id,
            sequence,
            event_type,
            timestamp: now,
            data,
            schema_version: CURRENT_SCHEMA_VERSION,
        }
    }

    /// An event for appending, stamped with the current time.
    pub fn new(vault_id: String, sequence: u64, event_type: EventType, data: EventData) -> (e:
        Self)
        ensures
            e.vault_id == vault_id,
            e.sequence == sequence,
            e.event_type == event_type,
            e.data == data,
            e.schema_version == CURRENT_SCHEMA_VERSION,
    {
        StoredEvent::new_at(vault_id, sequence, event_type, data, utc_now())
    }

    /// Migrates the event's payload to the current schema version.
    pub fn migrate_to_current(self) -> (r: Self)
        requires
            self.data.wf(),
        ensures
            r@ == migrated(self@),
            r.data.wf(),
    {
        let mut e = self;
        if e.schema_version == CURRENT_SCHEMA_VERSION {
            return e;
        }
        if e.schema_version == 0 {
            let data = match e.data {
                EventData::Object(o) => {
                    let mut obj = o;
                    let ghost before = obj@;
                    match obj.remove("amount") {
                        Some(v) => {
                            obj.insert(String::from_str("balance_delta"), v);
                        },
                        None => {
                            proof {
                                assert(obj@ =~= before);
                            }
                        },
                    }
                    EventData::Object(obj)
                },
                EventData::Value(v) => EventData::Value(v),
            };
            e = StoredEvent {
                vault_id: e.vault_id,
                sequence: e.sequence,
                event_type: e.event_type,
                timestamp: e.timestamp,
                data,
                schema_version: 1,
            };
        }
        e
    }
}

// ---------------------------------------------------------------------------
// Errors
// ---------------------------------------------------------------------------

/// `serde_json::Error`, carried by `EventSourcingError::Serialization`.
#[verifier::external_type_specification]
#[verifier::external_body]
pub struct ExSerdeJsonError(serde_json::Error);

/// Errors of the event-sourcing layer.
#[derive(Debug)]
pub enum EventSourcingError {
    /// An internal lock was poisoned (raised by the service's shared
    /// state, never by the log itself).
    LockPoisoned,
    VaultNotFound(String),
    Serialization(serde_json::Error),
}

// ---------------------------------------------------------------------------
// The append-only log
// ---------------------------------------------------------------------------

/// The abstract values of a sequence of events.
pub open spec fn event_views(evs: Seq<StoredEvent>) -> Seq<StoredEventView> {
    evs.map_values(|e: StoredEvent| e@)
}

/// Selects the events of one vault.
pub open spec fn of_vault(vault_id: Seq<char>) -> spec_fn(StoredEventView) -> bool {
    |e: StoredEventView| e.vault_id == vault_id
}

/// Selects the events after a sequence number.
pub open spec fn after(sequence: u64) -> spec_fn(StoredEventView) -> bool {
    |e: StoredEventView| e.sequence > sequence
}

/// Selects the events up to (and including) a sequence number.
pub open spec fn up_to(sequence: u64) -> spec_fn(StoredEventView) -> bool {
    |e: StoredEventView| e.sequence <= sequence
}

/// Append-only event log.
///
/// Events are only ever appended; the events of each vault carry the
/// sequence numbers 1, 2, 3, ... in append order.
#[derive(Debug)]
pub struct EventLog {
    /// All stored events, in append order.
    events: Vec<StoredEvent>,
    /// Per-vault next sequence number (for vaults with events).
    sequences: Vec<(String, u64)>,
}

impl EventLog {
    /// All events, in append order.
    pub closed spec fn events(&self) -> Seq<StoredEventView> {
        event_views(self.events@)
    }

    /// The events of one vault, in append order.
    pub open spec fn vault_events(&self, vault_id: Seq<char>) -> Seq<StoredEventView> {
        self.events().filter(of_vault(vault_id))
    }

    /// The log's internal consistency: payloads are well formed, each
    /// vault's events are numbered 1, 2, 3, ... and each vault with events
    /// has its next number recorded once.
    pub closed spec fn wf(&self) -> bool {
        &&& forall|i: int| 0 <= i < self.events@.len() ==> (#[trigger] self.events@[i]).data.wf()
        &&& forall|v: Seq<char>, i: int|
            0 <= i < self.vault_events(v).len() ==> (#[trigger] self.vault_events(v)[i]).sequence
                == i + 1
        &&& forall|a: int, b: int|
            0 <= a < self.sequences@.len() && 0 <= b < self.sequences@.len() && a != b
                ==> #[trigger] self.sequences@[a].0@ != #[trigger] self.sequences@[b].0@
        &&& forall|a: int|
            0 <= a < self.sequences@.len() ==> (#[trigger] self.sequences@[a]).1 == self.vault_events(
                self.sequences@[a].0@,
            ).len() + 1
        &&& forall|v: Seq<char>|
            #![trigger self.vault_events(v)]
            self.vault_events(v).len() > 0 ==> exists|a: int|
                0 <= a < self.sequences@.len() && #[trigger] self.sequences@[a].0@ == v
    }

    /// An empty log.
    pub fn new() -> (l: Self)
        ensures
            l.wf(),
            l.events() == Seq::<StoredEventView>::empty(),
    {
        let l = EventLog { events: Vec::new(), sequences: Vec::new() };
        proof {
            assert(l.events() =~= Seq::<StoredEventView>::empty());
            assert forall|v: Seq<char>| #[trigger] l.vault_events(v).len() == 0 by {
                reveal(Seq::filter);
            }
        }
        l
    }

    proof fn lemma_push_filter(&self, e: StoredEventView, v: Seq<char>)
        ensures
            self.events().push(e).filter(of_vault(v)) == if e.vault_id == v {
                self.vault_events(v).push(e)
            } else {
                self.vault_events(v)
            },
    {
        self.events().lemma_filter_push(e, of_vault(v));
    }

    fn next_sequence_index(&self, vault_id: &str) -> (r: Option<usize>)
        requires
            self.wf(),
        ensures
            match r {
                Some(a) => a < self.sequences@.len() && self.sequences@[a as int].0@ == vault_id@,
                None => forall|a: int|
                    0 <= a < self.sequences@.len() ==> #[trigger] self.sequences@[a].0@
                        != vault_id@,
            },
    {
        let mut a: usize = 0;
        while a < self.sequences.len()
            invariant
                a <= self.sequences@.len(),
                forall|b: int| 0 <= b < a ==> #[trigger] self.sequences@[b].0@ != vault_id@,
            decreases self.sequences@.len() - a,
        {
            if str_eq(self.sequences[a].0.as_str(), vault_id) {
                return Some(a);
            }
            a += 1;
        }
        None
    }

    /// Appends an event for `vault_id`, stamped `now`, and returns the
    /// sequence number it was given: one more than the vault's number of
    /// events. This is the only way to add events.
    pub fn append_at(
        &mut self,
        vault_id: String,
        event_type: EventType,
        data: EventData,
        now: Timestamp,
    ) -> (r: Result<u64, EventSourcingError>)
        requires
            old(self).wf(),
            data.wf(),
            old(self).vault_events(vault_id@).len() + 2 <= u64::MAX,
        ensures
            final(self).wf(),
            r matches Ok(s) && s == old(self).vault_events(vault_id@).len() + 1,
            final(self).events() == old(self).events().push(
                StoredEventView {
                    vault_id: vault_id@,
                    sequence: (old(self).vault_events(vault_id@).len() + 1) as u64,
                    event_type,
                    timestamp: now,
                    data: data@,
                    schema_version: CURRENT_SCHEMA_VERSION,
                },
            ),
    {
        let ghost v = vault_id@;
        let ghost count = self.vault_events(v).len();
        let ghost mut idx: int = 0;
        let assigned: u64;
        match self.next_sequence_index(vault_id.as_str()) {
            Some(a) => {
                assigned = self.sequences[a].1;
                let key = self.sequences[a].0.clone();
                let ghost before = self.sequences@;
                self.sequences.set(a, (key, assigned + 1));
                proof {
                    idx = a as int;
                    assert forall|x: int, y: int|
                        0 <= x < self.sequences@.len() && 0 <= y < self.sequences@.len() && x != y
                            implies #[trigger] self.sequences@[x].0@
                        != #[trigger] self.sequences@[y].0@ by {
                        assert(before[x].0@ != before[y].0@);
                    }
                }
            },
            None => {
                proof {
                    if count > 0 {
                        let a = choose|a: int|
                            0 <= a < self.sequences@.len() && #[trigger] self.sequences@[a].0@ == v;
                        assert(self.sequences@[a].0@ != v);
                    }
                }
                assigned = 1;
                let key = vault_id.clone();
                let ghost before = self.sequences@;
                self.sequences.push((key, 2));
                proof {
                    idx = before.len() as int;
                    assert forall|x: int, y: int|
                        0 <= x < self.sequences@.len() && 0 <= y < self.sequences@.len() && x != y
                            implies #[trigger] self.sequences@[x].0@
                        != #[trigger] self.sequences@[y].0@ by {
                        if x < before.len() && y < before.len() {
                            assert(before[x].0@ != before[y].0@);
                        }
                    }
                }
            },
        }
        let ghost old_log_events = self.events();
        let event = StoredEvent::new_at(vault_id, assigned, event_type, data, now);
        let ghost ev = event@;
        self.events.push(event);
        proof {
            assert(self.events() =~= old_log_events.push(ev));
            assert forall|w: Seq<char>|
                #[trigger] self.vault_events(w) == if w == v {
                    old(self).vault_events(w).push(ev)
                } else {
                    old(self).vault_events(w)
                } by {
                old(self).lemma_push_filter(ev, w);
            }
            assert forall|i: int| 0 <= i < self.events@.len() implies (
            #[trigger] self.events@[i]).data.wf() by {
                if i < old(self).events@.len() {
                    assert(old(self).events@[i] == self.events@[i]);
                }
            }
            assert forall|w: Seq<char>, i: int|
                0 <= i < self.vault_events(w).len() implies (#[trigger] self.vault_events(
                w,
            )[i]).sequence == i + 1 by {
                if w == v {
                    if i < count {
                        assert(self.vault_events(w)[i] == old(self).vault_events(w)[i]);
                    }
                } else {
                    assert(self.vault_events(w)[i] == old(self).vault_events(w)[i]);
                }
            }
            assert forall|a: int| 0 <= a < self.sequences@.len() implies (
            #[trigger] self.sequences@[a]).1 == self.vault_events(self.sequences@[a].0@).len()
                + 1 by {
                let w = self.sequences@[a].0@;
                if w != v {
                    assert(old(self).sequences@[a] == self.sequences@[a]);
                }
            }
            assert forall|w: Seq<char>|
                #![trigger self.vault_events(w)]
                self.vault_events(w).len() > 0 implies exists|a: int|
                    0 <= a < self.sequences@.len() && #[trigger] self.sequences@[a].0@ == w by {
                if w == v {
                    assert(self.sequences@[idx].0@ == w);
                } else {
                    assert(old(self).vault_events(w).len() > 0);
                    let a = choose|a: int|
                        0 <= a < old(self).sequences@.len() && #[trigger] old(
                            self,
                        ).sequences@[a].0@ == w;
                    assert(self.sequences@[a].0@ == w);
                }
            }
        }
        Ok(assigned)
    }

    /// Appends an event for `vault_id`, stamped with the current time, and
    /// returns its sequence number (see `append_at`).
    pub fn append(&mut self, vault_id: String, event_type: EventType, data: EventData) -> (r:
        Result<u64, EventSourcingError>)
        requires
            old(self).wf(),
            data.wf(),
            old(self).vault_events(vault_id@).len() + 2 <= u64::MAX,
        ensures
            final(self).wf(),
            r matches Ok(s) && s == old(self).vault_events(vault_id@).len() + 1,
            final(self).events().len() == old(self).events().len() + 1,
            final(self).events().drop_last() == old(self).events(),
            final(self).events().last().vault_id == vault_id@,
            final(self).events().last().sequence == old(self).vault_events(vault_id@).len() + 1,
            final(self).events().last().event_type == event_type,
            final(self).events().last().data == data@,
            final(self).events().last().schema_version == CURRENT_SCHEMA_VERSION,
    {
        let now = utc_now();
        let r = self.append_at(vault_id, event_type, data, now);
        proof {
            assert(self.events().drop_last() =~= old(self).events());
        }
        r
    }

    /// All events of a vault, ordered by sequence number (which is also
    /// append order).
    pub fn events_for_vault(&self, vault_id: &str) -> (r: Result<
        Vec<StoredEvent>,
        EventSourcingError,
    >)
        requires
            self.wf(),
        ensures
            r matches Ok(evs) && event_views(evs@) == self.vault_events(
                vault_id@,
            ) && (forall|i: int| 0 <= i < evs@.len() ==> (#[trigger] evs@[i]).sequence == i + 1)
                && (forall|i: int| 0 <= i < evs@.len() ==> (#[trigger] evs@[i]).data.wf()),
    {
        let ghost v = vault_id@;
        let mut out: Vec<StoredEvent> = Vec::new();
        let mut i: usize = 0;
        while i < self.events.len()
            invariant
                self.wf(),
                v == vault_id@,
                i <= self.events@.len(),
                event_views(out@) == self.events().take(i as int).filter(
                    of_vault(v),
                ),
                forall|j: int| 0 <= j < out@.len() ==> (#[trigger] out@[j]).data.wf(),
            decreases self.events@.len() - i,
        {
            let ghost prefix = self.events().take(i as int);
            let ghost ev = self.events@[i as int]@;
            proof {
                assert(self.events().take(i + 1) =~= prefix.push(ev));
                prefix.lemma_filter_push(ev, of_vault(v));
                assert(of_vault(v)(ev) == (ev.vault_id == v));
            }
            if str_eq(self.events[i].vault_id.as_str(), vault_id) {
                let e = self.events[i].clone();
                let ghost before = out@;
                out.push(e);
                proof {
                    assert(event_views(out@) =~= event_views(before).push(ev));
                    assert(event_views(out@) == self.events().take(i + 1).filter(
                        of_vault(v),
                    ));
                }
            } else {
                proof {
                    assert(event_views(out@) == self.events().take(i + 1).filter(
                        of_vault(v),
                    ));
                }
            }
            i += 1;
        }
        proof {
            assert(self.events().take(self.events@.len() as int) =~= self.events());
            assert forall|j: int| 0 <= j < out@.len() implies (#[trigger] out@[j]).sequence == j
                + 1 by {
                assert(event_views(out@)[j] == self.vault_events(v)[j]);
            }
        }
        Ok(out)
    }

    /// Events of a vault with sequence number above `after_sequence`, in
    /// sequence order.
    pub fn events_after(&self, vault_id: &str, after_sequence: u64) -> (r: Result<
        Vec<StoredEvent>,
        EventSourcingError,
    >)
        requires
            self.wf(),
        ensures
            r matches Ok(evs) && event_views(evs@) == self.vault_events(
                vault_id@,
            ).filter(after(after_sequence)) && (forall|i: int|
                0 <= i < evs@.len() ==> (#[trigger] evs@[i]).data.wf()),
    {
        let all = match self.events_for_vault(vault_id) {
            Ok(all) => all,
            Err(e) => {
                return Err(e);
            },
        };
        let ghost all_view = event_views(all@);
        let mut out: Vec<StoredEvent> = Vec::new();
        let mut i: usize = 0;
        let n = all.len();
        proof {
            assert(all_view.take(0).filter(after(after_sequence)) =~= Seq::<
                StoredEventView,
            >::empty()) by {
                reveal(Seq::filter);
            }
        }
        while i < n
            invariant
                n == all@.len(),
                all_view == event_views(all@),
                i <= n,
                event_views(out@) == all_view.take(i as int).filter(
                    after(after_sequence),
                ),
                forall|j: int| 0 <= j < all@.len() ==> (#[trigger] all@[j]).data.wf(),
                forall|j: int| 0 <= j < out@.len() ==> (#[trigger] out@[j]).data.wf(),
            decreases n - i,
        {
            let ghost prefix = all_view.take(i as int);
            proof {
                assert(all_view.take(i + 1) =~= prefix.push(all_view[i as int]));
                prefix.lemma_filter_push(all_view[i as int], after(after_sequence));
            }
            if all[i].sequence > after_sequence {
                let e = all[i].clone();
                let ghost before = out@;
                out.push(e);
                proof {
                    assert(event_views(out@) =~= event_views(before).push(all_view[i as int]));
                }
            }
            i += 1;
        }
        proof {
            assert(all_view.take(n as int) =~= all_view);
        }
        Ok(out)
    }

    /// Total number of events across all vaults.
    pub fn len(&self) -> (r: Result<usize, EventSourcingError>)
        ensures
            r matches Ok(n) && n == self.events().len(),
    {
        Ok(self.events.len())
    }

    /// Appends an event given in the legacy `VaultEvent` format.
    pub fn import_legacy_event(&mut self, e: &VaultEvent) -> (r: Result<u64, EventSourcingError>)
        requires
            old(self).wf(),
            e.data.wf(),
            old(self).vault_events(e.vault_id@).len() + 2 <= u64::MAX,
        ensures
            final(self).wf(),
            r matches Ok(s) && s == old(self).vault_events(e.vault_id@).len() + 1,
            final(self).events().len() == old(self).events().len() + 1,
            final(self).events().drop_last() == old(self).events(),
            final(self).events().last().vault_id == e.vault_id@,
            final(self).events().last().event_type == e.event_type,
            final(self).events().last().data == e.data@,
    {
        self.append(e.vault_id.clone(), e.event_type, e.data.clone())
    }
}

/// Appending never changes or removes what the log held: the log before an
/// append is a prefix of the log after it.
pub proof fn lemma_append_only(before: Seq<StoredEventView>, after_append: Seq<StoredEventView>)
    requires
        after_append.len() == before.len() + 1,
        after_append.drop_last() == before,
    ensures
        forall|i: int| 0 <= i < before.len() ==> after_append[i] == before[i],
{
    assert forall|i: int| 0 <= i < before.len() implies after_append[i] == before[i] by {
        assert(after_append.drop_last()[i] == after_append[i]);
    }
}

/// Sequence numbers of a vault's events strictly increase in append order:
/// in a well-formed log each vault's events are numbered 1, 2, 3, ...
pub proof fn lemma_sequences_monotonic(log: &EventLog, vault_id: Seq<char>, i: int, j: int)
    requires
        log.wf(),
        0 <= i < j < log.vault_events(vault_id).len(),
    ensures
        log.vault_events(vault_id)[i].sequence < log.vault_events(vault_id)[j].sequence,
        log.vault_events(vault_id)[i].sequence == i + 1,
{
    assert(log.vault_events(vault_id)[i].sequence == i + 1);
    assert(log.vault_events(vault_id)[j].sequence == j + 1);
}

/// Applying two runs of events in turn is applying them together.
proof fn lemma_fold_split(state: SnapshotState, first: Seq<StoredEventView>, rest: Seq<StoredEventView>)
    ensures
        replay_fold(replay_fold(state, first), rest) == replay_fold(state, first + rest),
    decreases rest.len(),
{
    if rest.len() == 0 {
        assert(first + rest =~= first);
    } else {
        lemma_fold_split(state, first, rest.drop_last());
        assert((first + rest).drop_last() =~= first + rest.drop_last());
        assert((first + rest).last() == rest.last());
    }
}

/// When events are numbered 1, 2, 3, ..., those after sequence `s` are
/// those from position `s` on.
proof fn lemma_after_is_skip(evs: Seq<StoredEventView>, s: u64)
    requires
        forall|i: int| 0 <= i < evs.len() ==> (#[trigger] evs[i]).sequence == i + 1,
        s <= evs.len(),
    ensures
        evs.filter(after(s)) == evs.skip(s as int),
    decreases evs.len(),
{
    reveal(Seq::filter);
    if evs.len() == 0 {
        assert(evs.skip(s as int) =~= evs);
    } else if s == evs.len() {
        assert(evs.skip(s as int) =~= Seq::<StoredEventView>::empty());
        lemma_none_after(evs, s);
    } else {
        let init = evs.drop_last();
        assert forall|i: int| 0 <= i < init.len() implies (#[trigger] init[i]).sequence == i + 1 by {
            assert(init[i] == evs[i]);
        }
        lemma_after_is_skip(init, s);
        assert(evs.last().sequence == evs.len());
        assert(evs.skip(s as int) =~= init.skip(s as int).push(evs.last()));
    }
}

/// No event of a run numbered 1 to `s` comes after sequence `s`.
proof fn lemma_none_after(evs: Seq<StoredEventView>, s: u64)
    requires
        forall|i: int| 0 <= i < evs.len() ==> (#[trigger] evs[i]).sequence == i + 1,
        s == evs.len(),
    ensures
        evs.filter(after(s)).len() == 0,
    decreases evs.len(),
{
    reveal(Seq::filter);
    if evs.len() > 0 {
        let init = evs.drop_last();
        assert forall|i: int| 0 <= i < init.len() implies (#[trigger] init[i]).sequence == i + 1 by {
            assert(init[i] == evs[i]);
        }
        lemma_none_after_bounded(init, s);
    }
}

/// No event of a run numbered 1 to `n` comes after a sequence `s >= n`.
proof fn lemma_none_after_bounded(evs: Seq<StoredEventView>, s: u64)
    requires
        forall|i: int| 0 <= i < evs.len() ==> (#[trigger] evs[i]).sequence == i + 1,
        evs.len() <= s,
    ensures
        evs.filter(after(s)).len() == 0,
    decreases evs.len(),
{
    reveal(Seq::filter);
    if evs.len() > 0 {
        let init = evs.drop_last();
        assert forall|i: int| 0 <= i < init.len() implies (#[trigger] init[i]).sequence == i + 1 by {
            assert(init[i] == evs[i]);
        }
        lemma_none_after_bounded(init, s);
        assert(evs.last().sequence == evs.len());
    }
}

/// Replay from a snapshot agrees with replay from scratch: when a
/// snapshot taken at sequence `s` holds the state that a vault's first
/// `s` events give, applying the events after it gives the state that
/// applying all of the vault's events gives.
pub proof fn lemma_snapshot_replay_agrees(
    log: &EventLog,
    vault_id: Seq<char>,
    start: SnapshotState,
    snapshot_state: SnapshotState,
    s: u64,
)
    requires
        log.wf(),
        s <= log.vault_events(vault_id).len(),
        snapshot_state == replay_fold(start, log.vault_events(vault_id).take(s as int)),
    ensures
        replay_fold(snapshot_state, log.vault_events(vault_id).filter(after(s))) == replay_fold(
            start,
            log.vault_events(vault_id).filter(after(0)),
        ),
{
    let evs = log.vault_events(vault_id);
    assert forall|i: int| 0 <= i < evs.len() implies (#[trigger] evs[i]).sequence == i + 1 by {
        assert(log.vault_events(vault_id)[i].sequence == i + 1);
    }
    lemma_after_is_skip(evs, s);
    lemma_after_is_skip(evs, 0);
    assert(evs.skip(0) =~= evs);
    lemma_fold_split(start, evs.take(s as int), evs.skip(s as int));
    assert(evs.take(s as int) + evs.skip(s as int) =~= evs);
}

impl Default for EventLog {
    fn default() -> (l: Self)
        ensures
            l.wf(),
            l.events() == Seq::<StoredEventView>::empty(),
    {
        EventLog::new()
    }
}

// ---------------------------------------------------------------------------
// Snapshots
// ---------------------------------------------------------------------------

/// The vault fields reconstructed by replay.
#[derive(Copy, Clone, Debug, PartialEq, Eq, Structural)]
pub struct SnapshotState {
    pub balance: i128,
    pub status: VaultStatus,
    pub last_check_in: Timestamp,
    pub ttl_remaining: Option<u64>,
}

impl SnapshotState {
    /// The state of `vault` as it stands.
    pub fn initial(vault: &Vault) -> (s: Self)
        ensures
            s.balance == vault.balance,
            s.status == vault.status,
            s.last_check_in == vault.last_check_in,
            s.ttl_remaining == vault.ttl_remaining,
    {
        SnapshotState {
            balance: vault.balance,
            status: vault.status,
            last_check_in: vault.last_check_in,
            ttl_remaining: vault.ttl_remaining,
        }
    }
}

/// A point-in-time snapshot of a vault's state.
#[derive(Debug)]
pub struct VaultSnapshot {
    pub vault_id: String,
    /// Sequence number of the last event applied before the snapshot;
    /// replay resumes with the events after it.
    pub snapshot_sequence: u64,
    pub taken_at: Timestamp,
    pub state: SnapshotState,
}

impl Clone for VaultSnapshot {
    fn clone(&self) -> (r: Self)
        ensures
            r == *self,
    {
        VaultSnapshot {
            vault_id: self.vault_id.clone(),
            snapshot_sequence: self.snapshot_sequence,
            taken_at: self.taken_at,
            state: self.state,
        }
    }
}

/// Snapshot store keyed by vault ID: at most one snapshot per vault.
#[derive(Debug)]
pub struct SnapshotStore {
    snapshots: Vec<VaultSnapshot>,
}

impl SnapshotStore {
    /// No vault has two snapshots.
    pub closed spec fn wf(&self) -> bool {
        forall|i: int, j: int|
            0 <= i < self.snapshots@.len() && 0 <= j < self.snapshots@.len() && i != j
                ==> #[trigger] self.snapshots@[i].vault_id@ != #[trigger] self.snapshots@[j].vault_id@
    }

    /// The snapshot kept for a vault, if any.
    pub closed spec fn snapshot(&self, vault_id: Seq<char>) -> Option<VaultSnapshot> {
        if exists|i: int|
            0 <= i < self.snapshots@.len() && #[trigger] self.snapshots@[i].vault_id@ == vault_id {
            Some(
                self.snapshots@[choose|i: int|
                    0 <= i < self.snapshots@.len() && #[trigger] self.snapshots@[i].vault_id@
                        == vault_id],
            )
        } else {
            None
        }
    }

    proof fn lemma_snapshot_at(&self, i: int)
        requires
            self.wf(),
            0 <= i < self.snapshots@.len(),
        ensures
            self.snapshot(self.snapshots@[i].vault_id@) == Some(self.snapshots@[i]),
    {
        let v = self.snapshots@[i].vault_id@;
        assert(exists|j: int| 0 <= j < self.snapshots@.len() && #[trigger] self.snapshots@[j].vault_id@ == v);
        let c = choose|j: int| 0 <= j < self.snapshots@.len() && #[trigger] self.snapshots@[j].vault_id@ == v;
        if c != i {
            assert(self.snapshots@[c].vault_id@ != self.snapshots@[i].vault_id@);
        }
    }

    /// An empty store.
    pub fn new() -> (s: Self)
        ensures
            s.wf(),
            forall|v: Seq<char>| s.snapshot(v) is None,
    {
        SnapshotStore { snapshots: Vec::new() }
    }

    fn find(&self, vault_id: &str) -> (r: Option<usize>)
        requires
            self.wf(),
        ensures
            match r {
                Some(i) => i < self.snapshots@.len() && self.snapshots@[i as int].vault_id@
                    == vault_id@,
                None => self.snapshot(vault_id@) is None,
            },
    {
        let mut i: usize = 0;
        while i < self.snapshots.len()
            invariant
                i <= self.snapshots@.len(),
                forall|j: int| 0 <= j < i ==> #[trigger] self.snapshots@[j].vault_id@ != vault_id@,
            decreases self.snapshots@.len() - i,
        {
            if str_eq(self.snapshots[i].vault_id.as_str(), vault_id) {
                return Some(i);
            }
            i += 1;
        }
        None
    }

    /// Keeps `snapshot`, replacing any previous one for its vault.
    pub fn save(&mut self, snapshot: VaultSnapshot) -> (r: Result<(), EventSourcingError>)
        requires
            old(self).wf(),
        ensures
            final(self).wf(),
            r is Ok,
            final(self).snapshot(snapshot.vault_id@) == Some(snapshot),
            forall|v: Seq<char>|
                v != snapshot.vault_id@ ==> #[trigger] final(self).snapshot(v) == old(
                    self,
                ).snapshot(v),
    {
        let ghost snap = snapshot;
        let ghost before = self.snapshots@;
        let ghost n = before.len() as int;
        let ghost mut idx: int = 0;
        match self.find(snapshot.vault_id.as_str()) {
            Some(i) => {
                self.snapshots.set(i, snapshot);
                proof {
                    idx = i as int;
                }
            },
            None => {
                self.snapshots.push(snapshot);
                proof {
                    idx = n;
                    assert forall|j: int| 0 <= j < n implies #[trigger] before[j].vault_id@
                        != snap.vault_id@ by {
                        if before[j].vault_id@ == snap.vault_id@ {
                            assert(old(self).snapshot(snap.vault_id@) is Some);
                        }
                    }
                }
            },
        }
        proof {
            assert(self.snapshots@[idx] == snap);
            assert forall|a: int, b: int|
                0 <= a < self.snapshots@.len() && 0 <= b < self.snapshots@.len() && a != b
                    implies #[trigger] self.snapshots@[a].vault_id@
                != #[trigger] self.snapshots@[b].vault_id@ by {
                if a != idx && b != idx {
                    assert(before[a].vault_id@ != before[b].vault_id@);
                } else if a == idx && b < n {
                    assert(before[b].vault_id@ != snap.vault_id@ || b == idx);
                } else if b == idx && a < n {
                    assert(before[a].vault_id@ != snap.vault_id@ || a == idx);
                }
            }
            self.lemma_snapshot_at(idx);
            assert forall|v: Seq<char>| v != snap.vault_id@ implies #[trigger] self.snapshot(v)
                == old(self).snapshot(v) by {
                if exists|j: int| 0 <= j < self.snapshots@.len() && #[trigger] self.snapshots@[j].vault_id@ == v {
                    let j = choose|j: int| 0 <= j < self.snapshots@.len() && #[trigger] self.snapshots@[j].vault_id@ == v;
                    self.lemma_snapshot_at(j);
                    assert(j != idx);
                    assert(before[j] == self.snapshots@[j]);
                    old(self).lemma_snapshot_at(j);
                } else if exists|j: int| 0 <= j < before.len() && #[trigger] before[j].vault_id@ == v {
                    let j = choose|j: int| 0 <= j < before.len() && #[trigger] before[j].vault_id@ == v;
                    assert(self.snapshots@[j].vault_id@ == v);
                }
            }
        }
        Ok(())
    }

    /// The latest snapshot of a vault, if any.
    pub fn get(&self, vault_id: &str) -> (r: Result<Option<VaultSnapshot>, EventSourcingError>)
        requires
            self.wf(),
        ensures
            r matches Ok(s) && s == self.snapshot(vault_id@),
    {
        match self.find(vault_id) {
            Some(i) => {
                proof {
                    self.lemma_snapshot_at(i as int);
                }
                Ok(Some(self.snapshots[i].clone()))
            },
            None => Ok(None),
        }
    }

    /// Takes a snapshot of `vault` at `last_sequence`, stamped `now`.
    pub fn take_snapshot_at(&mut self, vault: &Vault, last_sequence: u64, now: Timestamp) -> (r:
        Result<(), EventSourcingError>)
        requires
            old(self).wf(),
        ensures
            final(self).wf(),
            r is Ok,
            final(self).snapshot(vault.id@) matches Some(s) && s.vault_id@ == vault.id@
                && s.snapshot_sequence == last_sequence && s.taken_at == now && s.state
                == (SnapshotState {
                balance: vault.balance,
                status: vault.status,
                last_check_in: vault.last_check_in,
                ttl_remaining: vault.ttl_remaining,
            }),
            forall|v: Seq<char>|
                v != vault.id@ ==> #[trigger] final(self).snapshot(v) == old(self).snapshot(v),
    {
        let snapshot = VaultSnapshot {
            vault_id: vault.id.clone(),
            snapshot_sequence: last_sequence,
            taken_at: now,
            state: SnapshotState::initial(vault),
        };
        self.save(snapshot)
    }

    /// Takes a snapshot of `vault` at `last_sequence`, stamped with the
    /// current time.
    pub fn take_snapshot(&mut self, vault: &Vault, last_sequence: u64) -> (r: Result<
        (),
        EventSourcingError,
    >)
        requires
            old(self).wf(),
        ensures
            final(self).wf(),
            r is Ok,
            final(self).snapshot(vault.id@) matches Some(s) && s.vault_id@ == vault.id@
                && s.snapshot_sequence == last_sequence && s.state == (SnapshotState {
                balance: vault.balance,
                status: vault.status,
                last_check_in: vault.last_check_in,
                ttl_remaining: vault.ttl_remaining,
            }),
            forall|v: Seq<char>|
                v != vault.id@ ==> #[trigger] final(self).snapshot(v) == old(self).snapshot(v),
    {
        self.take_snapshot_at(vault, last_sequence, utc_now())
    }
}

// ---------------------------------------------------------------------------
// Event application
// ---------------------------------------------------------------------------

/// The status a `status` field names; an unknown name keeps `current`.
pub open spec fn parsed_status(name: Seq<char>, current: VaultStatus) -> VaultStatus {
    if name == "active"@ {
        VaultStatus::Active
    } else if name == "expired"@ {
        VaultStatus::Expired
    } else if name == "released"@ {
        VaultStatus::Released
    } else if name == "paused"@ {
        VaultStatus::Paused
    } else {
        current
    }
}

/// `state` with `ttl_remaining` set from the event's `ttl_remaining` field,
/// when it holds a non-negative integer.
pub open spec fn with_ttl(state: SnapshotState, e: StoredEventView) -> SnapshotState {
    match data_u64(e.data, "ttl_remaining"@) {
        Some(t) => SnapshotState { ttl_remaining: Some(t), ..state },
        None => state,
    }
}

/// The state after applying one event.
pub open spec fn applied(state: SnapshotState, e: StoredEventView) -> SnapshotState {
    match e.event_type {
        EventType::Deposit => match data_i64(e.data, "balance_delta"@) {
            Some(d) => SnapshotState { balance: (state.balance + d) as i128, ..state },
            None => state,
        },
        EventType::Withdrawal => match data_i64(e.data, "balance_delta"@) {
            Some(d) => SnapshotState { balance: (state.balance - d) as i128, ..state },
            None => state,
        },
        EventType::CheckIn => with_ttl(SnapshotState { last_check_in: e.timestamp, ..state }, e),
        EventType::TtlUpdate => with_ttl(state, e),
        EventType::StatusChange => match data_str(e.data, "status"@) {
            Some(name) => SnapshotState { status: parsed_status(name, state.status), ..state },
            None => state,
        },
        EventType::Release => SnapshotState {
            status: VaultStatus::Released,
            balance: 0,
            ..state
        },
    }
}

/// The balance after applying one event, as an unbounded integer.
pub open spec fn balance_after(balance: int, e: StoredEventView) -> int {
    match e.event_type {
        EventType::Deposit => match data_i64(e.data, "balance_delta"@) {
            Some(d) => balance + d,
            None => balance,
        },
        EventType::Withdrawal => match data_i64(e.data, "balance_delta"@) {
            Some(d) => balance - d,
            None => balance,
        },
        EventType::Release => 0,
        _ => balance,
    }
}

/// Whether a balance fits the `i128` it is kept in.
pub open spec fn fits_i128(balance: int) -> bool {
    i128::MIN <= balance <= i128::MAX
}

/// The state after applying `events` in order, each migrated first.
pub open spec fn replay_fold(state: SnapshotState, events: Seq<StoredEventView>) -> SnapshotState
    decreases events.len(),
{
    if events.len() == 0 {
        state
    } else {
        applied(replay_fold(state, events.drop_last()), migrated(events.last()))
    }
}

/// The balance after applying `events` in order, as an unbounded integer.
pub open spec fn balance_fold(balance: int, events: Seq<StoredEventView>) -> int
    decreases events.len(),
{
    if events.len() == 0 {
        balance
    } else {
        balance_after(balance_fold(balance, events.drop_last()), migrated(events.last()))
    }
}

/// Whether applying `events` in order keeps every balance within `i128`.
pub open spec fn balance_fold_ok(balance: int, events: Seq<StoredEventView>) -> bool
    decreases events.len(),
{
    if events.len() == 0 {
        true
    } else {
        balance_fold_ok(balance, events.drop_last()) && fits_i128(
            balance_after(balance_fold(balance, events.drop_last()), migrated(events.last())),
        )
    }
}

proof fn lemma_fold_balance(state: SnapshotState, events: Seq<StoredEventView>)
    requires
        balance_fold_ok(state.balance as int, events),
    ensures
        replay_fold(state, events).balance == balance_fold(state.balance as int, events),
    decreases events.len(),
{
    if events.len() > 0 {
        lemma_fold_balance(state, events.drop_last());
    }
}

proof fn lemma_fold_ok_prefix(balance: int, events: Seq<StoredEventView>, k: int)
    requires
        balance_fold_ok(balance, events),
        0 <= k <= events.len(),
    ensures
        balance_fold_ok(balance, events.take(k)),
    decreases events.len(),
{
    if k == events.len() {
        assert(events.take(k) =~= events);
    } else {
        assert(events.drop_last().take(k) =~= events.take(k));
        lemma_fold_ok_prefix(balance, events.drop_last(), k);
    }
}

/// Applies one event to `state`.
pub fn apply_event(state: &mut SnapshotState, event: &StoredEvent)
    requires
        event.data.wf(),
        fits_i128(balance_after(old(state).balance as int, event@)),
    ensures
        *final(state) == applied(*old(state), event@),
        event.event_type == EventType::StatusChange ==> {
            let name = data_str(event@.data, "status"@);
            &&& name == Some("active"@) ==> final(state).status == VaultStatus::Active
            &&& name == Some("expired"@) ==> final(state).status == VaultStatus::Expired
            &&& name == Some("released"@) ==> final(state).status == VaultStatus::Released
            &&& name == Some("paused"@) ==> final(state).status == VaultStatus::Paused
            &&& final(state).balance == old(state).balance
        },
{
    proof {
        lemma_names_differ();
    }
    match event.event_type {
        EventType::Deposit => {
            if let Some(v) = event.data.get("balance_delta") {
                if let Some(delta) = v.as_i64() {
                    state.balance = state.balance + delta as i128;
                }
            }
        },
        EventType::Withdrawal => {
            if let Some(v) = event.data.get("balance_delta") {
                if let Some(delta) = v.as_i64() {
                    state.balance = state.balance - delta as i128;
                }
            }
        },
        EventType::CheckIn => {
            state.last_check_in = event.timestamp;
            if let Some(v) = event.data.get("ttl_remaining") {
                if let Some(ttl) = v.as_u64() {
                    state.ttl_remaining = Some(ttl);
                }
            }
        },
        EventType::TtlUpdate => {
            if let Some(v) = event.data.get("ttl_remaining") {
                if let Some(ttl) = v.as_u64() {
                    state.ttl_remaining = Some(ttl);
                }
            }
        },
        EventType::StatusChange => {
            if let Some(v) = event.data.get("status") {
                if let Some(s) = v.as_str() {
                    state.status = if str_eq(s, "active") {
                        VaultStatus::Active
                    } else if str_eq(s, "expired") {
                        VaultStatus::Expired
                    } else if str_eq(s, "released") {
                        VaultStatus::Released
                    } else if str_eq(s, "paused") {
                        VaultStatus::Paused
                    } else {
                        state.status
                    };
                }
            }
        },
        EventType::Release => {
            state.status = VaultStatus::Released;
            state.balance = 0;
        },
    }
}

// ---------------------------------------------------------------------------
// Replay
// ---------------------------------------------------------------------------

/// Result of a replay.
#[derive(Debug)]
pub struct ReplayedState {
    pub vault_id: String,
    pub state: SnapshotState,
    /// Sequence number of the last event applied (the baseline's when none
    /// was).
    pub last_sequence: u64,
    /// Number of events applied.
    pub events_applied: usize,
}

/// The state a replay starts from when the vault has no usable snapshot.
pub open spec fn initial_state(now: Timestamp) -> SnapshotState {
    SnapshotState {
        balance: 0,
        status: VaultStatus::Active,
        last_check_in: now,
        ttl_remaining: None,
    }
}

/// Replay engine: rebuilds vault state from a snapshot and the events
/// after it.
pub struct EventReplayer<'a> {
    log: &'a EventLog,
    snapshots: &'a SnapshotStore,
}

impl<'a> EventReplayer<'a> {
    /// A replayer over `log` and `snapshots`.
    pub fn new(log: &'a EventLog, snapshots: &'a SnapshotStore) -> (r: Self)
        ensures
            r.log() == log,
            r.snapshots() == snapshots,
    {
        EventReplayer { log, snapshots }
    }

    /// The log replayed from.
    pub closed spec fn log(&self) -> &'a EventLog {
        self.log
    }

    /// The snapshots replayed from.
    pub closed spec fn snapshots(&self) -> &'a SnapshotStore {
        self.snapshots
    }

    /// Baseline of a full replay: the vault's snapshot, or the initial
    /// state (stamped `now`) at sequence 0.
    pub open spec fn baseline(&self, vault_id: Seq<char>, now: Timestamp) -> (SnapshotState, u64) {
        match self.snapshots().snapshot(vault_id) {
            Some(snap) => (snap.state, snap.snapshot_sequence),
            None => (initial_state(now), 0),
        }
    }

    /// Baseline of a replay up to `target`: the vault's snapshot when it
    /// was taken at or before `target`, else the initial state at 0.
    pub open spec fn baseline_to(&self, vault_id: Seq<char>, target: u64, now: Timestamp) -> (
        SnapshotState,
        u64,
    ) {
        match self.snapshots().snapshot(vault_id) {
            Some(snap) => if snap.snapshot_sequence <= target {
                (snap.state, snap.snapshot_sequence)
            } else {
                (initial_state(now), 0)
            },
            None => (initial_state(now), 0),
        }
    }

    /// The events a replay from sequence `start` applies.
    pub open spec fn events_from(&self, vault_id: Seq<char>, start: u64) -> Seq<StoredEventView> {
        self.log().vault_events(vault_id).filter(after(start))
    }

    /// The events a replay from `start` up to `target` applies.
    pub open spec fn events_between(&self, vault_id: Seq<char>, start: u64, target: u64) -> Seq<
        StoredEventView,
    > {
        self.events_from(vault_id, start).filter(up_to(target))
    }

    /// Whether a full replay keeps every balance within `i128` (the
    /// baseline's balance does not depend on the time).
    pub open spec fn can_replay(&self, vault_id: Seq<char>) -> bool {
        let base = self.baseline(vault_id, Timestamp { secs: 0, nanos: 0 });
        balance_fold_ok(base.0.balance as int, self.events_from(vault_id, base.1))
    }

    /// Whether a replay up to `target` keeps every balance within `i128`.
    pub open spec fn can_replay_to(&self, vault_id: Seq<char>, target: u64) -> bool {
        let base = self.baseline_to(vault_id, target, Timestamp { secs: 0, nanos: 0 });
        balance_fold_ok(base.0.balance as int, self.events_between(vault_id, base.1, target))
    }

    /// Applies `events` to `state` in order, migrating each first.
    fn apply_all(state: SnapshotState, events: &Vec<StoredEvent>) -> (r: SnapshotState)
        requires
            forall|i: int| 0 <= i < events@.len() ==> (#[trigger] events@[i]).data.wf(),
            balance_fold_ok(state.balance as int, event_views(events@)),
        ensures
            r == replay_fold(state, event_views(events@)),
    {
        let ghost es = event_views(events@);
        let mut current = state;
        let mut k: usize = 0;
        while k < events.len()
            invariant
                es == event_views(events@),
                k <= events@.len(),
                forall|i: int| 0 <= i < events@.len() ==> (#[trigger] events@[i]).data.wf(),
                balance_fold_ok(state.balance as int, es),
                current == replay_fold(state, es.take(k as int)),
            decreases events@.len() - k,
        {
            let raw = events[k].clone();
            let event = raw.migrate_to_current();
            proof {
                assert(es.take(k + 1).drop_last() =~= es.take(k as int));
                assert(es.take(k + 1).last() == es[k as int]);
                lemma_fold_ok_prefix(state.balance as int, es, k + 1);
                lemma_fold_ok_prefix(state.balance as int, es, k as int);
                lemma_fold_balance(state, es.take(k as int));
            }
            apply_event(&mut current, &event);
            k += 1;
        }
        proof {
            assert(es.take(events@.len() as int) =~= es);
        }
        current
    }

    /// Reconstructs the latest state of a vault: the snapshot (if any),
    /// then the events after it, in order; `now` stamps the initial state
    /// when there is no snapshot.
    pub fn replay_at(&self, vault_id: &str, now: Timestamp) -> (r: Result<
        ReplayedState,
        EventSourcingError,
    >)
        requires
            self.log().wf(),
            self.snapshots().wf(),
            self.can_replay(vault_id@),
        ensures
            r matches Ok(rs) && {
                let base = self.baseline(vault_id@, now);
                let evs = self.events_from(vault_id@, base.1);
                &&& rs.vault_id@ == vault_id@
                &&& rs.state == replay_fold(base.0, evs)
                &&& rs.last_sequence == if evs.len() == 0 {
                    base.1
                } else {
                    evs.last().sequence
                }
                &&& rs.events_applied == evs.len()
            },
    {
        let (state, start_seq) = match self.snapshots.get(vault_id) {
            Ok(Some(snap)) => (snap.state, snap.snapshot_sequence),
            Ok(None) => (
                SnapshotState {
                    balance: 0,
                    status: VaultStatus::Active,
                    last_check_in: now,
                    ttl_remaining: None,
                },
                0,
            ),
            Err(e) => {
                return Err(e);
            },
        };
        let events = match self.log.events_after(vault_id, start_seq) {
            Ok(evs) => evs,
            Err(e) => {
                return Err(e);
            },
        };
        let event_count = events.len();
        let last_sequence = if event_count > 0 {
            events[event_count - 1].sequence
        } else {
            start_seq
        };
        let state = Self::apply_all(state, &events);
        Ok(
            ReplayedState {
                vault_id: String::from_str(vault_id),
                state,
                last_sequence,
                events_applied: event_count,
            },
        )
    }

    /// Reconstructs the latest state of a vault (see `replay_at`), with
    /// the current time stamping the initial state.
    pub fn replay(&self, vault_id: &str) -> (r: Result<ReplayedState, EventSourcingError>)
        requires
            self.log().wf(),
            self.snapshots().wf(),
            self.can_replay(vault_id@),
        ensures
            r matches Ok(rs) && exists|now: Timestamp|
                {
                    let base = #[trigger] self.baseline(vault_id@, now);
                    let evs = self.events_from(vault_id@, base.1);
                    &&& rs.vault_id@ == vault_id@
                    &&& rs.state == replay_fold(base.0, evs)
                    &&& rs.last_sequence == if evs.len() == 0 {
                        base.1
                    } else {
                        evs.last().sequence
                    }
                    &&& rs.events_applied == evs.len()
                },
    {
        let now = utc_now();
        let r = self.replay_at(vault_id, now);
        proof {
            let _ = self.baseline(vault_id@, now);
        }
        r
    }

    /// Replays up to (and including) sequence `target_sequence`: the
    /// snapshot is used only when taken at or before it.
    pub fn replay_to_at(&self, vault_id: &str, target_sequence: u64, now: Timestamp) -> (r: Result<
        ReplayedState,
        EventSourcingError,
    >)
        requires
            self.log().wf(),
            self.snapshots().wf(),
            self.can_replay_to(vault_id@, target_sequence),
        ensures
            r matches Ok(rs) && {
                let base = self.baseline_to(vault_id@, target_sequence, now);
                let evs = self.events_between(vault_id@, base.1, target_sequence);
                &&& rs.vault_id@ == vault_id@
                &&& rs.state == replay_fold(base.0, evs)
                &&& rs.last_sequence == if evs.len() == 0 {
                    base.1
                } else {
                    evs.last().sequence
                }
                &&& rs.events_applied == evs.len()
            },
            r matches Ok(rs) && rs.last_sequence <= target_sequence,
    {
        let (state, start_seq) = match self.snapshots.get(vault_id) {
            Ok(Some(snap)) => {
                if snap.snapshot_sequence <= target_sequence {
                    (snap.state, snap.snapshot_sequence)
                } else {
                    (
                        SnapshotState {
                            balance: 0,
                            status: VaultStatus::Active,
                            last_check_in: now,
                            ttl_remaining: None,
                        },
                        0,
                    )
                }
            },
            Ok(None) => (
                SnapshotState {
                    balance: 0,
                    status: VaultStatus::Active,
                    last_check_in: now,
                    ttl_remaining: None,
                },
                0,
            ),
            Err(e) => {
                return Err(e);
            },
        };
        let events = match self.log.events_after(vault_id, start_seq) {
            Ok(evs) => evs,
            Err(e) => {
                return Err(e);
            },
        };
        let ghost all_view = event_views(events@);
        let mut filtered: Vec<StoredEvent> = Vec::new();
        let mut i: usize = 0;
        proof {
            assert(all_view.take(0).filter(up_to(target_sequence)) =~= Seq::<
                StoredEventView,
            >::empty()) by {
                reveal(Seq::filter);
            }
        }
        while i < events.len()
            invariant
                all_view == event_views(events@),
                i <= events@.len(),
                event_views(filtered@) == all_view.take(i as int).filter(up_to(target_sequence)),
                forall|j: int| 0 <= j < events@.len() ==> (#[trigger] events@[j]).data.wf(),
                forall|j: int| 0 <= j < filtered@.len() ==> (#[trigger] filtered@[j]).data.wf(),
            decreases events@.len() - i,
        {
            let ghost prefix = all_view.take(i as int);
            proof {
                assert(all_view.take(i + 1) =~= prefix.push(all_view[i as int]));
                prefix.lemma_filter_push(all_view[i as int], up_to(target_sequence));
            }
            if events[i].sequence <= target_sequence {
                let e = events[i].clone();
                let ghost before = filtered@;
                filtered.push(e);
                proof {
                    assert(event_views(filtered@) =~= event_views(before).push(all_view[i as int]));
                }
            }
            i += 1;
        }
        proof {
            assert(all_view.take(events@.len() as int) =~= all_view);
        }
        let event_count = filtered.len();
        let last_sequence = if event_count > 0 {
            filtered[event_count - 1].sequence
        } else {
            start_seq
        };
        let state = Self::apply_all(state, &filtered);
        Ok(
            ReplayedState {
                vault_id: String::from_str(vault_id),
                state,
                last_sequence,
                events_applied: event_count,
            },
        )
    }

    /// Replays up to `target_sequence` (see `replay_to_at`), with the
    /// current time stamping the initial state.
    pub fn replay_to(&self, vault_id: &str, target_sequence: u64) -> (r: Result<
        ReplayedState,
        EventSourcingError,
    >)
        requires
            self.log().wf(),
            self.snapshots().wf(),
            self.can_replay_to(vault_id@, target_sequence),
        ensures
            r matches Ok(rs) && exists|now: Timestamp|
                {
                    let base = #[trigger] self.baseline_to(vault_id@, target_sequence, now);
                    let evs = self.events_between(vault_id@, base.1, target_sequence);
                    &&& rs.vault_id@ == vault_id@
                    &&& rs.state == replay_fold(base.0, evs)
                    &&& rs.last_sequence == if evs.len() == 0 {
                        base.1
                    } else {
                        evs.last().sequence
                    }
                    &&& rs.events_applied == evs.len()
                },
    {
        let now = utc_now();
        let r = self.replay_to_at(vault_id, target_sequence, now);
        proof {
            let _ = self.baseline_to(vault_id@, target_sequence, now);
        }
        r
    }
}

// ---------------------------------------------------------------------------
// Shared state
// ---------------------------------------------------------------------------

/// All event-sourcing state of the service.
#[derive(Debug)]
pub struct EventSourcingState {
    pub log: EventLog,
    pub snapshots: SnapshotStore,
}

impl EventSourcingState {
    /// An empty log and snapshot store.
    pub fn new() -> (s: Self)
        ensures
            s.log.wf(),
            s.snapshots.wf(),
            s.log.events() == Seq::<StoredEventView>::empty(),
            forall|v: Seq<char>| s.snapshots.snapshot(v) is None,
    {
        EventSourcingState { log: EventLog::new(), snapshots: SnapshotStore::new() }
    }

    /// A replayer over this state.
    pub fn replayer(&self) -> (r: EventReplayer<'_>)
        ensures
            r.log() == &self.log,
            r.snapshots() == &self.snapshots,
    {
        EventReplayer::new(&self.log, &self.snapshots)
    }
}

impl Default for EventSourcingState {
    fn default() -> (s: Self)
        ensures
            s.log.wf(),
            s.snapshots.wf(),
            s.log.events() == Seq::<StoredEventView>::empty(),
    {
        EventSourcingState::new()
    }
}


// ---------------------------------------------------------------------------
// Laws relating appends and replays
// ---------------------------------------------------------------------------

/// A filter whose predicate every item meets keeps them all.
proof fn lemma_filter_all_pass(s: Seq<StoredEventView>, g: spec_fn(StoredEventView) -> bool)
    requires
        forall|i: int| 0 <= i < s.len() ==> g(#[trigger] s[i]),
    ensures
        s.filter(g) == s,
    decreases s.len(),
{
    reveal(Seq::filter);
    if s.len() > 0 {
        assert forall|i: int| 0 <= i < s.drop_last().len() implies g(#[trigger] s.drop_last()[i]) by {
            assert(s.drop_last()[i] == s[i]);
        }
        lemma_filter_all_pass(s.drop_last(), g);
        assert(g(s[s.len() - 1]));
        assert(s.drop_last().push(s.last()) =~= s);
    }
}

/// Filtering keeps a bound that every item's sequence number meets.
proof fn lemma_filter_keeps_bound(s: Seq<StoredEventView>, f: spec_fn(StoredEventView) -> bool, target: u64)
    requires
        forall|i: int| 0 <= i < s.len() ==> (#[trigger] s[i]).sequence <= target,
    ensures
        forall|i: int| 0 <= i < s.filter(f).len() ==> (#[trigger] s.filter(f)[i]).sequence <= target,
    decreases s.len(),
{
    reveal(Seq::filter);
    if s.len() > 0 {
        let init = s.drop_last();
        assert forall|i: int| 0 <= i < init.len() implies (#[trigger] init[i]).sequence <= target by {
            assert(init[i] == s[i]);
        }
        lemma_filter_keeps_bound(init, f, target);
        assert(s.last().sequence <= target);
    }
}

/// Replaying up to a sequence number at or past every event of the vault
/// (and not before its snapshot) is a full replay: the same baseline, the
/// same events applied, and so the same state, last sequence and count.
pub proof fn lemma_replay_to_past_end_is_replay(
    r: &EventReplayer,
    vault_id: Seq<char>,
    target: u64,
    now: Timestamp,
)
    requires
        forall|i: int|
            0 <= i < r.log().vault_events(vault_id).len() ==> (#[trigger] r.log().vault_events(
                vault_id,
            )[i]).sequence <= target,
        r.snapshots().snapshot(vault_id) matches Some(snap) ==> snap.snapshot_sequence <= target,
    ensures
        r.baseline_to(vault_id, target, now) == r.baseline(vault_id, now),
        r.events_between(vault_id, r.baseline(vault_id, now).1, target) == r.events_from(
            vault_id,
            r.baseline(vault_id, now).1,
        ),
        r.can_replay_to(vault_id, target) == r.can_replay(vault_id),
{
    let t0 = Timestamp { secs: 0, nanos: 0 };
    let evs = r.log().vault_events(vault_id);
    let start = r.baseline(vault_id, now).1;
    assert(r.baseline(vault_id, t0).1 == start);
    let from = evs.filter(after(start));
    lemma_filter_keeps_bound(evs, after(start), target);
    lemma_filter_all_pass(from, up_to(target));
}

/// An append of an event of vault `v` adds it after `v`'s events and
/// leaves every other vault's events as they were. With `append_at`
/// numbering the new event one past the vault's count, a vault's events
/// after `k` appends to it are numbered 1 to `k`.
pub proof fn lemma_append_touches_one_vault(
    events: Seq<StoredEventView>,
    e: StoredEventView,
    w: Seq<char>,
)
    ensures
        events.push(e).filter(of_vault(w)) == if e.vault_id == w {
            events.filter(of_vault(w)).push(e)
        } else {
            events.filter(of_vault(w))
        },
{
    reveal(Seq::filter);
    assert(events.push(e).drop_last() =~= events);
}


/// The status names, and the field names a migration touches, are all
/// different texts (their first letters differ).
proof fn lemma_names_differ()
    ensures
        "active"@ != "expired"@,
        "active"@ != "released"@,
        "active"@ != "paused"@,
        "expired"@ != "released"@,
        "expired"@ != "paused"@,
        "released"@ != "paused"@,
        "status"@ != "amount"@,
        "status"@ != "balance_delta"@,
{
    reveal_strlit("active");
    reveal_strlit("expired");
    reveal_strlit("released");
    reveal_strlit("paused");
    reveal_strlit("status");
    reveal_strlit("amount");
    reveal_strlit("balance_delta");
    assert("active"@[0] == 'a');
    assert("expired"@[0] == 'e');
    assert("released"@[0] == 'r');
    assert("paused"@[0] == 'p');
    assert("status"@[0] == 's');
    assert("amount"@[0] == 'a');
    assert("balance_delta"@[0] == 'b');
}

/// The status field read after migration is the one the event was
/// written with.
proof fn lemma_migration_keeps_status(e: StoredEventView)
    ensures
        data_str(migrated(e).data, "status"@) == data_str(e.data, "status"@),
{
    lemma_names_differ();
}

/// A status change sets the status it names, whatever the vault's status
/// was: replaying events that end with a status change to "active",
/// "expired", "released" or "paused" leaves the vault Active, Expired,
/// Released or Paused, with the balance the earlier events left.
pub proof fn lemma_status_change_sets_status(start: SnapshotState, events: Seq<StoredEventView>)
    requires
        events.len() > 0,
        events.last().event_type == EventType::StatusChange,
    ensures
        data_str(events.last().data, "status"@) == Some("active"@) ==> replay_fold(start, events).status
            == VaultStatus::Active,
        data_str(events.last().data, "status"@) == Some("expired"@) ==> replay_fold(
            start,
            events,
        ).status == VaultStatus::Expired,
        data_str(events.last().data, "status"@) == Some("released"@) ==> replay_fold(
            start,
            events,
        ).status == VaultStatus::Released,
        data_str(events.last().data, "status"@) == Some("paused"@) ==> replay_fold(start, events).status
            == VaultStatus::Paused,
        replay_fold(start, events).balance == replay_fold(start, events.drop_last()).balance,
{
    lemma_names_differ();
    lemma_migration_keeps_status(events.last());
}

/// A replay up to sequence `t` never reflects an event numbered above
/// `t`: it starts at or before `t`, applies only events numbered `t` or
/// less, and so reports a last sequence of at most `t`. When the vault's
/// snapshot was taken after `t`, the replay starts from the initial state
/// and applies exactly the vault's events numbered `t` or less.
pub proof fn lemma_replay_to_ignores_later_events(
    r: &EventReplayer,
    vault_id: Seq<char>,
    t: u64,
    now: Timestamp,
)
    requires
        r.log().wf(),
    ensures
        ({
            let base = r.baseline_to(vault_id, t, now);
            let evs = r.events_between(vault_id, base.1, t);
            &&& base.1 <= t
            &&& forall|i: int| 0 <= i < evs.len() ==> (#[trigger] evs[i]).sequence <= t
            &&& (if evs.len() == 0 {
                base.1
            } else {
                evs.last().sequence
            }) <= t
        }),
        r.snapshots().snapshot(vault_id) matches Some(snap) && snap.snapshot_sequence > t ==> {
            &&& r.baseline_to(vault_id, t, now) == (initial_state(now), 0u64)
            &&& r.events_between(vault_id, 0, t) == r.log().vault_events(vault_id).filter(up_to(t))
        },
{
    let base = r.baseline_to(vault_id, t, now);
    let evs = r.events_between(vault_id, base.1, t);
    let from = r.events_from(vault_id, base.1);
    assert forall|i: int| 0 <= i < evs.len() implies (#[trigger] evs[i]).sequence <= t by {
        from.lemma_filter_pred(up_to(t), i);
    }
    if evs.len() > 0 {
        assert(evs.last() == evs[evs.len() - 1]);
    }
    let all = r.log().vault_events(vault_id);
    assert forall|i: int| 0 <= i < all.len() implies #[trigger] after(0)(all[i]) by {
        assert(all[i].sequence == i + 1);
    }
    lemma_filter_all_pass(all, after(0));
}

} // verus!
