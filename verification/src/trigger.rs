//! Triggers: the write events they fire on, when they fire, and the registry that
//! holds them and selects the ones that apply to a write.

use vstd::prelude::*;
use vstd::string::StringExecFns;
use crate::text::str_eq;

verus! {

broadcast use vstd::seq_lib::group_seq_properties;

/// The write event that fires a trigger.
#[derive(Debug, Clone, Copy, PartialEq, Eq, Structural, Hash)]
pub enum TriggerEvent {
    Insert,
    Update,
    Delete,
}

/// The text form of each `TriggerEvent`.
pub open spec fn trigger_event_name(x: TriggerEvent) -> Seq<char> {
    match x {
        TriggerEvent::Insert => "insert"@,
        TriggerEvent::Update => "update"@,
        TriggerEvent::Delete => "delete"@,
    }
}

/// The `TriggerEvent` that a text names, if any.
pub open spec fn trigger_event_parse(s: Seq<char>) -> Option<TriggerEvent> {
    if s == "insert"@ {
        Some(TriggerEvent::Insert)
    } else if s == "update"@ {
        Some(TriggerEvent::Update)
    } else if s == "delete"@ {
        Some(TriggerEvent::Delete)
    } else {
        None
    }
}

impl TriggerEvent {
    /// The text form of this value.
    pub fn as_str(&self) -> (r: &'static str)
        ensures
            r@ == trigger_event_name(*self),
    {
        match self {
            TriggerEvent::Insert => "insert",
            TriggerEvent::Update => "update",
            TriggerEvent::Delete => "delete",
        }
    }

    /// Parses the text form; `None` for any other text.
    pub fn from_str(s: &str) -> (r: Option<TriggerEvent>)
        ensures
            r == trigger_event_parse(s@),
    {
        if str_eq(s, "insert") {
            Some(TriggerEvent::Insert)
        } else if str_eq(s, "update") {
            Some(TriggerEvent::Update)
        } else if str_eq(s, "delete") {
            Some(TriggerEvent::Delete)
        } else {
            None
        }
    }
}

/// Reading back the text form of a `TriggerEvent` gives the same value, and a text
/// that reads as a value is that value's text form.
pub proof fn lemma_trigger_event_roundtrip(x: TriggerEvent, s: Seq<char>)
    ensures
        trigger_event_parse(trigger_event_name(x)) == Some(x),
        trigger_event_parse(s) == Some(x) && s != trigger_event_name(x) ==> false,
{
    reveal_strlit("insert");
    reveal_strlit("update");
    reveal_strlit("delete");
    assert("update"@[0] != "insert"@[0]);
    assert("delete"@[0] != "insert"@[0]);
    assert("delete"@[0] != "update"@[0]);
}
/// When the trigger fires relative to the write operation.
#[derive(Debug, Clone, Copy, PartialEq, Eq, Structural, Hash)]
pub enum TriggerTiming {
    Before,
    After,
    Instead,
}

/// The text form of each `TriggerTiming`.
pub open spec fn trigger_timing_name(x: TriggerTiming) -> Seq<char> {
    match x {
        TriggerTiming::Before => "before"@,
        TriggerTiming::After => "after"@,
        TriggerTiming::Instead => "instead"@,
    }
}

/// The `TriggerTiming` that a text names, if any.
pub open spec fn trigger_timing_parse(s: Seq<char>) -> Option<TriggerTiming> {
    if s == "before"@ {
        Some(TriggerTiming::Before)
    } else if s == "after"@ {
        Some(TriggerTiming::After)
    } else if s == "instead"@ {
        Some(TriggerTiming::Instead)
    } else {
        None
    }
}

impl TriggerTiming {
    /// The text form of this value.
    pub fn as_str(&self) -> (r: &'static str)
        ensures
            r@ == trigger_timing_name(*self),
    {
        match self {
            TriggerTiming::Before => "before",
            TriggerTiming::After => "after",
            TriggerTiming::Instead => "instead",
        }
    }

    /// Parses the text form; `None` for any other text.
    pub fn from_str(s: &str) -> (r: Option<TriggerTiming>)
        ensures
            r == trigger_timing_parse(s@),
    {
        if str_eq(s, "before") {
            Some(TriggerTiming::Before)
        } else if str_eq(s, "after") {
            Some(TriggerTiming::After)
        } else if str_eq(s, "instead") {
            Some(TriggerTiming::Instead)
        } else {
            None
        }
    }
}

/// Reading back the text form of a `TriggerTiming` gives the same value, and a text
/// that reads as a value is that value's text form.
pub proof fn lemma_trigger_timing_roundtrip(x: TriggerTiming, s: Seq<char>)
    ensures
        trigger_timing_parse(trigger_timing_name(x)) == Some(x),
        trigger_timing_parse(s) == Some(x) && s != trigger_timing_name(x) ==> false,
{
    reveal_strlit("before");
    reveal_strlit("after");
    reveal_strlit("instead");
    assert("after"@.len() != "before"@.len());
    assert("instead"@.len() != "before"@.len());
    assert("instead"@.len() != "after"@.len());
}
/// Identifies the remote source for a mesh trigger.
#[derive(Debug, Clone)]
pub struct MeshTriggerSource {
    pub source_database: String,
    pub source_collection: String,
}

/// A registered trigger with its metadata and its handler.
pub struct TriggerRegistration<H> {
    /// Unique trigger id.
    pub id: u64,
    /// The collection this trigger is bound to (meta key format: "schema::collection").
    pub collection: String,
    /// The event this trigger fires on.
    pub event: TriggerEvent,
    /// When this trigger fires.
    pub timing: TriggerTiming,
    /// Whether this trigger is currently enabled.
    pub enabled: bool,
    /// Human-readable name (optional).
    pub name: Option<String>,
    /// If set, this is a mesh trigger watching a remote database and collection.
    pub mesh_source: Option<MeshTriggerSource>,
    /// The callback.
    pub handler: H,
}

impl<H> TriggerRegistration<H> {
    /// A new, enabled local trigger with the given id (a registry hands out the ids).
    pub fn new(
        id: u64,
        collection: String,
        event: TriggerEvent,
        timing: TriggerTiming,
        name: Option<String>,
        handler: H,
    ) -> (r: Self)
        ensures
            r == (TriggerRegistration {
                id,
                collection,
                event,
                timing,
                enabled: true,
                name,
                mesh_source: None,
                handler,
            }),
    {
        TriggerRegistration { id, collection, event, timing, enabled: true, name, mesh_source: None, handler }
    }

    /// A new, enabled mesh trigger with the given id, watching a remote source.
    pub fn new_mesh(
        id: u64,
        collection: String,
        event: TriggerEvent,
        timing: TriggerTiming,
        name: Option<String>,
        mesh_source: MeshTriggerSource,
        handler: H,
    ) -> (r: Self)
        ensures
            r == (TriggerRegistration {
                id,
                collection,
                event,
                timing,
                enabled: true,
                name,
                mesh_source: Some(mesh_source),
                handler,
            }),
    {
        TriggerRegistration {
            id,
            collection,
            event,
            timing,
            enabled: true,
            name,
            mesh_source: Some(mesh_source),
            handler,
        }
    }

    /// Whether this trigger is enabled.
    pub fn is_enabled(&self) -> (r: bool)
        ensures
            r == self.enabled,
    {
        self.enabled
    }

    /// Enables or disables this trigger; nothing else changes.
    pub fn set_enabled(&mut self, enabled: bool)
        ensures
            *final(self) == (TriggerRegistration { enabled, ..*old(self) }),
    {
        self.enabled = enabled;
    }
}

/// Serializable trigger information (no callback).
#[derive(Debug, Clone)]
pub struct TriggerInfo {
    pub id: u64,
    pub collection: String,
    pub event: String,
    pub timing: String,
    pub enabled: bool,
    pub name: Option<String>,
}

/// Whether a registration is an enabled local trigger for `collection`, `event`, `timing`.
pub open spec fn spec_matches_local<H>(
    t: TriggerRegistration<H>,
    collection: Seq<char>,
    event: TriggerEvent,
    timing: TriggerTiming,
) -> bool {
    &&& t.collection@ == collection
    &&& t.event == event
    &&& t.timing == timing
    &&& t.enabled
    &&& t.mesh_source is None
}

/// Whether a registration is an enabled mesh trigger watching `database`, `collection`, `event`.
pub open spec fn spec_matches_mesh<H>(
    t: TriggerRegistration<H>,
    database: Seq<char>,
    collection: Seq<char>,
    event: TriggerEvent,
) -> bool {
    match t.mesh_source {
        Some(ms) => ms.source_database@ == database && ms.source_collection@ == collection
            && t.event == event && t.enabled,
        None => false,
    }
}

/// The selection of enabled local triggers for a collection, event and timing.
pub open spec fn local_pred<H>(collection: Seq<char>, event: TriggerEvent, timing: TriggerTiming) -> spec_fn(
    TriggerRegistration<H>,
) -> bool {
    |t: TriggerRegistration<H>| spec_matches_local(t, collection, event, timing)
}

/// The selection of enabled mesh triggers for a source database, collection and event.
pub open spec fn mesh_pred<H>(database: Seq<char>, collection: Seq<char>, event: TriggerEvent) -> spec_fn(
    TriggerRegistration<H>,
) -> bool {
    |t: TriggerRegistration<H>| spec_matches_mesh(t, database, collection, event)
}

/// The values that a sequence of references points to.
pub open spec fn derefs<T>(s: Seq<&T>) -> Seq<T> {
    s.map_values(|t: &T| *t)
}

/// Registry holding all registered triggers, in registration order.
pub struct TriggerRegistry<H> {
    triggers: Vec<TriggerRegistration<H>>,
    next_id: u64,
}

impl<H> TriggerRegistry<H> {
    /// The registered triggers, in registration order.
    pub closed spec fn spec_triggers(&self) -> Seq<TriggerRegistration<H>> {
        self.triggers@
    }

    /// The id that the next registration receives.
    pub closed spec fn spec_next_id(&self) -> u64 {
        self.next_id
    }

    /// Ids are distinct, positive and below the next id.
    pub closed spec fn wf(&self) -> bool {
        &&& self.next_id > 0
        &&& forall|i: int|
            0 <= i < self.triggers@.len() ==> 0 < #[trigger] self.triggers@[i].id < self.next_id
        &&& forall|i: int, j: int|
            0 <= i < j < self.triggers@.len() ==> #[trigger] self.triggers@[i].id
                != #[trigger] self.triggers@[j].id
    }

    /// The id that the next registration receives.
    pub fn next_id(&self) -> (r: u64)
        ensures
            r == self.spec_next_id(),
    {
        self.next_id
    }

    /// An empty registry.
    pub fn new() -> (r: Self)
        ensures
            r.wf(),
            r.spec_triggers() == Seq::<TriggerRegistration<H>>::empty(),
            r.spec_next_id() == 1,
    {
        TriggerRegistry { triggers: Vec::new(), next_id: 1 }
    }

    fn push_registration(&mut self, reg: TriggerRegistration<H>) -> (id: u64)
        requires
            old(self).wf(),
            old(self).next_id < u64::MAX,
            reg.id == old(self).next_id,
        ensures
            final(self).wf(),
            id == old(self).next_id,
            final(self).next_id == old(self).next_id + 1,
            final(self).triggers@ == old(self).triggers@.push(reg),
    {
        let id = reg.id;
        self.triggers.push(reg);
        self.next_id = self.next_id + 1;
        proof {
            let n = old(self).triggers@.len();
            assert forall|i: int| 0 <= i < self.triggers@.len() implies 0 < #[trigger] self.triggers@[i].id < self.next_id by {
                if i < n {
                    assert(self.triggers@[i] == old(self).triggers@[i]);
                }
            }
            assert forall|i: int, j: int|
                0 <= i < j < self.triggers@.len() implies #[trigger] self.triggers@[i].id
                != #[trigger] self.triggers@[j].id by {
                assert(self.triggers@[i] == old(self).triggers@[i]);
                if j < n {
                    assert(self.triggers@[j] == old(self).triggers@[j]);
                }
            }
        }
        id
    }

    /// Register a new local trigger. Returns the trigger id.
    pub fn register(
        &mut self,
        collection: String,
        event: TriggerEvent,
        timing: TriggerTiming,
        name: Option<String>,
        handler: H,
    ) -> (id: u64)
        requires
            old(self).wf(),
            old(self).spec_next_id() < u64::MAX,
        ensures
            final(self).wf(),
            id == old(self).spec_next_id(),
            final(self).spec_next_id() == id + 1,
            final(self).spec_triggers() == old(self).spec_triggers().push(
                TriggerRegistration {
                    id,
                    collection,
                    event,
                    timing,
                    enabled: true,
                    name,
                    mesh_source: None,
                    handler,
                },
            ),
    {
        let reg = TriggerRegistration {
            id: self.next_id,
            collection,
            event,
            timing,
            enabled: true,
            name,
            mesh_source: None,
            handler,
        };
        self.push_registration(reg)
    }

    /// Register a mesh trigger watching a remote database and collection.
    pub fn register_mesh(
        &mut self,
        collection: String,
        event: TriggerEvent,
        timing: TriggerTiming,
        name: Option<String>,
        mesh_source: MeshTriggerSource,
        handler: H,
    ) -> (id: u64)
        requires
            old(self).wf(),
            old(self).spec_next_id() < u64::MAX,
        ensures
            final(self).wf(),
            id == old(self).spec_next_id(),
            final(self).spec_next_id() == id + 1,
            final(self).spec_triggers() == old(self).spec_triggers().push(
                TriggerRegistration {
                    id,
                    collection,
                    event,
                    timing,
                    enabled: true,
                    name,
                    mesh_source: Some(mesh_source),
                    handler,
                },
            ),
    {
        let reg = TriggerRegistration {
            id: self.next_id,
            collection,
            event,
            timing,
            enabled: true,
            name,
            mesh_source: Some(mesh_source),
            handler,
        };
        self.push_registration(reg)
    }

    /// Unregister a trigger by id. Returns true if found and removed.
    pub fn unregister(&mut self, id: u64) -> (r: bool)
        requires
            old(self).wf(),
        ensures
            final(self).wf(),
            final(self).spec_next_id() == old(self).spec_next_id(),
            r == exists|i: int|
                0 <= i < old(self).spec_triggers().len() && (#[trigger] old(
                    self,
                ).spec_triggers()[i]).id == id,
            r ==> exists|i: int|
                0 <= i < old(self).spec_triggers().len() && (#[trigger] old(
                    self,
                ).spec_triggers()[i]).id == id && final(self).spec_triggers() == old(
                    self,
                ).spec_triggers().remove(i),
            !r ==> final(self).spec_triggers() == old(self).spec_triggers(),
    {
        match self.position_of(id) {
            Some(i) => {
                let _ = self.triggers.remove(i);
                proof {
                    assert(self.triggers@ == old(self).triggers@.remove(i as int));
                    assert forall|a: int, b: int|
                        0 <= a < b < self.triggers@.len() implies #[trigger] self.triggers@[a].id
                        != #[trigger] self.triggers@[b].id by {
                        let oa = if a < i { a } else { a + 1 };
                        let ob = if b < i { b } else { b + 1 };
                        assert(self.triggers@[a] == old(self).triggers@[oa]);
                        assert(self.triggers@[b] == old(self).triggers@[ob]);
                    }
                }
                true
            },
            None => false,
        }
    }

    /// The position of the trigger with `id`, if any.
    fn position_of(&self, id: u64) -> (r: Option<usize>)
        ensures
            match r {
                Some(i) => i < self.triggers@.len() && self.triggers@[i as int].id == id,
                None => forall|i: int| 0 <= i < self.triggers@.len() ==> (#[trigger] self.triggers@[i]).id != id,
            },
    {
        let mut i: usize = 0;
        while i < self.triggers.len()
            invariant
                i <= self.triggers@.len(),
                forall|j: int| 0 <= j < i ==> (#[trigger] self.triggers@[j]).id != id,
            decreases self.triggers.len() - i,
        {
            if self.triggers[i].id == id {
                return Some(i);
            }
            i = i + 1;
        }
        None
    }

    /// Set the enabled state of a trigger by id. Returns true if found.
    pub fn set_enabled(&mut self, id: u64, enabled: bool) -> (r: bool)
        requires
            old(self).wf(),
        ensures
            final(self).wf(),
            final(self).spec_next_id() == old(self).spec_next_id(),
            r == exists|i: int|
                0 <= i < old(self).spec_triggers().len() && (#[trigger] old(
                    self,
                ).spec_triggers()[i]).id == id,
            final(self).spec_triggers().len() == old(self).spec_triggers().len(),
            forall|i: int|
                0 <= i < old(self).spec_triggers().len() ==> {
                    let t = #[trigger] old(self).spec_triggers()[i];
                    final(self).spec_triggers()[i] == if t.id == id {
                        TriggerRegistration { enabled, ..t }
                    } else {
                        t
                    }
                },
    {
        match self.position_of(id) {
            Some(i) => {
                let mut t = self.triggers.remove(i);
                t.enabled = enabled;
                self.triggers.insert(i, t);
                proof {
                    assert forall|j: int| 0 <= j < old(self).triggers@.len() implies {
                        let t = #[trigger] old(self).triggers@[j];
                        self.triggers@[j] == if t.id == id {
                            TriggerRegistration { enabled, ..t }
                        } else {
                            t
                        }
                    } by {
                        if j != i {
                            assert(old(self).triggers@[j].id != old(self).triggers@[i as int].id);
                        }
                    }
                }
                true
            },
            None => false,
        }
    }

    /// List all triggers (information without callbacks), in registration order.
    pub fn list(&self) -> (r: Vec<TriggerInfo>)
        ensures
            r@.len() == self.spec_triggers().len(),
            forall|i: int|
                0 <= i < r@.len() ==> {
                    let t = self.spec_triggers()[i];
                    let info = #[trigger] r@[i];
                    &&& info.id == t.id
                    &&& info.collection@ == t.collection@
                    &&& info.event@ == trigger_event_name(t.event)
                    &&& info.timing@ == trigger_timing_name(t.timing)
                    &&& info.enabled == t.enabled
                    &&& info.name.is_some() == t.name.is_some()
                    &&& info.name is Some ==> info.name->0@ == t.name->0@
                },
    {
        let mut out: Vec<TriggerInfo> = Vec::new();
        let mut i: usize = 0;
        while i < self.triggers.len()
            invariant
                i <= self.triggers@.len(),
                out@.len() == i,
                forall|k: int|
                    0 <= k < i ==> {
                        let t = self.triggers@[k];
                        let info = #[trigger] out@[k];
                        &&& info.id == t.id
                        &&& info.collection@ == t.collection@
                        &&& info.event@ == trigger_event_name(t.event)
                        &&& info.timing@ == trigger_timing_name(t.timing)
                        &&& info.enabled == t.enabled
                        &&& info.name.is_some() == t.name.is_some()
                        &&& info.name is Some ==> info.name->0@ == t.name->0@
                    },
            decreases self.triggers.len() - i,
        {
            let t = &self.triggers[i];
            let name = match &t.name {
                Some(n) => Some(n.clone()),
                None => None,
            };
            out.push(
                TriggerInfo {
                    id: t.id,
                    collection: t.collection.clone(),
                    event: String::from_str(t.event.as_str()),
                    timing: String::from_str(t.timing.as_str()),
                    enabled: t.enabled,
                    name,
                },
            );
            i = i + 1;
        }
        out
    }

    /// All enabled local triggers matching a collection, event and timing, in
    /// registration order.
    pub fn matching(&self, collection: &str, event: TriggerEvent, timing: TriggerTiming) -> (r: Vec<
        &TriggerRegistration<H>,
    >)
        ensures
            derefs(r@) == self.spec_triggers().filter(
                local_pred(collection@, event, timing),
            ),
    {
        let ghost pred = local_pred::<H>(collection@, event, timing);
        let mut out: Vec<&TriggerRegistration<H>> = Vec::new();
        let mut i: usize = 0;
        proof {
            reveal(Seq::filter);
            assert(self.triggers@.take(0).filter(pred) =~= Seq::<TriggerRegistration<H>>::empty());
        }
        while i < self.triggers.len()
            invariant
                i <= self.triggers@.len(),
                derefs(out@) == self.triggers@.take(i as int).filter(pred),
                pred == local_pred::<H>(collection@, event, timing),
            decreases self.triggers.len() - i,
        {
            let t = &self.triggers[i];
            proof {
                self.triggers@.lemma_take_succ_push(i as int);
                self.triggers@.take(i as int).lemma_filter_push(*t, pred);
            }
            let hit = str_eq(t.collection.as_str(), collection) && t.event == event && t.timing == timing
                && t.enabled && t.mesh_source.is_none();
            proof {
                assert(*t == self.triggers@[i as int]);
                assert(hit == spec_matches_local(*t, collection@, event, timing));
                assert(pred(*t) == spec_matches_local(*t, collection@, event, timing));
                assert(self.triggers@.take(i + 1).filter(pred) == if pred(*t) {
                    self.triggers@.take(i as int).filter(pred).push(*t)
                } else {
                    self.triggers@.take(i as int).filter(pred)
                });
            }
            if hit {
                let ghost before = out@;
                out.push(t);
                proof {
                    assert(out@ == before.push(t));
                    assert(derefs(out@) =~= derefs(before).push(*t));
                }
                proof {
                    assert(derefs(out@) =~= self.triggers@.take(
                        i + 1,
                    ).filter(pred));
                }
            } else {
                proof {
                    assert(derefs(out@) =~= self.triggers@.take(
                        i + 1,
                    ).filter(pred));
                }
            }
            i = i + 1;
        }
        proof {
            assert(self.triggers@.take(self.triggers@.len() as int) =~= self.triggers@);
        }
        out
    }

    /// All enabled mesh triggers watching a source database, collection and event,
    /// in registration order.
    pub fn matching_mesh(&self, source_database: &str, source_collection: &str, event: TriggerEvent) -> (r: Vec<
        &TriggerRegistration<H>,
    >)
        ensures
            derefs(r@) == self.spec_triggers().filter(
                mesh_pred(source_database@, source_collection@, event),
            ),
    {
        let ghost pred = mesh_pred::<H>(source_database@, source_collection@, event);
        let mut out: Vec<&TriggerRegistration<H>> = Vec::new();
        let mut i: usize = 0;
        proof {
            reveal(Seq::filter);
            assert(self.triggers@.take(0).filter(pred) =~= Seq::<TriggerRegistration<H>>::empty());
        }
        while i < self.triggers.len()
            invariant
                i <= self.triggers@.len(),
                derefs(out@) == self.triggers@.take(i as int).filter(pred),
                pred == mesh_pred::<H>(source_database@, source_collection@, event),
            decreases self.triggers.len() - i,
        {
            let t = &self.triggers[i];
            proof {
                self.triggers@.lemma_take_succ_push(i as int);
                self.triggers@.take(i as int).lemma_filter_push(*t, pred);
            }
            let hit = match &t.mesh_source {
                Some(ms) => str_eq(ms.source_database.as_str(), source_database) && str_eq(
                    ms.source_collection.as_str(),
                    source_collection,
                ) && t.event == event && t.enabled,
                None => false,
            };
            if hit {
                out.push(t);
            }
            proof {
                assert(derefs(out@) =~= self.triggers@.take(
                    i + 1,
                ).filter(pred));
            }
            i = i + 1;
        }
        proof {
            assert(self.triggers@.take(self.triggers@.len() as int) =~= self.triggers@);
        }
        out
    }
}

/// Registration hands out distinct ids: a new trigger's id differs from the id of
/// every trigger already registered.
pub proof fn lemma_registered_ids_distinct<H>(reg: TriggerRegistry<H>, i: int)
    requires
        reg.wf(),
        0 <= i < reg.spec_triggers().len(),
    ensures
        reg.spec_triggers()[i].id != reg.spec_next_id(),
{
    reveal(TriggerRegistry::wf);
}

/// Mesh-trigger matching selects exactly the enabled mesh triggers that watch
/// the given source database and collection for the given event: every
/// selected registration is enabled, is a mesh trigger with that source and
/// has that event, and every registered trigger of that kind is selected. A
/// disabled registration is never selected.
pub proof fn lemma_matching_mesh_selects_enabled<H>(
    reg: TriggerRegistry<H>,
    database: Seq<char>,
    collection: Seq<char>,
    event: TriggerEvent,
)
    ensures
        ({
            let sel = reg.spec_triggers().filter(mesh_pred(database, collection, event));
            &&& forall|i: int|
                0 <= i < sel.len() ==> {
                    let t = #[trigger] sel[i];
                    &&& t.enabled
                    &&& t.event == event
                    &&& t.mesh_source matches Some(ms) && ms.source_database@ == database
                        && ms.source_collection@ == collection
                }
            &&& forall|i: int|
                0 <= i < reg.spec_triggers().len() && (#[trigger] reg.spec_triggers()[i]).enabled
                    && reg.spec_triggers()[i].event == event && (reg.spec_triggers()[i].mesh_source matches Some(
                    ms,
                ) && ms.source_database@ == database && ms.source_collection@ == collection)
                    ==> sel.contains(reg.spec_triggers()[i])
            &&& forall|i: int|
                0 <= i < reg.spec_triggers().len() && !(#[trigger] reg.spec_triggers()[i]).enabled
                    ==> !sel.contains(reg.spec_triggers()[i])
        }),
{
    let s = reg.spec_triggers();
    let pred = mesh_pred::<H>(database, collection, event);
    let sel = s.filter(pred);
    assert forall|i: int| 0 <= i < sel.len() implies {
        let t = #[trigger] sel[i];
        &&& t.enabled
        &&& t.event == event
        &&& t.mesh_source matches Some(ms) && ms.source_database@ == database
            && ms.source_collection@ == collection
    } by {
        s.lemma_filter_pred(pred, i);
    }
    assert forall|i: int|
        0 <= i < s.len() && (#[trigger] s[i]).enabled && s[i].event == event && (s[i].mesh_source matches Some(
            ms,
        ) && ms.source_database@ == database && ms.source_collection@ == collection) implies sel.contains(
        s[i],
    ) by {
        s.lemma_filter_contains(pred, i);
    }
    assert forall|i: int| 0 <= i < s.len() && !(#[trigger] s[i]).enabled implies !sel.contains(s[i]) by {
        if sel.contains(s[i]) {
            let k = choose|k: int| 0 <= k < sel.len() && sel[k] == s[i];
            s.lemma_filter_pred(pred, k);
        }
    }
}

/// Local-trigger matching selects exactly the enabled local (non-mesh)
/// triggers of the given collection, event and timing: every selected
/// registration has these, and every registered trigger that has them is
/// selected. A disabled registration is never selected.
pub proof fn lemma_matching_selects_enabled<H>(
    reg: TriggerRegistry<H>,
    collection: Seq<char>,
    event: TriggerEvent,
    timing: TriggerTiming,
)
    ensures
        ({
            let sel = reg.spec_triggers().filter(local_pred(collection, event, timing));
            &&& forall|i: int|
                0 <= i < sel.len() ==> {
                    let t = #[trigger] sel[i];
                    &&& t.enabled
                    &&& t.mesh_source is None
                    &&& t.collection@ == collection
                    &&& t.event == event
                    &&& t.timing == timing
                }
            &&& forall|i: int|
                0 <= i < reg.spec_triggers().len() && (#[trigger] reg.spec_triggers()[i]).enabled
                    && reg.spec_triggers()[i].mesh_source is None && reg.spec_triggers()[i].collection@
                    == collection && reg.spec_triggers()[i].event == event
                    && reg.spec_triggers()[i].timing == timing ==> sel.contains(reg.spec_triggers()[i])
            &&& forall|i: int|
                0 <= i < reg.spec_triggers().len() && !(#[trigger] reg.spec_triggers()[i]).enabled
                    ==> !sel.contains(reg.spec_triggers()[i])
        }),
{
    let s = reg.spec_triggers();
    let pred = local_pred::<H>(collection, event, timing);
    let sel = s.filter(pred);
    assert forall|i: int| 0 <= i < sel.len() implies {
        let t = #[trigger] sel[i];
        &&& t.enabled
        &&& t.mesh_source is None
        &&& t.collection@ == collection
        &&& t.event == event
        &&& t.timing == timing
    } by {
        s.lemma_filter_pred(pred, i);
    }
    assert forall|i: int|
        0 <= i < s.len() && (#[trigger] s[i]).enabled && s[i].mesh_source is None && s[i].collection@
            == collection && s[i].event == event && s[i].timing == timing implies sel.contains(s[i]) by {
        s.lemma_filter_contains(pred, i);
    }
    assert forall|i: int| 0 <= i < s.len() && !(#[trigger] s[i]).enabled implies !sel.contains(s[i]) by {
        if sel.contains(s[i]) {
            let k = choose|k: int| 0 <= k < sel.len() && sel[k] == s[i];
            s.lemma_filter_pred(pred, k);
        }
    }
}

} // verus!
