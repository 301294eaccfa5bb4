//! Graceful degradation for missing or unhealthy features.
//!
//! Capabilities can be marked degraded or unavailable independently, so
//! clients can negotiate what is actually usable and fall back to reduced
//! functionality instead of failing outright. A capability that was never
//! registered counts as fully available.
use vstd::prelude::*;
use crate::clock::{utc_now, Timestamp};
use crate::strmap::StrMap;
use crate::text::{clone_opt_string, is_blank, is_blank_str};

verus! {

/// How usable a capability currently is.
#[derive(Copy, Clone, Debug, PartialEq, Eq, Structural)]
pub enum DegradationLevel {
    /// Fully functional.
    Full,
    /// Usable, with reduced functionality.
    Degraded,
    /// Not usable right now; callers should use a fallback or skip it.
    Unavailable,
}

/// Current status of a named capability.
#[derive(Debug)]
pub struct CapabilityStatus {
    pub name: String,
    pub level: DegradationLevel,
    pub reason: Option<String>,
    /// Whether a fallback response exists for this capability.
    pub fallback_available: bool,
    pub updated_at: Timestamp,
}

impl View for CapabilityStatus {
    type V = CapabilityStatus;

    open spec fn view(&self) -> CapabilityStatus {
        *self
    }
}

impl Clone for CapabilityStatus {
    fn clone(&self) -> (r: Self)
        ensures
            r == *self,
    {
        CapabilityStatus {
            name: self.name.clone(),
            level: self.level,
            reason: clone_opt_string(&self.reason),
            fallback_available: self.fallback_available,
            updated_at: self.updated_at,
        }
    }
}

/// Request to set a capability's degradation level.
#[derive(Debug)]
pub struct SetCapabilityRequest {
    pub name: String,
    pub level: DegradationLevel,
    pub reason: Option<String>,
    pub fallback_available: bool,
}

/// Request to negotiate a set of capabilities.
#[derive(Debug)]
pub struct NegotiateRequest {
    pub requested: Vec<String>,
}

/// Negotiation outcome for one capability.
#[derive(Debug)]
pub struct NegotiatedCapability {
    pub name: String,
    pub level: DegradationLevel,
    pub reason: Option<String>,
    pub use_fallback: bool,
}

/// Outcome of negotiating a set of requested capabilities.
#[derive(Debug)]
pub struct NegotiationResult {
    pub capabilities: Vec<NegotiatedCapability>,
    /// Whether the client can proceed in some form: every requested
    /// capability is usable, directly or through its fallback.
    pub can_proceed: bool,
}

/// Why setting a capability is refused.
#[derive(Copy, Clone, Debug, PartialEq, Eq, Structural)]
pub enum DegradationError {
    /// The capability name is empty or white space.
    EmptyName,
}

impl DegradationError {
    /// HTTP status of the refusal.
    pub fn status(&self) -> (s: u16)
        ensures
            s == 422,
    {
        422
    }

    /// The error message sent back.
    pub fn message(&self) -> (m: String)
        ensures
            m@ == "name must not be empty"@,
    {
        String::from_str("name must not be empty")
    }
}

/// Why no fallback response is served.
#[derive(Copy, Clone, Debug, PartialEq, Eq, Structural)]
pub enum FallbackError {
    /// The capability is fully available: there is nothing to fall back
    /// from.
    NotDegraded,
    /// The capability is degraded but has no fallback.
    NoFallback,
}

impl FallbackError {
    /// HTTP status of the refusal.
    pub fn status(&self) -> (s: u16)
        ensures
            s == match *self {
                FallbackError::NotDegraded => 404u16,
                FallbackError::NoFallback => 503u16,
            },
    {
        match self {
            FallbackError::NotDegraded => 404,
            FallbackError::NoFallback => 503,
        }
    }
}

/// A reduced-functionality fallback response.
#[derive(Debug)]
pub struct FallbackResponse {
    pub capability: String,
    pub level: DegradationLevel,
    pub reason: Option<String>,
    pub message: String,
}

// ---------------------------------------------------------------------------
// Specification
// ---------------------------------------------------------------------------

/// The level of `name` (fully available when not registered).
pub open spec fn level_of(registry: Map<Seq<char>, CapabilityStatus>, name: Seq<char>) -> DegradationLevel {
    if registry.contains_key(name) {
        registry[name].level
    } else {
        DegradationLevel::Full
    }
}

/// The reason recorded for `name` (none when not registered).
pub open spec fn reason_of(registry: Map<Seq<char>, CapabilityStatus>, name: Seq<char>) -> Option<
    String,
> {
    if registry.contains_key(name) {
        registry[name].reason
    } else {
        None
    }
}

/// Whether `name` has a fallback (not when unregistered).
pub open spec fn fallback_of(registry: Map<Seq<char>, CapabilityStatus>, name: Seq<char>) -> bool {
    registry.contains_key(name) && registry[name].fallback_available
}

/// Whether a client asking for `name` should use its fallback: the
/// capability is not fully available and has one.
pub open spec fn uses_fallback(registry: Map<Seq<char>, CapabilityStatus>, name: Seq<char>) -> bool {
    level_of(registry, name) != DegradationLevel::Full && fallback_of(registry, name)
}

/// Whether `name` can be used in some form: it is not unavailable, or it
/// has a fallback to use.
pub open spec fn usable(registry: Map<Seq<char>, CapabilityStatus>, name: Seq<char>) -> bool {
    level_of(registry, name) != DegradationLevel::Unavailable || uses_fallback(registry, name)
}

/// The negotiation outcome for one requested capability.
pub open spec fn negotiated(
    registry: Map<Seq<char>, CapabilityStatus>,
    name: Seq<char>,
    c: NegotiatedCapability,
) -> bool {
    &&& c.name@ == name
    &&& c.level == level_of(registry, name)
    &&& c.reason == reason_of(registry, name)
    &&& c.use_fallback == uses_fallback(registry, name)
}

/// The views of a list of strings.
pub open spec fn names_of(v: Seq<String>) -> Seq<Seq<char>> {
    v.map_values(|s: String| s@)
}

/// Whether every requested capability can be used in some form.
pub open spec fn all_usable(registry: Map<Seq<char>, CapabilityStatus>, requested: Seq<Seq<char>>) -> bool {
    forall|i: int| 0 <= i < requested.len() ==> usable(registry, #[trigger] requested[i])
}

// ---------------------------------------------------------------------------
// Registry
// ---------------------------------------------------------------------------

/// Registry of capability statuses, by name.
#[derive(Debug)]
pub struct DegradationState {
    registry: StrMap<CapabilityStatus>,
}

impl DegradationState {
    /// Each status is stored under its own name.
    pub closed spec fn wf(&self) -> bool {
        &&& self.registry.wf()
        &&& forall|k: Seq<char>| #[trigger] self.registry@.contains_key(k) ==> self.registry@[k].name@ == k
    }

    /// The registered statuses, by name.
    pub closed spec fn statuses(&self) -> Map<Seq<char>, CapabilityStatus> {
        self.registry@
    }

    /// An empty registry: every capability is fully available.
    pub fn new() -> (s: Self)
        ensures
            s.wf(),
            s.statuses() == Map::<Seq<char>, CapabilityStatus>::empty(),
    {
        DegradationState { registry: StrMap::new() }
    }

    /// Registers or updates a capability's status, stamped `now`.
    pub fn set_status_at(
        &mut self,
        name: &str,
        level: DegradationLevel,
        reason: Option<String>,
        fallback_available: bool,
        now: Timestamp,
    ) -> (r: CapabilityStatus)
        requires
            old(self).wf(),
        ensures
            final(self).wf(),
            r.name@ == name@,
            r.level == level,
            r.reason == reason,
            r.fallback_available == fallback_available,
            r.updated_at == now,
            final(self).statuses() == old(self).statuses().insert(name@, r),
    {
        let status = CapabilityStatus {
            name: String::from_str(name),
            level,
            reason,
            fallback_available,
            updated_at: now,
        };
        self.registry.insert(String::from_str(name), status.clone());
        status
    }

    /// Registers or updates a capability's status, stamped with the
    /// current time.
    pub fn set_status(
        &mut self,
        name: &str,
        level: DegradationLevel,
        reason: Option<String>,
        fallback_available: bool,
    ) -> (r: CapabilityStatus)
        requires
            old(self).wf(),
        ensures
            final(self).wf(),
            r.name@ == name@,
            r.level == level,
            r.reason == reason,
            r.fallback_available == fallback_available,
            final(self).statuses() == old(self).statuses().insert(name@, r),
    {
        let now = utc_now();
        self.set_status_at(name, level, reason, fallback_available, now)
    }

    /// The status of `name`, or, when it is not registered, a fully
    /// available status stamped `now`.
    pub fn check_at(&self, name: &str, now: Timestamp) -> (r: CapabilityStatus)
        requires
            self.wf(),
        ensures
            r.name@ == name@,
            self.statuses().contains_key(name@) ==> r == self.statuses()[name@],
            !self.statuses().contains_key(name@) ==> {
                &&& r.level == DegradationLevel::Full
                &&& r.reason is None
                &&& !r.fallback_available
                &&& r.updated_at == now
            },
    {
        match self.registry.get(name) {
            Some(s) => s.clone(),
            None => CapabilityStatus {
                name: String::from_str(name),
                level: DegradationLevel::Full,
                reason: None,
                fallback_available: false,
                updated_at: now,
            },
        }
    }

    /// The status of `name`, defaulting to fully available (stamped with
    /// the current time) when it is not registered.
    pub fn check(&self, name: &str) -> (r: CapabilityStatus)
        requires
            self.wf(),
        ensures
            r.name@ == name@,
            r.level == level_of(self.statuses(), name@),
            r.reason == reason_of(self.statuses(), name@),
            r.fallback_available == fallback_of(self.statuses(), name@),
            self.statuses().contains_key(name@) ==> r == self.statuses()[name@],
    {
        let now = utc_now();
        self.check_at(name, now)
    }

    /// All registered statuses, each once, in no particular order.
    pub fn list(&self) -> (r: Vec<CapabilityStatus>)
        requires
            self.wf(),
        ensures
            forall|i: int|
                0 <= i < r@.len() ==> self.statuses().contains_key((#[trigger] r@[i]).name@)
                    && self.statuses()[r@[i].name@] == r@[i],
            forall|k: Seq<char>|
                #[trigger] self.statuses().contains_key(k) ==> exists|i: int|
                    0 <= i < r@.len() && #[trigger] r@[i].name@ == k,
            forall|i: int, j: int|
                0 <= i < r@.len() && 0 <= j < r@.len() && i != j ==> (#[trigger] r@[i]).name@
                    != (#[trigger] r@[j]).name@,
    {
        let entries = self.registry.entries();
        let mut r: Vec<CapabilityStatus> = Vec::new();
        let mut i: usize = 0;
        while i < entries.len()
            invariant
                self.wf(),
                i <= entries@.len(),
                r@.len() == i,
                forall|j: int|
                    0 <= j < entries@.len() ==> self.statuses().contains_key(#[trigger] entries@[j].0@)
                        && self.statuses()[entries@[j].0@] == entries@[j].1@,
                forall|j: int| 0 <= j < i ==> #[trigger] r@[j] == entries@[j].1,
                forall|a: int, b: int|
                    0 <= a < entries@.len() && 0 <= b < entries@.len() && a != b
                        ==> #[trigger] entries@[a].0@ != #[trigger] entries@[b].0@,
            decreases entries@.len() - i,
        {
            r.push(entries[i].1.clone());
            i += 1;
        }
        proof {
            assert forall|j: int| 0 <= j < r@.len() implies self.statuses().contains_key(
                (#[trigger] r@[j]).name@,
            ) && self.statuses()[r@[j].name@] == r@[j] by {
                assert(self.statuses().contains_key(entries@[j].0@));
                assert(entries@[j].1.name@ == entries@[j].0@);
            }
            assert forall|k: Seq<char>| #[trigger] self.statuses().contains_key(k) implies exists|i: int|
                0 <= i < r@.len() && #[trigger] r@[i].name@ == k by {
                let j = choose|j: int| 0 <= j < entries@.len() && #[trigger] entries@[j].0@ == k;
                assert(r@[j].name@ == k);
            }
            assert forall|a: int, b: int|
                0 <= a < r@.len() && 0 <= b < r@.len() && a != b implies (#[trigger] r@[a]).name@
                != (#[trigger] r@[b]).name@ by {
                assert(entries@[a].1.name@ == entries@[a].0@);
                assert(entries@[b].1.name@ == entries@[b].0@);
            }
        }
        r
    }

    /// The outcome of negotiating `name`.
    fn negotiate_one(&self, name: &String) -> (c: NegotiatedCapability)
        requires
            self.wf(),
        ensures
            negotiated(self.statuses(), name@, c),
    {
        match self.registry.get(name.as_str()) {
            Some(s) => NegotiatedCapability {
                name: name.clone(),
                level: s.level,
                reason: clone_opt_string(&s.reason),
                use_fallback: s.level != DegradationLevel::Full && s.fallback_available,
            },
            None => NegotiatedCapability {
                name: name.clone(),
                level: DegradationLevel::Full,
                reason: None,
                use_fallback: false,
            },
        }
    }

    /// Negotiates the requested capabilities against their current status.
    pub fn negotiate(&self, requested: &[String]) -> (r: NegotiationResult)
        requires
            self.wf(),
        ensures
            r.capabilities@.len() == requested@.len(),
            forall|i: int|
                0 <= i < requested@.len() ==> negotiated(
                    self.statuses(),
                    requested@[i]@,
                    #[trigger] r.capabilities@[i],
                ),
            r.can_proceed == all_usable(self.statuses(), names_of(requested@)),
            forall|j: int|
                0 <= j < requested@.len() && self.statuses().contains_key(#[trigger] requested@[j]@)
                    && self.statuses()[requested@[j]@].level == DegradationLevel::Unavailable
                    && !self.statuses()[requested@[j]@].fallback_available ==> !r.can_proceed,
    {
        let mut caps: Vec<NegotiatedCapability> = Vec::new();
        let mut can_proceed = true;
        let mut i: usize = 0;
        while i < requested.len()
            invariant
                self.wf(),
                i <= requested@.len(),
                caps@.len() == i,
                forall|j: int|
                    0 <= j < i ==> negotiated(self.statuses(), requested@[j]@, #[trigger] caps@[j]),
                can_proceed == forall|j: int|
                    0 <= j < i ==> usable(self.statuses(), #[trigger] requested@[j]@),
            decreases requested@.len() - i,
        {
            let c = self.negotiate_one(&requested[i]);
            if c.level == DegradationLevel::Unavailable && !c.use_fallback {
                can_proceed = false;
            }
            caps.push(c);
            i += 1;
        }
        proof {
            let names = names_of(requested@);
            let reg = self.statuses();
            assert(names.len() == requested@.len());
            assert forall|j: int| 0 <= j < names.len() implies names[j] == requested@[j]@ by {}
            if can_proceed {
                assert forall|j: int| 0 <= j < names.len() implies usable(reg, #[trigger] names[j]) by {
                    assert(usable(reg, requested@[j]@));
                }
            } else {
                let j = choose|j: int| 0 <= j < i && !usable(reg, #[trigger] requested@[j]@);
                assert(names[j] == requested@[j]@);
                assert(!usable(reg, names[j]));
            }
        }
        NegotiationResult { capabilities: caps, can_proceed }
    }
}

impl Default for DegradationState {
    fn default() -> (s: Self)
        ensures
            s.wf(),
            s.statuses() == Map::<Seq<char>, CapabilityStatus>::empty(),
    {
        DegradationState::new()
    }
}

// ---------------------------------------------------------------------------
// Requests
// ---------------------------------------------------------------------------

/// Sets a capability's degradation level; a name that is empty or white
/// space is refused.
pub fn set_capability(state: &mut DegradationState, body: SetCapabilityRequest) -> (r: Result<
    CapabilityStatus,
    DegradationError,
>)
    requires
        old(state).wf(),
    ensures
        final(state).wf(),
        is_blank(body.name@) ==> r == Err::<CapabilityStatus, DegradationError>(
            DegradationError::EmptyName,
        ) && final(state).statuses() == old(state).statuses(),
        !is_blank(body.name@) ==> (r matches Ok(s) && {
            &&& s.name@ == body.name@
            &&& s.level == body.level
            &&& s.reason == body.reason
            &&& s.fallback_available == body.fallback_available
            &&& final(state).statuses() == old(state).statuses().insert(body.name@, s)
        }),
{
    if is_blank_str(body.name.as_str()) {
        return Err(DegradationError::EmptyName);
    }
    Ok(state.set_status(body.name.as_str(), body.level, body.reason, body.fallback_available))
}

/// All registered capability statuses.
pub fn list_capabilities(state: &DegradationState) -> (r: Vec<CapabilityStatus>)
    requires
        state.wf(),
    ensures
        forall|i: int|
            0 <= i < r@.len() ==> state.statuses().contains_key((#[trigger] r@[i]).name@)
                && state.statuses()[r@[i].name@] == r@[i],
        forall|k: Seq<char>|
            #[trigger] state.statuses().contains_key(k) ==> exists|i: int|
                0 <= i < r@.len() && #[trigger] r@[i].name@ == k,
{
    state.list()
}

/// Negotiates a set of requested capabilities.
pub fn negotiate_capabilities(state: &DegradationState, body: &NegotiateRequest) -> (r:
    NegotiationResult)
    requires
        state.wf(),
    ensures
        r.capabilities@.len() == body.requested@.len(),
        forall|i: int|
            0 <= i < body.requested@.len() ==> negotiated(
                state.statuses(),
                body.requested@[i]@,
                #[trigger] r.capabilities@[i],
            ),
        r.can_proceed == all_usable(state.statuses(), names_of(body.requested@)),
{
    state.negotiate(body.requested.as_slice())
}

/// The reduced-functionality fallback response for a capability that is
/// degraded or unavailable and has a fallback.
pub fn capability_fallback(state: &DegradationState, name: &str) -> (r: Result<
    FallbackResponse,
    FallbackError,
>)
    requires
        state.wf(),
    ensures
        level_of(state.statuses(), name@) == DegradationLevel::Full ==> r == Err::<
            FallbackResponse,
            FallbackError,
        >(FallbackError::NotDegraded),
        level_of(state.statuses(), name@) != DegradationLevel::Full && !fallback_of(
            state.statuses(),
            name@,
        ) ==> r == Err::<FallbackResponse, FallbackError>(FallbackError::NoFallback),
        uses_fallback(state.statuses(), name@) ==> (r matches Ok(resp) && {
            &&& resp.capability@ == name@
            &&& resp.level == level_of(state.statuses(), name@)
            &&& resp.reason == reason_of(state.statuses(), name@)
            &&& resp.message@ == "serving reduced-functionality fallback response"@
        }),
{
    let status = state.check(name);
    if status.level == DegradationLevel::Full {
        return Err(FallbackError::NotDegraded);
    }
    if !status.fallback_available {
        return Err(FallbackError::NoFallback);
    }
    Ok(FallbackResponse {
        capability: status.name,
        level: status.level,
        reason: status.reason,
        message: String::from_str("serving reduced-functionality fallback response"),
    })
}

// ---------------------------------------------------------------------------
// Laws
// ---------------------------------------------------------------------------

/// A capability that was never registered is fully available, needs no
/// fallback and never blocks a negotiation.
pub proof fn lemma_unregistered_is_full(registry: Map<Seq<char>, CapabilityStatus>, name: Seq<char>)
    requires
        !registry.contains_key(name),
    ensures
        level_of(registry, name) == DegradationLevel::Full,
        !uses_fallback(registry, name),
        usable(registry, name),
{
}

/// Setting a capability's status is what later checks and negotiations
/// report for it, while other capabilities keep theirs.
pub proof fn lemma_set_then_check(
    registry: Map<Seq<char>, CapabilityStatus>,
    name: Seq<char>,
    status: CapabilityStatus,
    other: Seq<char>,
)
    requires
        status.name@ == name,
    ensures
        level_of(registry.insert(name, status), name) == status.level,
        reason_of(registry.insert(name, status), name) == status.reason,
        fallback_of(registry.insert(name, status), name) == status.fallback_available,
        other != name ==> level_of(registry.insert(name, status), other) == level_of(registry, other),
        other != name ==> uses_fallback(registry.insert(name, status), other) == uses_fallback(
            registry,
            other,
        ),
{
}

/// A negotiation can proceed whenever no requested capability is
/// unavailable; a capability that is fully available never uses its
/// fallback.
pub proof fn lemma_proceed_without_unavailable(
    registry: Map<Seq<char>, CapabilityStatus>,
    requested: Seq<Seq<char>>,
)
    requires
        forall|i: int|
            0 <= i < requested.len() ==> level_of(registry, #[trigger] requested[i])
                != DegradationLevel::Unavailable,
    ensures
        all_usable(registry, requested),
        forall|i: int|
            0 <= i < requested.len() && level_of(registry, #[trigger] requested[i])
                == DegradationLevel::Full ==> !uses_fallback(registry, requested[i]),
{
}


/// One requested capability that is registered as unavailable and has no
/// fallback stops a negotiation, wherever it stands in the request.
pub proof fn lemma_unusable_capability_blocks_negotiation(
    registry: Map<Seq<char>, CapabilityStatus>,
    requested: Seq<Seq<char>>,
    j: int,
)
    requires
        0 <= j < requested.len(),
        registry.contains_key(requested[j]),
        registry[requested[j]].level == DegradationLevel::Unavailable,
        !registry[requested[j]].fallback_available,
    ensures
        !all_usable(registry, requested),
{
    assert(!usable(registry, requested[j]));
}

/// A negotiation proceeds when no requested capability is registered as
/// unavailable without a fallback: with the law above, it proceeds exactly
/// when every requested capability can be used.
pub proof fn lemma_negotiation_proceeds_when_nothing_blocks(
    registry: Map<Seq<char>, CapabilityStatus>,
    requested: Seq<Seq<char>>,
)
    requires
        forall|i: int|
            0 <= i < requested.len() ==> !(registry.contains_key(#[trigger] requested[i])
                && registry[requested[i]].level == DegradationLevel::Unavailable
                && !registry[requested[i]].fallback_available),
    ensures
        all_usable(registry, requested),
{
}

} // verus!
