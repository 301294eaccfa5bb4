//! Multi-level template inheritance for vault slices.
//!
//! Templates may inherit from a parent template (parent ID 0 meaning none)
//! and carry field overrides. Creating a template whose ancestry would
//! reach the new template itself, or run deeper than
//! `MAX_INHERITANCE_DEPTH`, is refused, so the inheritance graph never has
//! a cycle. Resolved templates are cached until invalidated.
use vstd::prelude::*;
use std::collections::HashMap;

verus! {

broadcast use vstd::std_specs::hash::group_hash_axioms;

/// Maximum depth of an inheritance chain.
pub const MAX_INHERITANCE_DEPTH: u32 = 16;

/// Where template data is kept in contract storage.
#[derive(Copy, Clone, Debug, PartialEq, Eq, Structural)]
pub enum TemplateKey {
    /// template_id -> Template
    Template(u64),
    /// template_id -> parent template_id (only for templates with a parent)
    TemplateParent(u64),
    /// template_id -> field overrides (only for templates with a parent)
    TemplateOverrides(u64),
    /// The number of templates created so far.
    TemplateCount,
    /// template_id -> cached ResolvedTemplate
    ResolvedTemplate(u64),
}

/// A template that can be inherited from.
#[derive(Debug)]
pub struct Template {
    pub template_id: u64,
    /// Template name.
    pub name: Vec<u8>,
    /// Template configuration data.
    pub data: Vec<u8>,
    /// Parent template ID (0 for a root template).
    pub parent_template_id: u64,
    /// Field overrides.
    pub overrides: Vec<u8>,
    /// Ledger timestamp of creation.
    pub created_at: u64,
}

/// Abstract value of a template.
pub struct TemplateView {
    pub template_id: u64,
    pub name: Seq<u8>,
    pub data: Seq<u8>,
    pub parent_template_id: u64,
    pub overrides: Seq<u8>,
    pub created_at: u64,
}

impl View for Template {
    type V = TemplateView;

    open spec fn view(&self) -> TemplateView {
        TemplateView {
            template_id: self.template_id,
            name: self.name@,
            data: self.data@,
            parent_template_id: self.parent_template_id,
            overrides: self.overrides@,
            created_at: self.created_at,
        }
    }
}

impl Clone for Template {
    fn clone(&self) -> (r: Self)
        ensures
            r@ == self@,
    {
        Template {
            template_id: self.template_id,
            name: vstd::slice::slice_to_vec(self.name.as_slice()),
            data: vstd::slice::slice_to_vec(self.data.as_slice()),
            parent_template_id: self.parent_template_id,
            overrides: vstd::slice::slice_to_vec(self.overrides.as_slice()),
            created_at: self.created_at,
        }
    }
}

/// A template with its ancestry resolved.
#[derive(Debug)]
pub struct ResolvedTemplate {
    pub template_id: u64,
    pub name: Vec<u8>,
    /// Resolved data.
    pub resolved_data: Vec<u8>,
    /// Inheritance depth.
    pub depth: u32,
    /// Ledger timestamp of resolution.
    pub resolved_at: u64,
}

/// Abstract value of a resolved template.
pub struct ResolvedTemplateView {
    pub template_id: u64,
    pub name: Seq<u8>,
    pub resolved_data: Seq<u8>,
    pub depth: u32,
    pub resolved_at: u64,
}

impl View for ResolvedTemplate {
    type V = ResolvedTemplateView;

    open spec fn view(&self) -> ResolvedTemplateView {
        ResolvedTemplateView {
            template_id: self.template_id,
            name: self.name@,
            resolved_data: self.resolved_data@,
            depth: self.depth,
            resolved_at: self.resolved_at,
        }
    }
}

impl Clone for ResolvedTemplate {
    fn clone(&self) -> (r: Self)
        ensures
            r@ == self@,
    {
        ResolvedTemplate {
            template_id: self.template_id,
            name: vstd::slice::slice_to_vec(self.name.as_slice()),
            resolved_data: vstd::slice::slice_to_vec(self.resolved_data.as_slice()),
            depth: self.depth,
            resolved_at: self.resolved_at,
        }
    }
}

/// Outcome of checking a prospective inheritance link.
#[derive(Debug)]
pub struct CycleCheckResult {
    pub has_cycle: bool,
    /// The ancestors walked, ending with the child when it was reached.
    pub cycle_path: Vec<u64>,
}

/// A template was created.
#[derive(Copy, Clone, Debug, PartialEq, Eq, Structural)]
pub struct TemplateCreatedEvent {
    pub template_id: u64,
    pub parent_template_id: u64,
    pub timestamp: u64,
}

/// An inheritance chain was found broken.
#[derive(Debug)]
pub struct InheritanceChainBrokenEvent {
    pub template_id: u64,
    pub parent_template_id: u64,
    pub reason: Vec<u8>,
    pub timestamp: u64,
}

/// Why a template cannot be created.
#[derive(Copy, Clone, Debug, PartialEq, Eq, Structural)]
pub enum TemplateError {
    /// The parent's ancestry reaches the new template, or is too deep.
    InheritanceCycleDetected,
    /// The parent template does not exist.
    TemplateNotFound,
}

// ---------------------------------------------------------------------------
// Specification
// ---------------------------------------------------------------------------

/// The parent of template `id` (0 when it has none or does not exist).
pub open spec fn parent_in(ts: Seq<TemplateView>, id: u64) -> u64 {
    if id < ts.len() {
        ts[id as int].parent_template_id
    } else {
        0
    }
}

/// The overrides stored for template `id` (only templates with a parent
/// have them).
pub open spec fn overrides_in(ts: Seq<TemplateView>, id: u64) -> Seq<u8> {
    if id < ts.len() && ts[id as int].parent_template_id > 0 {
        ts[id as int].overrides
    } else {
        Seq::empty()
    }
}

/// The ancestor `n` parent links up from `id`.
pub open spec fn ancestor(ts: Seq<TemplateView>, id: u64, n: nat) -> u64
    decreases n,
{
    if n == 0 {
        id
    } else {
        ancestor(ts, parent_in(ts, id), (n - 1) as nat)
    }
}

/// Following parent links from `id` reaches a root.
pub open spec fn reaches_root(ts: Seq<TemplateView>, id: u64) -> bool {
    exists|n: nat| ancestor(ts, id, n) == 0
}

/// The inheritance graph has no cycle: from every template, following
/// parent links reaches a root.
pub open spec fn acyclic(ts: Seq<TemplateView>) -> bool {
    forall|id: u64| #[trigger] reaches_root(ts, id)
}

/// The walk of a cycle check from `current` (at `depth` links from the
/// prospective parent) towards the root, looking for `child`: whether a
/// cycle is reported, and the path walked.
pub open spec fn cycle_walk(ts: Seq<TemplateView>, current: u64, child: u64, depth: nat) -> (
    bool,
    Seq<u64>,
)
    decreases MAX_INHERITANCE_DEPTH - depth,
{
    if current == child {
        (true, seq![child])
    } else if current == 0 {
        (false, Seq::empty())
    } else if depth >= MAX_INHERITANCE_DEPTH {
        (true, Seq::empty())
    } else {
        let rest = cycle_walk(ts, parent_in(ts, current), child, depth + 1);
        if rest.0 {
            (true, seq![current] + rest.1)
        } else {
            (false, Seq::empty())
        }
    }
}

/// The depth of a resolution walk from `current`, at `depth` links below
/// the resolved template: `None` when an ancestor does not exist or the
/// chain is too deep.
pub open spec fn resolve_walk(ts: Seq<TemplateView>, current: u64, depth: nat) -> Option<nat>
    decreases MAX_INHERITANCE_DEPTH - depth,
{
    if current >= ts.len() {
        None
    } else if parent_in(ts, current) == 0 {
        Some(depth)
    } else if depth + 1 >= MAX_INHERITANCE_DEPTH {
        None
    } else {
        resolve_walk(ts, parent_in(ts, current), depth + 1)
    }
}

/// The overrides along a resolution walk from `current`, at `depth` links
/// below the resolved template, applied parent to child: the ancestors'
/// overrides first, then those of `current`.
pub open spec fn inherited_overrides(ts: Seq<TemplateView>, current: u64, depth: nat) -> Seq<u8>
    decreases MAX_INHERITANCE_DEPTH - depth,
{
    if current >= ts.len() || parent_in(ts, current) == 0 || depth + 1 >= MAX_INHERITANCE_DEPTH {
        overrides_in(ts, current)
    } else {
        inherited_overrides(ts, parent_in(ts, current), depth + 1) + overrides_in(ts, current)
    }
}

/// The number of parent links above `current` (plus `depth`), counted up
/// to `MAX_INHERITANCE_DEPTH`.
pub open spec fn depth_walk(ts: Seq<TemplateView>, current: u64, depth: nat) -> nat
    decreases MAX_INHERITANCE_DEPTH - depth,
{
    if parent_in(ts, current) == 0 {
        depth
    } else if depth + 1 >= MAX_INHERITANCE_DEPTH {
        depth + 1
    } else {
        depth_walk(ts, parent_in(ts, current), depth + 1)
    }
}

/// Whether creating a template with this parent is refused.
pub open spec fn creation_refused(ts: Seq<TemplateView>, parent: u64) -> bool {
    parent > 0 && cycle_walk(ts, parent, ts.len() as u64, 0).0
}

/// A creation step: refused as a cycle, or the new template appended
/// under the next ID.
pub open spec fn template_created(
    pre: Seq<TemplateView>,
    post: Seq<TemplateView>,
    name: Seq<u8>,
    data: Seq<u8>,
    parent: u64,
    overrides: Seq<u8>,
    now: u64,
    r: Result<u64, TemplateError>,
) -> bool {
    if creation_refused(pre, parent) {
        r == Err::<u64, TemplateError>(TemplateError::InheritanceCycleDetected) && post == pre
    } else {
        &&& r == Ok::<u64, TemplateError>(pre.len() as u64)
        &&& post == pre.push(
            TemplateView {
                template_id: pre.len() as u64,
                name,
                data,
                parent_template_id: parent,
                overrides,
                created_at: now,
            },
        )
    }
}

/// The view of an optional resolution.
pub open spec fn opt_resolved_view(r: Option<ResolvedTemplate>) -> Option<ResolvedTemplateView> {
    match r {
        Some(c) => Some(c@),
        None => None,
    }
}

/// A resolution step: the cached resolution if there is one; otherwise,
/// when the template and its ancestors exist within the depth limit, its
/// name, its data followed by the overrides of its ancestors and itself
/// (parent to child), and its depth, stamped `now` and cached; otherwise
/// none.
pub open spec fn resolve_step(
    ts: Seq<TemplateView>,
    pre: Map<u64, ResolvedTemplateView>,
    post: Map<u64, ResolvedTemplateView>,
    template_id: u64,
    now: u64,
    r: Option<ResolvedTemplateView>,
) -> bool {
    if pre.contains_key(template_id) {
        r == Some(pre[template_id]) && post == pre
    } else {
        match resolve_walk(ts, template_id, 0) {
            None => r is None && post == pre,
            Some(d) => {
                let t = ts[template_id as int];
                let v = ResolvedTemplateView {
                    template_id,
                    name: t.name,
                    resolved_data: t.data + inherited_overrides(ts, template_id, 0),
                    depth: d as u32,
                    resolved_at: now,
                };
                r == Some(v) && post == pre.insert(template_id, v)
            },
        }
    }
}

// ---------------------------------------------------------------------------
// Registry
// ---------------------------------------------------------------------------

/// The templates created so far (template `i` has ID `i`) and the cache of
/// resolved templates.
#[derive(Debug)]
pub struct TemplateRegistry {
    templates: Vec<Template>,
    cache: HashMap<u64, ResolvedTemplate>,
}

impl TemplateRegistry {
    /// Template `i` has ID `i`, the count fits its type, and the graph has
    /// no cycle.
    pub closed spec fn wf(&self) -> bool {
        &&& self.templates@.len() < u64::MAX
        &&& forall|i: int|
            0 <= i < self.templates@.len() ==> (#[trigger] self.templates@[i]).template_id == i
        &&& acyclic(self.templates())
    }

    /// The templates, in ID order.
    pub closed spec fn templates(&self) -> Seq<TemplateView> {
        self.templates@.map_values(|t: Template| t@)
    }

    /// The cached resolutions, by template ID.
    pub closed spec fn cache(&self) -> Map<u64, ResolvedTemplateView> {
        self.cache@.map_values(|r: ResolvedTemplate| r@)
    }

    /// A registry with no templates.
    pub fn new() -> (r: Self)
        ensures
            r.wf(),
            r.templates() == Seq::<TemplateView>::empty(),
            r.cache() == Map::<u64, ResolvedTemplateView>::empty(),
    {
        let r = TemplateRegistry { templates: Vec::new(), cache: HashMap::new() };
        proof {
            assert(r.templates() =~= Seq::<TemplateView>::empty());
            assert(r.cache() =~= Map::<u64, ResolvedTemplateView>::empty());
            assert forall|id: u64| #[trigger] reaches_root(r.templates(), id) by {
                assert(ancestor(r.templates(), 0, 0) == 0);
                assert(ancestor(r.templates(), id, 1) == 0);
            }
        }
        r
    }

    /// The template with ID `template_id`.
    pub fn get_template(&self, template_id: u64) -> (r: Option<Template>)
        requires
            self.wf(),
        ensures
            template_id < self.templates().len() ==> (r matches Some(t) && t@ == self.templates()[template_id as int]),
            template_id >= self.templates().len() ==> r is None,
    {
        if template_id < self.templates.len() as u64 {
            Some(self.templates[template_id as usize].clone())
        } else {
            None
        }
    }

    /// The parent of a template (0 when it has none or does not exist).
    pub fn get_parent_template_id(&self, template_id: u64) -> (r: u64)
        requires
            self.wf(),
        ensures
            r == parent_in(self.templates(), template_id),
    {
        if template_id < self.templates.len() as u64 {
            self.templates[template_id as usize].parent_template_id
        } else {
            0
        }
    }

    /// The overrides of a template (none for a root or missing template).
    pub fn get_template_overrides(&self, template_id: u64) -> (r: Vec<u8>)
        requires
            self.wf(),
        ensures
            r@ == overrides_in(self.templates(), template_id),
    {
        if template_id < self.templates.len() as u64 {
            let t = &self.templates[template_id as usize];
            if t.parent_template_id > 0 {
                return vstd::slice::slice_to_vec(t.overrides.as_slice());
            }
        }
        Vec::new()
    }

    /// Whether making `parent_id` the parent of a template with ID
    /// `child_id` would close a cycle (or make the chain too deep).
    pub fn check_inheritance_cycle(&self, parent_id: u64, child_id: u64) -> (r: CycleCheckResult)
        requires
            self.wf(),
        ensures
            r.has_cycle == cycle_walk(self.templates(), parent_id, child_id, 0).0,
            r.cycle_path@ == cycle_walk(self.templates(), parent_id, child_id, 0).1,
    {
        let ghost ts = self.templates();
        let mut visited: Vec<u64> = Vec::new();
        let mut current = parent_id;
        let mut depth: u32 = 0;
        loop
            invariant
                self.wf(),
                ts == self.templates(),
                depth <= MAX_INHERITANCE_DEPTH,
                cycle_walk(ts, parent_id, child_id, 0) == (if cycle_walk(
                    ts,
                    current,
                    child_id,
                    depth as nat,
                ).0 {
                    (true, visited@ + cycle_walk(ts, current, child_id, depth as nat).1)
                } else {
                    (false, Seq::<u64>::empty())
                }),
            decreases MAX_INHERITANCE_DEPTH - depth,
        {
            if current == child_id {
                visited.push(child_id);
                return CycleCheckResult { has_cycle: true, cycle_path: visited };
            }
            if current == 0 {
                return CycleCheckResult { has_cycle: false, cycle_path: Vec::new() };
            }
            if depth >= MAX_INHERITANCE_DEPTH {
                proof {
                    assert(visited@ + Seq::<u64>::empty() =~= visited@);
                }
                return CycleCheckResult { has_cycle: true, cycle_path: visited };
            }
            let ghost before = visited@;
            let ghost rest = cycle_walk(ts, parent_in(ts, current), child_id, depth as nat + 1);
            visited.push(current);
            proof {
                assert(before + (seq![current] + rest.1) =~= visited@ + rest.1);
            }
            current = self.get_parent_template_id(current);
            depth = depth + 1;
        }
    }

    /// Creates a template with the next ID, stamped `now`; a parent whose
    /// ancestry reaches the new ID (or runs too deep) is refused.
    pub fn create_template(
        &mut self,
        name: Vec<u8>,
        data: Vec<u8>,
        parent_template_id: u64,
        overrides: Vec<u8>,
        now: u64,
    ) -> (r: Result<u64, TemplateError>)
        requires
            old(self).wf(),
            old(self).templates().len() + 1 < u64::MAX,
        ensures
            final(self).wf(),
            template_created(
                old(self).templates(),
                final(self).templates(),
                name@,
                data@,
                parent_template_id,
                overrides@,
                now,
                r,
            ),
            final(self).cache() == old(self).cache(),
    {
        let template_id = self.templates.len() as u64;
        if parent_template_id > 0 {
            let result = self.check_inheritance_cycle(parent_template_id, template_id);
            if result.has_cycle {
                return Err(TemplateError::InheritanceCycleDetected);
            }
        }
        let ghost pre = self.templates();
        let ghost new_view = TemplateView {
            template_id,
            name: name@,
            data: data@,
            parent_template_id,
            overrides: overrides@,
            created_at: now,
        };
        self.templates.push(
            Template { template_id, name, data, parent_template_id, overrides, created_at: now },
        );
        proof {
            assert(self.templates() =~= pre.push(new_view));
            lemma_creation_keeps_acyclic(pre, self.templates(), parent_template_id, new_view);
        }
        Ok(template_id)
    }

    /// Creates a template inheriting from `parent_id`, with its name and
    /// data and the given overrides.
    pub fn create_inherited_template(&mut self, parent_id: u64, overrides: Vec<u8>, now: u64) -> (r:
        Result<u64, TemplateError>)
        requires
            old(self).wf(),
            old(self).templates().len() + 1 < u64::MAX,
        ensures
            final(self).wf(),
            final(self).cache() == old(self).cache(),
            parent_id >= old(self).templates().len() ==> r == Err::<u64, TemplateError>(
                TemplateError::TemplateNotFound,
            ) && final(self).templates() == old(self).templates(),
            parent_id < old(self).templates().len() ==> template_created(
                old(self).templates(),
                final(self).templates(),
                old(self).templates()[parent_id as int].name,
                old(self).templates()[parent_id as int].data,
                parent_id,
                overrides@,
                now,
                r,
            ),
    {
        match self.get_template(parent_id) {
            None => Err(TemplateError::TemplateNotFound),
            Some(parent) => self.create_template(parent.name, parent.data, parent_id, overrides, now),
        }
    }

    /// Resolves a template at ledger time `now`: the cached resolution if
    /// there is one; otherwise, when the template and all its ancestors
    /// exist within `MAX_INHERITANCE_DEPTH` links, its data with every
    /// override on its chain applied parent to child (the override bytes
    /// appended in that order), at its depth, which is then cached.
    pub fn resolve_template(&mut self, template_id: u64, now: u64) -> (r: Option<ResolvedTemplate>)
        requires
            old(self).wf(),
        ensures
            final(self).wf(),
            final(self).templates() == old(self).templates(),
            resolve_step(
                old(self).templates(),
                old(self).cache(),
                final(self).cache(),
                template_id,
                now,
                opt_resolved_view(r),
            ),
    {
        match self.cache.get(&template_id) {
            Some(c) => {
                return Some(c.clone());
            },
            None => {},
        }
        assert(!self.cache().contains_key(template_id));
        if template_id >= self.templates.len() as u64 {
            return None;
        }
        let ghost ts = self.templates();
        let mut depth: u32 = 0;
        let mut current = template_id;
        let mut applied: Vec<u8> = Vec::new();
        loop
            invariant
                self.wf(),
                ts == self.templates(),
                *self == *old(self),
                !self.cache().contains_key(template_id),
                depth < MAX_INHERITANCE_DEPTH,
                resolve_walk(ts, template_id, 0) == resolve_walk(ts, current, depth as nat),
                resolve_walk(ts, template_id, 0) is Some ==> inherited_overrides(ts, template_id, 0)
                    == inherited_overrides(ts, current, depth as nat) + applied@,
            ensures
                resolve_walk(ts, template_id, 0) == Some(depth as nat),
                inherited_overrides(ts, template_id, 0) == applied@,
            decreases MAX_INHERITANCE_DEPTH - depth,
        {
            if current >= self.templates.len() as u64 {
                return None;
            }
            let mut own = self.get_template_overrides(current);
            let parent_id = self.get_parent_template_id(current);
            let ghost before = applied@;
            let ghost prev = current;
            let ghost prev_depth = depth as nat;
            own.append(&mut applied);
            applied = own;
            if parent_id == 0 {
                break;
            }
            current = parent_id;
            depth = depth + 1;
            if depth >= MAX_INHERITANCE_DEPTH {
                return None;
            }
            proof {
                assert(inherited_overrides(ts, prev, prev_depth) == inherited_overrides(
                    ts,
                    current,
                    depth as nat,
                ) + overrides_in(ts, prev));
                assert(inherited_overrides(ts, current, depth as nat) + overrides_in(ts, prev)
                    + before =~= inherited_overrides(ts, current, depth as nat) + applied@);
            }
        }
        let template = &self.templates[template_id as usize];
        let mut resolved_data = vstd::slice::slice_to_vec(template.data.as_slice());
        let mut tail = applied;
        resolved_data.append(&mut tail);
        let resolved = ResolvedTemplate {
            template_id,
            name: vstd::slice::slice_to_vec(template.name.as_slice()),
            resolved_data,
            depth,
            resolved_at: now,
        };
        let ghost old_cache = self.cache();
        self.cache.insert(template_id, resolved.clone());
        proof {
            assert(self.cache() =~= old_cache.insert(template_id, resolved@));
        }
        Some(resolved)
    }

    /// Drops the cached resolution of a template.
    pub fn invalidate_template_cache(&mut self, template_id: u64)
        requires
            old(self).wf(),
        ensures
            final(self).wf(),
            final(self).templates() == old(self).templates(),
            final(self).cache() == old(self).cache().remove(template_id),
    {
        let ghost old_cache = self.cache();
        self.cache.remove(&template_id);
        proof {
            assert(self.cache() =~= old_cache.remove(template_id));
        }
    }

    /// The number of parent links above a template, counted up to
    /// `MAX_INHERITANCE_DEPTH`.
    pub fn get_inheritance_depth(&self, template_id: u64) -> (r: u32)
        requires
            self.wf(),
        ensures
            r == depth_walk(self.templates(), template_id, 0),
            r <= MAX_INHERITANCE_DEPTH,
    {
        let ghost ts = self.templates();
        let mut depth: u32 = 0;
        let mut current = template_id;
        loop
            invariant_except_break
                depth < MAX_INHERITANCE_DEPTH,
                depth_walk(ts, template_id, 0) == depth_walk(ts, current, depth as nat),
            invariant
                self.wf(),
                ts == self.templates(),
            ensures
                depth_walk(ts, template_id, 0) == depth as nat,
                depth <= MAX_INHERITANCE_DEPTH,
            decreases MAX_INHERITANCE_DEPTH - depth,
        {
            let parent_id = self.get_parent_template_id(current);
            if parent_id == 0 {
                break;
            }
            current = parent_id;
            depth = depth + 1;
            if depth >= MAX_INHERITANCE_DEPTH {
                break;
            }
        }
        depth
    }
}

// ---------------------------------------------------------------------------
// Laws
// ---------------------------------------------------------------------------

/// Appending a template changes no parent link but the new one's.
proof fn lemma_parent_after_push(ts: Seq<TemplateView>, t: TemplateView, x: u64)
    requires
        ts.len() < u64::MAX,
    ensures
        x != ts.len() ==> parent_in(ts.push(t), x) == parent_in(ts, x),
        x == ts.len() ==> parent_in(ts.push(t), x) == t.parent_template_id,
{
}

/// A passed cycle check means the prospective parent's ancestry reaches a
/// root without meeting the new template, also once it is appended.
proof fn lemma_passed_check_reaches_root(
    ts: Seq<TemplateView>,
    t: TemplateView,
    current: u64,
    depth: nat,
)
    requires
        ts.len() < u64::MAX,
        !cycle_walk(ts, current, ts.len() as u64, depth).0,
    ensures
        reaches_root(ts.push(t), current),
    decreases MAX_INHERITANCE_DEPTH - depth,
{
    let post = ts.push(t);
    if current == 0 {
        assert(ancestor(post, current, 0) == 0);
    } else {
        let p = parent_in(ts, current);
        lemma_passed_check_reaches_root(ts, t, p, depth + 1);
        lemma_parent_after_push(ts, t, current);
        let n = choose|n: nat| ancestor(post, p, n) == 0;
        assert(ancestor(post, current, n + 1) == 0);
    }
}

/// Walks of the old graph that reach a root also reach one in the graph
/// with the new template appended (after a passed cycle check).
proof fn lemma_old_walk_reaches_root(ts: Seq<TemplateView>, t: TemplateView, x: u64, n: nat)
    requires
        ts.len() < u64::MAX,
        ancestor(ts, x, n) == 0,
        t.parent_template_id == 0 || !cycle_walk(ts, t.parent_template_id, ts.len() as u64, 0).0,
    ensures
        reaches_root(ts.push(t), x),
    decreases n,
{
    let post = ts.push(t);
    lemma_parent_after_push(ts, t, x);
    if x == 0 {
        assert(ancestor(post, x, 0) == 0);
    } else if x == ts.len() {
        let p = t.parent_template_id;
        if p == 0 {
            assert(ancestor(post, 0, 0) == 0);
            assert(ancestor(post, x, 1) == 0);
        } else {
            lemma_passed_check_reaches_root(ts, t, p, 0);
            let m = choose|m: nat| ancestor(post, p, m) == 0;
            assert(ancestor(post, x, m + 1) == 0);
        }
    } else {
        let p = parent_in(ts, x);
        lemma_old_walk_reaches_root(ts, t, p, (n - 1) as nat);
        let m = choose|m: nat| ancestor(post, p, m) == 0;
        assert(ancestor(post, x, m + 1) == 0);
    }
}

/// Creating a template never introduces an inheritance cycle: if following
/// parent links from every template reaches a root before a creation, it
/// still does after it.
pub proof fn lemma_creation_keeps_acyclic(
    pre: Seq<TemplateView>,
    post: Seq<TemplateView>,
    parent: u64,
    t: TemplateView,
)
    requires
        pre.len() < u64::MAX,
        acyclic(pre),
        !creation_refused(pre, parent),
        t.parent_template_id == parent,
        post == pre.push(t),
    ensures
        acyclic(post),
{
    assert forall|id: u64| #[trigger] reaches_root(post, id) by {
        assert(reaches_root(pre, id));
        let n = choose|n: nat| ancestor(pre, id, n) == 0;
        lemma_old_walk_reaches_root(pre, t, id, n);
    }
}

/// Resolving a template twice, with no invalidation in between, gives
/// the first resolution again (whatever the time) and changes nothing the
/// second time.
pub proof fn lemma_resolve_is_cached(
    ts: Seq<TemplateView>,
    c0: Map<u64, ResolvedTemplateView>,
    c1: Map<u64, ResolvedTemplateView>,
    c2: Map<u64, ResolvedTemplateView>,
    template_id: u64,
    now1: u64,
    now2: u64,
    r1: Option<ResolvedTemplateView>,
    r2: Option<ResolvedTemplateView>,
)
    requires
        resolve_step(ts, c0, c1, template_id, now1, r1),
        r1 is Some,
        resolve_step(ts, c1, c2, template_id, now2, r2),
    ensures
        r2 == r1,
        c2 == c1,
{
}

/// A resolved template is fewer than `MAX_INHERITANCE_DEPTH` links below
/// a root.
pub proof fn lemma_resolved_depth_bounded(ts: Seq<TemplateView>, current: u64, depth: nat)
    requires
        depth < MAX_INHERITANCE_DEPTH,
        resolve_walk(ts, current, depth) is Some,
    ensures
        resolve_walk(ts, current, depth)->0 < MAX_INHERITANCE_DEPTH,
    decreases MAX_INHERITANCE_DEPTH - depth,
{
    if current < ts.len() && parent_in(ts, current) != 0 && depth + 1 < MAX_INHERITANCE_DEPTH {
        lemma_resolved_depth_bounded(ts, parent_in(ts, current), depth + 1);
    }
}

} // verus!
