//! Scopes, background tasks and suspended leaves, and what happens when one
//! of them is woken.
use crate::diff::{diff_ops, fresh, in_tree, stable, create, create_ops, diff, emitted, extends, free_subtree, lemma_emitted, same_kind};
use crate::ids::{ElementId, ScopeId, SuspenseId, TaskId};
use crate::mutations::{balanced, lemma_push, target, Mutation, Mutations};
use crate::nodes::{mounted, same_template, VNode};
use crate::slab::Slab;
use vstd::prelude::*;

verus! {

/// The render state of one component instance.
#[derive(Debug)]
pub struct ScopeState {
    pub parent: Option<ScopeId>,
    /// The node that the scope's first output takes the place of.
    pub anchor: ElementId,
    /// Key of the nearest suspense boundary record, if any.
    pub boundary: Option<usize>,
    /// The background tasks this scope owns.
    pub spawned_tasks: Vec<TaskId>,
    /// The scope's current output, mounted.
    pub root: Option<VNode>,
}

/// A background task: its future lives with the caller, keyed by its `TaskId`.
#[derive(Debug)]
pub struct TaskState {
    pub scope: ScopeId,
}

/// A suspended computation, and the placeholder reserved for its result.
#[derive(Debug)]
pub struct SuspenseLeaf {
    pub scope: ScopeId,
    pub placeholder: ElementId,
}

/// The edits held back under one suspense boundary until they are forwarded.
#[derive(Debug)]
pub struct SuspenseBoundary {
    pub scope: ScopeId,
    pub mutations: Mutations,
}

/// What polling a suspended computation gave.
#[derive(Debug)]
pub enum LeafPoll {
    Pending,
    /// The computation finished; `None` when it rendered nothing.
    Ready(Option<VNode>),
}

/// Integrity errors of a suspense wakeup.
#[derive(Debug, PartialEq, Eq, Structural)]
pub enum SuspenseError {
    /// The leaf's scope has no suspense boundary to receive the edits.
    MissingBoundary,
    /// The leaf's placeholder handle is no longer live.
    StalePlaceholder,
}

/// Integrity errors of rendering a scope.
#[derive(Debug, PartialEq, Eq, Structural)]
pub enum RenderError {
    UnknownScope,
    /// The scope's output cannot be edited: its anchor or root is not mounted.
    Unmounted,
}

/// The coordinator: identity arenas and scheduler tables of one tree.
#[derive(Debug)]
pub struct VirtualDom {
    pub elements: Slab<()>,
    pub scopes: Slab<ScopeState>,
    pub tasks: Slab<TaskState>,
    pub leaves: Slab<SuspenseLeaf>,
    pub boundaries: Slab<SuspenseBoundary>,
}

impl VirtualDom {
    pub open spec fn wf(&self) -> bool {
        &&& self.elements.wf()
        &&& self.scopes.wf()
        &&& self.tasks.wf()
        &&& self.leaves.wf()
        &&& self.boundaries.wf()
        &&& forall|k: usize|
            #[trigger] self.scopes@.contains_key(k) && self.scopes@[k].root is Some ==> mounted(
                self.scopes@[k].root->Some_0,
            )
    }

    /// The key of the boundary record that catches suspended leaves of `s`.
    pub open spec fn boundary_of(&self, s: ScopeId) -> Option<usize> {
        if self.scopes@.contains_key(s.0) && self.scopes@[s.0].boundary is Some
            && self.boundaries@.contains_key(self.scopes@[s.0].boundary->Some_0) {
            self.scopes@[s.0].boundary
        } else {
            None
        }
    }

    /// An empty tree whose only live handle, 0, is the node the root
    /// scope is first mounted in place of.
    pub fn new() -> (r: VirtualDom)
        ensures
            r.wf(),
            r.elements@ == Map::<usize, ()>::empty().insert(0, ()),
            r.scopes@.len() == 0,
            r.tasks@.len() == 0,
            r.leaves@.len() == 0,
            r.boundaries@.len() == 0,
    {
        let mut elements = Slab::new();
        elements.insert(());
        VirtualDom {
            elements,
            scopes: Slab::new(),
            tasks: Slab::new(),
            leaves: Slab::new(),
            boundaries: Slab::new(),
        }
    }
}


/// The outcome of waking task `id`, which was polled to completion when
/// `completed` holds: a finished task leaves the table and its scope's list;
/// anything else, a stale wake included, changes nothing.
pub open spec fn task_wake(a: VirtualDom, b: VirtualDom, id: TaskId, completed: bool) -> bool {
    if completed && a.tasks@.contains_key(id.0) {
        let owner = a.tasks@[id.0].scope.0;
        &&& b.tasks@ == a.tasks@.remove(id.0)
        &&& b.leaves@ == a.leaves@
        &&& b.elements@ == a.elements@
        &&& b.boundaries@ == a.boundaries@
        &&& b.scopes@.dom() == a.scopes@.dom()
        &&& forall|k: usize| #[trigger] b.scopes@.contains_key(k) && k != owner ==> b.scopes@[k] == a.scopes@[k]
        &&& a.scopes@.contains_key(owner) ==> {
            let (x, y) = (a.scopes@[owner], b.scopes@[owner]);
            &&& y.parent == x.parent && y.anchor == x.anchor && y.boundary == x.boundary && y.root == x.root
            &&& y.spawned_tasks@ == x.spawned_tasks@.filter(other_than(id))
        }
    } else {
        b == a
    }
}

/// The outcome of waking suspended leaf `id` with what polling it gave.
pub open spec fn suspense_wake(
    a: VirtualDom,
    b: VirtualDom,
    id: SuspenseId,
    poll: LeafPoll,
    res: Result<(), SuspenseError>,
) -> bool {
    if !a.leaves@.contains_key(id.0) || poll is Pending {
        b == a && res is Ok
    } else {
        let leaf = a.leaves@[id.0];
        if a.boundary_of(leaf.scope) is None {
            b == a && res == Err::<(), SuspenseError>(SuspenseError::MissingBoundary)
        } else if !a.elements@.contains_key(leaf.placeholder.0) {
            b == a && res == Err::<(), SuspenseError>(SuspenseError::StalePlaceholder)
        } else {
            let k = a.boundary_of(leaf.scope)->Some_0;
            &&& res is Ok
            &&& b.leaves@ == a.leaves@.remove(id.0)
            &&& b.tasks@ == a.tasks@
            &&& match poll {
                LeafPoll::Ready(Some(t)) => {
                    let r = b.scopes@[leaf.scope.0].root->Some_0;
                    let batch = create_ops(r, leaf.scope) + seq![
                        Mutation::ReplaceWith { id: leaf.placeholder, m: 1 },
                    ];
                    &&& b.scopes@.contains_key(leaf.scope.0)
                    &&& b.scopes@[leaf.scope.0].root is Some
                    &&& same_template(r, t)
                    &&& b.boundaries@.dom() == a.boundaries@.dom()
                    &&& b.boundaries@[k].mutations.edits@ == a.boundaries@[k].mutations.edits@ + batch
                    &&& balanced(batch)
                    &&& forall|i: int| 0 <= i < batch.len() - 1 ==> target(#[trigger] batch[i]) != Some(leaf.placeholder)
                    &&& !b.elements@.contains_key(leaf.placeholder.0)
                    &&& fresh(create_ops(r, leaf.scope), a.elements@, b.elements@)
                    &&& forall|e: usize| #[trigger] a.elements@.contains_key(e) && e != leaf.placeholder.0
                        ==> b.elements@.contains_key(e)
                    &&& b.boundaries@[k].scope == a.boundaries@[k].scope
                    &&& forall|j: usize| #[trigger] b.boundaries@.contains_key(j) && j != k
                        ==> b.boundaries@[j] == a.boundaries@[j]
                    &&& b.scopes@.dom() == a.scopes@.dom()
                    &&& forall|j: usize| #[trigger] b.scopes@.contains_key(j) && j != leaf.scope.0
                        ==> b.scopes@[j] == a.scopes@[j]
                    &&& b.scopes@[leaf.scope.0].parent == a.scopes@[leaf.scope.0].parent
                    &&& b.scopes@[leaf.scope.0].anchor == a.scopes@[leaf.scope.0].anchor
                    &&& b.scopes@[leaf.scope.0].boundary == a.scopes@[leaf.scope.0].boundary
                    &&& b.scopes@[leaf.scope.0].spawned_tasks == a.scopes@[leaf.scope.0].spawned_tasks
                },
                _ => b.scopes@ == a.scopes@ && b.boundaries@ == a.boundaries@ && b.elements@ == a.elements@,
            }
        }
    }
}

/// The outcome of tearing down `scope`: its tasks and leaves leave the
/// tables, and the scope itself is gone.
pub open spec fn torn_down(a: VirtualDom, b: VirtualDom, scope: ScopeId) -> bool {
    &&& forall|t: usize| #[trigger] b.tasks@.contains_key(t) <==> a.tasks@.contains_key(t) && a.tasks@[t].scope != scope
    &&& forall|t: usize| #[trigger] b.tasks@.contains_key(t) ==> b.tasks@[t] == a.tasks@[t]
    &&& forall|s: usize| #[trigger] b.leaves@.contains_key(s) <==> a.leaves@.contains_key(s) && a.leaves@[s].scope != scope
    &&& forall|s: usize| #[trigger] b.leaves@.contains_key(s) ==> b.leaves@[s] == a.leaves@[s]
    &&& !b.scopes@.contains_key(scope.0)
    &&& forall|k: usize| #[trigger] b.scopes@.contains_key(k) <==> a.scopes@.contains_key(k) && k != scope.0
    &&& forall|s: usize| #[trigger] a.leaves@.contains_key(s) && a.leaves@[s].scope == scope
        ==> !b.elements@.contains_key(a.leaves@[s].placeholder.0)
    &&& a.scopes@.contains_key(scope.0) && a.scopes@[scope.0].root is Some ==> forall|k: usize|
        #[trigger] in_tree(a.scopes@[scope.0].root->Some_0, k) ==> !b.elements@.contains_key(k)
    &&& forall|k: usize| #[trigger] b.elements@.contains_key(k) ==> a.elements@.contains_key(k)
}

/// Keeps the tasks other than `id`.
pub open spec fn other_than(id: TaskId) -> spec_fn(TaskId) -> bool {
    |t: TaskId| t != id
}

fn remove_task_id(v: &Vec<TaskId>, id: TaskId) -> (r: Vec<TaskId>)
    ensures
        r@ == v@.filter(other_than(id)),
{
    let mut r: Vec<TaskId> = Vec::new();
    let mut i: usize = 0;
    while i < v.len()
        invariant
            i <= v@.len(),
            r@ == v@.take(i as int).filter(other_than(id)),
        decreases v@.len() - i,
    {
        proof {
            assert(v@.take(i + 1).drop_last() =~= v@.take(i as int));
            assert(v@.take(i + 1).last() == v@[i as int]);
            let f = other_than(id);
            reveal(Seq::filter);
            assert(v@.take(i + 1).filter(f) == if f(v@[i as int]) {
                v@.take(i as int).filter(f).push(v@[i as int])
            } else {
                v@.take(i as int).filter(f)
            });
        }
        if v[i] != id {
            r.push(v[i]);
        }
        i = i + 1;
    }
    assert(v@.take(i as int) =~= v@);
    r
}

impl VirtualDom {
    /// Handles a wake notification for task `id`, after the caller polled
    /// exactly that task; `completed` says whether it finished. No other task
    /// or leaf is touched, and a wake for an id that is not registered is
    /// ignored.
    pub fn handle_task_wakeup(&mut self, id: TaskId, completed: bool)
        requires
            old(self).wf(),
        ensures
            final(self).wf(),
            task_wake(*old(self), *final(self), id, completed),
    {
        if !completed {
            return;
        }
        let owner = match self.tasks.get(id.0) {
            Some(t) => t.scope,
            None => return,
        };
        if self.scopes.contains(owner.0) {
            let dummy = ScopeState { parent: None, anchor: ElementId(0), boundary: None, spawned_tasks: Vec::new(), root: None };
            let st = self.scopes.replace(owner.0, dummy);
            let kept = remove_task_id(&st.spawned_tasks, id);
            let st2 = ScopeState { parent: st.parent, anchor: st.anchor, boundary: st.boundary, spawned_tasks: kept, root: st.root };
            self.scopes.replace(owner.0, st2);
        }
        self.tasks.remove(id.0);
        proof {
            assert(self.scopes@.dom() =~= old(self).scopes@.dom());
        }
    }

    /// Handles a wake notification for suspended leaf `id`, after the caller
    /// polled exactly that leaf. A finished leaf leaves the table; when it
    /// produced a tree, that tree is built into the buffer of the scope's
    /// suspense boundary and put in the place of the leaf's placeholder,
    /// whose handle is released, and it becomes the scope's output.
    pub fn handle_suspense_wakeup(&mut self, id: SuspenseId, poll: LeafPoll) -> (res: Result<(), SuspenseError>)
        requires
            old(self).wf(),
        ensures
            final(self).wf(),
            suspense_wake(*old(self), *final(self), id, poll, res),
    {
        let ghost a = *self;
        let (scope, placeholder) = match self.leaves.get(id.0) {
            Some(l) => (l.scope, l.placeholder),
            None => return Ok(()),
        };
        let template = match poll {
            LeafPoll::Pending => return Ok(()),
            LeafPoll::Ready(t) => t,
        };
        let b = match self.scopes.get(scope.0) {
            Some(st) => st.boundary,
            None => None,
        };
        let b = match b {
            Some(b) => b,
            None => return Err(SuspenseError::MissingBoundary),
        };
        if !self.boundaries.contains(b) {
            return Err(SuspenseError::MissingBoundary);
        }
        if !self.elements.contains(placeholder.0) {
            return Err(SuspenseError::StalePlaceholder);
        }
        self.leaves.remove(id.0);
        if let Some(t) = template {
            let mut rec = self.boundaries.replace(b, SuspenseBoundary { scope, mutations: Mutations::new() });
            let ghost e0 = self.elements@;
            let ghost m0 = rec.mutations.edits@;
            let r = create(&mut self.elements, &mut rec.mutations, scope, &t);
            let m = Mutation::ReplaceWith { id: placeholder, m: 1 };
            rec.mutations.edits.push(m);
            self.elements.remove(placeholder.0);
            self.boundaries.replace(b, rec);
            let dummy = ScopeState { parent: None, anchor: ElementId(0), boundary: None, spawned_tasks: Vec::new(), root: None };
            let st = self.scopes.replace(scope.0, dummy);
            let st2 = ScopeState { parent: st.parent, anchor: st.anchor, boundary: st.boundary, spawned_tasks: st.spawned_tasks, root: Some(r) };
            self.scopes.replace(scope.0, st2);
            proof {
                let cs = create_ops(r, scope);
                let batch = cs + seq![m];
                lemma_push(cs, m, 0);
                assert(batch =~= cs.push(m));
                assert(self.boundaries@[b].mutations.edits@ =~= m0 + batch);
                assert(self.boundaries@.dom() =~= a.boundaries@.dom());
                assert(self.scopes@.dom() =~= a.scopes@.dom());
                assert forall|k: int| 0 <= k < cs.len() && (#[trigger] target(cs[k])) is Some implies !a.elements@.contains_key(
                    target(cs[k])->Some_0.0) && self.elements@.contains_key(target(cs[k])->Some_0.0) by {
                    assert(target(cs[k])->Some_0.0 != placeholder.0);
                }
                assert forall|i: int| 0 <= i < batch.len() - 1 implies target(#[trigger] batch[i]) != Some(placeholder) by {
                    assert(batch[i] == cs[i]);
                }
                assert forall|k: usize| #[trigger] self.scopes@.contains_key(k) && self.scopes@[k].root is Some implies mounted(
                    self.scopes@[k].root->Some_0) by {
                    if k != scope.0 {
                        assert(a.scopes@.contains_key(k));
                    }
                }
            }
        }
        Ok(())
    }
}

/// Waking task `id` resumes that task alone: every other task is still
/// registered as it was, and no suspended leaf is touched.
pub proof fn lemma_precise_task_wakeup(a: VirtualDom, b: VirtualDom, id: TaskId, completed: bool, other: usize)
    requires
        task_wake(a, b, id, completed),
        other != id.0,
    ensures
        b.tasks@.contains_key(other) == a.tasks@.contains_key(other),
        a.tasks@.contains_key(other) ==> b.tasks@[other] == a.tasks@[other],
        b.leaves@ == a.leaves@,
{
}

/// Waking leaf `id` resumes that leaf alone: every other leaf is still
/// registered as it was, and no task is touched.
pub proof fn lemma_precise_suspense_wakeup(
    a: VirtualDom,
    b: VirtualDom,
    id: SuspenseId,
    poll: LeafPoll,
    res: Result<(), SuspenseError>,
    other: usize,
)
    requires
        suspense_wake(a, b, id, poll, res),
        other != id.0,
    ensures
        b.leaves@.contains_key(other) == a.leaves@.contains_key(other),
        a.leaves@.contains_key(other) ==> b.leaves@[other] == a.leaves@[other],
        b.tasks@ == a.tasks@,
{
}

/// A wake for a task of a scope that has been torn down changes nothing.
pub proof fn lemma_teardown_silences_task(
    a: VirtualDom,
    b: VirtualDom,
    c: VirtualDom,
    scope: ScopeId,
    t: TaskId,
    completed: bool,
)
    requires
        torn_down(a, b, scope),
        a.tasks@.contains_key(t.0),
        a.tasks@[t.0].scope == scope,
        task_wake(b, c, t, completed),
    ensures
        c == b,
{
    assert(!b.tasks@.contains_key(t.0));
}

/// A wake for a suspended leaf of a scope that has been torn down changes
/// nothing and reports no error.
pub proof fn lemma_teardown_silences_leaf(
    a: VirtualDom,
    b: VirtualDom,
    c: VirtualDom,
    scope: ScopeId,
    s: SuspenseId,
    poll: LeafPoll,
    res: Result<(), SuspenseError>,
)
    requires
        torn_down(a, b, scope),
        a.leaves@.contains_key(s.0),
        a.leaves@[s.0].scope == scope,
        suspense_wake(b, c, s, poll, res),
    ensures
        c == b,
        res is Ok,
{
    assert(!b.leaves@.contains_key(s.0));
}

/// `b` is `a` with leaf `s` registered for `scope`, its result to take the
/// place of the live node `placeholder`.
pub open spec fn registered(
    a: VirtualDom,
    b: VirtualDom,
    scope: ScopeId,
    placeholder: ElementId,
    s: SuspenseId,
) -> bool {
    &&& a.scopes@.contains_key(scope.0)
    &&& a.elements@.contains_key(placeholder.0)
    &&& !a.leaves@.contains_key(s.0)
    &&& b.leaves@ == a.leaves@.insert(s.0, (SuspenseLeaf { scope, placeholder }))
    &&& b.scopes@ == a.scopes@
    &&& b.elements@ == a.elements@
    &&& b.tasks@ == a.tasks@
    &&& b.boundaries@ == a.boundaries@
}

/// The outcome of rendering `template` as the output of `scope`, the edits
/// going from `o1` to `o2`.
pub open spec fn rendered(
    a: VirtualDom,
    b: VirtualDom,
    scope: ScopeId,
    template: VNode,
    o1: Seq<Mutation>,
    o2: Seq<Mutation>,
    res: Result<(), RenderError>,
) -> bool {
    if !a.scopes@.contains_key(scope.0) {
        b == a && o2 == o1 && res == Err::<(), RenderError>(RenderError::UnknownScope)
    } else if a.scopes@[scope.0].root is None && !a.elements@.contains_key(a.scopes@[scope.0].anchor.0) {
        b == a && o2 == o1 && res == Err::<(), RenderError>(RenderError::Unmounted)
    } else {
        let x = a.scopes@[scope.0];
        let y = b.scopes@[scope.0];
        let r = y.root->Some_0;
        &&& res is Ok
        &&& extends(o1, o2)
        &&& balanced(emitted(o1, o2))
        &&& b.scopes@.contains_key(scope.0)
        &&& y.root is Some
        &&& same_template(r, template)
        &&& y.parent == x.parent && y.anchor == x.anchor && y.boundary == x.boundary
        &&& y.spawned_tasks == x.spawned_tasks
        &&& b.scopes@.dom() == a.scopes@.dom()
        &&& forall|k: usize| #[trigger] b.scopes@.contains_key(k) && k != scope.0 ==> b.scopes@[k] == a.scopes@[k]
        &&& b.tasks@ == a.tasks@
        &&& b.leaves@ == a.leaves@
        &&& b.boundaries@ == a.boundaries@
        &&& match x.root {
            None => {
                &&& o2 == o1 + create_ops(r, scope) + seq![Mutation::ReplaceWith { id: x.anchor, m: 1 }]
                &&& fresh(create_ops(r, scope), a.elements@, b.elements@)
                &&& !b.elements@.contains_key(x.anchor.0)
            },
            Some(p) => {
                &&& same_template(p, template) ==> o2 == o1
                &&& same_kind(p, template) ==> r.root_id() == p.root_id()
                &&& stable(p, template) ==> o2 == o1 + diff_ops(p, r, scope)
            },
        }
    }
}

impl VirtualDom {
    /// Adds a scope whose first output takes the place of `anchor`. A scope
    /// that is a suspense boundary gets an empty buffer of its own; another
    /// shares its parent's.
    pub fn new_scope(&mut self, parent: Option<ScopeId>, anchor: ElementId, is_boundary: bool) -> (s: ScopeId)
        requires
            old(self).wf(),
        ensures
            final(self).wf(),
            !old(self).scopes@.contains_key(s.0),
            final(self).scopes@.contains_key(s.0),
            final(self).scopes@[s.0].parent == parent,
            final(self).scopes@[s.0].anchor == anchor,
            final(self).scopes@[s.0].root is None,
            final(self).scopes@[s.0].spawned_tasks@.len() == 0,
            forall|k: usize| #[trigger] old(self).scopes@.contains_key(k) ==> final(self).scopes@.contains_key(k)
                && final(self).scopes@[k] == old(self).scopes@[k],
            final(self).tasks@ == old(self).tasks@,
            final(self).leaves@ == old(self).leaves@,
            final(self).elements@ == old(self).elements@,
            is_boundary ==> final(self).boundary_of(s) is Some
                && final(self).boundaries@[final(self).boundary_of(s)->Some_0].mutations.edits@.len() == 0
                && !old(self).boundaries@.contains_key(final(self).boundary_of(s)->Some_0),
            !is_boundary ==> final(self).boundaries@ == old(self).boundaries@,
            !is_boundary ==> final(self).scopes@[s.0].boundary == match parent {
                Some(p) => if old(self).scopes@.contains_key(p.0) {
                    old(self).scopes@[p.0].boundary
                } else {
                    None
                },
                None => None,
            },
    {
        let ghost a = *self;
        let inherited = match parent {
            Some(p) => match self.scopes.get(p.0) {
                Some(st) => st.boundary,
                None => None,
            },
            None => None,
        };
        let s = self.scopes.insert(ScopeState { parent, anchor, boundary: inherited, spawned_tasks: Vec::new(), root: None });
        if is_boundary {
            let b = self.boundaries.insert(SuspenseBoundary { scope: ScopeId(s), mutations: Mutations::new() });
            self.scopes.replace(s, ScopeState { parent, anchor, boundary: Some(b), spawned_tasks: Vec::new(), root: None });
        }
        proof {
            assert forall|k: usize| #[trigger] self.scopes@.contains_key(k) && self.scopes@[k].root is Some implies mounted(
                self.scopes@[k].root->Some_0) by {
                assert(a.scopes@.contains_key(k));
            }
        }
        ScopeId(s)
    }

    /// Registers a background task owned by `scope`; `None` when the scope
    /// is not live.
    pub fn spawn_task(&mut self, scope: ScopeId) -> (r: Option<TaskId>)
        requires
            old(self).wf(),
        ensures
            final(self).wf(),
            r is None <==> !old(self).scopes@.contains_key(scope.0),
            r is None ==> *final(self) == *old(self),
            r is Some ==> {
                let t = r->Some_0;
                &&& !old(self).tasks@.contains_key(t.0)
                &&& final(self).tasks@ == old(self).tasks@.insert(t.0, (TaskState { scope }))
                &&& final(self).scopes@.dom() == old(self).scopes@.dom()
                &&& final(self).scopes@[scope.0].spawned_tasks@ == old(self).scopes@[scope.0].spawned_tasks@.push(t)
                &&& final(self).scopes@[scope.0].root == old(self).scopes@[scope.0].root
                &&& final(self).scopes@[scope.0].boundary == old(self).scopes@[scope.0].boundary
                &&& forall|k: usize| #[trigger] final(self).scopes@.contains_key(k) && k != scope.0
                    ==> final(self).scopes@[k] == old(self).scopes@[k]
                &&& final(self).leaves@ == old(self).leaves@
                &&& final(self).elements@ == old(self).elements@
                &&& final(self).boundaries@ == old(self).boundaries@
            },
    {
        let ghost a = *self;
        if !self.scopes.contains(scope.0) {
            return None;
        }
        let t = self.tasks.insert(TaskState { scope });
        let dummy = ScopeState { parent: None, anchor: ElementId(0), boundary: None, spawned_tasks: Vec::new(), root: None };
        let st = self.scopes.replace(scope.0, dummy);
        let mut list = st.spawned_tasks;
        list.push(TaskId(t));
        self.scopes.replace(scope.0, ScopeState { parent: st.parent, anchor: st.anchor, boundary: st.boundary, spawned_tasks: list, root: st.root });
        proof {
            assert(self.scopes@.dom() =~= a.scopes@.dom());
            assert forall|k: usize| #[trigger] self.scopes@.contains_key(k) && self.scopes@[k].root is Some implies mounted(
                self.scopes@[k].root->Some_0) by {
                assert(a.scopes@.contains_key(k));
            }
        }
        Some(TaskId(t))
    }

    /// Registers a suspended computation of `scope` whose result will take
    /// the place of the live node `placeholder`; `None` when the scope or the
    /// placeholder is not live.
    pub fn register_suspense(&mut self, scope: ScopeId, placeholder: ElementId) -> (r: Option<SuspenseId>)
        requires
            old(self).wf(),
        ensures
            final(self).wf(),
            r is None <==> !old(self).scopes@.contains_key(scope.0) || !old(self).elements@.contains_key(placeholder.0),
            r is None ==> *final(self) == *old(self),
            r is Some ==> registered(*old(self), *final(self), scope, placeholder, r->Some_0),
    {
        if !self.scopes.contains(scope.0) || !self.elements.contains(placeholder.0) {
            return None;
        }
        let s = self.leaves.insert(SuspenseLeaf { scope, placeholder });
        Some(SuspenseId(s))
    }

    /// The handle of the root of `scope`'s current output.
    pub fn scope_root_id(&self, scope: ScopeId) -> (r: Option<ElementId>)
        ensures
            r == if self.scopes@.contains_key(scope.0) && self.scopes@[scope.0].root is Some {
                self.scopes@[scope.0].root->Some_0.root_id()
            } else {
                None
            },
    {
        match self.scopes.get(scope.0) {
            Some(st) => match &st.root {
                Some(r) => r.id(),
                None => None,
            },
            None => None,
        }
    }

    /// Renders `template` as the output of `scope`, logging the edits in
    /// `out`: the first output is built and put in the place of the scope's
    /// anchor, whose handle is released; a later one is diffed against the
    /// current output.
    pub fn render(&mut self, scope: ScopeId, template: &VNode, out: &mut Mutations) -> (res: Result<(), RenderError>)
        requires
            old(self).wf(),
        ensures
            final(self).wf(),
            rendered(*old(self), *final(self), scope, *template, old(out).edits@, final(out).edits@, res),
    {
        let ghost a = *self;
        let ghost o1 = out.edits@;
        let st = match self.scopes.get(scope.0) {
            Some(st) => st,
            None => return Err(RenderError::UnknownScope),
        };
        let r = match &st.root {
            None => {
                let anchor = st.anchor;
                if !self.elements.contains(anchor.0) {
                    return Err(RenderError::Unmounted);
                }
                let r = create(&mut self.elements, out, scope, template);
                let m = Mutation::ReplaceWith { id: anchor, m: 1 };
                out.edits.push(m);
                self.elements.remove(anchor.0);
                proof {
                    let cs = create_ops(r, scope);
                    lemma_push(cs, m, 0);
                    assert(cs + seq![m] =~= cs.push(m));
                    assert(out.edits@ =~= o1 + (cs + seq![m]));
                    lemma_emitted(o1, cs + seq![m]);
                    assert(o1 + cs + seq![m] =~= o1 + (cs + seq![m]));
                    assert forall|k: int| 0 <= k < cs.len() && (#[trigger] target(cs[k])) is Some implies !a.elements@.contains_key(
                        target(cs[k])->Some_0.0) && self.elements@.contains_key(target(cs[k])->Some_0.0) by {
                        assert(target(cs[k])->Some_0.0 != anchor.0);
                    }
                }
                r
            },
            Some(p) => diff(&mut self.elements, out, scope, p, template),
        };
        let dummy = ScopeState { parent: None, anchor: ElementId(0), boundary: None, spawned_tasks: Vec::new(), root: None };
        let st = self.scopes.replace(scope.0, dummy);
        self.scopes.replace(scope.0, ScopeState { parent: st.parent, anchor: st.anchor, boundary: st.boundary, spawned_tasks: st.spawned_tasks, root: Some(r) });
        proof {
            assert(self.scopes@.dom() =~= a.scopes@.dom());
            assert forall|k: usize| #[trigger] self.scopes@.contains_key(k) && self.scopes@[k].root is Some implies mounted(
                self.scopes@[k].root->Some_0) by {
                if k != scope.0 {
                    assert(a.scopes@.contains_key(k));
                }
            }
        }
        Ok(())
    }

    /// Tears `scope` down: every task and leaf it owns is dropped from the
    /// tables, and the handles of its output and of its leaves' placeholders
    /// are released.
    pub fn teardown_scope(&mut self, scope: ScopeId)
        requires
            old(self).wf(),
        ensures
            final(self).wf(),
            torn_down(*old(self), *final(self), scope),
            final(self).boundaries@ == old(self).boundaries@,
    {
        let ghost a = *self;
        let n = self.tasks.bound();
        let mut k: usize = 0;
        while k < n
            invariant
                self.wf(),
                forall|t: usize| #[trigger] a.tasks@.contains_key(t) ==> t < n,
                forall|t: usize| #[trigger] self.tasks@.contains_key(t) <==> a.tasks@.contains_key(t)
                    && (t < k ==> a.tasks@[t].scope != scope),
                forall|t: usize| #[trigger] self.tasks@.contains_key(t) ==> self.tasks@[t] == a.tasks@[t],
                self.leaves@ == a.leaves@,
                self.scopes@ == a.scopes@,
                self.elements@ == a.elements@,
                self.boundaries@ == a.boundaries@,
            decreases n - k,
        {
            let owned = match self.tasks.get(k) {
                Some(t) => t.scope == scope,
                None => false,
            };
            if owned {
                self.tasks.remove(k);
            }
            k = k + 1;
        }
        let n = self.leaves.bound();
        let mut k: usize = 0;
        while k < n
            invariant
                self.wf(),
                forall|t: usize| #[trigger] a.leaves@.contains_key(t) ==> t < n,
                forall|t: usize| #[trigger] self.leaves@.contains_key(t) <==> a.leaves@.contains_key(t)
                    && (t < k ==> a.leaves@[t].scope != scope),
                forall|t: usize| #[trigger] self.leaves@.contains_key(t) ==> self.leaves@[t] == a.leaves@[t],
                forall|t: usize| #[trigger] a.leaves@.contains_key(t) && t < k && a.leaves@[t].scope == scope
                    ==> !self.elements@.contains_key(a.leaves@[t].placeholder.0),
                forall|e: usize| #[trigger] self.elements@.contains_key(e) ==> a.elements@.contains_key(e),
                forall|t: usize| #[trigger] self.tasks@.contains_key(t) <==> a.tasks@.contains_key(t)
                    && a.tasks@[t].scope != scope,
                forall|t: usize| #[trigger] self.tasks@.contains_key(t) ==> self.tasks@[t] == a.tasks@[t],
                self.scopes@ == a.scopes@,
                self.boundaries@ == a.boundaries@,
            decreases n - k,
        {
            let placeholder = match self.leaves.get(k) {
                Some(l) => if l.scope == scope {
                    Some(l.placeholder)
                } else {
                    None
                },
                None => None,
            };
            if let Some(p) = placeholder {
                self.leaves.remove(k);
                self.elements.remove(p.0);
            }
            k = k + 1;
        }
        if let Some(st) = self.scopes.remove(scope.0) {
            if let Some(r) = &st.root {
                free_subtree(&mut self.elements, r);
            }
        }
        proof {
            assert forall|k: usize| #[trigger] self.scopes@.contains_key(k) && self.scopes@[k].root is Some implies mounted(
                self.scopes@[k].root->Some_0) by {
                assert(a.scopes@.contains_key(k));
            }
        }
    }

    /// Takes the edits held under the suspense boundary of `scope`, leaving
    /// its buffer empty; `None` when the scope has no boundary.
    pub fn flush_boundary(&mut self, scope: ScopeId) -> (r: Option<Mutations>)
        requires
            old(self).wf(),
        ensures
            final(self).wf(),
            r is None <==> old(self).boundary_of(scope) is None,
            r is None ==> *final(self) == *old(self),
            r is Some ==> {
                let k = old(self).boundary_of(scope)->Some_0;
                &&& r->Some_0.edits@ == old(self).boundaries@[k].mutations.edits@
                &&& final(self).boundaries@.dom() == old(self).boundaries@.dom()
                &&& final(self).boundaries@[k].mutations.edits@.len() == 0
                &&& final(self).boundaries@[k].scope == old(self).boundaries@[k].scope
                &&& forall|j: usize| #[trigger] final(self).boundaries@.contains_key(j) && j != k
                    ==> final(self).boundaries@[j] == old(self).boundaries@[j]
                &&& final(self).scopes@ == old(self).scopes@
                &&& final(self).tasks@ == old(self).tasks@
                &&& final(self).leaves@ == old(self).leaves@
                &&& final(self).elements@ == old(self).elements@
            },
    {
        let b = match self.scopes.get(scope.0) {
            Some(st) => st.boundary,
            None => None,
        };
        let b = match b {
            Some(b) => b,
            None => return None,
        };
        if !self.boundaries.contains(b) {
            return None;
        }
        let owner = match self.boundaries.get(b) {
            Some(rec) => rec.scope,
            None => scope,
        };
        let rec = self.boundaries.replace(b, SuspenseBoundary { scope: owner, mutations: Mutations::new() });
        proof {
            assert(self.boundaries@.dom() =~= old(self).boundaries@.dom());
        }
        Some(rec.mutations)
    }
}

/// Rendering the same template twice in a row: the second pass emits no edit.
pub proof fn lemma_render_twice_is_silent(
    a: VirtualDom,
    b: VirtualDom,
    c: VirtualDom,
    scope: ScopeId,
    template: VNode,
    o1: Seq<Mutation>,
    o2: Seq<Mutation>,
    o3: Seq<Mutation>,
    res: Result<(), RenderError>,
)
    requires
        rendered(a, b, scope, template, o1, o2, Ok(())),
        rendered(b, c, scope, template, o2, o3, res),
    ensures
        o3 == o2,
        res is Ok,
{
}

/// A resolved leaf lands exactly at its placeholder: the batch it adds to
/// its boundary's buffer ends by putting the new tree in the place of the
/// placeholder, no earlier edit of the batch names the placeholder, the batch
/// leaves the stack as it found it, and afterwards the placeholder's handle
/// is released and the leaf is gone.
pub proof fn lemma_placeholder_resolution(
    a: VirtualDom,
    b: VirtualDom,
    c: VirtualDom,
    scope: ScopeId,
    placeholder: ElementId,
    s: SuspenseId,
    t: VNode,
    res: Result<(), SuspenseError>,
)
    requires
        registered(a, b, scope, placeholder, s),
        b.boundary_of(scope) is Some,
        suspense_wake(b, c, s, LeafPoll::Ready(Some(t)), res),
    ensures
        res is Ok,
        ({
            let k = b.boundary_of(scope)->Some_0;
            let batch = emitted(b.boundaries@[k].mutations.edits@, c.boundaries@[k].mutations.edits@);
            &&& extends(b.boundaries@[k].mutations.edits@, c.boundaries@[k].mutations.edits@)
            &&& batch.len() >= 1
            &&& batch.last() == (Mutation::ReplaceWith { id: placeholder, m: 1 })
            &&& forall|i: int| 0 <= i < batch.len() - 1 ==> target(#[trigger] batch[i]) != Some(placeholder)
            &&& balanced(batch)
        }),
        !c.elements@.contains_key(placeholder.0),
        !c.leaves@.contains_key(s.0),
{
    let k = b.boundary_of(scope)->Some_0;
    assert(b.leaves@[s.0] == (SuspenseLeaf { scope, placeholder }));
    let r = c.scopes@[scope.0].root->Some_0;
    let batch = create_ops(r, scope) + seq![Mutation::ReplaceWith { id: placeholder, m: 1 }];
    lemma_emitted(b.boundaries@[k].mutations.edits@, batch);
}

} // verus!
