//! The edit log: instructions for a backend that keeps a stack of node handles.
use crate::ids::{ElementId, ScopeId};
use crate::nodes::AttributeValue;
use vstd::prelude::*;

verus! {

/// One instruction for a tree-mutating backend.
#[derive(Debug)]
pub enum Mutation {
    /// Load a mounted node onto the stack.
    PushRoot { id: ElementId },
    /// Discard the top of the stack.
    PopRoot,
    /// Pop `m` nodes and put them in the place of `id`.
    ReplaceWith { id: ElementId, m: usize },
    /// Pop `n` nodes and insert them after `id`.
    InsertAfter { id: ElementId, n: usize },
    /// Pop `n` nodes and insert them before `id`.
    InsertBefore { id: ElementId, n: usize },
    /// Pop `n` nodes and append them to the node then on top of the stack.
    AppendChildren { n: usize },
    CreateTextNode { text: String, id: ElementId },
    CreateElement { tag: String, namespace: Option<String>, id: ElementId },
    CreatePlaceholder { id: ElementId },
    Remove { id: ElementId },
    RemoveAttribute { name: String, id: ElementId },
    RemoveChildren { id: ElementId },
    NewEventListener { event: String, scope: ScopeId, id: ElementId },
    RemoveEventListener { event: String, id: ElementId },
    SetText { text: String, id: ElementId },
    SetAttribute { name: String, value: AttributeValue, namespace: Option<String>, id: ElementId },
    MarkDirtyScope { scope: ScopeId },
    /// Keep the top `n` nodes under `label` for a later `Load`.
    Save { label: String, n: usize },
    /// Push the `n` nodes kept under `label`.
    Load { label: String, n: usize },
    /// Bind `id` to the descendant of the top node reached by `path`.
    AssignId { path: Vec<u8>, id: ElementId },
    /// Pop `m` nodes and put them in the place of the descendant of the node
    /// below them reached by `path`.
    ReplaceDescendant { path: Vec<u8>, m: usize },
}

/// How many nodes the instruction needs on the stack.
pub open spec fn needs(m: Mutation) -> int {
    match m {
        Mutation::PopRoot => 1,
        Mutation::ReplaceWith { m, .. } => m as int,
        Mutation::InsertAfter { n, .. } => n as int,
        Mutation::InsertBefore { n, .. } => n as int,
        Mutation::AppendChildren { n } => n + 1,
        Mutation::Save { n, .. } => n as int,
        Mutation::AssignId { .. } => 1,
        Mutation::ReplaceDescendant { m, .. } => m + 1,
        _ => 0,
    }
}

/// How the instruction changes the height of the stack.
pub open spec fn delta(m: Mutation) -> int {
    match m {
        Mutation::PushRoot { .. } => 1,
        Mutation::PopRoot => -1,
        Mutation::ReplaceWith { m, .. } => -m,
        Mutation::InsertAfter { n, .. } => -n,
        Mutation::InsertBefore { n, .. } => -n,
        Mutation::AppendChildren { n } => -n,
        Mutation::CreateTextNode { .. } => 1,
        Mutation::CreateElement { .. } => 1,
        Mutation::CreatePlaceholder { .. } => 1,
        Mutation::Load { n, .. } => n as int,
        Mutation::ReplaceDescendant { m, .. } => -m,
        _ => 0,
    }
}

/// The handle an instruction names, if any.
pub open spec fn target(m: Mutation) -> Option<ElementId> {
    match m {
        Mutation::PushRoot { id } => Some(id),
        Mutation::ReplaceWith { id, .. } => Some(id),
        Mutation::InsertAfter { id, .. } => Some(id),
        Mutation::InsertBefore { id, .. } => Some(id),
        Mutation::CreateTextNode { id, .. } => Some(id),
        Mutation::CreateElement { id, .. } => Some(id),
        Mutation::CreatePlaceholder { id } => Some(id),
        Mutation::Remove { id } => Some(id),
        Mutation::RemoveAttribute { id, .. } => Some(id),
        Mutation::RemoveChildren { id } => Some(id),
        Mutation::NewEventListener { id, .. } => Some(id),
        Mutation::RemoveEventListener { id, .. } => Some(id),
        Mutation::SetText { id, .. } => Some(id),
        Mutation::SetAttribute { id, .. } => Some(id),
        Mutation::AssignId { id, .. } => Some(id),
        _ => None,
    }
}

/// Net change of the stack height over a run of instructions.
pub open spec fn net_delta(s: Seq<Mutation>) -> int
    decreases s.len(),
{
    if s.len() == 0 {
        0
    } else {
        net_delta(s.drop_last()) + delta(s.last())
    }
}

/// Replayed on a stack of height `d`, no instruction finds fewer nodes than it needs.
pub open spec fn runs_from(s: Seq<Mutation>, d: int) -> bool
    decreases s.len(),
{
    if s.len() == 0 {
        true
    } else {
        runs_from(s.drop_last(), d) && d + net_delta(s.drop_last()) >= needs(s.last())
    }
}

/// A complete pass: it runs on an empty stack and leaves the stack empty.
pub open spec fn balanced(s: Seq<Mutation>) -> bool {
    runs_from(s, 0) && net_delta(s) == 0
}

pub proof fn lemma_concat(a: Seq<Mutation>, b: Seq<Mutation>, d: int)
    ensures
        net_delta(a + b) == net_delta(a) + net_delta(b),
        runs_from(a, d) && runs_from(b, d + net_delta(a)) ==> runs_from(a + b, d),
    decreases b.len(),
{
    if b.len() == 0 {
        assert(a + b =~= a);
    } else {
        lemma_concat(a, b.drop_last(), d);
        assert((a + b).drop_last() =~= a + b.drop_last());
    }
}

pub proof fn lemma_raise(s: Seq<Mutation>, d: int, e: int)
    requires
        runs_from(s, d),
        d <= e,
    ensures
        runs_from(s, e),
    decreases s.len(),
{
    if s.len() > 0 {
        lemma_raise(s.drop_last(), d, e);
    }
}

pub proof fn lemma_push(s: Seq<Mutation>, m: Mutation, d: int)
    ensures
        net_delta(s.push(m)) == net_delta(s) + delta(m),
        runs_from(s, d) && d + net_delta(s) >= needs(m) ==> runs_from(s.push(m), d),
{
    assert(s.push(m).drop_last() =~= s);
}

/// Passes that each leave the stack balanced, replayed one after another,
/// leave it balanced too: the edits of any run of reconciliation passes
/// have a net stack change of zero and never pop an empty stack.
pub proof fn lemma_passes_balanced(passes: Seq<Seq<Mutation>>)
    requires
        forall|i: int| 0 <= i < passes.len() ==> balanced(#[trigger] passes[i]),
    ensures
        balanced(passes.flatten()),
    decreases passes.len(),
{
    if passes.len() > 0 {
        let rest = passes.drop_first();
        assert forall|i: int| 0 <= i < rest.len() implies balanced(#[trigger] rest[i]) by {
            assert(rest[i] == passes[i + 1]);
        }
        lemma_passes_balanced(rest);
        assert(balanced(passes[0]));
        lemma_concat(passes.first(), rest.flatten(), 0);
    }
}

/// A backend that replays the edit log against a real tree, keeping a stack
/// of the nodes it has just created or loaded.
pub trait Renderer {
    fn push_root(&mut self, root: ElementId);
    fn pop_root(&mut self);
    fn replace_with(&mut self, root: ElementId, m: usize);
    fn insert_after(&mut self, root: ElementId, n: usize);
    fn insert_before(&mut self, root: ElementId, n: usize);
    fn append_children(&mut self, n: usize);
    fn create_text_node(&mut self, text: &str, root: ElementId);
    /// Namespaces do not cascade: each element that has one says so.
    fn create_element(&mut self, tag: &str, ns: Option<&str>, id: ElementId);
    fn create_placeholder(&mut self, id: ElementId);
    fn remove(&mut self, root: ElementId);
    fn remove_attribute(&mut self, name: &str, root: ElementId);
    fn remove_children(&mut self, root: ElementId);
    fn new_event_listener(&mut self, event: &str, scope: ScopeId, root: ElementId);
    fn remove_event_listener(&mut self, event: &str, root: ElementId);
    fn set_text(&mut self, text: &str, root: ElementId);
    /// The value is a scalar or a handler reference.
    fn set_attribute(&mut self, name: &str, value: &AttributeValue, namespace: Option<&str>, root: ElementId);
    fn mark_dirty_scope(&mut self, scope: ScopeId);
    fn save(&mut self, id: &str, num: usize);
    fn load(&mut self, id: &str, num: usize);
    fn assign_id(&mut self, descendent: &[u8], id: ElementId);
    fn replace_descendant(&mut self, descendent: &[u8], m: usize);
}

/// An edit log, in the order in which the edits are to be replayed.
#[derive(Debug)]
pub struct Mutations {
    pub edits: Vec<Mutation>,
}

fn opt_as_str(s: &Option<String>) -> (r: Option<&str>)
    ensures
        s is None <==> r is None,
        s is Some ==> r->Some_0@ == s->Some_0@,
{
    match s {
        Some(x) => Some(x.as_str()),
        None => None,
    }
}

impl Mutations {
    pub fn new() -> (r: Mutations)
        ensures
            r.edits@ == Seq::<Mutation>::empty(),
    {
        Mutations { edits: Vec::new() }
    }

    /// Hands every edit, in order, to `r`.
    pub fn replay<R: Renderer>(&self, r: &mut R) {
        let mut i: usize = 0;
        while i < self.edits.len()
            invariant
                i <= self.edits@.len(),
            decreases self.edits@.len() - i,
        {
            match &self.edits[i] {
                Mutation::PushRoot { id } => r.push_root(*id),
                Mutation::PopRoot => r.pop_root(),
                Mutation::ReplaceWith { id, m } => r.replace_with(*id, *m),
                Mutation::InsertAfter { id, n } => r.insert_after(*id, *n),
                Mutation::InsertBefore { id, n } => r.insert_before(*id, *n),
                Mutation::AppendChildren { n } => r.append_children(*n),
                Mutation::CreateTextNode { text, id } => r.create_text_node(text.as_str(), *id),
                Mutation::CreateElement { tag, namespace, id } => r.create_element(
                    tag.as_str(),
                    opt_as_str(namespace),
                    *id,
                ),
                Mutation::CreatePlaceholder { id } => r.create_placeholder(*id),
                Mutation::Remove { id } => r.remove(*id),
                Mutation::RemoveAttribute { name, id } => r.remove_attribute(name.as_str(), *id),
                Mutation::RemoveChildren { id } => r.remove_children(*id),
                Mutation::NewEventListener { event, scope, id } => r.new_event_listener(
                    event.as_str(),
                    *scope,
                    *id,
                ),
                Mutation::RemoveEventListener { event, id } => r.remove_event_listener(
                    event.as_str(),
                    *id,
                ),
                Mutation::SetText { text, id } => r.set_text(text.as_str(), *id),
                Mutation::SetAttribute { name, value, namespace, id } => r.set_attribute(
                    name.as_str(),
                    value,
                    opt_as_str(namespace),
                    *id,
                ),
                Mutation::MarkDirtyScope { scope } => r.mark_dirty_scope(*scope),
                Mutation::Save { label, n } => r.save(label.as_str(), *n),
                Mutation::Load { label, n } => r.load(label.as_str(), *n),
                Mutation::AssignId { path, id } => r.assign_id(path.as_slice(), *id),
                Mutation::ReplaceDescendant { path, m } => r.replace_descendant(
                    path.as_slice(),
                    *m,
                ),
            }
            i = i + 1;
        }
    }
}

} // verus!
