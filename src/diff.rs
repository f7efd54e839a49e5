//! The reconciler: builds new subtrees and diffs a mounted tree against a new
//! template, writing the edits into a `Mutations` log.
use crate::ids::{ElementId, ScopeId};
use crate::mutations::{balanced, delta, lemma_concat, lemma_push, lemma_raise, needs, net_delta, runs_from, target, Mutation, Mutations};
use crate::nodes::{copy_opt_str, mounted, opt_str_eq, same_attribute, same_opt_str, same_template, str_eq, Attribute, VComponent, VElement, VNode, VPlaceholder, VText};
use crate::slab::Slab;
use vstd::prelude::*;

verus! {

broadcast use {
    vstd::std_specs::vec::axiom_vec_index_decreases,
    vstd::std_specs::vec::axiom_vec_decreases_to_view,
    vstd::seq::axiom_seq_index_decreases,
    vstd::seq::axiom_seq_subrange_decreases,
};

/// The edits that set each attribute of a new element.
pub open spec fn set_attribute_ops(attrs: Seq<Attribute>, id: ElementId) -> Seq<Mutation> {
    attrs.map_values(
        |a: Attribute|
            Mutation::SetAttribute { name: a.name, value: a.value, namespace: a.namespace, id },
    )
}

/// The edits that bind each listener of a new element.
pub open spec fn listener_ops(events: Seq<String>, scope: ScopeId, id: ElementId) -> Seq<Mutation> {
    events.map_values(|e: String| Mutation::NewEventListener { event: e, scope, id })
}

/// The edits that build the mounted tree `n` from nothing, leaving its root
/// on the stack.
pub open spec fn create_ops(n: VNode, scope: ScopeId) -> Seq<Mutation>
    decreases n,
{
    match n {
        VNode::Text(t) => seq![Mutation::CreateTextNode { text: t.text, id: t.id->Some_0 }],
        VNode::Placeholder(p) => seq![Mutation::CreatePlaceholder { id: p.id->Some_0 }],
        VNode::Component(c) => seq![Mutation::CreatePlaceholder { id: c.id->Some_0 }],
        VNode::Element(e) => {
            let id = e.id->Some_0;
            seq![Mutation::CreateElement { tag: e.tag, namespace: e.namespace, id }]
                + set_attribute_ops(e.attributes@, id) + listener_ops(e.listeners@, scope, id)
                + children_create_ops(e.children@, scope) + if e.children@.len() > 0 {
                seq![Mutation::AppendChildren { n: e.children@.len() as usize }]
            } else {
                Seq::<Mutation>::empty()
            }
        },
    }
}

/// The edits that build each tree of `cs` in turn, leaving their roots on the stack.
pub open spec fn children_create_ops(cs: Seq<VNode>, scope: ScopeId) -> Seq<Mutation>
    decreases cs,
{
    if cs.len() == 0 {
        Seq::<Mutation>::empty()
    } else {
        children_create_ops(cs.drop_last(), scope) + create_ops(cs.last(), scope)
    }
}


/// Every handle named by `s` was not live in `before` and is live in `after`.
pub open spec fn fresh(s: Seq<Mutation>, before: Map<usize, ()>, after: Map<usize, ()>) -> bool {
    forall|k: int|
        0 <= k < s.len() && (#[trigger] target(s[k])) is Some ==> !before.contains_key(
            target(s[k])->Some_0.0,
        ) && after.contains_key(target(s[k])->Some_0.0)
}

/// No live handle of `a` has been released in `b`.
pub open spec fn grows(a: Map<usize, ()>, b: Map<usize, ()>) -> bool {
    forall|k: usize| a.contains_key(k) ==> #[trigger] b.contains_key(k)
}

/// Instructions that neither need nor change the stack.
pub open spec fn flat(s: Seq<Mutation>) -> bool {
    forall|k: int| 0 <= k < s.len() ==> delta(#[trigger] s[k]) == 0 && needs(s[k]) == 0
}

pub proof fn lemma_flat(s: Seq<Mutation>, d: int)
    requires
        flat(s),
        d >= 0,
    ensures
        net_delta(s) == 0,
        runs_from(s, d),
    decreases s.len(),
{
    if s.len() > 0 {
        assert(flat(s.drop_last())) by {
            assert forall|k: int| 0 <= k < s.drop_last().len() implies delta(
                #[trigger] s.drop_last()[k],
            ) == 0 && needs(s.drop_last()[k]) == 0 by {
                assert(s.drop_last()[k] == s[k]);
            }
        }
        lemma_flat(s.drop_last(), d);
        assert(delta(s[s.len() - 1]) == 0 && needs(s[s.len() - 1]) == 0);
    }
}

pub proof fn lemma_fresh_concat(
    a: Seq<Mutation>,
    b: Seq<Mutation>,
    before: Map<usize, ()>,
    after: Map<usize, ()>,
)
    requires
        fresh(a, before, after),
        fresh(b, before, after),
    ensures
        fresh(a + b, before, after),
{
    assert forall|k: int|
        0 <= k < (a + b).len() && (#[trigger] target((a + b)[k])) is Some implies !before.contains_key(
        target((a + b)[k])->Some_0.0,
    ) && after.contains_key(target((a + b)[k])->Some_0.0) by {
        if k < a.len() {
            assert((a + b)[k] == a[k]);
        } else {
            assert((a + b)[k] == b[k - a.len()]);
        }
    }
}

pub proof fn lemma_fresh_weaken(
    s: Seq<Mutation>,
    b0: Map<usize, ()>,
    b1: Map<usize, ()>,
    a1: Map<usize, ()>,
    a2: Map<usize, ()>,
)
    requires
        fresh(s, b1, a1),
        grows(b0, b1),
        grows(a1, a2),
    ensures
        fresh(s, b0, a2),
{
    assert forall|k: int| 0 <= k < s.len() && (#[trigger] target(s[k])) is Some implies !b0.contains_key(
        target(s[k])->Some_0.0,
    ) && a2.contains_key(target(s[k])->Some_0.0) by {
        let x = target(s[k])->Some_0.0;
        if b0.contains_key(x) {
            assert(b1.contains_key(x));
        }
    }
}

impl Attribute {
    pub fn copy(&self) -> (r: Attribute)
        ensures
            r == *self,
    {
        Attribute { name: self.name.clone(), value: self.value.copy(), namespace: copy_opt_str(&self.namespace) }
    }
}

fn copy_attributes(v: &Vec<Attribute>) -> (r: Vec<Attribute>)
    ensures
        r@ == v@,
{
    let mut r: Vec<Attribute> = Vec::new();
    let mut i: usize = 0;
    while i < v.len()
        invariant
            i <= v@.len(),
            r@ == v@.take(i as int),
        decreases v@.len() - i,
    {
        r.push(v[i].copy());
        i = i + 1;
        assert(r@ =~= v@.take(i as int));
    }
    assert(v@.take(i as int) =~= v@);
    r
}

fn copy_strings(v: &Vec<String>) -> (r: Vec<String>)
    ensures
        r@ == v@,
{
    let mut r: Vec<String> = Vec::new();
    let mut i: usize = 0;
    while i < v.len()
        invariant
            i <= v@.len(),
            r@ == v@.take(i as int),
        decreases v@.len() - i,
    {
        r.push(v[i].clone());
        i = i + 1;
        assert(r@ =~= v@.take(i as int));
    }
    assert(v@.take(i as int) =~= v@);
    r
}

/// Reserves a fresh handle in the arena.
fn new_id(elements: &mut Slab<()>) -> (id: ElementId)
    requires
        old(elements).wf(),
    ensures
        final(elements).wf(),
        !old(elements)@.contains_key(id.0),
        final(elements)@ == old(elements)@.insert(id.0, ()),
        grows(old(elements)@, final(elements)@),
{
    ElementId(elements.insert(()))
}

/// Builds the tree `node` from nothing: each node gets a fresh handle, and
/// the edits that create it, its attributes, listeners and children are
/// logged, leaving its root on the stack.
pub fn create(elements: &mut Slab<()>, out: &mut Mutations, scope: ScopeId, node: &VNode) -> (r: VNode)
    requires
        old(elements).wf(),
    ensures
        final(elements).wf(),
        mounted(r),
        same_template(r, *node),
        final(out).edits@ == old(out).edits@ + create_ops(r, scope),
        runs_from(create_ops(r, scope), 0),
        net_delta(create_ops(r, scope)) == 1,
        fresh(create_ops(r, scope), old(elements)@, final(elements)@),
        grows(old(elements)@, final(elements)@),
        !old(elements)@.contains_key(r.root_id()->Some_0.0),
        final(elements)@.contains_key(r.root_id()->Some_0.0),
    decreases node,
{
    let ghost before = elements@;
    let ghost base = out.edits@;
    match node {
        VNode::Text(t) => {
            let id = new_id(elements);
            let text = t.text.clone();
            out.edits.push(Mutation::CreateTextNode { text: t.text.clone(), id });
            let r = VNode::Text(VText { id: Some(id), text });
            proof {
                let s = create_ops(r, scope);
                assert(out.edits@ =~= base + s);
                lemma_push(Seq::<Mutation>::empty(), s[0], 0);
                assert(s =~= Seq::<Mutation>::empty().push(s[0]));
            }
            r
        },
        VNode::Placeholder(_) => {
            let id = new_id(elements);
            out.edits.push(Mutation::CreatePlaceholder { id });
            let r = VNode::Placeholder(VPlaceholder { id: Some(id) });
            proof {
                let s = create_ops(r, scope);
                assert(out.edits@ =~= base + s);
                lemma_push(Seq::<Mutation>::empty(), s[0], 0);
                assert(s =~= Seq::<Mutation>::empty().push(s[0]));
            }
            r
        },
        VNode::Component(c) => {
            let id = new_id(elements);
            out.edits.push(Mutation::CreatePlaceholder { id });
            let r = VNode::Component(VComponent { id: Some(id), scope: c.scope });
            proof {
                let s = create_ops(r, scope);
                assert(out.edits@ =~= base + s);
                lemma_push(Seq::<Mutation>::empty(), s[0], 0);
                assert(s =~= Seq::<Mutation>::empty().push(s[0]));
            }
            r
        },
        VNode::Element(e) => create_element(elements, out, scope, e),
    }
}


fn create_element(elements: &mut Slab<()>, out: &mut Mutations, scope: ScopeId, e: &VElement) -> (r: VNode)
    requires
        old(elements).wf(),
    ensures
        final(elements).wf(),
        mounted(r),
        same_template(r, VNode::Element(*e)),
        final(out).edits@ == old(out).edits@ + create_ops(r, scope),
        runs_from(create_ops(r, scope), 0),
        net_delta(create_ops(r, scope)) == 1,
        fresh(create_ops(r, scope), old(elements)@, final(elements)@),
        grows(old(elements)@, final(elements)@),
        !old(elements)@.contains_key(r.root_id()->Some_0.0),
        final(elements)@.contains_key(r.root_id()->Some_0.0),
    decreases e,
{
    let ghost before = elements@;
    let ghost base = out.edits@;
    let id = new_id(elements);
    let ghost after_id = elements@;
    let tag = e.tag.clone();
    let namespace = copy_opt_str(&e.namespace);
    out.edits.push(Mutation::CreateElement { tag: e.tag.clone(), namespace: copy_opt_str(&e.namespace), id });
    let ghost head = out.edits@;
    let mut i: usize = 0;
    while i < e.attributes.len()
        invariant
            i <= e.attributes@.len(),
            out.edits@ == head + set_attribute_ops(e.attributes@.take(i as int), id),
        decreases e.attributes@.len() - i,
    {
        let a = &e.attributes[i];
        out.edits.push(Mutation::SetAttribute { name: a.name.clone(), value: a.value.copy(), namespace: copy_opt_str(&a.namespace), id });
        i = i + 1;
        assert(out.edits@ =~= head + set_attribute_ops(e.attributes@.take(i as int), id));
    }
    assert(e.attributes@.take(i as int) =~= e.attributes@);
    let ghost head2 = out.edits@;
    let mut i: usize = 0;
    while i < e.listeners.len()
        invariant
            i <= e.listeners@.len(),
            out.edits@ == head2 + listener_ops(e.listeners@.take(i as int), scope, id),
        decreases e.listeners@.len() - i,
    {
        out.edits.push(Mutation::NewEventListener { event: e.listeners[i].clone(), scope, id });
        i = i + 1;
        assert(out.edits@ =~= head2 + listener_ops(e.listeners@.take(i as int), scope, id));
    }
    assert(e.listeners@.take(i as int) =~= e.listeners@);
    let ghost head3 = out.edits@;
    let mut done: Vec<VNode> = Vec::new();
    let mut i: usize = 0;
    while i < e.children.len()
        invariant
            elements.wf(),
            i <= e.children@.len(),
            done@.len() == i,
            forall|j: int| 0 <= j < i ==> mounted(#[trigger] done@[j]) && same_template(done@[j], e.children@[j]),
            out.edits@ == head3 + children_create_ops(done@, scope),
            runs_from(children_create_ops(done@, scope), 0),
            net_delta(children_create_ops(done@, scope)) == i,
            fresh(children_create_ops(done@, scope), after_id, elements@),
            grows(after_id, elements@),
        decreases e.children@.len() - i,
    {
        let ghost pre = elements@;
        let ghost prev = children_create_ops(done@, scope);
        let c = create(elements, out, scope, &e.children[i]);
        proof {
            let cs = create_ops(c, scope);
            assert(done@.push(c).drop_last() =~= done@);
            assert(children_create_ops(done@.push(c), scope) == prev + cs);
            lemma_raise(cs, 0, net_delta(prev));
            lemma_concat(prev, cs, 0);
            lemma_fresh_weaken(prev, after_id, after_id, pre, elements@);
            lemma_fresh_weaken(cs, after_id, pre, elements@, elements@);
            lemma_fresh_concat(prev, cs, after_id, elements@);
        }
        done.push(c);
        i = i + 1;
        proof {
            assert(out.edits@ =~= head3 + children_create_ops(done@, scope));
        }
    }
    let n = done.len();
    if n > 0 {
        out.edits.push(Mutation::AppendChildren { n });
    }
    let r = VNode::Element(VElement {
        id: Some(id),
        tag,
        namespace,
        key: e.key,
        attributes: copy_attributes(&e.attributes),
        listeners: copy_strings(&e.listeners),
        children: done,
    });
    proof {
        let hd = seq![Mutation::CreateElement { tag: e.tag, namespace: e.namespace, id }];
        let aops = set_attribute_ops(e.attributes@, id);
        let lops = listener_ops(e.listeners@, scope, id);
        let cops = children_create_ops(done@, scope);
        let tail = if n > 0 { seq![Mutation::AppendChildren { n }] } else { Seq::<Mutation>::empty() };
        let s = create_ops(r, scope);
        assert(s == hd + aops + lops + cops + tail);
        assert(out.edits@ =~= base + s);
        assert(flat(aops));
        assert(flat(lops));
        lemma_flat(aops, 1);
        lemma_flat(lops, 1);
        lemma_push(Seq::<Mutation>::empty(), hd[0], 0);
        assert(hd =~= Seq::<Mutation>::empty().push(hd[0]));
        lemma_concat(hd, aops, 0);
        lemma_concat(hd + aops, lops, 0);
        lemma_raise(cops, 0, 1);
        lemma_concat(hd + aops + lops, cops, 0);
        if n > 0 {
            lemma_push(hd + aops + lops + cops, tail[0], 0);
            assert(hd + aops + lops + cops + tail =~= (hd + aops + lops + cops).push(tail[0]));
        } else {
            assert(hd + aops + lops + cops + tail =~= hd + aops + lops + cops);
        }
        assert(fresh(hd + aops + lops, before, elements@)) by {
            assert forall|k: int| 0 <= k < (hd + aops + lops).len() implies #[trigger] target((hd + aops + lops)[k]) == Some(id) by {
                if k >= 1 && k < 1 + aops.len() {
                    assert((hd + aops + lops)[k] == aops[k - 1]);
                } else if k >= 1 + aops.len() {
                    assert((hd + aops + lops)[k] == lops[k - 1 - aops.len()]);
                }
            }
        }
        lemma_fresh_weaken(cops, before, after_id, elements@, elements@);
        lemma_fresh_concat(hd + aops + lops, cops, before, elements@);
        assert(fresh(tail, before, elements@));
        lemma_fresh_concat(hd + aops + lops + cops, tail, before, elements@);
        assert(same_template(r, VNode::Element(*e)));
    }
    r
}


/// `after` is `before` with more edits at the end.
pub open spec fn extends(before: Seq<Mutation>, after: Seq<Mutation>) -> bool {
    after.len() >= before.len() && after.take(before.len() as int) == before
}

/// The edits that `after` holds beyond `before`.
pub open spec fn emitted(before: Seq<Mutation>, after: Seq<Mutation>) -> Seq<Mutation> {
    after.skip(before.len() as int)
}

pub proof fn lemma_emitted(a: Seq<Mutation>, x: Seq<Mutation>)
    ensures
        extends(a, a + x),
        emitted(a, a + x) == x,
{
    assert((a + x).take(a.len() as int) =~= a);
    assert((a + x).skip(a.len() as int) =~= x);
}

pub proof fn lemma_split(a: Seq<Mutation>, b: Seq<Mutation>)
    requires
        extends(a, b),
    ensures
        b == a + emitted(a, b),
{
    assert(b =~= a + emitted(a, b));
}

pub proof fn lemma_flat_push(x: Seq<Mutation>, m: Mutation)
    requires
        flat(x),
        delta(m) == 0,
        needs(m) == 0,
    ensures
        flat(x.push(m)),
{
    assert forall|k: int| 0 <= k < x.push(m).len() implies delta(#[trigger] x.push(m)[k]) == 0
        && needs(x.push(m)[k]) == 0 by {
        if k < x.len() {
            assert(x.push(m)[k] == x[k]);
        }
    }
}

/// Two nodes that the reconciler edits in place rather than replacing.
pub open spec fn same_kind(a: VNode, b: VNode) -> bool {
    match (a, b) {
        (VNode::Text(_), VNode::Text(_)) => true,
        (VNode::Placeholder(_), VNode::Placeholder(_)) => true,
        (VNode::Component(x), VNode::Component(y)) => x.scope == y.scope,
        (VNode::Element(x), VNode::Element(y)) => x.tag@ == y.tag@ && same_opt_str(
            x.namespace,
            y.namespace,
        ) && x.key == y.key,
        _ => false,
    }
}

fn same_kind_exec(a: &VNode, b: &VNode) -> (r: bool)
    ensures
        r == same_kind(*a, *b),
{
    match (a, b) {
        (VNode::Text(_), VNode::Text(_)) => true,
        (VNode::Placeholder(_), VNode::Placeholder(_)) => true,
        (VNode::Component(x), VNode::Component(y)) => x.scope == y.scope,
        (VNode::Element(x), VNode::Element(y)) => str_eq(&x.tag, &y.tag) && opt_str_eq(
            &x.namespace,
            &y.namespace,
        ) && x.key == y.key,
        _ => false,
    }
}

/// Handle `k` belongs to some node of the tree `n`.
pub open spec fn in_tree(n: VNode, k: usize) -> bool
    decreases n,
{
    (n.root_id() is Some && n.root_id()->Some_0.0 == k) || match n {
        VNode::Element(e) => exists|i: int| 0 <= i < e.children@.len() && in_tree(#[trigger] e.children@[i], k),
        _ => false,
    }
}

/// Handle `k` belongs to some tree of `cs[..n]`.
pub open spec fn in_trees(cs: Seq<VNode>, n: int, k: usize) -> bool {
    exists|i: int| 0 <= i < n && in_tree(#[trigger] cs[i], k)
}

/// Releases the handle of every node of a tree, and no other.
pub fn free_subtree(elements: &mut Slab<()>, node: &VNode)
    requires
        old(elements).wf(),
    ensures
        final(elements).wf(),
        forall|k: usize| #[trigger] final(elements)@.contains_key(k) <==> old(elements)@.contains_key(k) && !in_tree(*node, k),
    decreases node,
{
    if let VNode::Element(e) = node {
        free_children(elements, e);
    }
    if let Some(id) = node.id() {
        elements.remove(id.0);
    }
}

fn free_children(elements: &mut Slab<()>, e: &VElement)
    requires
        old(elements).wf(),
    ensures
        final(elements).wf(),
        forall|k: usize| #[trigger] final(elements)@.contains_key(k) <==> old(elements)@.contains_key(k)
            && !in_trees(e.children@, e.children@.len() as int, k),
    decreases e,
{
    let mut i: usize = 0;
    while i < e.children.len()
        invariant
            elements.wf(),
            i <= e.children@.len(),
            forall|k: usize| #[trigger] elements@.contains_key(k) <==> old(elements)@.contains_key(k)
                && !in_trees(e.children@, i as int, k),
        decreases e.children@.len() - i,
    {
        let ghost before = elements@;
        free_subtree(elements, &e.children[i]);
        proof {
            assert forall|k: usize| #[trigger] elements@.contains_key(k) <==> old(elements)@.contains_key(k)
                && !in_trees(e.children@, i + 1, k) by {
                if in_trees(e.children@, i as int, k) {
                    let j = choose|j: int| 0 <= j < i && in_tree(#[trigger] e.children@[j], k);
                    assert(0 <= j < i + 1 && in_tree(e.children@[j], k));
                }
                if in_tree(e.children@[i as int], k) {
                    assert(in_trees(e.children@, i + 1, k));
                }
                if in_trees(e.children@, i + 1, k) && !in_tree(e.children@[i as int], k) {
                    let j = choose|j: int| 0 <= j < i + 1 && in_tree(#[trigger] e.children@[j], k);
                    assert(j < i);
                    assert(in_trees(e.children@, i as int, k));
                }
            }
        }
        i = i + 1;
    }
}

fn find_attribute(v: &Vec<Attribute>, name: &String) -> (r: Option<usize>)
    ensures
        r is Some ==> r->Some_0 < v@.len() && v@[r->Some_0 as int].name@ == name@,
        r is None ==> forall|j: int| 0 <= j < v@.len() ==> (#[trigger] v@[j]).name@ != name@,
{
    let mut i: usize = 0;
    while i < v.len()
        invariant
            i <= v@.len(),
            forall|j: int| 0 <= j < i ==> (#[trigger] v@[j]).name@ != name@,
        decreases v@.len() - i,
    {
        if str_eq(&v[i].name, name) {
            return Some(i);
        }
        i = i + 1;
    }
    None
}

fn contains_str(v: &Vec<String>, s: &String) -> (r: bool)
    ensures
        r == exists|j: int| 0 <= j < v@.len() && (#[trigger] v@[j])@ == s@,
{
    let mut i: usize = 0;
    while i < v.len()
        invariant
            i <= v@.len(),
            forall|j: int| 0 <= j < i ==> (#[trigger] v@[j])@ != s@,
        decreases v@.len() - i,
    {
        if str_eq(&v[i], s) {
            return true;
        }
        i = i + 1;
    }
    false
}

/// The first node of `v` whose key is `k`.
fn find_key(v: &Vec<VNode>, k: u64) -> (r: Option<usize>)
    ensures
        r is Some ==> r->Some_0 < v@.len() && v@[r->Some_0 as int].key_spec() == Some(k)
            && forall|j: int| 0 <= j < r->Some_0 ==> (#[trigger] v@[j]).key_spec() != Some(k),
        r is None ==> forall|j: int| 0 <= j < v@.len() ==> (#[trigger] v@[j]).key_spec() != Some(k),
{
    let mut i: usize = 0;
    while i < v.len()
        invariant
            i <= v@.len(),
            forall|j: int| 0 <= j < i ==> (#[trigger] v@[j]).key_spec() != Some(k),
        decreases v@.len() - i,
    {
        if v[i].key() == Some(k) {
            return Some(i);
        }
        i = i + 1;
    }
    None
}

/// Some attribute of `prev` has the name, value and namespace of `b`.
pub open spec fn attribute_kept(prev: Seq<Attribute>, b: Attribute) -> bool {
    exists|j: int| 0 <= j < prev.len() && same_attribute(#[trigger] prev[j], b)
}

/// Some attribute of `v` is called `name`.
pub open spec fn has_name(v: Seq<Attribute>, name: Seq<char>) -> bool {
    exists|j: int| 0 <= j < v.len() && (#[trigger] v[j]).name@ == name
}

/// Some string of `v` is `s`.
pub open spec fn has_str(v: Seq<String>, s: Seq<char>) -> bool {
    exists|j: int| 0 <= j < v.len() && (#[trigger] v[j])@ == s
}

/// One `SetAttribute` for each attribute of `next` that `prev` does not
/// already hold with the same value and namespace, in order.
pub open spec fn set_changed_ops(prev: Seq<Attribute>, next: Seq<Attribute>, id: ElementId) -> Seq<Mutation>
    decreases next.len(),
{
    if next.len() == 0 {
        Seq::<Mutation>::empty()
    } else {
        let b = next.last();
        set_changed_ops(prev, next.drop_last(), id) + if attribute_kept(prev, b) {
            Seq::<Mutation>::empty()
        } else {
            seq![Mutation::SetAttribute { name: b.name, value: b.value, namespace: b.namespace, id }]
        }
    }
}

/// One `RemoveAttribute` for each attribute of `prev` whose name `next` lacks, in order.
pub open spec fn remove_gone_ops(prev: Seq<Attribute>, next: Seq<Attribute>, id: ElementId) -> Seq<Mutation>
    decreases prev.len(),
{
    if prev.len() == 0 {
        Seq::<Mutation>::empty()
    } else {
        let a = prev.last();
        remove_gone_ops(prev.drop_last(), next, id) + if has_name(next, a.name@) {
            Seq::<Mutation>::empty()
        } else {
            seq![Mutation::RemoveAttribute { name: a.name, id }]
        }
    }
}

/// The edits that bring the attributes of element `id` from `prev` to `next`.
pub open spec fn attribute_ops(prev: Seq<Attribute>, next: Seq<Attribute>, id: ElementId) -> Seq<Mutation> {
    set_changed_ops(prev, next, id) + remove_gone_ops(prev, next, id)
}

/// One `NewEventListener` for each event of `next` that `prev` lacks, in order.
pub open spec fn bind_new_ops(prev: Seq<String>, next: Seq<String>, scope: ScopeId, id: ElementId) -> Seq<Mutation>
    decreases next.len(),
{
    if next.len() == 0 {
        Seq::<Mutation>::empty()
    } else {
        bind_new_ops(prev, next.drop_last(), scope, id) + if has_str(prev, next.last()@) {
            Seq::<Mutation>::empty()
        } else {
            seq![Mutation::NewEventListener { event: next.last(), scope, id }]
        }
    }
}

/// One `RemoveEventListener` for each event of `prev` that `next` lacks, in order.
pub open spec fn unbind_gone_ops(prev: Seq<String>, next: Seq<String>, id: ElementId) -> Seq<Mutation>
    decreases prev.len(),
{
    if prev.len() == 0 {
        Seq::<Mutation>::empty()
    } else {
        unbind_gone_ops(prev.drop_last(), next, id) + if has_str(next, prev.last()@) {
            Seq::<Mutation>::empty()
        } else {
            seq![Mutation::RemoveEventListener { event: prev.last(), id }]
        }
    }
}

/// The edits that bring the listeners of element `id` from `prev` to `next`.
pub open spec fn listener_diff_ops(prev: Seq<String>, next: Seq<String>, scope: ScopeId, id: ElementId) -> Seq<Mutation> {
    bind_new_ops(prev, next, scope, id) + unbind_gone_ops(prev, next, id)
}

fn holds_attribute(v: &Vec<Attribute>, b: &Attribute) -> (r: bool)
    ensures
        r == attribute_kept(v@, *b),
{
    let mut i: usize = 0;
    while i < v.len()
        invariant
            i <= v@.len(),
            forall|j: int| 0 <= j < i ==> !same_attribute(#[trigger] v@[j], *b),
        decreases v@.len() - i,
    {
        if str_eq(&v[i].name, &b.name) && v[i].value.same_as(&b.value) && opt_str_eq(&v[i].namespace, &b.namespace) {
            return true;
        }
        i = i + 1;
    }
    false
}

/// Sets the attributes of `next` that `prev` does not hold with the same
/// value and namespace, then removes those whose name is gone.
fn diff_attributes(out: &mut Mutations, id: ElementId, prev: &Vec<Attribute>, next: &Vec<Attribute>)
    ensures
        final(out).edits@ == old(out).edits@ + attribute_ops(prev@, next@, id),
        flat(attribute_ops(prev@, next@, id)),
        prev@.len() == next@.len() && (forall|i: int|
            0 <= i < prev@.len() ==> same_attribute(#[trigger] prev@[i], next@[i]))
            ==> attribute_ops(prev@, next@, id).len() == 0,
{
    let ghost base = out.edits@;
    let ghost all_same = prev@.len() == next@.len() && (forall|i: int|
        0 <= i < prev@.len() ==> same_attribute(#[trigger] prev@[i], next@[i]));
    let mut i: usize = 0;
    while i < next.len()
        invariant
            i <= next@.len(),
            out.edits@ == base + set_changed_ops(prev@, next@.take(i as int), id),
            flat(set_changed_ops(prev@, next@.take(i as int), id)),
            all_same == (prev@.len() == next@.len() && (forall|i: int|
                0 <= i < prev@.len() ==> same_attribute(#[trigger] prev@[i], next@[i]))),
            all_same ==> set_changed_ops(prev@, next@.take(i as int), id).len() == 0,
        decreases next@.len() - i,
    {
        let ghost x = set_changed_ops(prev@, next@.take(i as int), id);
        proof {
            assert(next@.take(i + 1).drop_last() =~= next@.take(i as int));
            assert(next@.take(i + 1).last() == next@[i as int]);
        }
        let b = &next[i];
        if !holds_attribute(prev, b) {
            proof {
                if all_same {
                    assert(same_attribute(prev@[i as int], next@[i as int]));
                }
            }
            let m = Mutation::SetAttribute { name: b.name.clone(), value: b.value.copy(), namespace: copy_opt_str(&b.namespace), id };
            proof {
                lemma_flat_push(x, m);
                assert(x + seq![m] =~= x.push(m));
            }
            out.edits.push(m);
        } else {
            proof {
                assert(x + Seq::<Mutation>::empty() =~= x);
            }
        }
        i = i + 1;
        proof {
            assert(out.edits@ =~= base + set_changed_ops(prev@, next@.take(i as int), id));
        }
    }
    assert(next@.take(i as int) =~= next@);
    let ghost sx = set_changed_ops(prev@, next@, id);
    let mut j: usize = 0;
    while j < prev.len()
        invariant
            j <= prev@.len(),
            sx == set_changed_ops(prev@, next@, id),
            out.edits@ == base + sx + remove_gone_ops(prev@.take(j as int), next@, id),
            flat(sx),
            flat(remove_gone_ops(prev@.take(j as int), next@, id)),
            all_same == (prev@.len() == next@.len() && (forall|i: int|
                0 <= i < prev@.len() ==> same_attribute(#[trigger] prev@[i], next@[i]))),
            all_same ==> sx.len() == 0 && remove_gone_ops(prev@.take(j as int), next@, id).len() == 0,
        decreases prev@.len() - j,
    {
        let ghost y = remove_gone_ops(prev@.take(j as int), next@, id);
        proof {
            assert(prev@.take(j + 1).drop_last() =~= prev@.take(j as int));
            assert(prev@.take(j + 1).last() == prev@[j as int]);
        }
        if find_attribute(next, &prev[j].name).is_none() {
            proof {
                if all_same {
                    assert(same_attribute(prev@[j as int], next@[j as int]));
                }
            }
            let m = Mutation::RemoveAttribute { name: prev[j].name.clone(), id };
            proof {
                lemma_flat_push(y, m);
                assert(y + seq![m] =~= y.push(m));
            }
            out.edits.push(m);
        } else {
            proof {
                assert(y + Seq::<Mutation>::empty() =~= y);
            }
        }
        j = j + 1;
        proof {
            assert(out.edits@ =~= base + sx + remove_gone_ops(prev@.take(j as int), next@, id));
        }
    }
    proof {
        assert(prev@.take(j as int) =~= prev@);
        let ops = attribute_ops(prev@, next@, id);
        assert(out.edits@ =~= base + ops);
        assert forall|k: int| 0 <= k < ops.len() implies delta(#[trigger] ops[k]) == 0 && needs(ops[k]) == 0 by {
            if k < sx.len() {
                assert(ops[k] == sx[k]);
            } else {
                assert(ops[k] == remove_gone_ops(prev@, next@, id)[k - sx.len()]);
            }
        }
    }
}

/// Binds the listeners of `next` that `prev` lacks, then unbinds those of
/// `prev` that `next` lacks.
fn diff_listeners(out: &mut Mutations, scope: ScopeId, id: ElementId, prev: &Vec<String>, next: &Vec<String>)
    ensures
        final(out).edits@ == old(out).edits@ + listener_diff_ops(prev@, next@, scope, id),
        flat(listener_diff_ops(prev@, next@, scope, id)),
        prev@.len() == next@.len() && (forall|i: int| 0 <= i < prev@.len() ==> (#[trigger] prev@[i])@ == next@[i]@)
            ==> listener_diff_ops(prev@, next@, scope, id).len() == 0,
{
    let ghost base = out.edits@;
    let ghost all_same = prev@.len() == next@.len() && (forall|i: int| 0 <= i < prev@.len() ==> (#[trigger] prev@[i])@ == next@[i]@);
    let mut i: usize = 0;
    while i < next.len()
        invariant
            i <= next@.len(),
            out.edits@ == base + bind_new_ops(prev@, next@.take(i as int), scope, id),
            flat(bind_new_ops(prev@, next@.take(i as int), scope, id)),
            all_same == (prev@.len() == next@.len() && (forall|i: int| 0 <= i < prev@.len() ==> (#[trigger] prev@[i])@ == next@[i]@)),
            all_same ==> bind_new_ops(prev@, next@.take(i as int), scope, id).len() == 0,
        decreases next@.len() - i,
    {
        let ghost x = bind_new_ops(prev@, next@.take(i as int), scope, id);
        proof {
            assert(next@.take(i + 1).drop_last() =~= next@.take(i as int));
            assert(next@.take(i + 1).last() == next@[i as int]);
        }
        if !contains_str(prev, &next[i]) {
            proof {
                if all_same {
                    assert(prev@[i as int]@ == next@[i as int]@);
                }
            }
            let m = Mutation::NewEventListener { event: next[i].clone(), scope, id };
            proof {
                lemma_flat_push(x, m);
                assert(x + seq![m] =~= x.push(m));
            }
            out.edits.push(m);
        } else {
            proof {
                assert(x + Seq::<Mutation>::empty() =~= x);
            }
        }
        i = i + 1;
        proof {
            assert(out.edits@ =~= base + bind_new_ops(prev@, next@.take(i as int), scope, id));
        }
    }
    assert(next@.take(i as int) =~= next@);
    let ghost sx = bind_new_ops(prev@, next@, scope, id);
    let mut j: usize = 0;
    while j < prev.len()
        invariant
            j <= prev@.len(),
            sx == bind_new_ops(prev@, next@, scope, id),
            out.edits@ == base + sx + unbind_gone_ops(prev@.take(j as int), next@, id),
            flat(sx),
            flat(unbind_gone_ops(prev@.take(j as int), next@, id)),
            all_same == (prev@.len() == next@.len() && (forall|i: int| 0 <= i < prev@.len() ==> (#[trigger] prev@[i])@ == next@[i]@)),
            all_same ==> sx.len() == 0 && unbind_gone_ops(prev@.take(j as int), next@, id).len() == 0,
        decreases prev@.len() - j,
    {
        let ghost y = unbind_gone_ops(prev@.take(j as int), next@, id);
        proof {
            assert(prev@.take(j + 1).drop_last() =~= prev@.take(j as int));
            assert(prev@.take(j + 1).last() == prev@[j as int]);
        }
        if !contains_str(next, &prev[j]) {
            proof {
                if all_same {
                    assert(prev@[j as int]@ == next@[j as int]@);
                }
            }
            let m = Mutation::RemoveEventListener { event: prev[j].clone(), id };
            proof {
                lemma_flat_push(y, m);
                assert(y + seq![m] =~= y.push(m));
            }
            out.edits.push(m);
        } else {
            proof {
                assert(y + Seq::<Mutation>::empty() =~= y);
            }
        }
        j = j + 1;
        proof {
            assert(out.edits@ =~= base + sx + unbind_gone_ops(prev@.take(j as int), next@, id));
        }
    }
    proof {
        assert(prev@.take(j as int) =~= prev@);
        let ops = listener_diff_ops(prev@, next@, scope, id);
        assert(out.edits@ =~= base + ops);
        assert forall|k: int| 0 <= k < ops.len() implies delta(#[trigger] ops[k]) == 0 && needs(ops[k]) == 0 by {
            if k < sx.len() {
                assert(ops[k] == sx[k]);
            } else {
                assert(ops[k] == unbind_gone_ops(prev@, next@, id)[k - sx.len()]);
            }
        }
    }
}


proof fn lemma_same_template_kind(a: VNode, b: VNode)
    requires
        same_template(a, b),
    ensures
        same_kind(a, b),
{
}

fn keys_match(a: &Vec<VNode>, b: &Vec<VNode>) -> (r: bool)
    ensures
        r == (a@.len() == b@.len() && forall|i: int|
            0 <= i < a@.len() ==> (#[trigger] a@[i]).key_spec() == b@[i].key_spec()),
{
    if a.len() != b.len() {
        return false;
    }
    let mut i: usize = 0;
    while i < a.len()
        invariant
            a@.len() == b@.len(),
            i <= a@.len(),
            forall|j: int| 0 <= j < i ==> (#[trigger] a@[j]).key_spec() == b@[j].key_spec(),
        decreases a@.len() - i,
    {
        if a[i].key() != b[i].key() {
            return false;
        }
        i = i + 1;
    }
    true
}

/// The edits that reconcile the mounted tree `p` into the mounted tree `r`
/// when every child list keeps its keys in place: a node of another kind is
/// built afresh and replaces `p`; text that changed is set; an element gets
/// its attribute and listener edits, then its children's edits, child by
/// child.
pub open spec fn diff_ops(p: VNode, r: VNode, scope: ScopeId) -> Seq<Mutation>
    decreases p,
{
    if !same_kind(p, r) {
        create_ops(r, scope) + seq![Mutation::ReplaceWith { id: p.root_id()->Some_0, m: 1 }]
    } else {
        match (p, r) {
            (VNode::Text(a), VNode::Text(b)) => if a.text@ == b.text@ {
                Seq::<Mutation>::empty()
            } else {
                seq![Mutation::SetText { text: b.text, id: a.id->Some_0 }]
            },
            (VNode::Element(a), VNode::Element(b)) => attribute_ops(a.attributes@, b.attributes@, a.id->Some_0)
                + listener_diff_ops(a.listeners@, b.listeners@, scope, a.id->Some_0)
                + children_diff_ops(a.children@, b.children@, scope),
            _ => Seq::<Mutation>::empty(),
        }
    }
}

/// The edits of each pair of children in turn.
pub open spec fn children_diff_ops(ps: Seq<VNode>, rs: Seq<VNode>, scope: ScopeId) -> Seq<Mutation>
    decreases ps,
{
    if ps.len() == 0 || rs.len() == 0 {
        Seq::<Mutation>::empty()
    } else {
        children_diff_ops(ps.drop_last(), rs.drop_last(), scope) + diff_ops(ps.last(), rs.last(), scope)
    }
}

/// Every child list that the diff of `p` against `n` walks keeps its keys
/// position by position.
pub open spec fn stable(p: VNode, n: VNode) -> bool
    decreases p,
{
    match (p, n) {
        (VNode::Element(a), VNode::Element(b)) => same_kind(p, n) ==> {
            &&& a.children@.len() == b.children@.len()
            &&& forall|i: int|
                0 <= i < a.children@.len() ==> (#[trigger] a.children@[i]).key_spec()
                    == b.children@[i].key_spec() && stable(a.children@[i], b.children@[i])
        },
        _ => true,
    }
}

proof fn lemma_kind_transfer(p: VNode, r: VNode, n: VNode)
    requires
        same_template(r, n),
    ensures
        same_kind(p, r) == same_kind(p, n),
{
}

/// Builds `next` afresh and puts it in the place of the mounted tree `prev`,
/// whose handles are released.
fn replace_node(
    elements: &mut Slab<()>,
    out: &mut Mutations,
    scope: ScopeId,
    prev: &VNode,
    next: &VNode,
) -> (r: VNode)
    requires
        old(elements).wf(),
        mounted(*prev),
    ensures
        final(elements).wf(),
        mounted(r),
        same_template(r, *next),
        final(out).edits@ == old(out).edits@ + create_ops(r, scope) + seq![
            Mutation::ReplaceWith { id: prev.root_id()->Some_0, m: 1 },
        ],
        balanced(create_ops(r, scope) + seq![Mutation::ReplaceWith { id: prev.root_id()->Some_0, m: 1 }]),
{
    let ghost base = out.edits@;
    let r = create(elements, out, scope, next);
    let id = prev.id().unwrap();
    let m = Mutation::ReplaceWith { id, m: 1 };
    out.edits.push(m);
    free_subtree(elements, prev);
    proof {
        let cs = create_ops(r, scope);
        lemma_push(cs, m, 0);
        assert(cs + seq![m] =~= cs.push(m));
        assert(out.edits@ =~= base + cs + seq![m]);
    }
    r
}

/// Reconciles the mounted tree `prev` with the template `next`: nodes of the
/// same kind are edited in place (text, attributes, listeners, children),
/// others are built afresh and put in the old node's place. Returns `next`
/// mounted.
#[verifier::rlimit(60)]
pub fn diff(elements: &mut Slab<()>, out: &mut Mutations, scope: ScopeId, prev: &VNode, next: &VNode) -> (r: VNode)
    requires
        old(elements).wf(),
        mounted(*prev),
    ensures
        final(elements).wf(),
        mounted(r),
        same_template(r, *next),
        extends(old(out).edits@, final(out).edits@),
        balanced(emitted(old(out).edits@, final(out).edits@)),
        same_template(*prev, *next) ==> final(out).edits@ == old(out).edits@,
        same_kind(*prev, *next) ==> r.root_id() == prev.root_id(),
        stable(*prev, *next) ==> final(out).edits@ == old(out).edits@ + diff_ops(*prev, r, scope),
        !same_kind(*prev, *next) ==> final(out).edits@ == old(out).edits@ + create_ops(r, scope)
            + seq![Mutation::ReplaceWith { id: prev.root_id()->Some_0, m: 1 }],
        match (*prev, *next) {
            (VNode::Text(a), VNode::Text(b)) => final(out).edits@ == if a.text@ == b.text@ {
                old(out).edits@
            } else {
                old(out).edits@.push(Mutation::SetText { text: b.text, id: a.id->Some_0 })
            },
            _ => true,
        },
    decreases next,
{
    let ghost base = out.edits@;
    proof {
        if same_template(*prev, *next) {
            lemma_same_template_kind(*prev, *next);
        }
    }
    if !same_kind_exec(prev, next) {
        let r = replace_node(elements, out, scope, prev, next);
        proof {
            let t = seq![Mutation::ReplaceWith { id: prev.root_id()->Some_0, m: 1 }];
            assert(base + create_ops(r, scope) + t =~= base + (create_ops(r, scope) + t));
            lemma_emitted(base, create_ops(r, scope) + t);
            lemma_kind_transfer(*prev, r, *next);
        }
        return r;
    }
    match (prev, next) {
        (VNode::Text(a), VNode::Text(b)) => {
            let id = a.id.unwrap();
            if !str_eq(&a.text, &b.text) {
                let m = Mutation::SetText { text: b.text.clone(), id };
                out.edits.push(m);
                proof {
                    lemma_push(Seq::<Mutation>::empty(), m, 0);
                    assert(seq![m] =~= Seq::<Mutation>::empty().push(m));
                    assert(out.edits@ =~= base + seq![m]);
                    lemma_emitted(base, seq![m]);
                }
            } else {
                proof {
                    lemma_emitted(base, Seq::<Mutation>::empty());
                    assert(base + Seq::<Mutation>::empty() =~= base);
                }
            }
            let r = VNode::Text(VText { id: Some(id), text: b.text.clone() });
            proof {
                lemma_kind_transfer(*prev, r, *next);
                if !(a.text@ == b.text@) {
                    assert(out.edits@ =~= base + diff_ops(*prev, r, scope));
                } else {
                    assert(out.edits@ =~= base + diff_ops(*prev, r, scope));
                }
            }
            r
        },
        (VNode::Placeholder(a), VNode::Placeholder(_)) => {
            proof {
                lemma_emitted(base, Seq::<Mutation>::empty());
                assert(base + Seq::<Mutation>::empty() =~= base);
            }
            let r = VNode::Placeholder(VPlaceholder { id: a.id });
            proof {
                lemma_kind_transfer(*prev, r, *next);
                assert(base =~= base + diff_ops(*prev, r, scope));
            }
            r
        },
        (VNode::Component(a), VNode::Component(b)) => {
            proof {
                lemma_emitted(base, Seq::<Mutation>::empty());
                assert(base + Seq::<Mutation>::empty() =~= base);
            }
            let r = VNode::Component(VComponent { id: a.id, scope: b.scope });
            proof {
                lemma_kind_transfer(*prev, r, *next);
                assert(base =~= base + diff_ops(*prev, r, scope));
            }
            r
        },
        (VNode::Element(a), VNode::Element(b)) => {
            let id = a.id.unwrap();
            diff_attributes(out, id, &a.attributes, &b.attributes);
            let ghost o1 = out.edits@;
            diff_listeners(out, scope, id, &a.listeners, &b.listeners);
            let ghost o2 = out.edits@;
            let children = diff_children(elements, out, scope, id, a, b);
            let ghost o3 = out.edits@;
            let r = VNode::Element(VElement {
                id: Some(id),
                tag: b.tag.clone(),
                namespace: copy_opt_str(&b.namespace),
                key: b.key,
                attributes: copy_attributes(&b.attributes),
                listeners: copy_strings(&b.listeners),
                children,
            });
            proof {
                lemma_split(o2, o3);
                let x1 = attribute_ops(a.attributes@, b.attributes@, id);
                let x2 = listener_diff_ops(a.listeners@, b.listeners@, scope, id);
                let x3 = emitted(o2, o3);
                lemma_flat(x1, 0);
                lemma_flat(x2, 0);
                lemma_concat(x1, x2, 0);
                lemma_concat(x1 + x2, x3, 0);
                assert(o3 =~= base + (x1 + x2 + x3));
                lemma_emitted(base, x1 + x2 + x3);
                assert(same_template(r, *next));
                lemma_kind_transfer(*prev, r, *next);
                if stable(*prev, *next) {
                    assert(diff_ops(*prev, r, scope) == x1 + x2 + x3);
                }
            }
            r
        },
        _ => replace_node(elements, out, scope, prev, next),
    }
}

/// Reconciles the children of two elements of the same kind. Children are
/// matched by key, and unkeyed ones by position. When every position keeps
/// its key, each child is diffed in place; otherwise old children that lost
/// their match are removed, matched ones are diffed and, where out of order,
/// removed and inserted again at their new position, and new ones are
/// created and inserted at theirs.
fn diff_children(
    elements: &mut Slab<()>,
    out: &mut Mutations,
    scope: ScopeId,
    parent: ElementId,
    pe: &VElement,
    ne: &VElement,
) -> (r: Vec<VNode>)
    requires
        old(elements).wf(),
        forall|i: int| 0 <= i < pe.children@.len() ==> mounted(#[trigger] pe.children@[i]),
    ensures
        final(elements).wf(),
        r@.len() == ne.children@.len(),
        forall|i: int|
            0 <= i < r@.len() ==> mounted(#[trigger] r@[i]) && same_template(r@[i], ne.children@[i]),
        extends(old(out).edits@, final(out).edits@),
        balanced(emitted(old(out).edits@, final(out).edits@)),
        pe.children@.len() == ne.children@.len() && (forall|i: int|
            0 <= i < pe.children@.len() ==> same_template(#[trigger] pe.children@[i], ne.children@[i]))
            ==> final(out).edits@ == old(out).edits@,
        pe.children@.len() == ne.children@.len() && (forall|i: int|
            0 <= i < pe.children@.len() ==> (#[trigger] pe.children@[i]).key_spec() == ne.children@[i].key_spec()
                && stable(pe.children@[i], ne.children@[i]))
            ==> final(out).edits@ == old(out).edits@ + children_diff_ops(pe.children@, r@, scope),
    decreases ne,
{
    let ghost base = out.edits@;
    let mut done: Vec<VNode> = Vec::new();
    if keys_match(&pe.children, &ne.children) {
        let ghost all_same = forall|i: int|
            0 <= i < pe.children@.len() ==> same_template(#[trigger] pe.children@[i], ne.children@[i]);
        let ghost all_stable = forall|i: int|
            0 <= i < pe.children@.len() ==> stable(#[trigger] pe.children@[i], ne.children@[i]);
        let ghost mut x = Seq::<Mutation>::empty();
        let mut i: usize = 0;
        while i < ne.children.len()
            invariant
                elements.wf(),
                pe.children@.len() == ne.children@.len(),
                forall|i: int| 0 <= i < pe.children@.len() ==> mounted(#[trigger] pe.children@[i]),
                i <= ne.children@.len(),
                done@.len() == i,
                forall|j: int| 0 <= j < i ==> mounted(#[trigger] done@[j]) && same_template(done@[j], ne.children@[j]),
                out.edits@ == base + x,
                balanced(x),
                all_same == (forall|i: int|
                    0 <= i < pe.children@.len() ==> same_template(#[trigger] pe.children@[i], ne.children@[i])),
                all_same ==> x.len() == 0,
                all_stable == (forall|i: int|
                    0 <= i < pe.children@.len() ==> stable(#[trigger] pe.children@[i], ne.children@[i])),
                all_stable ==> x == children_diff_ops(pe.children@.take(i as int), done@, scope),
            decreases ne.children@.len() - i,
        {
            let ghost o = out.edits@;
            let c = diff(elements, out, scope, &pe.children[i], &ne.children[i]);
            proof {
                if all_stable {
                    assert(stable(pe.children@[i as int], ne.children@[i as int]));
                    assert(pe.children@.take(i + 1).drop_last() =~= pe.children@.take(i as int));
                    assert(done@.push(c).drop_last() =~= done@);
                    assert(pe.children@.take(i + 1).last() == pe.children@[i as int]);
                    assert(children_diff_ops(pe.children@.take(i + 1), done@.push(c), scope)
                        == x + diff_ops(pe.children@[i as int], c, scope));
                }
                lemma_split(o, out.edits@);
                let d = emitted(o, out.edits@);
                lemma_concat(x, d, 0);
                if all_same {
                    assert(same_template(pe.children@[i as int], ne.children@[i as int]));
                    assert(d =~= Seq::<Mutation>::empty());
                }
                assert(out.edits@ =~= base + (x + d));
                x = x + d;
            }
            done.push(c);
            i = i + 1;
        }
        proof {
            lemma_emitted(base, x);
            if all_same {
                assert(base + x =~= base);
            }
            assert(pe.children@.take(i as int) =~= pe.children@);
        }
        return done;
    }
    // Remove the old children that no new child takes over, and find the
    // first one that stays.
    let ghost mut x = Seq::<Mutation>::empty();
    let mut first_kept: Option<ElementId> = None;
    let mut j: usize = 0;
    while j < pe.children.len()
        invariant
            elements.wf(),
            j <= pe.children@.len(),
            forall|i: int| 0 <= i < pe.children@.len() ==> mounted(#[trigger] pe.children@[i]),
            out.edits@ == base + x,
            balanced(x),
        decreases pe.children@.len() - j,
    {
        let claimed = match pe.children[j].key() {
            Some(k) => match (find_key(&ne.children, k), find_key(&pe.children, k)) {
                (Some(_), Some(first)) => first == j,
                _ => false,
            },
            None => j < ne.children.len() && ne.children[j].key().is_none(),
        };
        if let Some(id) = pe.children[j].id() {
            if !claimed {
                let m = Mutation::Remove { id };
                proof {
                    lemma_push(x, m, 0);
                    x = x.push(m);
                }
                out.edits.push(m);
                free_subtree(elements, &pe.children[j]);
            } else if first_kept.is_none() {
                first_kept = Some(id);
            }
        }
        j = j + 1;
    }
    // Walk the new list in order. A matched child whose old position follows
    // that of the last child left in place stays; any other matched child is
    // removed from its position and inserted after its new predecessor. New
    // children are created and inserted after their predecessor, the first
    // one before the first child that stays.
    let mut last_in_place: Option<usize> = None;
    let mut i: usize = 0;
    while i < ne.children.len()
        invariant
            elements.wf(),
            forall|i: int| 0 <= i < pe.children@.len() ==> mounted(#[trigger] pe.children@[i]),
            i <= ne.children@.len(),
            done@.len() == i,
            forall|j: int| 0 <= j < i ==> mounted(#[trigger] done@[j]) && same_template(done@[j], ne.children@[j]),
            out.edits@ == base + x,
            balanced(x),
        decreases ne.children@.len() - i,
    {
        let ghost o = out.edits@;
        let matched: Option<usize> = match ne.children[i].key() {
            Some(k) => find_key(&pe.children, k),
            None => if i < pe.children.len() && pe.children[i].key().is_none() {
                Some(i)
            } else {
                None
            },
        };
        let anchor: Option<ElementId> = if i == 0 {
            None
        } else {
            done[i - 1].id()
        };
        match matched {
            Some(j) => {
                let c = diff(elements, out, scope, &pe.children[j], &ne.children[i]);
                let ghost o2 = out.edits@;
                proof {
                    lemma_split(o, o2);
                    lemma_concat(x, emitted(o, o2), 0);
                    x = x + emitted(o, o2);
                }
                let stays = match last_in_place {
                    None => true,
                    Some(l) => l < j,
                };
                if stays || anchor.is_none() {
                    last_in_place = Some(j);
                } else {
                    let id = c.id().unwrap();
                    let to = anchor.unwrap();
                    let ghost ms = seq![
                        Mutation::Remove { id },
                        Mutation::PushRoot { id },
                        Mutation::InsertAfter { id: to, n: 1 },
                    ];
                    out.edits.push(Mutation::Remove { id });
                    out.edits.push(Mutation::PushRoot { id });
                    out.edits.push(Mutation::InsertAfter { id: to, n: 1 });
                    proof {
                        lemma_push(x, ms[0], 0);
                        lemma_push(x.push(ms[0]), ms[1], 0);
                        lemma_push(x.push(ms[0]).push(ms[1]), ms[2], 0);
                        assert(x + ms =~= x.push(ms[0]).push(ms[1]).push(ms[2]));
                        x = x + ms;
                    }
                }
                proof {
                    assert(out.edits@ =~= base + x);
                }
                done.push(c);
            },
            None => {
                let place_at_end = anchor.is_none() && first_kept.is_none();
                if place_at_end {
                    out.edits.push(Mutation::PushRoot { id: parent });
                    proof {
                        lemma_push(x, Mutation::PushRoot { id: parent }, 0);
                        x = x.push(Mutation::PushRoot { id: parent });
                    }
                }
                let ghost d0 = net_delta(x);
                let c = create(elements, out, scope, &ne.children[i]);
                proof {
                    let cs = create_ops(c, scope);
                    lemma_raise(cs, 0, net_delta(x));
                    lemma_concat(x, cs, 0);
                    assert(out.edits@ =~= base + (x + cs));
                    x = x + cs;
                }
                let m = match anchor {
                    Some(a) => Mutation::InsertAfter { id: a, n: 1 },
                    None => match first_kept {
                        Some(f) => Mutation::InsertBefore { id: f, n: 1 },
                        None => Mutation::AppendChildren { n: 1 },
                    },
                };
                out.edits.push(m);
                proof {
                    lemma_push(x, m, 0);
                    x = x.push(m);
                }
                if place_at_end {
                    out.edits.push(Mutation::PopRoot);
                    proof {
                        lemma_push(x, Mutation::PopRoot, 0);
                        x = x.push(Mutation::PopRoot);
                    }
                }
                done.push(c);
            },
        }
        i = i + 1;
    }
    proof {
        lemma_emitted(base, x);
    }
    done
}

} // verus!
