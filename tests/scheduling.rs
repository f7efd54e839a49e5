use vdom_core::{
    Attribute, AttributeValue, ElementId, LeafPoll, Mutation, Mutations, SuspenseError, VElement, VNode,
    VPlaceholder, VirtualDom,
};

fn img(src: &str) -> VNode {
    VNode::Element(VElement {
        id: None,
        tag: "img".to_string(),
        namespace: None,
        key: None,
        attributes: vec![Attribute { name: "src".to_string(), value: AttributeValue::Text(src.to_string()), namespace: None }],
        listeners: vec![],
        children: vec![],
    })
}

fn placeholder() -> VNode {
    VNode::Placeholder(VPlaceholder { id: None })
}

#[test]
fn suspended_leaf_resolves_at_placeholder() {
    let mut dom = VirtualDom::new();
    let scope = dom.new_scope(None, ElementId(0), true);
    let mut out = Mutations::new();
    dom.render(scope, &placeholder(), &mut out).unwrap();
    let p = dom.scope_root_id(scope).unwrap();
    assert!(matches!(&out.edits[0], Mutation::CreatePlaceholder { id } if *id == p));
    let leaf = dom.register_suspense(scope, p).unwrap();

    assert_eq!(dom.handle_suspense_wakeup(leaf, LeafPoll::Pending), Ok(()));
    assert!(dom.flush_boundary(scope).unwrap().edits.is_empty());

    assert_eq!(dom.handle_suspense_wakeup(leaf, LeafPoll::Ready(Some(img("x.png")))), Ok(()));
    let batch = dom.flush_boundary(scope).unwrap();
    let e = &batch.edits;
    assert_eq!(e.len(), 3);
    let n = match &e[0] {
        Mutation::CreateElement { tag, id, .. } if tag == "img" => *id,
        other => panic!("unexpected {:?}", other),
    };
    assert_ne!(n, p);
    assert!(matches!(&e[1], Mutation::SetAttribute { name, value: AttributeValue::Text(v), id, .. } if name == "src" && v == "x.png" && *id == n));
    assert!(matches!(&e[2], Mutation::ReplaceWith { id, m: 1 } if *id == p));
    assert_eq!(dom.scope_root_id(scope), Some(n));
    assert!(!dom.elements.contains(p.0));

    // One-shot: the leaf is gone, a second wake is stale.
    assert_eq!(dom.handle_suspense_wakeup(leaf, LeafPoll::Ready(Some(img("y.png")))), Ok(()));
    assert!(dom.flush_boundary(scope).unwrap().edits.is_empty());
}

#[test]
fn leaf_under_child_scope_uses_parent_boundary() {
    let mut dom = VirtualDom::new();
    let boundary = dom.new_scope(None, ElementId(0), true);
    let mut out = Mutations::new();
    dom.render(boundary, &placeholder(), &mut out).unwrap();
    let anchor = dom.scope_root_id(boundary).unwrap();
    let child = dom.new_scope(Some(boundary), anchor, false);
    dom.render(child, &placeholder(), &mut out).unwrap();
    let p = dom.scope_root_id(child).unwrap();
    let leaf = dom.register_suspense(child, p).unwrap();
    assert_eq!(dom.handle_suspense_wakeup(leaf, LeafPoll::Ready(Some(img("a")))), Ok(()));
    let batch = dom.flush_boundary(boundary).unwrap();
    assert!(matches!(batch.edits.last(), Some(Mutation::ReplaceWith { id, m: 1 }) if *id == p));
}

#[test]
fn ready_without_nodes_emits_nothing() {
    let mut dom = VirtualDom::new();
    let scope = dom.new_scope(None, ElementId(0), true);
    let mut out = Mutations::new();
    dom.render(scope, &placeholder(), &mut out).unwrap();
    let p = dom.scope_root_id(scope).unwrap();
    let leaf = dom.register_suspense(scope, p).unwrap();
    assert_eq!(dom.handle_suspense_wakeup(leaf, LeafPoll::Ready(None)), Ok(()));
    assert!(dom.flush_boundary(scope).unwrap().edits.is_empty());
    assert!(dom.leaves.get(leaf.0).is_none());
    assert!(dom.elements.contains(p.0));
}

#[test]
fn suspense_errors() {
    let mut dom = VirtualDom::new();
    let scope = dom.new_scope(None, ElementId(0), false);
    let mut out = Mutations::new();
    dom.render(scope, &placeholder(), &mut out).unwrap();
    let p = dom.scope_root_id(scope).unwrap();
    let leaf = dom.register_suspense(scope, p).unwrap();
    assert_eq!(
        dom.handle_suspense_wakeup(leaf, LeafPoll::Ready(Some(img("x")))),
        Err(SuspenseError::MissingBoundary)
    );
    assert!(dom.leaves.get(leaf.0).is_some());

    let mut dom = VirtualDom::new();
    let scope = dom.new_scope(None, ElementId(0), true);
    let mut out = Mutations::new();
    dom.render(scope, &placeholder(), &mut out).unwrap();
    let p = dom.scope_root_id(scope).unwrap();
    let leaf = dom.register_suspense(scope, p).unwrap();
    // Rendering something else in its place releases the placeholder.
    dom.render(scope, &img("z"), &mut out).unwrap();
    assert_eq!(
        dom.handle_suspense_wakeup(leaf, LeafPoll::Ready(Some(img("x")))),
        Err(SuspenseError::StalePlaceholder)
    );
}

#[test]
fn registration_needs_live_scope_and_placeholder() {
    let mut dom = VirtualDom::new();
    let scope = dom.new_scope(None, ElementId(0), true);
    assert!(dom.register_suspense(scope, ElementId(42)).is_none());
    assert!(dom.register_suspense(vdom_core::ScopeId(9), ElementId(0)).is_none());
    assert!(dom.spawn_task(vdom_core::ScopeId(9)).is_none());
}

#[test]
fn task_wakeup_is_precise() {
    let mut dom = VirtualDom::new();
    let scope = dom.new_scope(None, ElementId(0), true);
    let mut out = Mutations::new();
    dom.render(scope, &placeholder(), &mut out).unwrap();
    let p = dom.scope_root_id(scope).unwrap();
    let leaf = dom.register_suspense(scope, p).unwrap();
    let t1 = dom.spawn_task(scope).unwrap();
    let t2 = dom.spawn_task(scope).unwrap();
    assert_ne!(t1, t2);

    dom.handle_task_wakeup(t1, false);
    assert!(dom.tasks.contains(t1.0));

    dom.handle_task_wakeup(t1, true);
    assert!(!dom.tasks.contains(t1.0));
    assert!(dom.tasks.contains(t2.0));
    assert!(dom.leaves.contains(leaf.0));
    let owned = &dom.scopes.get(scope.0).unwrap().spawned_tasks;
    assert_eq!(owned, &vec![t2]);

    // A stale wake is ignored.
    dom.handle_task_wakeup(t1, true);
    assert!(dom.tasks.contains(t2.0));
    assert!(dom.flush_boundary(scope).unwrap().edits.is_empty());
}

#[test]
fn teardown_cancels_owned_work() {
    let mut dom = VirtualDom::new();
    let scope = dom.new_scope(None, ElementId(0), true);
    let other = dom.new_scope(None, ElementId(0), true);
    let mut out = Mutations::new();
    dom.render(scope, &placeholder(), &mut out).unwrap();
    let p = dom.scope_root_id(scope).unwrap();
    let leaf = dom.register_suspense(scope, p).unwrap();
    let t = dom.spawn_task(scope).unwrap();
    let kept = dom.spawn_task(other).unwrap();

    dom.teardown_scope(scope);
    assert!(!dom.tasks.contains(t.0));
    assert!(!dom.leaves.contains(leaf.0));
    assert!(dom.tasks.contains(kept.0));
    assert!(!dom.scopes.contains(scope.0));
    assert!(!dom.elements.contains(p.0));

    dom.handle_task_wakeup(t, true);
    assert!(dom.tasks.contains(kept.0));
    assert_eq!(dom.handle_suspense_wakeup(leaf, LeafPoll::Ready(Some(img("x")))), Ok(()));
    assert!(dom.flush_boundary(scope).is_none());
    assert!(dom.flush_boundary(other).unwrap().edits.is_empty());
}
