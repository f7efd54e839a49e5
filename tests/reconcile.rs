use vdom_core::{
    Attribute, AttributeValue, ElementId, Mutation, Mutations, Renderer, ScopeId, Slab, VComponent,
    VElement, VNode, VPlaceholder, VText, VirtualDom,
};

fn text(s: &str) -> VNode {
    VNode::Text(VText { id: None, text: s.to_string() })
}

fn el(tag: &str, key: Option<u64>, attributes: Vec<Attribute>, children: Vec<VNode>) -> VNode {
    VNode::Element(VElement {
        id: None,
        tag: tag.to_string(),
        namespace: None,
        key,
        attributes,
        listeners: Vec::new(),
        children,
    })
}

fn attr(name: &str, value: &str) -> Attribute {
    Attribute { name: name.to_string(), value: AttributeValue::Text(value.to_string()), namespace: None }
}

fn mounted_scope() -> (VirtualDom, ScopeId) {
    let mut dom = VirtualDom::new();
    let scope = dom.new_scope(None, ElementId(0), false);
    (dom, scope)
}

/// A backend that only tracks the height of its stack.
struct StackDepth {
    depth: i64,
    lowest: i64,
}

impl StackDepth {
    fn pop(&mut self, n: usize) {
        self.depth -= n as i64;
        self.lowest = self.lowest.min(self.depth);
    }
    fn need(&mut self, n: usize) {
        self.lowest = self.lowest.min(self.depth - n as i64);
    }
}

impl Renderer for StackDepth {
    fn push_root(&mut self, _root: ElementId) { self.depth += 1; }
    fn pop_root(&mut self) { self.pop(1); }
    fn replace_with(&mut self, _root: ElementId, m: usize) { self.pop(m); }
    fn insert_after(&mut self, _root: ElementId, n: usize) { self.pop(n); }
    fn insert_before(&mut self, _root: ElementId, n: usize) { self.pop(n); }
    fn append_children(&mut self, n: usize) { self.need(n + 1); self.pop(n); }
    fn create_text_node(&mut self, _text: &str, _root: ElementId) { self.depth += 1; }
    fn create_element(&mut self, _tag: &str, _ns: Option<&str>, _id: ElementId) { self.depth += 1; }
    fn create_placeholder(&mut self, _id: ElementId) { self.depth += 1; }
    fn remove(&mut self, _root: ElementId) {}
    fn remove_attribute(&mut self, _name: &str, _root: ElementId) {}
    fn remove_children(&mut self, _root: ElementId) {}
    fn new_event_listener(&mut self, _event: &str, _scope: ScopeId, _root: ElementId) {}
    fn remove_event_listener(&mut self, _event: &str, _root: ElementId) {}
    fn set_text(&mut self, _text: &str, _root: ElementId) {}
    fn set_attribute(&mut self, _name: &str, _value: &AttributeValue, _ns: Option<&str>, _root: ElementId) {}
    fn mark_dirty_scope(&mut self, _scope: ScopeId) {}
    fn save(&mut self, _id: &str, num: usize) { self.need(num); }
    fn load(&mut self, _id: &str, num: usize) { self.depth += num as i64; }
    fn assign_id(&mut self, _descendent: &[u8], _id: ElementId) { self.need(1); }
    fn replace_descendant(&mut self, _descendent: &[u8], m: usize) { self.need(m + 1); self.pop(m); }
}

fn assert_balanced(m: &Mutations) {
    let mut s = StackDepth { depth: 0, lowest: 0 };
    m.replay(&mut s);
    assert_eq!(s.depth, 0);
    assert!(s.lowest >= 0);
}

fn is_create(m: &Mutation) -> bool {
    matches!(
        m,
        Mutation::CreateElement { .. } | Mutation::CreateTextNode { .. } | Mutation::CreatePlaceholder { .. }
    )
}

#[test]
fn mount_then_change_text() {
    let (mut dom, scope) = mounted_scope();
    let mut out = Mutations::new();
    dom.render(scope, &el("div", None, vec![], vec![text("hi")]), &mut out).unwrap();
    let e = &out.edits;
    assert_eq!(e.len(), 4);
    assert!(matches!(&e[0], Mutation::CreateElement { tag, namespace: None, id: ElementId(1) } if tag == "div"));
    assert!(matches!(&e[1], Mutation::CreateTextNode { text, id: ElementId(2) } if text == "hi"));
    assert!(matches!(&e[2], Mutation::AppendChildren { n: 1 }));
    assert!(matches!(&e[3], Mutation::ReplaceWith { id: ElementId(0), m: 1 }));
    assert_balanced(&out);

    let mut out = Mutations::new();
    dom.render(scope, &el("div", None, vec![], vec![text("bye")]), &mut out).unwrap();
    assert_eq!(out.edits.len(), 1);
    assert!(matches!(&out.edits[0], Mutation::SetText { text, id: ElementId(2) } if text == "bye"));
}

#[test]
fn identical_tree_emits_nothing() {
    let tree = || {
        let mut root = el(
            "ul",
            None,
            vec![attr("class", "list"), attr("id", "main")],
            vec![el("li", Some(1), vec![attr("title", "a")], vec![text("one")]), el("li", Some(2), vec![], vec![text("two")])],
        );
        if let VNode::Element(e) = &mut root {
            e.listeners.push("click".to_string());
        }
        root
    };
    let (mut dom, scope) = mounted_scope();
    let mut out = Mutations::new();
    dom.render(scope, &tree(), &mut out).unwrap();
    assert_balanced(&out);
    let mut out = Mutations::new();
    dom.render(scope, &tree(), &mut out).unwrap();
    assert!(out.edits.is_empty());
}

#[test]
fn keyed_reorder_moves_without_creating() {
    let (mut dom, scope) = mounted_scope();
    let mut out = Mutations::new();
    let a = || el("li", Some(1), vec![], vec![text("A")]);
    let b = || el("li", Some(2), vec![], vec![text("B")]);
    dom.render(scope, &el("ul", None, vec![], vec![a(), b()]), &mut out).unwrap();
    // ul = 1, A = 2, "A" = 3, B = 4, "B" = 5
    let mut out = Mutations::new();
    dom.render(scope, &el("ul", None, vec![], vec![b(), a()]), &mut out).unwrap();
    assert!(!out.edits.iter().any(is_create));
    // B stays; A (key 1) is removed and inserted again after B (key 2).
    let e = &out.edits;
    assert_eq!(e.len(), 3);
    assert!(matches!(&e[0], Mutation::Remove { id: ElementId(2) }));
    assert!(matches!(&e[1], Mutation::PushRoot { id: ElementId(2) }));
    assert!(matches!(&e[2], Mutation::InsertAfter { id: ElementId(4), n: 1 }));
    assert_balanced(&out);
}

#[test]
fn keyed_child_removed() {
    let (mut dom, scope) = mounted_scope();
    let li = |k: u64| el("li", Some(k), vec![], vec![]);
    let mut out = Mutations::new();
    dom.render(scope, &el("ul", None, vec![], vec![li(1), li(2), li(3)]), &mut out).unwrap();
    // ul = 1, li1 = 2, li2 = 3, li3 = 4
    let mut out = Mutations::new();
    dom.render(scope, &el("ul", None, vec![], vec![li(1), li(3)]), &mut out).unwrap();
    assert!(matches!(&out.edits[0], Mutation::Remove { id: ElementId(3) }));
    assert!(!out.edits.iter().any(is_create));
    assert_balanced(&out);
}

#[test]
fn unkeyed_child_appended() {
    let (mut dom, scope) = mounted_scope();
    let mut out = Mutations::new();
    dom.render(scope, &el("div", None, vec![], vec![text("a")]), &mut out).unwrap();
    let mut out = Mutations::new();
    dom.render(scope, &el("div", None, vec![], vec![text("a"), text("b")]), &mut out).unwrap();
    let e = &out.edits;
    assert_eq!(e.len(), 2);
    assert!(matches!(&e[0], Mutation::CreateTextNode { text, .. } if text == "b"));
    assert!(matches!(&e[1], Mutation::InsertAfter { id: ElementId(2), n: 1 }));
    assert_balanced(&out);
}

#[test]
fn keyed_insert_at_front_and_middle() {
    let (mut dom, scope) = mounted_scope();
    let li = |k: u64| el("li", Some(k), vec![], vec![]);
    let mut out = Mutations::new();
    dom.render(scope, &el("ul", None, vec![], vec![li(1), li(3)]), &mut out).unwrap();
    // ul = 1, li1 = 2, li3 = 3
    let mut out = Mutations::new();
    dom.render(scope, &el("ul", None, vec![], vec![li(0), li(1), li(2), li(3)]), &mut out).unwrap();
    let e = &out.edits;
    assert_eq!(e.len(), 4);
    assert!(matches!(&e[0], Mutation::CreateElement { .. }));
    assert!(matches!(&e[1], Mutation::InsertBefore { id: ElementId(2), n: 1 }));
    assert!(matches!(&e[2], Mutation::CreateElement { .. }));
    assert!(matches!(&e[3], Mutation::InsertAfter { id: ElementId(2), n: 1 }));
    assert_balanced(&out);
}

#[test]
fn all_children_replaced_are_appended() {
    let (mut dom, scope) = mounted_scope();
    let li = |k: u64| el("li", Some(k), vec![], vec![]);
    let mut out = Mutations::new();
    dom.render(scope, &el("ul", None, vec![], vec![li(1)]), &mut out).unwrap();
    let mut out = Mutations::new();
    dom.render(scope, &el("ul", None, vec![], vec![li(7), li(8)]), &mut out).unwrap();
    let e = &out.edits;
    assert!(matches!(&e[0], Mutation::Remove { id: ElementId(2) }));
    assert!(matches!(&e[1], Mutation::PushRoot { id: ElementId(1) }));
    assert!(matches!(&e[2], Mutation::CreateElement { .. }));
    assert!(matches!(&e[3], Mutation::AppendChildren { n: 1 }));
    assert!(matches!(&e[4], Mutation::PopRoot));
    assert!(matches!(&e[5], Mutation::CreateElement { .. }));
    assert!(matches!(&e[6], Mutation::InsertAfter { n: 1, .. }));
    assert_balanced(&out);
}

#[test]
fn kind_change_replaces() {
    let (mut dom, scope) = mounted_scope();
    let mut out = Mutations::new();
    dom.render(scope, &text("x"), &mut out).unwrap();
    let old_id = dom.scope_root_id(scope).unwrap();
    let mut out = Mutations::new();
    dom.render(scope, &el("p", None, vec![], vec![]), &mut out).unwrap();
    let e = &out.edits;
    assert_eq!(e.len(), 2);
    assert!(matches!(&e[0], Mutation::CreateElement { tag, .. } if tag == "p"));
    assert!(matches!(&e[1], Mutation::ReplaceWith { id, m: 1 } if *id == old_id));
    assert_ne!(dom.scope_root_id(scope), Some(old_id));
    assert_balanced(&out);
}

#[test]
fn tag_change_replaces() {
    let (mut dom, scope) = mounted_scope();
    let mut out = Mutations::new();
    dom.render(scope, &el("div", None, vec![], vec![text("x")]), &mut out).unwrap();
    let mut out = Mutations::new();
    dom.render(scope, &el("span", None, vec![], vec![text("x")]), &mut out).unwrap();
    assert!(matches!(out.edits.last(), Some(Mutation::ReplaceWith { id: ElementId(1), m: 1 })));
    assert_balanced(&out);
}

#[test]
fn attributes_and_listeners_diffed() {
    let (mut dom, scope) = mounted_scope();
    let mut first = el("a", None, vec![attr("href", "x"), attr("title", "t")], vec![]);
    if let VNode::Element(e) = &mut first {
        e.listeners.push("click".to_string());
    }
    let mut out = Mutations::new();
    dom.render(scope, &first, &mut out).unwrap();
    assert!(matches!(&out.edits[1], Mutation::SetAttribute { name, .. } if name == "href"));
    assert!(matches!(&out.edits[3], Mutation::NewEventListener { event, .. } if event == "click"));

    let mut second = el("a", None, vec![attr("href", "y")], vec![]);
    if let VNode::Element(e) = &mut second {
        e.listeners.push("hover".to_string());
    }
    let mut out = Mutations::new();
    dom.render(scope, &second, &mut out).unwrap();
    let e = &out.edits;
    assert_eq!(e.len(), 4);
    assert!(matches!(&e[0], Mutation::SetAttribute { name, value: AttributeValue::Text(v), id: ElementId(1), .. } if name == "href" && v == "y"));
    assert!(matches!(&e[1], Mutation::RemoveAttribute { name, id: ElementId(1) } if name == "title"));
    assert!(matches!(&e[2], Mutation::NewEventListener { event, scope: s, .. } if event == "hover" && *s == scope));
    assert!(matches!(&e[3], Mutation::RemoveEventListener { event, .. } if event == "click"));
}

#[test]
fn namespace_is_kept_per_element() {
    let (mut dom, scope) = mounted_scope();
    let svg = VNode::Element(VElement {
        id: None,
        tag: "svg".to_string(),
        namespace: Some("http://www.w3.org/2000/svg".to_string()),
        key: None,
        attributes: vec![],
        listeners: vec![],
        children: vec![el("g", None, vec![], vec![])],
    });
    let mut out = Mutations::new();
    dom.render(scope, &svg, &mut out).unwrap();
    assert!(matches!(&out.edits[0], Mutation::CreateElement { namespace: Some(ns), .. } if ns == "http://www.w3.org/2000/svg"));
    assert!(matches!(&out.edits[1], Mutation::CreateElement { namespace: None, .. }));
}

#[test]
fn component_and_placeholder_create_markers() {
    let (mut dom, scope) = mounted_scope();
    let tree = el(
        "div",
        None,
        vec![],
        vec![VNode::Component(VComponent { id: None, scope: ScopeId(7) }), VNode::Placeholder(VPlaceholder { id: None })],
    );
    let mut out = Mutations::new();
    dom.render(scope, &tree, &mut out).unwrap();
    assert!(matches!(&out.edits[1], Mutation::CreatePlaceholder { id: ElementId(2) }));
    assert!(matches!(&out.edits[2], Mutation::CreatePlaceholder { id: ElementId(3) }));
    assert!(matches!(&out.edits[3], Mutation::AppendChildren { n: 2 }));
    assert_balanced(&out);
}

#[test]
fn render_errors() {
    let mut dom = VirtualDom::new();
    let mut out = Mutations::new();
    assert_eq!(dom.render(ScopeId(5), &text("x"), &mut out), Err(vdom_core::RenderError::UnknownScope));
    let scope = dom.new_scope(None, ElementId(99), false);
    assert_eq!(dom.render(scope, &text("x"), &mut out), Err(vdom_core::RenderError::Unmounted));
    assert!(out.edits.is_empty());
}

#[test]
fn passes_stay_balanced() {
    let (mut dom, scope) = mounted_scope();
    let trees = vec![
        el("div", None, vec![attr("a", "1")], vec![text("x"), el("b", Some(3), vec![], vec![])]),
        el("div", None, vec![], vec![el("b", Some(3), vec![], vec![]), text("y")]),
        text("z"),
        el("div", None, vec![], vec![]),
    ];
    let mut all = Mutations::new();
    for t in &trees {
        let mut out = Mutations::new();
        dom.render(scope, t, &mut out).unwrap();
        assert_balanced(&out);
        all.edits.extend(out.edits);
    }
    assert_balanced(&all);
}

#[test]
fn slab_reuses_freed_keys() {
    let mut s: Slab<u32> = Slab::new();
    let a = s.insert(10);
    let b = s.insert(20);
    assert_ne!(a, b);
    assert_eq!(s.remove(a), Some(10));
    assert_eq!(s.remove(a), None);
    let c = s.insert(30);
    assert_eq!(c, a);
    assert_eq!(s.get(c), Some(&30));
    assert_eq!(s.get(b), Some(&20));
    assert!(s.contains(b));
}
