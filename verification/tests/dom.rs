use syljs::dom::{
    class_list_add, class_list_contains, class_list_remove, class_list_toggle, class_set, DomHost,
    DomNodeRef, DomNodeType, ResearchDom,
};

fn doc() -> ResearchDom<u32> {
    ResearchDom::new_document("Test")
}

#[test]
fn new_document_has_body_and_title() {
    let d = doc();
    assert_eq!(d.title(), "Test");
    let body = d.body();
    assert_eq!(body, DomNodeRef(1));
    let snap = d.node_snapshot(body).expect("body exists");
    assert_eq!(snap.tag_name, "body");
    assert_eq!(snap.node_type, DomNodeType::Element);
    assert_eq!(snap.parent, None);
    assert!(snap.children.is_empty());
    assert_eq!(d.all_nodes().len(), 1);
}

#[test]
fn default_document_is_titled_sylphos() {
    let d: ResearchDom<u32> = ResearchDom::default();
    assert_eq!(d.title(), "Sylphos");
}

#[test]
fn append_child_links_parent_and_child() {
    let mut d = doc();
    let body = d.body();
    let div = d.create_element("DIV");
    assert!(d.append_child(body, div));
    let b = d.node_snapshot(body).unwrap();
    assert_eq!(b.children, vec![div]);
    let s = d.node_snapshot(div).unwrap();
    assert_eq!(s.parent, Some(body));
    assert_eq!(s.tag_name, "div");
    assert_eq!(d.metrics().structure_mutations, 1);
    assert_eq!(d.metrics().nodes_created, 1);
}

#[test]
fn append_child_moves_node_between_parents() {
    let mut d = doc();
    let body = d.body();
    let a = d.create_element("div");
    let b = d.create_element("div");
    let c = d.create_element("span");
    assert!(d.append_child(body, a));
    assert!(d.append_child(body, b));
    assert!(d.append_child(a, c));
    assert!(d.append_child(b, c));
    assert!(d.node_snapshot(a).unwrap().children.is_empty());
    assert_eq!(d.node_snapshot(b).unwrap().children, vec![c]);
    assert_eq!(d.node_snapshot(c).unwrap().parent, Some(b));
}

#[test]
fn append_to_missing_node_fails() {
    let mut d = doc();
    let div = d.create_element("div");
    assert!(!d.append_child(DomNodeRef(99), div));
    assert!(!d.append_child(d.body(), DomNodeRef(99)));
    assert_eq!(d.metrics().structure_mutations, 0);
}

#[test]
fn remove_node_detaches_and_forgets() {
    let mut d = doc();
    let body = d.body();
    let div = d.create_element("div");
    let t = d.create_text_node("hi");
    d.append_child(body, div);
    d.append_child(div, t);
    assert!(d.remove_node(div));
    assert!(d.node_snapshot(div).is_none());
    assert!(d.node_snapshot(body).unwrap().children.is_empty());
    assert_eq!(d.node_snapshot(t).unwrap().parent, None);
    assert!(!d.remove_node(div));
}

#[test]
fn body_cannot_be_removed() {
    let mut d = doc();
    let body = d.body();
    assert!(!d.remove_node(body));
    assert!(d.node_snapshot(body).is_some());
}

#[test]
fn text_content_concatenates_descendants() {
    let mut d = doc();
    let body = d.body();
    let div = d.create_element("div");
    let t1 = d.create_text_node("Hello, ");
    let span = d.create_element("span");
    let t2 = d.create_text_node("world");
    d.append_child(body, div);
    d.append_child(div, t1);
    d.append_child(div, span);
    d.append_child(span, t2);
    assert_eq!(d.text_content(div), "Hello, world");
    assert_eq!(d.text_content(body), "Hello, world");
    assert_eq!(d.text_content(DomNodeRef(77)), "");
}

#[test]
fn set_text_content_sets_own_text() {
    let mut d = doc();
    let body = d.body();
    let div = d.create_element("div");
    let t = d.create_text_node("old");
    d.append_child(body, div);
    d.append_child(div, t);
    assert!(d.set_text_content(div, "new".to_string()));
    assert_eq!(d.text_content(div), "newold");
    assert_eq!(d.text_content(t), "old");
    assert!(!d.set_text_content(DomNodeRef(50), "x".to_string()));
}

#[test]
fn attributes_set_get_remove() {
    let mut d = doc();
    let div = d.create_element("div");
    assert!(d.set_attribute(div, "data-x", "1".to_string()));
    assert_eq!(d.get_attribute(div, "data-x"), Some("1".to_string()));
    assert!(d.set_attribute(div, "data-x", "2".to_string()));
    assert_eq!(d.get_attribute(div, "data-x"), Some("2".to_string()));
    assert!(d.remove_attribute(div, "data-x"));
    assert_eq!(d.get_attribute(div, "data-x"), None);
    assert_eq!(d.get_attribute(DomNodeRef(42), "data-x"), None);
}

#[test]
fn value_roundtrip() {
    let mut d = doc();
    let input = d.create_element("input");
    assert_eq!(d.value(input), "");
    assert!(d.set_value(input, "typed".to_string()));
    assert_eq!(d.value(input), "typed");
    assert_eq!(d.metrics().value_mutations, 1);
}

#[test]
fn query_selector_by_id_class_and_tag() {
    let mut d = doc();
    let body = d.body();
    let a = d.create_element("div");
    let b = d.create_element("p");
    d.append_child(body, a);
    d.append_child(body, b);
    d.set_attribute(a, "id", "main".to_string());
    d.set_attribute(b, "class", "note big".to_string());
    assert_eq!(d.query_selector("#main"), Some(a));
    assert_eq!(d.query_selector(".big"), Some(b));
    assert_eq!(d.query_selector("p"), Some(b));
    assert_eq!(d.query_selector("p.note"), Some(b));
    assert_eq!(d.query_selector("div#main"), Some(a));
    assert_eq!(d.query_selector(".missing"), None);
    assert_eq!(d.query_selector("body"), Some(body));
    assert_eq!(d.get_element_by_id("main"), Some(a));
    assert_eq!(d.get_element_by_id("nope"), None);
}

#[test]
fn query_selector_within_searches_descendants_only() {
    let mut d = doc();
    let body = d.body();
    let outer = d.create_element("section");
    let inner = d.create_element("section");
    d.append_child(body, outer);
    d.append_child(outer, inner);
    assert_eq!(d.query_selector_within(outer, "section"), Some(inner));
    assert_eq!(d.query_selector_within(inner, "section"), None);
}

#[test]
fn listeners_are_kept_per_node_and_type() {
    let mut d = doc();
    let btn = d.create_element("button");
    d.add_event_listener(btn, "click", 7);
    d.add_event_listener(btn, "click", 8);
    d.add_event_listener(btn, "input", 9);
    assert_eq!(d.event_listeners(btn, "click"), vec![7, 8]);
    assert_eq!(d.event_listeners(btn, "input"), vec![9]);
    assert!(d.event_listeners(btn, "keydown").is_empty());
    d.record_event_dispatch(btn, "click");
    let ev = d.events();
    assert_eq!(ev.len(), 1);
    assert_eq!(ev[0].target, btn);
    assert_eq!(ev[0].event_type, "click");
    assert_eq!(d.metrics().listeners_added, 3);
    assert_eq!(d.metrics().events_dispatched, 1);
}

#[test]
fn set_title_changes_title() {
    let mut d = doc();
    d.set_title("Other".to_string());
    assert_eq!(d.title(), "Other");
}

fn strings(v: &[&str]) -> Vec<String> {
    v.iter().map(|s| s.to_string()).collect()
}

#[test]
fn class_set_sorts_and_dedups_words() {
    assert_eq!(class_set("  b a\tb\nc "), strings(&["a", "b", "c"]));
    assert!(class_set("").is_empty());
    assert!(class_set("   ").is_empty());
}

#[test]
fn class_list_add_normalizes_value() {
    assert_eq!(class_list_add("zeta  alpha", &strings(&["beta", "", "alpha"])), "alpha beta zeta");
    assert_eq!(class_list_add("", &strings(&["one"])), "one");
    assert!(class_list_contains(&class_list_add("x", &strings(&["y"])), "y"));
}

#[test]
fn class_list_remove_drops_tokens() {
    assert_eq!(class_list_remove("a b c", &strings(&["b", "missing"])), "a c");
    assert_eq!(class_list_remove("a", &strings(&["a"])), "");
    assert!(!class_list_contains(&class_list_remove("a b", &strings(&["a"])), "a"));
}

#[test]
fn class_list_toggle_flips() {
    assert_eq!(class_list_toggle("a b", "a"), ("b".to_string(), false));
    assert_eq!(class_list_toggle("b", "a"), ("a b".to_string(), true));
    assert_eq!(class_list_toggle("b  c", ""), ("b c".to_string(), false));
}

#[test]
fn class_list_contains_whole_words_only() {
    assert!(class_list_contains("big note", "note"));
    assert!(!class_list_contains("big note", "not"));
    assert!(!class_list_contains("big note", ""));
    assert!(!class_list_contains("big note", "big note"));
}
