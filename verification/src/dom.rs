//! Deterministic in-memory DOM: nodes, tree mutations, attributes,
//! selectors, listeners and event records.


use crate::cssom::{class_listed, decl_view, has_token, has_ws_token, opt_string_view, ws_token_at};
use crate::event_loop::sat_inc;
use crate::keyed::{id_find, id_insert, id_map, id_remove, ids_sorted, keys_sorted, lists_sorted, table_get, table_insert, table_key_list, table_map, table_remove};
use crate::text::{chars_of, is_ws, is_ws_exec, lower, owned, split_once, string_from, to_lower, trim};
use vstd::prelude::*;

verus! {

broadcast use vstd::string::group_string_axioms;

/// Stable DOM node reference.
#[derive(Debug, Clone, Copy, PartialEq, Eq, PartialOrd, Ord, Hash, Structural)]
pub struct DomNodeRef(pub u64);

/// DOM node type.
#[derive(Debug, Clone, Copy, PartialEq, Eq, Structural)]
pub enum DomNodeType {
    /// Document/root node.
    Document,
    /// Element node.
    Element,
    /// Text node.
    Text,
}

/// Snapshot of a DOM node; attributes are listed by name.
#[derive(Debug, Clone, PartialEq, Eq)]
pub struct DomNodeSnapshot {
    /// Node id.
    pub id: DomNodeRef,
    /// Parent id.
    pub parent: Option<DomNodeRef>,
    /// Children.
    pub children: Vec<DomNodeRef>,
    /// Node type.
    pub node_type: DomNodeType,
    /// Tag name.
    pub tag_name: String,
    /// Text content.
    pub text: String,
    /// Attributes, as name and value.
    pub attributes: Vec<(String, String)>,
}

/// Event listener record for diagnostics.
#[derive(Debug, Clone, PartialEq, Eq)]
pub struct DomListenerRecord {
    /// Target node.
    pub target: DomNodeRef,
    /// Event type.
    pub event_type: String,
}

/// Event dispatch record for diagnostics.
#[derive(Debug, Clone, PartialEq, Eq)]
pub struct DomEventRecord {
    /// Target node.
    pub target: DomNodeRef,
    /// Event type.
    pub event_type: String,
}

/// DOM binding metrics.
#[derive(Debug, Clone, Copy, PartialEq, Eq, Structural)]
pub struct DomBindingMetrics {
    /// Query calls.
    pub queries: u64,
    /// Node creation calls.
    pub nodes_created: u64,
    /// Text mutation calls.
    pub text_mutations: u64,
    /// Attribute mutations.
    pub attribute_mutations: u64,
    /// Value mutations.
    pub value_mutations: u64,
    /// Append/remove mutations.
    pub structure_mutations: u64,
    /// Event listeners added.
    pub listeners_added: u64,
    /// Events dispatched.
    pub events_dispatched: u64,
}

/// All counters zero.
pub open spec fn zero_dom_metrics() -> DomBindingMetrics {
    DomBindingMetrics {
        queries: 0,
        nodes_created: 0,
        text_mutations: 0,
        attribute_mutations: 0,
        value_mutations: 0,
        structure_mutations: 0,
        listeners_added: 0,
        events_dispatched: 0,
    }
}

impl Default for DomBindingMetrics {
    fn default() -> (m: Self)
        ensures
            m == zero_dom_metrics(),
    {
        Self {
            queries: 0,
            nodes_created: 0,
            text_mutations: 0,
            attribute_mutations: 0,
            value_mutations: 0,
            structure_mutations: 0,
            listeners_added: 0,
            events_dispatched: 0,
        }
    }
}

/// The value of the first attribute with the given name.
pub open spec fn attr_lookup(attrs: Seq<(String, String)>, name: Seq<char>) -> Option<Seq<char>>
    decreases attrs.len(),
{
    if attrs.len() == 0 {
        None
    } else if attrs[0].0@ == name {
        Some(attrs[0].1@)
    } else {
        attr_lookup(attrs.drop_first(), name)
    }
}

/// Looks an attribute up by name.
pub fn attr_get<'a>(attrs: &'a Vec<(String, String)>, name: &str) -> (r: Option<&'a String>)
    ensures
        match r {
            Some(v) => attr_lookup(attrs@, name@) == Some(v@),
            None => attr_lookup(attrs@, name@) is None,
        },
{
    let mut i: usize = 0;
    assert(attrs@.skip(0) =~= attrs@);
    while i < attrs.len()
        invariant
            i <= attrs@.len(),
            attr_lookup(attrs@, name@) == attr_lookup(attrs@.skip(i as int), name@),
        decreases attrs.len() - i,
    {
        assert(attrs@.skip(i as int).drop_first() =~= attrs@.skip(i as int + 1));
        if crate::text::str_eq(attrs[i].0.as_str(), name) {
            return Some(&attrs[i].1);
        }
        i = i + 1;
    }
    None
}

/// Browser DOM host abstraction, generic over the listener callbacks it keeps.
pub trait DomHost<C> {
    /// Document title.
    fn title(&self) -> String;

    /// Sets the document title.
    fn set_title(&mut self, title: String);

    /// Body node.
    fn body(&self) -> DomNodeRef;

    /// Snapshot of a node.
    fn node_snapshot(&self, id: DomNodeRef) -> Option<DomNodeSnapshot>;

    /// First node matching a selector.
    fn query_selector(&mut self, selector: &str) -> Option<DomNodeRef>;

    /// First node below `root` matching a selector, in document order.
    fn query_selector_within(&mut self, root: DomNodeRef, selector: &str) -> Option<DomNodeRef>;

    /// Node whose `id` attribute is `id`.
    fn get_element_by_id(&mut self, id: &str) -> Option<DomNodeRef>;

    /// Creates an element.
    fn create_element(&mut self, tag: &str) -> DomNodeRef;

    /// Creates a text node.
    fn create_text_node(&mut self, text: &str) -> DomNodeRef;

    /// Appends `child` to `parent`, moving it from its old parent.
    fn append_child(&mut self, parent: DomNodeRef, child: DomNodeRef) -> bool;

    /// Removes a node.
    fn remove_node(&mut self, node: DomNodeRef) -> bool;

    /// Sets a node's own text.
    fn set_text_content(&mut self, node: DomNodeRef, value: String) -> bool;

    /// Text of a node and its descendants.
    fn text_content(&self, node: DomNodeRef) -> String;

    /// Sets a form value.
    fn set_value(&mut self, node: DomNodeRef, value: String) -> bool;

    /// Form value.
    fn value(&self, node: DomNodeRef) -> String;

    /// Sets an attribute.
    fn set_attribute(&mut self, node: DomNodeRef, name: &str, value: String) -> bool;

    /// Reads an attribute.
    fn get_attribute(&self, node: DomNodeRef, name: &str) -> Option<String>;

    /// Removes an attribute.
    fn remove_attribute(&mut self, node: DomNodeRef, name: &str) -> bool;

    /// Adds an event listener.
    fn add_event_listener(&mut self, node: DomNodeRef, event_type: &str, callback: C);

    /// Listeners of a node for an event type, in registration order.
    fn event_listeners(&self, node: DomNodeRef, event_type: &str) -> Vec<C>;

    /// Records an event dispatch.
    fn record_event_dispatch(&mut self, node: DomNodeRef, event_type: &str);

    /// Metrics snapshot.
    fn metrics(&self) -> DomBindingMetrics;
}


// ---------------------------------------------------------------------------
// The research DOM
// ---------------------------------------------------------------------------

/// Model of a node.
pub struct NodeView {
    pub parent: Option<u64>,
    pub children: Seq<u64>,
    pub node_type: DomNodeType,
    pub tag_name: Seq<char>,
    pub text: Seq<char>,
    pub attributes: Map<Seq<char>, Seq<char>>,
}

/// One stored node.
#[derive(Debug, Clone)]
struct ResearchNode {
    parent: Option<u64>,
    children: Vec<u64>,
    node_type: DomNodeType,
    tag_name: String,
    text: String,
    attributes: Vec<(String, String)>,
}

impl View for ResearchNode {
    type V = NodeView;

    closed spec fn view(&self) -> NodeView {
        NodeView {
            parent: self.parent,
            children: self.children@,
            node_type: self.node_type,
            tag_name: self.tag_name@,
            text: self.text@,
            attributes: decl_view(self.attributes@),
        }
    }
}

/// A registered listener.
#[derive(Debug)]
struct Listener<C> {
    node: u64,
    event_type: String,
    callback: C,
}

/// Model of the DOM.
pub struct DomView<C> {
    pub title: Seq<char>,
    pub nodes: Map<u64, NodeView>,
    pub next_node: u64,
    pub body: u64,
    pub listeners: Seq<(u64, Seq<char>, C)>,
    pub events: Seq<(u64, Seq<char>)>,
    pub metrics: DomBindingMetrics,
}

/// Deterministic in-memory DOM, generic over the listener callbacks it keeps.
#[derive(Debug)]
pub struct ResearchDom<C> {
    title: String,
    nodes: Vec<(u64, ResearchNode)>,
    next_node: u64,
    body: u64,
    listeners: Vec<Listener<C>>,
    events: Vec<DomEventRecord>,
    metrics: DomBindingMetrics,
}

/// Views of the node table.
pub open spec fn node_map(t: Seq<(u64, ResearchNode)>) -> Map<u64, NodeView> {
    id_map(t).map_values(|n: ResearchNode| n@)
}

impl<C> View for ResearchDom<C> {
    type V = DomView<C>;

    closed spec fn view(&self) -> DomView<C> {
        DomView {
            title: self.title@,
            nodes: node_map(self.nodes@),
            next_node: self.next_node,
            body: self.body,
            listeners: self.listeners@.map_values(|l: Listener<C>| (l.node, l.event_type@, l.callback)),
            events: self.events@.map_values(|e: DomEventRecord| (e.target.0, e.event_type@)),
            metrics: self.metrics,
        }
    }
}

/// A fresh node.
pub open spec fn fresh_node(node_type: DomNodeType, tag: Seq<char>, text: Seq<char>) -> NodeView {
    NodeView {
        parent: None,
        children: Seq::empty(),
        node_type,
        tag_name: lower(tag),
        text,
        attributes: Map::empty(),
    }
}

/// A new document: a body element with id 1 and nothing else.
pub open spec fn new_document_view<C>(title: Seq<char>) -> DomView<C> {
    DomView {
        title,
        nodes: map![1u64 => fresh_node(DomNodeType::Element, "body"@, Seq::empty())],
        next_node: 2,
        body: 1,
        listeners: Seq::empty(),
        events: Seq::empty(),
        metrics: zero_dom_metrics(),
    }
}

/// Allocating a node: the next id, a fresh node, and one more node created.
pub open spec fn alloc_effect<C>(v: DomView<C>, node_type: DomNodeType, tag: Seq<char>, text: Seq<char>) -> DomView<C> {
    DomView {
        nodes: v.nodes.insert(v.next_node, fresh_node(node_type, tag, text)),
        next_node: sat_inc(v.next_node),
        metrics: DomBindingMetrics { nodes_created: sat_inc(v.metrics.nodes_created), ..v.metrics },
        ..v
    }
}

/// `s` without any occurrence of `x`, order kept.
pub open spec fn remove_all(s: Seq<u64>, x: u64) -> Seq<u64>
    decreases s.len(),
{
    if s.len() == 0 {
        s
    } else if s.last() == x {
        remove_all(s.drop_last(), x)
    } else {
        remove_all(s.drop_last(), x).push(s.last())
    }
}

fn without(v: &Vec<u64>, x: u64) -> (r: Vec<u64>)
    ensures
        r@ == remove_all(v@, x),
{
    let mut r: Vec<u64> = Vec::new();
    let mut i: usize = 0;
    while i < v.len()
        invariant
            i <= v@.len(),
            r@ == remove_all(v@.take(i as int), x),
        decreases v.len() - i,
    {
        assert(v@.take(i as int + 1).drop_last() =~= v@.take(i as int));
        if v[i] != x {
            r.push(v[i]);
        }
        i = i + 1;
    }
    assert(v@.take(i as int) =~= v@);
    r
}

impl ResearchNode {
    fn copy(&self) -> (c: Self)
        ensures
            c@ == self@,
            c.attributes@ == self.attributes@,
    {
        let mut children: Vec<u64> = Vec::new();
        let mut i: usize = 0;
        while i < self.children.len()
            invariant
                i <= self.children@.len(),
                children@ == self.children@.take(i as int),
            decreases self.children.len() - i,
        {
            children.push(self.children[i]);
            i = i + 1;
            assert(children@ =~= self.children@.take(i as int));
        }
        assert(self.children@.take(i as int) =~= self.children@);
        ResearchNode {
            parent: self.parent,
            children,
            node_type: self.node_type,
            tag_name: self.tag_name.clone(),
            text: self.text.clone(),
            attributes: copy_attrs(&self.attributes),
        }
    }

    fn snapshot(&self, id: u64) -> (s: DomNodeSnapshot)
        ensures
            snapshot_view(s) == (id, self@),
            keys_sorted(self.attributes@) ==> keys_sorted(s.attributes@),
            s.attributes@ == self.attributes@,
    {
        let mut children: Vec<DomNodeRef> = Vec::new();
        let mut i: usize = 0;
        while i < self.children.len()
            invariant
                i <= self.children@.len(),
                children@.len() == i,
                forall|k: int| 0 <= k < i ==> (#[trigger] children@[k]).0 == self.children@[k],
            decreases self.children.len() - i,
        {
            children.push(DomNodeRef(self.children[i]));
            i = i + 1;
        }
        let s = DomNodeSnapshot {
            id: DomNodeRef(id),
            parent: match self.parent {
                Some(p) => Some(DomNodeRef(p)),
                None => None,
            },
            children,
            node_type: self.node_type,
            tag_name: self.tag_name.clone(),
            text: self.text.clone(),
            attributes: copy_attrs(&self.attributes),
        };
        assert(snapshot_view(s).1.children =~= self@.children);
        s
    }
}

fn copy_attrs(v: &Vec<(String, String)>) -> (r: Vec<(String, String)>)
    ensures
        r@ == v@,
{
    let mut r: Vec<(String, String)> = Vec::new();
    let mut i: usize = 0;
    while i < v.len()
        invariant
            i <= v@.len(),
            r@ == v@.take(i as int),
        decreases v.len() - i,
    {
        r.push((v[i].0.clone(), v[i].1.clone()));
        i = i + 1;
        assert(r@ =~= v@.take(i as int));
    }
    assert(v@.take(v.len() as int) =~= v@);
    r
}

/// A snapshot as an id and a node model.
pub open spec fn snapshot_view(s: DomNodeSnapshot) -> (u64, NodeView) {
    (
        s.id.0,
        NodeView {
            parent: match s.parent {
                Some(p) => Some(p.0),
                None => None,
            },
            children: s.children@.map_values(|c: DomNodeRef| c.0),
            node_type: s.node_type,
            tag_name: s.tag_name@,
            text: s.text@,
            attributes: decl_view(s.attributes@),
        },
    )
}


/// Attribute names are stored lower-cased.
pub open spec fn attr_name(name: Seq<char>) -> Seq<char> {
    lower(name)
}

/// The node, if it exists.
pub open spec fn node_of<C>(v: DomView<C>, id: u64) -> Option<NodeView> {
    if v.nodes.dom().contains(id) {
        Some(v.nodes[id])
    } else {
        None
    }
}

/// One more count in a metric field picked by `f`.
pub open spec fn with_nodes<C>(v: DomView<C>, nodes: Map<u64, NodeView>) -> DomView<C> {
    DomView { nodes, ..v }
}

impl<C> ResearchDom<C> {
    #[verifier::type_invariant]
    spec fn wf(self) -> bool {
        &&& ids_sorted(self.nodes@)
        &&& forall|k: u64| #[trigger]
            id_map(self.nodes@).dom().contains(k) ==> keys_sorted(id_map(self.nodes@)[k].attributes@)
    }

    /// Creates a new document with a body root.
    pub fn new_document(title: &str) -> (d: Self)
        ensures
            d@ == new_document_view::<C>(title@),
    {
        let body = ResearchNode {
            parent: None,
            children: Vec::new(),
            node_type: DomNodeType::Element,
            tag_name: owned("body"),
            text: String::new(),
            attributes: Vec::new(),
        };
        let mut nodes: Vec<(u64, ResearchNode)> = Vec::new();
        proof {
            crate::keyed::lemma_id_empty(nodes@);
            crate::keyed::lemma_table_empty(body.attributes@);
            assert(decl_view(body.attributes@) =~= Map::<Seq<char>, Seq<char>>::empty());
            reveal_strlit("body");
            assert(lower("body"@) =~= "body"@);
            assert(body@ == fresh_node(DomNodeType::Element, "body"@, Seq::empty()));
        }
        let ghost bv = body@;
        id_insert(&mut nodes, 1, body);
        let d = ResearchDom {
            title: owned(title),
            nodes,
            next_node: 2,
            body: 1,
            listeners: Vec::new(),
            events: Vec::new(),
            metrics: DomBindingMetrics::default(),
        };
        proof {
            assert(id_map(d.nodes@).dom() =~= set![1u64]);
            assert(d@.nodes =~= map![1u64 => bv]);
            assert(d@.listeners =~= Seq::<(u64, Seq<char>, C)>::empty());
            assert(d@.events =~= Seq::<(u64, Seq<char>)>::empty());
        }
        d
    }

    /// Returns all dispatched event records.
    pub fn events(&self) -> (r: Vec<DomEventRecord>)
        ensures
            r@.map_values(|e: DomEventRecord| (e.target.0, e.event_type@)) == self@.events,
    {
        let mut r: Vec<DomEventRecord> = Vec::new();
        let mut i: usize = 0;
        while i < self.events.len()
            invariant
                i <= self.events@.len(),
                r@.len() == i,
                forall|k: int| 0 <= k < i ==> (#[trigger] r@[k]).target == self.events@[k].target
                    && r@[k].event_type@ == self.events@[k].event_type@,
            decreases self.events.len() - i,
        {
            r.push(
                DomEventRecord {
                    target: self.events[i].target,
                    event_type: self.events[i].event_type.clone(),
                },
            );
            i = i + 1;
        }
        assert(r@.map_values(|e: DomEventRecord| (e.target.0, e.event_type@)) =~= self@.events);
        r
    }

    /// Returns all node snapshots in id order.
    pub fn all_nodes(&self) -> (r: Vec<DomNodeSnapshot>)
        ensures
            r@.len() == self@.nodes.dom().len(),
            forall|i: int, j: int| 0 <= i < j < r@.len() ==> (#[trigger] r@[i]).id.0 < (#[trigger] r@[j]).id.0,
            forall|i: int|
                0 <= i < r@.len() ==> self@.nodes.dom().contains((#[trigger] r@[i]).id.0) && snapshot_view(r@[i]).1
                    == self@.nodes[r@[i].id.0],
            forall|k: u64| self@.nodes.dom().contains(k) ==> exists|i: int| 0 <= i < r@.len() && (#[trigger] r@[i]).id.0 == k,
    {
        proof {
            use_type_invariant(self);
        }
        let mut r: Vec<DomNodeSnapshot> = Vec::new();
        let mut i: usize = 0;
        while i < self.nodes.len()
            invariant
                i <= self.nodes@.len(),
                ids_sorted(self.nodes@),
                r@.len() == i,
                forall|k: int| 0 <= k < i ==> (#[trigger] r@[k]).id.0 == self.nodes@[k].0 && snapshot_view(r@[k]).1
                    == self.nodes@[k].1@,
            decreases self.nodes.len() - i,
        {
            let s = self.nodes[i].1.snapshot(self.nodes[i].0);
            r.push(s);
            i = i + 1;
        }
        proof {
            let t = self.nodes@;
            assert forall|k: int| 0 <= k < r@.len() implies self@.nodes.dom().contains((#[trigger] r@[k]).id.0)
                && snapshot_view(r@[k]).1 == self@.nodes[r@[k].id.0] by {
                crate::keyed::lemma_id_entry(t, k);
            }
            assert forall|key: u64| self@.nodes.dom().contains(key) implies exists|k: int|
                0 <= k < r@.len() && (#[trigger] r@[k]).id.0 == key by {
                let k = crate::keyed::id_pos(t, key);
                assert(r@[k].id.0 == key);
            }
            let keys = Seq::new(t.len(), |k: int| t[k].0);
            assert(id_map(t).dom() =~= keys.to_set()) by {
                assert forall|key: u64| id_map(t).dom().contains(key) implies keys.to_set().contains(key) by {
                    let k = crate::keyed::id_pos(t, key);
                    assert(keys[k] == key);
                }
                assert forall|key: u64| keys.to_set().contains(key) implies id_map(t).dom().contains(key) by {
                    let k = choose|k: int| 0 <= k < keys.len() && keys[k] == key;
                    crate::keyed::lemma_id_entry(t, k);
                }
            }
            assert(keys.no_duplicates()) by {
                assert forall|a: int, b: int| 0 <= a < keys.len() && 0 <= b < keys.len() && a != b implies keys[a]
                    != keys[b] by {
                    if a < b {
                        assert(t[a].0 < t[b].0);
                    } else {
                        assert(t[b].0 < t[a].0);
                    }
                }
            }
            keys.unique_seq_to_set();
            assert(self@.nodes.dom() =~= id_map(t).dom());
            assert(self@.nodes.dom().len() == keys.len());
        }
        r
    }

    fn alloc_node(&mut self, node_type: DomNodeType, tag: &str, text: String) -> (id: DomNodeRef)
        ensures
            final(self)@ == alloc_effect(old(self)@, node_type, tag@, text@),
            id.0 == old(self)@.next_node,
    {
        proof {
            use_type_invariant(&*self);
        }
        let id = self.next_node;
        let node = ResearchNode {
            parent: None,
            children: Vec::new(),
            node_type,
            tag_name: to_lower(tag),
            text,
            attributes: Vec::new(),
        };
        proof {
            crate::keyed::lemma_table_empty(node.attributes@);
            assert(decl_view(node.attributes@) =~= Map::<Seq<char>, Seq<char>>::empty());
        }
        let ghost nv = node@;
        let mut nodes: Vec<(u64, ResearchNode)> = Vec::new();
        std::mem::swap(&mut nodes, &mut self.nodes);
        let ghost n0 = nodes@;
        id_insert(&mut nodes, id, node);
        proof {
            assert forall|k: u64| #[trigger] id_map(nodes@).dom().contains(k) implies keys_sorted(
                id_map(nodes@)[k].attributes@,
            ) by {
                if k != id {
                    assert(id_map(n0).dom().contains(k));
                }
            }
        }
        self.nodes = nodes;
        self.next_node = self.next_node.saturating_add(1);
        self.metrics.nodes_created = self.metrics.nodes_created.saturating_add(1);
        assert(self@.nodes =~= old(self)@.nodes.insert(id, nv));
        assert(self@ =~= alloc_effect(old(self)@, node_type, tag@, text@));
        DomNodeRef(id)
    }

    fn take_node(&mut self, id: u64) -> (r: Option<ResearchNode>)
        ensures
            final(self)@ == with_nodes(old(self)@, old(self)@.nodes.remove(id)),
            match r {
                Some(n) => old(self)@.nodes.dom().contains(id) && n@ == old(self)@.nodes[id] && keys_sorted(
                    n.attributes@,
                ),
                None => !old(self)@.nodes.dom().contains(id),
            },
    {
        proof {
            use_type_invariant(&*self);
        }
        let mut nodes: Vec<(u64, ResearchNode)> = Vec::new();
        std::mem::swap(&mut nodes, &mut self.nodes);
        let ghost n0 = nodes@;
        let r = id_remove(&mut nodes, id);
        proof {
            assert forall|k: u64| #[trigger] id_map(nodes@).dom().contains(k) implies keys_sorted(
                id_map(nodes@)[k].attributes@,
            ) by {
                assert(id_map(n0).dom().contains(k));
            }
        }
        self.nodes = nodes;
        assert(node_map(self.nodes@) =~= node_map(n0).remove(id));
        assert(self@ =~= with_nodes(old(self)@, old(self)@.nodes.remove(id)));
        r
    }

    fn put_node(&mut self, id: u64, node: ResearchNode)
        requires
            keys_sorted(node.attributes@),
        ensures
            final(self)@ == with_nodes(old(self)@, old(self)@.nodes.insert(id, node@)),
    {
        proof {
            use_type_invariant(&*self);
        }
        let ghost nv = node@;
        let mut nodes: Vec<(u64, ResearchNode)> = Vec::new();
        std::mem::swap(&mut nodes, &mut self.nodes);
        let ghost n0 = nodes@;
        id_insert(&mut nodes, id, node);
        proof {
            assert forall|k: u64| #[trigger] id_map(nodes@).dom().contains(k) implies keys_sorted(
                id_map(nodes@)[k].attributes@,
            ) by {
                if k != id {
                    assert(id_map(n0).dom().contains(k));
                }
            }
        }
        self.nodes = nodes;
        assert(node_map(self.nodes@) =~= node_map(n0).insert(id, nv));
        assert(self@ =~= with_nodes(old(self)@, old(self)@.nodes.insert(id, nv)));
    }

    fn node_ref(&self, id: u64) -> (r: Option<&ResearchNode>)
        ensures
            match r {
                Some(n) => self@.nodes.dom().contains(id) && n@ == self@.nodes[id] && keys_sorted(n.attributes@),
                None => !self@.nodes.dom().contains(id),
            },
    {
        proof {
            use_type_invariant(self);
        }
        match id_find(&self.nodes, id) {
            Ok(i) => {
                proof {
                    crate::keyed::lemma_id_entry(self.nodes@, i as int);
                }
                Some(&self.nodes[i].1)
            },
            Err(_) => None,
        }
    }
}

impl<C> Default for ResearchDom<C> {
    fn default() -> (d: Self)
        ensures
            d@ == new_document_view::<C>("Sylphos"@),
    {
        Self::new_document("Sylphos")
    }
}


// ---------------------------------------------------------------------------
// Tree effects
// ---------------------------------------------------------------------------

/// Appending `child` to `parent`: detached from its old parent, linked to
/// the new one, listed last among its children unless already listed.
pub open spec fn append_effect<C>(v: DomView<C>, parent: u64, child: u64) -> (DomView<C>, bool) {
    if !v.nodes.dom().contains(parent) || !v.nodes.dom().contains(child) {
        (v, false)
    } else {
        let n0 = v.nodes;
        let n1 = match n0[child].parent {
            Some(op) => if n0.dom().contains(op) {
                n0.insert(op, NodeView { children: remove_all(n0[op].children, child), ..n0[op] })
            } else {
                n0
            },
            None => n0,
        };
        let n2 = n1.insert(child, NodeView { parent: Some(parent), ..n1[child] });
        let n3 = if n2[parent].children.contains(child) {
            n2
        } else {
            n2.insert(parent, NodeView { children: n2[parent].children.push(child), ..n2[parent] })
        };
        (
            DomView {
                nodes: n3,
                metrics: DomBindingMetrics { structure_mutations: sat_inc(v.metrics.structure_mutations), ..v.metrics },
                ..v
            },
            true,
        )
    }
}

/// Children of a removed node lose their parent.
pub open spec fn clear_parents(n: Map<u64, NodeView>, cs: Seq<u64>) -> Map<u64, NodeView>
    decreases cs.len(),
{
    if cs.len() == 0 {
        n
    } else {
        let m = clear_parents(n, cs.drop_last());
        if m.dom().contains(cs.last()) {
            m.insert(cs.last(), NodeView { parent: None, ..m[cs.last()] })
        } else {
            m
        }
    }
}

/// Removing a node other than the body: gone, unlisted by its parent, its
/// children detached.
pub open spec fn remove_effect<C>(v: DomView<C>, node: u64) -> (DomView<C>, bool) {
    if node == v.body || !v.nodes.dom().contains(node) {
        (v, false)
    } else {
        let removed = v.nodes[node];
        let n1 = v.nodes.remove(node);
        let n2 = match removed.parent {
            Some(p) => if n1.dom().contains(p) {
                n1.insert(p, NodeView { children: remove_all(n1[p].children, node), ..n1[p] })
            } else {
                n1
            },
            None => n1,
        };
        (
            DomView {
                nodes: clear_parents(n2, removed.children),
                metrics: DomBindingMetrics { structure_mutations: sat_inc(v.metrics.structure_mutations), ..v.metrics },
                ..v
            },
            true,
        )
    }
}

/// Parent and children links agree: a node lists a child exactly when the
/// child names it as parent, and lists it once.
pub open spec fn links_consistent(n: Map<u64, NodeView>) -> bool {
    &&& forall|p: u64, c: u64|
        #![trigger n[p].children.contains(c), n.dom().contains(c)]
        n.dom().contains(p) ==> (n[p].children.contains(c) <==> (n.dom().contains(c) && n[c].parent == Some(p)))
    &&& forall|p: u64| #[trigger] n.dom().contains(p) ==> n[p].children.no_duplicates()
    &&& forall|c: u64| #[trigger] n.dom().contains(c) && n[c].parent is Some ==> n.dom().contains(n[c].parent->Some_0)
}

proof fn lemma_links_at(n: Map<u64, NodeView>, p: u64, c: u64)
    requires
        links_consistent(n),
        n.dom().contains(p),
    ensures
        n[p].children.contains(c) <==> (n.dom().contains(c) && n[c].parent == Some(p)),
        n[p].children.no_duplicates(),
{
    assert(n[p].children.contains(c) <==> (n.dom().contains(c) && n[c].parent == Some(p)));
}

fn contains_id(v: &Vec<u64>, x: u64) -> (r: bool)
    ensures
        r == v@.contains(x),
{
    let mut i: usize = 0;
    while i < v.len()
        invariant
            i <= v@.len(),
            forall|j: int| 0 <= j < i ==> v@[j] != x,
        decreases v.len() - i,
    {
        if v[i] == x {
            assert(v@[i as int] == x);
            return true;
        }
        i = i + 1;
    }
    false
}

impl<C> ResearchDom<C> {
    fn append_child_impl(&mut self, parent: DomNodeRef, child: DomNodeRef) -> (ok: bool)
        ensures
            (final(self)@, ok) == append_effect(old(self)@, parent.0, child.0),
    {
        let ghost v0 = self@;
        let (has_parent, old_parent) = match self.node_ref(parent.0) {
            Some(_) => match self.node_ref(child.0) {
                Some(c) => (true, Some(c.parent)),
                None => (false, None),
            },
            None => (false, None),
        };
        if !has_parent || old_parent.is_none() {
            return false;
        }
        let old_parent = old_parent.unwrap();
        let ghost n0 = v0.nodes;
        match old_parent {
            Some(op) => {
                match self.take_node(op) {
                    Some(mut opn) => {
                        opn.children = without(&opn.children, child.0);
                        let ghost nv = opn@;
                        self.put_node(op, opn);
                        assert(self@.nodes =~= n0.insert(op, NodeView { children: remove_all(n0[op].children, child.0), ..n0[op] }));
                    },
                    None => {
                        assert(self@.nodes =~= n0);
                    },
                }
            },
            None => {},
        }
        let ghost n1 = self@.nodes;
        let mut cn = self.take_node(child.0).unwrap();
        cn.parent = Some(parent.0);
        self.put_node(child.0, cn);
        assert(self@.nodes =~= n1.insert(child.0, NodeView { parent: Some(parent.0), ..n1[child.0] }));
        let ghost n2 = self@.nodes;
        let mut pn = self.take_node(parent.0).unwrap();
        if !contains_id(&pn.children, child.0) {
            pn.children.push(child.0);
            self.put_node(parent.0, pn);
            assert(self@.nodes =~= n2.insert(parent.0, NodeView { children: n2[parent.0].children.push(child.0), ..n2[parent.0] }));
        } else {
            self.put_node(parent.0, pn);
            assert(self@.nodes =~= n2);
        }
        proof {
            use_type_invariant(&*self);
        }
        self.metrics.structure_mutations = self.metrics.structure_mutations.saturating_add(1);
        true
    }

    fn remove_node_impl(&mut self, node: DomNodeRef) -> (ok: bool)
        ensures
            (final(self)@, ok) == remove_effect(old(self)@, node.0),
    {
        if node.0 == self.body {
            return false;
        }
        let ghost v0 = self@;
        let removed = match self.take_node(node.0) {
            Some(n) => n,
            None => {
                assert(v0.nodes.remove(node.0) =~= v0.nodes);
                return false;
            },
        };
        let ghost n1 = self@.nodes;
        match removed.parent {
            Some(p) => match self.take_node(p) {
                Some(mut pn) => {
                    pn.children = without(&pn.children, node.0);
                    self.put_node(p, pn);
                    assert(self@.nodes =~= n1.insert(p, NodeView { children: remove_all(n1[p].children, node.0), ..n1[p] }));
                },
                None => {
                    assert(self@.nodes =~= n1);
                },
            },
            None => {},
        }
        let ghost n2 = self@.nodes;
        let mut i: usize = 0;
        assert(removed.children@.take(0) =~= Seq::<u64>::empty());
        while i < removed.children.len()
            invariant
                i <= removed.children@.len(),
                self@.nodes == clear_parents(n2, removed.children@.take(i as int)),
                self@ == with_nodes(v0, self@.nodes),
            decreases removed.children.len() - i,
        {
            let c = removed.children[i];
            let ghost m = self@.nodes;
            assert(removed.children@.take(i as int + 1).drop_last() =~= removed.children@.take(i as int));
            match self.take_node(c) {
                Some(mut cn) => {
                    cn.parent = None;
                    self.put_node(c, cn);
                    assert(self@.nodes =~= m.insert(c, NodeView { parent: None, ..m[c] }));
                },
                None => {
                    assert(self@.nodes =~= m);
                },
            }
            i = i + 1;
        }
        assert(removed.children@.take(i as int) =~= removed.children@);
        proof {
            use_type_invariant(&*self);
        }
        self.metrics.structure_mutations = self.metrics.structure_mutations.saturating_add(1);
        true
    }
}

// ---------------------------------------------------------------------------
// Laws
// ---------------------------------------------------------------------------

proof fn lemma_remove_all_contains(s: Seq<u64>, x: u64, y: u64)
    ensures
        remove_all(s, x).contains(y) <==> (s.contains(y) && y != x),
        s.no_duplicates() ==> remove_all(s, x).no_duplicates(),
    decreases s.len(),
{
    if s.len() > 0 {
        lemma_remove_all_contains(s.drop_last(), x, y);
        lemma_remove_all_contains(s.drop_last(), x, s.last());
        assert(s =~= s.drop_last().push(s.last()));
        if s.drop_last().contains(y) {
            let k = choose|k: int| 0 <= k < s.drop_last().len() && s.drop_last()[k] == y;
            assert(s[k] == y);
        }
        if s.contains(y) && y != s.last() {
            let k = choose|k: int| 0 <= k < s.len() && s[k] == y;
            assert(s.drop_last()[k] == y);
        }
        if s.last() != x {
            let r = remove_all(s.drop_last(), x);
            assert(r.push(s.last()).last() == s.last());
            if y == s.last() {
                assert(r.push(s.last())[r.len() as int] == y);
            }
            if r.push(s.last()).contains(y) && y != s.last() {
                let k = choose|k: int| 0 <= k < r.push(s.last()).len() && r.push(s.last())[k] == y;
                assert(r[k] == y);
            }
            if r.contains(y) {
                let k = choose|k: int| 0 <= k < r.len() && r[k] == y;
                assert(r.push(s.last())[k] == y);
            }
            if s.no_duplicates() {
                assert(!s.drop_last().contains(s.last())) by {
                    if s.drop_last().contains(s.last()) {
                        let k = choose|k: int| 0 <= k < s.drop_last().len() && s.drop_last()[k] == s.last();
                        assert(s[k] == s[s.len() - 1]);
                    }
                }
                assert(s.drop_last().no_duplicates());
                assert(!r.contains(s.last()));
            }
        } else {
            if s.no_duplicates() {
                assert(s.drop_last().no_duplicates());
            }
        }
    }
}


/// Appending keeps parent and children links in agreement.
pub proof fn lemma_append_keeps_links<C>(v: DomView<C>, parent: u64, child: u64)
    requires
        links_consistent(v.nodes),
    ensures
        links_consistent(append_effect(v, parent, child).0.nodes),
{
    if v.nodes.dom().contains(parent) && v.nodes.dom().contains(child) {
        let n0 = v.nodes;
        let n1 = match n0[child].parent {
            Some(op) => if n0.dom().contains(op) {
                n0.insert(op, NodeView { children: remove_all(n0[op].children, child), ..n0[op] })
            } else {
                n0
            },
            None => n0,
        };
        let n2 = n1.insert(child, NodeView { parent: Some(parent), ..n1[child] });
        let n3 = append_effect(v, parent, child).0.nodes;
        assert(n1.dom() =~= n0.dom());
        assert(n3.dom() =~= n0.dom());
        assert forall|p: u64| #[trigger] n1.dom().contains(p) implies !n1[p].children.contains(child)
            && n1[p].children.no_duplicates() && n1[p].parent == n0[p].parent && (forall|c: u64|
            c != child ==> (n1[p].children.contains(c) == n0[p].children.contains(c))) by {
            lemma_links_at(n0, p, child);
            if n0[child].parent == Some(p) {
                assert forall|c: u64| true implies (remove_all(n0[p].children, child).contains(c) == (
                n0[p].children.contains(c) && c != child)) by {
                    lemma_remove_all_contains(n0[p].children, child, c);
                }
                lemma_remove_all_contains(n0[p].children, child, child);
            }
        }
        assert(n2[parent].children == n1[parent].children);
        let l = n2[parent].children;
        let pushed = !l.contains(child);
        assert forall|c: u64| c != child implies (n3[parent].children.contains(c) == l.contains(c)) by {
            if pushed {
                if l.push(child).contains(c) {
                    let k = choose|k: int| 0 <= k < l.push(child).len() && l.push(child)[k] == c;
                    assert(l[k] == c);
                }
                if l.contains(c) {
                    let k = choose|k: int| 0 <= k < l.len() && l[k] == c;
                    assert(l.push(child)[k] == c);
                }
            }
        }
        assert(n3[parent].children.contains(child)) by {
            if pushed {
                assert(l.push(child)[l.len() as int] == child);
            }
        }
        assert(n3[parent].children.no_duplicates()) by {
            if pushed {
                assert forall|a: int, b: int| 0 <= a < l.push(child).len() && 0 <= b < l.push(child).len() && a
                    != b implies l.push(child)[a] != l.push(child)[b] by {
                    if a < l.len() && b == l.len() {
                        assert(l.contains(l[a]));
                    } else if b < l.len() && a == l.len() {
                        assert(l.contains(l[b]));
                    }
                }
            }
        }
        assert forall|p: u64, c: u64|
            #![trigger n3[p].children.contains(c), n3.dom().contains(c)]
            n3.dom().contains(p) implies (n3[p].children.contains(c) <==> (n3.dom().contains(c) && n3[c].parent
                == Some(p))) by {
            lemma_links_at(n0, p, c);
            if p != parent {
                assert(n3[p].children == n1[p].children);
            }
            if c != child && n3.dom().contains(c) {
                assert(n3[c].parent == n1[c].parent);
            }
        }
        assert forall|p: u64| #[trigger] n3.dom().contains(p) implies n3[p].children.no_duplicates() by {
            if p != parent {
                assert(n3[p].children == n1[p].children);
            }
        }
        assert forall|c: u64| #[trigger] n3.dom().contains(c) && n3[c].parent is Some implies n3.dom().contains(
            n3[c].parent->Some_0,
        ) by {
            if c != child {
                assert(n3[c].parent == n0[c].parent);
            }
        }
    }
}

/// Removing a node keeps parent and children links in agreement.
pub proof fn lemma_remove_keeps_links<C>(v: DomView<C>, node: u64)
    requires
        links_consistent(v.nodes),
    ensures
        links_consistent(remove_effect(v, node).0.nodes),
{
    if node != v.body && v.nodes.dom().contains(node) {
        let n0 = v.nodes;
        let removed = n0[node];
        let n1 = n0.remove(node);
        let n2 = match removed.parent {
            Some(p) => if n1.dom().contains(p) {
                n1.insert(p, NodeView { children: remove_all(n1[p].children, node), ..n1[p] })
            } else {
                n1
            },
            None => n1,
        };
        assert(n2.dom() =~= n0.dom().remove(node));
        assert forall|p: u64| #[trigger] n2.dom().contains(p) implies !n2[p].children.contains(node)
            && n2[p].children.no_duplicates() && (forall|c: u64| c != node ==> (n2[p].children.contains(c)
            == n0[p].children.contains(c))) && n2[p].parent == n0[p].parent by {
            lemma_links_at(n0, p, node);
            if removed.parent == Some(p) {
                assert forall|c: u64| true implies (remove_all(n0[p].children, node).contains(c) == (
                n0[p].children.contains(c) && c != node)) by {
                    lemma_remove_all_contains(n0[p].children, node, c);
                }
                lemma_remove_all_contains(n0[p].children, node, node);
            }
        }
        lemma_clear_parents(n2, removed.children);
        let n3 = clear_parents(n2, removed.children);
        assert forall|p: u64, c: u64|
            #![trigger n3[p].children.contains(c), n3.dom().contains(c)]
            n3.dom().contains(p) implies (n3[p].children.contains(c) <==> (n3.dom().contains(c) && n3[c].parent
                == Some(p))) by {
            lemma_links_at(n0, p, c);
            lemma_links_at(n0, node, c);
        }
        assert forall|c: u64| #[trigger] n3.dom().contains(c) && n3[c].parent is Some implies n3.dom().contains(
            n3[c].parent->Some_0,
        ) by {
            lemma_links_at(n0, node, c);
        }
    }
}

proof fn lemma_clear_parents(n: Map<u64, NodeView>, cs: Seq<u64>)
    ensures
        clear_parents(n, cs).dom() == n.dom(),
        forall|k: u64| #[trigger] clear_parents(n, cs).dom().contains(k) ==> clear_parents(n, cs)[k].children
            == n[k].children && clear_parents(n, cs)[k].parent == (if cs.contains(k) {
            None
        } else {
            n[k].parent
        }),
    decreases cs.len(),
{
    if cs.len() > 0 {
        lemma_clear_parents(n, cs.drop_last());
        let m = clear_parents(n, cs.drop_last());
        assert forall|k: u64| cs.contains(k) == (cs.drop_last().contains(k) || k == cs.last()) by {
            if cs.contains(k) {
                let i = choose|i: int| 0 <= i < cs.len() && cs[i] == k;
                if i < cs.len() - 1 {
                    assert(cs.drop_last()[i] == k);
                }
            }
            if cs.drop_last().contains(k) {
                let i = choose|i: int| 0 <= i < cs.drop_last().len() && cs.drop_last()[i] == k;
                assert(cs[i] == k);
            }
            if k == cs.last() {
                assert(cs[cs.len() - 1] == k);
            }
        }
        if m.dom().contains(cs.last()) {
            assert(clear_parents(n, cs).dom() =~= n.dom());
        }
    }
}

/// A fresh node (its id not yet taken) keeps the links in agreement.
pub proof fn lemma_alloc_keeps_links<C>(v: DomView<C>, node_type: DomNodeType, tag: Seq<char>, text: Seq<char>)
    requires
        links_consistent(v.nodes),
        !v.nodes.dom().contains(v.next_node),
    ensures
        links_consistent(alloc_effect(v, node_type, tag, text).nodes),
{
    let n0 = v.nodes;
    let n1 = alloc_effect(v, node_type, tag, text).nodes;
    assert forall|p: u64, c: u64|
        #![trigger n1[p].children.contains(c), n1.dom().contains(c)]
        n1.dom().contains(p) implies (n1[p].children.contains(c) <==> (n1.dom().contains(c) && n1[c].parent
            == Some(p))) by {
        if p != v.next_node {
            lemma_links_at(n0, p, c);
        }
        if p == v.next_node && n0.dom().contains(c) {
            assert(n0[c].parent != Some(p));
        }
    }
}


// ---------------------------------------------------------------------------
// Attributes, selectors, text
// ---------------------------------------------------------------------------

/// The value of an attribute of a node.
pub open spec fn attr_value(n: NodeView, k: Seq<char>) -> Option<Seq<char>> {
    if n.attributes.dom().contains(k) {
        Some(n.attributes[k])
    } else {
        None
    }
}

/// Whether a DOM selector matches a node: `body`, `#id`, `.class`,
/// `tag.class`, `tag#id` or `tag`, the selector's tag lower-cased.
pub open spec fn node_matches(n: NodeView, selector: Seq<char>) -> bool {
    let sel = trim(selector);
    if sel.len() == 0 {
        false
    } else if sel == "body"@ {
        n.tag_name == "body"@
    } else if sel[0] == '#' {
        attr_value(n, "id"@) == Some(sel.drop_first())
    } else if sel[0] == '.' {
        class_listed(attr_value(n, "class"@), sel.drop_first())
    } else {
        match split_once(sel, seq!['.']) {
            Some((tag, class)) => n.tag_name == lower(tag) && class_listed(attr_value(n, "class"@), class),
            None => match split_once(sel, seq!['#']) {
                Some((tag, id)) => n.tag_name == lower(tag) && attr_value(n, "id"@) == Some(id),
                None => n.tag_name == lower(sel),
            },
        }
    }
}

/// A selector `tag#id` (a tag with no `.`, `#` or leading whitespace, an id
/// with no `.` and no trailing whitespace) matches a node exactly when the
/// node's tag name is the lower-cased tag and its `id` attribute is the id.
pub proof fn lemma_tag_id_selector(n: NodeView, tag: Seq<char>, id: Seq<char>)
    requires
        tag.len() > 0,
        !is_ws(tag[0]),
        forall|i: int| 0 <= i < tag.len() ==> #[trigger] tag[i] != '.' && tag[i] != '#',
        forall|i: int| 0 <= i < id.len() ==> #[trigger] id[i] != '.',
        id.len() > 0 ==> !is_ws(id.last()),
    ensures
        node_matches(n, tag + seq!['#'] + id) == (n.tag_name == lower(tag) && attr_value(n, "id"@)
            == Some(id)),
{
    let sel = tag + seq!['#'] + id;
    let l = tag.len() as int;
    assert(sel[0] == tag[0]);
    assert(sel[l] == '#');
    assert(!is_ws(sel.last())) by {
        if id.len() > 0 {
            assert(sel.last() == id.last());
        } else {
            assert(sel.last() == '#');
        }
    }
    assert(crate::text::trim_start(sel) == sel);
    assert(crate::text::trim_end(sel) == sel);
    assert(trim(sel) == sel);
    assert(sel != "body"@) by {
        reveal_strlit("body");
        if sel == "body"@ {
            assert(sel.len() == 4);
            if l == 1 {
                assert(sel[1] == 'o');
            } else if l == 2 {
                assert(sel[2] == 'd');
            } else if l == 3 {
                assert(sel[3] == 'y');
            } else {
                assert(l >= 4);
                assert(sel.len() >= 5);
            }
        }
    }
    let dot = seq!['.'];
    let hash = seq!['#'];
    crate::text::lemma_find_from_occurs(sel, dot, 0);
    if crate::text::find(sel, dot) is Some {
        let i = crate::text::find(sel, dot)->Some_0;
        assert(sel.subrange(i, i + 1) == dot);
        assert(sel.subrange(i, i + 1)[0] == sel[i]);
        if i < l {
            assert(sel[i] == tag[i]);
        } else if i > l {
            assert(sel[i] == id[i - l - 1]);
        }
    }
    assert(split_once(sel, dot) is None);
    assert(crate::text::occurs_at(sel, hash, l)) by {
        assert(sel.subrange(l, l + 1) =~= hash);
    }
    crate::text::lemma_find_from_first(sel, hash, 0, l);
    crate::text::lemma_find_from_occurs(sel, hash, 0);
    let j = crate::text::find(sel, hash)->Some_0;
    assert(sel.subrange(j, j + 1)[0] == sel[j]);
    if j < l {
        assert(sel[j] == tag[j]);
    }
    assert(j == l);
    assert(sel.take(l) =~= tag);
    assert(sel.skip(l + 1) =~= id);
    assert(split_once(sel, hash) == Some((tag, id)));
}

/// A `querySelector` for `tag#id` finds only a node with that tag name
/// (lower-cased) and that id, the first such node by id; it finds nothing
/// exactly when no node has both.
pub proof fn lemma_query_tag_id<C>(v: DomView<C>, r: Option<DomNodeRef>, tag: Seq<char>, id: Seq<char>)
    requires
        tag.len() > 0,
        !is_ws(tag[0]),
        forall|i: int| 0 <= i < tag.len() ==> #[trigger] tag[i] != '.' && tag[i] != '#',
        forall|i: int| 0 <= i < id.len() ==> #[trigger] id[i] != '.',
        id.len() > 0 ==> !is_ws(id.last()),
        is_first_found(v, r, tag + seq!['#'] + id, false),
    ensures
        r matches Some(x) ==> v.nodes.dom().contains(x.0) && v.nodes[x.0].tag_name == lower(tag)
            && attr_value(v.nodes[x.0], "id"@) == Some(id),
        r is None <==> forall|k: u64|
            v.nodes.dom().contains(k) ==> !(#[trigger] v.nodes[k].tag_name == lower(tag) && attr_value(
                v.nodes[k],
                "id"@,
            ) == Some(id)),
{
    let sel = tag + seq!['#'] + id;
    assert forall|k: u64| v.nodes.dom().contains(k) implies (#[trigger] found_by(v.nodes[k], sel, false)
        == (v.nodes[k].tag_name == lower(tag) && attr_value(v.nodes[k], "id"@) == Some(id))) by {
        lemma_tag_id_selector(v.nodes[k], tag, id);
    }
    if r is Some {
        let x = r->Some_0;
        lemma_tag_id_selector(v.nodes[x.0], tag, id);
        assert(v.nodes.dom().contains(x.0));
    }
}

/// The text of a node followed by the texts of its descendants in order,
/// looking at most `fuel` levels deep.
pub open spec fn text_of(nodes: Map<u64, NodeView>, id: u64, fuel: nat) -> Seq<char>
    decreases fuel, 0nat, 0nat,
{
    if !nodes.dom().contains(id) || fuel == 0 {
        Seq::empty()
    } else if nodes[id].children.len() == 0 {
        nodes[id].text
    } else {
        nodes[id].text + texts_of(nodes, nodes[id].children, (fuel - 1) as nat)
    }
}

/// The texts of a list of nodes, concatenated.
pub open spec fn texts_of(nodes: Map<u64, NodeView>, cs: Seq<u64>, fuel: nat) -> Seq<char>
    decreases fuel, 1nat, cs.len(),
{
    if cs.len() == 0 {
        Seq::empty()
    } else {
        texts_of(nodes, cs.drop_last(), fuel) + text_of(nodes, cs.last(), fuel)
    }
}

/// The first node in document order below `id` (itself included unless it
/// is `root`) that matches, looking at most `fuel` levels deep.
pub open spec fn search_below(nodes: Map<u64, NodeView>, id: u64, root: u64, sel: Seq<char>, fuel: nat) -> Option<u64>
    decreases fuel, 0nat, 0nat,
{
    if !nodes.dom().contains(id) || fuel == 0 {
        None
    } else if id != root && node_matches(nodes[id], sel) {
        Some(id)
    } else {
        search_children(nodes, nodes[id].children, root, sel, (fuel - 1) as nat)
    }
}

/// The first match below a list of nodes, in order.
pub open spec fn search_children(nodes: Map<u64, NodeView>, cs: Seq<u64>, root: u64, sel: Seq<char>, fuel: nat) -> Option<u64>
    decreases fuel, 1nat, cs.len(),
{
    if cs.len() == 0 {
        None
    } else {
        match search_children(nodes, cs.drop_last(), root, sel, fuel) {
            Some(x) => Some(x),
            None => search_below(nodes, cs.last(), root, sel, fuel),
        }
    }
}

/// Depth searched below a node: one more than the node count, enough for
/// any tree.
pub open spec fn tree_fuel<C>(v: DomView<C>) -> nat {
    v.nodes.dom().len() + 1
}

/// The listeners of a node for an event type, in registration order.
pub open spec fn matching_listeners<C>(ls: Seq<(u64, Seq<char>, C)>, node: u64, t: Seq<char>) -> Seq<C>
    decreases ls.len(),
{
    if ls.len() == 0 {
        Seq::empty()
    } else if ls.last().0 == node && ls.last().1 == t {
        matching_listeners(ls.drop_last(), node, t).push(ls.last().2)
    } else {
        matching_listeners(ls.drop_last(), node, t)
    }
}

fn attr_of<'a>(n: &'a ResearchNode, name: &str) -> (r: Option<&'a String>)
    requires
        keys_sorted(n.attributes@),
    ensures
        match r {
            Some(x) => attr_value(n@, name@) == Some(x@),
            None => attr_value(n@, name@) is None,
        },
{
    let k = chars_of(name);
    table_get(&n.attributes, k.as_slice())
}

fn node_class_lists(n: &ResearchNode, class: &[char]) -> (r: bool)
    requires
        keys_sorted(n.attributes@),
    ensures
        r == class_listed(attr_value(n@, "class"@), class@),
{
    match attr_of(n, "class") {
        Some(v) => {
            let vv = chars_of(v.as_str());
            has_token(vv.as_slice(), class)
        },
        None => false,
    }
}

fn node_id_is(n: &ResearchNode, id: &[char]) -> (r: bool)
    requires
        keys_sorted(n.attributes@),
    ensures
        r == (attr_value(n@, "id"@) == Some(id@)),
{
    match attr_of(n, "id") {
        Some(v) => {
            let vv = chars_of(v.as_str());
            crate::text::chars_eq(vv.as_slice(), id)
        },
        None => false,
    }
}

fn node_tag_is_lower(n: &ResearchNode, tag: &[char]) -> (r: bool)
    ensures
        r == (n@.tag_name == lower(tag@)),
{
    let t = crate::text::lower_chars(tag);
    let tv = chars_of(n.tag_name.as_str());
    crate::text::chars_eq(tv.as_slice(), t.as_slice())
}

fn matches_selector(n: &ResearchNode, selector: &[char]) -> (r: bool)
    requires
        keys_sorted(n.attributes@),
    ensures
        r == node_matches(n@, selector@),
{
    let sel = crate::text::trim_chars(selector);
    if sel.len() == 0 {
        return false;
    }
    if crate::text::is_lit(sel.as_slice(), "body") {
        let tv = chars_of(n.tag_name.as_str());
        return crate::text::is_lit(tv.as_slice(), "body");
    }
    if sel[0] == '#' {
        let rest = crate::text::slice_vec(sel.as_slice(), 1, sel.len());
        assert(rest@ =~= sel@.drop_first());
        return node_id_is(n, rest.as_slice());
    }
    if sel[0] == '.' {
        let rest = crate::text::slice_vec(sel.as_slice(), 1, sel.len());
        assert(rest@ =~= sel@.drop_first());
        return node_class_lists(n, rest.as_slice());
    }
    let dot: Vec<char> = vec!['.'];
    assert(dot@ =~= seq!['.']);
    match crate::text::split_once_exec(sel.as_slice(), dot.as_slice()) {
        Some((tag, class)) => {
            return node_tag_is_lower(n, tag.as_slice()) && node_class_lists(n, class.as_slice());
        },
        None => {},
    }
    let hash: Vec<char> = vec!['#'];
    assert(hash@ =~= seq!['#']);
    match crate::text::split_once_exec(sel.as_slice(), hash.as_slice()) {
        Some((tag, id)) => node_tag_is_lower(n, tag.as_slice()) && node_id_is(n, id.as_slice()),
        None => node_tag_is_lower(n, sel.as_slice()),
    }
}

proof fn lemma_node_count(t: Seq<(u64, ResearchNode)>)
    requires
        ids_sorted(t),
    ensures
        node_map(t).dom().finite(),
        node_map(t).dom().len() == t.len(),
{
    let keys = Seq::new(t.len(), |k: int| t[k].0);
    assert(node_map(t).dom() =~= keys.to_set()) by {
        assert forall|key: u64| node_map(t).dom().contains(key) implies keys.to_set().contains(key) by {
            let k = crate::keyed::id_pos(t, key);
            assert(keys[k] == key);
        }
        assert forall|key: u64| keys.to_set().contains(key) implies node_map(t).dom().contains(key) by {
            let k = choose|k: int| 0 <= k < keys.len() && keys[k] == key;
            crate::keyed::lemma_id_entry(t, k);
        }
    }
    assert(keys.no_duplicates()) by {
        assert forall|a: int, b: int| 0 <= a < keys.len() && 0 <= b < keys.len() && a != b implies keys[a]
            != keys[b] by {
            if a < b {
                assert(t[a].0 < t[b].0);
            } else {
                assert(t[b].0 < t[a].0);
            }
        }
    }
    keys.unique_seq_to_set();
}


impl<C> ResearchDom<C> {
    fn collect_text(&self, id: u64, fuel: usize) -> (r: String)
        ensures
            r@ == text_of(self@.nodes, id, fuel as nat),
        decreases fuel,
    {
        if fuel == 0 {
            return String::new();
        }
        match self.node_ref(id) {
            None => String::new(),
            Some(n) => {
                if n.children.len() == 0 {
                    return n.text.clone();
                }
                let ghost cs = n.children@;
                let mut out = n.text.clone();
                let mut j: usize = 0;
                assert(cs.take(0) =~= Seq::<u64>::empty());
                while j < n.children.len()
                    invariant
                        j <= cs.len(),
                        cs == n.children@,
                        fuel > 0,
                        out@ == n@.text + texts_of(self@.nodes, cs.take(j as int), (fuel - 1) as nat),
                    decreases cs.len() - j,
                {
                    assert(cs.take(j as int + 1).drop_last() =~= cs.take(j as int));
                    let part = self.collect_text(n.children[j], fuel - 1);
                    crate::text::append_str(&mut out, part.as_str());
                    j = j + 1;
                }
                assert(cs.take(j as int) =~= cs);
                out
            },
        }
    }

    fn search_impl(&self, id: u64, root: u64, sel: &[char], fuel: usize) -> (r: Option<u64>)
        ensures
            r == search_below(self@.nodes, id, root, sel@, fuel as nat),
        decreases fuel,
    {
        if fuel == 0 {
            return None;
        }
        match self.node_ref(id) {
            None => None,
            Some(n) => {
                if id != root && matches_selector(n, sel) {
                    return Some(id);
                }
                let ghost cs = n.children@;
                let mut j: usize = 0;
                assert(cs.take(0) =~= Seq::<u64>::empty());
                while j < n.children.len()
                    invariant
                        j <= cs.len(),
                        cs == n.children@,
                        fuel > 0,
                        self@.nodes.dom().contains(id),
                        n@ == self@.nodes[id],
                        !(id != root && node_matches(n@, sel@)),
                        search_children(self@.nodes, cs.take(j as int), root, sel@, (fuel - 1) as nat) is None,
                    decreases cs.len() - j,
                {
                    assert(cs.take(j as int + 1).drop_last() =~= cs.take(j as int));
                    let found = self.search_impl(n.children[j], root, sel, fuel - 1);
                    if found.is_some() {
                        proof {
                            let pre = cs.take(j as int + 1);
                            assert(pre.drop_last() =~= cs.take(j as int));
                            assert(pre.last() == cs[j as int]);
                            assert(search_children(self@.nodes, pre, root, sel@, (fuel - 1) as nat) == found);
                            lemma_search_prefix(self@.nodes, cs, j as int + 1, root, sel@, (fuel - 1) as nat);
                            assert(search_below(self@.nodes, id, root, sel@, fuel as nat) == search_children(
                                self@.nodes,
                                cs,
                                root,
                                sel@,
                                (fuel - 1) as nat,
                            ));
                        }
                        return found;
                    }
                    j = j + 1;
                }
                assert(cs.take(j as int) =~= cs);
                None
            },
        }
    }

    fn fuel(&self) -> (f: usize)
        ensures
            f as nat == tree_fuel(self@) || (f == usize::MAX && tree_fuel(self@) > usize::MAX),
    {
        proof {
            use_type_invariant(self);
            lemma_node_count(self.nodes@);
        }
        self.nodes.len().saturating_add(1)
    }

    fn first_match(&self, sel: &[char], by_id: bool) -> (r: Option<u64>)
        ensures
            match r {
                Some(x) => self@.nodes.dom().contains(x) && found_by(self@.nodes[x], sel@, by_id) && forall|k: u64|
                    #![trigger self@.nodes.dom().contains(k)]
                    k < x && self@.nodes.dom().contains(k) ==> !found_by(self@.nodes[k], sel@, by_id),
                None => forall|k: u64|
                    #![trigger self@.nodes.dom().contains(k)]
                    self@.nodes.dom().contains(k) ==> !found_by(self@.nodes[k], sel@, by_id),
            },
    {
        proof {
            use_type_invariant(self);
        }
        let t = &self.nodes;
        let mut i: usize = 0;
        while i < t.len()
            invariant
                i <= t@.len(),
                t@ == self.nodes@,
                ids_sorted(t@),
                forall|k: u64| #[trigger]
                    id_map(t@).dom().contains(k) ==> keys_sorted(id_map(t@)[k].attributes@),
                forall|j: int| 0 <= j < i ==> !found_by(#[trigger] t@[j].1@, sel@, by_id),
            decreases t.len() - i,
        {
            proof {
                crate::keyed::lemma_id_entry(t@, i as int);
            }
            let n = &t[i].1;
            let hit = if by_id {
                node_id_is(n, sel)
            } else {
                matches_selector(n, sel)
            };
            if hit {
                proof {
                    assert forall|k: u64|
                        #![trigger self@.nodes.dom().contains(k)]
                        k < t@[i as int].0 && self@.nodes.dom().contains(k) implies !found_by(self@.nodes[k], sel@, by_id) by {
                        let p = crate::keyed::id_pos(t@, k);
                        crate::keyed::lemma_id_entry(t@, p);
                        if p >= i {
                            if p > i {
                                assert(t@[i as int].0 < t@[p].0);
                            }
                        }
                    }
                }
                return Some(t[i].0);
            }
            i = i + 1;
        }
        proof {
            assert forall|k: u64|
                #![trigger self@.nodes.dom().contains(k)]
                self@.nodes.dom().contains(k) implies !found_by(self@.nodes[k], sel@, by_id) by {
                let p = crate::keyed::id_pos(t@, k);
                crate::keyed::lemma_id_entry(t@, p);
            }
        }
        None
    }
}

/// What a lookup looks for: a selector match, or an `id` attribute.
pub open spec fn found_by(n: NodeView, sel: Seq<char>, by_id: bool) -> bool {
    if by_id {
        attr_value(n, "id"@) == Some(sel)
    } else {
        node_matches(n, sel)
    }
}


proof fn lemma_search_prefix(
    nodes: Map<u64, NodeView>,
    cs: Seq<u64>,
    k: int,
    root: u64,
    sel: Seq<char>,
    fuel: nat,
)
    requires
        0 < k <= cs.len(),
        search_children(nodes, cs.take(k), root, sel, fuel) is Some,
    ensures
        search_children(nodes, cs, root, sel, fuel) == search_children(nodes, cs.take(k), root, sel, fuel),
    decreases cs.len(),
{
    if k == cs.len() {
        assert(cs.take(k) =~= cs);
    } else {
        assert(cs.drop_last().take(k) =~= cs.take(k));
        lemma_search_prefix(nodes, cs.drop_last(), k, root, sel, fuel);
    }
}


// ---------------------------------------------------------------------------
// Node edits
// ---------------------------------------------------------------------------

/// Setting a node's own text.
pub open spec fn set_text_effect<C>(v: DomView<C>, node: u64, value: Seq<char>) -> (DomView<C>, bool) {
    if v.nodes.dom().contains(node) {
        (
            DomView {
                nodes: v.nodes.insert(node, NodeView { text: value, ..v.nodes[node] }),
                metrics: DomBindingMetrics { text_mutations: sat_inc(v.metrics.text_mutations), ..v.metrics },
                ..v
            },
            true,
        )
    } else {
        (v, false)
    }
}

/// Setting an attribute, its name lower-cased.
pub open spec fn set_attr_effect<C>(v: DomView<C>, node: u64, name: Seq<char>, value: Seq<char>) -> (DomView<C>, bool) {
    if v.nodes.dom().contains(node) {
        (
            DomView {
                nodes: v.nodes.insert(
                    node,
                    NodeView { attributes: v.nodes[node].attributes.insert(lower(name), value), ..v.nodes[node] },
                ),
                metrics: DomBindingMetrics {
                    attribute_mutations: sat_inc(v.metrics.attribute_mutations),
                    ..v.metrics
                },
                ..v
            },
            true,
        )
    } else {
        (v, false)
    }
}

/// Removing an attribute, its name lower-cased; counted only when it was there.
pub open spec fn remove_attr_effect<C>(v: DomView<C>, node: u64, name: Seq<char>) -> (DomView<C>, bool) {
    if v.nodes.dom().contains(node) && v.nodes[node].attributes.dom().contains(lower(name)) {
        (
            DomView {
                nodes: v.nodes.insert(
                    node,
                    NodeView { attributes: v.nodes[node].attributes.remove(lower(name)), ..v.nodes[node] },
                ),
                metrics: DomBindingMetrics {
                    attribute_mutations: sat_inc(v.metrics.attribute_mutations),
                    ..v.metrics
                },
                ..v
            },
            true,
        )
    } else {
        (v, false)
    }
}

/// Setting a form value: the `value` attribute, then the node's text.
pub open spec fn set_value_effect<C>(v: DomView<C>, node: u64, value: Seq<char>) -> (DomView<C>, bool) {
    let (v1, ok) = set_attr_effect(v, node, "value"@, value);
    if ok {
        (
            DomView {
                nodes: v1.nodes.insert(node, NodeView { text: value, ..v1.nodes[node] }),
                metrics: DomBindingMetrics { value_mutations: sat_inc(v1.metrics.value_mutations), ..v1.metrics },
                ..v1
            },
            true,
        )
    } else {
        (v1, false)
    }
}

/// One more query.
pub open spec fn queried<C>(v: DomView<C>) -> DomView<C> {
    DomView { metrics: DomBindingMetrics { queries: sat_inc(v.metrics.queries), ..v.metrics }, ..v }
}

/// The first node in id order for which a lookup holds.
pub open spec fn is_first_found<C>(v: DomView<C>, r: Option<DomNodeRef>, sel: Seq<char>, by_id: bool) -> bool {
    match r {
        Some(x) => v.nodes.dom().contains(x.0) && found_by(v.nodes[x.0], sel, by_id) && forall|k: u64|
            #![trigger v.nodes.dom().contains(k)]
            k < x.0 && v.nodes.dom().contains(k) ==> !found_by(v.nodes[k], sel, by_id),
        None => forall|k: u64|
            #![trigger v.nodes.dom().contains(k)]
            v.nodes.dom().contains(k) ==> !found_by(v.nodes[k], sel, by_id),
    }
}

impl<C: Clone> DomHost<C> for ResearchDom<C> {
    fn title(&self) -> (t: String)
        ensures
            t@ == self@.title,
    {
        self.title.clone()
    }

    fn set_title(&mut self, title: String)
        ensures
            final(self)@ == (DomView {
                title: title@,
                metrics: DomBindingMetrics {
                    attribute_mutations: sat_inc(old(self)@.metrics.attribute_mutations),
                    ..old(self)@.metrics
                },
                ..old(self)@
            }),
    {
        proof {
            use_type_invariant(&*self);
        }
        self.title = title;
        self.metrics.attribute_mutations = self.metrics.attribute_mutations.saturating_add(1);
    }

    fn body(&self) -> (b: DomNodeRef)
        ensures
            b.0 == self@.body,
    {
        DomNodeRef(self.body)
    }

    fn node_snapshot(&self, id: DomNodeRef) -> (r: Option<DomNodeSnapshot>)
        ensures
            match r {
                Some(s) => self@.nodes.dom().contains(id.0) && snapshot_view(s) == (id.0, self@.nodes[id.0])
                    && keys_sorted(s.attributes@),
                None => !self@.nodes.dom().contains(id.0),
            },
    {
        match self.node_ref(id.0) {
            Some(n) => Some(n.snapshot(id.0)),
            None => None,
        }
    }

    fn query_selector(&mut self, selector: &str) -> (r: Option<DomNodeRef>)
        ensures
            final(self)@ == queried(old(self)@),
            is_first_found(old(self)@, r, selector@, false),
    {
        proof {
            use_type_invariant(&*self);
        }
        self.metrics.queries = self.metrics.queries.saturating_add(1);
        let sel = chars_of(selector);
        assert(self@.nodes == old(self)@.nodes);
        let r = match self.first_match(sel.as_slice(), false) {
            Some(x) => Some(DomNodeRef(x)),
            None => None,
        };
        assert(is_first_found(self@, r, selector@, false));
        r
    }

    fn query_selector_within(&mut self, root: DomNodeRef, selector: &str) -> (r: Option<DomNodeRef>)
        ensures
            final(self)@ == queried(old(self)@),
            tree_fuel(old(self)@) <= usize::MAX ==> r == match search_below(
                old(self)@.nodes,
                root.0,
                root.0,
                selector@,
                tree_fuel(old(self)@),
            ) {
                Some(x) => Some(DomNodeRef(x)),
                None => None::<DomNodeRef>,
            },
    {
        proof {
            use_type_invariant(&*self);
        }
        self.metrics.queries = self.metrics.queries.saturating_add(1);
        let sel = chars_of(selector);
        let fuel = self.fuel();
        match self.search_impl(root.0, root.0, sel.as_slice(), fuel) {
            Some(x) => Some(DomNodeRef(x)),
            None => None,
        }
    }

    fn get_element_by_id(&mut self, id: &str) -> (r: Option<DomNodeRef>)
        ensures
            final(self)@ == queried(old(self)@),
            is_first_found(old(self)@, r, id@, true),
    {
        proof {
            use_type_invariant(&*self);
        }
        self.metrics.queries = self.metrics.queries.saturating_add(1);
        let v = chars_of(id);
        assert(self@.nodes == old(self)@.nodes);
        let r = match self.first_match(v.as_slice(), true) {
            Some(x) => Some(DomNodeRef(x)),
            None => None,
        };
        assert(is_first_found(self@, r, id@, true));
        r
    }

    fn create_element(&mut self, tag: &str) -> (id: DomNodeRef)
        ensures
            final(self)@ == alloc_effect(old(self)@, DomNodeType::Element, tag@, Seq::empty()),
            id.0 == old(self)@.next_node,
    {
        self.alloc_node(DomNodeType::Element, tag, String::new())
    }

    fn create_text_node(&mut self, text: &str) -> (id: DomNodeRef)
        ensures
            final(self)@ == alloc_effect(old(self)@, DomNodeType::Text, "#text"@, text@),
            id.0 == old(self)@.next_node,
    {
        self.alloc_node(DomNodeType::Text, "#text", owned(text))
    }

    fn append_child(&mut self, parent: DomNodeRef, child: DomNodeRef) -> (ok: bool)
        ensures
            (final(self)@, ok) == append_effect(old(self)@, parent.0, child.0),
    {
        self.append_child_impl(parent, child)
    }

    fn remove_node(&mut self, node: DomNodeRef) -> (ok: bool)
        ensures
            (final(self)@, ok) == remove_effect(old(self)@, node.0),
    {
        self.remove_node_impl(node)
    }

    fn set_text_content(&mut self, node: DomNodeRef, value: String) -> (ok: bool)
        ensures
            (final(self)@, ok) == set_text_effect(old(self)@, node.0, value@),
    {
        let ghost v0 = self@;
        match self.take_node(node.0) {
            Some(mut n) => {
                n.text = value;
                self.put_node(node.0, n);
                assert(self@.nodes =~= v0.nodes.insert(node.0, NodeView { text: value@, ..v0.nodes[node.0] }));
                proof {
                    use_type_invariant(&*self);
                }
                self.metrics.text_mutations = self.metrics.text_mutations.saturating_add(1);
                true
            },
            None => {
                assert(v0.nodes.remove(node.0) =~= v0.nodes);
                false
            },
        }
    }

    fn text_content(&self, node: DomNodeRef) -> (t: String)
        ensures
            tree_fuel(self@) <= usize::MAX ==> t@ == text_of(self@.nodes, node.0, tree_fuel(self@)),
    {
        let fuel = self.fuel();
        self.collect_text(node.0, fuel)
    }

    fn set_value(&mut self, node: DomNodeRef, value: String) -> (ok: bool)
        ensures
            (final(self)@, ok) == set_value_effect(old(self)@, node.0, value@),
    {
        let ghost v0 = self@;
        let ok = self.set_attribute(node, "value", value.clone());
        if ok {
            let ghost v1 = self@;
            let mut n = self.take_node(node.0).unwrap();
            n.text = value;
            self.put_node(node.0, n);
            assert(self@.nodes =~= v1.nodes.insert(node.0, NodeView { text: value@, ..v1.nodes[node.0] }));
            proof {
                use_type_invariant(&*self);
            }
            self.metrics.value_mutations = self.metrics.value_mutations.saturating_add(1);
        }
        ok
    }

    fn value(&self, node: DomNodeRef) -> (r: String)
        ensures
            self@.nodes.dom().contains(node.0) && attr_value(self@.nodes[node.0], "value"@) is Some ==> r@
                == attr_value(self@.nodes[node.0], "value"@)->Some_0,
            !(self@.nodes.dom().contains(node.0) && attr_value(self@.nodes[node.0], "value"@) is Some)
                && tree_fuel(self@) <= usize::MAX ==> r@ == text_of(self@.nodes, node.0, tree_fuel(self@)),
    {
        proof {
            reveal_strlit("value");
            assert(lower("value"@) =~= "value"@);
        }
        match self.get_attribute(node, "value") {
            Some(v) => v,
            None => self.text_content(node),
        }
    }

    fn set_attribute(&mut self, node: DomNodeRef, name: &str, value: String) -> (ok: bool)
        ensures
            (final(self)@, ok) == set_attr_effect(old(self)@, node.0, name@, value@),
    {
        let ghost v0 = self@;
        match self.take_node(node.0) {
            Some(mut n) => {
                let key = to_lower(name);
                let ghost a0 = n.attributes@;
                table_insert(&mut n.attributes, key, value);
                assert(decl_view(n.attributes@) =~= decl_view(a0).insert(lower(name@), value@));
                self.put_node(node.0, n);
                assert(self@.nodes =~= v0.nodes.insert(
                    node.0,
                    NodeView { attributes: v0.nodes[node.0].attributes.insert(lower(name@), value@), ..v0.nodes[node.0] },
                ));
                proof {
                    use_type_invariant(&*self);
                }
                self.metrics.attribute_mutations = self.metrics.attribute_mutations.saturating_add(1);
                true
            },
            None => {
                assert(v0.nodes.remove(node.0) =~= v0.nodes);
                false
            },
        }
    }

    fn get_attribute(&self, node: DomNodeRef, name: &str) -> (r: Option<String>)
        ensures
            opt_string_view(r) == (if self@.nodes.dom().contains(node.0) {
                attr_value(self@.nodes[node.0], lower(name@))
            } else {
                None
            }),
    {
        match self.node_ref(node.0) {
            Some(n) => {
                let key = crate::text::lower_chars(chars_of(name).as_slice());
                match table_get(&n.attributes, key.as_slice()) {
                    Some(v) => Some(v.clone()),
                    None => None,
                }
            },
            None => None,
        }
    }

    fn remove_attribute(&mut self, node: DomNodeRef, name: &str) -> (ok: bool)
        ensures
            (final(self)@, ok) == remove_attr_effect(old(self)@, node.0, name@),
    {
        let ghost v0 = self@;
        let present = match self.node_ref(node.0) {
            Some(n) => {
                let key = crate::text::lower_chars(chars_of(name).as_slice());
                crate::keyed::table_contains(&n.attributes, key.as_slice())
            },
            None => false,
        };
        if !present {
            return false;
        }
        let mut n = self.take_node(node.0).unwrap();
        let key = crate::text::lower_chars(chars_of(name).as_slice());
        let ghost a0 = n.attributes@;
        let _ = table_remove(&mut n.attributes, key.as_slice());
        assert(decl_view(n.attributes@) =~= decl_view(a0).remove(lower(name@)));
        self.put_node(node.0, n);
        assert(self@.nodes =~= v0.nodes.insert(
            node.0,
            NodeView { attributes: v0.nodes[node.0].attributes.remove(lower(name@)), ..v0.nodes[node.0] },
        ));
        proof {
            use_type_invariant(&*self);
        }
        self.metrics.attribute_mutations = self.metrics.attribute_mutations.saturating_add(1);
        true
    }

    fn add_event_listener(&mut self, node: DomNodeRef, event_type: &str, callback: C)
        ensures
            final(self)@ == (DomView {
                listeners: old(self)@.listeners.push((node.0, event_type@, callback)),
                metrics: DomBindingMetrics {
                    listeners_added: sat_inc(old(self)@.metrics.listeners_added),
                    ..old(self)@.metrics
                },
                ..old(self)@
            }),
    {
        proof {
            use_type_invariant(&*self);
        }
        let ghost entry = (node.0, event_type@, callback);
        let mut listeners: Vec<Listener<C>> = Vec::new();
        std::mem::swap(&mut listeners, &mut self.listeners);
        let ghost l0 = listeners@;
        listeners.push(Listener { node: node.0, event_type: owned(event_type), callback });
        self.listeners = listeners;
        self.metrics.listeners_added = self.metrics.listeners_added.saturating_add(1);
        assert(self@.listeners =~= old(self)@.listeners.push(entry));
    }

    fn event_listeners(&self, node: DomNodeRef, event_type: &str) -> (r: Vec<C>)
        ensures
            r@.len() == matching_listeners(self@.listeners, node.0, event_type@).len(),
            forall|i: int|
                0 <= i < r@.len() ==> cloned(matching_listeners(self@.listeners, node.0, event_type@)[i], #[trigger] r@[i]),
    {
        let ghost ls = self@.listeners;
        let mut r: Vec<C> = Vec::new();
        let mut i: usize = 0;
        while i < self.listeners.len()
            invariant
                i <= self.listeners@.len(),
                ls == self@.listeners,
                r@.len() == matching_listeners(ls.take(i as int), node.0, event_type@).len(),
                forall|k: int|
                    0 <= k < r@.len() ==> cloned(matching_listeners(ls.take(i as int), node.0, event_type@)[k], #[trigger] r@[k]),
            decreases self.listeners.len() - i,
        {
            assert(ls.take(i as int + 1).drop_last() =~= ls.take(i as int));
            let l = &self.listeners[i];
            if l.node == node.0 && crate::text::str_eq(l.event_type.as_str(), event_type) {
                let c = l.callback.clone();
                r.push(c);
            }
            i = i + 1;
        }
        assert(ls.take(i as int) =~= ls);
        r
    }

    fn record_event_dispatch(&mut self, node: DomNodeRef, event_type: &str)
        ensures
            final(self)@ == (DomView {
                events: old(self)@.events.push((node.0, event_type@)),
                metrics: DomBindingMetrics {
                    events_dispatched: sat_inc(old(self)@.metrics.events_dispatched),
                    ..old(self)@.metrics
                },
                ..old(self)@
            }),
    {
        proof {
            use_type_invariant(&*self);
        }
        let mut events: Vec<DomEventRecord> = Vec::new();
        std::mem::swap(&mut events, &mut self.events);
        events.push(DomEventRecord { target: node, event_type: owned(event_type) });
        self.events = events;
        self.metrics.events_dispatched = self.metrics.events_dispatched.saturating_add(1);
        assert(self@.events =~= old(self)@.events.push((node.0, event_type@)));
    }

    fn metrics(&self) -> (m: DomBindingMetrics)
        ensures
            m == self@.metrics,
    {
        self.metrics
    }
}


/// A new document's links agree: a lone body.
pub proof fn lemma_new_document_links<C>(title: Seq<char>)
    ensures
        links_consistent(new_document_view::<C>(title).nodes),
{
    let n = new_document_view::<C>(title).nodes;
    assert forall|p: u64, c: u64|
        #![trigger n[p].children.contains(c), n.dom().contains(c)]
        n.dom().contains(p) implies (n[p].children.contains(c) <==> (n.dom().contains(c) && n[c].parent == Some(p))) by {}
}

/// An attribute write is read back under the lower-cased name.
pub proof fn lemma_set_attribute_then_get<C>(v: DomView<C>, node: u64, name: Seq<char>, value: Seq<char>)
    requires
        v.nodes.dom().contains(node),
    ensures
        set_attr_effect(v, node, name, value).1,
        attr_value(set_attr_effect(v, node, name, value).0.nodes[node], lower(name)) == Some(value),
{
}

/// After removing an attribute it reads as absent.
pub proof fn lemma_remove_attribute_then_get<C>(v: DomView<C>, node: u64, name: Seq<char>)
    requires
        v.nodes.dom().contains(node),
    ensures
        attr_value(remove_attr_effect(v, node, name).0.nodes[node], lower(name)) is None,
{
}

/// The body is never removed.
pub proof fn lemma_body_stays<C>(v: DomView<C>)
    ensures
        remove_effect(v, v.body) == (v, false),
{
}

/// After an append the child names the parent, which lists it.
pub proof fn lemma_append_links_child<C>(v: DomView<C>, parent: u64, child: u64)
    requires
        v.nodes.dom().contains(parent),
        v.nodes.dom().contains(child),
    ensures
        append_effect(v, parent, child).1,
        append_effect(v, parent, child).0.nodes[child].parent == Some(parent),
        append_effect(v, parent, child).0.nodes[parent].children.contains(child),
{
    let n3 = append_effect(v, parent, child).0.nodes;
    let n0 = v.nodes;
    let n1 = match n0[child].parent {
        Some(op) => if n0.dom().contains(op) {
            n0.insert(op, NodeView { children: remove_all(n0[op].children, child), ..n0[op] })
        } else {
            n0
        },
        None => n0,
    };
    let n2 = n1.insert(child, NodeView { parent: Some(parent), ..n1[child] });
    let l = n2[parent].children;
    if !l.contains(child) {
        assert(l.push(child)[l.len() as int] == child);
    }
}

// ---------------------------------------------------------------------------
// Class lists
// ---------------------------------------------------------------------------

/// The entries of a `class` attribute value: its whitespace-separated words.
pub open spec fn class_entries(v: Seq<char>) -> Set<Seq<char>> {
    Set::new(|t: Seq<char>| has_ws_token(v, t))
}

/// Words joined by single spaces.
pub open spec fn join_words(ws: Seq<Seq<char>>) -> Seq<char>
    decreases ws.len(),
{
    if ws.len() == 0 {
        Seq::empty()
    } else if ws.len() == 1 {
        ws[0]
    } else {
        join_words(ws.drop_last()) + " "@ + ws.last()
    }
}

/// `r` is the `class` value of a set of entries: the entries sorted, each
/// once, separated by single spaces.
pub open spec fn class_value_of(r: Seq<char>, s: Set<Seq<char>>) -> bool {
    exists|l: Seq<Seq<char>>| #[trigger] lists_sorted(l, s) && r == join_words(l)
}

/// The non-empty texts among those given.
pub open spec fn nonempty_texts(ts: Seq<String>) -> Set<Seq<char>> {
    Set::new(|t: Seq<char>| t.len() > 0 && exists|i: int| 0 <= i < ts.len() && #[trigger] ts[i]@ == t)
}

/// The texts given.
pub open spec fn given_texts(ts: Seq<String>) -> Set<Seq<char>> {
    Set::new(|t: Seq<char>| exists|i: int| 0 <= i < ts.len() && #[trigger] ts[i]@ == t)
}

/// The end of the run of non-whitespace characters starting at `i`.
pub open spec fn run_end(v: Seq<char>, i: int) -> int
    decreases v.len() - i,
{
    if i < 0 || i >= v.len() {
        v.len() as int
    } else if is_ws(v[i]) {
        i
    } else {
        run_end(v, i + 1)
    }
}

proof fn lemma_run_end(v: Seq<char>, i: int)
    requires
        0 <= i <= v.len(),
    ensures
        i <= run_end(v, i) <= v.len(),
        forall|k: int| i <= k < run_end(v, i) ==> !is_ws(#[trigger] v[k]),
        run_end(v, i) < v.len() ==> is_ws(v[run_end(v, i)]),
    decreases v.len() - i,
{
    if i < v.len() && !is_ws(v[i]) {
        lemma_run_end(v, i + 1);
    }
}

/// `t` is a word of `v` starting at `k`.
pub open spec fn word_at(v: Seq<char>, t: Seq<char>, k: int) -> bool {
    &&& t.len() > 0
    &&& forall|j: int| 0 <= j < t.len() ==> !is_ws(#[trigger] t[j])
    &&& ws_token_at(v, t, k)
}

/// A word starts exactly where a run of non-whitespace starts, and is that run.
proof fn lemma_word_at(v: Seq<char>, i: int)
    requires
        0 <= i < v.len(),
    ensures
        forall|t: Seq<char>| #[trigger] word_at(v, t, i) ==> t == v.subrange(i, run_end(v, i)),
        (!is_ws(v[i]) && (i == 0 || is_ws(v[i - 1]))) ==> word_at(v, v.subrange(i, run_end(v, i)), i),
        (exists|t: Seq<char>| #[trigger] word_at(v, t, i)) ==> (!is_ws(v[i]) && (i == 0 || is_ws(v[i - 1]))),
{
    lemma_run_end(v, i);
    let e = run_end(v, i);
    assert forall|t: Seq<char>| #[trigger] word_at(v, t, i) implies t == v.subrange(i, run_end(v, i)) by {
        let n = t.len();
        assert(v.subrange(i, i + n) == t);
        if e < i + n {
            assert(v[e] == t[e - i]);
        }
        if e > i + n {
            assert(!is_ws(v[i + n]));
        }
        assert(e == i + n);
    }
    if !is_ws(v[i]) && (i == 0 || is_ws(v[i - 1])) {
        let t = v.subrange(i, e);
        assert(e > i);
        assert forall|j: int| 0 <= j < t.len() implies !is_ws(#[trigger] t[j]) by {
            assert(t[j] == v[i + j]);
        }
        assert(v.subrange(i, i + t.len()) =~= t);
        assert(word_at(v, t, i));
    }
    if exists|t: Seq<char>| #[trigger] word_at(v, t, i) {
        let t = choose|t: Seq<char>| #[trigger] word_at(v, t, i);
        assert(v.subrange(i, i + t.len()) == t);
        assert(v[i] == t[0]);
    }
}

/// The words of `v` starting before `n`.
pub open spec fn words_before(v: Seq<char>, n: int) -> Set<Seq<char>> {
    Set::new(|t: Seq<char>| exists|k: int| 0 <= k < n && #[trigger] word_at(v, t, k))
}

fn run_end_exec(v: &Vec<char>, i: usize) -> (e: usize)
    requires
        i <= v@.len(),
    ensures
        e == run_end(v@, i as int),
{
    let mut j = i;
    while j < v.len() && !is_ws_exec(v[j])
        invariant
            i <= j <= v@.len(),
            run_end(v@, i as int) == run_end(v@, j as int),
        decreases v.len() - j,
    {
        j = j + 1;
    }
    j
}

/// The entries of a class value as a sorted table.
fn class_table(value: &str) -> (t: Vec<(String, ())>)
    ensures
        keys_sorted(t@),
        table_map(t@).dom() == class_entries(value@),
{
    let v = chars_of(value);
    let mut t: Vec<(String, ())> = Vec::new();
    proof {
        crate::keyed::lemma_table_empty(t@);
        assert(table_map(t@).dom() =~= words_before(v@, 0));
    }
    let mut i: usize = 0;
    while i < v.len()
        invariant
            v@ == value@,
            i <= v@.len(),
            keys_sorted(t@),
            table_map(t@).dom() == words_before(v@, i as int),
        decreases v.len() - i,
    {
        proof {
            lemma_word_at(v@, i as int);
        }
        let starts = !is_ws_exec(v[i]) && (i == 0 || is_ws_exec(v[i - 1]));
        if starts {
            let e = run_end_exec(&v, i);
            proof {
                lemma_run_end(v@, i as int);
            }
            let word = string_from(crate::text::slice_vec(v.as_slice(), i, e).as_slice());
            table_insert(&mut t, word, ());
            proof {
                let w = v@.subrange(i as int, e as int);
                assert(word@ == w);
                assert(table_map(t@).dom() =~= words_before(v@, i + 1)) by {
                    assert forall|x: Seq<char>| #[trigger] words_before(v@, i + 1).contains(x) implies table_map(t@).dom().contains(x) by {
                        let k = choose|k: int| 0 <= k < i + 1 && #[trigger] word_at(v@, x, k);
                        if k < i {
                            assert(words_before(v@, i as int).contains(x));
                        }
                    }
                    assert forall|x: Seq<char>| table_map(t@).dom().contains(x) implies #[trigger] words_before(v@, i + 1).contains(x) by {
                        if x == w {
                            assert(word_at(v@, w, i as int));
                        } else {
                            let k = choose|k: int| 0 <= k < i && #[trigger] word_at(v@, x, k);
                        }
                    }
                }
            }
        } else {
            proof {
                assert(table_map(t@).dom() =~= words_before(v@, i + 1)) by {
                    assert forall|x: Seq<char>| #[trigger] words_before(v@, i + 1).contains(x) implies words_before(v@, i as int).contains(x) by {
                        let k = choose|k: int| 0 <= k < i + 1 && #[trigger] word_at(v@, x, k);
                        if k == i {
                            assert(exists|t: Seq<char>| #[trigger] word_at(v@, t, i as int));
                        }
                    }
                    assert forall|x: Seq<char>| #[trigger] words_before(v@, i as int).contains(x) implies words_before(v@, i + 1).contains(x) by {
                        let k = choose|k: int| 0 <= k < i && #[trigger] word_at(v@, x, k);
                    }
                }
            }
        }
        i = i + 1;
    }
    proof {
        assert(words_before(v@, v@.len() as int) =~= class_entries(value@)) by {
            assert forall|x: Seq<char>| #[trigger] class_entries(value@).contains(x) implies words_before(v@, v@.len() as int).contains(x) by {
                let k = choose|k: int| 0 <= k <= v@.len() && #[trigger] ws_token_at(v@, x, k);
                assert(word_at(v@, x, k));
            }
            assert forall|x: Seq<char>| #[trigger] words_before(v@, v@.len() as int).contains(x) implies class_entries(value@).contains(x) by {
                let k = choose|k: int| 0 <= k < v@.len() && #[trigger] word_at(v@, x, k);
                assert(ws_token_at(v@, x, k));
            }
        }
    }
    t
}

/// Words joined by single spaces.
fn join_with_spaces(ws: &Vec<String>) -> (r: String)
    ensures
        r@ == join_words(crate::security::string_views(ws@)),
{
    let ghost views = crate::security::string_views(ws@);
    let mut r = String::new();
    let mut i: usize = 0;
    while i < ws.len()
        invariant
            views == crate::security::string_views(ws@),
            i <= ws@.len(),
            r@ == join_words(views.take(i as int)),
        decreases ws.len() - i,
    {
        let ghost before = r@;
        assert(views.take(i + 1).drop_last() =~= views.take(i as int));
        if i > 0 {
            crate::text::append_str(&mut r, " ");
        }
        crate::text::append_str(&mut r, ws[i].as_str());
        proof {
            if i == 0 {
                assert(r@ =~= views.take(1)[0]);
            } else {
                assert(r@ =~= join_words(views.take(i as int)) + " "@ + views.take(i + 1).last());
            }
        }
        i = i + 1;
    }
    assert(views.take(ws.len() as int) =~= views);
    r
}

/// The entries of a `class` attribute value, sorted, each once.
pub fn class_set(value: &str) -> (r: Vec<String>)
    ensures
        lists_sorted(crate::security::string_views(r@), class_entries(value@)),
{
    let t = class_table(value);
    let r = table_key_list(&t);
    r
}

/// The `class` value after adding the non-empty tokens.
pub fn class_list_add(value: &str, tokens: &[String]) -> (r: String)
    ensures
        class_value_of(r@, class_entries(value@).union(nonempty_texts(tokens@))),
{
    let mut t = class_table(value);
    let ghost base = class_entries(value@);
    let mut i: usize = 0;
    while i < tokens.len()
        invariant
            i <= tokens@.len(),
            keys_sorted(t@),
            table_map(t@).dom() == base.union(nonempty_texts(tokens@.take(i as int))),
        decreases tokens.len() - i,
    {
        let ghost prev = tokens@.take(i as int);
        let ghost next = tokens@.take(i + 1);
        let tc = chars_of(tokens[i].as_str());
        if tc.len() > 0 {
            table_insert(&mut t, tokens[i].clone(), ());
        }
        proof {
            assert(table_map(t@).dom() =~= base.union(nonempty_texts(next))) by {
                assert forall|x: Seq<char>| #[trigger] nonempty_texts(next).contains(x) implies table_map(t@).dom().contains(x) by {
                    let k = choose|k: int| 0 <= k < next.len() && #[trigger] next[k]@ == x;
                    if k < i {
                        assert(prev[k] == next[k]);
                        assert(nonempty_texts(prev).contains(x));
                    }
                }
                assert forall|x: Seq<char>| #[trigger] nonempty_texts(prev).contains(x) implies nonempty_texts(next).contains(x) by {
                    let k = choose|k: int| 0 <= k < prev.len() && #[trigger] prev[k]@ == x;
                    assert(next[k] == prev[k]);
                }
                if tokens@[i as int]@.len() > 0 {
                    assert(next[i as int]@ == tokens@[i as int]@);
                    assert(nonempty_texts(next).contains(tokens@[i as int]@));
                }
            }
        }
        i = i + 1;
    }
    assert(tokens@.take(tokens.len() as int) =~= tokens@);
    let keys = table_key_list(&t);
    let r = join_with_spaces(&keys);
    assert(lists_sorted(crate::security::string_views(keys@), table_map(t@).dom()));
    r
}

/// The `class` value after removing the tokens.
pub fn class_list_remove(value: &str, tokens: &[String]) -> (r: String)
    ensures
        class_value_of(r@, class_entries(value@).difference(given_texts(tokens@))),
{
    let mut t = class_table(value);
    let ghost base = class_entries(value@);
    let mut i: usize = 0;
    while i < tokens.len()
        invariant
            i <= tokens@.len(),
            keys_sorted(t@),
            table_map(t@).dom() == base.difference(given_texts(tokens@.take(i as int))),
        decreases tokens.len() - i,
    {
        let ghost prev = tokens@.take(i as int);
        let ghost next = tokens@.take(i + 1);
        let k = chars_of(tokens[i].as_str());
        table_remove(&mut t, k.as_slice());
        proof {
            assert(table_map(t@).dom() =~= base.difference(given_texts(next))) by {
                assert forall|x: Seq<char>| #[trigger] given_texts(next).contains(x) implies !table_map(t@).dom().contains(x) by {
                    let j = choose|j: int| 0 <= j < next.len() && #[trigger] next[j]@ == x;
                    if j < i {
                        assert(prev[j] == next[j]);
                        assert(given_texts(prev).contains(x));
                    }
                }
                assert forall|x: Seq<char>| #[trigger] given_texts(prev).contains(x) implies given_texts(next).contains(x) by {
                    let j = choose|j: int| 0 <= j < prev.len() && #[trigger] prev[j]@ == x;
                    assert(next[j] == prev[j]);
                }
                assert forall|x: Seq<char>| #[trigger] given_texts(next).contains(x) && x != k@ implies given_texts(prev).contains(x) by {
                    let j = choose|j: int| 0 <= j < next.len() && #[trigger] next[j]@ == x;
                    if j == i {
                        assert(next[j]@ == k@);
                    } else {
                        assert(prev[j] == next[j]);
                    }
                }
                assert(next[i as int]@ == k@);
            }
        }
        i = i + 1;
    }
    assert(tokens@.take(tokens.len() as int) =~= tokens@);
    let keys = table_key_list(&t);
    let r = join_with_spaces(&keys);
    assert(lists_sorted(crate::security::string_views(keys@), table_map(t@).dom()));
    r
}

/// The `class` value after toggling a token, and whether the token is now
/// present: a present token is removed; an absent non-empty one added; an
/// empty one changes nothing.
pub fn class_list_toggle(value: &str, token: &str) -> (r: (String, bool))
    ensures
        class_entries(value@).contains(token@) ==> class_value_of(r.0@, class_entries(value@).remove(token@)) && !r.1,
        !class_entries(value@).contains(token@) && token@.len() > 0 ==> class_value_of(
            r.0@,
            class_entries(value@).insert(token@),
        ) && r.1,
        !class_entries(value@).contains(token@) && token@.len() == 0 ==> class_value_of(r.0@, class_entries(value@))
            && !r.1,
{
    let mut t = class_table(value);
    let k = chars_of(token);
    let mut now_present = false;
    if crate::keyed::table_contains(&t, k.as_slice()) {
        table_remove(&mut t, k.as_slice());
    } else if k.len() > 0 {
        table_insert(&mut t, owned(token), ());
        now_present = true;
    }
    let keys = table_key_list(&t);
    let r = join_with_spaces(&keys);
    proof {
        let l = crate::security::string_views(keys@);
        assert(lists_sorted(l, table_map(t@).dom()));
        if class_entries(value@).contains(token@) {
            assert(table_map(t@).dom() =~= class_entries(value@).remove(token@));
        } else if token@.len() > 0 {
            assert(table_map(t@).dom() =~= class_entries(value@).insert(token@));
        }
    }
    (r, now_present)
}

/// Whether a `class` value lists the token.
pub fn class_list_contains(value: &str, token: &str) -> (r: bool)
    ensures
        r == class_entries(value@).contains(token@),
{
    let v = chars_of(value);
    let k = chars_of(token);
    has_token(v.as_slice(), k.as_slice())
}

/// A word: non-empty, without whitespace.
pub open spec fn is_word(t: Seq<char>) -> bool {
    t.len() > 0 && forall|j: int| 0 <= j < t.len() ==> !is_ws(#[trigger] t[j])
}

proof fn lemma_entries_of_empty()
    ensures
        class_entries(Seq::<char>::empty()) =~= Set::<Seq<char>>::empty(),
{
    assert forall|t: Seq<char>| !#[trigger] class_entries(Seq::<char>::empty()).contains(t) by {
        if has_ws_token(Seq::<char>::empty(), t) {
            let k = choose|k: int| 0 <= k <= 0 && #[trigger] ws_token_at(Seq::<char>::empty(), t, k);
        }
    }
}

proof fn lemma_entries_of_word(w: Seq<char>)
    requires
        is_word(w),
    ensures
        class_entries(w) =~= set![w],
{
    assert(w.subrange(0, w.len() as int) =~= w);
    assert(ws_token_at(w, w, 0));
    assert(class_entries(w).contains(w));
    assert forall|t: Seq<char>| #[trigger] class_entries(w).contains(t) implies t == w by {
        let k = choose|k: int| 0 <= k <= w.len() && #[trigger] ws_token_at(w, t, k);
        if k > 0 {
            assert(!is_ws(w[k - 1]));
        }
        if k + t.len() < w.len() {
            assert(!is_ws(w[k + t.len()]));
        }
        assert(w.subrange(k, k + t.len()) == t);
    }
}

proof fn lemma_entries_of_join(a: Seq<char>, b: Seq<char>)
    requires
        a.len() > 0,
        is_word(b),
    ensures
        forall|t: Seq<char>| #[trigger] class_entries(a + " "@ + b).contains(t) <==> (class_entries(a).contains(t) || t == b),
{
    reveal_strlit(" ");
    let c = a + " "@ + b;
    let n = a.len() as int;
    assert(c.len() == n + 1 + b.len());
    assert(c[n] == ' ');
    assert forall|k: int| 0 <= k < n implies #[trigger] c[k] == a[k] by {}
    assert forall|k: int| n < k < c.len() implies #[trigger] c[k] == b[k - n - 1] by {}
    assert forall|t: Seq<char>| #[trigger] class_entries(c).contains(t) implies (class_entries(a).contains(t) || t == b) by {
        let k = choose|k: int| 0 <= k <= c.len() && #[trigger] ws_token_at(c, t, k);
        let m = t.len() as int;
        assert(c.subrange(k, k + m) == t);
        if k < n {
            if k + m > n {
                assert(t[n - k] == c[n]);
            }
            assert(k + m <= n);
            assert(a.subrange(k, k + m) =~= c.subrange(k, k + m));
            if k > 0 {
                assert(c[k - 1] == a[k - 1]);
            }
            if k + m < n {
                assert(c[k + m] == a[k + m]);
            }
            assert(ws_token_at(a, t, k));
        } else if k == n {
            assert(t[0] == c[n]);
        } else {
            if k - 1 > n {
                assert(c[k - 1] == b[k - 1 - n - 1]);
            }
            assert(k == n + 1);
            if k + m < c.len() {
                assert(c[k + m] == b[m]);
            }
            assert(m == b.len());
            assert forall|j: int| 0 <= j < m implies t[j] == b[j] by {
                assert(t[j] == c[k + j]);
            }
            assert(t =~= b);
        }
    }
    assert forall|t: Seq<char>| (class_entries(a).contains(t) || t == b) implies #[trigger] class_entries(c).contains(t) by {
        if t == b {
            assert(c.subrange(n + 1, n + 1 + b.len()) =~= b);
            assert(ws_token_at(c, t, n + 1));
        } else {
            let k = choose|k: int| 0 <= k <= a.len() && #[trigger] ws_token_at(a, t, k);
            let m = t.len() as int;
            assert(a.subrange(k, k + m) == t);
            assert(c.subrange(k, k + m) =~= a.subrange(k, k + m));
            if k > 0 {
                assert(c[k - 1] == a[k - 1]);
            }
            if k + m < n {
                assert(c[k + m] == a[k + m]);
            }
            assert(ws_token_at(c, t, k));
        }
    }
}

proof fn lemma_entries_of_words(ws: Seq<Seq<char>>)
    requires
        forall|i: int| 0 <= i < ws.len() ==> is_word(#[trigger] ws[i]),
    ensures
        forall|t: Seq<char>| #[trigger] class_entries(join_words(ws)).contains(t) <==> ws.contains(t),
        ws.len() > 0 ==> join_words(ws).len() > 0,
    decreases ws.len(),
{
    if ws.len() == 0 {
        lemma_entries_of_empty();
    } else if ws.len() == 1 {
        assert(is_word(ws[0]));
        lemma_entries_of_word(ws[0]);
        assert forall|t: Seq<char>| #[trigger] class_entries(join_words(ws)).contains(t) <==> ws.contains(t) by {
            if ws.contains(t) {
                let i = choose|i: int| 0 <= i < ws.len() && ws[i] == t;
            }
            if t == ws[0] {
                assert(ws.contains(t));
            }
        }
    } else {
        let p = ws.drop_last();
        assert forall|i: int| 0 <= i < p.len() implies is_word(#[trigger] p[i]) by {
            assert(p[i] == ws[i]);
        }
        lemma_entries_of_words(p);
        assert(is_word(ws[ws.len() - 1]));
        lemma_entries_of_join(join_words(p), ws.last());
        assert forall|t: Seq<char>| #[trigger] class_entries(join_words(ws)).contains(t) <==> ws.contains(t) by {
            if ws.contains(t) {
                let i = choose|i: int| 0 <= i < ws.len() && ws[i] == t;
                if i < ws.len() - 1 {
                    assert(p[i] == t);
                    assert(p.contains(t));
                }
            }
            if p.contains(t) {
                let i = choose|i: int| 0 <= i < p.len() && p[i] == t;
                assert(ws[i] == t);
            }
            if t == ws.last() {
                assert(ws[ws.len() - 1] == t);
            }
        }
    }
}

/// A `class` value of a set of words reads back as exactly those words.
pub proof fn lemma_class_value_entries(r: Seq<char>, s: Set<Seq<char>>)
    requires
        class_value_of(r, s),
        forall|t: Seq<char>| #[trigger] s.contains(t) ==> is_word(t),
    ensures
        class_entries(r) == s,
{
    let l = choose|l: Seq<Seq<char>>| #[trigger] lists_sorted(l, s) && r == join_words(l);
    assert forall|i: int| 0 <= i < l.len() implies is_word(#[trigger] l[i]) by {
        assert(l.contains(l[i]));
    }
    lemma_entries_of_words(l);
    assert(class_entries(r) =~= s);
}

/// Every entry of a `class` value is a word.
pub proof fn lemma_entries_are_words(v: Seq<char>, t: Seq<char>)
    requires
        class_entries(v).contains(t),
    ensures
        is_word(t),
{
}

/// After adding tokens that hold no whitespace, each listed non-empty token
/// is an entry of the new `class` value, and so is every earlier entry.
pub proof fn lemma_add_then_contains(value: Seq<char>, tokens: Seq<String>, r: Seq<char>)
    requires
        class_value_of(r, class_entries(value).union(nonempty_texts(tokens))),
        forall|i: int, j: int| 0 <= i < tokens.len() && 0 <= j < tokens[i]@.len() ==> !is_ws(#[trigger] tokens[i]@[j]),
    ensures
        class_entries(r) == class_entries(value).union(nonempty_texts(tokens)),
        forall|i: int| 0 <= i < tokens.len() && tokens[i]@.len() > 0 ==> class_entries(r).contains(#[trigger] tokens[i]@),
{
    let s = class_entries(value).union(nonempty_texts(tokens));
    assert forall|t: Seq<char>| #[trigger] s.contains(t) implies is_word(t) by {
        if !class_entries(value).contains(t) {
            let i = choose|i: int| 0 <= i < tokens.len() && #[trigger] tokens[i]@ == t;
            assert forall|j: int| 0 <= j < t.len() implies !is_ws(#[trigger] t[j]) by {
                assert(!is_ws(tokens[i]@[j]));
            }
        }
    }
    lemma_class_value_entries(r, s);
    assert forall|i: int| 0 <= i < tokens.len() && tokens[i]@.len() > 0 implies class_entries(r).contains(#[trigger] tokens[i]@) by {
        assert(nonempty_texts(tokens).contains(tokens[i]@));
    }
}

/// After removing tokens, none of them is an entry of the new `class`
/// value, and every other earlier entry still is.
pub proof fn lemma_remove_then_absent(value: Seq<char>, tokens: Seq<String>, r: Seq<char>)
    requires
        class_value_of(r, class_entries(value).difference(given_texts(tokens))),
    ensures
        class_entries(r) == class_entries(value).difference(given_texts(tokens)),
        forall|i: int| 0 <= i < tokens.len() ==> !class_entries(r).contains(#[trigger] tokens[i]@),
{
    let s = class_entries(value).difference(given_texts(tokens));
    lemma_class_value_entries(r, s);
    assert forall|i: int| 0 <= i < tokens.len() implies !class_entries(r).contains(#[trigger] tokens[i]@) by {
        assert(given_texts(tokens).contains(tokens[i]@));
    }
}

/// Toggling a word flips whether it is an entry, and the flag says which.
pub proof fn lemma_toggle_flips(value: Seq<char>, token: Seq<char>, r: Seq<char>, present: bool)
    requires
        is_word(token),
        class_entries(value).contains(token) ==> class_value_of(r, class_entries(value).remove(token)) && !present,
        !class_entries(value).contains(token) ==> class_value_of(r, class_entries(value).insert(token)) && present,
    ensures
        class_entries(r).contains(token) == present,
        present == !class_entries(value).contains(token),
{
    if class_entries(value).contains(token) {
        lemma_class_value_entries(r, class_entries(value).remove(token));
    } else {
        lemma_class_value_entries(r, class_entries(value).insert(token));
    }
}

} // verus!
