//! The generic DOM produced by HTML tree construction.
//!
//! Nodes live in an arena: a `Dom` owns a vector of `Node` records, and a
//! `Handle` is an index into that vector. Parent links are stored as indices
//! beside each node's ordered child list, so "same node" is index equality
//! and teardown is the non-recursive drop of a vector. The operations on
//! `Dom` are exactly the callbacks a tree-construction algorithm needs:
//! append (with text-node coalescing), insert before a sibling, detach,
//! reparent, and attribute fixup.

use vstd::prelude::*;

verus! {

/// Reference to a DOM node: an index into the owning `Dom`'s node arena.
pub type Handle = usize;

/// One element attribute, as a plain name/value pair.
#[derive(Debug, Clone)]
pub struct Attribute {
    pub name: String,
    pub value: String,
}

/// The different kinds of nodes in the DOM.
#[derive(Debug)]
pub enum NodeData {
    /// The `Document` itself - the root node of a HTML document.
    Document,
    /// A `DOCTYPE` with name, public id, and system id.
    Doctype { name: String, public_id: String, system_id: String },
    /// A text node.
    Text { contents: String },
    /// A comment.
    Comment { contents: String },
    /// An element with attributes.
    Element {
        /// The element's (lower-cased) local tag name.
        name: String,
        attrs: Vec<Attribute>,
        /// For HTML `<template>` elements, the template contents node.
        template_contents: Option<Handle>,
        /// Whether the node is an HTML integration point.
        mathml_annotation_xml_integration_point: bool,
    },
    /// A processing instruction.
    ProcessingInstruction { target: String, contents: String },
}

/// A DOM node: its parent back-reference, its ordered children, and its data.
#[derive(Debug)]
pub struct Node {
    /// Parent node, if this node is attached.
    pub parent: Option<Handle>,
    /// Child nodes of this node, in document order.
    pub children: Vec<Handle>,
    /// Represents this node's data.
    pub data: NodeData,
}

impl Node {
    /// Create a new detached node from its contents.
    pub fn new(data: NodeData) -> (n: Node)
        ensures
            n.parent is None,
            n.children@ =~= Seq::<Handle>::empty(),
            n.data == data,
    {
        Node { parent: None, children: Vec::new(), data }
    }
}

/// Something which can be inserted into the DOM: an existing node, or raw
/// text that may be merged into an adjacent text node.
pub enum NodeOrText {
    AppendNode(Handle),
    AppendText(String),
}

/// A document's quirks mode, for compatibility with old browsers.
#[derive(Debug, Clone, Copy, PartialEq, Eq, Structural)]
pub enum QuirksMode {
    Quirks,
    LimitedQuirks,
    NoQuirks,
}

/// Special properties of an element, recorded at creation time.
pub struct ElementFlags {
    /// Create an associated template-contents fragment for the element.
    pub template: bool,
    /// Recorded and returned by `is_mathml_annotation_xml_integration_point`.
    pub mathml_annotation_xml_integration_point: bool,
}

/// The DOM itself; the result of parsing.
///
/// Index 0 always holds the `Document` root.
#[derive(Debug)]
pub struct Dom {
    /// All nodes, in creation order; `nodes[0]` is the `Document`.
    pub nodes: Vec<Node>,
    /// Errors that occurred during parsing.
    pub errors: Vec<String>,
    /// The document's quirks mode.
    pub quirks_mode: QuirksMode,
}

impl Dom {
    /// The number of nodes in the arena.
    pub open spec fn n(self) -> int {
        self.nodes@.len() as int
    }

    /// The node record at index `i`.
    pub open spec fn node(self, i: int) -> Node {
        self.nodes@[i]
    }

    /// The parent link of node `i`.
    pub open spec fn parent_of(self, i: int) -> Option<Handle> {
        self.nodes@[i].parent
    }

    /// The ordered child list of node `i`.
    pub open spec fn children_of(self, i: int) -> Seq<Handle> {
        self.nodes@[i].children@
    }

    /// Per-node well-formedness: the parent link points at a list that holds
    /// this node, every listed child points back here, no child is listed
    /// twice, and a template-contents link is in bounds.
    pub open spec fn wf_node(self, i: int) -> bool {
        let nd = self.nodes@[i];
        &&& (nd.parent matches Some(p) ==> p < self.n()
            && self.children_of(p as int).contains(i as Handle))
        &&& nd.children@.no_duplicates()
        &&& (forall|k: int|
            0 <= k < nd.children@.len() ==> (#[trigger] nd.children@[k]) < self.n()
                && self.parent_of(nd.children@[k] as int) == Some(i as Handle))
        &&& nd.parent != Some(i as Handle)
        &&& (nd.data matches NodeData::Element { template_contents: Some(t), .. } ==> t
            < self.n())
    }

    /// Well-formedness of the whole DOM: a `Document` root at index 0 with no
    /// parent, and every node's links consistent. Because every node has at
    /// most one parent, everything reachable from the root forms a tree.
    pub open spec fn wf(self) -> bool {
        &&& self.n() > 0
        &&& self.nodes@[0].data is Document
        &&& self.nodes@[0].parent is None
        &&& (forall|i: int| 0 <= i < self.n() ==> #[trigger] self.wf_node(i))
    }

    /// Two nodes agree on everything but their child list.
    pub open spec fn same_except_children(a: Node, b: Node) -> bool {
        a.parent == b.parent && a.data == b.data
    }

    /// Two nodes agree on everything but their parent link.
    pub open spec fn same_except_parent(a: Node, b: Node) -> bool {
        a.children == b.children && a.data == b.data
    }

    /// Get a handle to the `Document` node.
    pub fn get_document(&self) -> (r: Handle)
        ensures
            r == 0,
    {
        0
    }

    /// Signal a parse error: recoverable malformedness is recorded, never fatal.
    pub fn parse_error(&mut self, msg: String)
        ensures
            final(self).errors@ == old(self).errors@.push(msg),
            final(self).nodes == old(self).nodes,
            final(self).quirks_mode == old(self).quirks_mode,
    {
        self.errors.push(msg);
    }

    /// Set the document's quirks mode.
    pub fn set_quirks_mode(&mut self, mode: QuirksMode)
        ensures
            final(self).quirks_mode == mode,
            final(self).nodes == old(self).nodes,
            final(self).errors == old(self).errors,
    {
        self.quirks_mode = mode;
    }

    /// Do two handles refer to the same node? This is node identity, not
    /// structural equality: distinct nodes with equal contents differ.
    pub fn same_node(&self, x: Handle, y: Handle) -> (r: bool)
        ensures
            r == (x == y),
    {
        x == y
    }

    /// What is the name of this element? Must only be called on elements.
    pub fn elem_name(&self, target: Handle) -> (r: &str)
        requires
            self.wf(),
            target < self.n(),
            self.node(target as int).data is Element,
        ensures
            self.node(target as int).data matches NodeData::Element { name, .. } && r@ == name@,
    {
        match &self.nodes[target].data {
            NodeData::Element { name, .. } => name.as_str(),
            _ => {
                proof {
                    assert(false);
                }
                ""
            },
        }
    }

    /// Get a handle to a template's template contents. Must only be called on
    /// template elements; anything else is a builder bug.
    pub fn get_template_contents(&self, target: Handle) -> (r: Handle)
        requires
            self.wf(),
            target < self.n(),
            self.node(target as int).data matches NodeData::Element { template_contents, .. }
                && template_contents is Some,
        ensures
            self.node(target as int).data matches NodeData::Element { template_contents, .. }
                && template_contents == Some(r),
            r < self.n(),
    {
        proof {
            assert(self.wf_node(target as int));
        }
        match &self.nodes[target].data {
            NodeData::Element { template_contents: Some(t), .. } => *t,
            _ => {
                proof {
                    assert(false);
                }
                0
            },
        }
    }

    /// Is this element an HTML integration point? Must only be called on elements.
    pub fn is_mathml_annotation_xml_integration_point(&self, target: Handle) -> (r: bool)
        requires
            self.wf(),
            target < self.n(),
            self.node(target as int).data is Element,
        ensures
            self.node(target as int).data matches NodeData::Element {
                mathml_annotation_xml_integration_point: m,
                ..
            } && r == m,
    {
        match &self.nodes[target].data {
            NodeData::Element { mathml_annotation_xml_integration_point, .. } => {
                *mathml_annotation_xml_integration_point
            },
            _ => {
                proof {
                    assert(false);
                }
                false
            },
        }
    }

    /// Push a freshly created, detached node into the arena and return its handle.
    fn push_node(&mut self, data: NodeData) -> (r: Handle)
        requires
            old(self).wf(),
            data matches NodeData::Element { template_contents: Some(t), .. } ==> t < old(
                self,
            ).n(),
        ensures
            final(self).wf(),
            r == old(self).n(),
            final(self).n() == old(self).n() + 1,
            final(self).nodes@ == old(self).nodes@.push(
                Node { parent: None, children: final(self).nodes@[r as int].children, data },
            ),
            final(self).nodes@[r as int].parent is None,
            final(self).nodes@[r as int].children@ =~= Seq::<Handle>::empty(),
            final(self).nodes@[r as int].data == data,
            final(self).errors == old(self).errors,
            final(self).quirks_mode == old(self).quirks_mode,
    {
        let r = self.nodes.len();
        self.nodes.push(Node { parent: None, children: Vec::new(), data });
        proof {
            assert(forall|j: int| 0 <= j < r ==> self.nodes@[j] == #[trigger] old(self).nodes@[j]);
            assert forall|i: int| 0 <= i < self.n() implies #[trigger] self.wf_node(i) by {
                if i < r {
                    assert(old(self).wf_node(i));
                }
            }
        }
        r
    }

    /// Create an element. When `flags.template` is set, an associated
    /// template-contents fragment node is created first and linked from the
    /// element; later calls to `get_template_contents` return it.
    pub fn create_element(&mut self, name: String, attrs: Vec<Attribute>, flags: ElementFlags) -> (r:
        Handle)
        requires
            old(self).wf(),
        ensures
            final(self).wf(),
            r < final(self).n(),
            final(self).n() == old(self).n() + (if flags.template {
                2int
            } else {
                1int
            }),
            r + 1 == final(self).n(),
            final(self).nodes@[r as int].parent is None,
            final(self).nodes@[r as int].children@ =~= Seq::<Handle>::empty(),
            final(self).nodes@[r as int].data matches NodeData::Element {
                name: n2,
                attrs: a2,
                template_contents: t2,
                mathml_annotation_xml_integration_point: m2,
            } && n2 == name && a2 == attrs && m2 == flags.mathml_annotation_xml_integration_point
                && t2 == (if flags.template {
                Some((r - 1) as Handle)
            } else {
                Option::<Handle>::None
            }),
            flags.template ==> final(self).nodes@[r - 1].data is Document && final(self).nodes@[r - 1].parent is None && final(self).nodes@[r - 1].children@ =~= Seq::<
                Handle,
            >::empty(),
            forall|j: int| 0 <= j < old(self).n() ==> final(self).nodes@[j] == #[trigger] old(self).nodes@[j],
            final(self).errors == old(self).errors,
            final(self).quirks_mode == old(self).quirks_mode,
    {
        let template_contents: Option<Handle> = if flags.template {
            Some(self.push_node(NodeData::Document))
        } else {
            None
        };
        self.push_node(
            NodeData::Element {
                name,
                attrs,
                template_contents,
                mathml_annotation_xml_integration_point: flags.mathml_annotation_xml_integration_point,
            },
        )
    }

    /// Create a comment node.
    pub fn create_comment(&mut self, text: String) -> (r: Handle)
        requires
            old(self).wf(),
        ensures
            final(self).wf(),
            r == old(self).n(),
            final(self).n() == old(self).n() + 1,
            final(self).nodes@[r as int].parent is None,
            final(self).nodes@[r as int].children@ =~= Seq::<Handle>::empty(),
            final(self).nodes@[r as int].data matches NodeData::Comment { contents } && contents
                == text,
            forall|j: int| 0 <= j < old(self).n() ==> final(self).nodes@[j] == #[trigger] old(self).nodes@[j],
            final(self).errors == old(self).errors,
            final(self).quirks_mode == old(self).quirks_mode,
    {
        self.push_node(NodeData::Comment { contents: text })
    }

    /// Create a processing-instruction node.
    pub fn create_pi(&mut self, target: String, data: String) -> (r: Handle)
        requires
            old(self).wf(),
        ensures
            final(self).wf(),
            r == old(self).n(),
            final(self).n() == old(self).n() + 1,
            final(self).nodes@[r as int].parent is None,
            final(self).nodes@[r as int].children@ =~= Seq::<Handle>::empty(),
            final(self).nodes@[r as int].data matches NodeData::ProcessingInstruction {
                target: t2,
                contents: c2,
            } && t2 == target && c2 == data,
            forall|j: int| 0 <= j < old(self).n() ==> final(self).nodes@[j] == #[trigger] old(self).nodes@[j],
            final(self).errors == old(self).errors,
            final(self).quirks_mode == old(self).quirks_mode,
    {
        self.push_node(NodeData::ProcessingInstruction { target, contents: data })
    }
}

impl Default for Dom {
    /// A DOM holding only an empty `Document` root, no errors, standards mode.
    fn default() -> (d: Dom)
        ensures
            d.wf(),
            d.n() == 1,
            d.nodes@[0].children@ =~= Seq::<Handle>::empty(),
            d.errors@ =~= Seq::<String>::empty(),
            d.quirks_mode == QuirksMode::NoQuirks,
    {
        Dom {
            nodes: vec![Node { parent: None, children: Vec::new(), data: NodeData::Document }],
            errors: Vec::new(),
            quirks_mode: QuirksMode::NoQuirks,
        }
    }
}

/// The text held by a text node's data; empty for any other kind of node.
pub open spec fn text_of(d: NodeData) -> Seq<char> {
    match d {
        NodeData::Text { contents } => contents@,
        _ => Seq::empty(),
    }
}

/// Inserting a fresh value into a handle list keeps every old member, adds
/// the new one, and preserves freedom from duplicates.
proof fn lemma_insert_keeps(s: Seq<Handle>, i: int, c: Handle)
    requires
        0 <= i <= s.len(),
    ensures
        s.insert(i, c).len() == s.len() + 1,
        forall|x: Handle| s.contains(x) ==> s.insert(i, c).contains(x),
        s.insert(i, c).contains(c),
        !s.contains(c) && s.no_duplicates() ==> s.insert(i, c).no_duplicates(),
        forall|x: Handle| s.insert(i, c).contains(x) ==> s.contains(x) || x == c,
        forall|k: int| 0 <= k < i ==> #[trigger] s.insert(i, c)[k] == s[k],
        forall|k: int| i <= k < s.len() ==> #[trigger] s.insert(i, c)[k + 1] == s[k],
        s.insert(i, c)[i] == c,
{
    s.insert_ensures(i, c);
    let t = s.insert(i, c);
    assert forall|x: Handle| s.contains(x) implies t.contains(x) by {
        let k = choose|k: int| 0 <= k < s.len() && s[k] == x;
        if k < i {
            assert(t[k] == x);
        } else {
            assert(t[k + 1] == x);
        }
    }
    assert forall|x: Handle| t.contains(x) implies s.contains(x) || x == c by {
        let k = choose|k: int| 0 <= k < t.len() && t[k] == x;
        if k < i {
            assert(s[k] == x);
        } else if k == i {
        } else {
            assert(s[k - 1] == x);
        }
    }
    if !s.contains(c) && s.no_duplicates() {
        assert forall|a: int, b: int|
            0 <= a < t.len() && 0 <= b < t.len() && a != b implies t[a] != t[b] by {
            if a != i && b != i {
                let a0 = if a < i { a } else { a - 1 };
                let b0 = if b < i { b } else { b - 1 };
                assert(t[a] == s[a0] && t[b] == s[b0]);
            } else if a == i {
                let b0 = if b < i { b } else { b - 1 };
                assert(t[b] == s[b0]);
                assert(s.contains(s[b0]));
            } else {
                let a0 = if a < i { a } else { a - 1 };
                assert(t[a] == s[a0]);
                assert(s.contains(s[a0]));
            }
        }
    }
}

/// Removing one entry from a handle list removes only that entry and
/// preserves freedom from duplicates.
proof fn lemma_remove_keeps(s: Seq<Handle>, j: int)
    requires
        0 <= j < s.len(),
        s.no_duplicates(),
    ensures
        s.remove(j).len() == s.len() - 1,
        forall|x: Handle| s.remove(j).contains(x) ==> s.contains(x),
        s.remove(j).no_duplicates(),
        !s.remove(j).contains(s[j]),
        forall|x: Handle| s.contains(x) && x != s[j] ==> s.remove(j).contains(x),
        forall|k: int| 0 <= k < j ==> #[trigger] s.remove(j)[k] == s[k],
        forall|k: int| j <= k < s.len() - 1 ==> #[trigger] s.remove(j)[k] == s[k + 1],
{
    s.remove_ensures(j);
    let t = s.remove(j);
    assert forall|x: Handle| t.contains(x) implies s.contains(x) by {
        let k = choose|k: int| 0 <= k < t.len() && t[k] == x;
        if k < j {
            assert(s[k] == x);
        } else {
            assert(s[k + 1] == x);
        }
    }
    assert forall|a: int, b: int|
        0 <= a < t.len() && 0 <= b < t.len() && a != b implies t[a] != t[b] by {
        let a0 = if a < j { a } else { a + 1 };
        let b0 = if b < j { b } else { b + 1 };
        assert(t[a] == s[a0] && t[b] == s[b0]);
    }
    if t.contains(s[j]) {
        let k = choose|k: int| 0 <= k < t.len() && t[k] == s[j];
        let k0 = if k < j { k } else { k + 1 };
        assert(s[k0] == s[j] && k0 != j);
        assert(false);
    }
    assert forall|x: Handle| s.contains(x) && x != s[j] implies t.contains(x) by {
        let k = choose|k: int| 0 <= k < s.len() && s[k] == x;
        if k < j {
            assert(t[k] == x);
        } else {
            assert(t[k - 1] == x);
        }
    }
}

impl Dom {
    /// Whether the last child of node `p` is a text node.
    pub open spec fn last_child_is_text(self, p: int) -> bool {
        self.children_of(p).len() > 0 && self.node(self.children_of(p).last() as int).data
            is Text
    }

    /// In a well-formed DOM, a node with no parent link stands in no child list.
    proof fn lemma_detached_not_listed(self, c: Handle)
        requires
            self.wf(),
            c < self.n(),
            self.parent_of(c as int) is None,
        ensures
            forall|q: int, k: int|
                0 <= q < self.n() && 0 <= k < self.children_of(q).len()
                    ==> #[trigger] self.children_of(q)[k] != c,
    {
        assert forall|q: int, k: int|
            0 <= q < self.n() && 0 <= k < self.children_of(q).len()
                implies #[trigger] self.children_of(q)[k] != c by {
            assert(self.wf_node(q));
        }
    }

    /// Transition: the detached node `c` becomes the child of `parent` at
    /// position `i`; nothing else changes.
    pub open spec fn attach_effect(pre: Dom, post: Dom, parent: Handle, i: int, c: Handle) -> bool {
        &&& post.n() == pre.n()
        &&& post.children_of(parent as int) == pre.children_of(parent as int).insert(i, c)
        &&& Self::same_except_children(pre.node(parent as int), post.node(parent as int))
        &&& post.parent_of(c as int) == Some(parent)
        &&& Self::same_except_parent(pre.node(c as int), post.node(c as int))
        &&& forall|j: int|
            0 <= j < pre.n() && j != parent && j != c ==> post.nodes@[j] == #[trigger] pre.nodes@[j]
        &&& post.errors == pre.errors
        &&& post.quirks_mode == pre.quirks_mode
    }

    /// Transition: text `t` is appended to the existing text node `l`;
    /// nothing else changes.
    pub open spec fn merge_text_effect(pre: Dom, post: Dom, l: int, t: Seq<char>) -> bool {
        &&& post.n() == pre.n()
        &&& post.node(l).data matches NodeData::Text { contents } && contents@ == text_of(
            pre.node(l).data,
        ) + t
        &&& post.node(l).parent == pre.node(l).parent
        &&& post.node(l).children == pre.node(l).children
        &&& forall|j: int| 0 <= j < pre.n() && j != l ==> post.nodes@[j] == #[trigger] pre.nodes@[j]
        &&& post.errors == pre.errors
        &&& post.quirks_mode == pre.quirks_mode
    }

    /// Transition: a fresh text node holding `t` is created and becomes the
    /// child of `parent` at position `i`; nothing else changes.
    pub open spec fn new_text_child_effect(
        pre: Dom,
        post: Dom,
        parent: Handle,
        i: int,
        t: Seq<char>,
    ) -> bool {
        let nn = pre.n() as usize;
        &&& post.n() == pre.n() + 1
        &&& post.node(nn as int).data matches NodeData::Text { contents } && contents@ == t
        &&& post.node(nn as int).parent == Some(parent)
        &&& post.node(nn as int).children@ == Seq::<Handle>::empty()
        &&& post.children_of(parent as int) == pre.children_of(parent as int).insert(i, nn)
        &&& Self::same_except_children(pre.node(parent as int), post.node(parent as int))
        &&& forall|j: int|
            0 <= j < pre.n() && j != parent ==> post.nodes@[j] == #[trigger] pre.nodes@[j]
        &&& post.errors == pre.errors
        &&& post.quirks_mode == pre.quirks_mode
    }

    /// What `append` does: text is coalesced into a trailing text child when
    /// there is one; otherwise the given node, or a fresh text node, becomes
    /// the new last child of `parent`.
    pub open spec fn append_effect(pre: Dom, post: Dom, parent: Handle, child: NodeOrText) -> bool {
        match child {
            NodeOrText::AppendNode(c) => Self::attach_effect(
                pre,
                post,
                parent,
                pre.children_of(parent as int).len() as int,
                c,
            ),
            NodeOrText::AppendText(t) => {
                if pre.last_child_is_text(parent as int) {
                    Self::merge_text_effect(
                        pre,
                        post,
                        pre.children_of(parent as int).last() as int,
                        t@,
                    )
                } else {
                    Self::new_text_child_effect(
                        pre,
                        post,
                        parent,
                        pre.children_of(parent as int).len() as int,
                        t@,
                    )
                }
            },
        }
    }

    /// Make the detached node `c` the child of `p` at position `i`.
    fn insert_child_at(&mut self, p: Handle, i: usize, c: Handle)
        requires
            old(self).wf(),
            p < old(self).n(),
            c < old(self).n(),
            c != 0,
            c != p,
            old(self).parent_of(c as int) is None,
            i <= old(self).children_of(p as int).len(),
        ensures
            final(self).wf(),
            Self::attach_effect(*old(self), *final(self), p, i as int, c),
    {
        proof {
            old(self).lemma_detached_not_listed(c);
        }
        self.nodes[c].parent = Some(p);
        self.nodes[p].children.insert(i, c);
        proof {
            let pre = *old(self);
            assert(pre.wf_node(p as int));
            lemma_insert_keeps(pre.children_of(p as int), i as int, c);
            assert forall|x: int| 0 <= x < self.n() implies #[trigger] self.wf_node(x) by {
                assert(pre.wf_node(x));
                let nd = self.nodes@[x];
                if x == c {
                    assert(self.children_of(p as int).contains(c));
                } else {
                    match nd.parent {
                        Some(q) => {
                            assert(pre.children_of(q as int).contains(x as Handle));
                            if q == p {
                                assert(self.children_of(q as int).contains(x as Handle));
                            }
                        },
                        None => {},
                    }
                }
                assert forall|k: int|
                    0 <= k < nd.children@.len() implies (#[trigger] nd.children@[k]) < self.n()
                        && self.parent_of(nd.children@[k] as int) == Some(x as Handle) by {
                    if x == p {
                        let e = nd.children@[k];
                        if k < i {
                            assert(e == pre.children_of(p as int)[k]);
                        } else if k == i {
                            assert(e == c);
                        } else {
                            assert(e == pre.children_of(p as int)[k - 1]);
                        }
                    }
                }
            }
        }
    }

    /// Append a node as the last child of the given node. If this would
    /// produce adjacent sibling text nodes, the text is concatenated into the
    /// existing trailing text node instead. A node child must be detached:
    /// re-appending an already-parented node is a builder bug.
    pub fn append(&mut self, parent: Handle, child: NodeOrText)
        requires
            old(self).wf(),
            parent < old(self).n(),
            child matches NodeOrText::AppendNode(c) ==> c < old(self).n() && old(self).parent_of(
                c as int,
            ) is None && c != 0 && c != parent,
        ensures
            final(self).wf(),
            Self::append_effect(*old(self), *final(self), parent, child),
    {
        match child {
            NodeOrText::AppendText(text) => {
                let clen = self.nodes[parent].children.len();
                if clen > 0 {
                    let l = self.nodes[parent].children[clen - 1];
                    proof {
                        assert(self.wf_node(parent as int));
                    }
                    let merged = self.try_merge_text(l, &text);
                    if merged {
                        return ;
                    }
                }
                let ghost t = text@;
                let nn = self.push_node(NodeData::Text { contents: text });
                let ghost mid = *self;
                let cl = self.nodes[parent].children.len();
                self.insert_child_at(parent, cl, nn);
                proof {
                    assert forall|j: int|
                        0 <= j < old(self).n() && j != parent implies self.nodes@[j]
                        == #[trigger] old(self).nodes@[j] by {
                        assert(mid.nodes@[j] == old(self).nodes@[j]);
                    }
                    assert(Self::new_text_child_effect(
                        *old(self),
                        *self,
                        parent,
                        old(self).children_of(parent as int).len() as int,
                        t,
                    ));
                }
            },
            NodeOrText::AppendNode(c) => {
                self.insert_child_at(parent, self.nodes[parent].children.len(), c);
            },
        }
    }

    /// Append text to node `l` if it is a text node; report whether it was.
    fn try_merge_text(&mut self, l: Handle, text: &String) -> (merged: bool)
        requires
            old(self).wf(),
            l < old(self).n(),
        ensures
            final(self).wf(),
            merged == old(self).node(l as int).data is Text,
            merged ==> Self::merge_text_effect(*old(self), *final(self), l as int, text@),
            !merged ==> *final(self) == *old(self),
    {
        let is_txt = match &self.nodes[l].data {
            NodeData::Text { .. } => true,
            _ => false,
        };
        if !is_txt {
            return false;
        }
        match &mut self.nodes[l].data {
            NodeData::Text { contents } => {
                contents.append(text.as_str());
            },
            _ => {
                proof {
                    assert(false);
                }
            },
        }
        proof {
            let pre = *old(self);
            assert forall|x: int| 0 <= x < self.n() implies #[trigger] self.wf_node(x) by {
                assert(pre.wf_node(x));
            }
        }
        true
    }
}

impl Dom {
    /// If the node has a parent, return it together with the node's position
    /// in that parent's child list. A parent link that points at a list not
    /// holding the node would be a builder bug; well-formedness excludes it.
    pub fn get_parent_and_index(&self, target: Handle) -> (r: Option<(Handle, usize)>)
        requires
            self.wf(),
            target < self.n(),
        ensures
            match r {
                None => self.parent_of(target as int) is None,
                Some((p, i)) => {
                    &&& self.parent_of(target as int) == Some(p)
                    &&& p < self.n()
                    &&& i < self.children_of(p as int).len()
                    &&& self.children_of(p as int)[i as int] == target
                    &&& i as int == self.children_of(p as int).index_of(target)
                },
            },
    {
        let pl = match self.nodes[target].parent {
            None => {
                return None;
            },
            Some(p) => p,
        };
        proof {
            assert(self.wf_node(target as int));
        }
        let clen = self.nodes[pl].children.len();
        let mut k: usize = 0;
        while k < clen
            invariant
                self.wf(),
                target < self.n(),
                pl < self.n(),
                self.parent_of(target as int) == Some(pl),
                clen == self.children_of(pl as int).len(),
                k <= clen,
                forall|j: int| 0 <= j < k ==> self.children_of(pl as int)[j] != target,
            decreases clen - k,
        {
            if self.nodes[pl].children[k] == target {
                proof {
                    let s = self.children_of(pl as int);
                    assert(s.contains(target));
                    assert(self.wf_node(pl as int));
                    let m = s.index_of(target);
                    assert(0 <= m < s.len() && s[m] == target);
                    assert(m == k as int);
                }
                return Some((pl, k));
            }
            k += 1;
        }
        proof {
            let s = self.children_of(pl as int);
            assert(s.contains(target));
            let m = choose|m: int| 0 <= m < s.len() && s[m] == target;
            assert(false);
        }
        None
    }

    /// What `remove_from_parent` does: a detached node is left alone; an
    /// attached node disappears from its parent's child list and its parent
    /// link is cleared.
    pub open spec fn detach_effect(pre: Dom, post: Dom, target: Handle) -> bool {
        match pre.parent_of(target as int) {
            None => post == pre,
            Some(p) => {
                let i = pre.children_of(p as int).index_of(target);
                &&& post.n() == pre.n()
                &&& post.children_of(p as int) == pre.children_of(p as int).remove(i)
                &&& Self::same_except_children(pre.node(p as int), post.node(p as int))
                &&& post.parent_of(target as int) is None
                &&& Self::same_except_parent(pre.node(target as int), post.node(target as int))
                &&& forall|j: int|
                    0 <= j < pre.n() && j != p && j != target ==> post.nodes@[j]
                        == #[trigger] pre.nodes@[j]
                &&& post.errors == pre.errors
                &&& post.quirks_mode == pre.quirks_mode
            },
        }
    }

    /// Detach the given node from its parent, if it has one.
    pub fn remove_from_parent(&mut self, target: Handle)
        requires
            old(self).wf(),
            target < old(self).n(),
        ensures
            final(self).wf(),
            Self::detach_effect(*old(self), *final(self), target),
    {
        match self.get_parent_and_index(target) {
            None => {},
            Some((p, i)) => {
                proof {
                    assert(self.wf_node(p as int));
                    assert(self.wf_node(target as int));
                    lemma_remove_keeps(self.children_of(p as int), i as int);
                }
                self.nodes[p].children.remove(i);
                self.nodes[target].parent = None;
                proof {
                    let pre = *old(self);
                    assert(pre.n() <= usize::MAX as int) by {
                        vstd::std_specs::vec::axiom_spec_len(&pre.nodes);
                    }
                    assert(p != target);
                    assert(self.n() == pre.n());
                    assert(forall|j: int|
                        0 <= j < pre.n() && j != p && j != target ==> self.nodes@[j]
                            == #[trigger] pre.nodes@[j]);
                    assert(self.nodes@[p as int].parent == pre.nodes@[p as int].parent);
                    assert(self.nodes@[p as int].data == pre.nodes@[p as int].data);
                    assert(self.children_of(p as int) == pre.children_of(p as int).remove(i as int));
                    assert(self.nodes@[target as int].children == pre.nodes@[target as int].children);
                    assert(self.nodes@[target as int].data == pre.nodes@[target as int].data);
                    assert(self.parent_of(target as int) is None);
                    assert forall|x: int| 0 <= x < self.n() implies #[trigger] self.wf_node(x) by {
                        assert(pre.wf_node(x));
                        let nd = self.nodes@[x];
                        match nd.parent {
                            Some(q) => {
                                assert(x != target);
                                assert(pre.children_of(q as int).contains(x as Handle));
                                if q == p {
                                    assert(x as Handle != target);
                                    assert(self.children_of(q as int).contains(x as Handle));
                                }
                            },
                            None => {},
                        }
                        assert forall|k: int|
                            0 <= k < nd.children@.len() implies (#[trigger] nd.children@[k])
                            < self.n() && self.parent_of(nd.children@[k] as int) == Some(
                            x as Handle,
                        ) by {
                            let e = nd.children@[k];
                            if x == p {
                                assert(pre.children_of(p as int).remove(i as int).contains(e));
                                assert(pre.children_of(p as int).contains(e));
                                let m = choose|m: int|
                                    0 <= m < pre.children_of(p as int).len() && pre.children_of(
                                        p as int,
                                    )[m] == e;
                                assert(pre.wf_node(p as int));
                                assert(pre.parent_of(e as int) == Some(p as Handle));
                                assert(e != target);
                            } else {
                                assert(pre.children_of(x as int)[k] == e);
                                assert(pre.parent_of(e as int) == Some(x as Handle));
                                assert(e != target);
                            }
                        }
                    }
                }
            },
        }
    }

    /// What `append_before_sibling` does. The new content lands at the
    /// position the sibling held when the call was made; a node child is
    /// first detached from wherever it stood, and text is merged into the
    /// preceding sibling when that is a text node.
    pub open spec fn insert_before_effect(pre: Dom, post: Dom, sibling: Handle, child: NodeOrText) -> bool {
        let p = pre.parent_of(sibling as int)->0;
        let i = pre.children_of(p as int).index_of(sibling);
        match child {
            NodeOrText::AppendNode(c) => {
                match pre.parent_of(c as int) {
                    None => Self::attach_effect(pre, post, p, i, c),
                    Some(q) => {
                        let j = pre.children_of(q as int).index_of(c);
                        if q == p {
                            &&& post.n() == pre.n()
                            &&& post.children_of(p as int) == pre.children_of(p as int).remove(
                                j,
                            ).insert(i, c)
                            &&& Self::same_except_children(pre.node(p as int), post.node(p as int))
                            &&& post.parent_of(c as int) == Some(p)
                            &&& Self::same_except_parent(pre.node(c as int), post.node(c as int))
                            &&& forall|m: int|
                                0 <= m < pre.n() && m != p && m != c ==> post.nodes@[m]
                                    == #[trigger] pre.nodes@[m]
                            &&& post.errors == pre.errors
                            &&& post.quirks_mode == pre.quirks_mode
                        } else {
                            &&& post.n() == pre.n()
                            &&& post.children_of(q as int) == pre.children_of(q as int).remove(j)
                            &&& Self::same_except_children(pre.node(q as int), post.node(q as int))
                            &&& post.children_of(p as int) == pre.children_of(p as int).insert(i, c)
                            &&& Self::same_except_children(pre.node(p as int), post.node(p as int))
                            &&& post.parent_of(c as int) == Some(p)
                            &&& Self::same_except_parent(pre.node(c as int), post.node(c as int))
                            &&& forall|m: int|
                                0 <= m < pre.n() && m != p && m != q && m != c ==> post.nodes@[m]
                                    == #[trigger] pre.nodes@[m]
                            &&& post.errors == pre.errors
                            &&& post.quirks_mode == pre.quirks_mode
                        }
                    },
                }
            },
            NodeOrText::AppendText(t) => {
                if i > 0 && pre.node(pre.children_of(p as int)[i - 1] as int).data is Text {
                    Self::merge_text_effect(pre, post, pre.children_of(p as int)[i - 1] as int, t@)
                } else {
                    Self::new_text_child_effect(pre, post, p, i, t@)
                }
            },
        }
    }

    /// Append a node as the sibling immediately before the given node.
    /// The sibling must be attached and must not be a text node's would-be
    /// merge target itself; the tree builder guarantees it is not a text
    /// node. A node child may still be attached somewhere: it is removed
    /// from its old parent first.
    pub fn append_before_sibling(&mut self, sibling: Handle, child: NodeOrText)
        requires
            old(self).wf(),
            sibling < old(self).n(),
            old(self).parent_of(sibling as int) is Some,
            child matches NodeOrText::AppendNode(c) ==> c < old(self).n() && c != 0 && c != sibling
                && old(self).parent_of(sibling as int) != Some(c),
        ensures
            final(self).wf(),
            Self::insert_before_effect(*old(self), *final(self), sibling, child),
    {
        let (p, i) = match self.get_parent_and_index(sibling) {
            Some(pi) => pi,
            None => {
                proof {
                    assert(false);
                }
                (0, 0)
            },
        };
        match child {
            NodeOrText::AppendText(text) => {
                if i > 0 {
                    let prev = self.nodes[p].children[i - 1];
                    proof {
                        assert(self.wf_node(p as int));
                    }
                    let merged = self.try_merge_text(prev, &text);
                    if merged {
                        return ;
                    }
                }
                let ghost t = text@;
                let nn = self.push_node(NodeData::Text { contents: text });
                let ghost mid = *self;
                self.insert_child_at(p, i, nn);
                proof {
                    assert forall|j: int|
                        0 <= j < old(self).n() && j != p implies self.nodes@[j] == #[trigger] old(
                        self,
                    ).nodes@[j] by {
                        assert(mid.nodes@[j] == old(self).nodes@[j]);
                    }
                    assert(Self::new_text_child_effect(*old(self), *self, p, i as int, t));
                }
            },
            NodeOrText::AppendNode(c) => {
                self.remove_from_parent(c);
                let ghost mid = *self;
                proof {
                    match old(self).parent_of(c as int) {
                        Some(q) => {
                            assert(old(self).wf_node(c as int));
                            if q == p {
                                assert(mid.children_of(p as int).len() == old(self).children_of(
                                    p as int,
                                ).len() - 1);
                                assert((i as int) < old(self).children_of(p as int).len());
                            } else {
                                assert(mid.children_of(p as int) == old(self).children_of(p as int));
                            }
                        },
                        None => {
                            assert(mid == *old(self));
                        },
                    }
                }
                self.insert_child_at(p, i, c);
            },
        }
    }

    /// When the insertion point depends on whether `element` has a parent:
    /// insert before `element` if it has one, else append to `prev_element`.
    pub fn append_based_on_parent_node(
        &mut self,
        element: Handle,
        prev_element: Handle,
        child: NodeOrText,
    )
        requires
            old(self).wf(),
            element < old(self).n(),
            prev_element < old(self).n(),
            child matches NodeOrText::AppendNode(c) ==> c < old(self).n() && c != 0 && (old(
                self,
            ).parent_of(element as int) is Some ==> c != element && old(self).parent_of(
                element as int,
            ) != Some(c)) && (old(self).parent_of(element as int) is None ==> old(self).parent_of(
                c as int,
            ) is None && c != prev_element),
        ensures
            final(self).wf(),
            old(self).parent_of(element as int) is Some ==> Self::insert_before_effect(
                *old(self),
                *final(self),
                element,
                child,
            ),
            old(self).parent_of(element as int) is None ==> Self::append_effect(
                *old(self),
                *final(self),
                prev_element,
                child,
            ),
    {
        let has_parent = match self.nodes[element].parent {
            Some(_) => true,
            None => false,
        };
        if has_parent {
            self.append_before_sibling(element, child);
        } else {
            self.append(prev_element, child);
        }
    }

    /// Append a `DOCTYPE` node to the `Document` root.
    pub fn append_doctype_to_document(&mut self, name: String, public_id: String, system_id: String)
        requires
            old(self).wf(),
        ensures
            final(self).wf(),
            final(self).n() == old(self).n() + 1,
            final(self).node(old(self).n()).data matches NodeData::Doctype {
                name: n2,
                public_id: p2,
                system_id: s2,
            } && n2 == name && p2 == public_id && s2 == system_id,
            final(self).node(old(self).n()).parent == Some(0 as Handle),
            final(self).node(old(self).n()).children@ == Seq::<Handle>::empty(),
            final(self).children_of(0) == old(self).children_of(0).push(old(self).n() as Handle),
            Self::same_except_children(old(self).node(0), final(self).node(0)),
            forall|j: int| 0 < j < old(self).n() ==> final(self).nodes@[j] == #[trigger] old(
                self,
            ).nodes@[j],
            final(self).errors == old(self).errors,
            final(self).quirks_mode == old(self).quirks_mode,
    {
        let nn = self.push_node(NodeData::Doctype { name, public_id, system_id });
        let ghost mid = *self;
        let cl = self.nodes[0].children.len();
        self.insert_child_at(0, cl, nn);
        proof {
            assert forall|j: int|
                0 < j < old(self).n() implies self.nodes@[j] == #[trigger] old(self).nodes@[j] by {
                assert(mid.nodes@[j] == old(self).nodes@[j]);
            }
            lemma_insert_keeps(old(self).children_of(0), cl as int, nn);
            assert(self.children_of(0) =~= old(self).children_of(0).push(nn));
        }
    }
}

/// The attribute list held by an element's data; empty for any other kind.
pub open spec fn attrs_of(d: NodeData) -> Seq<Attribute> {
    match d {
        NodeData::Element { attrs, .. } => attrs@,
        _ => Seq::empty(),
    }
}

/// The name held by an element's data; empty for any other kind.
pub open spec fn elem_name_of(d: NodeData) -> Seq<char> {
    match d {
        NodeData::Element { name, .. } => name@,
        _ => Seq::empty(),
    }
}

/// The template-contents link held by an element's data.
pub open spec fn template_of(d: NodeData) -> Option<Handle> {
    match d {
        NodeData::Element { template_contents, .. } => template_contents,
        _ => None,
    }
}

/// The integration-point flag held by an element's data.
pub open spec fn mathml_of(d: NodeData) -> bool {
    match d {
        NodeData::Element { mathml_annotation_xml_integration_point, .. } => mathml_annotation_xml_integration_point,
        _ => false,
    }
}

/// Does any attribute in `s` carry the given name?
pub open spec fn has_attr_name(s: Seq<Attribute>, name: Seq<char>) -> bool {
    exists|k: int| 0 <= k < s.len() && s[k].name@ == name
}

/// An exact copy of one attribute.
fn clone_attr(a: &Attribute) -> (r: Attribute)
    ensures
        r == *a,
{
    Attribute { name: a.name.clone(), value: a.value.clone() }
}

impl Dom {
    /// Is an attribute with the given name already present on the element?
    fn attr_present(&self, target: Handle, name: &String) -> (r: bool)
        requires
            self.wf(),
            target < self.n(),
            self.node(target as int).data is Element,
        ensures
            r == has_attr_name(attrs_of(self.node(target as int).data), name@),
    {
        match &self.nodes[target].data {
            NodeData::Element { attrs, .. } => {
                let mut k: usize = 0;
                while k < attrs.len()
                    invariant
                        k <= attrs@.len(),
                        attrs@ == attrs_of(self.node(target as int).data),
                        forall|j: int| 0 <= j < k ==> attrs@[j].name@ != name@,
                    decreases attrs@.len() - k,
                {
                    if *name == attrs[k].name {
                        return true;
                    }
                    k += 1;
                }
                false
            },
            _ => {
                proof {
                    assert(false);
                }
                false
            },
        }
    }

    /// Add each attribute to the given element, if no attribute with that
    /// name already exists. Whether a name counts as existing is judged
    /// against the attributes the element had when the call was made, so two
    /// new attributes sharing a fresh name are both added.
    pub fn add_attrs_if_missing(&mut self, target: Handle, attrs: Vec<Attribute>)
        requires
            old(self).wf(),
            target < old(self).n(),
            old(self).node(target as int).data is Element,
        ensures
            final(self).wf(),
            final(self).n() == old(self).n(),
            final(self).node(target as int).data is Element,
            ({
                let pre_d = old(self).node(target as int).data;
                let post_d = final(self).node(target as int).data;
                &&& elem_name_of(post_d) == elem_name_of(pre_d)
                &&& template_of(post_d) == template_of(pre_d)
                &&& mathml_of(post_d) == mathml_of(pre_d)
                &&& attrs_of(post_d) == attrs_of(pre_d) + attrs@.filter(
                    |a: Attribute| !has_attr_name(attrs_of(pre_d), a.name@),
                )
            }),
            final(self).node(target as int).parent == old(self).node(target as int).parent,
            final(self).node(target as int).children == old(self).node(target as int).children,
            forall|j: int|
                0 <= j < old(self).n() && j != target ==> final(self).nodes@[j] == #[trigger] old(
                    self,
                ).nodes@[j],
            final(self).errors == old(self).errors,
            final(self).quirks_mode == old(self).quirks_mode,
    {
        let ghost pre = *old(self);
        let ghost base = attrs_of(pre.node(target as int).data);
        let ghost pred = |a: Attribute| !has_attr_name(base, a.name@);
        let mut additions: Vec<Attribute> = Vec::new();
        let mut idx: usize = 0;
        while idx < attrs.len()
            invariant
                *self == pre,
                pre.wf(),
                target < pre.n(),
                pre.node(target as int).data is Element,
                base == attrs_of(pre.node(target as int).data),
                pred == (|a: Attribute| !has_attr_name(base, a.name@)),
                idx <= attrs@.len(),
                additions@ == attrs@.subrange(0, idx as int).filter(pred),
            decreases attrs@.len() - idx,
        {
            let present = self.attr_present(target, &attrs[idx].name);
            if !present {
                additions.push(clone_attr(&attrs[idx]));
            }
            proof {
                reveal(Seq::filter);
                let s2 = attrs@.subrange(0, idx + 1);
                assert(s2.drop_last() =~= attrs@.subrange(0, idx as int));
                assert(s2.last() == attrs@[idx as int]);
            }
            idx += 1;
        }
        proof {
            assert(attrs@.subrange(0, attrs@.len() as int) =~= attrs@);
        }
        match &mut self.nodes[target].data {
            NodeData::Element { attrs: existing, .. } => {
                existing.append(&mut additions);
            },
            _ => {
                proof {
                    assert(false);
                }
            },
        }
        proof {
            assert forall|x: int| 0 <= x < self.n() implies #[trigger] self.wf_node(x) by {
                assert(pre.wf_node(x));
            }
        }
    }

    /// Remove all the children from `node` and append them, in order, to
    /// `new_parent`. Reparenting a node into its own child list would create
    /// a cycle; that is a builder bug and is excluded up front.
    pub fn reparent_children(&mut self, node: Handle, new_parent: Handle)
        requires
            old(self).wf(),
            node < old(self).n(),
            new_parent < old(self).n(),
            node != new_parent,
            !old(self).children_of(node as int).contains(new_parent),
        ensures
            final(self).wf(),
            final(self).n() == old(self).n(),
            final(self).children_of(node as int) == Seq::<Handle>::empty(),
            Self::same_except_children(old(self).node(node as int), final(self).node(node as int)),
            final(self).children_of(new_parent as int) == old(self).children_of(new_parent as int)
                + old(self).children_of(node as int),
            Self::same_except_children(
                old(self).node(new_parent as int),
                final(self).node(new_parent as int),
            ),
            forall|k: int|
                0 <= k < old(self).children_of(node as int).len() ==> final(self).parent_of(
                    (#[trigger] old(self).children_of(node as int)[k]) as int,
                ) == Some(new_parent) && Self::same_except_parent(
                    old(self).node(old(self).children_of(node as int)[k] as int),
                    final(self).node(old(self).children_of(node as int)[k] as int),
                ),
            forall|j: int|
                0 <= j < old(self).n() && j != node && j != new_parent && !old(self).children_of(
                    node as int,
                ).contains(j as Handle) ==> final(self).nodes@[j] == #[trigger] old(self).nodes@[j],
            final(self).errors == old(self).errors,
            final(self).quirks_mode == old(self).quirks_mode,
    {
        let ghost pre = *old(self);
        let ghost cs = pre.children_of(node as int);
        let base = self.nodes[new_parent].children.len();
        let ghost mut i: int = cs.len() as int;
        proof {
            assert(pre.n() <= usize::MAX as int) by {
                vstd::std_specs::vec::axiom_spec_len(&pre.nodes);
            }
            assert(pre.wf_node(node as int));
            assert(pre.children_of(new_parent as int) + cs.subrange(cs.len() as int, cs.len() as int)
                =~= pre.children_of(new_parent as int));
            assert(cs.subrange(0, cs.len() as int) =~= cs);
        }
        loop
            invariant
                self.wf(),
                pre.wf(),
                pre.n() <= usize::MAX as int,
                node < pre.n(),
                new_parent < pre.n(),
                node != new_parent,
                !cs.contains(new_parent),
                cs == pre.children_of(node as int),
                cs.no_duplicates(),
                self.n() == pre.n(),
                base == pre.children_of(new_parent as int).len(),
                0 <= i <= cs.len(),
                self.children_of(node as int) == cs.subrange(0, i),
                self.children_of(new_parent as int) == pre.children_of(new_parent as int)
                    + cs.subrange(i, cs.len() as int),
                forall|k: int|
                    i <= k < cs.len() ==> self.parent_of((#[trigger] cs[k]) as int) == Some(
                        new_parent,
                    ) && Self::same_except_parent(pre.node(cs[k] as int), self.node(cs[k] as int)),
                forall|k: int|
                    0 <= k < i ==> self.nodes@[(#[trigger] cs[k]) as int] == pre.nodes@[cs[k] as int],
                Self::same_except_children(pre.node(node as int), self.node(node as int)),
                Self::same_except_children(
                    pre.node(new_parent as int),
                    self.node(new_parent as int),
                ),
                forall|j: int|
                    0 <= j < pre.n() && j != node && j != new_parent && !cs.contains(j as Handle)
                        ==> self.nodes@[j] == #[trigger] pre.nodes@[j],
                self.errors == pre.errors,
                self.quirks_mode == pre.quirks_mode,
            ensures
                i == 0,
                self.children_of(node as int).len() == 0,
            decreases i,
        {
            let rem = self.nodes[node].children.len();
            if rem == 0 {
                proof {
                    assert(i == 0);
                }
                break ;
            }
            let c = self.nodes[node].children[rem - 1];
            proof {
                assert(self.children_of(node as int)[rem - 1] == c);
                assert(cs[i - 1] == c);
                assert(cs.contains(c));
                assert(self.wf_node(node as int));
                assert(self.parent_of(c as int) == Some(node));
                assert(c != 0) by {
                    if c == 0 {
                        assert(self.parent_of(0) is None);
                    }
                }
                assert(c != new_parent);
                assert(c != node) by {
                    if c == node {
                        assert(self.parent_of(node as int) == Some(node));
                    }
                }
                let s = self.children_of(node as int);
                assert(s.index_of(c) == s.len() - 1) by {
                    assert(s.contains(c));
                    let m = s.index_of(c);
                    assert(0 <= m < s.len() && s[m] == c);
                }
            }
            let ghost before_remove = *self;
            self.remove_from_parent(c);
            let ghost mid = *self;
            proof {
                assert(mid.children_of(node as int) =~= cs.subrange(0, i - 1));
            }
            self.insert_child_at(new_parent, base, c);
            proof {
                assert(self.children_of(node as int) == cs.subrange(0, i - 1));
                assert(self.children_of(new_parent as int) =~= pre.children_of(new_parent as int)
                    + cs.subrange(i - 1, cs.len() as int)) by {
                    assert(self.children_of(new_parent as int) == mid.children_of(
                        new_parent as int,
                    ).insert(base as int, c));
                    assert(mid.children_of(new_parent as int) == pre.children_of(new_parent as int)
                        + cs.subrange(i, cs.len() as int));
                    lemma_insert_keeps(mid.children_of(new_parent as int), base as int, c);
                }
                assert forall|j: int|
                    0 <= j < pre.n() && j != node && j != new_parent && !cs.contains(j as Handle)
                        implies self.nodes@[j] == #[trigger] pre.nodes@[j] by {
                    assert(j != c as int) by {
                        if j == c as int {
                            assert(cs.contains(c));
                        }
                    }
                    assert(mid.nodes@[j] == before_remove.nodes@[j]);
                }
                assert forall|k: int|
                    i - 1 <= k < cs.len() implies self.parent_of((#[trigger] cs[k]) as int) == Some(
                    new_parent,
                ) && Self::same_except_parent(pre.node(cs[k] as int), self.node(cs[k] as int)) by {
                    if k == i - 1 {
                        assert(cs[k] == c);
                        assert(before_remove.nodes@[c as int] == pre.nodes@[c as int]);
                        assert(Self::same_except_parent(
                            before_remove.node(c as int),
                            mid.node(c as int),
                        ));
                        assert(Self::same_except_parent(mid.node(c as int), self.node(c as int)));
                    }
                    if k > i - 1 {
                        assert(cs[k] != c) by {
                            assert(cs.no_duplicates());
                        }
                        assert(cs[k] != node) by {
                            assert(pre.wf_node(node as int));
                            if cs[k] == node {
                                assert(pre.parent_of(node as int) == Some(node));
                            }
                        }
                        assert(cs[k] != new_parent) by {
                            if cs[k] == new_parent {
                                assert(cs.contains(new_parent));
                            }
                        }
                        assert((cs[k] as int) < pre.n()) by {
                            assert(pre.wf_node(node as int));
                        }
                        assert(mid.nodes@[cs[k] as int] == before_remove.nodes@[cs[k] as int]);
                        assert(self.nodes@[cs[k] as int] == mid.nodes@[cs[k] as int]);
                    }
                }
                assert forall|k: int|
                    0 <= k < i - 1 implies self.nodes@[(#[trigger] cs[k]) as int] == pre.nodes@[cs[k] as int] by {
                    assert(cs[k] != c) by {
                        assert(cs.no_duplicates());
                    }
                    assert(cs[k] != node) by {
                        assert(pre.wf_node(node as int));
                        if cs[k] == node {
                            assert(pre.parent_of(node as int) == Some(node));
                        }
                    }
                    assert(cs[k] != new_parent) by {
                        if cs[k] == new_parent {
                            assert(cs.contains(new_parent));
                        }
                    }
                    assert((cs[k] as int) < pre.n()) by {
                        assert(pre.wf_node(node as int));
                    }
                    assert(before_remove.nodes@[cs[k] as int] == pre.nodes@[cs[k] as int]);
                    assert(mid.nodes@[cs[k] as int] == before_remove.nodes@[cs[k] as int]);
                    assert(self.nodes@[cs[k] as int] == mid.nodes@[cs[k] as int]);
                }
                i = i - 1;
            }
        }
        proof {
            assert(self.children_of(node as int) =~= Seq::<Handle>::empty());
            assert(cs.subrange(0, cs.len() as int) =~= cs);
        }
    }
}

/// One step of a subtree serialization, in document order: what a markup
/// writer must emit for each node. An element contributes an opening step,
/// one step per attribute, its children's steps, and a closing step.
#[derive(Debug)]
pub enum SerOp {
    OpenElement { name: String },
    ElementAttr { name: String, value: String },
    CloseElement { name: String },
    Doctype { name: String },
    Text { contents: String },
    Comment { contents: String },
    ProcessingInstruction { target: String, contents: String },
}

/// The attribute steps of one element, in order.
pub open spec fn spec_attr_ops(attrs: Seq<Attribute>) -> Seq<SerOp> {
    Seq::new(
        attrs.len(),
        |i: int| SerOp::ElementAttr { name: attrs[i].name, value: attrs[i].value },
    )
}

/// The serialization steps for the subtree rooted at `h`, with a recursion
/// budget of `fuel`. A `Document` node contributes nothing by itself.
pub open spec fn spec_ser_ops(nodes: Seq<Node>, h: int, fuel: nat) -> Seq<SerOp>
    decreases fuel, 0int, 0int,
{
    if fuel == 0 {
        Seq::empty()
    } else {
        let nd = nodes[h];
        match nd.data {
            NodeData::Document => Seq::empty(),
            NodeData::Doctype { name, .. } => seq![SerOp::Doctype { name }],
            NodeData::Text { contents } => seq![SerOp::Text { contents }],
            NodeData::Comment { contents } => seq![SerOp::Comment { contents }],
            NodeData::ProcessingInstruction { target, contents } => seq![
                SerOp::ProcessingInstruction { target, contents },
            ],
            NodeData::Element { name, attrs, .. } => seq![SerOp::OpenElement { name }]
                + spec_attr_ops(attrs@) + spec_ser_ops_children(
                nodes,
                nd.children@,
                (fuel - 1) as nat,
            ) + seq![SerOp::CloseElement { name }],
        }
    }
}

/// The serialization steps of a list of sibling subtrees, concatenated.
pub open spec fn spec_ser_ops_children(nodes: Seq<Node>, cs: Seq<Handle>, fuel: nat) -> Seq<SerOp>
    decreases fuel, 1int, cs.len(),
{
    if cs.len() == 0 {
        Seq::empty()
    } else {
        spec_ser_ops(nodes, cs[0] as int, fuel) + spec_ser_ops_children(
            nodes,
            cs.drop_first(),
            fuel,
        )
    }
}

/// A chain of parent links from some parentless node down to `h`, with no
/// node repeated. Because every node has at most one parent, such a chain
/// can never be longer than the arena, which bounds the subtree depth.
pub open spec fn rooted_path(dom: Dom, path: Seq<int>, h: int) -> bool {
    &&& path.len() > 0
    &&& dom.parent_of(path[0]) is None
    &&& path.last() == h
    &&& path.no_duplicates()
    &&& (forall|j: int| 0 <= j < path.len() ==> 0 <= #[trigger] path[j] < dom.n())
    &&& (forall|j: int|
        0 < j < path.len() ==> dom.parent_of(#[trigger] path[j]) == Some(path[j - 1] as Handle))
}

/// `h` hangs, through its ancestors, under some parentless node: the
/// condition that makes walking its subtree well-founded.
pub open spec fn anchored(dom: Dom, h: int) -> bool {
    exists|path: Seq<int>| rooted_path(dom, path, h)
}

/// A rooted path cannot repeat a node, so it is never longer than the arena.
proof fn lemma_rooted_path_len(dom: Dom, path: Seq<int>, h: int)
    requires
        rooted_path(dom, path, h),
    ensures
        path.len() <= dom.n(),
{
    broadcast use vstd::set::group_set_axioms;

    path.unique_seq_to_set();
    assert(path.to_set().subset_of(vstd::set_lib::set_int_range(0, dom.n())));
    vstd::set_lib::lemma_int_range(0, dom.n());
    vstd::set_lib::lemma_len_subset(path.to_set(), vstd::set_lib::set_int_range(0, dom.n()));
}

/// A rooted path to a node extends to a rooted path to any of its children.
proof fn lemma_rooted_path_extend(dom: Dom, path: Seq<int>, h: int, c: int)
    requires
        dom.wf(),
        rooted_path(dom, path, h),
        0 <= c < dom.n(),
        dom.parent_of(c) == Some(h as Handle),
    ensures
        rooted_path(dom, path.push(c), c),
        path.len() + 1 <= dom.n(),
{
    assert(dom.n() <= usize::MAX as int) by {
        vstd::std_specs::vec::axiom_spec_len(&dom.nodes);
    }
    let p2 = path.push(c);
    assert forall|j: int| 0 <= j < path.len() implies path[j] != c by {
        if path[j] == c {
            if j == 0 {
                assert(dom.parent_of(path[0]) is None);
            } else {
                assert(dom.parent_of(path[j]) == Some(path[j - 1] as Handle));
                assert(path[j - 1] == h);
                assert(path[path.len() - 1] == h);
                assert(j - 1 < path.len() - 1);
            }
        }
    }
    assert(p2.no_duplicates());
    assert(p2.last() == c);
    assert forall|j: int| 0 < j < p2.len() implies dom.parent_of(#[trigger] p2[j]) == Some(
        p2[j - 1] as Handle,
    ) by {
        if j < path.len() {
            assert(p2[j] == path[j] && p2[j - 1] == path[j - 1]);
        } else {
            assert(p2[j] == c && p2[j - 1] == path.last());
        }
    }
    lemma_rooted_path_len(dom, p2, c);
}

/// The serialization steps do not depend on the recursion budget, as long
/// as the budget covers the node's possible depth below its root.
proof fn lemma_ser_ops_fuel(dom: Dom, path: Seq<int>, h: int, f1: nat, f2: nat)
    requires
        dom.wf(),
        rooted_path(dom, path, h),
        f1 >= dom.n() + 1 - path.len(),
        f2 >= dom.n() + 1 - path.len(),
    ensures
        spec_ser_ops(dom.nodes@, h, f1) == spec_ser_ops(dom.nodes@, h, f2),
    decreases dom.n() - path.len(), 2int, 0int,
{
    lemma_rooted_path_len(dom, path, h);
    match dom.nodes@[h].data {
        NodeData::Element { .. } => {
            assert(dom.wf_node(h));
            lemma_ser_ops_children_fuel(
                dom,
                path,
                h,
                dom.nodes@[h].children@,
                (f1 - 1) as nat,
                (f2 - 1) as nat,
            );
        },
        _ => {},
    }
}

/// Budget independence for a list of sibling subtrees.
proof fn lemma_ser_ops_children_fuel(
    dom: Dom,
    path: Seq<int>,
    h: int,
    cs: Seq<Handle>,
    f1: nat,
    f2: nat,
)
    requires
        dom.wf(),
        rooted_path(dom, path, h),
        f1 >= dom.n() - path.len(),
        f2 >= dom.n() - path.len(),
        forall|k: int|
            0 <= k < cs.len() ==> (#[trigger] cs[k]) < dom.n() && dom.parent_of(cs[k] as int)
                == Some(h as Handle),
    ensures
        spec_ser_ops_children(dom.nodes@, cs, f1) == spec_ser_ops_children(dom.nodes@, cs, f2),
    decreases dom.n() - path.len(), 1int, cs.len(),
{
    if cs.len() > 0 {
        lemma_rooted_path_extend(dom, path, h, cs[0] as int);
        lemma_ser_ops_fuel(dom, path.push(cs[0] as int), cs[0] as int, f1, f2);
        lemma_ser_ops_children_fuel(dom, path, h, cs.drop_first(), f1, f2);
    }
}

impl Dom {
    /// Append the serialization steps of the subtree at `h` to `out`.
    fn write_ops(&self, h: Handle, path: Ghost<Seq<int>>, out: &mut Vec<SerOp>)
        requires
            self.wf(),
            h < self.n(),
            rooted_path(*self, path@, h as int),
        ensures
            final(out)@ == old(out)@ + spec_ser_ops(
                self.nodes@,
                h as int,
                (self.n() + 1 - path@.len()) as nat,
            ),
        decreases self.n() - path@.len(), 1int,
    {
        proof {
            lemma_rooted_path_len(*self, path@, h as int);
        }
        let ghost fuel = (self.n() + 1 - path@.len()) as nat;
        match &self.nodes[h].data {
            NodeData::Document => {
                proof {
                    assert(out@ =~= old(out)@ + spec_ser_ops(self.nodes@, h as int, fuel));
                }
            },
            NodeData::Doctype { name, .. } => {
                out.push(SerOp::Doctype { name: name.clone() });
                proof {
                    assert(out@ =~= old(out)@ + spec_ser_ops(self.nodes@, h as int, fuel));
                }
            },
            NodeData::Text { contents } => {
                out.push(SerOp::Text { contents: contents.clone() });
                proof {
                    assert(out@ =~= old(out)@ + spec_ser_ops(self.nodes@, h as int, fuel));
                }
            },
            NodeData::Comment { contents } => {
                out.push(SerOp::Comment { contents: contents.clone() });
                proof {
                    assert(out@ =~= old(out)@ + spec_ser_ops(self.nodes@, h as int, fuel));
                }
            },
            NodeData::ProcessingInstruction { target, contents } => {
                out.push(
                    SerOp::ProcessingInstruction {
                        target: target.clone(),
                        contents: contents.clone(),
                    },
                );
                proof {
                    assert(out@ =~= old(out)@ + spec_ser_ops(self.nodes@, h as int, fuel));
                }
            },
            NodeData::Element { name, attrs, .. } => {
                out.push(SerOp::OpenElement { name: name.clone() });
                let mut a: usize = 0;
                let ghost base = out@;
                proof {
                    assert(spec_attr_ops(attrs@).subrange(0, 0) =~= Seq::<SerOp>::empty());
                    assert(base + Seq::<SerOp>::empty() =~= base);
                }
                while a < attrs.len()
                    invariant
                        a <= attrs@.len(),
                        out@ == base + spec_attr_ops(attrs@).subrange(0, a as int),
                    decreases attrs@.len() - a,
                {
                    out.push(
                        SerOp::ElementAttr {
                            name: attrs[a].name.clone(),
                            value: attrs[a].value.clone(),
                        },
                    );
                    proof {
                        assert(spec_attr_ops(attrs@)[a as int] == SerOp::ElementAttr {
                            name: attrs@[a as int].name,
                            value: attrs@[a as int].value,
                        });
                        assert(spec_attr_ops(attrs@).subrange(0, a + 1) =~= spec_attr_ops(
                            attrs@,
                        ).subrange(0, a as int).push(spec_attr_ops(attrs@)[a as int]));
                    }
                    a += 1;
                }
                proof {
                    assert(spec_attr_ops(attrs@).subrange(0, attrs@.len() as int) =~= spec_attr_ops(
                        attrs@,
                    ));
                }
                self.write_children_ops(h, path, out);
                out.push(SerOp::CloseElement { name: name.clone() });
                proof {
                    assert(out@ =~= old(out)@ + spec_ser_ops(self.nodes@, h as int, fuel));
                }
            },
        }
    }

    /// Append the serialization steps of the children of `h` to `out`.
    fn write_children_ops(&self, h: Handle, path: Ghost<Seq<int>>, out: &mut Vec<SerOp>)
        requires
            self.wf(),
            h < self.n(),
            rooted_path(*self, path@, h as int),
        ensures
            final(out)@ == old(out)@ + spec_ser_ops_children(
                self.nodes@,
                self.children_of(h as int),
                (self.n() - path@.len()) as nat,
            ),
        decreases self.n() - path@.len(), 0int,
    {
        let ghost fuel = (self.n() - path@.len()) as nat;
        let ghost cs = self.children_of(h as int);
        let clen = self.nodes[h].children.len();
        let mut k: usize = 0;
        proof {
            assert(cs.subrange(0, 0) =~= Seq::<Handle>::empty());
            assert(old(out)@ + Seq::<SerOp>::empty() =~= old(out)@);
        }
        while k < clen
            invariant
                self.wf(),
                h < self.n(),
                rooted_path(*self, path@, h as int),
                fuel == (self.n() - path@.len()) as nat,
                cs == self.children_of(h as int),
                clen == cs.len(),
                k <= clen,
                out@ == old(out)@ + spec_ser_ops_prefix(self.nodes@, cs, k as int, fuel),
            decreases clen - k,
        {
            let c = self.nodes[h].children[k];
            proof {
                assert(self.wf_node(h as int));
                lemma_rooted_path_extend(*self, path@, h as int, c as int);
            }
            let ghost before = out@;
            self.write_ops(c, Ghost(path@.push(c as int)), out);
            proof {
                lemma_ser_ops_prefix_step(self.nodes@, cs, k as int, fuel);
                assert(out@ =~= old(out)@ + spec_ser_ops_prefix(
                    self.nodes@,
                    cs,
                    k as int + 1,
                    fuel,
                ));
            }
            k += 1;
        }
        proof {
            lemma_ser_ops_prefix_full(self.nodes@, cs, fuel);
        }
    }

    /// The serialization steps of the subtree at `h`, the node included.
    /// The node must hang under some parentless node (every node that a
    /// parse built does), which bounds the depth of its subtree.
    pub fn serialize_ops(&self, h: Handle) -> (r: Vec<SerOp>)
        requires
            self.wf(),
            h < self.n(),
            anchored(*self, h as int),
        ensures
            r@ == spec_ser_ops(self.nodes@, h as int, self.n() as nat),
    {
        let ghost path = choose|path: Seq<int>| rooted_path(*self, path, h as int);
        let mut out: Vec<SerOp> = Vec::new();
        self.write_ops(h, Ghost(path), &mut out);
        proof {
            lemma_rooted_path_len(*self, path, h as int);
            lemma_ser_ops_fuel(
                *self,
                path,
                h as int,
                (self.n() + 1 - path.len()) as nat,
                self.n() as nat,
            );
            assert(Seq::<SerOp>::empty() + spec_ser_ops(self.nodes@, h as int, self.n() as nat)
                =~= spec_ser_ops(self.nodes@, h as int, self.n() as nat));
        }
        out
    }

    /// The serialization steps of the whole document: the children of the
    /// root, the `Document` node itself excluded.
    pub fn serialize_document_ops(&self) -> (r: Vec<SerOp>)
        requires
            self.wf(),
        ensures
            r@ == spec_ser_ops_children(self.nodes@, self.children_of(0), self.n() as nat),
    {
        let ghost path: Seq<int> = seq![0int];
        proof {
            assert(rooted_path(*self, path, 0));
        }
        let mut out: Vec<SerOp> = Vec::new();
        self.write_children_ops(0, Ghost(path), &mut out);
        proof {
            assert(self.wf_node(0));
            lemma_ser_ops_children_fuel(
                *self,
                path,
                0,
                self.children_of(0),
                (self.n() - 1) as nat,
                self.n() as nat,
            );
            assert(Seq::<SerOp>::empty() + spec_ser_ops_children(
                self.nodes@,
                self.children_of(0),
                self.n() as nat,
            ) =~= spec_ser_ops_children(self.nodes@, self.children_of(0), self.n() as nat));
        }
        out
    }
}

/// The serialization steps of the first `k` subtrees in a child list.
pub open spec fn spec_ser_ops_prefix(nodes: Seq<Node>, cs: Seq<Handle>, k: int, fuel: nat) -> Seq<
    SerOp,
> {
    spec_ser_ops_children(nodes, cs.subrange(0, k), fuel)
}

/// Taking one more subtree appends exactly its steps.
proof fn lemma_ser_ops_prefix_step(nodes: Seq<Node>, cs: Seq<Handle>, k: int, fuel: nat)
    requires
        0 <= k < cs.len(),
    ensures
        spec_ser_ops_prefix(nodes, cs, k + 1, fuel) == spec_ser_ops_prefix(nodes, cs, k, fuel)
            + spec_ser_ops(nodes, cs[k] as int, fuel),
    decreases k,
{
    if k == 0 {
        assert(cs.subrange(0, 1).drop_first() =~= Seq::<Handle>::empty());
        assert(spec_ser_ops_children(nodes, Seq::<Handle>::empty(), fuel) =~= Seq::<SerOp>::empty());
        assert(cs.subrange(0, 1)[0] == cs[0]);
        assert(cs.subrange(0, 0) =~= Seq::<Handle>::empty());
        assert(spec_ser_ops_prefix(nodes, cs, 1, fuel) =~= spec_ser_ops(nodes, cs[0] as int, fuel));
        assert(spec_ser_ops_prefix(nodes, cs, 0, fuel) + spec_ser_ops(nodes, cs[0] as int, fuel)
            =~= spec_ser_ops(nodes, cs[0] as int, fuel));
    } else {
        lemma_ser_ops_prefix_step(nodes, cs.drop_first(), k - 1, fuel);
        assert(cs.subrange(0, k + 1).drop_first() =~= cs.drop_first().subrange(0, k));
        assert(cs.subrange(0, k).drop_first() =~= cs.drop_first().subrange(0, k - 1));
        assert(cs.subrange(0, k + 1)[0] == cs[0]);
        assert(cs.subrange(0, k)[0] == cs[0]);
        assert(cs.drop_first()[k - 1] == cs[k]);
        assert(spec_ser_ops(nodes, cs[0] as int, fuel) + (spec_ser_ops_children(
            nodes,
            cs.drop_first().subrange(0, k - 1),
            fuel,
        ) + spec_ser_ops(nodes, cs[k] as int, fuel)) =~= (spec_ser_ops(nodes, cs[0] as int, fuel)
            + spec_ser_ops_children(nodes, cs.drop_first().subrange(0, k - 1), fuel))
            + spec_ser_ops(nodes, cs[k] as int, fuel));
    }
}

/// The whole child list is its own full prefix.
proof fn lemma_ser_ops_prefix_full(nodes: Seq<Node>, cs: Seq<Handle>, fuel: nat)
    ensures
        spec_ser_ops_prefix(nodes, cs, cs.len() as int, fuel) == spec_ser_ops_children(
            nodes,
            cs,
            fuel,
        ),
{
    assert(cs.subrange(0, cs.len() as int) =~= cs);
}

} // verus!
