//! Drives the real HTML parser into the library's DOM and checks the
//! transformer's output on parsed fragments.

use std::borrow::Cow;
use std::cell::RefCell;
use std::rc::Rc;

use html5ever::interface::tree_builder::{ElemName, ElementFlags, NodeOrText, QuirksMode, TreeSink};
use html5ever::tendril::{StrTendril, TendrilSink};
use html5ever::{Attribute, ParseOpts, QualName};

use spell_search::dom;
use spell_search::dom::Dom;
use spell_search::transform::{process_dom, SpellDescriptionStruct, TransformError};

/// A handle the parser can clone freely: the arena index plus, for
/// elements, the qualified name the parser may ask back for.
struct NodeRef {
    idx: usize,
    qname: Option<QualName>,
}

struct NameRef<'a>(&'a QualName);

impl<'a> ElemName for NameRef<'a> {
    fn ns(&self) -> &html5ever::Namespace {
        &self.0.ns
    }
    fn local_name(&self) -> &html5ever::LocalName {
        &self.0.local
    }
}

impl<'a> std::fmt::Debug for NameRef<'a> {
    fn fmt(&self, f: &mut std::fmt::Formatter<'_>) -> std::fmt::Result {
        std::fmt::Debug::fmt(self.0, f)
    }
}

/// The parser's view of the library DOM.
struct DomSink {
    dom: RefCell<Dom>,
    document: Rc<NodeRef>,
}

impl DomSink {
    fn new() -> DomSink {
        let dom = Dom::default();
        let document = Rc::new(NodeRef { idx: 0, qname: None });
        DomSink { dom: RefCell::new(dom), document }
    }

    fn convert_child(&self, child: NodeOrText<Rc<NodeRef>>) -> dom::NodeOrText {
        match child {
            NodeOrText::AppendNode(n) => {
                let d = self.dom.borrow();
                assert!(n.idx != 0, "cannot re-append the document");
                assert!(n.idx < d.nodes.len(), "dangling handle");
                dom::NodeOrText::AppendNode(n.idx)
            }
            NodeOrText::AppendText(t) => dom::NodeOrText::AppendText(t.to_string()),
        }
    }
}

fn convert_attrs(attrs: Vec<Attribute>) -> Vec<dom::Attribute> {
    attrs
        .into_iter()
        .map(|a| dom::Attribute { name: a.name.local.to_string(), value: a.value.to_string() })
        .collect()
}

impl TreeSink for DomSink {
    type Handle = Rc<NodeRef>;
    type Output = Dom;
    type ElemName<'a> = NameRef<'a>;

    fn finish(self) -> Dom {
        self.dom.into_inner()
    }

    fn parse_error(&self, msg: Cow<'static, str>) {
        self.dom.borrow_mut().parse_error(msg.to_string());
    }

    fn get_document(&self) -> Rc<NodeRef> {
        self.document.clone()
    }

    fn elem_name<'a>(&'a self, target: &'a Rc<NodeRef>) -> NameRef<'a> {
        NameRef(target.qname.as_ref().expect("not an element"))
    }

    fn create_element(
        &self,
        name: QualName,
        attrs: Vec<Attribute>,
        flags: ElementFlags,
    ) -> Rc<NodeRef> {
        let idx = self.dom.borrow_mut().create_element(
            name.local.to_string(),
            convert_attrs(attrs),
            dom::ElementFlags {
                template: flags.template,
                mathml_annotation_xml_integration_point: flags
                    .mathml_annotation_xml_integration_point,
            },
        );
        Rc::new(NodeRef { idx, qname: Some(name) })
    }

    fn create_comment(&self, text: StrTendril) -> Rc<NodeRef> {
        let idx = self.dom.borrow_mut().create_comment(text.to_string());
        Rc::new(NodeRef { idx, qname: None })
    }

    fn create_pi(&self, target: StrTendril, data: StrTendril) -> Rc<NodeRef> {
        let idx = self.dom.borrow_mut().create_pi(target.to_string(), data.to_string());
        Rc::new(NodeRef { idx, qname: None })
    }

    fn append(&self, parent: &Rc<NodeRef>, child: NodeOrText<Rc<NodeRef>>) {
        let child = self.convert_child(child);
        let mut d = self.dom.borrow_mut();
        if let dom::NodeOrText::AppendNode(c) = child {
            // the tree builder promises the child has no parent
            assert!(d.nodes[c].parent.is_none(), "child already has a parent");
            assert!(c != parent.idx, "cannot append a node to itself");
        }
        d.append(parent.idx, child);
    }

    fn append_before_sibling(&self, sibling: &Rc<NodeRef>, new_node: NodeOrText<Rc<NodeRef>>) {
        let child = self.convert_child(new_node);
        let mut d = self.dom.borrow_mut();
        let parent = d.nodes[sibling.idx]
            .parent
            .expect("append_before_sibling called on node without parent");
        if let dom::NodeOrText::AppendNode(c) = child {
            assert!(c != sibling.idx, "cannot insert a node before itself");
            assert!(c != parent, "cannot insert the parent before its child");
        }
        d.append_before_sibling(sibling.idx, child);
    }

    fn append_based_on_parent_node(
        &self,
        element: &Rc<NodeRef>,
        prev_element: &Rc<NodeRef>,
        child: NodeOrText<Rc<NodeRef>>,
    ) {
        let has_parent = self.dom.borrow().nodes[element.idx].parent.is_some();
        if has_parent {
            self.append_before_sibling(element, child);
        } else {
            self.append(prev_element, child);
        }
    }

    fn append_doctype_to_document(
        &self,
        name: StrTendril,
        public_id: StrTendril,
        system_id: StrTendril,
    ) {
        self.dom.borrow_mut().append_doctype_to_document(
            name.to_string(),
            public_id.to_string(),
            system_id.to_string(),
        );
    }

    fn get_template_contents(&self, target: &Rc<NodeRef>) -> Rc<NodeRef> {
        let idx = self.dom.borrow().get_template_contents(target.idx);
        Rc::new(NodeRef { idx, qname: None })
    }

    fn same_node(&self, x: &Rc<NodeRef>, y: &Rc<NodeRef>) -> bool {
        self.dom.borrow().same_node(x.idx, y.idx)
    }

    fn set_quirks_mode(&self, mode: QuirksMode) {
        let mode = match mode {
            QuirksMode::Quirks => dom::QuirksMode::Quirks,
            QuirksMode::LimitedQuirks => dom::QuirksMode::LimitedQuirks,
            QuirksMode::NoQuirks => dom::QuirksMode::NoQuirks,
        };
        self.dom.borrow_mut().set_quirks_mode(mode);
    }

    fn add_attrs_if_missing(&self, target: &Rc<NodeRef>, attrs: Vec<Attribute>) {
        self.dom.borrow_mut().add_attrs_if_missing(target.idx, convert_attrs(attrs));
    }

    fn remove_from_parent(&self, target: &Rc<NodeRef>) {
        self.dom.borrow_mut().remove_from_parent(target.idx);
    }

    fn reparent_children(&self, node: &Rc<NodeRef>, new_parent: &Rc<NodeRef>) {
        let mut d = self.dom.borrow_mut();
        assert!(node.idx != new_parent.idx, "cannot reparent into the same node");
        assert!(
            !d.nodes[node.idx].children.contains(&new_parent.idx),
            "cannot reparent into an own child"
        );
        d.reparent_children(node.idx, new_parent.idx);
    }

    fn is_mathml_annotation_xml_integration_point(&self, target: &Rc<NodeRef>) -> bool {
        self.dom.borrow().is_mathml_annotation_xml_integration_point(target.idx)
    }
}

fn parse(input: &str) -> Dom {
    let opts = ParseOpts::default();
    html5ever::parse_document(DomSink::new(), opts)
        .from_utf8()
        .read_from(&mut input.as_bytes())
        .unwrap()
}

fn text(s: &str) -> SpellDescriptionStruct {
    SpellDescriptionStruct::Text(s.to_string())
}

#[test]
fn parsed_end_to_end_scenario() {
    let dom = parse(
        "<html><head></head><body><p>Cast <i>Fireball</i> at <b>will</b>.</p></body></html>",
    );
    let got = process_dom(&dom).unwrap();
    let want = SpellDescriptionStruct::Body(vec![SpellDescriptionStruct::Paragraph(vec![
        text("Cast "),
        SpellDescriptionStruct::Italics("Fireball".to_string()),
        text(" at "),
        SpellDescriptionStruct::Bold("will".to_string()),
        text("."),
    ])]);
    assert!(got == want);
}

#[test]
fn parsed_table_reconstruction() {
    let dom = parse(
        "<table><thead><tr><th>A</th></tr></thead><tbody><tr><td>1</td></tr></tbody></table>",
    );
    let got = process_dom(&dom).unwrap();
    let want = SpellDescriptionStruct::Body(vec![SpellDescriptionStruct::Table(vec![
        SpellDescriptionStruct::Thead(vec![SpellDescriptionStruct::Row(vec![
            SpellDescriptionStruct::Header(vec![text("A")]),
        ])]),
        SpellDescriptionStruct::Tbody(vec![SpellDescriptionStruct::Row(vec![
            SpellDescriptionStruct::Cell(vec![text("1")]),
        ])]),
    ])]);
    assert!(got == want);
}

#[test]
fn parsed_fragment_gets_wrappers_synthesized() {
    // no html/head/body in the input: the parser synthesizes them
    let dom = parse("<ul><li>one</li><li>two</li></ul>");
    let got = process_dom(&dom).unwrap();
    let want = SpellDescriptionStruct::Body(vec![SpellDescriptionStruct::Listing(vec![
        SpellDescriptionStruct::Line(vec![text("one")]),
        SpellDescriptionStruct::Line(vec![text("two")]),
    ])]);
    assert!(got == want);
}

#[test]
fn parsed_unknown_tag_is_fatal() {
    let dom = parse("<body><span>hi</span></body>");
    assert!(matches!(process_dom(&dom), Err(TransformError::UnsupportedTag(_))));
}

#[test]
fn parsed_line_break() {
    let dom = parse("<body><p>a<br>b</p></body>");
    let got = process_dom(&dom).unwrap();
    let want = SpellDescriptionStruct::Body(vec![SpellDescriptionStruct::Paragraph(vec![
        text("a"),
        SpellDescriptionStruct::Br,
        text("b"),
    ])]);
    assert!(got == want);
}
