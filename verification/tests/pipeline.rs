use spell_search::dom::{Dom, ElementFlags, NodeOrText, SerOp};
use spell_search::table::{ColType, RowOrder};
use spell_search::transform::{process_dom, SpellDescriptionStruct, TransformError};
use spell_search::util::{rowlen, tbodylen};

fn el(dom: &mut Dom, parent: usize, tag: &str) -> usize {
    let h = dom.create_element(
        tag.to_string(),
        Vec::new(),
        ElementFlags { template: false, mathml_annotation_xml_integration_point: false },
    );
    dom.append(parent, NodeOrText::AppendNode(h));
    h
}

fn txt(dom: &mut Dom, parent: usize, s: &str) {
    dom.append(parent, NodeOrText::AppendText(s.to_string()));
}

/// A fresh DOM holding `<html><head></head><body>`, returning the body handle.
fn skeleton(dom: &mut Dom) -> usize {
    let doc = dom.get_document();
    let html = el(dom, doc, "html");
    el(dom, html, "head");
    el(dom, html, "body")
}

fn text(s: &str) -> SpellDescriptionStruct {
    SpellDescriptionStruct::Text(s.to_string())
}

#[test]
fn end_to_end_scenario() {
    let mut dom = Dom::default();
    let body = skeleton(&mut dom);
    let p = el(&mut dom, body, "p");
    txt(&mut dom, p, "Cast ");
    let i = el(&mut dom, p, "i");
    txt(&mut dom, i, "Fireball");
    txt(&mut dom, p, " at ");
    let b = el(&mut dom, p, "b");
    txt(&mut dom, b, "will");
    txt(&mut dom, p, ".");

    let got = process_dom(&dom).unwrap();
    let want = SpellDescriptionStruct::Body(vec![SpellDescriptionStruct::Paragraph(vec![
        text("Cast "),
        SpellDescriptionStruct::Italics("Fireball".to_string()),
        text(" at "),
        SpellDescriptionStruct::Bold("will".to_string()),
        text("."),
    ])]);
    assert!(got == want);
}

#[test]
fn table_reconstruction() {
    let mut dom = Dom::default();
    let body = skeleton(&mut dom);
    let table = el(&mut dom, body, "table");
    let thead = el(&mut dom, table, "thead");
    let tr1 = el(&mut dom, thead, "tr");
    let th = el(&mut dom, tr1, "th");
    txt(&mut dom, th, "A");
    let tbody = el(&mut dom, table, "tbody");
    let tr2 = el(&mut dom, tbody, "tr");
    let td = el(&mut dom, tr2, "td");
    txt(&mut dom, td, "1");

    let got = process_dom(&dom).unwrap();
    let want = SpellDescriptionStruct::Body(vec![SpellDescriptionStruct::Table(vec![
        SpellDescriptionStruct::Thead(vec![SpellDescriptionStruct::Row(vec![
            SpellDescriptionStruct::Header(vec![text("A")]),
        ])]),
        SpellDescriptionStruct::Tbody(vec![SpellDescriptionStruct::Row(vec![
            SpellDescriptionStruct::Cell(vec![text("1")]),
        ])]),
    ])]);
    assert!(got == want);
}

#[test]
fn whitespace_elision() {
    let mut dom = Dom::default();
    let body = skeleton(&mut dom);
    let p = el(&mut dom, body, "p");
    txt(&mut dom, p, "   \t\n  ");
    let p2 = el(&mut dom, body, "p");
    txt(&mut dom, p2, "  hello  ");

    let got = process_dom(&dom).unwrap();
    let want = SpellDescriptionStruct::Body(vec![
        SpellDescriptionStruct::Paragraph(vec![]),
        SpellDescriptionStruct::Paragraph(vec![text("  hello  ")]),
    ]);
    assert!(got == want);
}

#[test]
fn bold_without_text_degrades() {
    let mut dom = Dom::default();
    let body = skeleton(&mut dom);
    el(&mut dom, body, "b");
    let got = process_dom(&dom).unwrap();
    let want =
        SpellDescriptionStruct::Body(vec![SpellDescriptionStruct::Bold(String::new())]);
    assert!(got == want);
}

#[test]
fn italics_with_element_child_degrades() {
    let mut dom = Dom::default();
    let body = skeleton(&mut dom);
    let i = el(&mut dom, body, "i");
    el(&mut dom, i, "br");
    let got = process_dom(&dom).unwrap();
    let want =
        SpellDescriptionStruct::Body(vec![SpellDescriptionStruct::Italics(String::new())]);
    assert!(got == want);
}

#[test]
fn unknown_tag_is_fatal() {
    let mut dom = Dom::default();
    let body = skeleton(&mut dom);
    let script = el(&mut dom, body, "script");
    txt(&mut dom, script, "alert(1)");
    match process_dom(&dom) {
        Err(TransformError::UnsupportedTag(h)) => assert_eq!(h, script),
        other => panic!("expected a fatal unsupported tag, got {:?}", other),
    }
}

#[test]
fn comment_is_fatal() {
    let mut dom = Dom::default();
    let body = skeleton(&mut dom);
    let c = dom.create_comment("note".to_string());
    dom.append(body, NodeOrText::AppendNode(c));
    assert!(matches!(process_dom(&dom), Err(TransformError::Comment(_))));
}

#[test]
fn tag_mapping_totality() {
    let containers = [
        ("body", 0usize),
        ("p", 1),
        ("caption", 2),
        ("sup", 3),
        ("ul", 4),
        ("li", 5),
        ("table", 6),
        ("tbody", 7),
        ("thead", 8),
        ("tfoot", 9),
        ("tr", 10),
        ("th", 11),
        ("td", 12),
    ];
    for (tag, _) in containers.iter() {
        let mut dom = Dom::default();
        let body = skeleton(&mut dom);
        let e = el(&mut dom, body, tag);
        txt(&mut dom, e, "x");
        let got = process_dom(&dom).unwrap();
        let inner: Vec<SpellDescriptionStruct> = vec![text("x")];
        let wrapped = match *tag {
            "body" => SpellDescriptionStruct::Body(inner),
            "p" => SpellDescriptionStruct::Paragraph(inner),
            "caption" => SpellDescriptionStruct::Caption(inner),
            "sup" => SpellDescriptionStruct::Sup(inner),
            "ul" => SpellDescriptionStruct::Listing(inner),
            "li" => SpellDescriptionStruct::Line(inner),
            "table" => SpellDescriptionStruct::Table(inner),
            "tbody" => SpellDescriptionStruct::Tbody(inner),
            "thead" => SpellDescriptionStruct::Thead(inner),
            "tfoot" => SpellDescriptionStruct::Tfoot(inner),
            "tr" => SpellDescriptionStruct::Row(inner),
            "th" => SpellDescriptionStruct::Header(inner),
            _ => SpellDescriptionStruct::Cell(inner),
        };
        let want = SpellDescriptionStruct::Body(vec![wrapped]);
        assert!(got == want, "tag {} mapped wrongly", tag);
    }
    // the three leaves
    let mut dom = Dom::default();
    let body = skeleton(&mut dom);
    let i = el(&mut dom, body, "i");
    txt(&mut dom, i, "it");
    let b = el(&mut dom, body, "b");
    txt(&mut dom, b, "bo");
    el(&mut dom, body, "br");
    let got = process_dom(&dom).unwrap();
    let want = SpellDescriptionStruct::Body(vec![
        SpellDescriptionStruct::Italics("it".to_string()),
        SpellDescriptionStruct::Bold("bo".to_string()),
        SpellDescriptionStruct::Br,
    ]);
    assert!(got == want);
}

#[test]
fn same_node_is_identity() {
    let mut dom = Dom::default();
    let body = skeleton(&mut dom);
    let a = el(&mut dom, body, "p");
    let b = el(&mut dom, body, "p");
    assert!(dom.same_node(a, a));
    assert!(dom.same_node(b, b));
    assert!(!dom.same_node(a, b));
}

#[test]
fn adjacent_text_is_coalesced() {
    let mut dom = Dom::default();
    let body = skeleton(&mut dom);
    txt(&mut dom, body, "one ");
    txt(&mut dom, body, "two");
    let got = process_dom(&dom).unwrap();
    let want = SpellDescriptionStruct::Body(vec![text("one two")]);
    assert!(got == want);
    // the body holds a single text child
    assert_eq!(dom.nodes[body].children.len(), 1);
}

#[test]
fn insert_before_sibling_merges_text() {
    let mut dom = Dom::default();
    let body = skeleton(&mut dom);
    txt(&mut dom, body, "start");
    let p = el(&mut dom, body, "p");
    dom.append_before_sibling(p, NodeOrText::AppendText(" more".to_string()));
    let got = process_dom(&dom).unwrap();
    let want = SpellDescriptionStruct::Body(vec![
        text("start more"),
        SpellDescriptionStruct::Paragraph(vec![]),
    ]);
    assert!(got == want);
}

#[test]
fn remove_and_reparent() {
    let mut dom = Dom::default();
    let body = skeleton(&mut dom);
    let p1 = el(&mut dom, body, "p");
    txt(&mut dom, p1, "a");
    let p2 = el(&mut dom, body, "p");
    txt(&mut dom, p2, "b");
    // move the text of p1 into p2, then drop p1
    dom.reparent_children(p1, p2);
    dom.remove_from_parent(p1);
    let got = process_dom(&dom).unwrap();
    let want = SpellDescriptionStruct::Body(vec![SpellDescriptionStruct::Paragraph(vec![
        text("b"),
        text("a"),
    ])]);
    assert!(got == want);
}

#[test]
fn attributes_added_only_when_missing() {
    let mut dom = Dom::default();
    let body = skeleton(&mut dom);
    let p = el(&mut dom, body, "p");
    let attr = |n: &str, v: &str| spell_search::dom::Attribute {
        name: n.to_string(),
        value: v.to_string(),
    };
    dom.add_attrs_if_missing(p, vec![attr("class", "x")]);
    dom.add_attrs_if_missing(p, vec![attr("class", "y"), attr("id", "z")]);
    match &dom.nodes[p].data {
        spell_search::dom::NodeData::Element { attrs, .. } => {
            assert_eq!(attrs.len(), 2);
            assert_eq!(attrs[0].name, "class");
            assert_eq!(attrs[0].value, "x");
            assert_eq!(attrs[1].name, "id");
            assert_eq!(attrs[1].value, "z");
        }
        _ => panic!("not an element"),
    }
}

#[test]
fn table_measurements() {
    let row = |cells: Vec<SpellDescriptionStruct>| SpellDescriptionStruct::Row(cells);
    let cell = |s: &str| SpellDescriptionStruct::Cell(vec![text(s)]);
    let tbody = SpellDescriptionStruct::Tbody(vec![
        row(vec![cell("1"), cell("2")]),
        row(vec![cell("3")]),
        row(vec![cell("4"), cell("5")]),
    ]);
    assert_eq!(rowlen(&tbody), 2);
    assert_eq!(tbodylen(&tbody, 2), 2);
    assert_eq!(tbodylen(&tbody, 1), 1);
    assert_eq!(rowlen(&SpellDescriptionStruct::Br), 0);
    assert_eq!(tbodylen(&SpellDescriptionStruct::Br, 2), 0);
}

#[test]
fn empty_body_is_an_empty_tree() {
    let mut dom = Dom::default();
    skeleton(&mut dom);
    let got = process_dom(&dom).unwrap();
    assert!(got == SpellDescriptionStruct::Body(vec![]));
}

#[test]
fn elided_body_has_no_content() {
    let mut dom = Dom::default();
    let doc = dom.get_document();
    let html = el(&mut dom, doc, "html");
    el(&mut dom, html, "head");
    txt(&mut dom, html, "   ");
    assert!(matches!(process_dom(&dom), Err(TransformError::NoContent(_))));
}

#[test]
fn column_defaults() {
    let all = ColType::get_all();
    assert_eq!(all.len(), 16);
    assert_eq!(all[0], (ColType::Name(true), RowOrder::Unsorted));
    assert!(all[0].0.get_bool());
    assert!(!all[3].0.get_bool());
    assert_eq!(all[1].0.title(), "Spellschool");
    assert_eq!(RowOrder::Unsorted.n(), RowOrder::Ascending);
    assert_eq!(RowOrder::Ascending.n(), RowOrder::Descending);
    assert_eq!(RowOrder::Descending.p(), RowOrder::Ascending);
}

#[test]
fn subtree_serialization_steps() {
    let mut dom = Dom::default();
    let body = skeleton(&mut dom);
    let p = el(&mut dom, body, "p");
    txt(&mut dom, p, "hi");
    let ops = dom.serialize_ops(p);
    assert_eq!(ops.len(), 3);
    assert!(matches!(&ops[0], SerOp::OpenElement { name } if name == "p"));
    assert!(matches!(&ops[1], SerOp::Text { contents } if contents == "hi"));
    assert!(matches!(&ops[2], SerOp::CloseElement { name } if name == "p"));
    let whole = dom.serialize_document_ops();
    // html open, head open/close, body open, the three steps above, body close, html close
    assert_eq!(whole.len(), 9);
    assert!(matches!(&whole[0], SerOp::OpenElement { name } if name == "html"));
    assert!(matches!(&whole[8], SerOp::CloseElement { name } if name == "html"));
}
