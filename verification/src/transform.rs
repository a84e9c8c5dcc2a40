//! The document transformer: folds the generic DOM into the closed
//! document-tree type used by renderers.
//!
//! Every HTML tag the source data may contain maps onto exactly one variant;
//! anything outside that vocabulary is a hard error, because unknown markup
//! must be triaged rather than silently dropped. Whitespace-only text nodes
//! are elided.

use crate::dom::{elem_name_of, text_of, Dom, Handle, Node, NodeData};
use crate::text::{is_blank, str_eq, str_is_blank};
use vstd::prelude::*;

verus! {

/// The closed document tree: pure data, no back-references, safe to clone
/// and to hand to any number of consumers.
#[derive(Debug)]
pub enum SpellDescriptionStruct {
    Body(Vec<SpellDescriptionStruct>),
    Paragraph(Vec<SpellDescriptionStruct>),
    Caption(Vec<SpellDescriptionStruct>),
    Italics(String),
    Bold(String),
    Sup(Vec<SpellDescriptionStruct>),
    Br,
    Listing(Vec<SpellDescriptionStruct>),
    Line(Vec<SpellDescriptionStruct>),
    Table(Vec<SpellDescriptionStruct>),
    Tbody(Vec<SpellDescriptionStruct>),
    Thead(Vec<SpellDescriptionStruct>),
    Tfoot(Vec<SpellDescriptionStruct>),
    Row(Vec<SpellDescriptionStruct>),
    Header(Vec<SpellDescriptionStruct>),
    Cell(Vec<SpellDescriptionStruct>),
    Text(String),
}

/// The mathematical shape of a document tree: the same variants with
/// sequences in place of vectors and strings.
pub enum DocView {
    Body(Seq<DocView>),
    Paragraph(Seq<DocView>),
    Caption(Seq<DocView>),
    Italics(Seq<char>),
    Bold(Seq<char>),
    Sup(Seq<DocView>),
    Br,
    Listing(Seq<DocView>),
    Line(Seq<DocView>),
    Table(Seq<DocView>),
    Tbody(Seq<DocView>),
    Thead(Seq<DocView>),
    Tfoot(Seq<DocView>),
    Row(Seq<DocView>),
    Header(Seq<DocView>),
    Cell(Seq<DocView>),
    Text(Seq<char>),
}

/// The mathematical shape of one document tree.
pub open spec fn sds_view(v: SpellDescriptionStruct) -> DocView
    decreases v,
{
    match v {
        SpellDescriptionStruct::Body(cs) => DocView::Body(seq_doc_view(cs@)),
        SpellDescriptionStruct::Paragraph(cs) => DocView::Paragraph(seq_doc_view(cs@)),
        SpellDescriptionStruct::Caption(cs) => DocView::Caption(seq_doc_view(cs@)),
        SpellDescriptionStruct::Italics(s) => DocView::Italics(s@),
        SpellDescriptionStruct::Bold(s) => DocView::Bold(s@),
        SpellDescriptionStruct::Sup(cs) => DocView::Sup(seq_doc_view(cs@)),
        SpellDescriptionStruct::Br => DocView::Br,
        SpellDescriptionStruct::Listing(cs) => DocView::Listing(seq_doc_view(cs@)),
        SpellDescriptionStruct::Line(cs) => DocView::Line(seq_doc_view(cs@)),
        SpellDescriptionStruct::Table(cs) => DocView::Table(seq_doc_view(cs@)),
        SpellDescriptionStruct::Tbody(cs) => DocView::Tbody(seq_doc_view(cs@)),
        SpellDescriptionStruct::Thead(cs) => DocView::Thead(seq_doc_view(cs@)),
        SpellDescriptionStruct::Tfoot(cs) => DocView::Tfoot(seq_doc_view(cs@)),
        SpellDescriptionStruct::Row(cs) => DocView::Row(seq_doc_view(cs@)),
        SpellDescriptionStruct::Header(cs) => DocView::Header(seq_doc_view(cs@)),
        SpellDescriptionStruct::Cell(cs) => DocView::Cell(seq_doc_view(cs@)),
        SpellDescriptionStruct::Text(s) => DocView::Text(s@),
    }
}

/// The views of a sequence of document trees, in order.
pub open spec fn seq_doc_view(s: Seq<SpellDescriptionStruct>) -> Seq<DocView>
    decreases s,
{
    if s.len() == 0 {
        Seq::empty()
    } else {
        seq_doc_view(s.drop_last()).push(sds_view(s.last()))
    }
}

/// `seq_doc_view` maps the view over the sequence, element by element.
pub proof fn lemma_seq_doc_view(s: Seq<SpellDescriptionStruct>)
    ensures
        seq_doc_view(s).len() == s.len(),
        forall|i: int| 0 <= i < s.len() ==> seq_doc_view(s)[i] == sds_view(#[trigger] s[i]),
    decreases s.len(),
{
    if s.len() > 0 {
        lemma_seq_doc_view(s.drop_last());
        assert forall|i: int| 0 <= i < s.len() implies seq_doc_view(s)[i] == sds_view(
            #[trigger] s[i],
        ) by {
            if i < s.len() - 1 {
                assert(s.drop_last()[i] == s[i]);
                assert(seq_doc_view(s)[i] == seq_doc_view(s.drop_last())[i]);
            } else {
                assert(s[i] == s.last());
            }
        }
    }
}

impl View for SpellDescriptionStruct {
    type V = DocView;

    open spec fn view(&self) -> DocView {
        sds_view(*self)
    }
}

/// Why a transform failed, with the handle of the offending DOM node.
#[derive(Debug, Clone, Copy, PartialEq, Eq, Structural)]
pub enum TransformError {
    /// A `DOCTYPE` node stood inside the fragment.
    Doctype(Handle),
    /// A comment stood inside the fragment.
    Comment(Handle),
    /// A processing instruction stood inside the fragment.
    ProcessingInstruction(Handle),
    /// An element's tag lies outside the supported vocabulary.
    UnsupportedTag(Handle),
    /// A node that must have a child (the document root, or `html` with its
    /// synthesized head and body) did not have it.
    MissingChild(Handle),
    /// The `html` element's body reduced to nothing.
    NoContent(Handle),
    /// The recursion budget ran out. The verified entry points walk a
    /// well-formed DOM with a budget of one per node, which cannot run out,
    /// so they never return this.
    Budget(Handle),
}

/// The tag names that map onto container variants.
pub open spec fn is_container_tag(name: Seq<char>) -> bool {
    ||| name == "body"@
    ||| name == "p"@
    ||| name == "caption"@
    ||| name == "sup"@
    ||| name == "ul"@
    ||| name == "li"@
    ||| name == "table"@
    ||| name == "tbody"@
    ||| name == "thead"@
    ||| name == "tfoot"@
    ||| name == "tr"@
    ||| name == "th"@
    ||| name == "td"@
}

/// The container variant a tag maps onto, applied to the given children.
pub open spec fn container_view(name: Seq<char>, ks: Seq<DocView>) -> DocView {
    if name == "body"@ {
        DocView::Body(ks)
    } else if name == "p"@ {
        DocView::Paragraph(ks)
    } else if name == "caption"@ {
        DocView::Caption(ks)
    } else if name == "sup"@ {
        DocView::Sup(ks)
    } else if name == "ul"@ {
        DocView::Listing(ks)
    } else if name == "li"@ {
        DocView::Line(ks)
    } else if name == "table"@ {
        DocView::Table(ks)
    } else if name == "tbody"@ {
        DocView::Tbody(ks)
    } else if name == "thead"@ {
        DocView::Thead(ks)
    } else if name == "tfoot"@ {
        DocView::Tfoot(ks)
    } else if name == "tr"@ {
        DocView::Row(ks)
    } else if name == "th"@ {
        DocView::Header(ks)
    } else {
        DocView::Cell(ks)
    }
}

/// The text an italics or bold element carries: the contents of its first
/// child when that child is a text node, and the empty string otherwise.
pub open spec fn spec_leaf_text(nodes: Seq<Node>, cs: Seq<Handle>) -> Seq<char> {
    if cs.len() >= 1 && nodes[cs[0] as int].data is Text {
        text_of(nodes[cs[0] as int].data)
    } else {
        Seq::empty()
    }
}

/// What the transformer produces for the node `h` of the DOM, with a
/// recursion budget of `fuel`. `Ok(None)` means the node was elided (a
/// whitespace-only text node).
pub open spec fn spec_process(nodes: Seq<Node>, h: int, fuel: nat) -> Result<
    Option<DocView>,
    TransformError,
>
    decreases fuel, 0int, 0int,
{
    if fuel == 0 {
        Err(TransformError::Budget(h as Handle))
    } else {
        let nd = nodes[h];
        match nd.data {
            NodeData::Document => {
                if nd.children@.len() == 0 {
                    Err(TransformError::MissingChild(h as Handle))
                } else {
                    spec_process(nodes, nd.children@[0] as int, (fuel - 1) as nat)
                }
            },
            NodeData::Doctype { .. } => Err(TransformError::Doctype(h as Handle)),
            NodeData::Comment { .. } => Err(TransformError::Comment(h as Handle)),
            NodeData::ProcessingInstruction { .. } => Err(
                TransformError::ProcessingInstruction(h as Handle),
            ),
            NodeData::Text { contents } => {
                if is_blank(contents@) {
                    Ok(None)
                } else {
                    Ok(Some(DocView::Text(contents@)))
                }
            },
            NodeData::Element { name, .. } => {
                if name@ == "html"@ {
                    if nd.children@.len() < 2 {
                        Err(TransformError::MissingChild(h as Handle))
                    } else {
                        match spec_process(nodes, nd.children@[1] as int, (fuel - 1) as nat) {
                            Ok(Some(v)) => Ok(Some(v)),
                            Ok(None) => Err(TransformError::NoContent(h as Handle)),
                            Err(e) => Err(e),
                        }
                    }
                } else if name@ == "i"@ {
                    Ok(Some(DocView::Italics(spec_leaf_text(nodes, nd.children@))))
                } else if name@ == "b"@ {
                    Ok(Some(DocView::Bold(spec_leaf_text(nodes, nd.children@))))
                } else if name@ == "br"@ {
                    Ok(Some(DocView::Br))
                } else if is_container_tag(name@) {
                    match spec_kids(nodes, nd.children@, (fuel - 1) as nat) {
                        Ok(ks) => Ok(Some(container_view(name@, ks))),
                        Err(e) => Err(e),
                    }
                } else {
                    Err(TransformError::UnsupportedTag(h as Handle))
                }
            },
        }
    }
}

/// What the transformer produces for a list of child nodes: the results of
/// the children in order, elided children skipped, the first error kept.
pub open spec fn spec_kids(nodes: Seq<Node>, cs: Seq<Handle>, fuel: nat) -> Result<
    Seq<DocView>,
    TransformError,
>
    decreases fuel, 1int, cs.len(),
{
    if cs.len() == 0 {
        Ok(Seq::empty())
    } else {
        match spec_process(nodes, cs[0] as int, fuel) {
            Err(e) => Err(e),
            Ok(opt) => {
                match spec_kids(nodes, cs.drop_first(), fuel) {
                    Err(e) => Err(e),
                    Ok(rest) => Ok(
                        (match opt {
                            Some(v) => seq![v],
                            None => Seq::empty(),
                        }) + rest,
                    ),
                }
            },
        }
    }
}

/// A chain of parent links from the document root down to node `h`, with no
/// node repeated. Because every node has at most one parent, such a chain
/// can never be longer than the arena itself.
pub open spec fn valid_path(dom: Dom, path: Seq<int>, h: int) -> bool {
    &&& path.len() > 0
    &&& path[0] == 0
    &&& path.last() == h
    &&& path.no_duplicates()
    &&& (forall|j: int| 0 <= j < path.len() ==> 0 <= #[trigger] path[j] < dom.n())
    &&& (forall|j: int|
        0 < j < path.len() ==> dom.parent_of(#[trigger] path[j]) == Some(
            path[j - 1] as Handle,
        ))
}

/// A valid path in a well-formed DOM repeats no node, so it is never longer
/// than the arena.
proof fn lemma_path_len(dom: Dom, path: Seq<int>, h: int)
    requires
        valid_path(dom, path, h),
    ensures
        path.len() <= dom.n(),
{
    broadcast use vstd::set::group_set_axioms;

    path.unique_seq_to_set();
    assert(path.to_set().subset_of(vstd::set_lib::set_int_range(0, dom.n())));
    vstd::set_lib::lemma_int_range(0, dom.n());
    vstd::set_lib::lemma_len_subset(path.to_set(), vstd::set_lib::set_int_range(0, dom.n()));
}

/// A valid path to a node extends to a valid path to any of that node's
/// children: the child cannot already stand on the path, because each node
/// on the path other than the root is reached over its unique parent.
proof fn lemma_path_extend(dom: Dom, path: Seq<int>, h: int, c: int)
    requires
        dom.wf(),
        valid_path(dom, path, h),
        0 <= c < dom.n(),
        dom.parent_of(c) == Some(h as Handle),
    ensures
        valid_path(dom, path.push(c), c),
        path.len() + 1 <= dom.n(),
{
    assert(dom.n() <= usize::MAX as int) by {
        vstd::std_specs::vec::axiom_spec_len(&dom.nodes);
    }
    let p2 = path.push(c);
    assert forall|j: int| 0 <= j < path.len() implies path[j] != c by {
        if path[j] == c {
            if j == 0 {
                assert(dom.parent_of(0) is None);
            } else {
                assert(dom.parent_of(path[j]) == Some(path[j - 1] as Handle));
                assert(path[j - 1] == h);
                assert(path[path.len() - 1] == h);
                assert(j - 1 < path.len() - 1);
            }
        }
    }
    assert(p2.no_duplicates());
    assert(p2[0] == 0);
    assert(p2.last() == c);
    assert forall|j: int| 0 < j < p2.len() implies dom.parent_of(#[trigger] p2[j]) == Some(
        p2[j - 1] as Handle,
    ) by {
        if j < path.len() {
            assert(p2[j] == path[j] && p2[j - 1] == path[j - 1]);
        } else {
            assert(p2[j] == c && p2[j - 1] == path.last());
        }
    }
    lemma_path_len(dom, p2, c);
}

/// The mathematical shape of a transform result.
pub open spec fn result_view(r: Result<Option<SpellDescriptionStruct>, TransformError>) -> Result<
    Option<DocView>,
    TransformError,
> {
    match r {
        Ok(Some(v)) => Ok(Some(sds_view(v))),
        Ok(None) => Ok(None),
        Err(e) => Err(e),
    }
}

/// The mathematical shape of a child-list result.
pub open spec fn kids_view(r: Result<Vec<SpellDescriptionStruct>, TransformError>) -> Result<
    Seq<DocView>,
    TransformError,
> {
    match r {
        Ok(v) => Ok(seq_doc_view(v@)),
        Err(e) => Err(e),
    }
}

/// The text child of an italics or bold element, degraded to the empty
/// string when the first child is missing or is not a text node.
fn leaf_text(dom: &Dom, h: Handle) -> (r: String)
    requires
        dom.wf(),
        h < dom.n(),
    ensures
        r@ == spec_leaf_text(dom.nodes@, dom.children_of(h as int)),
{
    let clen = dom.nodes[h].children.len();
    if clen >= 1 {
        let c0 = dom.nodes[h].children[0];
        proof {
            assert(dom.wf_node(h as int));
        }
        match &dom.nodes[c0].data {
            NodeData::Text { contents } => contents.clone(),
            _ => String::new(),
        }
    } else {
        String::new()
    }
}

/// Transform one DOM node, carrying the ghost path from the root that
/// bounds the recursion depth.
fn process_node(dom: &Dom, h: Handle, path: Ghost<Seq<int>>) -> (r: Result<
    Option<SpellDescriptionStruct>,
    TransformError,
>)
    requires
        dom.wf(),
        valid_path(*dom, path@, h as int),
    ensures
        result_view(r) == spec_process(dom.nodes@, h as int, (dom.n() + 1 - path@.len()) as nat),
    decreases dom.n() - path@.len(), 1int,
{
    proof {
        lemma_path_len(*dom, path@, h as int);
    }
    let ghost fuel = (dom.n() + 1 - path@.len()) as nat;
    proof {
        assert(fuel >= 1);
    }
    match &dom.nodes[h].data {
        NodeData::Document => {
            let clen = dom.nodes[h].children.len();
            if clen == 0 {
                Err(TransformError::MissingChild(h))
            } else {
                let c = dom.nodes[h].children[0];
                proof {
                    assert(dom.wf_node(h as int));
                    lemma_path_extend(*dom, path@, h as int, c as int);
                }
                process_node(dom, c, Ghost(path@.push(c as int)))
            }
        },
        NodeData::Doctype { .. } => Err(TransformError::Doctype(h)),
        NodeData::Comment { .. } => Err(TransformError::Comment(h)),
        NodeData::ProcessingInstruction { .. } => Err(TransformError::ProcessingInstruction(h)),
        NodeData::Text { contents } => {
            if str_is_blank(contents.as_str()) {
                Ok(None)
            } else {
                Ok(Some(SpellDescriptionStruct::Text(contents.clone())))
            }
        },
        NodeData::Element { name, .. } => {
            if str_eq(name.as_str(), "html") {
                let clen = dom.nodes[h].children.len();
                if clen < 2 {
                    Err(TransformError::MissingChild(h))
                } else {
                    let c = dom.nodes[h].children[1];
                    proof {
                        assert(dom.wf_node(h as int));
                        lemma_path_extend(*dom, path@, h as int, c as int);
                    }
                    match process_node(dom, c, Ghost(path@.push(c as int))) {
                        Ok(Some(v)) => Ok(Some(v)),
                        Ok(None) => Err(TransformError::NoContent(h)),
                        Err(e) => Err(e),
                    }
                }
            } else if str_eq(name.as_str(), "i") {
                Ok(Some(SpellDescriptionStruct::Italics(leaf_text(dom, h))))
            } else if str_eq(name.as_str(), "b") {
                Ok(Some(SpellDescriptionStruct::Bold(leaf_text(dom, h))))
            } else if str_eq(name.as_str(), "br") {
                Ok(Some(SpellDescriptionStruct::Br))
            } else if str_eq(name.as_str(), "body") {
                match process_children(dom, h, path) {
                    Ok(ks) => Ok(Some(SpellDescriptionStruct::Body(ks))),
                    Err(e) => Err(e),
                }
            } else if str_eq(name.as_str(), "p") {
                match process_children(dom, h, path) {
                    Ok(ks) => Ok(Some(SpellDescriptionStruct::Paragraph(ks))),
                    Err(e) => Err(e),
                }
            } else if str_eq(name.as_str(), "caption") {
                match process_children(dom, h, path) {
                    Ok(ks) => Ok(Some(SpellDescriptionStruct::Caption(ks))),
                    Err(e) => Err(e),
                }
            } else if str_eq(name.as_str(), "sup") {
                match process_children(dom, h, path) {
                    Ok(ks) => Ok(Some(SpellDescriptionStruct::Sup(ks))),
                    Err(e) => Err(e),
                }
            } else if str_eq(name.as_str(), "ul") {
                match process_children(dom, h, path) {
                    Ok(ks) => Ok(Some(SpellDescriptionStruct::Listing(ks))),
                    Err(e) => Err(e),
                }
            } else if str_eq(name.as_str(), "li") {
                match process_children(dom, h, path) {
                    Ok(ks) => Ok(Some(SpellDescriptionStruct::Line(ks))),
                    Err(e) => Err(e),
                }
            } else if str_eq(name.as_str(), "table") {
                match process_children(dom, h, path) {
                    Ok(ks) => Ok(Some(SpellDescriptionStruct::Table(ks))),
                    Err(e) => Err(e),
                }
            } else if str_eq(name.as_str(), "tbody") {
                match process_children(dom, h, path) {
                    Ok(ks) => Ok(Some(SpellDescriptionStruct::Tbody(ks))),
                    Err(e) => Err(e),
                }
            } else if str_eq(name.as_str(), "thead") {
                match process_children(dom, h, path) {
                    Ok(ks) => Ok(Some(SpellDescriptionStruct::Thead(ks))),
                    Err(e) => Err(e),
                }
            } else if str_eq(name.as_str(), "tfoot") {
                match process_children(dom, h, path) {
                    Ok(ks) => Ok(Some(SpellDescriptionStruct::Tfoot(ks))),
                    Err(e) => Err(e),
                }
            } else if str_eq(name.as_str(), "tr") {
                match process_children(dom, h, path) {
                    Ok(ks) => Ok(Some(SpellDescriptionStruct::Row(ks))),
                    Err(e) => Err(e),
                }
            } else if str_eq(name.as_str(), "th") {
                match process_children(dom, h, path) {
                    Ok(ks) => Ok(Some(SpellDescriptionStruct::Header(ks))),
                    Err(e) => Err(e),
                }
            } else if str_eq(name.as_str(), "td") {
                match process_children(dom, h, path) {
                    Ok(ks) => Ok(Some(SpellDescriptionStruct::Cell(ks))),
                    Err(e) => Err(e),
                }
            } else {
                Err(TransformError::UnsupportedTag(h))
            }
        },
    }
}

/// Transform the children of one DOM node, in order, dropping elided
/// children and stopping at the first error.
fn process_children(dom: &Dom, h: Handle, path: Ghost<Seq<int>>) -> (r: Result<
    Vec<SpellDescriptionStruct>,
    TransformError,
>)
    requires
        dom.wf(),
        valid_path(*dom, path@, h as int),
    ensures
        kids_view(r) == spec_kids(
            dom.nodes@,
            dom.children_of(h as int),
            (dom.n() - path@.len()) as nat,
        ),
    decreases dom.n() - path@.len(), 0int,
{
    let ghost fuel = (dom.n() - path@.len()) as nat;
    let ghost cs = dom.children_of(h as int);
    let mut acc: Vec<SpellDescriptionStruct> = Vec::new();
    let clen = dom.nodes[h].children.len();
    proof {
        assert(cs.subrange(0, clen as int) =~= cs);
        assert(seq_doc_view(acc@) =~= Seq::<DocView>::empty());
        assert(forall|rest: Seq<DocView>| seq_doc_view(acc@) + rest =~= rest);
    }
    let mut k: usize = 0;
    while k < clen
        invariant
            dom.wf(),
            valid_path(*dom, path@, h as int),
            0 <= (h as int) < dom.n(),
            fuel == (dom.n() - path@.len()) as nat,
            cs == dom.children_of(h as int),
            clen == cs.len(),
            k <= clen,
            spec_kids(dom.nodes@, cs, fuel) == (match spec_kids(
                dom.nodes@,
                cs.subrange(k as int, clen as int),
                fuel,
            ) {
                Ok(rest) => Ok::<Seq<DocView>, TransformError>(seq_doc_view(acc@) + rest),
                Err(e) => Err::<Seq<DocView>, TransformError>(e),
            }),
        decreases clen - k,
    {
        let c = dom.nodes[h].children[k];
        proof {
            assert(dom.wf_node(h as int));
            lemma_path_extend(*dom, path@, h as int, c as int);
        }
        let ghost tail = cs.subrange(k as int, clen as int);
        proof {
            assert(tail[0] == cs[k as int]);
            assert(tail.drop_first() =~= cs.subrange(k as int + 1, clen as int));
        }
        let sub = process_node(dom, c, Ghost(path@.push(c as int)));
        match sub {
            Err(e) => {
                proof {
                    assert(spec_kids(dom.nodes@, cs, fuel) == Err::<Seq<DocView>, TransformError>(
                        e,
                    ));
                }
                return Err(e);
            },
            Ok(item) => {
                let ghost old_acc = acc@;
                match item {
                    None => {
                        proof {
                            assert forall|rest: Seq<DocView>|
                                Seq::<DocView>::empty() + rest =~= rest by {}
                        }
                    },
                    Some(v) => {
                        acc.push(v);
                        proof {
                            assert(acc@.drop_last() =~= old_acc);
                            assert(acc@.last() == v);
                            assert(seq_doc_view(acc@) == seq_doc_view(old_acc).push(sds_view(v)));
                            assert forall|rest: Seq<DocView>|
                                seq_doc_view(old_acc) + (seq![sds_view(v)] + rest) =~= seq_doc_view(
                                    acc@,
                                ) + rest by {}
                        }
                    },
                }
            },
        }
        k += 1;
    }
    proof {
        assert(cs.subrange(clen as int, clen as int) =~= Seq::<Handle>::empty());
        assert(seq_doc_view(acc@) + Seq::<DocView>::empty() =~= seq_doc_view(acc@));
    }
    Ok(acc)
}

/// Reduce a well-formed DOM, from its document root, to one document tree.
/// The result is `Ok` exactly when the whole fragment lies inside the
/// supported vocabulary and reduces to some content; every failure
/// identifies the offending node.
pub fn process_dom(dom: &Dom) -> (r: Result<SpellDescriptionStruct, TransformError>)
    requires
        dom.wf(),
    ensures
        ({
            let s = spec_process(dom.nodes@, 0, dom.n() as nat);
            match r {
                Ok(v) => s == Ok::<Option<DocView>, TransformError>(Some(sds_view(v))),
                Err(e) => s == Err::<Option<DocView>, TransformError>(e) || (s == Ok::<
                    Option<DocView>,
                    TransformError,
                >(None) && e == TransformError::NoContent(0)),
            }
        }),
{
    let ghost root_path: Seq<int> = seq![0int];
    proof {
        assert(valid_path(*dom, root_path, 0));
    }
    match process_node(dom, 0, Ghost(root_path)) {
        Ok(Some(v)) => Ok(v),
        Ok(None) => Err(TransformError::NoContent(0)),
        Err(e) => Err(e),
    }
}

/// Whitespace elision: a text node of nothing but whitespace is dropped
/// from the output, and any other text node becomes a `Text` leaf holding
/// exactly its text, unchanged.
pub proof fn lemma_whitespace_elision(nodes: Seq<Node>, h: int, fuel: nat)
    requires
        nodes[h].data is Text,
        fuel >= 1,
    ensures
        spec_process(nodes, h, fuel) == (if is_blank(text_of(nodes[h].data)) {
            Ok::<Option<DocView>, TransformError>(None)
        } else {
            Ok::<Option<DocView>, TransformError>(Some(DocView::Text(text_of(nodes[h].data))))
        }),
{
}

/// The supported tag names are pairwise distinct from one another and from
/// the four specially handled tags.
proof fn lemma_tags_concrete()
    ensures
        "html"@ != "body"@ && "i"@ != "body"@ && "b"@ != "body"@ && "br"@ != "body"@,
        forall|name: Seq<char>|
            is_container_tag(name) ==> name != "html"@ && name != "i"@ && name != "b"@ && name
                != "br"@,
{
    reveal_strlit("html");
    reveal_strlit("i");
    reveal_strlit("b");
    reveal_strlit("br");
    reveal_strlit("body");
    reveal_strlit("p");
    reveal_strlit("caption");
    reveal_strlit("sup");
    reveal_strlit("ul");
    reveal_strlit("li");
    reveal_strlit("table");
    reveal_strlit("tbody");
    reveal_strlit("thead");
    reveal_strlit("tfoot");
    reveal_strlit("tr");
    reveal_strlit("th");
    reveal_strlit("td");
    assert("html"@.len() == 4 && "html"@[0] == 'h');
    assert("i"@.len() == 1 && "i"@[0] == 'i');
    assert("b"@.len() == 1 && "b"@[0] == 'b');
    assert("br"@.len() == 2 && "br"@[0] == 'b');
    assert("body"@.len() == 4 && "body"@[0] == 'b');
    assert("p"@.len() == 1 && "p"@[0] == 'p');
    assert("caption"@.len() == 7);
    assert("sup"@.len() == 3);
    assert("ul"@.len() == 2 && "ul"@[0] == 'u');
    assert("li"@.len() == 2 && "li"@[0] == 'l');
    assert("table"@.len() == 5 && "table"@[0] == 't');
    assert("tbody"@.len() == 5 && "tbody"@[0] == 't');
    assert("thead"@.len() == 5 && "thead"@[0] == 't');
    assert("tfoot"@.len() == 5 && "tfoot"@[0] == 't');
    assert("tr"@.len() == 2 && "tr"@[0] == 't');
    assert("th"@.len() == 2 && "th"@[0] == 't');
    assert("td"@.len() == 2 && "td"@[0] == 't');
}

/// Tag mapping totality: transforming an element with any of the supported
/// container tags yields exactly that tag's variant, holding the children's
/// results in their original order.
pub proof fn lemma_tag_mapping(nodes: Seq<Node>, h: int, fuel: nat)
    requires
        nodes[h].data is Element,
        is_container_tag(elem_name_of(nodes[h].data)),
        fuel >= 1,
    ensures
        spec_process(nodes, h, fuel) == (match spec_kids(
            nodes,
            nodes[h].children@,
            (fuel - 1) as nat,
        ) {
            Ok(ks) => Ok::<Option<DocView>, TransformError>(
                Some(container_view(elem_name_of(nodes[h].data), ks)),
            ),
            Err(e) => Err::<Option<DocView>, TransformError>(e),
        }),
{
    lemma_tags_concrete();
}

/// Bold and italics degradation: an `i` or `b` element without a leading
/// text child degrades to the empty string instead of failing.
pub proof fn lemma_leaf_degradation(nodes: Seq<Node>, h: int, fuel: nat)
    requires
        nodes[h].data is Element,
        elem_name_of(nodes[h].data) == "i"@ || elem_name_of(nodes[h].data) == "b"@,
        nodes[h].children@.len() == 0 || !(nodes[nodes[h].children@[0] as int].data is Text),
        fuel >= 1,
    ensures
        spec_process(nodes, h, fuel) == Ok::<Option<DocView>, TransformError>(
            Some(
                if elem_name_of(nodes[h].data) == "i"@ {
                    DocView::Italics(Seq::empty())
                } else {
                    DocView::Bold(Seq::empty())
                },
            ),
        ),
{
    lemma_tags_concrete();
    reveal_strlit("html");
    reveal_strlit("i");
    reveal_strlit("b");
    assert("html"@.len() == 4);
    assert("i"@.len() == 1 && "i"@[0] == 'i');
    assert("b"@.len() == 1 && "b"@[0] == 'b');
}

/// Unknown tags are fatal: an element whose tag lies outside the supported
/// vocabulary transforms to an error naming it, never to silence.
pub proof fn lemma_unknown_tag_fatal(nodes: Seq<Node>, h: int, fuel: nat)
    requires
        nodes[h].data is Element,
        !is_container_tag(elem_name_of(nodes[h].data)),
        elem_name_of(nodes[h].data) != "html"@,
        elem_name_of(nodes[h].data) != "i"@,
        elem_name_of(nodes[h].data) != "b"@,
        elem_name_of(nodes[h].data) != "br"@,
        fuel >= 1,
    ensures
        spec_process(nodes, h, fuel) == Err::<Option<DocView>, TransformError>(
            TransformError::UnsupportedTag(h as Handle),
        ),
{
}

impl PartialEq for SpellDescriptionStruct {
    /// Structural equality of document trees, down to their text.
    fn eq(&self, other: &Self) -> (r: bool)
        decreases self, 0int,
    {
        match (self, other) {
            (SpellDescriptionStruct::Body(a), SpellDescriptionStruct::Body(b)) => eq_children(a, b),
            (
                SpellDescriptionStruct::Paragraph(a),
                SpellDescriptionStruct::Paragraph(b),
            ) => eq_children(a, b),
            (SpellDescriptionStruct::Caption(a), SpellDescriptionStruct::Caption(b)) => eq_children(
                a,
                b,
            ),
            (SpellDescriptionStruct::Italics(a), SpellDescriptionStruct::Italics(b)) => *a == *b,
            (SpellDescriptionStruct::Bold(a), SpellDescriptionStruct::Bold(b)) => *a == *b,
            (SpellDescriptionStruct::Sup(a), SpellDescriptionStruct::Sup(b)) => eq_children(a, b),
            (SpellDescriptionStruct::Br, SpellDescriptionStruct::Br) => true,
            (SpellDescriptionStruct::Listing(a), SpellDescriptionStruct::Listing(b)) => eq_children(
                a,
                b,
            ),
            (SpellDescriptionStruct::Line(a), SpellDescriptionStruct::Line(b)) => eq_children(a, b),
            (SpellDescriptionStruct::Table(a), SpellDescriptionStruct::Table(b)) => eq_children(
                a,
                b,
            ),
            (SpellDescriptionStruct::Tbody(a), SpellDescriptionStruct::Tbody(b)) => eq_children(
                a,
                b,
            ),
            (SpellDescriptionStruct::Thead(a), SpellDescriptionStruct::Thead(b)) => eq_children(
                a,
                b,
            ),
            (SpellDescriptionStruct::Tfoot(a), SpellDescriptionStruct::Tfoot(b)) => eq_children(
                a,
                b,
            ),
            (SpellDescriptionStruct::Row(a), SpellDescriptionStruct::Row(b)) => eq_children(a, b),
            (SpellDescriptionStruct::Header(a), SpellDescriptionStruct::Header(b)) => eq_children(
                a,
                b,
            ),
            (SpellDescriptionStruct::Cell(a), SpellDescriptionStruct::Cell(b)) => eq_children(a, b),
            (SpellDescriptionStruct::Text(a), SpellDescriptionStruct::Text(b)) => *a == *b,
            _ => false,
        }
    }
}

impl vstd::std_specs::cmp::PartialEqSpecImpl for SpellDescriptionStruct {
    open spec fn obeys_eq_spec() -> bool {
        true
    }

    open spec fn eq_spec(&self, other: &Self) -> bool {
        sds_view(*self) == sds_view(*other)
    }
}

/// Are two child lists structurally equal, element by element?
fn eq_children(a: &Vec<SpellDescriptionStruct>, b: &Vec<SpellDescriptionStruct>) -> (r: bool)
    ensures
        r == (seq_doc_view(a@) == seq_doc_view(b@)),
    decreases a, 1int,
{
    proof {
        lemma_seq_doc_view(a@);
        lemma_seq_doc_view(b@);
    }
    if a.len() != b.len() {
        return false;
    }
    let mut i: usize = 0;
    while i < a.len()
        invariant
            a@.len() == b@.len(),
            i <= a@.len(),
            forall|j: int| 0 <= j < i ==> sds_view(#[trigger] a@[j]) == sds_view(b@[j]),
        decreases a@.len() - i,
    {
        proof {
            assert(decreases_to!(*a => a@));
            assert(decreases_to!(a@ => a@[i as int]));
        }
        let same = a[i] == b[i];
        if !same {
            proof {
                lemma_seq_doc_view(a@);
                lemma_seq_doc_view(b@);
                assert(seq_doc_view(a@)[i as int] != seq_doc_view(b@)[i as int]);
            }
            return false;
        }
        i += 1;
    }
    proof {
        lemma_seq_doc_view(a@);
        lemma_seq_doc_view(b@);
        assert forall|j: int|
            0 <= j < seq_doc_view(a@).len() implies seq_doc_view(a@)[j] == seq_doc_view(b@)[j] by {
            assert(sds_view(a@[j]) == sds_view(b@[j]));
        }
        assert(seq_doc_view(a@) =~= seq_doc_view(b@));
    }
    true
}

} // verus!
