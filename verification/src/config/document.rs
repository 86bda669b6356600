//! KDL documents as the configuration reads them: nodes with a name, entries
//! and children.
//!
//! The `kdl` crate parses the text. What the logic reads of its document is
//! taken over into the types here, one for one.

use kdl::KdlValue::{Bool, Float, Integer, Null, String as Text};
use vstd::prelude::*;

use crate::config::bounds::{bounds_fault, check_bounds};
use crate::config::plain::{hand_over, handed, tangled_line};
use crate::error::{fault_views, ConfigError, ConfigErrorView, KdlFault, KdlFaultView};
use crate::text::maybe;

verus! {

/// What an entry holds, as far as a configuration tells values apart.
#[derive(Debug, PartialEq, Eq)]
pub enum Scalar {
    Text(String),
    Integer(i128),
    Bool(bool),
    /// A floating point number or `#null`, which no node takes.
    Other,
}

/// Model of a [`Scalar`].
pub enum ScalarView {
    Text(Seq<char>),
    Integer(i128),
    Bool(bool),
    Other,
}

impl View for Scalar {
    type V = ScalarView;

    open spec fn view(&self) -> ScalarView {
        match self {
            Scalar::Text(s) => ScalarView::Text(s@),
            Scalar::Integer(n) => ScalarView::Integer(*n),
            Scalar::Bool(b) => ScalarView::Bool(*b),
            Scalar::Other => ScalarView::Other,
        }
    }
}

/// One argument (without a name) or property (with one) of a node.
#[derive(Debug, PartialEq, Eq)]
pub struct Entry {
    pub name: Option<String>,
    /// Whether the value carries a type annotation.
    pub typed: bool,
    pub value: Scalar,
}

/// Model of an [`Entry`].
pub struct EntryView {
    pub name: Option<Seq<char>>,
    pub typed: bool,
    pub value: ScalarView,
}

impl View for Entry {
    type V = EntryView;

    open spec fn view(&self) -> EntryView {
        EntryView { name: maybe(self.name), typed: self.typed, value: self.value@ }
    }
}

/// The models of a list of entries.
pub open spec fn entries_view(entries: Seq<Entry>) -> Seq<EntryView> {
    Seq::new(entries.len(), |i: int| entries[i]@)
}

/// One node.
#[derive(Debug, PartialEq, Eq)]
pub struct Node {
    pub name: String,
    /// Whether the node carries a type annotation.
    pub typed: bool,
    pub entries: Vec<Entry>,
    /// The nodes between its braces, where it has braces.
    pub children: Option<Vec<Node>>,
    /// Where the node begins in the text, counting bytes.
    pub offset: usize,
}

/// Model of a [`Node`].
pub struct NodeView {
    pub name: Seq<char>,
    pub typed: bool,
    pub entries: Seq<EntryView>,
    pub children: Option<Seq<NodeView>>,
    pub offset: nat,
}

/// The model of a node.
pub open spec fn node_view(n: Node) -> NodeView
    decreases n,
{
    NodeView {
        name: n.name@,
        typed: n.typed,
        entries: entries_view(n.entries@),
        children: match n.children {
            None => None,
            Some(nodes) => Some(
                Seq::new(
                    nodes@.len(),
                    |i: int|
                        if 0 <= i < nodes@.len() {
                            node_view(nodes[i])
                        } else {
                            arbitrary()
                        },
                ),
            ),
        },
        offset: n.offset as nat,
    }
}

impl View for Node {
    type V = NodeView;

    open spec fn view(&self) -> NodeView {
        node_view(*self)
    }
}

/// The models of a list of nodes.
pub open spec fn node_views(nodes: Seq<Node>) -> Seq<NodeView> {
    Seq::new(nodes.len(), |i: int| node_view(nodes[i]))
}

/// What a node's model holds, over the lists its parts are stored in.
pub broadcast proof fn lemma_node_view(n: Node)
    ensures
        (#[trigger] node_view(n)).children == match n.children {
            None => None,
            Some(nodes) => Some(node_views(nodes@)),
        },
{
    if let Some(nodes) = n.children {
        assert(node_view(n).children->Some_0 =~= node_views(nodes@));
    }
}

/// Whether nodes begin one after the other.
pub open spec fn in_order(nodes: Seq<NodeView>) -> bool {
    forall|i: int, j: int|
        #![trigger nodes[i], nodes[j]]
        0 <= i < j < nodes.len() ==> nodes[i].offset <= nodes[j].offset
}

/// A document of the `kdl` crate.
#[verifier::external_type_specification]
#[verifier::external_body]
pub struct ExKdlDocument(kdl::KdlDocument);

/// What the `kdl` crate says of a text it cannot parse.
#[verifier::external_type_specification]
#[verifier::external_body]
pub struct ExKdlError(kdl::KdlError);

/// The nodes a document holds.
pub uninterp spec fn document_nodes(doc: kdl::KdlDocument) -> Seq<NodeView>;

/// The faults an error holds.
pub uninterp spec fn error_faults(error: kdl::KdlError) -> Seq<KdlFaultView>;

/// The nodes of the KDL document a text is, or what is wrong with it.
pub uninterp spec fn kdl_nodes(text: Seq<char>) -> Result<Seq<NodeView>, Seq<KdlFaultView>>;

/// Whether a text is what is handed over of one within the bounds.
pub open spec fn within_bounds(given: Seq<char>) -> bool {
    exists|text: Seq<char>| given == #[trigger] handed(text) && bounds_fault(text) is None
}

/// `kdl::KdlDocument::parse`: the document a text is, or the error. Which
/// nodes the document has, and which faults the error holds, depends on the
/// text alone, and its nodes begin one after the other in the text. It
/// recurses into `{`, into the `/-` of entries, over the `*` and `/` of block
/// comments, and over the document again behind what it can make nothing of;
/// only what is handed over of a text within the bounds, which keep all four
/// in the stack, may be handed to it.
#[verifier::external_body]
fn kdl_parse(text: &str) -> (r: Result<kdl::KdlDocument, kdl::KdlError>)
    requires
        within_bounds(text@),
    ensures
        match r {
            Ok(doc) => kdl_nodes(text@) == Ok::<Seq<NodeView>, Seq<KdlFaultView>>(
                document_nodes(doc),
            ) && in_order(document_nodes(doc)),
            Err(e) => kdl_nodes(text@) == Err::<Seq<NodeView>, Seq<KdlFaultView>>(error_faults(e)),
        },
{
    kdl::KdlDocument::parse(text)
}

/// `kdl::KdlDocument::nodes`, with each node taken over into the types of
/// this module: its name, its entries in order, its children and where it
/// begins.
#[verifier::external_body]
fn nodes_of(doc: &kdl::KdlDocument) -> (r: Vec<Node>)
    ensures
        node_views(r@) == document_nodes(*doc),
{
    doc.nodes().iter().map(|n| Node {
        name: n.name().value().to_owned(), typed: n.ty().is_some(), offset: n.span().offset(),
        children: n.children().map(nodes_of),
        entries: n.iter().map(|e| Entry {
            name: e.name().map(|n| n.value().to_owned()), typed: e.ty().is_some(),
            value: match e.value() {
                Text(s) => Scalar::Text(s.clone()),
                Integer(i) => Scalar::Integer(*i),
                Bool(b) => Scalar::Bool(*b),
                Float(_) => Scalar::Other,
                Null => Scalar::Other
            }
        }).collect()
    }).collect()
}

/// `kdl::KdlError::diagnostics`, with each diagnostic's place and message.
#[verifier::external_body]
fn faults_of(error: &kdl::KdlError) -> (r: Vec<KdlFault>)
    ensures
        fault_views(r@) == error_faults(*error),
{
    error.diagnostics.iter().map(
        |d| KdlFault { offset: d.span.offset(), message: d.message.clone() },
    ).collect()
}

/// The nodes of a document, from what the parser makes of what it is handed of
/// the text: where that is not all of it, they are not all of the nodes.
pub open spec fn document_of(
    text: Seq<char>,
    parsed: Result<Seq<NodeView>, Seq<KdlFaultView>>,
) -> Result<Seq<NodeView>, ConfigErrorView> {
    match bounds_fault(text) {
        Some(e) => Err(e),
        None => match parsed {
            Ok(nodes) => match tangled_line(text) {
                Some(line) => Err(ConfigErrorView::Tangled { line: line as u32 }),
                None => Ok(nodes),
            },
            Err(faults) => Err(ConfigErrorView::Parse(faults)),
        },
    }
}

/// Parse KDL text through the bounds there are on the parser. Every
/// configuration is parsed here.
pub fn parse_document(text: &str) -> (r: Result<Vec<Node>, ConfigError>)
    ensures
        match r {
            Ok(nodes) => document_of(text@, kdl_nodes(handed(text@))) == Ok::<
                Seq<NodeView>,
                ConfigErrorView,
            >(node_views(nodes@)) && in_order(node_views(nodes@)),
            Err(e) => document_of(text@, kdl_nodes(handed(text@))) == Err::<
                Seq<NodeView>,
                ConfigErrorView,
            >(e@),
        },
{
    match check_bounds(text) {
        Ok(()) => {},
        Err(e) => {
            return Err(e);
        },
    }
    let (given, cut) = hand_over(text);
    match kdl_parse(&given) {
        Ok(doc) => match cut {
            Some(line) => Err(ConfigError::Tangled { line }),
            None => Ok(nodes_of(&doc)),
        },
        Err(e) => Err(ConfigError::Parse(faults_of(&e))),
    }
}

} // verus!
