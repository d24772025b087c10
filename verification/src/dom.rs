//! A parsed page as a flat list: its nodes in document order, each with its
//! depth. What lies below a node is the run of deeper nodes that follows it.
//! Every list of nodes is a page in this reading, so the type has no invariant.

use crate::text::optional_view;
use vstd::prelude::*;

verus! {

/// One node of a page.
#[derive(Debug, Clone, PartialEq, Eq)]
pub enum Node {
    /// An element with its tag name and its `class` and `id` attributes, where present.
    Element { depth: usize, tag: String, class: Option<String>, id: Option<String> },
    /// A run of text.
    Text { depth: usize, text: String },
    /// Anything else: the document root, a comment, a doctype.
    Other { depth: usize },
}

/// A page: its nodes in document order.
#[derive(Debug, Clone, PartialEq, Eq)]
pub struct Document {
    pub nodes: Vec<Node>,
}

/// What a `Node` stands for.
pub ghost enum NodeModel {
    Element { depth: nat, tag: Seq<char>, class: Option<Seq<char>>, id: Option<Seq<char>> },
    Text { depth: nat, text: Seq<char> },
    Other { depth: nat },
}

impl NodeModel {
    /// How many ancestors the node has.
    pub open spec fn depth(self) -> nat {
        match self {
            NodeModel::Element { depth, .. } => depth,
            NodeModel::Text { depth, .. } => depth,
            NodeModel::Other { depth } => depth,
        }
    }
}

impl View for Node {
    type V = NodeModel;

    open spec fn view(&self) -> NodeModel {
        match *self {
            Node::Element { depth, tag, class, id } => NodeModel::Element {
                depth: depth as nat,
                tag: tag@,
                class: optional_view(class),
                id: optional_view(id),
            },
            Node::Text { depth, text } => NodeModel::Text { depth: depth as nat, text: text@ },
            Node::Other { depth } => NodeModel::Other { depth: depth as nat },
        }
    }
}

impl View for Document {
    type V = Seq<NodeModel>;

    open spec fn view(&self) -> Seq<NodeModel> {
        self.nodes@.map_values(|n: Node| n@)
    }
}

/// The first index at or after `from` whose node is no deeper than `depth`,
/// or the length of `d` where there is none.
pub open spec fn run_end(d: Seq<NodeModel>, depth: nat, from: int) -> int
    decreases d.len() - from,
{
    if 0 <= from < d.len() && d[from].depth() > depth {
        run_end(d, depth, from + 1)
    } else {
        from
    }
}

/// The index just after the subtree of node `i`.
pub open spec fn subtree_end(d: Seq<NodeModel>, i: int) -> int {
    run_end(d, d[i].depth(), i + 1)
}

/// `run_end` stops at the first node that is no deeper than `depth`.
pub proof fn lemma_run_end(d: Seq<NodeModel>, depth: nat, from: int)
    requires
        0 <= from <= d.len(),
    ensures
        from <= run_end(d, depth, from) <= d.len(),
        forall|k: int| from <= k < run_end(d, depth, from) ==> (#[trigger] d[k]).depth() > depth,
        run_end(d, depth, from) < d.len() ==> d[run_end(d, depth, from)].depth() <= depth,
    decreases d.len() - from,
{
    if from < d.len() && d[from].depth() > depth {
        lemma_run_end(d, depth, from + 1);
    }
}

/// A run of deeper nodes from `from` to `to` does not change where the run ends.
pub proof fn lemma_run_end_step(d: Seq<NodeModel>, depth: nat, from: int, to: int)
    requires
        0 <= from <= to <= d.len(),
        forall|k: int| from <= k < to ==> (#[trigger] d[k]).depth() > depth,
    ensures
        run_end(d, depth, from) == run_end(d, depth, to),
    decreases to - from,
{
    if from < to {
        lemma_run_end_step(d, depth, from + 1, to);
    }
}

/// A subtree is not empty of its own node, and lies within the document.
pub proof fn lemma_subtree_end(d: Seq<NodeModel>, i: int)
    requires
        0 <= i < d.len(),
    ensures
        i < subtree_end(d, i) <= d.len(),
        forall|k: int| i < k < subtree_end(d, i) ==> (#[trigger] d[k]).depth() > d[i].depth(),
        subtree_end(d, i) < d.len() ==> d[subtree_end(d, i)].depth() <= d[i].depth(),
{
    lemma_run_end(d, d[i].depth(), i + 1);
}

/// The subtree of a node inside another subtree ends inside that subtree.
pub proof fn lemma_subtree_nested(d: Seq<NodeModel>, i: int, k: int)
    requires
        0 <= i < k < subtree_end(d, i),
        k < d.len(),
    ensures
        subtree_end(d, k) <= subtree_end(d, i),
{
    lemma_subtree_end(d, i);
    lemma_subtree_end(d, k);
    let outer = subtree_end(d, i);
    let inner = subtree_end(d, k);
    if inner > outer {
        assert(d[outer].depth() > d[k].depth());
    }
}

/// The nodes that the HTML parser of `scraper` makes of `html`: those below
/// the document root and the root itself, in document order, each with the
/// number of its ancestors.
pub uninterp spec fn parsed_nodes(html: Seq<char>) -> Seq<NodeModel>;

/// Whether markup is short enough for the parser. The parser keeps text in
/// buffers of at most 2^31 bytes, and a text can take up to three times the
/// bytes of the markup that it comes from, since a NUL is read as a character
/// of three bytes. So three times the markup's length in bytes must not pass 2^31.
pub open spec fn parseable(html: Seq<char>) -> bool {
    3 * vstd::utf8::encode_utf8(html).len() <= 0x8000_0000
}

/// Whether markup is short enough for the parser.
pub fn is_parseable(html: &str) -> (out: bool)
    ensures
        out == parseable(html@),
{
    html.as_bytes().len() <= 0x8000_0000 / 3
}

/// `scraper::Html::parse_document`, whose tree is read off in document order
/// (`descendants` of the root, the depth being the count of `ancestors`).
/// An element gives its `name` and what `attr` finds for `class` and `id`, a
/// text node its text. The parser panics where a buffer of text would pass
/// 2^31 bytes, which markup that is `parseable` cannot bring about; on such
/// markup parsing does not fail, and the tree depends on the input alone.
#[verifier::external_body]
pub(crate) fn parse_document(html: &str) -> (doc: Document)
    requires
        parseable(html@),
    ensures
        doc@ == parsed_nodes(html@),
{
    let page = scraper::Html::parse_document(html);
    let nodes = page.tree.root().descendants().map(|n| match n.value() {
        scraper::Node::Element(e) => Node::Element {
            depth: n.ancestors().count(),
            tag: e.name().to_string(),
            class: e.attr("class").map(|v| v.to_string()),
            id: e.attr("id").map(|v| v.to_string()),
        },
        scraper::Node::Text(t) => Node::Text { depth: n.ancestors().count(), text: t.to_string() },
        _ => Node::Other { depth: n.ancestors().count() },
    });
    Document { nodes: nodes.collect() }
}

impl Node {
    /// How many ancestors the node has.
    pub fn depth(&self) -> (out: usize)
        ensures
            out == self@.depth(),
    {
        match self {
            Node::Element { depth, .. } => *depth,
            Node::Text { depth, .. } => *depth,
            Node::Other { depth } => *depth,
        }
    }
}

impl Document {
    /// The number of nodes.
    pub fn len(&self) -> (out: usize)
        ensures
            out == self@.len(),
    {
        self.nodes.len()
    }

    /// The node at index `i`.
    pub fn node(&self, i: usize) -> (out: &Node)
        requires
            i < self@.len(),
        ensures
            out@ == self@[i as int],
    {
        &self.nodes[i]
    }

    /// The index just after the subtree of node `i`.
    pub fn subtree_end(&self, i: usize) -> (out: usize)
        requires
            i < self@.len(),
        ensures
            out == subtree_end(self@, i as int),
            i < out <= self@.len(),
    {
        let size: usize = self.nodes.len();
        let depth = self.nodes[i].depth();
        let mut at: usize = i + 1;
        while at < size && self.nodes[at].depth() > depth
            invariant
                size == self@.len(),
                i < at <= self@.len(),
                depth == self@[i as int].depth(),
                forall|k: int| i < k < at ==> (#[trigger] self@[k]).depth() > depth,
            decreases self@.len() - at,
        {
            at = at + 1;
        }
        proof {
            lemma_run_end_step(self@, depth as nat, i + 1, at as int);
        }
        at
    }
}

} // verus!
