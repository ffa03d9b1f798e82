//! The document model: a tree of scalars, lists and keyed tables, as a
//! structured description of an API is read from YAML or JSON.

use vstd::prelude::*;
use crate::sequence::{first_index, lemma_first_index_is};
use crate::text::same_text;

verus! {

/// One node of a document.
#[derive(Debug, PartialEq)]
pub enum Node {
    /// A floating-point scalar, kept as it was written.
    Real(String),
    /// An integer scalar.
    Integer(i64),
    /// A string scalar.
    Text(String),
    /// A boolean scalar.
    Boolean(bool),
    /// A sequence of nodes.
    List(Vec<Node>),
    /// A mapping, its entries in the order of the document.
    Table(Vec<Entry>),
    /// A reference to an anchor that was not resolved.
    Alias(usize),
    /// The null scalar.
    Null,
    /// A node that could not be read.
    Bad,
}

/// One entry of a table.
#[derive(Debug, PartialEq)]
pub struct Entry {
    pub key: Node,
    pub value: Node,
}

/// The mathematical value of a [`Node`].
pub enum NodeView {
    Real(Seq<char>),
    Integer(i64),
    Text(Seq<char>),
    Boolean(bool),
    List(Seq<NodeView>),
    Table(Seq<EntryView>),
    Alias(usize),
    Null,
    Bad,
}

/// The mathematical value of an [`Entry`].
pub struct EntryView {
    pub key: NodeView,
    pub value: NodeView,
}

pub open spec fn node_view(node: Node) -> NodeView
    decreases node,
{
    match node {
        Node::Real(s) => NodeView::Real(s@),
        Node::Integer(i) => NodeView::Integer(i),
        Node::Text(s) => NodeView::Text(s@),
        Node::Boolean(b) => NodeView::Boolean(b),
        Node::List(items) => NodeView::List(
            Seq::new(
                items.len() as nat,
                |i: int|
                    if 0 <= i < items.len() {
                        node_view(items[i])
                    } else {
                        arbitrary()
                    },
            ),
        ),
        Node::Table(entries) => NodeView::Table(
            Seq::new(
                entries.len() as nat,
                |i: int|
                    if 0 <= i < entries.len() {
                        entry_view(entries[i])
                    } else {
                        arbitrary()
                    },
            ),
        ),
        Node::Alias(a) => NodeView::Alias(a),
        Node::Null => NodeView::Null,
        Node::Bad => NodeView::Bad,
    }
}

pub open spec fn entry_view(entry: Entry) -> EntryView
    decreases entry,
{
    EntryView { key: node_view(entry.key), value: node_view(entry.value) }
}

impl View for Node {
    type V = NodeView;

    open spec fn view(&self) -> NodeView {
        node_view(*self)
    }
}

impl View for Entry {
    type V = EntryView;

    open spec fn view(&self) -> EntryView {
        entry_view(*self)
    }
}

/// Whether no two entries are filed under the same text.
pub open spec fn distinct_texts(entries: Seq<EntryView>) -> bool {
    forall|i: int, j: int|
        0 <= i < j < entries.len() && (#[trigger] entries[i]).key is Text ==> entries[i].key != (
        #[trigger] entries[j]).key
}

/// A document as a reader of YAML hands it over: in none of its tables two
/// entries are filed under the same text.
pub open spec fn well_keyed(node: NodeView) -> bool
    decreases node,
{
    match node {
        NodeView::List(items) => forall|i: int|
            0 <= i < items.len() ==> well_keyed(#[trigger] items[i]),
        NodeView::Table(entries) => distinct_texts(entries) && forall|i: int|
            0 <= i < entries.len() ==> well_keyed((#[trigger] entries[i]).value),
        _ => true,
    }
}

/// What stands under a key in a well-keyed node is well keyed.
pub proof fn lemma_lookup_well_keyed(node: NodeView, key: Seq<char>)
    requires
        well_keyed(node),
    ensures
        well_keyed(lookup(node, key)),
{
    match node {
        NodeView::Table(entries) => {
            let i = first_index(entries, has_key(key));
            if 0 <= i < entries.len() {
                assert(well_keyed(entries[i].value));
            }
        },
        _ => {},
    }
}

/// The value that a lookup of a missing node stands for.
pub open spec fn node_or_bad(found: Option<&Node>) -> NodeView {
    match found {
        Some(node) => node@,
        None => NodeView::Bad,
    }
}

/// Whether an entry is filed under the text `key`.
pub open spec fn has_key(key: Seq<char>) -> spec_fn(EntryView) -> bool {
    |entry: EntryView| entry.key == NodeView::Text(key)
}

/// Whether `node` is a table with an entry under `key`.
pub open spec fn has_entry(node: NodeView, key: Seq<char>) -> bool {
    node matches NodeView::Table(entries) && 0 <= first_index(entries, has_key(key))
        < entries.len()
}

/// What stands under `key` in `node`: the value of the first entry with
/// that key where the node is a table that has one, and `Bad` otherwise.
pub open spec fn lookup(node: NodeView, key: Seq<char>) -> NodeView {
    match node {
        NodeView::Table(entries) => {
            let i = first_index(entries, has_key(key));
            if 0 <= i < entries.len() {
                entries[i].value
            } else {
                NodeView::Bad
            }
        },
        _ => NodeView::Bad,
    }
}

/// The string that a node holds, if it is a string scalar.
pub open spec fn text_of(node: NodeView) -> Option<Seq<char>> {
    match node {
        NodeView::Text(s) => Some(s),
        _ => None,
    }
}

/// The elements of a list; any other node has none.
pub open spec fn items_of(node: NodeView) -> Seq<NodeView> {
    match node {
        NodeView::List(items) => items,
        _ => Seq::empty(),
    }
}

impl DeepView for Node {
    type V = NodeView;

    open spec fn deep_view(&self) -> NodeView {
        node_view(*self)
    }
}

impl DeepView for Entry {
    type V = EntryView;

    open spec fn deep_view(&self) -> EntryView {
        entry_view(*self)
    }
}

/// The view of a list is the sequence of the views of its elements.
pub proof fn lemma_list_view(items: Vec<Node>)
    ensures
        Node::List(items)@ == NodeView::List(items.deep_view()),
{
    assert(Node::List(items)@->List_0 =~= items.deep_view());
}

/// The view of a table is the sequence of the views of its entries.
pub proof fn lemma_table_view(entries: Vec<Entry>)
    ensures
        Node::Table(entries)@ == NodeView::Table(entries.deep_view()),
{
    assert(Node::Table(entries)@->Table_0 =~= entries.deep_view());
}

impl Node {
    /// The string of a string scalar.
    pub fn as_text(&self) -> (out: Option<&str>)
        ensures
            match out {
                Some(s) => text_of(self@) == Some(s@),
                None => text_of(self@) is None,
            },
    {
        match self {
            Node::Text(s) => Some(s.as_str()),
            _ => None,
        }
    }

    /// The entries of a table.
    pub fn entries(&self) -> (out: Option<&Vec<Entry>>)
        ensures
            match out {
                Some(entries) => self@ == NodeView::Table(entries.deep_view()),
                None => !(self@ is Table),
            },
    {
        match self {
            Node::Table(entries) => {
                proof {
                    lemma_table_view(*entries);
                }
                Some(entries)
            },
            _ => None,
        }
    }

    /// The elements of a list.
    pub fn items(&self) -> (out: Option<&Vec<Node>>)
        ensures
            match out {
                Some(items) => self@ == NodeView::List(items.deep_view()),
                None => !(self@ is List),
            },
    {
        match self {
            Node::List(items) => {
                proof {
                    lemma_list_view(*items);
                }
                Some(items)
            },
            _ => None,
        }
    }

    /// The node under `key`, if this node is a table with such an entry.
    pub fn get(&self, key: &str) -> (out: Option<&Node>)
        ensures
            out is Some <==> has_entry(self@, key@),
            node_or_bad(out) == lookup(self@, key@),
    {
        match self.entries() {
            None => None,
            Some(entries) => {
                let ghost views = entries.deep_view();
                let mut i: usize = 0;
                while i < entries.len()
                    invariant
                        i <= entries.len(),
                        views == entries.deep_view(),
                        self@ == NodeView::Table(views),
                        forall|k: int| 0 <= k < i ==> !has_key(key@)(#[trigger] views[k]),
                    decreases entries.len() - i,
                {
                    let found = match entries[i].key.as_text() {
                        Some(s) => same_text(s, key),
                        None => false,
                    };
                    assert(views[i as int] == entries[i as int]@);
                    if found {
                        proof {
                            lemma_first_index_is(views, has_key(key@), i as int);
                        }
                        return Some(&entries[i].value);
                    }
                    i = i + 1;
                }
                proof {
                    lemma_first_index_is(views, has_key(key@), i as int);
                }
                None
            },
        }
    }
}

/// The node under `key` in a node that may itself be missing.
pub fn get_in<'a>(node: Option<&'a Node>, key: &str) -> (out: Option<&'a Node>)
    ensures
        out is Some <==> has_entry(node_or_bad(node), key@),
        node_or_bad(out) == lookup(node_or_bad(node), key@),
{
    match node {
        Some(node) => node.get(key),
        None => None,
    }
}

} // verus!
