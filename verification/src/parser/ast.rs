//! The document tree built by the parser.
use vstd::prelude::*;
use crate::lexer::token::{NoteKind, StructuralKind};

verus! {

/// The mathematical value of an attribute map: its entries in insertion order.
pub type AttrsV = Seq<(Seq<char>, Seq<char>)>;

/// The index of the first entry at or after `i` whose key is `k`.
pub open spec fn key_from(s: AttrsV, k: Seq<char>, i: int) -> Option<int>
    decreases s.len() - i,
{
    if i < 0 || i >= s.len() {
        None
    } else if s[i].0 == k {
        Some(i)
    } else {
        key_from(s, k, i + 1)
    }
}

/// `s` with `k` bound to `v`: an existing entry for `k` gets the new value in place,
/// otherwise the entry is appended (as `HashMap::insert`, with an order kept).
pub open spec fn attrs_insert(s: AttrsV, k: Seq<char>, v: Seq<char>) -> AttrsV {
    match key_from(s, k, 0) {
        Some(i) => s.update(i, (k, v)),
        None => s.push((k, v)),
    }
}

/// The value bound to `k` in `s`, if any.
pub open spec fn attrs_lookup(s: AttrsV, k: Seq<char>) -> Option<Seq<char>> {
    match key_from(s, k, 0) {
        Some(i) => Some(s[i].1),
        None => None,
    }
}

/// No key occurs twice in `s`.
pub open spec fn keys_unique(s: AttrsV) -> bool {
    forall|i: int, j: int| 0 <= i < s.len() && 0 <= j < s.len() && i != j ==> s[i].0 != s[j].0
}

/// Every entry of `p` inserted into `a`, in order.
pub open spec fn attrs_extend(a: AttrsV, p: AttrsV) -> AttrsV
    decreases p.len(),
{
    if p.len() == 0 {
        a
    } else {
        attrs_extend(attrs_insert(a, p[0].0, p[0].1), p.drop_first())
    }
}

/// What `key_from` finds: the first entry for `k` at or after `i`.
pub proof fn lemma_key_from(s: AttrsV, k: Seq<char>, i: int)
    requires
        0 <= i,
    ensures
        key_from(s, k, i) matches Some(j) ==> i <= j < s.len() && s[j].0 == k && forall|m: int|
            i <= m < j ==> #[trigger] s[m].0 != k,
        key_from(s, k, i) is None ==> forall|m: int| i <= m < s.len() ==> #[trigger] s[m].0 != k,
    decreases s.len() - i,
{
    if i < s.len() && s[i].0 != k {
        lemma_key_from(s, k, i + 1);
    }
}

/// A read after a write of `k` gives what was written.
pub proof fn law_insert_then_lookup(s: AttrsV, k: Seq<char>, v: Seq<char>)
    ensures
        attrs_lookup(attrs_insert(s, k, v), k) == Some(v),
{
    lemma_key_from(s, k, 0);
    let t = attrs_insert(s, k, v);
    lemma_key_from(t, k, 0);
    if let Some(j) = key_from(t, k, 0) {
        if key_from(s, k, 0) is None {
            assert(t[s.len() as int].0 == k);
        } else {
            let i = key_from(s, k, 0).unwrap();
            assert(t[i].0 == k);
        }
    } else {
        if key_from(s, k, 0) is None {
            assert(t[s.len() as int].0 == k);
        } else {
            let i = key_from(s, k, 0).unwrap();
            assert(t[i].0 == k);
        }
    }
}

/// A write of `k` leaves every other key as it was.
pub proof fn law_insert_keeps_others(s: AttrsV, k: Seq<char>, v: Seq<char>, k2: Seq<char>)
    requires
        k2 != k,
    ensures
        attrs_lookup(attrs_insert(s, k, v), k2) == attrs_lookup(s, k2),
{
    lemma_key_from(s, k, 0);
    lemma_key_from(s, k2, 0);
    let t = attrs_insert(s, k, v);
    lemma_key_from(t, k2, 0);
    match (key_from(s, k2, 0), key_from(t, k2, 0)) {
        (Some(a), Some(b)) => {
            if a < b {
                assert(t[a].0 == s[a].0);
            } else if b < a {
                assert(t[b].0 == s[b].0);
            }
        },
        (Some(a), None) => {
            assert(t[a].0 == s[a].0);
        },
        (None, Some(b)) => {
            if b < s.len() {
                assert(t[b].0 == s[b].0);
            }
        },
        (None, None) => {},
    }
}

/// A write never makes a key occur twice.
pub proof fn law_insert_keeps_keys_unique(s: AttrsV, k: Seq<char>, v: Seq<char>)
    requires
        keys_unique(s),
    ensures
        keys_unique(attrs_insert(s, k, v)),
{
    lemma_key_from(s, k, 0);
}

/// String keys bound to string values; a key occurs at most once.
#[derive(Debug, Clone, PartialEq)]
pub struct AttributeMap {
    entries: Vec<(String, String)>,
}

impl View for AttributeMap {
    type V = AttrsV;

    closed spec fn view(&self) -> AttrsV {
        self.entries@.map_values(|e: (String, String)| (e.0@, e.1@))
    }
}

impl AttributeMap {
    /// An empty map.
    pub fn new() -> (r: Self)
        ensures
            r@ == Seq::<(Seq<char>, Seq<char>)>::empty(),
    {
        let r = AttributeMap { entries: Vec::new() };
        assert(r@ =~= Seq::<(Seq<char>, Seq<char>)>::empty());
        r
    }

    /// The number of entries.
    pub fn len(&self) -> (r: usize)
        ensures
            r == self@.len(),
    {
        self.entries.len()
    }

    /// Whether the map has no entry.
    pub fn is_empty(&self) -> (r: bool)
        ensures
            r == (self@.len() == 0),
    {
        self.entries.len() == 0
    }

    /// The index of the entry for `key`, if any.
    fn position(&self, key: &str) -> (r: Option<usize>)
        ensures
            match r {
                Some(i) => key_from(self@, key@, 0) == Some(i as int) && i < self@.len(),
                None => key_from(self@, key@, 0) is None,
            },
    {
        let k: String = key.to_owned();
        let mut i: usize = 0;
        while i < self.entries.len()
            invariant
                i <= self.entries.len(),
                k@ == key@,
                self@.len() == self.entries.len(),
                key_from(self@, key@, 0) == key_from(self@, key@, i as int),
            decreases self.entries.len() - i,
        {
            assert(self@[i as int].0 == self.entries@[i as int].0@);
            if self.entries[i].0 == k {
                return Some(i);
            }
            i = i + 1;
        }
        None
    }

    /// Binds `key` to `value`, replacing the value of an existing entry for `key`.
    pub fn insert(&mut self, key: String, value: String)
        ensures
            final(self)@ == attrs_insert(old(self)@, key@, value@),
    {
        match self.position(key.as_str()) {
            Some(i) => {
                self.entries.set(i, (key, value));
                assert(self@ =~= attrs_insert(old(self)@, key@, value@));
            },
            None => {
                self.entries.push((key, value));
                assert(self@ =~= attrs_insert(old(self)@, key@, value@));
            },
        }
    }

    /// The value bound to `key`, if any.
    pub fn get(&self, key: &str) -> (r: Option<&String>)
        ensures
            match r {
                Some(v) => attrs_lookup(self@, key@) == Some(v@),
                None => attrs_lookup(self@, key@) is None,
            },
    {
        match self.position(key) {
            Some(i) => {
                assert(self@[i as int].1 == self.entries@[i as int].1@);
                Some(&self.entries[i].1)
            },
            None => None,
        }
    }

    /// The entry at index `i`, in insertion order.
    pub fn entry(&self, i: usize) -> (r: (&String, &String))
        requires
            i < self@.len(),
        ensures
            (r.0@, r.1@) == self@[i as int],
    {
        assert(self@[i as int] == (self.entries@[i as int].0@, self.entries@[i as int].1@));
        (&self.entries[i].0, &self.entries[i].1)
    }
}

/// A node of the document tree.
#[derive(Debug, PartialEq)]
pub enum Node {
    Document(Document),
    Structure(StructuralElement),
    Section(Section),
    Paragraph(Paragraph),
    List(ListContainer),
    ListItem(ListItem),
    Figure(Attributed),
    Table(Table),
    TableRow(TableRow),
    TableCell(TableCell),
    Listing(Listing),
    Note(NoteBlock),
}

/// The whole document: its top-level nodes and its own attributes.
#[derive(Debug, PartialEq)]
pub struct Document {
    pub children: Vec<Node>,
    pub attributes: AttributeMap,
}

/// A structural element (title page, introduction, ...).
#[derive(Debug, PartialEq)]
pub struct StructuralElement {
    pub kind: StructuralKind,
    pub children: Vec<Node>,
    pub attributes: AttributeMap,
}

/// A numbered section with its heading.
#[derive(Debug, PartialEq)]
pub struct Section {
    pub level: u8,
    pub title: String,
    pub children: Vec<Node>,
}

/// A paragraph of text.
#[derive(Debug, PartialEq)]
pub struct Paragraph {
    pub text: String,
}

/// A list: its items in order.
#[derive(Debug, PartialEq)]
pub struct ListContainer {
    pub items: Vec<Node>,
}

/// A list item, its nesting level and what it contains.
#[derive(Debug, PartialEq)]
pub struct ListItem {
    pub level: u8,
    pub text: String,
    pub children: Vec<Node>,
}

/// A table.
#[derive(Debug, PartialEq)]
pub struct Table {
    pub children: Vec<Node>,
    pub attributes: AttributeMap,
}

/// A table row.
#[derive(Debug, PartialEq)]
pub struct TableRow {
    pub cells: Vec<Node>,
}

/// A table cell.
#[derive(Debug, PartialEq)]
pub struct TableCell {
    pub children: Vec<Node>,
}

/// A code listing.
#[derive(Debug, PartialEq)]
pub struct Listing {
    pub text: String,
    pub attributes: AttributeMap,
}

/// A block of notes.
#[derive(Debug, PartialEq)]
pub struct NoteBlock {
    pub kind: NoteKind,
    pub children: Vec<Node>,
}

/// A figure: its attributes and what it contains.
#[derive(Debug, PartialEq)]
pub struct Attributed {
    pub attributes: AttributeMap,
    pub children: Vec<Node>,
}

/// The mathematical value of a [`Node`].
pub enum NodeV {
    Document { children: Seq<NodeV>, attributes: AttrsV },
    Structure { kind: StructuralKind, children: Seq<NodeV>, attributes: AttrsV },
    Section { level: u8, title: Seq<char>, children: Seq<NodeV> },
    Paragraph { text: Seq<char> },
    List { items: Seq<NodeV> },
    ListItem { level: u8, text: Seq<char>, children: Seq<NodeV> },
    Figure { attributes: AttrsV, children: Seq<NodeV> },
    Table { children: Seq<NodeV>, attributes: AttrsV },
    TableRow { cells: Seq<NodeV> },
    TableCell { children: Seq<NodeV> },
    Listing { text: Seq<char>, attributes: AttrsV },
    Note { kind: NoteKind, children: Seq<NodeV> },
}

/// The value of a node.
pub open spec fn node_view(n: Node) -> NodeV
    decreases n,
{
    match n {
        Node::Document(d) => NodeV::Document {
            children: nodes_view(d.children@),
            attributes: d.attributes@,
        },
        Node::Structure(s) => NodeV::Structure {
            kind: s.kind,
            children: nodes_view(s.children@),
            attributes: s.attributes@,
        },
        Node::Section(s) => NodeV::Section {
            level: s.level,
            title: s.title@,
            children: nodes_view(s.children@),
        },
        Node::Paragraph(p) => NodeV::Paragraph { text: p.text@ },
        Node::List(l) => NodeV::List { items: nodes_view(l.items@) },
        Node::ListItem(i) => NodeV::ListItem {
            level: i.level,
            text: i.text@,
            children: nodes_view(i.children@),
        },
        Node::Figure(f) => NodeV::Figure {
            attributes: f.attributes@,
            children: nodes_view(f.children@),
        },
        Node::Table(t) => NodeV::Table {
            children: nodes_view(t.children@),
            attributes: t.attributes@,
        },
        Node::TableRow(r) => NodeV::TableRow { cells: nodes_view(r.cells@) },
        Node::TableCell(c) => NodeV::TableCell { children: nodes_view(c.children@) },
        Node::Listing(l) => NodeV::Listing { text: l.text@, attributes: l.attributes@ },
        Node::Note(n) => NodeV::Note { kind: n.kind, children: nodes_view(n.children@) },
    }
}

/// The values of a sequence of nodes.
pub open spec fn nodes_view(s: Seq<Node>) -> Seq<NodeV>
    decreases s,
{
    if s.len() == 0 {
        seq![]
    } else {
        nodes_view(s.subrange(0, s.len() - 1)).push(node_view(s[s.len() - 1]))
    }
}

/// A sequence of nodes has as many values, each the value of its node.
pub broadcast proof fn lemma_nodes_view_index(s: Seq<Node>)
    ensures
        #[trigger] nodes_view(s).len() == s.len(),
        forall|i: int| 0 <= i < s.len() ==> #[trigger] nodes_view(s)[i] == node_view(s[i]),
    decreases s.len(),
{
    if s.len() > 0 {
        lemma_nodes_view_index(s.subrange(0, s.len() - 1));
    }
}

/// The values of `s.push(x)`.
pub broadcast proof fn lemma_nodes_view_push(s: Seq<Node>, x: Node)
    ensures
        #[trigger] nodes_view(s.push(x)) == nodes_view(s).push(node_view(x)),
{
    assert(s.push(x).subrange(0, s.len() as int) =~= s);
}

/// The values of `s.drop_last()`.
pub broadcast proof fn lemma_nodes_view_drop_last(s: Seq<Node>)
    requires
        s.len() > 0,
    ensures
        #[trigger] nodes_view(s.drop_last()) == nodes_view(s).drop_last(),
        nodes_view(s).last() == node_view(s.last()),
{
    assert(nodes_view(s).drop_last() =~= nodes_view(s.drop_last()));
}

impl Node {
    /// The document, if this node is one.
    pub fn as_document(&self) -> (r: Option<&Document>)
        ensures
            match self {
                Node::Document(d) => r == Some(d),
                _ => r is None,
            },
    {
        if let Node::Document(d) = self {
            Some(d)
        } else {
            None
        }
    }
}

impl View for Node {
    type V = NodeV;

    open spec fn view(&self) -> NodeV {
        node_view(*self)
    }
}

} // verus!
