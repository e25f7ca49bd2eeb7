//! Builds the document tree from the tokens.
pub mod ast;
pub mod debug;
pub mod laws;
pub mod sections;
pub mod shape;

use vstd::prelude::*;
use crate::lexer::token::{Token, TokenKindV, TokenType};
use crate::parser::ast::{
    attrs_extend, attrs_insert, lemma_nodes_view_drop_last, lemma_nodes_view_index,
    lemma_nodes_view_push, nodes_view, AttributeMap, Attributed, AttrsV, Document,
    ListContainer, ListItem, Listing, Node, NoteBlock, NodeV, Paragraph, Section,
    StructuralElement, Table, TableCell, TableRow,
};

verus! {

/// What the parser holds between tokens: the open containers (innermost last), and the
/// top-level nodes and attributes of the document so far.
#[verifier::ext_equal]
pub struct ParseState {
    pub stack: Seq<NodeV>,
    pub children: Seq<NodeV>,
    pub attributes: AttrsV,
}

/// `parent` with `child` appended to its children, when it is a node that holds
/// children of any kind.
pub open spec fn with_child(parent: NodeV, child: NodeV) -> Option<NodeV> {
    match parent {
        NodeV::Document { children, attributes } => Some(
            NodeV::Document { children: children.push(child), attributes },
        ),
        NodeV::Structure { kind, children, attributes } => Some(
            NodeV::Structure { kind, children: children.push(child), attributes },
        ),
        NodeV::Section { level, title, children } => Some(
            NodeV::Section { level, title, children: children.push(child) },
        ),
        NodeV::ListItem { level, text, children } => Some(
            NodeV::ListItem { level, text, children: children.push(child) },
        ),
        NodeV::Figure { attributes, children } => Some(
            NodeV::Figure { attributes, children: children.push(child) },
        ),
        NodeV::Table { children, attributes } => Some(
            NodeV::Table { children: children.push(child), attributes },
        ),
        NodeV::TableRow { cells } => Some(NodeV::TableRow { cells: cells.push(child) }),
        NodeV::TableCell { children } => Some(NodeV::TableCell { children: children.push(child) }),
        NodeV::Note { kind, children } => Some(
            NodeV::Note { kind, children: children.push(child) },
        ),
        _ => None,
    }
}

/// `st` with `node` added to the innermost open container: a list item only goes into a
/// list, other nodes into any container that holds children; failing that, the node
/// becomes a top-level node of the document.
pub open spec fn add_to_parent(st: ParseState, node: NodeV) -> ParseState {
    let to_root = ParseState {
        stack: st.stack,
        children: st.children.push(node),
        attributes: st.attributes,
    };
    if st.stack.len() == 0 {
        to_root
    } else {
        let parent = st.stack.last();
        let rest = st.stack.drop_last();
        if node is ListItem {
            match parent {
                NodeV::List { items } => ParseState {
                    stack: rest.push(NodeV::List { items: items.push(node) }),
                    children: st.children,
                    attributes: st.attributes,
                },
                _ => to_root,
            }
        } else {
            match with_child(parent, node) {
                Some(p) => ParseState {
                    stack: rest.push(p),
                    children: st.children,
                    attributes: st.attributes,
                },
                None => to_root,
            }
        }
    }
}

/// Closes the innermost open container of `st`, adding it to the one around it.
pub open spec fn pop_one(st: ParseState) -> ParseState
    recommends
        st.stack.len() > 0,
{
    add_to_parent(
        ParseState {
            stack: st.stack.drop_last(),
            children: st.children,
            attributes: st.attributes,
        },
        st.stack.last(),
    )
}

/// Containers: the nodes that stay open to receive the lines after them.
pub open spec fn is_container(n: NodeV) -> bool {
    n is Structure || n is Section || n is Table || n is TableRow || n is TableCell || n is Note
        || n is List || n is ListItem || n is Figure || n is Listing
}

/// Whether an open `parent` takes a token of kind `k`.
pub open spec fn can_contain(parent: NodeV, k: TokenKindV) -> bool {
    match parent {
        NodeV::Document { .. } => k is Structure || k is Attribute || k is EmptyLine,
        NodeV::Structure { .. } => k is Paragraph || k is Section || k is Figure || k is Table
            || k is ListItem || k is Note || k is Attribute || k is EmptyLine || k is Listing,
        NodeV::Section { .. } => k is Paragraph || k is ListItem || k is Figure || k is Table
            || k is Listing || k is Note || k is Section,
        NodeV::Table { .. } => k is Row || k is Attribute || k is Note || k is EmptyLine,
        NodeV::TableRow { .. } => k is Cell,
        NodeV::TableCell { .. } => k is Paragraph || k is ListItem || k is EmptyLine,
        NodeV::Note { .. } => k is ListItem,
        NodeV::Figure { .. } => k is Attribute || k is Note || k is EmptyLine,
        NodeV::List { .. } => k is ListItem,
        NodeV::ListItem { .. } => k is Paragraph || k is EmptyLine,
        NodeV::Listing { .. } => k is Attribute,
        _ => false,
    }
}

/// When the parser closes the innermost open container.
pub enum CloseRule {
    /// On an empty line: tables and their parts, lists and their items, notes, figures.
    EmptyLine,
    /// Before a structural element: structural elements, sections, notes, tables, lists.
    Structure,
    /// Before a section of the given level: sections at that level or deeper, tables,
    /// figures, notes, lists.
    Section(u8),
    /// Before a token of the given kind: containers that cannot take it, and a structural
    /// element before another one.
    Incompatible(TokenKindV),
    /// Before a list item of the given level: items at that level or deeper, a list whose
    /// item is at that level or deeper, and nodes that are not containers.
    ListItem(u8),
    /// At the end: everything.
    All,
}

/// Whether `rule` closes the innermost of the open containers `stack` (which has one).
pub open spec fn closes(rule: CloseRule, stack: Seq<NodeV>) -> bool {
    let top = stack.last();
    match rule {
        CloseRule::EmptyLine => top is TableCell || top is TableRow || top is Table
            || top is ListItem || top is List || top is Note || top is Figure,
        CloseRule::Structure => top is Structure || top is Section || top is Note || top is Table
            || top is List,
        CloseRule::Section(level) => match top {
            NodeV::Section { level: l, .. } => l >= level,
            _ => top is Table || top is Figure || top is Note || top is List,
        },
        CloseRule::Incompatible(k) => !can_contain(top, k) || (k is Structure
            && top is Structure),
        CloseRule::ListItem(level) => match top {
            NodeV::ListItem { level: l, .. } => l >= level,
            NodeV::List { .. } => stack.len() >= 2 && match stack[stack.len() - 2] {
                NodeV::ListItem { level: l, .. } => l >= level,
                _ => false,
            },
            _ => !is_container(top),
        },
        CloseRule::All => true,
    }
}

/// Closing adds a node to its parent and leaves one open container fewer.
pub proof fn lemma_pop_one_len(st: ParseState)
    requires
        st.stack.len() > 0,
    ensures
        pop_one(st).stack.len() == st.stack.len() - 1,
{
}

/// Closes containers of `st` while `rule` says so.
pub open spec fn close_while(st: ParseState, rule: CloseRule) -> ParseState
    decreases st.stack.len(),
{
    if st.stack.len() > 0 && closes(rule, st.stack) {
        proof {
            lemma_pop_one_len(st);
        }
        close_while(pop_one(st), rule)
    } else {
        st
    }
}

/// `st` with `n` opened as the innermost container.
pub open spec fn push_open(st: ParseState, n: NodeV) -> ParseState {
    ParseState { stack: st.stack.push(n), children: st.children, attributes: st.attributes }
}

/// A list item of the given level and text: closes what it cannot follow, opens a list
/// unless one is the innermost container, and opens the item.
pub open spec fn process_list_item(st: ParseState, level: u8, text: Seq<char>) -> ParseState {
    let st1 = close_while(st, CloseRule::ListItem(level));
    let st2 = if st1.stack.len() > 0 && st1.stack.last() is List {
        st1
    } else {
        push_open(st1, NodeV::List { items: seq![] })
    };
    push_open(st2, NodeV::ListItem { level, text, children: seq![] })
}

/// The node made from a token of kind `k`: opens its container or joins the current one.
pub open spec fn process_token(st: ParseState, node: NodeV, k: TokenKindV) -> ParseState {
    let st1 = if node is Structure {
        close_while(st, CloseRule::Structure)
    } else {
        st
    };
    match node {
        NodeV::ListItem { level, text, .. } => process_list_item(st1, level, text),
        _ => {
            let st2 = match node {
                NodeV::Section { level, .. } => close_while(st1, CloseRule::Section(level)),
                _ => st1,
            };
            let st3 = close_while(st2, CloseRule::Incompatible(k));
            if is_container(node) {
                push_open(st3, node)
            } else {
                add_to_parent(st3, node)
            }
        },
    }
}

/// The node that a token of kind `k` gives, if any (not for empty lines, attributes and
/// errors).
pub open spec fn create_node(k: TokenKindV) -> Option<NodeV> {
    match k {
        TokenKindV::Paragraph { text } => Some(NodeV::Paragraph { text }),
        TokenKindV::Section { level, heading } => Some(
            NodeV::Section { level, title: heading, children: seq![] },
        ),
        TokenKindV::ListItem { level, text } => Some(
            NodeV::ListItem { level, text, children: seq![] },
        ),
        TokenKindV::Table => Some(NodeV::Table { children: seq![], attributes: seq![] }),
        TokenKindV::Row => Some(NodeV::TableRow { cells: seq![] }),
        TokenKindV::Cell { text } => Some(
            NodeV::TableCell {
                children: match text {
                    Some(t) => seq![NodeV::Paragraph { text: t }],
                    None => seq![],
                },
            },
        ),
        TokenKindV::Listing { code } => Some(NodeV::Listing { text: code, attributes: seq![] }),
        TokenKindV::Note { kind } => Some(NodeV::Note { kind, children: seq![] }),
        TokenKindV::Figure => Some(NodeV::Figure { attributes: seq![], children: seq![] }),
        TokenKindV::Structure { kind } => Some(
            NodeV::Structure { kind, children: seq![], attributes: seq![] },
        ),
        _ => None,
    }
}

/// `n` with `k` bound to `v`, when `n` carries attributes.
pub open spec fn apply_to_node(n: NodeV, k: Seq<char>, v: Seq<char>) -> NodeV {
    match n {
        NodeV::Structure { kind, children, attributes } => NodeV::Structure {
            kind,
            children,
            attributes: attrs_insert(attributes, k, v),
        },
        NodeV::Table { children, attributes } => NodeV::Table {
            children,
            attributes: attrs_insert(attributes, k, v),
        },
        NodeV::Listing { text, attributes } => NodeV::Listing {
            text,
            attributes: attrs_insert(attributes, k, v),
        },
        NodeV::Figure { attributes, children } => NodeV::Figure {
            attributes: attrs_insert(attributes, k, v),
            children,
        },
        NodeV::Document { children, attributes } => NodeV::Document {
            children,
            attributes: attrs_insert(attributes, k, v),
        },
        _ => n,
    }
}

/// The pending attributes `p` moved into `n` when `n` carries attributes (and `p` is not
/// empty); the node and what stays pending.
pub open spec fn apply_attributes(n: NodeV, p: AttrsV) -> (NodeV, AttrsV) {
    if p.len() == 0 {
        (n, p)
    } else {
        match n {
            NodeV::Document { children, attributes } => (
                NodeV::Document { children, attributes: attrs_extend(attributes, p) },
                seq![],
            ),
            NodeV::Structure { kind, children, attributes } => (
                NodeV::Structure { kind, children, attributes: attrs_extend(attributes, p) },
                seq![],
            ),
            NodeV::Table { children, attributes } => (
                NodeV::Table { children, attributes: attrs_extend(attributes, p) },
                seq![],
            ),
            NodeV::Listing { text, attributes } => (
                NodeV::Listing { text, attributes: attrs_extend(attributes, p) },
                seq![],
            ),
            NodeV::Figure { attributes, children } => (
                NodeV::Figure { attributes: attrs_extend(attributes, p), children },
                seq![],
            ),
            _ => (n, p),
        }
    }
}

/// The parser after a token of kind `k`, given the state `st` and pending attributes `p`.
pub open spec fn step(st: ParseState, p: AttrsV, k: TokenKindV) -> (ParseState, AttrsV) {
    match k {
        TokenKindV::EmptyLine => (close_while(st, CloseRule::EmptyLine), p),
        TokenKindV::Attribute { key, value } => if st.stack.len() > 0 {
            (
                ParseState {
                    stack: st.stack.drop_last().push(apply_to_node(st.stack.last(), key, value)),
                    children: st.children,
                    attributes: st.attributes,
                },
                p,
            )
        } else {
            (
                ParseState {
                    stack: st.stack,
                    children: st.children,
                    attributes: attrs_insert(st.attributes, key, value),
                },
                p,
            )
        },
        _ => match create_node(k) {
            Some(n) => {
                let (n2, p2) = apply_attributes(n, p);
                (process_token(st, n2, k), p2)
            },
            None => (st, p),
        },
    }
}

/// The parser after the tokens `ks[i..]`.
pub open spec fn run(st: ParseState, p: AttrsV, ks: Seq<TokenKindV>, i: int) -> (ParseState, AttrsV)
    decreases ks.len() - i,
{
    if i < 0 || i >= ks.len() {
        (st, p)
    } else {
        let (st2, p2) = step(st, p, ks[i]);
        run(st2, p2, ks, i + 1)
    }
}

/// The state before the first token.
pub open spec fn initial_state() -> ParseState {
    ParseState { stack: seq![], children: seq![], attributes: seq![] }
}

/// The document that remains once every open container is closed.
pub open spec fn finish(st: ParseState) -> NodeV {
    let f = close_while(st, CloseRule::All);
    NodeV::Document { children: f.children, attributes: f.attributes }
}

/// The document tree of the token kinds `ks`, with the pending attributes `p`; and the
/// attributes left pending.
pub open spec fn parse_with(ks: Seq<TokenKindV>, p: AttrsV) -> (NodeV, AttrsV) {
    let (st, p2) = run(initial_state(), p, ks, 0);
    (finish(st), p2)
}

/// The document tree of the token kinds `ks`.
pub open spec fn spec_parse(ks: Seq<TokenKindV>) -> NodeV {
    parse_with(ks, seq![]).0
}

/// The parser state held by the open containers `stack` and the document `root`.
pub open spec fn state_of(stack: Seq<Node>, root: Document) -> ParseState {
    ParseState {
        stack: nodes_view(stack),
        children: nodes_view(root.children@),
        attributes: root.attributes@,
    }
}

/// The views of the kinds of a sequence of tokens.
pub open spec fn kinds_view(ts: Seq<Token>) -> Seq<TokenKindV> {
    ts.map_values(|t: Token| t.kind@)
}

/// When to close the innermost open container (see [`CloseRule`]).
enum Rule<'a> {
    EmptyLine,
    Structure,
    Section(u8),
    Incompatible(&'a TokenType),
    ListItem(u8),
    All,
}

spec fn rule_view(r: Rule) -> CloseRule {
    match r {
        Rule::EmptyLine => CloseRule::EmptyLine,
        Rule::Structure => CloseRule::Structure,
        Rule::Section(l) => CloseRule::Section(l),
        Rule::Incompatible(k) => CloseRule::Incompatible(k@),
        Rule::ListItem(l) => CloseRule::ListItem(l),
        Rule::All => CloseRule::All,
    }
}

/// A copy of a token kind.
fn clone_kind(k: &TokenType) -> (r: TokenType)
    ensures
        r@ == k@,
{
    match k {
        TokenType::Structure { kind } => TokenType::Structure { kind: *kind },
        TokenType::Section { level, heading } => TokenType::Section {
            level: *level,
            heading: heading.clone(),
        },
        TokenType::Figure => TokenType::Figure,
        TokenType::Row => TokenType::Row,
        TokenType::Cell { text } => TokenType::Cell {
            text: match text {
                Some(t) => Some(t.clone()),
                None => None,
            },
        },
        TokenType::Table => TokenType::Table,
        TokenType::Listing { code } => TokenType::Listing { code: code.clone() },
        TokenType::Attribute { key, value } => TokenType::Attribute {
            key: key.clone(),
            value: value.clone(),
        },
        TokenType::Note { kind } => TokenType::Note { kind: *kind },
        TokenType::Paragraph { text } => TokenType::Paragraph { text: text.clone() },
        TokenType::ListItem { level, text } => TokenType::ListItem {
            level: *level,
            text: text.clone(),
        },
        TokenType::Error { message } => TokenType::Error { message: message.clone() },
        TokenType::EmptyLine => TokenType::EmptyLine,
    }
}

broadcast use {lemma_nodes_view_index, lemma_nodes_view_push, lemma_nodes_view_drop_last};

/// Builds a document tree from a sequence of tokens.
pub struct Parser {
    tokens: Vec<Token>,
    pos: usize,
    current_attributes: AttributeMap,
}

impl Parser {
    /// The kinds of all tokens given to the parser.
    pub closed spec fn kinds(&self) -> Seq<TokenKindV> {
        kinds_view(self.tokens@)
    }

    /// How many tokens have been consumed.
    pub closed spec fn position(&self) -> int {
        self.pos as int
    }

    /// Attributes waiting for the next node that carries attributes.
    pub closed spec fn pending(&self) -> AttrsV {
        self.current_attributes@
    }

    #[verifier::type_invariant]
    closed spec fn inv(&self) -> bool {
        self.pos <= self.tokens.len()
    }

    /// A parser over `tokens`, none consumed, with nothing pending.
    pub fn new(tokens: Vec<Token>) -> (r: Self)
        ensures
            r.kinds() == kinds_view(tokens@),
            r.position() == 0,
            r.pending() == Seq::<(Seq<char>, Seq<char>)>::empty(),
    {
        Parser { tokens, pos: 0, current_attributes: AttributeMap::new() }
    }

    /// Whether `node` stays open to receive what follows.
    fn is_container(&self, node: &Node) -> (r: bool)
        ensures
            r == is_container(node@),
    {
        matches!(node, Node::Structure(_) | Node::Section(_) | Node::Table(_) | Node::TableRow(_)
            | Node::TableCell(_) | Node::Note(_) | Node::List(_) | Node::ListItem(_)
            | Node::Figure(_) | Node::Listing(_))
    }

    /// Whether the open `parent` takes a token of kind `k`.
    fn can_contain(&self, parent: &Node, k: &TokenType) -> (r: bool)
        ensures
            r == can_contain(parent@, k@),
    {
        match parent {
            Node::Document(_) => matches!(k, TokenType::Structure { .. } | TokenType::Attribute { .. }
                | TokenType::EmptyLine),
            Node::Structure(_) => matches!(k, TokenType::Paragraph { .. } | TokenType::Section { .. }
                | TokenType::Figure | TokenType::Table | TokenType::ListItem { .. }
                | TokenType::Note { .. } | TokenType::Attribute { .. } | TokenType::EmptyLine
                | TokenType::Listing { .. }),
            Node::Section(_) => matches!(k, TokenType::Paragraph { .. } | TokenType::ListItem { .. }
                | TokenType::Figure | TokenType::Table | TokenType::Listing { .. }
                | TokenType::Note { .. } | TokenType::Section { .. }),
            Node::Table(_) => matches!(k, TokenType::Row | TokenType::Attribute { .. }
                | TokenType::Note { .. } | TokenType::EmptyLine),
            Node::TableRow(_) => matches!(k, TokenType::Cell { .. }),
            Node::TableCell(_) => matches!(k, TokenType::Paragraph { .. } | TokenType::ListItem { .. }
                | TokenType::EmptyLine),
            Node::Note(_) => matches!(k, TokenType::ListItem { .. }),
            Node::Figure(_) => matches!(k, TokenType::Attribute { .. } | TokenType::Note { .. }
                | TokenType::EmptyLine),
            Node::List(_) => matches!(k, TokenType::ListItem { .. }),
            Node::ListItem(_) => matches!(k, TokenType::Paragraph { .. } | TokenType::EmptyLine),
            Node::Listing(_) => matches!(k, TokenType::Attribute { .. }),
            _ => false,
        }
    }

    /// `parent` with `child` appended, when `parent` holds children of any kind; otherwise
    /// both back.
    fn attach(&self, parent: Node, child: Node) -> (r: Result<Node, (Node, Node)>)
        ensures
            match r {
                Ok(p) => with_child(parent@, child@) == Some(p@),
                Err((p, c)) => with_child(parent@, child@) is None && p == parent && c == child,
            },
    {
        let ghost cv = child@;
        match parent {
            Node::Document(mut d) => {
                let ghost before = d.children@;
                d.children.push(child);
                assert(nodes_view(d.children@) == nodes_view(before.push(child)));
                Ok(Node::Document(d))
            },
            Node::Structure(mut s) => {
                let ghost before = s.children@;
                s.children.push(child);
                assert(nodes_view(s.children@) == nodes_view(before.push(child)));
                Ok(Node::Structure(s))
            },
            Node::Section(mut s) => {
                let ghost before = s.children@;
                s.children.push(child);
                assert(nodes_view(s.children@) == nodes_view(before.push(child)));
                Ok(Node::Section(s))
            },
            Node::ListItem(mut i) => {
                let ghost before = i.children@;
                i.children.push(child);
                assert(nodes_view(i.children@) == nodes_view(before.push(child)));
                Ok(Node::ListItem(i))
            },
            Node::Figure(mut f) => {
                let ghost before = f.children@;
                f.children.push(child);
                assert(nodes_view(f.children@) == nodes_view(before.push(child)));
                Ok(Node::Figure(f))
            },
            Node::Table(mut t) => {
                let ghost before = t.children@;
                t.children.push(child);
                assert(nodes_view(t.children@) == nodes_view(before.push(child)));
                Ok(Node::Table(t))
            },
            Node::TableRow(mut r) => {
                let ghost before = r.cells@;
                r.cells.push(child);
                assert(nodes_view(r.cells@) == nodes_view(before.push(child)));
                Ok(Node::TableRow(r))
            },
            Node::TableCell(mut c) => {
                let ghost before = c.children@;
                c.children.push(child);
                assert(nodes_view(c.children@) == nodes_view(before.push(child)));
                Ok(Node::TableCell(c))
            },
            Node::Note(mut n) => {
                let ghost before = n.children@;
                n.children.push(child);
                assert(nodes_view(n.children@) == nodes_view(before.push(child)));
                Ok(Node::Note(n))
            },
            other => Err((other, child)),
        }
    }

    /// Adds `node` to the innermost open container that takes it, or to the document.
    fn add_to_parent(&self, node: Node, stack: &mut Vec<Node>, root: &mut Document)
        ensures
            final(stack)@.len() == old(stack)@.len(),
            state_of(final(stack)@, *final(root)) == add_to_parent(
                state_of(old(stack)@, *old(root)),
                node@,
            ),
    {
        let ghost old_children = root.children@;
        if stack.len() == 0 {
            root.children.push(node);
            assert(nodes_view(root.children@) == nodes_view(old_children.push(node)));
            return;
        }
        let ghost old_st = state_of(old(stack)@, *old(root));
        let parent = stack.pop().unwrap();
        assert(old_st.stack.last() == parent@);
        assert(old_st.stack.drop_last() == nodes_view(stack@));
        assert(stack@.push(parent) == old(stack)@);
        if matches!(node, Node::ListItem(_)) {
            match parent {
                Node::List(mut l) => {
                    let ghost before = l.items@;
                    let ghost rest = stack@;
                    l.items.push(node);
                    assert(nodes_view(l.items@) == nodes_view(before.push(node)));
                    stack.push(Node::List(l));
                    assert(nodes_view(stack@) == nodes_view(rest.push(Node::List(l))));
                },
                other => {
                    let ghost rest = stack@;
                    stack.push(other);
                    assert(nodes_view(stack@) == nodes_view(rest.push(other)));
                    root.children.push(node);
                    assert(nodes_view(root.children@) == nodes_view(old_children.push(node)));
                },
            }
            return;
        }
        assert(!(node@ is ListItem));
        let ghost rest = stack@;
        match self.attach(parent, node) {
            Ok(p) => {
                stack.push(p);
                assert(nodes_view(stack@) == nodes_view(rest.push(p)));
            },
            Err((p, n)) => {
                stack.push(p);
                assert(nodes_view(stack@) == nodes_view(rest.push(p)));
                root.children.push(n);
                assert(nodes_view(root.children@) == nodes_view(old_children.push(n)));
            },
        }
    }

    /// Whether `rule` closes the innermost open container.
    fn should_close(&self, rule: &Rule, stack: &Vec<Node>) -> (r: bool)
        requires
            stack.len() > 0,
        ensures
            r == closes(rule_view(*rule), nodes_view(stack@)),
    {
        let n: usize = stack.len();
        let top = &stack[n - 1];
        proof {
            lemma_nodes_view_index(stack@);
        }
        match rule {
            Rule::EmptyLine => matches!(top, Node::TableCell(_) | Node::TableRow(_) | Node::Table(_)
                | Node::ListItem(_) | Node::List(_) | Node::Note(_) | Node::Figure(_)),
            Rule::Structure => matches!(top, Node::Structure(_) | Node::Section(_) | Node::Note(_)
                | Node::Table(_) | Node::List(_)),
            Rule::Section(level) => match top {
                Node::Section(s) => s.level >= *level,
                _ => matches!(top, Node::Table(_) | Node::Figure(_) | Node::Note(_) | Node::List(_)),
            },
            Rule::Incompatible(k) => !self.can_contain(top, k) || (matches!(k, TokenType::Structure { .. })
                && matches!(top, Node::Structure(_))),
            Rule::ListItem(level) => match top {
                Node::ListItem(i) => i.level >= *level,
                Node::List(_) => {
                    if n >= 2 {
                        match &stack[n - 2] {
                            Node::ListItem(p) => p.level >= *level,
                            _ => false,
                        }
                    } else {
                        false
                    }
                },
                _ => !self.is_container(top),
            },
            Rule::All => true,
        }
    }

    /// Closes open containers while `rule` says so.
    fn close_while(&self, rule: &Rule, stack: &mut Vec<Node>, root: &mut Document)
        ensures
            state_of(final(stack)@, *final(root)) == close_while(
                state_of(old(stack)@, *old(root)),
                rule_view(*rule),
            ),
    {
        while stack.len() > 0 && self.should_close(rule, stack)
            invariant
                close_while(state_of(stack@, *root), rule_view(*rule)) == close_while(
                    state_of(old(stack)@, *old(root)),
                    rule_view(*rule),
                ),
            decreases stack.len(),
        {
            let ghost st = state_of(stack@, *root);
            let node = stack.pop().unwrap();
            self.add_to_parent(node, stack, root);
            assert(state_of(stack@, *root) == pop_one(st));
        }
    }

    /// An empty line closes tables and their parts, lists and their items, notes and figures.
    fn handle_empty_line(&self, stack: &mut Vec<Node>, root: &mut Document)
        ensures
            state_of(final(stack)@, *final(root)) == close_while(
                state_of(old(stack)@, *old(root)),
                CloseRule::EmptyLine,
            ),
    {
        self.close_while(&Rule::EmptyLine, stack, root);
    }

    /// Closes every open container, innermost first.
    fn close_stack_to_bottom(&self, stack: &mut Vec<Node>, root: &mut Document)
        ensures
            state_of(final(stack)@, *final(root)) == close_while(
                state_of(old(stack)@, *old(root)),
                CloseRule::All,
            ),
    {
        self.close_while(&Rule::All, stack, root);
    }

    /// A list item: closes what it cannot follow, opens a list if needed, opens the item.
    fn process_list_item(&self, level: u8, text: String, stack: &mut Vec<Node>, root: &mut Document)
        ensures
            state_of(final(stack)@, *final(root)) == process_list_item(
                state_of(old(stack)@, *old(root)),
                level,
                text@,
            ),
    {
        self.close_while(&Rule::ListItem(level), stack, root);
        proof {
            lemma_nodes_view_index(stack@);
        }
        let needs_new_list: bool = if stack.len() > 0 {
            !matches!(&stack[stack.len() - 1], Node::List(_))
        } else {
            true
        };
        if needs_new_list {
            let ghost rest = stack@;
            let list = Node::List(ListContainer { items: Vec::new() });
            stack.push(list);
            assert(nodes_view(stack@) == nodes_view(rest.push(list)));
        }
        let ghost rest = stack@;
        let item = Node::ListItem(ListItem { level, text, children: Vec::new() });
        stack.push(item);
        assert(nodes_view(stack@) == nodes_view(rest.push(item)));
    }

    /// A node made from a token of kind `kind`: closes what it cannot follow, then opens it
    /// as a container or adds it to the innermost one.
    fn process_token(&self, node: Node, stack: &mut Vec<Node>, root: &mut Document, kind: &TokenType)
        ensures
            state_of(final(stack)@, *final(root)) == process_token(
                state_of(old(stack)@, *old(root)),
                node@,
                kind@,
            ),
    {
        if matches!(node, Node::Structure(_)) {
            self.close_while(&Rule::Structure, stack, root);
        }
        match node {
            Node::ListItem(item) => {
                self.process_list_item(item.level, item.text, stack, root);
            },
            other => {
                if let Node::Section(s) = &other {
                    self.close_while(&Rule::Section(s.level), stack, root);
                }
                self.close_while(&Rule::Incompatible(kind), stack, root);
                if self.is_container(&other) {
                    let ghost rest = stack@;
                    stack.push(other);
                    assert(nodes_view(stack@) == nodes_view(rest.push(other)));
                } else {
                    self.add_to_parent(other, stack, root);
                }
            },
        }
    }

    /// The node that a token of kind `kind` gives, if any.
    fn create_node_instance(&self, kind: &TokenType) -> (r: Option<Node>)
        ensures
            match r {
                Some(n) => create_node(kind@) == Some(n@),
                None => create_node(kind@) is None,
            },
    {
        match kind {
            TokenType::Paragraph { text } => Some(Node::Paragraph(Paragraph { text: text.clone() })),
            TokenType::Section { level, heading } => Some(Node::Section(Section {
                level: *level,
                title: heading.clone(),
                children: Vec::new(),
            })),
            TokenType::ListItem { level, text } => Some(Node::ListItem(ListItem {
                level: *level,
                text: text.clone(),
                children: Vec::new(),
            })),
            TokenType::Table => Some(Node::Table(Table { children: Vec::new(), attributes: AttributeMap::new() })),
            TokenType::Row => Some(Node::TableRow(TableRow { cells: Vec::new() })),
            TokenType::Cell { text } => {
                let mut cell = TableCell { children: Vec::new() };
                if let Some(txt) = text {
                    let p = Node::Paragraph(Paragraph { text: txt.clone() });
                    cell.children.push(p);
                    assert(nodes_view(cell.children@) == nodes_view(Seq::<Node>::empty().push(p)));
                }
                Some(Node::TableCell(cell))
            },
            TokenType::Listing { code } => Some(Node::Listing(Listing {
                text: code.clone(),
                attributes: AttributeMap::new(),
            })),
            TokenType::Note { kind } => Some(Node::Note(NoteBlock { kind: *kind, children: Vec::new() })),
            TokenType::Figure => Some(Node::Figure(Attributed {
                attributes: AttributeMap::new(),
                children: Vec::new(),
            })),
            TokenType::Structure { kind } => Some(Node::Structure(StructuralElement {
                kind: *kind,
                children: Vec::new(),
                attributes: AttributeMap::new(),
            })),
            _ => None,
        }
    }

    /// `node` with `key` bound to `value`, when it carries attributes.
    fn apply_to_node(&self, node: Node, key: String, value: String) -> (r: Node)
        ensures
            r@ == apply_to_node(node@, key@, value@),
    {
        match node {
            Node::Structure(mut s) => {
                s.attributes.insert(key, value);
                Node::Structure(s)
            },
            Node::Table(mut t) => {
                t.attributes.insert(key, value);
                Node::Table(t)
            },
            Node::Listing(mut l) => {
                l.attributes.insert(key, value);
                Node::Listing(l)
            },
            Node::Figure(mut f) => {
                f.attributes.insert(key, value);
                Node::Figure(f)
            },
            Node::Document(mut d) => {
                d.attributes.insert(key, value);
                Node::Document(d)
            },
            other => other,
        }
    }

    /// Moves every pending attribute into `dst`, leaving none pending.
    fn drain_into(&mut self, dst: &mut AttributeMap)
        ensures
            final(dst)@ == attrs_extend(old(dst)@, old(self).pending()),
            final(self).pending() == Seq::<(Seq<char>, Seq<char>)>::empty(),
            final(self).kinds() == old(self).kinds(),
            final(self).position() == old(self).position(),
    {
        proof {
            use_type_invariant(&*self);
        }
        let ghost p = self.pending();
        let ghost d0 = dst@;
        let n: usize = self.current_attributes.len();
        let mut i: usize = 0;
        assert(p.skip(0) =~= p);
        while i < n
            invariant
                i <= n == p.len(),
                p == self.current_attributes@,
                attrs_extend(dst@, p.skip(i as int)) == attrs_extend(d0, p),
            decreases n - i,
        {
            let (k, v) = self.current_attributes.entry(i);
            assert(p.skip(i as int).drop_first() =~= p.skip(i + 1));
            dst.insert(k.clone(), v.clone());
            i = i + 1;
        }
        assert(p.skip(n as int) =~= Seq::<(Seq<char>, Seq<char>)>::empty());
        self.current_attributes = AttributeMap::new();
    }

    /// `node` with the pending attributes moved into it, when it carries attributes.
    fn apply_attributes(&mut self, node: Node) -> (r: Node)
        ensures
            (r@, final(self).pending()) == apply_attributes(node@, old(self).pending()),
            final(self).kinds() == old(self).kinds(),
            final(self).position() == old(self).position(),
    {
        if self.current_attributes.is_empty() {
            return node;
        }
        match node {
            Node::Document(mut d) => {
                self.drain_into(&mut d.attributes);
                Node::Document(d)
            },
            Node::Structure(mut s) => {
                self.drain_into(&mut s.attributes);
                Node::Structure(s)
            },
            Node::Table(mut t) => {
                self.drain_into(&mut t.attributes);
                Node::Table(t)
            },
            Node::Listing(mut l) => {
                self.drain_into(&mut l.attributes);
                Node::Listing(l)
            },
            Node::Figure(mut f) => {
                self.drain_into(&mut f.attributes);
                Node::Figure(f)
            },
            other => other,
        }
    }

    /// Builds the document from the tokens not consumed yet, consuming them all.
    pub fn parse(&mut self) -> (r: Node)
        ensures
            ({
                let (st, p) = run(
                    initial_state(),
                    old(self).pending(),
                    old(self).kinds(),
                    old(self).position(),
                );
                &&& r@ == finish(st)
                &&& final(self).pending() == p
            }),
            final(self).kinds() == old(self).kinds(),
            final(self).position() == final(self).kinds().len(),
    {
        proof {
            use_type_invariant(&*self);
        }
        let mut root = Document { children: Vec::new(), attributes: AttributeMap::new() };
        let mut stack: Vec<Node> = Vec::new();
        let ghost ks = self.kinds();
        let ghost target = run(initial_state(), self.pending(), ks, self.position());
        assert(state_of(stack@, root) == initial_state());
        while self.pos < self.tokens.len()
            invariant
                self.pos <= self.tokens.len(),
                self.kinds() == ks,
                ks == old(self).kinds(),
                ks.len() == self.tokens.len(),
                target == run(initial_state(), old(self).pending(), ks, old(self).position()),
                run(state_of(stack@, root), self.pending(), ks, self.position()) == target,
            decreases self.tokens.len() - self.pos,
        {
            let i: usize = self.pos;
            let kind = clone_kind(&self.tokens[i].kind);
            assert(kind@ == ks[i as int]);
            self.pos = i + 1;
            let ghost st0 = state_of(stack@, root);
            let ghost p0 = self.pending();
            match kind {
                TokenType::EmptyLine => {
                    self.handle_empty_line(&mut stack, &mut root);
                },
                TokenType::Attribute { key, value } => {
                    if stack.len() > 0 {
                        let ghost rest = stack@;
                        let top = stack.pop().unwrap();
                        let top2 = self.apply_to_node(top, key, value);
                        stack.push(top2);
                        assert(nodes_view(stack@) == nodes_view(rest.drop_last().push(top2)));
                    } else {
                        root.attributes.insert(key, value);
                    }
                },
                other => {
                    if let Some(node) = self.create_node_instance(&other) {
                        let node2 = self.apply_attributes(node);
                        self.process_token(node2, &mut stack, &mut root, &other);
                    }
                },
            }
            assert((state_of(stack@, root), self.pending()) == step(st0, p0, ks[i as int]));
        }
        self.close_stack_to_bottom(&mut stack, &mut root);
        Node::Document(root)
    }
}

} // verus!
