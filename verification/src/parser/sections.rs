//! How sections nest: a section heading closes the open sections of its level or deeper,
//! so that sections of the same level become siblings.
use vstd::prelude::*;
use crate::lexer::token::TokenKindV;
use crate::parser::ast::{AttrsV, NodeV};
use crate::parser::debug::children_of;
use crate::parser::laws::{lemma_close_for_structure, lemma_close_while_nested, lemma_step_nested, well_nested};
use crate::parser::shape::lemma_close_while_stops;
use crate::parser::{
    add_to_parent, apply_attributes, apply_to_node, close_while, closes, create_node,
    initial_state, is_container, lemma_pop_one_len, pop_one, process_token, push_open, run,
    spec_parse, step, with_child, CloseRule, ParseState,
};

verus! {

/// Every section in `n`, `n` itself included, has a level above `l`.
pub open spec fn deeper(l: u8, n: NodeV) -> bool
    decreases n,
{
    match n {
        NodeV::Document { children, .. } => all_deeper(l, children),
        NodeV::Structure { children, .. } => all_deeper(l, children),
        NodeV::Section { level, children, .. } => level > l && all_deeper(l, children),
        NodeV::Paragraph { .. } => true,
        NodeV::List { items } => all_deeper(l, items),
        NodeV::ListItem { children, .. } => all_deeper(l, children),
        NodeV::Figure { children, .. } => all_deeper(l, children),
        NodeV::Table { children, .. } => all_deeper(l, children),
        NodeV::TableRow { cells } => all_deeper(l, cells),
        NodeV::TableCell { children } => all_deeper(l, children),
        NodeV::Listing { .. } => true,
        NodeV::Note { children, .. } => all_deeper(l, children),
    }
}

/// [`deeper`] for each of `s`.
pub open spec fn all_deeper(l: u8, s: Seq<NodeV>) -> bool
    decreases s,
{
    if s.len() == 0 {
        true
    } else {
        all_deeper(l, s.subrange(0, s.len() - 1)) && deeper(l, s[s.len() - 1])
    }
}

/// No section in `n` holds, at any depth below it, a section of the same or a lower level.
pub open spec fn sections_nest(n: NodeV) -> bool
    decreases n,
{
    match n {
        NodeV::Document { children, .. } => all_nest(children),
        NodeV::Structure { children, .. } => all_nest(children),
        NodeV::Section { level, children, .. } => all_deeper(level, children) && all_nest(
            children,
        ),
        NodeV::Paragraph { .. } => true,
        NodeV::List { items } => all_nest(items),
        NodeV::ListItem { children, .. } => all_nest(children),
        NodeV::Figure { children, .. } => all_nest(children),
        NodeV::Table { children, .. } => all_nest(children),
        NodeV::TableRow { cells } => all_nest(cells),
        NodeV::TableCell { children } => all_nest(children),
        NodeV::Listing { .. } => true,
        NodeV::Note { children, .. } => all_nest(children),
    }
}

/// [`sections_nest`] for each of `s`.
pub open spec fn all_nest(s: Seq<NodeV>) -> bool
    decreases s,
{
    if s.len() == 0 {
        true
    } else {
        all_nest(s.subrange(0, s.len() - 1)) && sections_nest(s[s.len() - 1])
    }
}

/// The tokens of documents made of structural elements, sections, paragraphs, tables,
/// notes and figures (and attributes, empty lines and errors): no list items, rows, cells
/// or listings.
pub open spec fn plain_kind(k: TokenKindV) -> bool {
    !(k is ListItem) && !(k is Row) && !(k is Cell) && !(k is Listing)
}

/// The containers that such tokens open.
pub open spec fn plain_open(n: NodeV) -> bool {
    n is Structure || n is Section || n is Table || n is Note || n is Figure
}

/// When `parent` is a section, everything in `n` lies deeper than it.
pub open spec fn below(parent: NodeV, n: NodeV) -> bool {
    match parent {
        NodeV::Section { level, .. } => deeper(level, n),
        _ => true,
    }
}

/// When the open container at `i` is a section, everything in `n` lies deeper than it.
pub open spec fn guard(stack: Seq<NodeV>, i: int, n: NodeV) -> bool {
    below(stack[i], n)
}

/// The open container at `j` lies deeper than the one at `i`, when that is a section.
pub open spec fn guarded(stack: Seq<NodeV>, i: int, j: int) -> bool {
    guard(stack, i, stack[j])
}

/// Every open section of `st` lies above everything in `n`.
pub open spec fn covers(st: ParseState, n: NodeV) -> bool {
    forall|i: int| 0 <= i < st.stack.len() ==> #[trigger] guard(st.stack, i, n)
}

/// What holds of the parser between tokens, for such documents: the open containers are
/// of the kinds above, each nests its sections and lies deeper than the open sections
/// around it, and the top-level nodes nest their sections.
pub open spec fn sec_inv(st: ParseState) -> bool {
    &&& forall|i: int| 0 <= i < st.stack.len() ==> #[trigger] plain_open(st.stack[i])
    &&& forall|i: int| 0 <= i < st.stack.len() ==> sections_nest(#[trigger] st.stack[i])
    &&& forall|i: int, j: int| 0 <= i < j < st.stack.len() ==> #[trigger] guarded(st.stack, i, j)
    &&& all_nest(st.children)
}

/// `all_deeper` of an appended sequence.
pub proof fn lemma_all_deeper_push(l: u8, s: Seq<NodeV>, x: NodeV)
    ensures
        all_deeper(l, s.push(x)) == (all_deeper(l, s) && deeper(l, x)),
{
    assert(s.push(x).subrange(0, s.len() as int) =~= s);
}

/// `all_nest` of an appended sequence.
pub proof fn lemma_all_nest_push(s: Seq<NodeV>, x: NodeV)
    ensures
        all_nest(s.push(x)) == (all_nest(s) && sections_nest(x)),
{
    assert(s.push(x).subrange(0, s.len() as int) =~= s);
}

/// A node with nothing inside it nests; it lies deeper than `l` unless it is a section of
/// level `l` or lower.
pub proof fn lemma_fresh_node(n: NodeV, l: u8)
    requires
        children_of(n).len() == 0,
    ensures
        sections_nest(n),
        deeper(l, n) == (n matches NodeV::Section { level, .. } ==> level > l),
{
}

/// Appending a child keeps a node's kind; the node then lies deeper than `l` and nests its
/// sections exactly when it did and the child does (below a section, lying deeper than it).
pub proof fn lemma_with_child_sections(parent: NodeV, node: NodeV, l: u8)
    requires
        plain_open(parent),
    ensures
        with_child(parent, node) is Some,
        plain_open(with_child(parent, node).unwrap()),
        deeper(l, with_child(parent, node).unwrap()) == (deeper(l, parent) && deeper(l, node)),
        sections_nest(with_child(parent, node).unwrap()) == (sections_nest(parent)
            && sections_nest(node) && below(parent, node)),
{
    lemma_all_deeper_push(l, children_of(parent), node);
    lemma_all_nest_push(children_of(parent), node);
    if let NodeV::Section { level, .. } = parent {
        lemma_all_deeper_push(level, children_of(parent), node);
    }
}

/// Adding a node that nests and lies deeper than every open section keeps the invariant.
pub proof fn lemma_add_to_parent_sec(st: ParseState, node: NodeV)
    requires
        sec_inv(st),
        sections_nest(node),
        covers(st, node),
        !(node is ListItem),
    ensures
        sec_inv(add_to_parent(st, node)),
{
    let r = add_to_parent(st, node);
    if st.stack.len() == 0 {
        lemma_all_nest_push(st.children, node);
    } else {
        let n = st.stack.len() - 1;
        let parent = st.stack[n];
        assert(plain_open(parent));
        lemma_with_child_sections(parent, node, 0);
        let p = with_child(parent, node).unwrap();
        assert(guard(st.stack, n, node));
        assert(r.stack == st.stack.drop_last().push(p));
        assert(r.stack[n] == p);
        assert forall|i: int| 0 <= i < r.stack.len() implies #[trigger] plain_open(r.stack[i])
            && sections_nest(r.stack[i]) by {
            if i < n {
                assert(r.stack[i] == st.stack[i]);
            }
        }
        assert forall|i: int, j: int| 0 <= i < j < r.stack.len() implies #[trigger] guarded(
            r.stack,
            i,
            j,
        ) by {
            assert(r.stack[i] == st.stack[i]);
            assert(guarded(st.stack, i, j));
            if j < n {
                assert(r.stack[j] == st.stack[j]);
            } else {
                assert(guard(st.stack, i, node));
                if let NodeV::Section { level, .. } = st.stack[i] {
                    lemma_with_child_sections(parent, node, level);
                }
            }
        }
    }
}

/// Closing the innermost container keeps the invariant.
pub proof fn lemma_pop_one_sec(st: ParseState)
    requires
        sec_inv(st),
        st.stack.len() > 0,
    ensures
        sec_inv(pop_one(st)),
{
    let n = st.stack.len() - 1;
    let rest = st.stack.drop_last();
    let inner = ParseState { stack: rest, children: st.children, attributes: st.attributes };
    assert(sec_inv(inner)) by {
        assert forall|i: int| 0 <= i < rest.len() implies #[trigger] rest[i] == st.stack[i] by {}
        assert forall|i: int, j: int| 0 <= i < j < rest.len() implies #[trigger] guarded(
            rest,
            i,
            j,
        ) by {
            assert(guarded(st.stack, i, j));
            assert(rest[i] == st.stack[i] && rest[j] == st.stack[j]);
        }
    }
    let node = st.stack[n];
    assert(plain_open(node) && sections_nest(node));
    assert forall|i: int| 0 <= i < rest.len() implies #[trigger] guard(rest, i, node) by {
        assert(guarded(st.stack, i, n));
        assert(rest[i] == st.stack[i]);
    }
    lemma_add_to_parent_sec(inner, node);
}

/// Closing containers keeps the invariant.
pub proof fn lemma_close_while_sec(st: ParseState, rule: CloseRule)
    requires
        sec_inv(st),
    ensures
        sec_inv(close_while(st, rule)),
    decreases st.stack.len(),
{
    if st.stack.len() > 0 && closes(rule, st.stack) {
        lemma_pop_one_len(st);
        lemma_pop_one_sec(st);
        lemma_close_while_sec(pop_one(st), rule);
    }
}

/// Opening a container that nests and lies deeper than every open section keeps the
/// invariant.
pub proof fn lemma_push_open_sec(st: ParseState, n: NodeV)
    requires
        sec_inv(st),
        plain_open(n),
        sections_nest(n),
        covers(st, n),
    ensures
        sec_inv(push_open(st, n)),
{
    let r = push_open(st, n);
    assert forall|i: int| 0 <= i < r.stack.len() implies #[trigger] plain_open(r.stack[i])
        && sections_nest(r.stack[i]) by {
        if i < st.stack.len() {
            assert(r.stack[i] == st.stack[i]);
        }
    }
    assert forall|i: int, j: int| 0 <= i < j < r.stack.len() implies #[trigger] guarded(
        r.stack,
        i,
        j,
    ) by {
        assert(r.stack[i] == st.stack[i]);
        if j < st.stack.len() {
            assert(r.stack[j] == st.stack[j]);
            assert(guarded(st.stack, i, j));
        } else {
            assert(guard(st.stack, i, n));
        }
    }
}

/// A section heading of level `l` finds, once the open sections of its level or deeper
/// and the open tables, figures, notes and lists are closed, only sections of lower levels
/// open: the new section lies deeper than all of them.
pub proof fn lemma_section_covered(st: ParseState, l: u8, title: Seq<char>)
    requires
        sec_inv(st),
        well_nested(st),
    ensures
        ({
            let st2 = close_while(st, CloseRule::Section(l));
            let st3 = close_while(st2, CloseRule::Incompatible(
                TokenKindV::Section { level: l, heading: title },
            ));
            &&& st3 == st2
            &&& covers(st2, NodeV::Section { level: l, title, children: seq![] })
        }),
{
    let k = TokenKindV::Section { level: l, heading: title };
    let sec = NodeV::Section { level: l, title, children: seq![] };
    let st2 = close_while(st, CloseRule::Section(l));
    lemma_close_while_sec(st, CloseRule::Section(l));
    lemma_close_while_nested(st, CloseRule::Section(l));
    lemma_close_while_stops(st, CloseRule::Section(l));
    if st2.stack.len() > 0 {
        let m = st2.stack.len() - 1;
        let top = st2.stack[m];
        assert(plain_open(top));
        assert(!closes(CloseRule::Section(l), st2.stack));
        assert(!closes(CloseRule::Incompatible(k), st2.stack));
        match top {
            NodeV::Section { level: t, .. } => {
                assert(t < l);
                assert forall|i: int| 0 <= i < st2.stack.len() implies #[trigger] guard(
                    st2.stack,
                    i,
                    sec,
                ) by {
                    if i < m {
                        assert(guarded(st2.stack, i, m));
                        if let NodeV::Section { level: li, .. } = st2.stack[i] {
                            lemma_fresh_node(sec, li);
                        }
                    }
                }
            },
            _ => {
                assert(top is Structure);
                assert(m == 0);
                assert forall|i: int| 0 <= i < st2.stack.len() implies #[trigger] guard(
                    st2.stack,
                    i,
                    sec,
                ) by {
                    assert(i == 0);
                }
            },
        }
    }
}

/// A token of such a document keeps the invariant.
pub proof fn lemma_step_sec(st: ParseState, p: AttrsV, k: TokenKindV)
    requires
        sec_inv(st),
        well_nested(st),
        plain_kind(k),
    ensures
        sec_inv(step(st, p, k).0),
{
    match k {
        TokenKindV::EmptyLine => {
            lemma_close_while_sec(st, CloseRule::EmptyLine);
        },
        TokenKindV::Attribute { key, value } => {
            if st.stack.len() > 0 {
                let r = step(st, p, k).0;
                let n = st.stack.len() - 1;
                let t = apply_to_node(st.stack[n], key, value);
                assert(r.stack[n] == t);
                assert(children_of(t) == children_of(st.stack[n]));
                assert forall|i: int| 0 <= i < r.stack.len() implies #[trigger] plain_open(
                    r.stack[i],
                ) && sections_nest(r.stack[i]) by {
                    if i < n {
                        assert(r.stack[i] == st.stack[i]);
                    } else {
                        assert(plain_open(st.stack[n]) && sections_nest(st.stack[n]));
                    }
                }
                assert forall|i: int, j: int| 0 <= i < j < r.stack.len() implies #[trigger] guarded(
                    r.stack,
                    i,
                    j,
                ) by {
                    assert(r.stack[i] == st.stack[i]);
                    assert(guarded(st.stack, i, j));
                    if j < n {
                        assert(r.stack[j] == st.stack[j]);
                    } else {
                        if let NodeV::Section { level, .. } = st.stack[i] {
                            assert(deeper(level, t) == deeper(level, st.stack[n]));
                        }
                    }
                }
            }
        },
        _ => {
            if let Some(n0) = create_node(k) {
                let node = apply_attributes(n0, p).0;
                assert(children_of(node) == children_of(n0));
                assert(!(node is ListItem) && !(node is List));
                lemma_fresh_node(node, 0);
                let st1 = if node is Structure {
                    close_while(st, CloseRule::Structure)
                } else {
                    st
                };
                lemma_close_while_sec(st, CloseRule::Structure);
                lemma_close_while_nested(st, CloseRule::Structure);
                let st2 = match node {
                    NodeV::Section { level, .. } => close_while(st1, CloseRule::Section(level)),
                    _ => st1,
                };
                if let NodeV::Section { level, .. } = node {
                    lemma_close_while_sec(st1, CloseRule::Section(level));
                }
                let st3 = close_while(st2, CloseRule::Incompatible(k));
                lemma_close_while_sec(st2, CloseRule::Incompatible(k));
                match node {
                    NodeV::Section { level, title, .. } => {
                        lemma_section_covered(st1, level, title);
                        assert(node == NodeV::Section { level, title, children: seq![] });
                    },
                    NodeV::Structure { .. } => {
                        lemma_close_for_structure(st1, k);
                    },
                    _ => {
                        assert forall|i: int| 0 <= i < st3.stack.len() implies #[trigger] guard(
                            st3.stack,
                            i,
                            node,
                        ) by {
                            if let NodeV::Section { level, .. } = st3.stack[i] {
                                lemma_fresh_node(node, level);
                            }
                        }
                    },
                }
                assert(covers(st3, node));
                assert(process_token(st, node, k) == if is_container(node) {
                    push_open(st3, node)
                } else {
                    add_to_parent(st3, node)
                });
                if is_container(node) {
                    lemma_push_open_sec(st3, node);
                } else {
                    lemma_add_to_parent_sec(st3, node);
                }
            }
        },
    }
}

/// The tokens `ks[i..]` of such a document keep the invariant.
pub proof fn lemma_run_sec(st: ParseState, p: AttrsV, ks: Seq<TokenKindV>, i: int)
    requires
        sec_inv(st),
        well_nested(st),
        0 <= i,
        forall|j: int| 0 <= j < ks.len() ==> plain_kind(#[trigger] ks[j]),
    ensures
        sec_inv(run(st, p, ks, i).0),
    decreases ks.len() - i,
{
    if i < ks.len() {
        lemma_step_sec(st, p, ks[i]);
        lemma_step_nested(st, p, ks[i]);
        let (st2, p2) = step(st, p, ks[i]);
        lemma_run_sec(st2, p2, ks, i + 1);
    }
}

/// A section heading closes the open sections of its level or deeper, so sections of the
/// same level are siblings: in a document of structural elements, sections, paragraphs,
/// tables, notes and figures, no section holds, at any depth below it, a section of the
/// same or a lower level.
pub proof fn law_same_level_sections_are_siblings(ks: Seq<TokenKindV>)
    requires
        forall|j: int| 0 <= j < ks.len() ==> plain_kind(#[trigger] ks[j]),
    ensures
        sections_nest(spec_parse(ks)),
{
    let st0 = initial_state();
    assert(well_nested(st0));
    lemma_run_sec(st0, seq![], ks, 0);
    let st = run(st0, seq![], ks, 0).0;
    lemma_close_while_sec(st, CloseRule::All);
}

} // verus!
