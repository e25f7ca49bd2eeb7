//! The shape of the document tree: every node sits in a parent that may hold it.
use vstd::prelude::*;
use crate::lexer::token::TokenKindV;
use crate::parser::ast::{AttrsV, NodeV};
use crate::parser::debug::children_of;
use crate::parser::{
    add_to_parent, apply_attributes, apply_to_node, close_while, closes, create_node,
    initial_state, lemma_pop_one_len, pop_one, process_list_item, process_token, push_open,
    run, spec_parse, step, with_child, CloseRule, ParseState,
};

verus! {

/// How a node holds its children: as the root of the document, as a list, a table, a
/// table row, or as any other node.
pub enum Holder {
    Root,
    List,
    Table,
    Row,
    Other,
}

/// How `n` holds its children.
pub open spec fn holder(n: NodeV) -> Holder {
    match n {
        NodeV::Document { .. } => Holder::Root,
        NodeV::List { .. } => Holder::List,
        NodeV::Table { .. } => Holder::Table,
        NodeV::TableRow { .. } => Holder::Row,
        _ => Holder::Other,
    }
}

/// Whether `c` may be a child of a node that holds it as `h`: no document below the root;
/// list items inside lists, and nothing else inside a list; rows inside tables or at the
/// top; cells inside rows or at the top.
pub open spec fn fits(h: Holder, c: NodeV) -> bool {
    &&& !(c is Document)
    &&& (h is List <==> c is ListItem)
    &&& (c is TableRow ==> h is Table || h is Root)
    &&& (c is TableCell ==> h is Row || h is Root)
}

/// Every node in `n` (itself included) has children that fit it, and every list has an
/// item.
pub open spec fn shaped(n: NodeV) -> bool
    decreases n,
{
    match n {
        NodeV::Document { children, .. } => all_fit(Holder::Root, children),
        NodeV::Structure { children, .. } => all_fit(Holder::Other, children),
        NodeV::Section { children, .. } => all_fit(Holder::Other, children),
        NodeV::Paragraph { .. } => true,
        NodeV::List { items } => items.len() > 0 && all_fit(Holder::List, items),
        NodeV::ListItem { children, .. } => all_fit(Holder::Other, children),
        NodeV::Figure { children, .. } => all_fit(Holder::Other, children),
        NodeV::Table { children, .. } => all_fit(Holder::Table, children),
        NodeV::TableRow { cells } => all_fit(Holder::Row, cells),
        NodeV::TableCell { children } => all_fit(Holder::Other, children),
        NodeV::Listing { .. } => true,
        NodeV::Note { children, .. } => all_fit(Holder::Other, children),
    }
}

/// Each of `s` fits a parent that holds it as `h`, and is [`shaped`].
pub open spec fn all_fit(h: Holder, s: Seq<NodeV>) -> bool
    decreases s,
{
    if s.len() == 0 {
        true
    } else {
        all_fit(h, s.subrange(0, s.len() - 1)) && fits(h, s[s.len() - 1]) && shaped(
            s[s.len() - 1],
        )
    }
}

/// The children that an open container holds so far fit it (a list may still be empty).
pub open spec fn open_ok(n: NodeV) -> bool {
    all_fit(holder(n), children_of(n))
}

/// Whether `n` may be opened or added as the child of the innermost open container of
/// `st` (of the root, when nothing is open).
pub open spec fn placed(st: ParseState, n: NodeV) -> bool {
    if st.stack.len() == 0 {
        fits(Holder::Root, n)
    } else {
        fits(holder(st.stack.last()), n)
    }
}

/// The open container at `i` fits the one around it.
pub open spec fn linked(stack: Seq<NodeV>, i: int) -> bool {
    fits(holder(stack[i - 1]), stack[i])
}

/// The shape kept between two closings: each open container and the root hold children
/// that fit them, and each open container fits the one around it (the root for the
/// outermost).
pub open spec fn core_shape(st: ParseState) -> bool {
    &&& forall|i: int| 0 <= i < st.stack.len() ==> open_ok(#[trigger] st.stack[i])
    &&& forall|i: int| 0 < i < st.stack.len() ==> #[trigger] linked(st.stack, i)
    &&& st.stack.len() > 0 ==> fits(Holder::Root, st.stack[0])
    &&& all_fit(Holder::Root, st.children)
}

/// The shape kept between tokens: [`core_shape`], and the innermost open container is no
/// empty list.
pub open spec fn shape_inv(st: ParseState) -> bool {
    &&& core_shape(st)
    &&& st.stack.len() > 0 && st.stack.last() is List ==> children_of(st.stack.last()).len() > 0
}

/// `all_fit` of an appended sequence.
pub proof fn lemma_all_fit_push(h: Holder, s: Seq<NodeV>, x: NodeV)
    ensures
        all_fit(h, s.push(x)) == (all_fit(h, s) && fits(h, x) && shaped(x)),
{
    assert(s.push(x).subrange(0, s.len() as int) =~= s);
}

/// A node is shaped when its children fit it and, for a list, it has an item.
pub proof fn lemma_shaped_open(n: NodeV)
    ensures
        shaped(n) == (open_ok(n) && (n is List ==> children_of(n).len() > 0)),
{
}

/// Putting `t` in place of the innermost open container keeps the shape between
/// closings, when `t` holds children that fit it and fits wherever the old one did.
pub proof fn lemma_replace_top_shape(st: ParseState, t: NodeV)
    requires
        core_shape(st),
        st.stack.len() > 0,
        open_ok(t),
        forall|h: Holder| #[trigger] fits(h, t) == fits(h, st.stack.last()),
    ensures
        core_shape(
            ParseState {
                stack: st.stack.drop_last().push(t),
                children: st.children,
                attributes: st.attributes,
            },
        ),
{
    let r = st.stack.drop_last().push(t);
    let n = st.stack.len() - 1;
    assert forall|i: int| 0 <= i < r.len() implies open_ok(#[trigger] r[i]) by {
        if i < n {
            assert(r[i] == st.stack[i]);
        }
    }
    assert forall|i: int| 0 < i < r.len() implies #[trigger] linked(r, i) by {
        assert(r[i - 1] == st.stack[i - 1]);
        assert(linked(st.stack, i));
        if i < n {
            assert(r[i] == st.stack[i]);
        }
    }
    assert(fits(Holder::Root, st.stack[0]));
    if n > 0 {
        assert(r[0] == st.stack[0]);
    }
}

/// Adding a node that fits where it goes keeps the shape.
pub proof fn lemma_add_to_parent_shape(st: ParseState, node: NodeV)
    requires
        core_shape(st),
        shaped(node),
        placed(st, node),
    ensures
        shape_inv(add_to_parent(st, node)),
{
    if st.stack.len() == 0 {
        lemma_all_fit_push(Holder::Root, st.children, node);
    } else {
        let parent = st.stack.last();
        assert(open_ok(st.stack[st.stack.len() - 1]));
        if node is ListItem {
            let items = children_of(parent);
            lemma_all_fit_push(Holder::List, items, node);
            let t = NodeV::List { items: items.push(node) };
            lemma_replace_top_shape(st, t);
        } else {
            match with_child(parent, node) {
                Some(p) => {
                    lemma_all_fit_push(holder(parent), children_of(parent), node);
                    assert(children_of(p) == children_of(parent).push(node));
                    lemma_replace_top_shape(st, p);
                },
                None => {
                    lemma_all_fit_push(Holder::Root, st.children, node);
                },
            }
        }
    }
}

/// Closing the innermost container keeps the shape.
pub proof fn lemma_pop_one_shape(st: ParseState)
    requires
        shape_inv(st),
        st.stack.len() > 0,
    ensures
        shape_inv(pop_one(st)),
{
    let rest = st.stack.drop_last();
    let inner = ParseState { stack: rest, children: st.children, attributes: st.attributes };
    let node = st.stack.last();
    assert(core_shape(inner)) by {
        assert forall|i: int| 0 <= i < rest.len() implies #[trigger] rest[i] == st.stack[i] by {}
        assert forall|i: int| 0 < i < rest.len() implies #[trigger] linked(rest, i) by {
            assert(linked(st.stack, i));
            assert(rest[i] == st.stack[i] && rest[i - 1] == st.stack[i - 1]);
        }
        if rest.len() > 0 {
            assert(rest[0] == st.stack[0]);
        }
    }
    assert(open_ok(st.stack[st.stack.len() - 1]));
    lemma_shaped_open(node);
    if rest.len() > 0 {
        assert(linked(st.stack, st.stack.len() - 1));
    }
    lemma_add_to_parent_shape(inner, node);
}

/// Closing containers keeps the shape.
pub proof fn lemma_close_while_shape(st: ParseState, rule: CloseRule)
    requires
        shape_inv(st),
    ensures
        shape_inv(close_while(st, rule)),
    decreases st.stack.len(),
{
    if st.stack.len() > 0 && closes(rule, st.stack) {
        lemma_pop_one_len(st);
        lemma_pop_one_shape(st);
        lemma_close_while_shape(pop_one(st), rule);
    }
}

/// Closing stops when nothing is open or the rule keeps the innermost container open.
pub proof fn lemma_close_while_stops(st: ParseState, rule: CloseRule)
    ensures
        close_while(st, rule).stack.len() == 0 || !closes(rule, close_while(st, rule).stack),
    decreases st.stack.len(),
{
    if st.stack.len() > 0 && closes(rule, st.stack) {
        lemma_pop_one_len(st);
        lemma_close_while_stops(pop_one(st), rule);
    }
}

/// Opening a container that fits where it goes keeps the shape between closings.
pub proof fn lemma_push_open_shape(st: ParseState, n: NodeV)
    requires
        core_shape(st),
        open_ok(n),
        placed(st, n),
    ensures
        core_shape(push_open(st, n)),
{
    let r = push_open(st, n);
    assert forall|i: int| 0 <= i < r.stack.len() implies open_ok(#[trigger] r.stack[i]) by {
        if i < st.stack.len() {
            assert(r.stack[i] == st.stack[i]);
        }
    }
    assert forall|i: int| 0 < i < r.stack.len() implies #[trigger] linked(r.stack, i) by {
        assert(r.stack[i - 1] == st.stack[i - 1]);
        if i < st.stack.len() {
            assert(r.stack[i] == st.stack[i]);
            assert(linked(st.stack, i));
        }
    }
    if st.stack.len() > 0 {
        assert(r.stack[0] == st.stack[0]);
    }
}

/// A list item keeps the shape: it opens inside a list, and a new list only opens where
/// a list may stand.
pub proof fn lemma_list_item_shape(st: ParseState, level: u8, text: Seq<char>)
    requires
        shape_inv(st),
    ensures
        shape_inv(process_list_item(st, level, text)),
{
    let a = close_while(st, CloseRule::ListItem(level));
    lemma_close_while_shape(st, CloseRule::ListItem(level));
    let empty = NodeV::List { items: seq![] };
    let b = if a.stack.len() > 0 && a.stack.last() is List {
        a
    } else {
        push_open(a, empty)
    };
    if !(a.stack.len() > 0 && a.stack.last() is List) {
        if a.stack.len() > 0 {
            if a.stack.len() > 1 {
                assert(linked(a.stack, a.stack.len() - 1));
            } else {
                assert(fits(Holder::Root, a.stack[0]));
            }
        }
        lemma_push_open_shape(a, empty);
    }
    let item = NodeV::ListItem { level, text, children: seq![] };
    lemma_push_open_shape(b, item);
}

/// Whether `node` is what a token of kind `k` makes, as far as the shape goes.
pub open spec fn made_from(node: NodeV, k: TokenKindV) -> bool {
    &&& open_ok(node)
    &&& !(node is Document) && !(node is List)
    &&& node is ListItem <==> k is ListItem
    &&& node is TableRow <==> k is Row
    &&& node is TableCell <==> k is Cell
    &&& node is Structure <==> k is Structure
}

/// A node made from a token keeps the shape.
pub proof fn lemma_process_token_shape(st: ParseState, node: NodeV, k: TokenKindV)
    requires
        shape_inv(st),
        made_from(node, k),
    ensures
        shape_inv(process_token(st, node, k)),
{
    lemma_close_while_shape(st, CloseRule::Structure);
    let st1 = if node is Structure {
        close_while(st, CloseRule::Structure)
    } else {
        st
    };
    match node {
        NodeV::ListItem { level, text, .. } => {
            lemma_list_item_shape(st1, level, text);
        },
        _ => {
            let st2 = match node {
                NodeV::Section { level, .. } => close_while(st1, CloseRule::Section(level)),
                _ => st1,
            };
            if let NodeV::Section { level, .. } = node {
                lemma_close_while_shape(st1, CloseRule::Section(level));
            }
            let st3 = close_while(st2, CloseRule::Incompatible(k));
            lemma_close_while_shape(st2, CloseRule::Incompatible(k));
            lemma_close_while_stops(st2, CloseRule::Incompatible(k));
            assert(placed(st3, node));
            lemma_shaped_open(node);
            if crate::parser::is_container(node) {
                lemma_push_open_shape(st3, node);
            } else {
                lemma_add_to_parent_shape(st3, node);
            }
        },
    }
}

/// Binding an attribute leaves a node's kind and children as they were.
pub proof fn lemma_apply_to_node_shape(n: NodeV, key: Seq<char>, value: Seq<char>)
    ensures
        holder(apply_to_node(n, key, value)) == holder(n),
        children_of(apply_to_node(n, key, value)) == children_of(n),
        forall|h: Holder| fits(h, apply_to_node(n, key, value)) == #[trigger] fits(h, n),
{
}

/// A token keeps the shape.
pub proof fn lemma_step_shape(st: ParseState, p: AttrsV, k: TokenKindV)
    requires
        shape_inv(st),
    ensures
        shape_inv(step(st, p, k).0),
{
    match k {
        TokenKindV::EmptyLine => {
            lemma_close_while_shape(st, CloseRule::EmptyLine);
        },
        TokenKindV::Attribute { key, value } => {
            if st.stack.len() > 0 {
                let n = st.stack.len() - 1;
                lemma_apply_to_node_shape(st.stack[n], key, value);
                assert(open_ok(st.stack[n]));
                lemma_replace_top_shape(st, apply_to_node(st.stack[n], key, value));
            }
        },
        _ => {
            if let Some(n) = create_node(k) {
                let n2 = apply_attributes(n, p).0;
                assert(made_from(n2, k)) by {
                    if let TokenKindV::Cell { text } = k {
                        if let Some(t) = text {
                            let par = NodeV::Paragraph { text: t };
                            lemma_all_fit_push(Holder::Other, seq![], par);
                            assert(seq![par] =~= Seq::<NodeV>::empty().push(par));
                        }
                    }
                }
                lemma_process_token_shape(st, n2, k);
            }
        },
    }
}

/// The tokens `ks[i..]` keep the shape.
pub proof fn lemma_run_shape(st: ParseState, p: AttrsV, ks: Seq<TokenKindV>, i: int)
    requires
        shape_inv(st),
        0 <= i,
    ensures
        shape_inv(run(st, p, ks, i).0),
    decreases ks.len() - i,
{
    if i < ks.len() {
        lemma_step_shape(st, p, ks[i]);
        let (st2, p2) = step(st, p, ks[i]);
        lemma_run_shape(st2, p2, ks, i + 1);
    }
}

/// Every node of a parsed document sits in a parent that may hold it: no document below
/// the root; every list has at least one item and holds nothing but list items; every
/// list item stands in a list; a table row stands in a table or at the top; a table cell
/// stands in a row or at the top.
pub proof fn law_parse_tree_shape(ks: Seq<TokenKindV>)
    ensures
        shaped(spec_parse(ks)),
{
    let st0 = initial_state();
    lemma_run_shape(st0, seq![], ks, 0);
    let st = run(st0, seq![], ks, 0).0;
    lemma_close_while_shape(st, CloseRule::All);
    lemma_close_while_stops(st, CloseRule::All);
}

} // verus!
