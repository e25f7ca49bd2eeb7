//! What the parser keeps: below the root there are as many nodes (lists aside) as the
//! tokens make, and structural elements only stand at the top level of the document.
use vstd::prelude::*;
use crate::lexer::token::TokenKindV;
use crate::parser::ast::NodeV;
use crate::parser::debug::children_of;
use crate::parser::ast::{attrs_lookup, law_insert_then_lookup, AttrsV};
use crate::parser::{
    add_to_parent, apply_attributes, apply_to_node, close_while, closes, create_node,
    initial_state, is_container, lemma_pop_one_len, pop_one, process_list_item, process_token,
    push_open, run, spec_parse, step, with_child, CloseRule, ParseState,
};

verus! {

/// How many nodes `n` holds, itself included, not counting lists (which the parser adds
/// around list items on its own).
pub open spec fn content(n: NodeV) -> nat
    decreases n,
{
    match n {
        NodeV::Document { children, .. } => 1 + contents(children),
        NodeV::Structure { children, .. } => 1 + contents(children),
        NodeV::Section { children, .. } => 1 + contents(children),
        NodeV::Paragraph { .. } => 1,
        NodeV::List { items } => contents(items),
        NodeV::ListItem { children, .. } => 1 + contents(children),
        NodeV::Figure { children, .. } => 1 + contents(children),
        NodeV::Table { children, .. } => 1 + contents(children),
        NodeV::TableRow { cells } => 1 + contents(cells),
        NodeV::TableCell { children } => 1 + contents(children),
        NodeV::Listing { .. } => 1,
        NodeV::Note { children, .. } => 1 + contents(children),
    }
}

/// The [`content`] of each of `s`, added up.
pub open spec fn contents(s: Seq<NodeV>) -> nat
    decreases s,
{
    if s.len() == 0 {
        0
    } else {
        contents(s.subrange(0, s.len() - 1)) + content(s[s.len() - 1])
    }
}

/// The content held by a parser state: open containers and top-level nodes.
pub open spec fn state_content(st: ParseState) -> nat {
    contents(st.stack) + contents(st.children)
}

/// How many nodes a token of kind `k` brings into the tree.
pub open spec fn weight(k: TokenKindV) -> nat {
    match create_node(k) {
        Some(n) => content(n),
        None => 0,
    }
}

/// The weights of `ks[i..]`, added up.
pub open spec fn weights(ks: Seq<TokenKindV>, i: int) -> nat
    decreases ks.len() - i,
{
    if i < 0 || i >= ks.len() {
        0
    } else {
        weight(ks[i]) + weights(ks, i + 1)
    }
}

/// Appending adds the content of what is appended.
pub proof fn lemma_contents_push(s: Seq<NodeV>, x: NodeV)
    ensures
        contents(s.push(x)) == contents(s) + content(x),
{
    assert(s.push(x).subrange(0, s.len() as int) =~= s);
}

/// A node that takes a child holds the child's content more.
pub proof fn lemma_content_with_child(parent: NodeV, child: NodeV)
    ensures
        with_child(parent, child) matches Some(p) ==> content(p) == content(parent) + content(child),
{
    lemma_contents_push(children_of(parent), child);
}

/// Adding a node to its parent keeps all content and adds the node's.
pub proof fn lemma_add_to_parent_content(st: ParseState, node: NodeV)
    ensures
        state_content(add_to_parent(st, node)) == state_content(st) + content(node),
        add_to_parent(st, node).stack.len() == st.stack.len(),
{
    lemma_contents_push(st.children, node);
    if st.stack.len() > 0 {
        let parent = st.stack.last();
        let rest = st.stack.drop_last();
        assert(rest.push(parent) =~= st.stack);
        lemma_contents_push(rest, parent);
        lemma_content_with_child(parent, node);
        if let NodeV::List { items } = parent {
            lemma_contents_push(items, node);
            lemma_contents_push(rest, NodeV::List { items: items.push(node) });
        }
        if let Some(p) = with_child(parent, node) {
            lemma_contents_push(rest, p);
        }
    }
}

/// Closing the innermost container keeps all content.
pub proof fn lemma_pop_one_content(st: ParseState)
    requires
        st.stack.len() > 0,
    ensures
        state_content(pop_one(st)) == state_content(st),
        pop_one(st).stack.len() == st.stack.len() - 1,
{
    let rest = st.stack.drop_last();
    assert(rest.push(st.stack.last()) =~= st.stack);
    lemma_contents_push(rest, st.stack.last());
    lemma_add_to_parent_content(
        ParseState { stack: rest, children: st.children, attributes: st.attributes },
        st.stack.last(),
    );
}

/// Closing containers keeps all content.
pub proof fn lemma_close_while_content(st: ParseState, rule: CloseRule)
    ensures
        state_content(close_while(st, rule)) == state_content(st),
        rule == CloseRule::All ==> close_while(st, rule).stack.len() == 0,
    decreases st.stack.len(),
{
    if st.stack.len() > 0 && closes(rule, st.stack) {
        lemma_pop_one_content(st);
        lemma_close_while_content(pop_one(st), rule);
    }
}

/// Opening a container adds its content.
pub proof fn lemma_push_open_content(st: ParseState, n: NodeV)
    ensures
        state_content(push_open(st, n)) == state_content(st) + content(n),
{
    lemma_contents_push(st.stack, n);
}

/// A list item adds one node (the list that may be opened around it holds no content).
pub proof fn lemma_process_list_item_content(st: ParseState, level: u8, text: Seq<char>)
    ensures
        state_content(process_list_item(st, level, text)) == state_content(st) + 1,
{
    let st1 = close_while(st, CloseRule::ListItem(level));
    lemma_close_while_content(st, CloseRule::ListItem(level));
    let empty = NodeV::List { items: seq![] };
    lemma_push_open_content(st1, empty);
    let st2 = if st1.stack.len() > 0 && st1.stack.last() is List {
        st1
    } else {
        push_open(st1, empty)
    };
    let item = NodeV::ListItem { level, text, children: seq![] };
    lemma_push_open_content(st2, item);
}

/// A node made from a token adds its content.
pub proof fn lemma_process_token_content(st: ParseState, node: NodeV, k: TokenKindV)
    requires
        node matches NodeV::ListItem { children, .. } ==> children.len() == 0,
    ensures
        state_content(process_token(st, node, k)) == state_content(st) + content(node),
{
    lemma_close_while_content(st, CloseRule::Structure);
    let st1 = if node is Structure {
        close_while(st, CloseRule::Structure)
    } else {
        st
    };
    match node {
        NodeV::ListItem { level, text, .. } => {
            lemma_process_list_item_content(st1, level, text);
        },
        _ => {
            let st2 = match node {
                NodeV::Section { level, .. } => close_while(st1, CloseRule::Section(level)),
                _ => st1,
            };
            if let NodeV::Section { level, .. } = node {
                lemma_close_while_content(st1, CloseRule::Section(level));
            }
            let st3 = close_while(st2, CloseRule::Incompatible(k));
            lemma_close_while_content(st2, CloseRule::Incompatible(k));
            lemma_push_open_content(st3, node);
            lemma_add_to_parent_content(st3, node);
        },
    }
}

/// Moving attributes into a node leaves its content as it is.
pub proof fn lemma_apply_attributes_content(n: NodeV, p: AttrsV)
    ensures
        content(apply_attributes(n, p).0) == content(n),
        apply_attributes(n, p).0 is ListItem <==> n is ListItem,
        n matches NodeV::ListItem { children, .. } ==> apply_attributes(n, p).0 == n,
{
}

/// One token adds its weight.
pub proof fn lemma_step_content(st: ParseState, p: AttrsV, k: TokenKindV)
    ensures
        state_content(step(st, p, k).0) == state_content(st) + weight(k),
{
    match k {
        TokenKindV::EmptyLine => {
            lemma_close_while_content(st, CloseRule::EmptyLine);
        },
        TokenKindV::Attribute { key, value } => {
            if st.stack.len() > 0 {
                let rest = st.stack.drop_last();
                assert(rest.push(st.stack.last()) =~= st.stack);
                lemma_contents_push(rest, st.stack.last());
                lemma_contents_push(rest, apply_to_node(st.stack.last(), key, value));
            }
        },
        _ => {
            if let Some(n) = create_node(k) {
                lemma_apply_attributes_content(n, p);
                lemma_process_token_content(st, apply_attributes(n, p).0, k);
            }
        },
    }
}

/// The tokens `ks[i..]` add their weights.
pub proof fn lemma_run_content(st: ParseState, p: AttrsV, ks: Seq<TokenKindV>, i: int)
    requires
        0 <= i,
    ensures
        state_content(run(st, p, ks, i).0) == state_content(st) + weights(ks, i),
    decreases ks.len() - i,
{
    if i < ks.len() {
        lemma_step_content(st, p, ks[i]);
        let (st2, p2) = step(st, p, ks[i]);
        lemma_run_content(st2, p2, ks, i + 1);
    }
}

/// The node count is kept: below its root the document holds as many nodes (lists
/// aside, counted through their items) as its tokens make, one for each paragraph,
/// section, table part, note, figure, listing, item and structural element.
pub proof fn law_parse_keeps_content(ks: Seq<TokenKindV>)
    ensures
        contents(children_of(spec_parse(ks))) == weights(ks, 0),
{
    lemma_run_content(initial_state(), seq![], ks, 0);
    let st = run(initial_state(), seq![], ks, 0).0;
    lemma_close_while_content(st, CloseRule::All);
}

/// No structural element anywhere below `n`.
pub open spec fn free(n: NodeV) -> bool
    decreases n,
{
    match n {
        NodeV::Document { children, .. } => all_free(children),
        NodeV::Structure { children, .. } => all_free(children),
        NodeV::Section { children, .. } => all_free(children),
        NodeV::Paragraph { .. } => true,
        NodeV::List { items } => all_free(items),
        NodeV::ListItem { children, .. } => all_free(children),
        NodeV::Figure { children, .. } => all_free(children),
        NodeV::Table { children, .. } => all_free(children),
        NodeV::TableRow { cells } => all_free(cells),
        NodeV::TableCell { children } => all_free(children),
        NodeV::Listing { .. } => true,
        NodeV::Note { children, .. } => all_free(children),
    }
}

/// None of `s` is a structural element or holds one.
pub open spec fn all_free(s: Seq<NodeV>) -> bool
    decreases s,
{
    if s.len() == 0 {
        true
    } else {
        all_free(s.subrange(0, s.len() - 1)) && !(s[s.len() - 1] is Structure) && free(
            s[s.len() - 1],
        )
    }
}

/// What holds of the parser state between tokens: no open container is the document;
/// only the outermost may be a structural element; nothing open or finished holds a
/// structural element inside it.
pub open spec fn well_nested(st: ParseState) -> bool {
    &&& forall|i: int| 0 <= i < st.stack.len() ==> !(#[trigger] st.stack[i] is Document)
    &&& forall|i: int| 0 <= i < st.stack.len() ==> free(#[trigger] st.stack[i])
    &&& forall|i: int| 0 < i < st.stack.len() ==> !(#[trigger] st.stack[i] is Structure)
    &&& forall|j: int| 0 <= j < st.children.len() ==> free(#[trigger] st.children[j])
}

/// `all_free` of an appended sequence.
pub proof fn lemma_all_free_push(s: Seq<NodeV>, x: NodeV)
    ensures
        all_free(s.push(x)) == (all_free(s) && !(x is Structure) && free(x)),
{
    assert(s.push(x).subrange(0, s.len() as int) =~= s);
}

/// A node that takes a child stays free of structural elements when the child is not one
/// and holds none; it keeps its kind.
pub proof fn lemma_with_child_free(parent: NodeV, child: NodeV)
    ensures
        with_child(parent, child) matches Some(p) ==> (free(p) == (free(parent) && !(
        child is Structure) && free(child))) && (p is Document <==> parent is Document) && (
        p is Structure <==> parent is Structure),
{
    lemma_all_free_push(children_of(parent), child);
}

/// Adding a node keeps the state well nested, when a structural element is only added
/// with nothing open.
pub proof fn lemma_add_to_parent_nested(st: ParseState, node: NodeV)
    requires
        well_nested(st),
        free(node),
        node is Structure ==> st.stack.len() == 0,
    ensures
        well_nested(add_to_parent(st, node)),
{
    let r = add_to_parent(st, node);
    if st.stack.len() > 0 {
        let parent = st.stack.last();
        let rest = st.stack.drop_last();
        assert(free(parent));
        lemma_with_child_free(parent, node);
        if let NodeV::List { items } = parent {
            lemma_all_free_push(items, node);
        }
        assert forall|i: int| 0 <= i < r.stack.len() implies !(#[trigger] r.stack[i] is Document)
            && free(r.stack[i]) && (i > 0 ==> !(r.stack[i] is Structure)) by {
            if i < rest.len() {
                assert(r.stack[i] == st.stack[i]);
            }
        }
    }
}

/// Closing the innermost container keeps the state well nested.
pub proof fn lemma_pop_one_nested(st: ParseState)
    requires
        well_nested(st),
        st.stack.len() > 0,
    ensures
        well_nested(pop_one(st)),
{
    let rest = st.stack.drop_last();
    let inner = ParseState { stack: rest, children: st.children, attributes: st.attributes };
    assert(well_nested(inner)) by {
        assert forall|i: int| 0 <= i < rest.len() implies #[trigger] rest[i] == st.stack[i] by {}
    }
    assert(free(st.stack.last()));
    lemma_add_to_parent_nested(inner, st.stack.last());
}

/// Closing containers keeps the state well nested.
pub proof fn lemma_close_while_nested(st: ParseState, rule: CloseRule)
    requires
        well_nested(st),
    ensures
        well_nested(close_while(st, rule)),
    decreases st.stack.len(),
{
    if st.stack.len() > 0 && closes(rule, st.stack) {
        lemma_pop_one_len(st);
        lemma_pop_one_nested(st);
        lemma_close_while_nested(pop_one(st), rule);
    }
}

/// Before a structural element, everything open is closed: no container but the
/// document takes one.
pub proof fn lemma_close_for_structure(st: ParseState, k: TokenKindV)
    requires
        well_nested(st),
        k is Structure,
    ensures
        close_while(st, CloseRule::Incompatible(k)).stack.len() == 0,
    decreases st.stack.len(),
{
    if st.stack.len() > 0 {
        assert(!(st.stack.last() is Document));
        assert(closes(CloseRule::Incompatible(k), st.stack));
        lemma_pop_one_len(st);
        lemma_pop_one_nested(st);
        lemma_close_for_structure(pop_one(st), k);
    }
}

/// A structural element starts at the top level: once it is read, it is the only open
/// container.
pub proof fn law_structure_opens_at_top(st: ParseState, node: NodeV, k: TokenKindV)
    requires
        well_nested(st),
        node is Structure,
        k is Structure,
    ensures
        process_token(st, node, k).stack == seq![node],
{
    lemma_close_while_nested(st, CloseRule::Structure);
    let st1 = close_while(st, CloseRule::Structure);
    lemma_close_for_structure(st1, k);
    let st3 = close_while(st1, CloseRule::Incompatible(k));
    assert(st3.stack.push(node) =~= seq![node]);
}

/// A token keeps the state well nested.
pub proof fn lemma_step_nested(st: ParseState, p: AttrsV, k: TokenKindV)
    requires
        well_nested(st),
    ensures
        well_nested(step(st, p, k).0),
{
    match k {
        TokenKindV::EmptyLine => {
            lemma_close_while_nested(st, CloseRule::EmptyLine);
        },
        TokenKindV::Attribute { key, value } => {
            if st.stack.len() > 0 {
                let r = step(st, p, k).0;
                let rest = st.stack.drop_last();
                assert forall|i: int| 0 <= i < r.stack.len() implies !(#[trigger] r.stack[i] is Document)
                    && free(r.stack[i]) && (i > 0 ==> !(r.stack[i] is Structure)) by {
                    if i < rest.len() {
                        assert(r.stack[i] == st.stack[i]);
                    } else {
                        assert(free(st.stack.last()));
                    }
                }
            }
        },
        _ => {
            if let Some(n) = create_node(k) {
                let n2 = apply_attributes(n, p).0;
                lemma_apply_attributes_content(n, p);
                assert(free(n2) && !(n2 is Document)) by {
                    if let TokenKindV::Cell { text } = k {
                        if let Some(t) = text {
                            lemma_all_free_push(seq![], NodeV::Paragraph { text: t });
                            assert(seq![NodeV::Paragraph { text: t }] =~= Seq::<NodeV>::empty().push(NodeV::Paragraph { text: t }));
                        }
                    }
                }
                assert(n2 is Structure <==> k is Structure);
                lemma_process_token_nested(st, n2, k);
            }
        },
    }
}

/// A node made from a token keeps the state well nested.
pub proof fn lemma_process_token_nested(st: ParseState, node: NodeV, k: TokenKindV)
    requires
        well_nested(st),
        free(node),
        !(node is Document),
        node is Structure <==> k is Structure,
    ensures
        well_nested(process_token(st, node, k)),
{
    lemma_close_while_nested(st, CloseRule::Structure);
    let st1 = if node is Structure {
        close_while(st, CloseRule::Structure)
    } else {
        st
    };
    match node {
        NodeV::ListItem { level, text, .. } => {
            let a = close_while(st1, CloseRule::ListItem(level));
            lemma_close_while_nested(st1, CloseRule::ListItem(level));
            let empty = NodeV::List { items: seq![] };
            let b = if a.stack.len() > 0 && a.stack.last() is List {
                a
            } else {
                push_open(a, empty)
            };
            assert(well_nested(b)) by {
                assert forall|i: int| 0 <= i < b.stack.len() implies !(#[trigger] b.stack[i] is Document)
                    && free(b.stack[i]) && (i > 0 ==> !(b.stack[i] is Structure)) by {
                    if i < a.stack.len() {
                        assert(b.stack[i] == a.stack[i]);
                    }
                }
            }
            let item = NodeV::ListItem { level, text, children: seq![] };
            let c = push_open(b, item);
            assert(well_nested(c)) by {
                assert forall|i: int| 0 <= i < c.stack.len() implies !(#[trigger] c.stack[i] is Document)
                    && free(c.stack[i]) && (i > 0 ==> !(c.stack[i] is Structure)) by {
                    if i < b.stack.len() {
                        assert(c.stack[i] == b.stack[i]);
                    }
                }
            }
        },
        _ => {
            let st2 = match node {
                NodeV::Section { level, .. } => close_while(st1, CloseRule::Section(level)),
                _ => st1,
            };
            if let NodeV::Section { level, .. } = node {
                lemma_close_while_nested(st1, CloseRule::Section(level));
            }
            let st3 = close_while(st2, CloseRule::Incompatible(k));
            lemma_close_while_nested(st2, CloseRule::Incompatible(k));
            if k is Structure {
                lemma_close_for_structure(st2, k);
            }
            if is_container(node) {
                let c = push_open(st3, node);
                assert(well_nested(c)) by {
                    assert forall|i: int| 0 <= i < c.stack.len() implies !(#[trigger] c.stack[i] is Document)
                        && free(c.stack[i]) && (i > 0 ==> !(c.stack[i] is Structure)) by {
                        if i < st3.stack.len() {
                            assert(c.stack[i] == st3.stack[i]);
                        }
                    }
                }
            } else {
                lemma_add_to_parent_nested(st3, node);
            }
        },
    }
}

/// The tokens `ks[i..]` keep the state well nested.
pub proof fn lemma_run_nested(st: ParseState, p: AttrsV, ks: Seq<TokenKindV>, i: int)
    requires
        well_nested(st),
        0 <= i,
    ensures
        well_nested(run(st, p, ks, i).0),
    decreases ks.len() - i,
{
    if i < ks.len() {
        lemma_step_nested(st, p, ks[i]);
        let (st2, p2) = step(st, p, ks[i]);
        lemma_run_nested(st2, p2, ks, i + 1);
    }
}

/// Structural elements only stand at the top level of a document: no node of the tree
/// holds one.
pub proof fn law_structure_only_at_top(ks: Seq<TokenKindV>)
    ensures
        forall|j: int| 0 <= j < children_of(spec_parse(ks)).len() ==> free(
            #[trigger] children_of(spec_parse(ks))[j],
        ),
{
    let st0 = initial_state();
    assert(well_nested(st0));
    lemma_run_nested(st0, seq![], ks, 0);
    let st = run(st0, seq![], ks, 0).0;
    lemma_close_while_nested(st, CloseRule::All);
}

/// The attributes that `n` carries; nothing for a node that carries none.
pub open spec fn carried(n: NodeV) -> AttrsV {
    match n {
        NodeV::Document { attributes, .. } => attributes,
        NodeV::Structure { attributes, .. } => attributes,
        NodeV::Table { attributes, .. } => attributes,
        NodeV::Listing { attributes, .. } => attributes,
        NodeV::Figure { attributes, .. } => attributes,
        _ => seq![],
    }
}

/// An attribute line `key = value` is never lost: read while a structural element, table,
/// listing or figure is the innermost open container, it is bound in that node; read with
/// nothing open, it is bound in the document. The open containers keep their kinds and
/// children, and the attributes still pending stay as they were.
pub proof fn law_attribute_binds(st: ParseState, p: AttrsV, key: Seq<char>, value: Seq<char>)
    ensures
        ({
            let (r, p2) = step(st, p, TokenKindV::Attribute { key, value });
            &&& p2 == p
            &&& r.stack.len() == st.stack.len()
            &&& r.children == st.children
            &&& forall|i: int| 0 <= i < st.stack.len() - 1 ==> #[trigger] r.stack[i] == st.stack[i]
            &&& st.stack.len() > 0 ==> children_of(r.stack.last()) == children_of(st.stack.last())
            &&& st.stack.len() > 0 && (st.stack.last() is Structure || st.stack.last() is Table
                || st.stack.last() is Listing || st.stack.last() is Figure) ==> attrs_lookup(
                carried(r.stack.last()),
                key,
            ) == Some(value)
            &&& st.stack.len() == 0 ==> attrs_lookup(r.attributes, key) == Some(value)
        }),
{
    if st.stack.len() > 0 {
        law_insert_then_lookup(carried(st.stack.last()), key, value);
    } else {
        law_insert_then_lookup(st.attributes, key, value);
    }
}

} // verus!
