//! Layout decisions that do not depend on measuring text: which blocks of text go on the
//! page, in which order, with which list markers and punctuation.
use vstd::prelude::*;
use crate::lexer::token::{AbstractKind, ConclusionKind, ContentsKind, StructuralKind};
use crate::parser::ast::{lemma_nodes_view_index, nodes_view, AttrsV, Document, Node, NodeV};
use crate::parser::debug::{lemma_node_depth_shape, lemma_seq_depth, node_depth, seq_depth};
use crate::text::{
    chars_to_string, decimal, is_ws, push_all, push_decimal, str_chars, trim,
    trim_chars, trim_end, trim_start,
};

verus! {

/// `t` trimmed and ending with `target` in place of a final `.` or `;`; kept as it is when
/// it ends with `!`, `?` or `:`; empty when it is blank.
pub open spec fn fix_punct(t: Seq<char>, target: Seq<char>) -> Seq<char> {
    let s = trim(t);
    if s.len() == 0 {
        seq![]
    } else {
        let c = s.last();
        if c == '.' || c == ';' {
            s.drop_last() + target
        } else if c == '!' || c == '?' || c == ':' {
            s
        } else {
            s + target
        }
    }
}

/// The trimmed `text`, its final punctuation made `target` (see [`fix_punct`]).
pub fn fix_punctuation(text: &str, target: &str) -> (r: String)
    ensures
        r@ == fix_punct(text@, target@),
{
    let t = trim_chars(&str_chars(text));
    if t.len() == 0 {
        return chars_to_string(&Vec::new());
    }
    let last = t[t.len() - 1];
    let mut out: Vec<char> = Vec::new();
    if last == '.' || last == ';' {
        let mut i: usize = 0;
        while i + 1 < t.len()
            invariant
                i < t.len(),
                out@ == t@.subrange(0, i as int),
            decreases t.len() - i,
        {
            out.push(t[i]);
            i = i + 1;
        }
        assert(out@ =~= t@.drop_last());
        let tg = str_chars(target);
        push_all(&mut out, &tg);
    } else if last == '!' || last == '?' || last == ':' {
        push_all(&mut out, &t);
    } else {
        push_all(&mut out, &t);
        let tg = str_chars(target);
        push_all(&mut out, &tg);
    }
    assert(out@ =~= fix_punct(text@, target@));
    chars_to_string(&out)
}

/// A sequence that neither starts nor ends with white space is its own trim.
pub proof fn lemma_trim_fixed(s: Seq<char>)
    requires
        s.len() > 0 ==> !is_ws(s[0]) && !is_ws(s.last()),
    ensures
        trim(s) == s,
{
    assert(trim_start(s) == s);
    assert(trim_end(s) == s);
}

/// Fixing the punctuation of a list item twice with `.` or `;` changes nothing more.
pub proof fn law_fix_punct_idempotent(t: Seq<char>, target: Seq<char>)
    requires
        target == seq!['.'] || target == seq![';'],
    ensures
        fix_punct(fix_punct(t, target), target) == fix_punct(t, target),
{
    let s = trim(t);
    lemma_trim_ends(t);
    let f = fix_punct(t, target);
    if s.len() > 0 {
        lemma_trim_fixed(f);
        assert(trim(f) == f);
        assert(f.last() == '.' || f.last() == ';' || f.last() == '!' || f.last() == '?' || f.last() == ':');
        if f.last() == '.' || f.last() == ';' {
            assert(f.drop_last() + target =~= f);
        }
    } else {
        lemma_trim_fixed(f);
    }
}

/// A trimmed sequence neither starts nor ends with white space.
pub proof fn lemma_trim_ends(t: Seq<char>)
    ensures
        trim(t).len() > 0 ==> !is_ws(trim(t)[0]) && !is_ws(trim(t).last()),
{
    lemma_trim_start_ends(t);
    lemma_trim_end_ends(trim_start(t));
}

/// `trim_start` leaves no white space in front.
pub proof fn lemma_trim_start_ends(t: Seq<char>)
    ensures
        trim_start(t).len() > 0 ==> !is_ws(trim_start(t)[0]),
        trim_start(t).len() <= t.len(),
        trim_start(t) == t.subrange(t.len() - trim_start(t).len(), t.len() as int),
    decreases t.len(),
{
    if t.len() > 0 && is_ws(t[0]) {
        lemma_trim_start_ends(t.drop_first());
        assert(t.drop_first().subrange(t.drop_first().len() - trim_start(t).len(), t.drop_first().len() as int)
            =~= t.subrange(t.len() - trim_start(t).len(), t.len() as int));
    } else {
        assert(t.subrange(0, t.len() as int) =~= t);
    }
}

/// `trim_end` leaves no white space behind, and keeps the first character of what it keeps.
pub proof fn lemma_trim_end_ends(t: Seq<char>)
    ensures
        trim_end(t).len() > 0 ==> !is_ws(trim_end(t).last()) && trim_end(t)[0] == t[0],
        trim_end(t).len() <= t.len(),
    decreases t.len(),
{
    if t.len() > 0 && is_ws(t.last()) {
        lemma_trim_end_ends(t.drop_last());
    }
}

/// How list items are marked.
#[derive(Debug, Clone, Copy, PartialEq, Eq, Structural)]
pub enum ListPrefix {
    /// No marker.
    Unmarked,
    /// Dashes, letters or numbers by level, with `;` and `.` at the ends of items.
    Auto,
    /// Numbers.
    Number,
}

/// A block of the page plan.
#[derive(Debug, PartialEq)]
pub enum Block {
    /// Start a new page.
    NewPage,
    /// From here on, number the pages.
    PageNumbers,
    /// A centred heading, followed by a small gap.
    Title { text: String },
    /// A justified paragraph with an indented first line.
    Paragraph { text: String },
    /// A justified list item, indented by its level.
    ListItem { text: String, level: u8 },
}

/// The mathematical value of a [`Block`].
pub enum BlockV {
    NewPage,
    PageNumbers,
    Title { text: Seq<char> },
    Paragraph { text: Seq<char> },
    ListItem { text: Seq<char>, level: u8 },
}

impl View for Block {
    type V = BlockV;

    open spec fn view(&self) -> BlockV {
        match self {
            Block::NewPage => BlockV::NewPage,
            Block::PageNumbers => BlockV::PageNumbers,
            Block::Title { text } => BlockV::Title { text: text@ },
            Block::Paragraph { text } => BlockV::Paragraph { text: text@ },
            Block::ListItem { text, level } => BlockV::ListItem { text: text@, level: *level },
        }
    }
}

/// The views of a sequence of blocks.
pub open spec fn blocks_view(b: Seq<Block>) -> Seq<BlockV> {
    b.map_values(|x: Block| x@)
}

/// The letters that mark first-level items with sub-lists, in order.
pub open spec fn gost_letters() -> Seq<char> {
    "абвгдежиклмнпрстуфхцшщэюя"@
}

/// The letter for item `idx` and `)`; `?` past the last letter.
pub open spec fn gost_marker(idx: nat) -> Seq<char> {
    seq![if idx < gost_letters().len() { gost_letters()[idx as int] } else { '?' }, ')']
}

/// The letter for item `idx` followed by `)` (`?)` past the last letter).
pub fn get_gost_char(idx: usize) -> (r: String)
    ensures
        r@ == gost_marker(idx as nat),
{
    let letters = str_chars("абвгдежиклмнпрстуфхцшщэюя");
    let c: char = if idx < letters.len() { letters[idx] } else { '?' };
    let out = vec![c, ')'];
    assert(out@ =~= gost_marker(idx as nat));
    chars_to_string(&out)
}

/// The marker of item `idx` of a list at `level` under `mode`, with its separating space.
pub open spec fn item_prefix(mode: ListPrefix, level: u8, idx: nat, has_inner: bool) -> Seq<char> {
    match mode {
        ListPrefix::Auto => if level == 1 {
            if has_inner {
                gost_marker(idx) + seq![' ']
            } else {
                seq!['-', ' ']
            }
        } else {
            decimal(idx + 1) + seq![')', ' ']
        },
        ListPrefix::Unmarked => seq![],
        ListPrefix::Number => decimal(idx + 1) + seq![' '],
    }
}

/// The heading printed for a structural element.
pub open spec fn structural_title(k: StructuralKind) -> Seq<char> {
    match k {
        StructuralKind::TitlePage => "ТИТУЛЬНЫЙ ЛИСТ"@,
        StructuralKind::NotesPage => "ЛИСТ ДЛЯ ЗАМЕЧАНИЙ"@,
        StructuralKind::Abstract(AbstractKind::Extended) => "РЕФЕРАТ"@,
        StructuralKind::Abstract(AbstractKind::Short) => "АННОТАЦИЯ"@,
        StructuralKind::Contents(ContentsKind::Collection) => "СОДЕРЖАНИЕ"@,
        StructuralKind::Contents(ContentsKind::Integrated) => "ОГЛАВЛЕНИЕ"@,
        StructuralKind::NormativeReferences => "НОРМАТИВНЫЕ ССЫЛКИ"@,
        StructuralKind::Definitions => "ОПРЕДЕЛЕНИЯ, ОБОЗНАЧЕНИЯ И СОКРАЩЕНИЯ"@,
        StructuralKind::Introduction => "ВВЕДЕНИЕ"@,
        StructuralKind::Conclusion(ConclusionKind::Final) => "ЗАКЛЮЧЕНИЕ"@,
        StructuralKind::Conclusion(ConclusionKind::Summary) => "ВЫВОДЫ"@,
        StructuralKind::Sources => "СПИСОК ИСПОЛЬЗОВАННЫХ ИСТОЧНИКОВ"@,
        StructuralKind::Appendix => "ПРИЛОЖЕНИЕ"@,
        StructuralKind::IndependenceStatement => "СВЕДЕНИЯ О САМОСТОЯТЕЛЬНОСТИ ВЫПОЛНЕНИЯ РАБОТЫ"@,
        StructuralKind::MainPart => ""@,
    }
}

/// The heading printed for a structural element.
pub fn structural_title_text(k: StructuralKind) -> (r: &'static str)
    ensures
        r@ == structural_title(k),
{
    match k {
        StructuralKind::TitlePage => "ТИТУЛЬНЫЙ ЛИСТ",
        StructuralKind::NotesPage => "ЛИСТ ДЛЯ ЗАМЕЧАНИЙ",
        StructuralKind::Abstract(AbstractKind::Extended) => "РЕФЕРАТ",
        StructuralKind::Abstract(AbstractKind::Short) => "АННОТАЦИЯ",
        StructuralKind::Contents(ContentsKind::Collection) => "СОДЕРЖАНИЕ",
        StructuralKind::Contents(ContentsKind::Integrated) => "ОГЛАВЛЕНИЕ",
        StructuralKind::NormativeReferences => "НОРМАТИВНЫЕ ССЫЛКИ",
        StructuralKind::Definitions => "ОПРЕДЕЛЕНИЯ, ОБОЗНАЧЕНИЯ И СОКРАЩЕНИЯ",
        StructuralKind::Introduction => "ВВЕДЕНИЕ",
        StructuralKind::Conclusion(ConclusionKind::Final) => "ЗАКЛЮЧЕНИЕ",
        StructuralKind::Conclusion(ConclusionKind::Summary) => "ВЫВОДЫ",
        StructuralKind::Sources => "СПИСОК ИСПОЛЬЗОВАННЫХ ИСТОЧНИКОВ",
        StructuralKind::Appendix => "ПРИЛОЖЕНИЕ",
        StructuralKind::IndependenceStatement => "СВЕДЕНИЯ О САМОСТОЯТЕЛЬНОСТИ ВЫПОЛНЕНИЯ РАБОТЫ",
        StructuralKind::MainPart => "",
    }
}

/// The sentence that opens the list of normative references.
pub open spec fn references_intro() -> Seq<char> {
    "В настоящей текстовом документе использованы ссылки на следующие нормативные документы:"@
}

/// The sentence that opens the list of definitions.
pub open spec fn definitions_intro() -> Seq<char> {
    "В настоящем текстовом документе применяются следующие определения, обозначения и сокращения:"@
}

/// The blocks that open a structural element other than the main part.
pub open spec fn structure_head(k: StructuralKind) -> Seq<BlockV> {
    seq![BlockV::NewPage] + (if k is Contents { seq![BlockV::PageNumbers] } else { seq![] })
        + seq![BlockV::Title { text: structural_title(k) }] + match k {
        StructuralKind::NormativeReferences => seq![BlockV::Paragraph { text: references_intro() }],
        StructuralKind::Definitions => seq![BlockV::Paragraph { text: definitions_intro() }],
        _ => seq![],
    }
}

/// How list items are marked inside a structural element of kind `k`.
pub open spec fn mode_for(k: StructuralKind) -> ListPrefix {
    match k {
        StructuralKind::NormativeReferences => ListPrefix::Unmarked,
        StructuralKind::Definitions => ListPrefix::Unmarked,
        StructuralKind::Sources => ListPrefix::Number,
        _ => ListPrefix::Auto,
    }
}

/// The level of a nested list: one more, wrapping around past 255 as `u8` addition does.
pub open spec fn next_level(l: u8) -> u8 {
    if l == 255 { 0 } else { (l + 1) as u8 }
}

/// Whether one of `s` is a list.
pub open spec fn has_list(s: Seq<NodeV>) -> bool {
    exists|i: int| 0 <= i < s.len() && (#[trigger] s[i]) is List
}

/// The blocks for `n` with list marking `m`, and the list marking after it.
pub open spec fn plan_node(n: NodeV, m: ListPrefix) -> (Seq<BlockV>, ListPrefix)
    decreases n,
{
    match n {
        NodeV::Document { children, .. } => plan_seq(children, m),
        NodeV::Structure { kind, children, .. } => if kind == StructuralKind::MainPart {
            plan_seq(children, m)
        } else {
            let (b, m2) = plan_seq(children, mode_for(kind));
            (structure_head(kind) + b, m2)
        },
        NodeV::List { items } => plan_items(items, items.len(), 1, true, m),
        NodeV::Paragraph { text } => (seq![BlockV::Paragraph { text }], m),
        _ => (seq![], m),
    }
}

/// The blocks for the nodes `s`, one after the other.
pub open spec fn plan_seq(s: Seq<NodeV>, m: ListPrefix) -> (Seq<BlockV>, ListPrefix)
    decreases s,
{
    if s.len() == 0 {
        (seq![], m)
    } else {
        let (b1, m1) = plan_seq(s.subrange(0, s.len() - 1), m);
        let (b2, m2) = plan_node(s[s.len() - 1], m1);
        (b1 + b2, m2)
    }
}

/// The blocks for the first items `s` of a list of `total` items at `level`; `parent_last`
/// says whether the list ends its outermost list.
pub open spec fn plan_items(s: Seq<NodeV>, total: nat, level: u8, parent_last: bool, m: ListPrefix) -> (
    Seq<BlockV>,
    ListPrefix,
)
    decreases s,
{
    if s.len() == 0 {
        (seq![], m)
    } else {
        let (b1, m1) = plan_items(s.subrange(0, s.len() - 1), total, level, parent_last, m);
        let (b2, m2) = plan_item(s[s.len() - 1], (s.len() - 1) as nat, total, level, parent_last, m1);
        (b1 + b2, m2)
    }
}

/// The text block of item number `idx` (if its text is not blank).
pub open spec fn item_block(text: Seq<char>, idx: nat, total: nat, level: u8, parent_last: bool, has_inner: bool, m: ListPrefix) -> Seq<BlockV> {
    let is_last = idx + 1 == total;
    let absolutely_last = is_last && parent_last && !has_inner;
    let raw = trim(text);
    if raw.len() > 0 {
        let body = if m == ListPrefix::Auto {
            fix_punct(raw, if absolutely_last { seq!['.'] } else { seq![';'] })
        } else {
            raw
        };
        seq![BlockV::ListItem { text: item_prefix(m, level, idx, has_inner) + body, level }]
    } else {
        seq![]
    }
}

/// The blocks for item number `idx` of a list: its text, then what is inside it.
pub open spec fn plan_item(it: NodeV, idx: nat, total: nat, level: u8, parent_last: bool, m: ListPrefix) -> (
    Seq<BlockV>,
    ListPrefix,
)
    decreases it,
{
    match it {
        NodeV::ListItem { text, children, .. } => {
            let b1 = item_block(text, idx, total, level, parent_last, has_list(children), m);
            let (b2, m2) = plan_item_children(children, level, idx + 1 == total && parent_last, m);
            (b1 + b2, m2)
        },
        _ => (seq![], m),
    }
}

/// The blocks for what is inside a list item: sub-lists one level deeper, other nodes as
/// anywhere else.
pub open spec fn plan_item_children(s: Seq<NodeV>, level: u8, last: bool, m: ListPrefix) -> (
    Seq<BlockV>,
    ListPrefix,
)
    decreases s,
{
    if s.len() == 0 {
        (seq![], m)
    } else {
        let (b1, m1) = plan_item_children(s.subrange(0, s.len() - 1), level, last, m);
        let (b2, m2) = match s[s.len() - 1] {
            NodeV::List { items } => plan_items(items, items.len(), next_level(level), last, m1),
            other => plan_node(other, m1),
        };
        (b1 + b2, m2)
    }
}

/// The page plan of a document with the top-level nodes `children`: its blocks in order.
pub open spec fn plan_document(children: Seq<NodeV>) -> Seq<BlockV> {
    plan_seq(children, ListPrefix::Auto).0
}

/// The plan of a structural element (other than the main part) opens a new page, and its
/// second block turns page numbering on exactly when the element is a table of contents
/// of either kind.
pub proof fn law_contents_turn_on_page_numbers(
    kind: StructuralKind,
    children: Seq<NodeV>,
    attributes: AttrsV,
    m: ListPrefix,
)
    requires
        kind != StructuralKind::MainPart,
    ensures
        ({
            let b = plan_node(NodeV::Structure { kind, children, attributes }, m).0;
            &&& b.len() >= 2
            &&& b[0] == BlockV::NewPage
            &&& (b[1] == BlockV::PageNumbers <==> kind is Contents)
        }),
{
}

/// Trimming twice trims no more than once.
pub proof fn lemma_trim_idempotent(t: Seq<char>)
    ensures
        trim(trim(t)) == trim(t),
{
    lemma_trim_ends(t);
    lemma_trim_fixed(trim(t));
}

/// Appends `b` to the plan `out`.
fn push_block(out: &mut Vec<Block>, b: Block)
    ensures
        blocks_view(final(out)@) == blocks_view(old(out)@).push(b@),
{
    out.push(b);
    assert(blocks_view(out@) =~= blocks_view(old(out)@).push(b@));
}

/// The marker of item `idx` at `level` under `mode`, with its separating space.
fn prefix_chars(mode: ListPrefix, level: u8, idx: usize, has_inner: bool) -> (r: Vec<char>)
    requires
        idx < usize::MAX,
    ensures
        r@ == item_prefix(mode, level, idx as nat, has_inner),
{
    let mut out: Vec<char> = Vec::new();
    match mode {
        ListPrefix::Auto => {
            if level == 1 {
                if has_inner {
                    let g = get_gost_char(idx);
                    let gs = str_chars(g.as_str());
                    push_all(&mut out, &gs);
                    out.push(' ');
                } else {
                    out.push('-');
                    out.push(' ');
                }
            } else {
                push_decimal(idx + 1, &mut out);
                out.push(')');
                out.push(' ');
            }
        },
        ListPrefix::Unmarked => {},
        ListPrefix::Number => {
            push_decimal(idx + 1, &mut out);
            out.push(' ');
        },
    }
    assert(out@ =~= item_prefix(mode, level, idx as nat, has_inner));
    out
}

/// Whether one of `kids` is a list.
fn any_list(kids: &Vec<Node>) -> (r: bool)
    ensures
        r == has_list(nodes_view(kids@)),
{
    proof {
        lemma_nodes_view_index(kids@);
    }
    let mut i: usize = 0;
    while i < kids.len()
        invariant
            i <= kids.len(),
            nodes_view(kids@).len() == kids.len(),
            forall|j: int| 0 <= j < kids.len() ==> nodes_view(kids@)[j] == kids@[j]@,
            forall|j: int| 0 <= j < i ==> !(nodes_view(kids@)[j] is List),
        decreases kids.len() - i,
    {
        if matches!(&kids[i], Node::List(_)) {
            assert(nodes_view(kids@)[i as int] is List);
            return true;
        }
        i = i + 1;
    }
    false
}

/// Appends the blocks of `n`, updating the list marking.
fn plan_node_into(n: &Node, mode: &mut ListPrefix, out: &mut Vec<Block>)
    ensures
        blocks_view(final(out)@) == blocks_view(old(out)@) + plan_node(n@, *old(mode)).0,
        *final(mode) == plan_node(n@, *old(mode)).1,
    decreases node_depth(n@), 1int,
{
    proof {
        lemma_node_depth_shape(n@);
    }
    match n {
        Node::Document(d) => {
            assert(plan_node(n@, *mode) == plan_seq(nodes_view(d.children@), *mode));
            plan_seq_into(&d.children, mode, out);
        },
        Node::Structure(e) => {
            if matches!(e.kind, StructuralKind::MainPart) {
                plan_seq_into(&e.children, mode, out);
            } else {
                let ghost start = blocks_view(out@);
                push_block(out, Block::NewPage);
                if matches!(e.kind, StructuralKind::Contents(_)) {
                    push_block(out, Block::PageNumbers);
                }
                push_block(out, Block::Title { text: structural_title_text(e.kind).to_owned() });
                if matches!(e.kind, StructuralKind::NormativeReferences) {
                    push_block(
                        out,
                        Block::Paragraph {
                            text: "В настоящей текстовом документе использованы ссылки на следующие нормативные документы:".to_owned(),
                        },
                    );
                } else if matches!(e.kind, StructuralKind::Definitions) {
                    push_block(
                        out,
                        Block::Paragraph {
                            text: "В настоящем текстовом документе применяются следующие определения, обозначения и сокращения:".to_owned(),
                        },
                    );
                }
                assert(blocks_view(out@) =~= start + structure_head(e.kind));
                *mode = if matches!(e.kind, StructuralKind::NormativeReferences | StructuralKind::Definitions) {
                    ListPrefix::Unmarked
                } else if matches!(e.kind, StructuralKind::Sources) {
                    ListPrefix::Number
                } else {
                    ListPrefix::Auto
                };
                plan_seq_into(&e.children, mode, out);
                assert(blocks_view(out@) =~= blocks_view(old(out)@) + plan_node(n@, *old(mode)).0);
            }
        },
        Node::List(l) => {
            proof {
                lemma_nodes_view_index(l.items@);
            }
            write_list(&l.items, 1, true, mode, out);
        },
        Node::Paragraph(p) => {
            push_block(out, Block::Paragraph { text: p.text.clone() });
        },
        _ => {
            assert(blocks_view(out@) =~= blocks_view(old(out)@) + plan_node(n@, *old(mode)).0);
        },
    }
}

/// Appends the blocks of the nodes `kids`, one after the other.
fn plan_seq_into(kids: &Vec<Node>, mode: &mut ListPrefix, out: &mut Vec<Block>)
    ensures
        blocks_view(final(out)@) == blocks_view(old(out)@) + plan_seq(nodes_view(kids@), *old(mode)).0,
        *final(mode) == plan_seq(nodes_view(kids@), *old(mode)).1,
    decreases seq_depth(nodes_view(kids@)), 2int,
{
    let ghost kv = nodes_view(kids@);
    proof {
        lemma_nodes_view_index(kids@);
        lemma_seq_depth(kv);
    }
    let mut i: usize = 0;
    assert(kv.subrange(0, 0) =~= Seq::<NodeV>::empty());
    while i < kids.len()
        invariant
            i <= kids.len() == kv.len(),
            kv == nodes_view(kids@),
            forall|j: int| 0 <= j < kv.len() ==> kv[j] == kids@[j]@,
            forall|j: int| 0 <= j < kv.len() ==> #[trigger] node_depth(kv[j]) <= seq_depth(kv),
            blocks_view(out@) == blocks_view(old(out)@) + plan_seq(kv.subrange(0, i as int), *old(mode)).0,
            *mode == plan_seq(kv.subrange(0, i as int), *old(mode)).1,
        decreases kids.len() - i,
    {
        assert(kv.subrange(0, i + 1).subrange(0, i as int) =~= kv.subrange(0, i as int));
        assert(node_depth(kv[i as int]) <= seq_depth(kv));
        plan_node_into(&kids[i], mode, out);
        i = i + 1;
        assert(blocks_view(out@) =~= blocks_view(old(out)@) + plan_seq(kv.subrange(0, i as int), *old(mode)).0);
    }
    assert(kv.subrange(0, kv.len() as int) =~= kv);
}

/// Appends the blocks of a list with `items` at `level`.
fn write_list(items: &Vec<Node>, level: u8, parent_last: bool, mode: &mut ListPrefix, out: &mut Vec<Block>)
    ensures
        blocks_view(final(out)@) == blocks_view(old(out)@) + plan_items(
            nodes_view(items@),
            items@.len(),
            level,
            parent_last,
            *old(mode),
        ).0,
        *final(mode) == plan_items(nodes_view(items@), items@.len(), level, parent_last, *old(mode)).1,
    decreases seq_depth(nodes_view(items@)), 2int,
{
    let ghost kv = nodes_view(items@);
    proof {
        lemma_nodes_view_index(items@);
        lemma_seq_depth(kv);
    }
    let total: usize = items.len();
    let mut idx: usize = 0;
    assert(kv.subrange(0, 0) =~= Seq::<NodeV>::empty());
    while idx < total
        invariant
            idx <= total == kv.len(),
            total == items.len(),
            kv == nodes_view(items@),
            forall|j: int| 0 <= j < kv.len() ==> kv[j] == items@[j]@,
            forall|j: int| 0 <= j < kv.len() ==> #[trigger] node_depth(kv[j]) <= seq_depth(kv),
            blocks_view(out@) == blocks_view(old(out)@) + plan_items(kv.subrange(0, idx as int), total as nat, level, parent_last, *old(mode)).0,
            *mode == plan_items(kv.subrange(0, idx as int), total as nat, level, parent_last, *old(mode)).1,
        decreases total - idx,
    {
        assert(kv.subrange(0, idx + 1).subrange(0, idx as int) =~= kv.subrange(0, idx as int));
        assert(node_depth(kv[idx as int]) <= seq_depth(kv));
        let ghost before = blocks_view(out@);
        let ghost m0 = *mode;
        assert(kv.subrange(0, idx + 1)[idx as int] == kv[idx as int]);
        let ghost step = plan_item(kv[idx as int], idx as nat, total as nat, level, parent_last, m0);
        assert(plan_items(kv.subrange(0, idx + 1), total as nat, level, parent_last, *old(mode)) == (
            plan_items(kv.subrange(0, idx as int), total as nat, level, parent_last, *old(mode)).0 + step.0,
            step.1,
        ));
        if let Node::ListItem(li) = &items[idx] {
            assert(kv[idx as int] == NodeV::ListItem {
                level: li.level,
                text: li.text@,
                children: nodes_view(li.children@),
            });
            let is_last: bool = idx + 1 == total;
            let has_inner = any_list(&li.children);
            let absolutely_last: bool = is_last && parent_last && !has_inner;
            let prefix = prefix_chars(*mode, level, idx, has_inner);
            let raw = trim_chars(&str_chars(li.text.as_str()));
            if raw.len() > 0 {
                let mut text = prefix;
                if matches!(*mode, ListPrefix::Auto) {
                    let raw_s = chars_to_string(&raw);
                    let target: &str = if absolutely_last { "." } else { ";" };
                    proof {
                        reveal_strlit(".");
                        reveal_strlit(";");
                        lemma_trim_idempotent(li.text@);
                    }
                    assert(target@ == (if absolutely_last { seq!['.'] } else { seq![';'] }));
                    let fixed = fix_punctuation(raw_s.as_str(), target);
                    let fc = str_chars(fixed.as_str());
                    push_all(&mut text, &fc);
                    assert(fc@ == fix_punct(trim(li.text@), if absolutely_last { seq!['.'] } else { seq![';'] }));
                } else {
                    push_all(&mut text, &raw);
                }
                push_block(out, Block::ListItem { text: chars_to_string(&text), level });
            }
            assert(blocks_view(out@) =~= before + item_block(li.text@, idx as nat, total as nat, level, parent_last, has_inner, m0));
            plan_children_into(&li.children, level, is_last && parent_last, mode, out);
        } else {
            assert(!(kv[idx as int] is ListItem));
        }
        idx = idx + 1;
        assert(blocks_view(out@) =~= blocks_view(old(out)@) + plan_items(kv.subrange(0, idx as int), total as nat, level, parent_last, *old(mode)).0);
    }
    assert(kv.subrange(0, kv.len() as int) =~= kv);
}

/// Appends the blocks for what is inside a list item at `level`.
fn plan_children_into(kids: &Vec<Node>, level: u8, last: bool, mode: &mut ListPrefix, out: &mut Vec<Block>)
    ensures
        blocks_view(final(out)@) == blocks_view(old(out)@) + plan_item_children(nodes_view(kids@), level, last, *old(mode)).0,
        *final(mode) == plan_item_children(nodes_view(kids@), level, last, *old(mode)).1,
    decreases seq_depth(nodes_view(kids@)), 2int,
{
    let ghost kv = nodes_view(kids@);
    proof {
        lemma_nodes_view_index(kids@);
        lemma_seq_depth(kv);
    }
    let next: u8 = if level == 255 { 0 } else { level + 1 };
    let mut i: usize = 0;
    assert(kv.subrange(0, 0) =~= Seq::<NodeV>::empty());
    while i < kids.len()
        invariant
            i <= kids.len() == kv.len(),
            kv == nodes_view(kids@),
            next == next_level(level),
            forall|j: int| 0 <= j < kv.len() ==> kv[j] == kids@[j]@,
            forall|j: int| 0 <= j < kv.len() ==> #[trigger] node_depth(kv[j]) <= seq_depth(kv),
            blocks_view(out@) == blocks_view(old(out)@) + plan_item_children(kv.subrange(0, i as int), level, last, *old(mode)).0,
            *mode == plan_item_children(kv.subrange(0, i as int), level, last, *old(mode)).1,
        decreases kids.len() - i,
    {
        assert(kv.subrange(0, i + 1).subrange(0, i as int) =~= kv.subrange(0, i as int));
        assert(node_depth(kv[i as int]) <= seq_depth(kv));
        match &kids[i] {
            Node::List(sub) => {
                proof {
                    lemma_nodes_view_index(sub.items@);
                }
                assert(kv[i as int] == NodeV::List { items: nodes_view(sub.items@) });
                write_list(&sub.items, next, last, mode, out);
            },
            other => {
                plan_node_into(other, mode, out);
            },
        }
        i = i + 1;
        assert(blocks_view(out@) =~= blocks_view(old(out)@) + plan_item_children(kv.subrange(0, i as int), level, last, *old(mode)).0);
    }
    assert(kv.subrange(0, kv.len() as int) =~= kv);
}

/// The page plan of the document `doc`: its blocks in order.
pub fn plan_blocks(doc: &Document) -> (r: Vec<Block>)
    ensures
        blocks_view(r@) == plan_document(nodes_view(doc.children@)),
{
    let mut out: Vec<Block> = Vec::new();
    let mut mode = ListPrefix::Auto;
    plan_seq_into(&doc.children, &mut mode, &mut out);
    assert(blocks_view(out@) =~= plan_document(nodes_view(doc.children@)));
    out
}

/// After reading `s`: the words finished so far and the word being read (words are the
/// maximal runs of characters that are not white space).
pub open spec fn words_acc(s: Seq<char>) -> (Seq<Seq<char>>, Seq<char>)
    decreases s.len(),
{
    if s.len() == 0 {
        (seq![], seq![])
    } else {
        let (done, cur) = words_acc(s.drop_last());
        if is_ws(s.last()) {
            if cur.len() > 0 {
                (done.push(cur), seq![])
            } else {
                (done, cur)
            }
        } else {
            (done, cur.push(s.last()))
        }
    }
}

/// The words of `s`, as `str::split_whitespace` gives them.
pub open spec fn words(s: Seq<char>) -> Seq<Seq<char>> {
    let (done, cur) = words_acc(s);
    if cur.len() > 0 {
        done.push(cur)
    } else {
        done
    }
}

/// The words of `text`.
pub fn split_words(text: &str) -> (r: Vec<String>)
    ensures
        r@.map_values(|w: String| w@) == words(text@),
{
    let cs = str_chars(text);
    let mut done: Vec<String> = Vec::new();
    let mut cur: Vec<char> = Vec::new();
    let mut i: usize = 0;
    assert(cs@.take(0) =~= seq![]);
    while i < cs.len()
        invariant
            i <= cs.len(),
            words_acc(cs@.take(i as int)) == (done@.map_values(|w: String| w@), cur@),
        decreases cs.len() - i,
    {
        let c = cs[i];
        let ghost prev = done@.map_values(|w: String| w@);
        assert(cs@.take(i + 1).drop_last() =~= cs@.take(i as int));
        if crate::text::is_whitespace(c) {
            if cur.len() > 0 {
                let w = chars_to_string(&cur);
                done.push(w);
                cur = Vec::new();
                assert(done@.map_values(|w: String| w@) =~= prev.push(w@));
            }
        } else {
            cur.push(c);
        }
        i = i + 1;
    }
    assert(cs@.take(cs.len() as int) =~= cs@);
    if cur.len() > 0 {
        let ghost prev = done@.map_values(|w: String| w@);
        let w = chars_to_string(&cur);
        done.push(w);
        assert(done@.map_values(|w: String| w@) =~= prev.push(w@));
    }
    done
}

/// The pieces of `s` joined with single spaces.
pub open spec fn join_spaced(s: Seq<Seq<char>>) -> Seq<char>
    decreases s.len(),
{
    if s.len() == 0 {
        seq![]
    } else if s.len() == 1 {
        s[0]
    } else {
        join_spaced(s.drop_last()) + seq![' '] + s.last()
    }
}

/// `a` and `b` joined with a space, or either alone when the other is empty.
pub open spec fn spaced(a: Seq<char>, b: Seq<char>) -> Seq<char> {
    if a.len() == 0 {
        b
    } else {
        a + seq![' '] + b
    }
}

/// None of the pieces is empty.
pub open spec fn all_nonempty(s: Seq<Seq<char>>) -> bool {
    forall|i: int| 0 <= i < s.len() ==> (#[trigger] s[i]).len() > 0
}

/// Greedy line breaking: words go onto the current line while they fit, as the caller
/// decides from measured widths; a word that does not fit starts a new line.
pub struct LineBreaker {
    lines: Vec<String>,
    current: Vec<char>,
}

impl LineBreaker {
    /// The finished lines.
    pub closed spec fn done(&self) -> Seq<Seq<char>> {
        self.lines@.map_values(|l: String| l@)
    }

    /// The line being filled.
    pub closed spec fn current(&self) -> Seq<char> {
        self.current@
    }

    #[verifier::type_invariant]
    closed spec fn inv(&self) -> bool {
        all_nonempty(self.done())
    }

    /// The lines so far, the current one included when it is not empty.
    pub open spec fn lines_so_far(&self) -> Seq<Seq<char>> {
        if self.current().len() > 0 {
            self.done().push(self.current())
        } else {
            self.done()
        }
    }

    /// No lines yet.
    pub fn new() -> (r: Self)
        ensures
            r.done() == Seq::<Seq<char>>::empty(),
            r.current() == Seq::<char>::empty(),
            all_nonempty(r.done()),
    {
        let r = LineBreaker { lines: Vec::new(), current: Vec::new() };
        assert(r.done() =~= Seq::<Seq<char>>::empty());
        r
    }

    /// Whether no line has been finished yet (the first line may have its own width).
    pub fn is_first_line(&self) -> (r: bool)
        ensures
            r == (self.done().len() == 0),
    {
        self.lines.len() == 0
    }

    /// The current line with `word` added: the text whose width decides whether it fits.
    pub fn candidate(&self, word: &str) -> (r: String)
        ensures
            r@ == spaced(self.current(), word@),
    {
        let mut t: Vec<char> = Vec::new();
        push_all(&mut t, &self.current);
        if self.current.len() > 0 {
            t.push(' ');
        }
        let w = str_chars(word);
        push_all(&mut t, &w);
        assert(t@ =~= spaced(self.current(), word@));
        chars_to_string(&t)
    }

    /// Adds `word`: onto the current line when `fits`, otherwise on a new line after
    /// finishing the current one (if it has anything).
    pub fn push_word(self, word: &str, fits: bool) -> (r: Self)
        ensures
            fits ==> r.done() == self.done() && r.current() == spaced(self.current(), word@),
            !fits ==> r.current() == word@ && r.done() == (if self.current().len() > 0 {
                self.done().push(self.current())
            } else {
                self.done()
            }),
            all_nonempty(r.done()),
            word@.len() > 0 ==> join_spaced(r.lines_so_far()) == spaced(
                join_spaced(self.lines_so_far()),
                word@,
            ),
    {
        proof {
            use_type_invariant(&self);
            if word@.len() > 0 {
                law_line_breaking_keeps_words(self.done(), self.current(), word@, fits);
            }
        }
        let ghost d = self.done();
        let LineBreaker { lines, current } = self;
        if fits {
            let mut t: Vec<char> = Vec::new();
            push_all(&mut t, &current);
            if current.len() > 0 {
                t.push(' ');
            }
            let w = str_chars(word);
            push_all(&mut t, &w);
            assert(t@ =~= spaced(current@, word@));
            LineBreaker { lines, current: t }
        } else {
            let mut lines = lines;
            if current.len() > 0 {
                let line = chars_to_string(&current);
                lines.push(line);
                assert(lines@.map_values(|l: String| l@) =~= d.push(current@));
            }
            LineBreaker { lines, current: str_chars(word) }
        }
    }

    /// The lines: the finished ones and the current one if it has anything.
    pub fn finish(self) -> (r: Vec<String>)
        ensures
            r@.map_values(|l: String| l@) == self.lines_so_far(),
    {
        let mut lines = self.lines;
        let ghost d = lines@.map_values(|l: String| l@);
        if self.current.len() > 0 {
            lines.push(chars_to_string(&self.current));
            assert(lines@.map_values(|l: String| l@) =~= d.push(self.current@));
        }
        lines
    }
}

/// Breaking words into lines, whatever is decided at each word, keeps every word in
/// order: the lines joined with spaces are the words joined with spaces (for words that
/// are not empty).
pub proof fn law_line_breaking_keeps_words(lines: Seq<Seq<char>>, cur: Seq<char>, word: Seq<char>, fits: bool)
    requires
        word.len() > 0,
        all_nonempty(lines),
    ensures
        ({
            let before = if cur.len() > 0 { lines.push(cur) } else { lines };
            let (lines2, cur2) = if fits {
                (lines, spaced(cur, word))
            } else {
                (before, word)
            };
            let after = if cur2.len() > 0 { lines2.push(cur2) } else { lines2 };
            join_spaced(after) == spaced(join_spaced(before), word)
        }),
{
    lemma_join_spaced_empty(lines);
    let before = if cur.len() > 0 { lines.push(cur) } else { lines };
    assert(all_nonempty(before));
    lemma_join_spaced_empty(before);
    if fits {
        if cur.len() > 0 {
            assert(lines.push(spaced(cur, word)).drop_last() =~= lines);
            assert(lines.push(cur).drop_last() =~= lines);
            if lines.len() > 0 {
                assert(join_spaced(lines.push(spaced(cur, word))) =~= join_spaced(lines) + seq![' '] + (cur + seq![' '] + word));
            }
        } else {
            assert(lines.push(word).drop_last() =~= lines);
        }
    } else {
        assert(before.push(word).drop_last() =~= before);
    }
}

/// Joining yields nothing only from no pieces, when the pieces are not empty.
pub proof fn lemma_join_spaced_empty(s: Seq<Seq<char>>)
    requires
        all_nonempty(s),
    ensures
        s.len() > 0 ==> join_spaced(s).len() > 0,
{
    if s.len() > 0 {
        assert(s.last().len() > 0);
    }
}

} // verus!
