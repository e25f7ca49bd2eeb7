//! A readable, indented dump of a document tree.
use vstd::prelude::*;
use crate::lexer::token::{AbstractKind, ConclusionKind, ContentsKind, NoteKind, StructuralKind};
use crate::parser::ast::{lemma_nodes_view_index, nodes_view, AttributeMap, AttrsV, Node, NodeV};
use crate::text::{chars_to_string, decimal, push_all, push_decimal, push_str, str_chars};

verus! {

/// What `format!("{:?}", s)` gives for a string `s`: `s` in double quotes, with std's
/// escapes for `Debug` (which depend on Unicode tables).
pub uninterp spec fn str_debug(s: Seq<char>) -> Seq<char>;

/// std's `Debug` for `String` (through `format!("{:?}", ..)`); its result is named
/// [`str_debug`] of the characters of `s`, a function of them alone.
#[verifier::external_body]
fn debug_string(s: &String) -> (r: String)
    ensures
        r@ == str_debug(s@),
{
    format!("{:?}", s)
}

/// `2 * n` spaces.
pub open spec fn spaces(n: nat) -> Seq<char> {
    Seq::new(2 * n, |i: int| ' ')
}

/// `t` cut to 37 characters and `...` when it has more than 40.
pub open spec fn truncate(t: Seq<char>) -> Seq<char> {
    if t.len() > 40 {
        t.subrange(0, 37) + seq!['.', '.', '.']
    } else {
        t
    }
}

/// `t` with each line feed replaced by a space.
pub open spec fn flatten_lines(t: Seq<char>) -> Seq<char> {
    t.map_values(|c: char| if c == '\n' { ' ' } else { c })
}

/// `{k1: v1, k2: v2, ...}` for pairs whose keys and values are already quoted.
pub open spec fn map_text(q: Seq<(Seq<char>, Seq<char>)>) -> Seq<char> {
    seq!['{'] + map_entries(q) + seq!['}']
}

/// The entries of [`map_text`], separated by `, `.
pub open spec fn map_entries(q: Seq<(Seq<char>, Seq<char>)>) -> Seq<char>
    decreases q.len(),
{
    if q.len() == 0 {
        seq![]
    } else if q.len() == 1 {
        q[0].0 + seq![':', ' '] + q[0].1
    } else {
        map_entries(q.drop_last()) + seq![',', ' '] + q.last().0 + seq![':', ' '] + q.last().1
    }
}

/// Each key and value of `a` quoted as `Debug` quotes strings.
pub open spec fn quote_all(a: AttrsV) -> Seq<(Seq<char>, Seq<char>)> {
    a.map_values(|e: (Seq<char>, Seq<char>)| (str_debug(e.0), str_debug(e.1)))
}

/// What `{:?}` of an attribute map shows, entries in insertion order.
pub open spec fn attrs_debug(a: AttrsV) -> Seq<char> {
    map_text(quote_all(a))
}

/// What `{:?}` shows for a structural kind.
pub open spec fn structural_kind_debug(k: StructuralKind) -> Seq<char> {
    match k {
        StructuralKind::TitlePage => "TitlePage"@,
        StructuralKind::NotesPage => "NotesPage"@,
        StructuralKind::Abstract(AbstractKind::Extended) => "Abstract(Extended)"@,
        StructuralKind::Abstract(AbstractKind::Short) => "Abstract(Short)"@,
        StructuralKind::Contents(ContentsKind::Collection) => "Contents(Collection)"@,
        StructuralKind::Contents(ContentsKind::Integrated) => "Contents(Integrated)"@,
        StructuralKind::NormativeReferences => "NormativeReferences"@,
        StructuralKind::Definitions => "Definitions"@,
        StructuralKind::Introduction => "Introduction"@,
        StructuralKind::MainPart => "MainPart"@,
        StructuralKind::Conclusion(ConclusionKind::Final) => "Conclusion(Final)"@,
        StructuralKind::Conclusion(ConclusionKind::Summary) => "Conclusion(Summary)"@,
        StructuralKind::Sources => "Sources"@,
        StructuralKind::Appendix => "Appendix"@,
        StructuralKind::IndependenceStatement => "IndependenceStatement"@,
    }
}

/// What `{:?}` shows for a note kind.
pub open spec fn note_kind_debug(k: NoteKind) -> Seq<char> {
    match k {
        NoteKind::General => "General"@,
        NoteKind::Example => "Example"@,
        NoteKind::Remark => "Remark"@,
    }
}

/// How many of `s` are table rows.
pub open spec fn count_rows(s: Seq<NodeV>) -> nat
    decreases s.len(),
{
    if s.len() == 0 {
        0
    } else {
        count_rows(s.drop_last()) + if s.last() is TableRow { 1nat } else { 0nat }
    }
}

/// The number of nested levels of `n` (1 for a node without children).
pub open spec fn node_depth(n: NodeV) -> nat
    decreases n,
{
    match n {
        NodeV::Document { children, .. } => 1 + seq_depth(children),
        NodeV::Structure { children, .. } => 1 + seq_depth(children),
        NodeV::Section { children, .. } => 1 + seq_depth(children),
        NodeV::Paragraph { .. } => 1,
        NodeV::List { items } => 1 + seq_depth(items),
        NodeV::ListItem { children, .. } => 1 + seq_depth(children),
        NodeV::Figure { children, .. } => 1 + seq_depth(children),
        NodeV::Table { children, .. } => 1 + seq_depth(children),
        NodeV::TableRow { cells } => 1 + seq_depth(cells),
        NodeV::TableCell { children } => 1 + seq_depth(children),
        NodeV::Listing { .. } => 1,
        NodeV::Note { children, .. } => 1 + seq_depth(children),
    }
}

/// The greatest depth among `s` (0 when empty).
pub open spec fn seq_depth(s: Seq<NodeV>) -> nat
    decreases s,
{
    if s.len() == 0 {
        0
    } else {
        let a = seq_depth(s.subrange(0, s.len() - 1));
        let b = node_depth(s[s.len() - 1]);
        if a >= b { a } else { b }
    }
}

/// Each of `s` is no deeper than `s`.
pub proof fn lemma_seq_depth(s: Seq<NodeV>)
    ensures
        forall|i: int| 0 <= i < s.len() ==> #[trigger] node_depth(s[i]) <= seq_depth(s),
    decreases s.len(),
{
    if s.len() > 0 {
        let t = s.subrange(0, s.len() - 1);
        lemma_seq_depth(t);
        assert forall|i: int| 0 <= i < s.len() implies #[trigger] node_depth(s[i]) <= seq_depth(s) by {
            if i < s.len() - 1 {
                assert(s[i] == t[i]);
            }
        }
    }
}

/// The dump of `n` at `indent`: a line for `n`, then its children one level deeper.
pub open spec fn debug_text(n: NodeV, indent: nat) -> Seq<char>
    decreases n,
{
    let sp = spaces(indent);
    match n {
        NodeV::Document { children, attributes } => sp + "Document [attrs: "@ + attrs_debug(
            attributes,
        ) + "]\n"@ + debug_seq(children, indent + 1),
        NodeV::Structure { kind, children, attributes } => sp + "Structural(kind="@
            + structural_kind_debug(kind) + ") [attrs: "@ + attrs_debug(attributes) + "]\n"@
            + debug_seq(children, indent + 1),
        NodeV::Section { level, title, children } => sp + "Section(level="@ + decimal(
            level as nat,
        ) + ", title='"@ + title + "')\n"@ + debug_seq(children, indent + 1),
        NodeV::Paragraph { text } => sp + "Paragraph(text='"@ + truncate(text) + "')\n"@,
        NodeV::List { items } => sp + "List\n"@ + debug_seq(items, indent + 1),
        NodeV::ListItem { level, text, children } => sp + "ListItem(level="@ + decimal(
            level as nat,
        ) + ", text='"@ + truncate(text) + "')\n"@ + debug_seq(children, indent + 1),
        NodeV::Table { children, attributes } => sp + "Table [rows: "@ + decimal(
            count_rows(children),
        ) + ", attrs: "@ + attrs_debug(attributes) + "]\n"@ + debug_seq(children, indent + 1),
        NodeV::TableRow { cells } => sp + "TableRow\n"@ + debug_seq(cells, indent + 1),
        NodeV::TableCell { children } => sp + "TableCell\n"@ + debug_seq(children, indent + 1),
        NodeV::Note { kind, children } => sp + "Note(kind="@ + note_kind_debug(kind) + ")\n"@
            + debug_seq(children, indent + 1),
        NodeV::Listing { text, attributes } => sp + "Listing(text='"@ + truncate(
            flatten_lines(text),
        ) + "') [attrs: "@ + attrs_debug(attributes) + "]\n"@,
        NodeV::Figure { attributes, children } => sp + "Figure [attrs: "@ + attrs_debug(
            attributes,
        ) + "]\n"@ + debug_seq(children, indent + 1),
    }
}

/// The dumps of `s` at `indent`, one after the other.
pub open spec fn debug_seq(s: Seq<NodeV>, indent: nat) -> Seq<char>
    decreases s,
{
    if s.len() == 0 {
        seq![]
    } else {
        debug_seq(s.subrange(0, s.len() - 1), indent) + debug_text(s[s.len() - 1], indent)
    }
}

/// The first line of the dump of `n`, without its indentation.
pub open spec fn header_text(n: NodeV) -> Seq<char> {
    match n {
        NodeV::Document { attributes, .. } => "Document [attrs: "@ + attrs_debug(attributes)
            + "]\n"@,
        NodeV::Structure { kind, attributes, .. } => "Structural(kind="@ + structural_kind_debug(
            kind,
        ) + ") [attrs: "@ + attrs_debug(attributes) + "]\n"@,
        NodeV::Section { level, title, .. } => "Section(level="@ + decimal(level as nat)
            + ", title='"@ + title + "')\n"@,
        NodeV::Paragraph { text } => "Paragraph(text='"@ + truncate(text) + "')\n"@,
        NodeV::List { .. } => "List\n"@,
        NodeV::ListItem { level, text, .. } => "ListItem(level="@ + decimal(level as nat)
            + ", text='"@ + truncate(text) + "')\n"@,
        NodeV::Table { children, attributes } => "Table [rows: "@ + decimal(count_rows(children))
            + ", attrs: "@ + attrs_debug(attributes) + "]\n"@,
        NodeV::TableRow { .. } => "TableRow\n"@,
        NodeV::TableCell { .. } => "TableCell\n"@,
        NodeV::Note { kind, .. } => "Note(kind="@ + note_kind_debug(kind) + ")\n"@,
        NodeV::Listing { text, attributes } => "Listing(text='"@ + truncate(flatten_lines(text))
            + "') [attrs: "@ + attrs_debug(attributes) + "]\n"@,
        NodeV::Figure { attributes, .. } => "Figure [attrs: "@ + attrs_debug(attributes) + "]\n"@,
    }
}

/// The nodes directly inside `n`.
pub open spec fn children_of(n: NodeV) -> Seq<NodeV> {
    match n {
        NodeV::Document { children, .. } => children,
        NodeV::Structure { children, .. } => children,
        NodeV::Section { children, .. } => children,
        NodeV::Paragraph { .. } => seq![],
        NodeV::List { items } => items,
        NodeV::ListItem { children, .. } => children,
        NodeV::Figure { children, .. } => children,
        NodeV::Table { children, .. } => children,
        NodeV::TableRow { cells } => cells,
        NodeV::TableCell { children } => children,
        NodeV::Listing { .. } => seq![],
        NodeV::Note { children, .. } => children,
    }
}

/// The first line of the dump of a section holds its level and its whole title, as
/// written: section titles are never shortened.
pub proof fn law_section_title_verbatim(level: u8, title: Seq<char>, children: Seq<NodeV>, indent: nat)
    ensures
        ({
            let line = spaces(indent) + "Section(level="@ + decimal(level as nat) + ", title='"@
                + title + "')\n"@;
            let d = debug_text(NodeV::Section { level, title, children }, indent);
            line.len() <= d.len() && d.subrange(0, line.len() as int) == line
        }),
{
    let line = spaces(indent) + "Section(level="@ + decimal(level as nat) + ", title='"@ + title
        + "')\n"@;
    let rest = debug_seq(children, indent + 1);
    assert(debug_text(NodeV::Section { level, title, children }, indent) == line + rest);
    assert((line + rest).subrange(0, line.len() as int) =~= line);
}

/// The dump of `n` is its indented header, then its children one level deeper.
#[verifier::rlimit(40)]
pub proof fn lemma_debug_text_shape(n: NodeV, indent: nat)
    ensures
        debug_text(n, indent) == spaces(indent) + header_text(n) + debug_seq(
            children_of(n),
            indent + 1,
        ),
{
    assert(debug_seq(Seq::<NodeV>::empty(), indent + 1) == Seq::<char>::empty());
    assert(debug_text(n, indent) =~= spaces(indent) + header_text(n) + debug_seq(
        children_of(n),
        indent + 1,
    ));
}

/// A node is one level deeper than its deepest child.
pub proof fn lemma_node_depth_shape(n: NodeV)
    ensures
        node_depth(n) == 1 + seq_depth(children_of(n)),
{
    assert(seq_depth(Seq::<NodeV>::empty()) == 0);
}

/// `{k1: v1, ...}` for pairs whose keys and values are already quoted (as `Debug` of a map
/// shows them).
pub fn map_debug_text(quoted: &Vec<(String, String)>) -> (r: String)
    ensures
        r@ == map_text(quoted@.map_values(|e: (String, String)| (e.0@, e.1@))),
{
    let ghost q = quoted@.map_values(|e: (String, String)| (e.0@, e.1@));
    let mut out: Vec<char> = vec!['{'];
    let mut i: usize = 0;
    assert(q.subrange(0, 0) =~= Seq::<(Seq<char>, Seq<char>)>::empty());
    while i < quoted.len()
        invariant
            i <= quoted.len() == q.len(),
            q == quoted@.map_values(|e: (String, String)| (e.0@, e.1@)),
            out@ == seq!['{'] + map_entries(q.subrange(0, i as int)),
        decreases quoted.len() - i,
    {
        let ghost before = out@;
        assert(q.subrange(0, i + 1).drop_last() =~= q.subrange(0, i as int));
        if i > 0 {
            out.push(',');
            out.push(' ');
        }
        let k = str_chars(quoted[i].0.as_str());
        push_all(&mut out, &k);
        out.push(':');
        out.push(' ');
        let v = str_chars(quoted[i].1.as_str());
        push_all(&mut out, &v);
        assert(q[i as int] == (quoted@[i as int].0@, quoted@[i as int].1@));
        assert(out@ =~= seq!['{'] + map_entries(q.subrange(0, i + 1)));
        i = i + 1;
    }
    assert(q.subrange(0, q.len() as int) =~= q);
    out.push('}');
    chars_to_string(&out)
}

/// Appends the dump of the attribute map `m`.
fn push_attrs(m: &AttributeMap, out: &mut Vec<char>)
    ensures
        final(out)@ == old(out)@ + attrs_debug(m@),
{
    let mut quoted: Vec<(String, String)> = Vec::new();
    let mut i: usize = 0;
    while i < m.len()
        invariant
            i <= m@.len(),
            quoted@.map_values(|e: (String, String)| (e.0@, e.1@)) == quote_all(m@).subrange(
                0,
                i as int,
            ),
        decreases m@.len() - i,
    {
        let (k, v) = m.entry(i);
        let ghost before = quoted@.map_values(|e: (String, String)| (e.0@, e.1@));
        let e = (debug_string(k), debug_string(v));
        quoted.push(e);
        assert(quoted@.map_values(|e: (String, String)| (e.0@, e.1@)) =~= before.push((e.0@, e.1@)));
        assert(quote_all(m@)[i as int] == (e.0@, e.1@));
        assert(quoted@.map_values(|e: (String, String)| (e.0@, e.1@)) =~= quote_all(m@).subrange(
            0,
            i + 1,
        ));
        i = i + 1;
    }
    assert(quote_all(m@).subrange(0, m@.len() as int) =~= quote_all(m@));
    let text = map_debug_text(&quoted);
    let cs = str_chars(text.as_str());
    push_all(out, &cs);
}

/// What `{:?}` shows for a structural kind.
fn structural_kind_name(k: StructuralKind) -> (r: &'static str)
    ensures
        r@ == structural_kind_debug(k),
{
    match k {
        StructuralKind::TitlePage => "TitlePage",
        StructuralKind::NotesPage => "NotesPage",
        StructuralKind::Abstract(AbstractKind::Extended) => "Abstract(Extended)",
        StructuralKind::Abstract(AbstractKind::Short) => "Abstract(Short)",
        StructuralKind::Contents(ContentsKind::Collection) => "Contents(Collection)",
        StructuralKind::Contents(ContentsKind::Integrated) => "Contents(Integrated)",
        StructuralKind::NormativeReferences => "NormativeReferences",
        StructuralKind::Definitions => "Definitions",
        StructuralKind::Introduction => "Introduction",
        StructuralKind::MainPart => "MainPart",
        StructuralKind::Conclusion(ConclusionKind::Final) => "Conclusion(Final)",
        StructuralKind::Conclusion(ConclusionKind::Summary) => "Conclusion(Summary)",
        StructuralKind::Sources => "Sources",
        StructuralKind::Appendix => "Appendix",
        StructuralKind::IndependenceStatement => "IndependenceStatement",
    }
}

/// What `{:?}` shows for a note kind.
fn note_kind_name(k: NoteKind) -> (r: &'static str)
    ensures
        r@ == note_kind_debug(k),
{
    match k {
        NoteKind::General => "General",
        NoteKind::Example => "Example",
        NoteKind::Remark => "Remark",
    }
}

/// Appends `2 * n` spaces.
fn push_spaces(n: usize, out: &mut Vec<char>)
    ensures
        final(out)@ == old(out)@ + spaces(n as nat),
{
    let mut i: usize = 0;
    while i < n
        invariant
            i <= n,
            out@ == old(out)@ + spaces(i as nat),
        decreases n - i,
    {
        out.push(' ');
        out.push(' ');
        i = i + 1;
        assert(out@ =~= old(out)@ + spaces(i as nat));
    }
}

/// Appends `t` cut as [`truncate`] says.
fn push_truncated(s: &String, out: &mut Vec<char>)
    ensures
        final(out)@ == old(out)@ + truncate(s@),
{
    let t = str_chars(s.as_str());
    push_truncated_chars(&t, out);
}

/// Appends `t` cut as [`truncate`] says.
fn push_truncated_chars(t: &Vec<char>, out: &mut Vec<char>)
    ensures
        final(out)@ == old(out)@ + truncate(t@),
{
    if t.len() > 40 {
        let mut i: usize = 0;
        while i < 37
            invariant
                i <= 37 < t.len(),
                out@ == old(out)@ + t@.subrange(0, i as int),
            decreases 37 - i,
        {
            out.push(t[i]);
            i = i + 1;
            assert(out@ =~= old(out)@ + t@.subrange(0, i as int));
        }
        out.push('.');
        out.push('.');
        out.push('.');
        assert(out@ =~= old(out)@ + truncate(t@));
    } else {
        push_all(out, t);
    }
}

/// The characters of `s` with each line feed replaced by a space.
fn flatten(s: &String) -> (r: Vec<char>)
    ensures
        r@ == flatten_lines(s@),
{
    let t = str_chars(s.as_str());
    let mut r: Vec<char> = Vec::new();
    let mut i: usize = 0;
    while i < t.len()
        invariant
            i <= t.len(),
            t@ == s@,
            r@ == flatten_lines(t@.subrange(0, i as int)),
        decreases t.len() - i,
    {
        r.push(if t[i] == '\n' { ' ' } else { t[i] });
        i = i + 1;
        assert(r@ =~= flatten_lines(t@.subrange(0, i as int)));
    }
    assert(t@.subrange(0, t.len() as int) =~= t@);
    r
}

/// The number of table rows among `children`.
fn row_count(children: &Vec<Node>) -> (r: usize)
    ensures
        r == count_rows(nodes_view(children@)),
{
    proof {
        lemma_nodes_view_index(children@);
    }
    let ghost v = nodes_view(children@);
    let mut c: usize = 0;
    let mut i: usize = 0;
    assert(v.subrange(0, 0) =~= Seq::<NodeV>::empty());
    while i < children.len()
        invariant
            i <= children.len() == v.len(),
            v == nodes_view(children@),
            forall|j: int| 0 <= j < v.len() ==> v[j] == children@[j]@,
            c == count_rows(v.subrange(0, i as int)),
            c <= i,
        decreases children.len() - i,
    {
        assert(v.subrange(0, i + 1).drop_last() =~= v.subrange(0, i as int));
        if matches!(&children[i], Node::TableRow(_)) {
            c = c + 1;
        }
        i = i + 1;
    }
    assert(v.subrange(0, v.len() as int) =~= v);
    c
}

/// Appends the header of `n` (see [`header_text`]) and hands out its children.
fn push_header<'a>(n: &'a Node, out: &mut Vec<char>) -> (kids: Option<&'a Vec<Node>>)
    ensures
        final(out)@ == old(out)@ + header_text(n@),
        match kids {
            Some(k) => nodes_view(k@) == children_of(n@),
            None => children_of(n@) == Seq::<NodeV>::empty(),
        },
{
    match n {
        Node::Document(d) => {
            push_str(out, "Document [attrs: ");
            push_attrs(&d.attributes, out);
            push_str(out, "]\n");
            Some(&d.children)
        },
        Node::Structure(e) => {
            push_str(out, "Structural(kind=");
            push_str(out, structural_kind_name(e.kind));
            push_str(out, ") [attrs: ");
            push_attrs(&e.attributes, out);
            push_str(out, "]\n");
            Some(&e.children)
        },
        Node::Section(h) => {
            push_str(out, "Section(level=");
            push_decimal(h.level as usize, out);
            push_str(out, ", title='");
            let t = str_chars(h.title.as_str());
            push_all(out, &t);
            push_str(out, "')\n");
            Some(&h.children)
        },
        Node::Paragraph(p) => {
            push_str(out, "Paragraph(text='");
            push_truncated(&p.text, out);
            push_str(out, "')\n");
            None
        },
        Node::List(l) => {
            push_str(out, "List\n");
            Some(&l.items)
        },
        Node::ListItem(item) => {
            push_str(out, "ListItem(level=");
            push_decimal(item.level as usize, out);
            push_str(out, ", text='");
            push_truncated(&item.text, out);
            push_str(out, "')\n");
            Some(&item.children)
        },
        Node::Table(t) => {
            let rows: usize = row_count(&t.children);
            push_str(out, "Table [rows: ");
            push_decimal(rows, out);
            push_str(out, ", attrs: ");
            push_attrs(&t.attributes, out);
            push_str(out, "]\n");
            Some(&t.children)
        },
        Node::TableRow(row) => {
            push_str(out, "TableRow\n");
            Some(&row.cells)
        },
        Node::TableCell(cell) => {
            push_str(out, "TableCell\n");
            Some(&cell.children)
        },
        Node::Note(note) => {
            push_str(out, "Note(kind=");
            push_str(out, note_kind_name(note.kind));
            push_str(out, ")\n");
            Some(&note.children)
        },
        Node::Listing(l) => {
            push_str(out, "Listing(text='");
            let flat = flatten(&l.text);
            push_truncated_chars(&flat, out);
            push_str(out, "') [attrs: ");
            push_attrs(&l.attributes, out);
            push_str(out, "]\n");
            None
        },
        Node::Figure(f) => {
            push_str(out, "Figure [attrs: ");
            push_attrs(&f.attributes, out);
            push_str(out, "]\n");
            Some(&f.children)
        },
    }
}

/// Appends the dump of `n` at `indent`.
fn debug_into(n: &Node, indent: usize, out: &mut Vec<char>)
    requires
        indent + node_depth(n@) <= usize::MAX,
    ensures
        final(out)@ == old(out)@ + debug_text(n@, indent as nat),
    decreases node_depth(n@),
{
    proof {
        lemma_debug_text_shape(n@, indent as nat);
        lemma_node_depth_shape(n@);
    }
    push_spaces(indent, out);
    let kids = push_header(n, out);
    let ghost mid = out@;
    match kids {
        None => {
            assert(out@ =~= old(out)@ + debug_text(n@, indent as nat));
        },
        Some(kids) => {
            let ghost kv = nodes_view(kids@);
            proof {
                lemma_nodes_view_index(kids@);
                lemma_seq_depth(kv);
            }
            let mut i: usize = 0;
            assert(kv.subrange(0, 0) =~= Seq::<NodeV>::empty());
            while i < kids.len()
                invariant
                    i <= kids.len() == kv.len(),
                    kv == nodes_view(kids@),
                    kv == children_of(n@),
                    forall|j: int| 0 <= j < kv.len() ==> kv[j] == kids@[j]@,
                    forall|j: int| 0 <= j < kv.len() ==> #[trigger] node_depth(kv[j]) <= seq_depth(kv),
                    node_depth(n@) == 1 + seq_depth(kv),
                    indent + node_depth(n@) <= usize::MAX,
                    out@ == mid + debug_seq(kv.subrange(0, i as int), indent as nat + 1),
                decreases kids.len() - i,
            {
                assert(kv.subrange(0, i + 1).subrange(0, i as int) =~= kv.subrange(0, i as int));
                assert(node_depth(kv[i as int]) <= seq_depth(kv));
                debug_into(&kids[i], indent + 1, out);
                i = i + 1;
                assert(out@ =~= mid + debug_seq(kv.subrange(0, i as int), indent as nat + 1));
            }
            assert(kv.subrange(0, kv.len() as int) =~= kv);
            assert(out@ =~= old(out)@ + debug_text(n@, indent as nat));
        },
    }
}

/// `n`, or `usize::MAX` when it is larger.
pub open spec fn capped(n: nat) -> nat {
    if n < usize::MAX { n } else { usize::MAX as nat }
}

/// The children of `n`, if it has any.
fn children_ref(n: &Node) -> (r: Option<&Vec<Node>>)
    ensures
        match r {
            Some(k) => nodes_view(k@) == children_of(n@),
            None => children_of(n@) == Seq::<NodeV>::empty(),
        },
{
    match n {
        Node::Document(d) => Some(&d.children),
        Node::Structure(e) => Some(&e.children),
        Node::Section(h) => Some(&h.children),
        Node::Paragraph(_) => None,
        Node::List(l) => Some(&l.items),
        Node::ListItem(i) => Some(&i.children),
        Node::Table(t) => Some(&t.children),
        Node::TableRow(r) => Some(&r.cells),
        Node::TableCell(c) => Some(&c.children),
        Node::Note(n) => Some(&n.children),
        Node::Listing(_) => None,
        Node::Figure(f) => Some(&f.children),
    }
}

impl Node {
    /// The number of nested levels of this node (1 without children), or `usize::MAX` when
    /// there are more.
    pub fn depth(&self) -> (r: usize)
        ensures
            r == capped(node_depth(self@)),
        decreases node_depth(self@),
    {
        proof {
            lemma_node_depth_shape(self@);
        }
        match children_ref(self) {
            None => 1,
            Some(kids) => {
                let ghost kv = nodes_view(kids@);
                proof {
                    lemma_nodes_view_index(kids@);
                    lemma_seq_depth(kv);
                }
                let mut d: usize = 0;
                let mut i: usize = 0;
                assert(kv.subrange(0, 0) =~= Seq::<NodeV>::empty());
                while i < kids.len()
                    invariant
                        i <= kids.len() == kv.len(),
                        kv == nodes_view(kids@),
                        kv == children_of(self@),
                        node_depth(self@) == 1 + seq_depth(kv),
                        forall|j: int| 0 <= j < kv.len() ==> kv[j] == kids@[j]@,
                        forall|j: int| 0 <= j < kv.len() ==> #[trigger] node_depth(kv[j]) <= seq_depth(kv),
                        d == capped(seq_depth(kv.subrange(0, i as int))),
                    decreases kids.len() - i,
                {
                    assert(kv.subrange(0, i + 1).subrange(0, i as int) =~= kv.subrange(0, i as int));
                    assert(node_depth(kv[i as int]) <= seq_depth(kv));
                    let c: usize = kids[i].depth();
                    if c > d {
                        d = c;
                    }
                    i = i + 1;
                }
                assert(kv.subrange(0, kv.len() as int) =~= kv);
                if d < usize::MAX { d + 1 } else { usize::MAX }
            },
        }
    }

    /// An indented dump of the tree under this node, one line per node, starting at
    /// `indent` levels (two spaces each).
    pub fn debug_print(&self, indent: usize) -> (r: String)
        requires
            indent + node_depth(self@) <= usize::MAX,
        ensures
            r@ == debug_text(self@, indent as nat),
    {
        let mut out: Vec<char> = Vec::new();
        debug_into(self, indent, &mut out);
        assert(out@ =~= debug_text(self@, indent as nat));
        chars_to_string(&out)
    }
}

} // verus!
