use eadup::get_ast;
use eadup::get_tokens;
use eadup::lexer::token::{NoteKind, StructuralKind, Token, TokenType};
use eadup::parser::ast::{AttributeMap, Node};
use eadup::parser::Parser;

const README_SAMPLE: &str = "ЛИСТ ДЛЯ ЗАМЕЧАНИЙ\n\nВВЕДЕНИЕ\n\nThe relevance of the topic is described here.\n\n- first list item\n- second list item\n\nОСНОВНАЯ ЧАСТЬ\n\n/ Technical Specifications\nParagraph text describing the system.\n\nРИСУНОК \n\\имя = Figure 1.1 - Compiler Workflow Diagram\n\\источник = diagram.png\nПОЯСНЕНИЯ\n- 1 - Input data (.ead)\n- 2 - Processing\n- 3 - Output file (PDF)\n";

fn count_nodes(n: &Node) -> usize {
    let own = if matches!(n, Node::List(_)) { 0 } else { 1 };
    let kids: &[Node] = match n {
        Node::Document(d) => &d.children,
        Node::Structure(s) => &s.children,
        Node::Section(s) => &s.children,
        Node::Paragraph(_) | Node::Listing(_) => &[],
        Node::List(l) => &l.items,
        Node::ListItem(i) => &i.children,
        Node::Figure(f) => &f.children,
        Node::Table(t) => &t.children,
        Node::TableRow(r) => &r.cells,
        Node::TableCell(c) => &c.children,
        Node::Note(n) => &n.children,
    };
    own + kids.iter().map(count_nodes).sum::<usize>()
}

fn token_weight(t: &Token) -> usize {
    match &t.kind {
        TokenType::EmptyLine | TokenType::Attribute { .. } | TokenType::Error { .. } => 0,
        TokenType::Cell { text: Some(_) } => 2,
        _ => 1,
    }
}

#[test]
fn readme_sample_tree() {
    let ast = get_ast(README_SAMPLE);
    let doc = ast.as_document().expect("root is a document");
    assert_eq!(doc.children.len(), 3);
    match &doc.children[0] {
        Node::Structure(s) => {
            assert_eq!(s.kind, StructuralKind::NotesPage);
            assert!(s.children.is_empty());
        }
        other => panic!("unexpected {:?}", other),
    }
    match &doc.children[1] {
        Node::Structure(s) => {
            assert_eq!(s.kind, StructuralKind::Introduction);
            assert_eq!(s.children.len(), 2);
            match &s.children[1] {
                Node::List(l) => assert_eq!(l.items.len(), 2),
                other => panic!("unexpected {:?}", other),
            }
        }
        other => panic!("unexpected {:?}", other),
    }
    match &doc.children[2] {
        Node::Structure(s) => {
            assert_eq!(s.kind, StructuralKind::MainPart);
            match &s.children[0] {
                Node::Section(sec) => {
                    assert_eq!(sec.level, 1);
                    assert_eq!(sec.title, "Technical Specifications");
                    match &sec.children[1] {
                        Node::Figure(f) => {
                            assert_eq!(
                                f.attributes.get("имя").map(|s| s.as_str()),
                                Some("Figure 1.1 - Compiler Workflow Diagram")
                            );
                            assert_eq!(
                                f.attributes.get("источник").map(|s| s.as_str()),
                                Some("diagram.png")
                            );
                            match &f.children[0] {
                                Node::Note(n) => {
                                    assert_eq!(n.kind, NoteKind::Remark);
                                    match &n.children[0] {
                                        Node::List(l) => assert_eq!(l.items.len(), 3),
                                        other => panic!("unexpected {:?}", other),
                                    }
                                }
                                other => panic!("unexpected {:?}", other),
                            }
                        }
                        other => panic!("unexpected {:?}", other),
                    }
                }
                other => panic!("unexpected {:?}", other),
            }
        }
        other => panic!("unexpected {:?}", other),
    }
}

#[test]
fn readme_sample_debug_print() {
    let ast = get_ast(README_SAMPLE);
    let expected = "Document [attrs: {}]\n  Structural(kind=NotesPage) [attrs: {}]\n  Structural(kind=Introduction) [attrs: {}]\n    Paragraph(text='The relevance of the topic is describ...')\n    List\n      ListItem(level=1, text='first list item')\n      ListItem(level=1, text='second list item')\n  Structural(kind=MainPart) [attrs: {}]\n    Section(level=1, title='Technical Specifications')\n      Paragraph(text='Paragraph text describing the system.')\n      Figure [attrs: {\"имя\": \"Figure 1.1 - Compiler Workflow Diagram\", \"источник\": \"diagram.png\"}]\n        Note(kind=Remark)\n          List\n            ListItem(level=1, text='1 - Input data (.ead)')\n            ListItem(level=1, text='2 - Processing')\n            ListItem(level=1, text='3 - Output file (PDF)')\n";
    assert_eq!(ast.debug_print(0), expected);
}

#[test]
fn node_count_matches_the_tokens() {
    for src in [
        README_SAMPLE,
        "ВВЕДЕНИЕ\nТАБЛИЦА\n\\имя = Т1\nСТРОКА\nГРАФА a\nГРАФА\n",
        "Текст\n- a\n--- b\nСТРОКА\nГРАФА x\n/ s\n// t\nПРИМЕРЫ\n- c\n```\nq\n```\nРИСУНОК",
    ] {
        let tokens = get_tokens(src);
        let expected: usize = tokens.iter().map(token_weight).sum();
        let ast = Parser::new(tokens).parse();
        assert_eq!(count_nodes(&ast), expected + 1);
    }
}

#[test]
fn table_rows_and_cells() {
    let ast = get_ast("ВВЕДЕНИЕ\nТАБЛИЦА\n\\имя = Т1\nСТРОКА\nГРАФА a\nГРАФА\n");
    let expected = "Document [attrs: {}]\n  Structural(kind=Introduction) [attrs: {}]\n    Table [rows: 1, attrs: {\"имя\": \"Т1\"}]\n      TableRow\n        TableCell\n          Paragraph(text='a')\n        TableCell\n";
    assert_eq!(ast.debug_print(0), expected);
}

#[test]
fn document_attributes_before_any_element() {
    let ast = get_ast("\\основной_размер_шрифта = 14\nВВЕДЕНИЕ");
    let doc = ast.as_document().unwrap();
    assert_eq!(doc.attributes.get("основной_размер_шрифта").map(|s| s.as_str()), Some("14"));
    assert_eq!(doc.attributes.len(), 1);
    assert_eq!(doc.children.len(), 1);
}

#[test]
fn later_attribute_replaces_earlier_value() {
    let ast = get_ast("\\k = 1\n\\k = 2\n\\j = 3");
    let doc = ast.as_document().unwrap();
    assert_eq!(doc.attributes.len(), 2);
    assert_eq!(doc.attributes.get("k").map(|s| s.as_str()), Some("2"));
    assert_eq!(doc.attributes.get("j").map(|s| s.as_str()), Some("3"));
}

#[test]
fn debug_print_quotes_attribute_strings() {
    let ast = get_ast("\\k = a\"b\\c");
    assert_eq!(ast.debug_print(0), "Document [attrs: {\"k\": \"a\\\"b\\\\c\"}]\n");
}

#[test]
fn paragraph_before_any_element_is_top_level() {
    let ast = get_ast("Текст\nВВЕДЕНИЕ");
    assert_eq!(
        ast.debug_print(1),
        "  Document [attrs: {}]\n    Paragraph(text='Текст')\n    Structural(kind=Introduction) [attrs: {}]\n"
    );
}

#[test]
fn listing_in_debug_print_is_one_line() {
    let ast = get_ast("ВВЕДЕНИЕ\n```\nline1\nline2\n```");
    assert_eq!(
        ast.debug_print(0),
        "Document [attrs: {}]\n  Structural(kind=Introduction) [attrs: {}]\n    Listing(text='line1 line2 ') [attrs: {}]\n"
    );
}

#[test]
fn nested_lists() {
    let ast = get_ast("ВВЕДЕНИЕ\n- пункт\n-- под\n-- под2\n- второй");
    let expected = "Document [attrs: {}]\n  Structural(kind=Introduction) [attrs: {}]\n    List\n      ListItem(level=1, text='пункт')\n        List\n          ListItem(level=2, text='под')\n          ListItem(level=2, text='под2')\n      ListItem(level=1, text='второй')\n";
    assert_eq!(ast.debug_print(0), expected);
}

#[test]
fn empty_input_gives_empty_document() {
    let ast = get_ast("");
    let doc = ast.as_document().unwrap();
    assert!(doc.children.is_empty());
    assert!(doc.attributes.is_empty());
}

#[test]
fn second_parse_has_no_tokens_left() {
    let mut p = Parser::new(get_tokens("ВВЕДЕНИЕ\nТекст"));
    let first = p.parse();
    assert_eq!(first.as_document().unwrap().children.len(), 1);
    let second = p.parse();
    assert!(second.as_document().unwrap().children.is_empty());
}

#[test]
fn errors_make_no_nodes() {
    let ast = get_ast("\\bad\n```\nunclosed");
    assert!(ast.as_document().unwrap().children.is_empty());
}

#[test]
fn as_document_on_other_nodes() {
    let ast = get_ast("Текст");
    let doc = ast.as_document().unwrap();
    assert!(doc.children[0].as_document().is_none());
}

#[test]
fn attribute_map_read_after_write() {
    let mut m = AttributeMap::new();
    assert!(m.is_empty());
    m.insert("a".to_string(), "1".to_string());
    m.insert("b".to_string(), "2".to_string());
    m.insert("a".to_string(), "3".to_string());
    assert_eq!(m.len(), 2);
    assert_eq!(m.get("a").map(|s| s.as_str()), Some("3"));
    assert_eq!(m.get("b").map(|s| s.as_str()), Some("2"));
    assert_eq!(m.get("c"), None);
    let (k, v) = m.entry(0);
    assert_eq!((k.as_str(), v.as_str()), ("a", "3"));
}

#[test]
fn long_paragraph_is_truncated_in_dump() {
    let text = "абвгдежзийклмнопрстуфхцчшщъыьэюя0123456789";
    let ast = get_ast(text);
    assert_eq!(
        ast.debug_print(0),
        "Document [attrs: {}]\n  Paragraph(text='абвгдежзийклмнопрстуфхцчшщъыьэюя01234...')\n"
    );
}

fn structures_below(n: &Node) -> usize {
    let kids: &[Node] = match n {
        Node::Document(d) => &d.children,
        Node::Structure(s) => &s.children,
        Node::Section(s) => &s.children,
        Node::Paragraph(_) | Node::Listing(_) => &[],
        Node::List(l) => &l.items,
        Node::ListItem(i) => &i.children,
        Node::Figure(f) => &f.children,
        Node::Table(t) => &t.children,
        Node::TableRow(r) => &r.cells,
        Node::TableCell(c) => &c.children,
        Node::Note(n) => &n.children,
    };
    kids.iter()
        .map(|k| (if matches!(k, Node::Structure(_)) { 1 } else { 0 }) + structures_below(k))
        .sum()
}

#[test]
fn structural_elements_stand_only_at_the_top() {
    let src = "ВВЕДЕНИЕ\n/ s\n- a\n-- b\nТАБЛИЦА\nСТРОКА\nГРАФА\nЗАКЛЮЧЕНИЕ\nРИСУНОК\nПРИМЕЧАНИЯ\nВЫВОДЫ";
    let ast = get_ast(src);
    let doc = ast.as_document().unwrap();
    assert_eq!(doc.children.len(), 3);
    assert!(doc.children.iter().all(|c| matches!(c, Node::Structure(_))));
    for c in &doc.children {
        assert_eq!(structures_below(c), 0);
    }
}

fn kids_of(n: &Node) -> &[Node] {
    match n {
        Node::Document(d) => &d.children,
        Node::Structure(s) => &s.children,
        Node::Section(s) => &s.children,
        Node::Paragraph(_) | Node::Listing(_) => &[],
        Node::List(l) => &l.items,
        Node::ListItem(i) => &i.children,
        Node::Figure(f) => &f.children,
        Node::Table(t) => &t.children,
        Node::TableRow(r) => &r.cells,
        Node::TableCell(c) => &c.children,
        Node::Note(n) => &n.children,
    }
}

fn fits_in(parent: &Node, child: &Node) -> bool {
    let at_top = matches!(parent, Node::Document(_));
    !matches!(child, Node::Document(_))
        && (matches!(parent, Node::List(_)) == matches!(child, Node::ListItem(_)))
        && (!matches!(child, Node::TableRow(_)) || matches!(parent, Node::Table(_)) || at_top)
        && (!matches!(child, Node::TableCell(_)) || matches!(parent, Node::TableRow(_)) || at_top)
}

fn well_shaped(n: &Node) -> bool {
    let kids = kids_of(n);
    (!matches!(n, Node::List(_)) || !kids.is_empty())
        && kids.iter().all(|k| fits_in(n, k) && well_shaped(k))
}

#[test]
fn every_node_sits_in_a_parent_that_may_hold_it() {
    for src in [
        README_SAMPLE,
        "СТРОКА\nГРАФА a\nГРАФА\n- x\nГРАФА b",
        "ВВЕДЕНИЕ\nТАБЛИЦА\nСТРОКА\n- в строке\nГРАФА c\n- в графе\n\n- после",
        "```\nкод\n```\n- после листинга\n-- глубже\n--- ещё\n- снова",
        "ВВЕДЕНИЕ\n- a\nПОЯСНЕНИЯ\n- b\n/ s\n- c\nРИСУНОК\n- d",
    ] {
        let ast = get_ast(src);
        assert!(matches!(ast, Node::Document(_)));
        assert!(well_shaped(&ast), "{}", ast.debug_print(0));
    }
}

#[test]
fn rows_and_cells_at_the_top() {
    let ast = get_ast("СТРОКА\nГРАФА a\nГРАФА");
    let expected = "Document [attrs: {}]\n  TableRow\n    TableCell\n      Paragraph(text='a')\n    TableCell\n";
    assert_eq!(ast.debug_print(0), expected);
}
