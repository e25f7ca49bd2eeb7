use eadup::get_tokens;
use eadup::lexer::token::{
    AbstractKind, ConclusionKind, ContentsKind, NoteKind, StructuralKind, Token, TokenType,
};
use eadup::lexer::Lexer;

fn kinds(src: &str) -> Vec<TokenType> {
    get_tokens(src).into_iter().map(|t| t.kind).collect()
}

#[test]
fn keywords_become_structural_tokens() {
    let k = kinds("ТИТУЛЬНЫЙ ЛИСТ\nРЕФЕРАТ\nАННОТАЦИЯ\nСОДЕРЖАНИЕ\nОГЛАВЛЕНИЕ\nЗАКЛЮЧЕНИЕ\nВЫВОДЫ\nОСНОВНАЯ ЧАСТЬ");
    assert_eq!(
        k,
        vec![
            TokenType::Structure { kind: StructuralKind::TitlePage },
            TokenType::Structure { kind: StructuralKind::Abstract(AbstractKind::Extended) },
            TokenType::Structure { kind: StructuralKind::Abstract(AbstractKind::Short) },
            TokenType::Structure { kind: StructuralKind::Contents(ContentsKind::Collection) },
            TokenType::Structure { kind: StructuralKind::Contents(ContentsKind::Integrated) },
            TokenType::Structure { kind: StructuralKind::Conclusion(ConclusionKind::Final) },
            TokenType::Structure { kind: StructuralKind::Conclusion(ConclusionKind::Summary) },
            TokenType::Structure { kind: StructuralKind::MainPart },
        ]
    );
}

#[test]
fn figures_tables_rows_and_notes() {
    let k = kinds("РИСУНОК\nТАБЛИЦА\nСТРОКА\nПРИМЕЧАНИЯ\nПРИМЕРЫ\nПОЯСНЕНИЯ");
    assert_eq!(
        k,
        vec![
            TokenType::Figure,
            TokenType::Table,
            TokenType::Row,
            TokenType::Note { kind: NoteKind::General },
            TokenType::Note { kind: NoteKind::Example },
            TokenType::Note { kind: NoteKind::Remark },
        ]
    );
}

#[test]
fn keywords_match_only_whole_trimmed_lines() {
    let k = kinds("   ВВЕДЕНИЕ   \nВВЕДЕНИЕ и ещё");
    assert_eq!(
        k,
        vec![
            TokenType::Structure { kind: StructuralKind::Introduction },
            TokenType::Paragraph { text: "ВВЕДЕНИЕ и ещё".to_string() },
        ]
    );
}

#[test]
fn sections_count_slashes() {
    let k = kinds("/ Первый\n/// Третий уровень  ");
    assert_eq!(
        k,
        vec![
            TokenType::Section { level: 1, heading: "Первый".to_string() },
            TokenType::Section { level: 3, heading: "Третий уровень".to_string() },
        ]
    );
}

#[test]
fn list_items_count_dashes() {
    let k = kinds("- one\n-- two\n-");
    assert_eq!(
        k,
        vec![
            TokenType::ListItem { level: 1, text: "one".to_string() },
            TokenType::ListItem { level: 2, text: "two".to_string() },
            TokenType::ListItem { level: 1, text: "".to_string() },
        ]
    );
}

#[test]
fn attributes_split_at_first_equals() {
    let k = kinds("\\имя = Рисунок 1 = схема\n\\ключ без значения");
    assert_eq!(
        k,
        vec![
            TokenType::Attribute { key: "имя".to_string(), value: "Рисунок 1 = схема".to_string() },
            TokenType::Error {
                message: "неверный формат атрибута (ожидалось '\\ключ = значение')".to_string()
            },
        ]
    );
}

#[test]
fn cells_with_and_without_text() {
    let k = kinds("ГРАФА\nГРАФА  текст ячейки");
    assert_eq!(
        k,
        vec![
            TokenType::Cell { text: None },
            TokenType::Cell { text: Some("текст ячейки".to_string()) },
        ]
    );
}

#[test]
fn empty_lines_and_paragraphs() {
    let toks = get_tokens("Абзац.\n   \n\tещё");
    assert_eq!(toks.len(), 3);
    assert_eq!(toks[0].kind, TokenType::Paragraph { text: "Абзац.".to_string() });
    assert_eq!(toks[1].kind, TokenType::EmptyLine);
    assert_eq!(toks[2].kind, TokenType::Paragraph { text: "ещё".to_string() });
    assert_eq!(toks[2].raw, "\tещё");
    assert_eq!(toks.iter().map(|t| t.line).collect::<Vec<_>>(), vec![1, 2, 3]);
}

#[test]
fn closed_listing_spans_its_lines() {
    let toks = get_tokens("текст\n```rust\nfn main() {}\n  let x = 1;\n```\nпосле");
    assert_eq!(toks.len(), 3);
    assert_eq!(
        toks[1],
        Token::new(
            TokenType::Listing { code: "fn main() {}\n  let x = 1;\n".to_string() },
            5,
            "```rust".to_string()
        )
    );
    assert_eq!(toks[2].line, 6);
}

#[test]
fn unclosed_listing_is_an_error() {
    let toks = get_tokens("a\n```\ncode\nmore");
    assert_eq!(toks.len(), 2);
    assert_eq!(
        toks[1].kind,
        TokenType::Error { message: "незакрытый листинг (начало на строке 2)".to_string() }
    );
    assert_eq!(toks[1].line, 4);
}

#[test]
fn empty_listing() {
    let toks = get_tokens("```\n```");
    assert_eq!(toks.len(), 1);
    assert_eq!(toks[0].kind, TokenType::Listing { code: String::new() });
    assert_eq!(toks[0].line, 2);
}

#[test]
fn lines_follow_str_lines() {
    let toks = get_tokens("a\r\nb\n\nc\r");
    let raws: Vec<String> = toks.iter().map(|t| t.raw.clone()).collect();
    assert_eq!(raws, vec!["a", "b", "", "c\r"]);
    assert!(raws.iter().all(|r| !r.contains('\n')));
    assert!(get_tokens("").is_empty());
    assert_eq!(get_tokens("x\n").len(), 1);
    assert_eq!(get_tokens("\n").len(), 1);
}

#[test]
fn one_token_per_line_without_listings() {
    let src = "ВВЕДЕНИЕ\nТекст\n\n- пункт\n/ Раздел";
    let toks = get_tokens(src);
    assert_eq!(toks.len(), src.lines().count());
    for (i, (t, l)) in toks.iter().zip(src.lines()).enumerate() {
        assert_eq!(t.line, i + 1);
        assert_eq!(t.raw, l);
    }
}

#[test]
fn token_lines_increase_and_end_on_last_line() {
    let src = "a\n```\nx\n```\nb\n```\nnever closed";
    let toks = get_tokens(src);
    for w in toks.windows(2) {
        assert!(w[0].line < w[1].line);
    }
    assert_eq!(toks.last().unwrap().line, src.lines().count());
}

#[test]
fn lexer_hands_out_tokens_one_by_one() {
    let mut lx = Lexer::new("a\nb");
    assert_eq!(lx.next().unwrap().kind, TokenType::Paragraph { text: "a".to_string() });
    assert_eq!(lx.next().unwrap().line, 2);
    assert!(lx.next().is_none());
    assert!(lx.next().is_none());
}

#[test]
fn unicode_white_space_is_trimmed() {
    let k = kinds("\u{a0}\u{3000}Текст\u{2003}");
    assert_eq!(k, vec![TokenType::Paragraph { text: "Текст".to_string() }]);
}

#[test]
fn deep_sections_wrap_level_as_u8() {
    let src = format!("{} x", "/".repeat(257));
    assert_eq!(kinds(&src), vec![TokenType::Section { level: 1, heading: "x".to_string() }]);
}
