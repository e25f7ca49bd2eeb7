use eadup::backend::layout::{
    fix_punctuation, get_gost_char, plan_blocks, split_words, structural_title_text, Block,
    LineBreaker,
};
use eadup::get_ast;
use eadup::lexer::token::StructuralKind;

fn item(text: &str, level: u8) -> Block {
    Block::ListItem { text: text.to_string(), level }
}

fn title(text: &str) -> Block {
    Block::Title { text: text.to_string() }
}

fn para(text: &str) -> Block {
    Block::Paragraph { text: text.to_string() }
}

#[test]
fn punctuation_is_fixed_at_item_ends() {
    assert_eq!(fix_punctuation("  текст  ", ";"), "текст;");
    assert_eq!(fix_punctuation("текст.", ";"), "текст;");
    assert_eq!(fix_punctuation("текст;", "."), "текст.");
    assert_eq!(fix_punctuation("вопрос?", "."), "вопрос?");
    assert_eq!(fix_punctuation("итак:", "."), "итак:");
    assert_eq!(fix_punctuation("ура!", ";"), "ура!");
    assert_eq!(fix_punctuation("   ", "."), "");
    assert_eq!(fix_punctuation("", "."), "");
}

#[test]
fn fixing_punctuation_twice_changes_nothing_more() {
    for t in ["a", "a.", "a;", "a!", " a ; ", ""] {
        for target in [".", ";"] {
            let once = fix_punctuation(t, target);
            assert_eq!(fix_punctuation(&once, target), once);
        }
    }
}

#[test]
fn gost_letters() {
    assert_eq!(get_gost_char(0), "а)");
    assert_eq!(get_gost_char(6), "ж)");
    assert_eq!(get_gost_char(7), "и)");
    assert_eq!(get_gost_char(24), "я)");
    assert_eq!(get_gost_char(25), "?)");
}

#[test]
fn titles_of_structural_elements() {
    assert_eq!(structural_title_text(StructuralKind::Definitions), "ОПРЕДЕЛЕНИЯ, ОБОЗНАЧЕНИЯ И СОКРАЩЕНИЯ");
    assert_eq!(structural_title_text(StructuralKind::MainPart), "");
}

#[test]
fn plan_of_readme_sample() {
    let src = "ЛИСТ ДЛЯ ЗАМЕЧАНИЙ\n\nВВЕДЕНИЕ\n\nThe relevance of the topic is described here.\n\n- first list item\n- second list item\n\nОСНОВНАЯ ЧАСТЬ\n\n/ Technical Specifications\nParagraph text describing the system.\n";
    let blocks = plan_blocks(get_ast(src).as_document().unwrap());
    assert_eq!(
        blocks,
        vec![
            Block::NewPage,
            title("ЛИСТ ДЛЯ ЗАМЕЧАНИЙ"),
            Block::NewPage,
            title("ВВЕДЕНИЕ"),
            para("The relevance of the topic is described here."),
            item("- first list item;", 1),
            item("- second list item.", 1),
        ]
    );
}

#[test]
fn plan_of_nested_list() {
    let blocks = plan_blocks(get_ast("ВВЕДЕНИЕ\n- пункт\n-- под\n-- под2\n- второй").as_document().unwrap());
    assert_eq!(
        blocks,
        vec![
            Block::NewPage,
            title("ВВЕДЕНИЕ"),
            item("а) пункт;", 1),
            item("1) под;", 2),
            item("2) под2;", 2),
            item("- второй.", 1),
        ]
    );
}

#[test]
fn gost_letters_for_items_with_nested_lists() {
    let blocks = plan_blocks(
        get_ast("ВВЕДЕНИЕ\n- Требования\n-- первое\n- Сроки\n-- второе").as_document().unwrap(),
    );
    assert_eq!(
        blocks,
        vec![
            Block::NewPage,
            title("ВВЕДЕНИЕ"),
            item("а) Требования;", 1),
            item("1) первое;", 2),
            item("б) Сроки;", 1),
            item("1) второе.", 2),
        ]
    );
}

#[test]
fn plan_of_sources_and_references() {
    let ast = get_ast(
        "НОРМАТИВНЫЕ ССЫЛКИ\n- ГОСТ 7.32\nСПИСОК ИСПОЛЬЗОВАННЫХ ИСТОЧНИКОВ\n- Книга\n- Статья.\nСОДЕРЖАНИЕ",
    );
    let blocks = plan_blocks(ast.as_document().unwrap());
    assert_eq!(
        blocks,
        vec![
            Block::NewPage,
            title("НОРМАТИВНЫЕ ССЫЛКИ"),
            para("В настоящей текстовом документе использованы ссылки на следующие нормативные документы:"),
            item("ГОСТ 7.32", 1),
            Block::NewPage,
            title("СПИСОК ИСПОЛЬЗОВАННЫХ ИСТОЧНИКОВ"),
            item("1 Книга", 1),
            item("2 Статья.", 1),
            Block::NewPage,
            Block::PageNumbers,
            title("СОДЕРЖАНИЕ"),
        ]
    );
}

#[test]
fn main_part_keeps_the_list_marking() {
    let blocks = plan_blocks(get_ast("ОПРЕДЕЛЕНИЯ ОБОЗНАЧЕНИЯ СОКРАЩЕНИЯ\nОСНОВНАЯ ЧАСТЬ\n- x").as_document().unwrap());
    assert_eq!(
        blocks,
        vec![
            Block::NewPage,
            title("ОПРЕДЕЛЕНИЯ, ОБОЗНАЧЕНИЯ И СОКРАЩЕНИЯ"),
            para("В настоящем текстовом документе применяются следующие определения, обозначения и сокращения:"),
            item("x", 1),
        ]
    );
}

#[test]
fn blank_items_are_skipped() {
    let blocks = plan_blocks(get_ast("ВВЕДЕНИЕ\n- \n- a").as_document().unwrap());
    assert_eq!(blocks, vec![Block::NewPage, title("ВВЕДЕНИЕ"), item("- a.", 1)]);
}

#[test]
fn split_words_like_split_whitespace() {
    for s in ["  a  bb\tccc\n", "", "   ", "один два\u{a0}три"] {
        let expected: Vec<String> = s.split_whitespace().map(|w| w.to_string()).collect();
        assert_eq!(split_words(s), expected);
    }
}

#[test]
fn line_breaker_keeps_every_word_in_order() {
    let words = split_words("раз два три четыре пять");
    let fits = [true, true, false, true, false];
    let mut lb = LineBreaker::new();
    assert!(lb.is_first_line());
    for (w, f) in words.iter().zip(fits) {
        lb = lb.push_word(w, f);
    }
    assert!(!lb.is_first_line());
    let lines = lb.finish();
    assert_eq!(lines, vec!["раз два", "три четыре", "пять"]);
    assert_eq!(lines.join(" "), words.join(" "));
}

#[test]
fn line_breaker_candidate() {
    let lb = LineBreaker::new();
    assert_eq!(lb.candidate("слово"), "слово");
    let lb = lb.push_word("a", true);
    assert_eq!(lb.candidate("b"), "a b");
    let lb = lb.push_word("b", false);
    assert_eq!(lb.finish(), vec!["a", "b"]);
}
