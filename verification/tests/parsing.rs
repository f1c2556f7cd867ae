use ftml::parse::{get_list_type, parse, ParseWarningKind};
use ftml::token::{tokenize, TokenKind};
use ftml::tree::{Element, ListItem, ListType};

fn text(s: &str) -> Element {
    Element::Text(s.as_bytes().to_vec())
}

fn parse_str(s: &str) -> (Vec<Element>, Vec<ftml::parse::ParseWarning>) {
    let src = s.as_bytes().to_vec();
    let toks = tokenize(&src);
    parse(&toks, &src)
}

#[test]
fn tokenizer_classifies_runs() {
    let src = b"a b\n\n* x".to_vec();
    let toks = tokenize(&src);
    let kinds: Vec<TokenKind> = toks.iter().map(|t| t.kind).collect();
    assert_eq!(
        kinds,
        vec![
            TokenKind::InputStart,
            TokenKind::Text,
            TokenKind::Whitespace,
            TokenKind::Text,
            TokenKind::ParagraphBreak,
            TokenKind::BulletItem,
            TokenKind::Whitespace,
            TokenKind::Text,
            TokenKind::InputEnd,
        ]
    );
    // Sentinels bound the stream and spans partition the source.
    assert_eq!(toks.first().unwrap().start, 0);
    assert_eq!(toks.last().unwrap().end, src.len());
    for w in toks.windows(2) {
        assert_eq!(w[0].end, w[1].start);
    }
}

#[test]
fn bullet_list_nests_by_indentation() {
    let (els, warns) = parse_str("* a\n* b\n  * c\n* d");
    assert!(warns.is_empty());
    let expected = Element::List {
        ltype: ListType::Bullet,
        items: vec![
            ListItem::Elements(vec![text("a")]),
            ListItem::Elements(vec![text("b")]),
            ListItem::SubList(Element::List {
                ltype: ListType::Bullet,
                items: vec![ListItem::Elements(vec![text("c")])],
            }),
            ListItem::Elements(vec![text("d")]),
        ],
    };
    assert_eq!(els, vec![expected]);
}

#[test]
fn marker_without_separator_fails_rule_and_falls_back() {
    // "*a" looks like a bullet entry but has no whitespace after the
    // marker: the rule fails with a warning and the line stays text.
    let (els, warns) = parse_str("*a");
    assert_eq!(warns.len(), 1);
    assert_eq!(warns[0].kind, ParseWarningKind::RuleFailed);
    assert_eq!(els, vec![text("*"), text("a")]);
}

#[test]
fn numbered_list_parses_with_its_own_marker() {
    let (els, warns) = parse_str("# one\n# two");
    assert!(warns.is_empty());
    let expected = Element::List {
        ltype: ListType::Numbered,
        items: vec![
            ListItem::Elements(vec![text("one")]),
            ListItem::Elements(vec![text("two")]),
        ],
    };
    assert_eq!(els, vec![expected]);
}

#[test]
fn paragraph_break_ends_a_list() {
    // A blank line is the exception condition: the first line's
    // content is preserved, the list ends, and the remainder parses
    // on its own.
    let (els, warns) = parse_str("* a\n\nx");
    assert!(warns.is_empty());
    assert_eq!(els.len(), 3);
    assert_eq!(
        els[0],
        Element::List {
            ltype: ListType::Bullet,
            items: vec![ListItem::Elements(vec![text("a")])],
        }
    );
    assert_eq!(els[1], Element::LineBreaks(2));
    assert_eq!(els[2], text("x"));
}

#[test]
fn plain_text_passes_through() {
    let (els, warns) = parse_str("hello world");
    assert!(warns.is_empty());
    assert_eq!(els, vec![text("hello"), text(" "), text("world")]);
}

#[test]
fn mid_line_marker_is_literal_text() {
    let (els, warns) = parse_str("a * b");
    assert!(warns.is_empty());
    assert_eq!(
        els,
        vec![text("a"), text(" "), text("*"), text(" "), text("b")]
    );
}

#[test]
fn empty_input_parses_to_nothing() {
    let (els, warns) = parse_str("");
    assert!(els.is_empty());
    assert!(warns.is_empty());
}

#[test]
fn get_list_type_maps_markers() {
    let (rule, ltype) = get_list_type(TokenKind::BulletItem).unwrap();
    assert_eq!(rule.marker, TokenKind::BulletItem);
    assert_eq!(ltype, ListType::Bullet);
    let (rule, ltype) = get_list_type(TokenKind::NumberedItem).unwrap();
    assert_eq!(rule.marker, TokenKind::NumberedItem);
    assert_eq!(ltype, ListType::Numbered);
    assert!(get_list_type(TokenKind::Text).is_none());
}
