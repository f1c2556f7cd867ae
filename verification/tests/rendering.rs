use ftml::render::{format_usize, render_text, RenderSettings};
use ftml::token::tokenize;
use ftml::parse::parse;
use ftml::tree::{AttributeMap, ContainerType, Element, ListItem, ListType};

fn settings() -> RenderSettings {
    RenderSettings {
        site_base: b"https://example.com".to_vec(),
        locale: b"en".to_vec(),
        messages: vec![
            (b"en".to_vec(), b"collapsible-open".to_vec(), b"Open".to_vec()),
            (b"en".to_vec(), b"collapsible-hide".to_vec(), b"Hide".to_vec()),
        ],
        modules: vec![(b"nav".to_vec(), b"NAV".to_vec())],
    }
}

fn text(s: &str) -> Element {
    Element::Text(s.as_bytes().to_vec())
}

fn render(els: Vec<Element>) -> Vec<u8> {
    render_text(&settings(), &els)
}

#[test]
fn horizontal_rule_has_one_newline_before_divider() {
    // Whether or not the buffer already ends in a newline, the divider
    // is preceded by exactly one.
    let bare = render(vec![text("abc"), Element::HorizontalRule]);
    let broken = render(vec![text("abc"), Element::LineBreak, Element::HorizontalRule]);
    assert_eq!(bare, b"abc\n-----\n\n".to_vec());
    assert_eq!(broken, bare);
    let alone = render(vec![Element::HorizontalRule]);
    assert_eq!(alone, b"\n-----\n\n".to_vec());
}

#[test]
fn rendering_twice_is_byte_identical() {
    let tree = vec![
        Element::Container { ctype: ContainerType::Paragraph, elements: vec![text("p")] },
        Element::List {
            ltype: ListType::Numbered,
            items: vec![
                ListItem::Elements(vec![text("one")]),
                ListItem::SubList(Element::List {
                    ltype: ListType::Numbered,
                    items: vec![ListItem::Elements(vec![text("deep")])],
                }),
                ListItem::Elements(vec![text("two")]),
            ],
        },
        Element::HorizontalRule,
    ];
    let first = render_text(&settings(), &tree);
    let second = render_text(&settings(), &tree);
    assert_eq!(first, second);
}

#[test]
fn paragraph_and_div_add_surrounding_newlines() {
    let out = render(vec![Element::Container {
        ctype: ContainerType::Paragraph,
        elements: vec![text("x")],
    }]);
    assert_eq!(out, b"\nx\n".to_vec());
}

#[test]
fn blockquote_prefixes_inner_lines() {
    let out = render(vec![Element::Container {
        ctype: ContainerType::Blockquote,
        elements: vec![text("q"), Element::LineBreak, text("r")],
    }]);
    assert_eq!(out, b"\n    q\n    r\n".to_vec());
}

#[test]
fn header_prefix_reflects_level() {
    let out = render(vec![Element::Container {
        ctype: ContainerType::Header(2),
        elements: vec![text("t")],
    }]);
    assert_eq!(out, b"\n++ t\n".to_vec());
}

#[test]
fn numbered_items_count_per_depth() {
    let out = render(vec![Element::List {
        ltype: ListType::Numbered,
        items: vec![
            ListItem::Elements(vec![text("a")]),
            ListItem::SubList(Element::List {
                ltype: ListType::Numbered,
                items: vec![ListItem::Elements(vec![text("s")])],
            }),
            ListItem::Elements(vec![text("b")]),
        ],
    }]);
    // The nested counter starts fresh; the outer one resumes at 2.
    assert_eq!(out, b"1. a 1. s2. b".to_vec());
}

#[test]
fn bullet_items_indent_by_depth() {
    let out = render(vec![Element::List {
        ltype: ListType::Bullet,
        items: vec![
            ListItem::Elements(vec![text("a")]),
            ListItem::SubList(Element::List {
                ltype: ListType::Bullet,
                items: vec![ListItem::Elements(vec![text("c")])],
            }),
        ],
    }]);
    assert_eq!(out, b"* a * c".to_vec());
}

#[test]
fn generic_items_have_no_marker() {
    let out = render(vec![Element::List {
        ltype: ListType::Generic,
        items: vec![ListItem::Elements(vec![text("g")])],
    }]);
    assert_eq!(out, b"g".to_vec());
}

#[test]
fn buttons_reflect_checked_state() {
    assert_eq!(render(vec![Element::RadioButton { checked: true }]), b"(*)".to_vec());
    assert_eq!(render(vec![Element::RadioButton { checked: false }]), b"( )".to_vec());
    assert_eq!(render(vec![Element::CheckBox { checked: true }]), b"[X]".to_vec());
    assert_eq!(render(vec![Element::CheckBox { checked: false }]), b"[ ]".to_vec());
}

#[test]
fn collapsible_uses_locale_messages_and_flags() {
    let out = render(vec![Element::Collapsible {
        elements: vec![text("body")],
        show_text: None,
        hide_text: None,
        show_top: true,
        show_bottom: true,
    }]);
    assert_eq!(out, b"\nOpen\nHide\nbodyHide\n".to_vec());
}

#[test]
fn collapsible_overrides_beat_messages() {
    let out = render(vec![Element::Collapsible {
        elements: vec![text("b")],
        show_text: Some(b"S".to_vec()),
        hide_text: Some(b"H".to_vec()),
        show_top: false,
        show_bottom: true,
    }]);
    assert_eq!(out, b"\nS\nbH\n".to_vec());
}

#[test]
fn missing_message_falls_back_to_its_key() {
    let mut s = settings();
    s.locale = b"fr".to_vec();
    let out = render_text(
        &s,
        &vec![Element::Collapsible {
            elements: vec![],
            show_text: None,
            hide_text: None,
            show_top: false,
            show_bottom: false,
        }],
    );
    assert_eq!(out, b"\ncollapsible-open\n".to_vec());
}

#[test]
fn code_blocks_are_fenced_with_language() {
    let with_lang = render(vec![Element::Code {
        contents: b"let x;".to_vec(),
        language: Some(b"rust".to_vec()),
    }]);
    assert_eq!(with_lang, b"```rust\nlet x;\n```".to_vec());
    let without = render(vec![Element::Code { contents: b"c".to_vec(), language: None }]);
    assert_eq!(without, b"```\nc\n```".to_vec());
}

#[test]
fn html_block_is_fenced_as_html() {
    let out = render(vec![Element::Html { contents: b"<b>x</b>".to_vec() }]);
    assert_eq!(out, b"```html\n<b>x</b>\n```".to_vec());
}

#[test]
fn iframe_renders_placeholder_line() {
    let out = render(vec![Element::Iframe { url: b"https://a/b".to_vec() }]);
    assert_eq!(out, b"iframe: https://a/b".to_vec());
}

#[test]
fn module_output_comes_from_the_table() {
    let known = render(vec![Element::Module { descriptor: b"nav".to_vec() }]);
    assert_eq!(known, b"NAV".to_vec());
    let unknown = render(vec![Element::Module { descriptor: b"other".to_vec() }]);
    assert_eq!(unknown, b"module: other".to_vec());
}

#[test]
fn link_resolves_relative_url_and_label() {
    let labelled = render(vec![Element::Link {
        url: b"/p".to_vec(),
        label: Some(b"L".to_vec()),
        attributes: AttributeMap::new(),
    }]);
    assert_eq!(labelled, b"L [https://example.com/p]".to_vec());
    let bare = render(vec![Element::Link {
        url: b"/p".to_vec(),
        label: None,
        attributes: AttributeMap::new(),
    }]);
    assert_eq!(bare, b"/p [https://example.com/p]".to_vec());
}

#[test]
fn anchor_appends_resolved_href_when_present() {
    let with_href = render(vec![Element::Anchor {
        elements: vec![text("x")],
        attributes: AttributeMap {
            entries: vec![(b"href".to_vec(), b"/a".to_vec())],
        },
    }]);
    assert_eq!(with_href, b"x [https://example.com/a]".to_vec());
    let without = render(vec![Element::Anchor {
        elements: vec![text("x")],
        attributes: AttributeMap::new(),
    }]);
    assert_eq!(without, b"x".to_vec());
}

#[test]
fn color_is_transparent_and_raw_is_literal() {
    let out = render(vec![Element::Color {
        color: b"red".to_vec(),
        elements: vec![Element::Raw(b"<raw>".to_vec()), Element::Email(b"a@b".to_vec())],
    }]);
    assert_eq!(out, b"<raw>a@b".to_vec());
}

#[test]
fn line_breaks_emit_their_count() {
    let out = render(vec![text("a"), Element::LineBreaks(3), text("b")]);
    assert_eq!(out, b"a\n\n\nb".to_vec());
}

#[test]
fn pipeline_round_trip_keeps_plain_text() {
    let src = b"a\n\nb".to_vec();
    let toks = tokenize(&src);
    let (els, warns) = parse(&toks, &src);
    assert!(warns.is_empty());
    let out = render(els);
    assert_eq!(out, b"a\n\nb".to_vec());
}

#[test]
fn first_attribute_entry_wins() {
    let out = render(vec![Element::Anchor {
        elements: vec![text("x")],
        attributes: AttributeMap {
            entries: vec![
                (b"href".to_vec(), b"/first".to_vec()),
                (b"href".to_vec(), b"/second".to_vec()),
            ],
        },
    }]);
    assert_eq!(out, b"x [https://example.com/first]".to_vec());
}

#[test]
fn zero_line_breaks_emit_nothing() {
    let out = render(vec![text("a"), Element::LineBreaks(0), text("b")]);
    assert_eq!(out, b"ab".to_vec());
}

#[test]
fn format_usize_writes_decimal() {
    assert_eq!(format_usize(0), b"0".to_vec());
    assert_eq!(format_usize(7), b"7".to_vec());
    assert_eq!(format_usize(907), b"907".to_vec());
}
