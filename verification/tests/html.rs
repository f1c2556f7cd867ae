use ftml::render_html::render_html;
use ftml::render::RenderSettings;
use ftml::token::tokenize;
use ftml::parse::parse;
use ftml::tree::{AttributeMap, ContainerType, Element, ListItem, ListType};

fn settings() -> RenderSettings {
    RenderSettings {
        site_base: b"https://example.com".to_vec(),
        locale: b"en".to_vec(),
        messages: vec![
            (b"en".to_vec(), b"collapsible-open".to_vec(), b"Open".to_vec()),
            (b"en".to_vec(), b"collapsible-hide".to_vec(), b"Hide".to_vec()),
        ],
        modules: vec![],
    }
}

fn text(s: &str) -> Element {
    Element::Text(s.as_bytes().to_vec())
}

fn render(els: Vec<Element>) -> String {
    String::from_utf8(render_html(&settings(), &els)).unwrap()
}

#[test]
fn text_content_is_escaped() {
    assert_eq!(render(vec![text("a<b & \"c\">")]), "a&lt;b &amp; &quot;c&quot;&gt;");
}

#[test]
fn containers_emit_their_tags() {
    let out = render(vec![Element::Container {
        ctype: ContainerType::Paragraph,
        elements: vec![text("x")],
    }]);
    assert_eq!(out, "<p>x</p>");
    let out = render(vec![Element::Container {
        ctype: ContainerType::Header(2),
        elements: vec![text("t")],
    }]);
    assert_eq!(out, "<h2>t</h2>");
    let out = render(vec![Element::Container {
        ctype: ContainerType::Blockquote,
        elements: vec![text("q")],
    }]);
    assert_eq!(out, "<blockquote>q</blockquote>");
}

#[test]
fn lists_nest_as_markup() {
    let out = render(vec![Element::List {
        ltype: ListType::Bullet,
        items: vec![
            ListItem::Elements(vec![text("a")]),
            ListItem::SubList(Element::List {
                ltype: ListType::Numbered,
                items: vec![ListItem::Elements(vec![text("c")])],
            }),
        ],
    }]);
    assert_eq!(out, "<ul><li>a</li><ol><li>c</li></ol></ul>");
}

#[test]
fn parsed_bullet_list_renders_as_markup() {
    let src = b"* a\n* b".to_vec();
    let toks = tokenize(&src);
    let (els, warns) = parse(&toks, &src);
    assert!(warns.is_empty());
    let out = String::from_utf8(render_html(&settings(), &els)).unwrap();
    assert_eq!(out, "<ul><li>a</li><li>b</li></ul>");
}

#[test]
fn links_resolve_and_escape() {
    let out = render(vec![Element::Link {
        url: b"/p".to_vec(),
        label: Some(b"L<".to_vec()),
        attributes: AttributeMap::new(),
    }]);
    assert_eq!(out, "<a href=\"https://example.com/p\">L&lt;</a>");
}

#[test]
fn inputs_reflect_checked_state() {
    assert_eq!(
        render(vec![Element::RadioButton { checked: true }]),
        "<input type=\"radio\" checked>"
    );
    assert_eq!(
        render(vec![Element::CheckBox { checked: false }]),
        "<input type=\"checkbox\">"
    );
}

#[test]
fn code_is_fenced_in_pre_blocks() {
    let out = render(vec![Element::Code {
        contents: b"a<b".to_vec(),
        language: Some(b"rust".to_vec()),
    }]);
    assert_eq!(out, "<pre><code class=\"rust\">a&lt;b</code></pre>");
}

#[test]
fn embedded_html_passes_through() {
    let out = render(vec![Element::Html { contents: b"<b>x</b>".to_vec() }]);
    assert_eq!(out, "<b>x</b>");
}

#[test]
fn collapsible_wraps_in_details() {
    let out = render(vec![Element::Collapsible {
        elements: vec![text("body")],
        show_text: None,
        hide_text: None,
        show_top: false,
        show_bottom: true,
    }]);
    assert_eq!(out, "<details><summary>Open</summary>body<p>Hide</p></details>");
}

#[test]
fn breaks_and_rules_are_void_tags() {
    assert_eq!(render(vec![Element::LineBreaks(2)]), "<br><br>");
    assert_eq!(render(vec![Element::HorizontalRule]), "<hr>");
}

#[test]
fn html_rendering_twice_is_byte_identical() {
    let tree = vec![
        Element::Container { ctype: ContainerType::Div, elements: vec![text("x")] },
        Element::Iframe { url: b"https://a/b".to_vec() },
    ];
    let first = render_html(&settings(), &tree);
    let second = render_html(&settings(), &tree);
    assert_eq!(first, second);
}
