use ftml::transclude::{expand_with_pages, fill_template, scan_references, substitute};

fn v(s: &str) -> Vec<u8> {
    s.as_bytes().to_vec()
}

#[test]
fn missing_page_substitutes_filled_template() {
    let text = v("see {{ghost}} here");
    let pages: Vec<(Vec<u8>, Vec<u8>)> = Vec::new();
    let template = v("[missing page %%page%%]");
    let (out, refs) = expand_with_pages(&text, &pages, &template);
    assert_eq!(out, v("see [missing page ghost] here"));
    assert_eq!(refs, vec![v("ghost")]);
}

#[test]
fn repeated_page_expands_twice_but_lists_once() {
    let text = v("{{alpha}} and {{gone}} and {{alpha}}");
    let pages = vec![(v("alpha"), v("A"))];
    let template = v("<%%page%%?>");
    let (out, refs) = expand_with_pages(&text, &pages, &template);
    assert_eq!(out, v("A and <gone?> and A"));
    assert_eq!(refs, vec![v("alpha"), v("gone")]);
}

#[test]
fn scan_keeps_every_occurrence_in_order() {
    let text = v("{{a}}{{b}}{{a}}");
    let refs = scan_references(&text);
    assert_eq!(refs, vec![v("a"), v("b"), v("a")]);
}

#[test]
fn unclosed_directive_is_plain_text() {
    let text = v("{{open forever");
    let pages: Vec<(Vec<u8>, Vec<u8>)> = Vec::new();
    let (out, refs) = expand_with_pages(&text, &pages, &v("T"));
    assert_eq!(out, text);
    assert!(refs.is_empty());
}

#[test]
fn template_placeholder_fills_every_occurrence() {
    let filled = fill_template(&v("%%page%% is %%page%%!"), &v("x"));
    assert_eq!(filled, v("x is x!"));
}

#[test]
fn substitute_consumes_fetch_outcomes_in_order() {
    let text = v("{{one}}-{{two}}");
    let results = vec![Some(v("1")), None];
    let (out, refs) = substitute(&text, &results, &v("?%%page%%?"));
    assert_eq!(out, v("1-?two?"));
    assert_eq!(refs, vec![v("one"), v("two")]);
}

#[test]
fn text_without_directives_is_unchanged() {
    let text = v("plain text { not } a directive");
    let pages: Vec<(Vec<u8>, Vec<u8>)> = Vec::new();
    let (out, refs) = expand_with_pages(&text, &pages, &v("T"));
    assert_eq!(out, text);
    assert!(refs.is_empty());
}
