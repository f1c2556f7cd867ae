//! The HTML render backend: the same exhaustive structural traversal
//! as the text backend, emitting markup instead of plain text.
//!
//! HTML output needs no prefix stack and no numbered-list counters
//! (list markup numbers itself), so the rendering of a node is a pure
//! function of the node and the settings, given by
//! [`html_node_spec`].  Text content is escaped; embedded HTML blocks
//! and host module output pass through as markup.

use vstd::prelude::*;

use crate::render::{
    decimal_spec, format_usize, message_spec, module_output_spec, settings_view, RenderSettings,
    SettingsImage,
};
use crate::tree::{
    attr_lookup_spec, element_view, elements_view, lemma_elements_view_pointwise,
    lemma_list_items_view_pointwise, list_item_view, list_items_view, ContainerType, Element,
    ElementNode, ListItem, ListItemNode, ListType,
};
use crate::url::full_url_spec;

verus! {

/// The escape of one byte of text content: the markup-significant
/// bytes become entities, everything else stays.
pub open spec fn esc_byte(b: u8) -> Seq<u8> {
    if b == 38 {
        seq![38u8, 97, 109, 112, 59]
    } else if b == 60 {
        seq![38u8, 108, 116, 59]
    } else if b == 62 {
        seq![38u8, 103, 116, 59]
    } else if b == 34 {
        seq![38u8, 113, 117, 111, 116, 59]
    } else {
        seq![b]
    }
}

/// The escape of a whole byte string.
pub open spec fn esc_spec(t: Seq<u8>) -> Seq<u8>
    decreases t.len(),
{
    if t.len() == 0 {
        Seq::empty()
    } else {
        esc_byte(t[0]) + esc_spec(t.subrange(1, t.len() as int))
    }
}

/// The HTML rendering of one tree node.
pub open spec fn html_node_spec(s: SettingsImage, n: ElementNode) -> Seq<u8>
    decreases n,
{
    match n {
        ElementNode::Container { ctype, elements } => {
            let inner = html_nodes_spec(s, elements);
            match ctype {
                ContainerType::Div => seq![60u8, 100, 105, 118, 62] + inner + seq![
                    60u8, 47, 100, 105, 118, 62,
                ],
                ContainerType::Paragraph => seq![60u8, 112, 62] + inner + seq![
                    60u8, 47, 112, 62,
                ],
                ContainerType::Blockquote => seq![
                    60u8, 98, 108, 111, 99, 107, 113, 117, 111, 116, 101, 62,
                ] + inner + seq![60u8, 47, 98, 108, 111, 99, 107, 113, 117, 111, 116, 101, 62],
                ContainerType::Header(level) => seq![60u8, 104] + decimal_spec(level as nat)
                    + seq![62u8] + inner + seq![60u8, 47, 104] + decimal_spec(level as nat)
                    + seq![62u8],
            }
        },
        ElementNode::Module { descriptor } => module_output_spec(s, descriptor),
        ElementNode::Text(t) => esc_spec(t),
        ElementNode::Raw(t) => esc_spec(t),
        ElementNode::Email(t) => esc_spec(t),
        ElementNode::Anchor { elements, attributes } => {
            let inner = html_nodes_spec(s, elements);
            match attr_lookup_spec(attributes, seq![104u8, 114, 101, 102]) {
                Some(href) => seq![60u8, 97, 32, 104, 114, 101, 102, 61, 34] + esc_spec(
                    full_url_spec(href, s.site_base),
                ) + seq![34u8, 62] + inner + seq![60u8, 47, 97, 62],
                None => seq![60u8, 97, 62] + inner + seq![60u8, 47, 97, 62],
            }
        },
        ElementNode::Link { url, label, attributes: _ } => {
            let shown = match label {
                Some(l) => l,
                None => url,
            };
            seq![60u8, 97, 32, 104, 114, 101, 102, 61, 34] + esc_spec(
                full_url_spec(url, s.site_base),
            ) + seq![34u8, 62] + esc_spec(shown) + seq![60u8, 47, 97, 62]
        },
        ElementNode::List { ltype, items } => {
            let inner = html_items_spec(s, items);
            match ltype {
                ListType::Bullet => seq![60u8, 117, 108, 62] + inner + seq![
                    60u8, 47, 117, 108, 62,
                ],
                ListType::Numbered => seq![60u8, 111, 108, 62] + inner + seq![
                    60u8, 47, 111, 108, 62,
                ],
                ListType::Generic => seq![60u8, 117, 108, 62] + inner + seq![
                    60u8, 47, 117, 108, 62,
                ],
            }
        },
        ElementNode::RadioButton { checked } => {
            if checked {
                seq![60u8, 105, 110, 112, 117, 116, 32, 116, 121, 112, 101, 61, 34, 114, 97, 100,
                    105, 111, 34, 32, 99, 104, 101, 99, 107, 101, 100, 62]
            } else {
                seq![60u8, 105, 110, 112, 117, 116, 32, 116, 121, 112, 101, 61, 34, 114, 97, 100,
                    105, 111, 34, 62]
            }
        },
        ElementNode::CheckBox { checked } => {
            if checked {
                seq![60u8, 105, 110, 112, 117, 116, 32, 116, 121, 112, 101, 61, 34, 99, 104, 101,
                    99, 107, 98, 111, 120, 34, 32, 99, 104, 101, 99, 107, 101, 100, 62]
            } else {
                seq![60u8, 105, 110, 112, 117, 116, 32, 116, 121, 112, 101, 61, 34, 99, 104, 101,
                    99, 107, 98, 111, 120, 34, 62]
            }
        },
        ElementNode::Collapsible { elements, show_text, hide_text, show_top, show_bottom } => {
            let show = match show_text {
                Some(t) => t,
                None => message_spec(
                    s,
                    seq![99u8, 111, 108, 108, 97, 112, 115, 105, 98, 108, 101, 45, 111, 112, 101,
                        110],
                ),
            };
            let hide = match hide_text {
                Some(t) => t,
                None => message_spec(
                    s,
                    seq![99u8, 111, 108, 108, 97, 112, 115, 105, 98, 108, 101, 45, 104, 105, 100,
                        101],
                ),
            };
            let top: Seq<u8> = if show_top {
                seq![60u8, 112, 62] + esc_spec(hide) + seq![60u8, 47, 112, 62]
            } else {
                Seq::empty()
            };
            let bottom: Seq<u8> = if show_bottom {
                seq![60u8, 112, 62] + esc_spec(hide) + seq![60u8, 47, 112, 62]
            } else {
                Seq::empty()
            };
            seq![60u8, 100, 101, 116, 97, 105, 108, 115, 62, 60, 115, 117, 109, 109, 97, 114,
                121, 62] + esc_spec(show) + seq![60u8, 47, 115, 117, 109, 109, 97, 114, 121, 62]
                + top + html_nodes_spec(s, elements) + bottom + seq![
                60u8, 47, 100, 101, 116, 97, 105, 108, 115, 62,
            ]
        },
        ElementNode::Color { color, elements } => {
            seq![60u8, 115, 112, 97, 110, 32, 115, 116, 121, 108, 101, 61, 34, 99, 111, 108, 111,
                114, 58, 32] + esc_spec(color) + seq![34u8, 62] + html_nodes_spec(s, elements)
                + seq![60u8, 47, 115, 112, 97, 110, 62]
        },
        ElementNode::Code { contents, language } => {
            let open_tag: Seq<u8> = match language {
                Some(l) => seq![60u8, 112, 114, 101, 62, 60, 99, 111, 100, 101, 32, 99, 108, 97,
                    115, 115, 61, 34] + esc_spec(l) + seq![34u8, 62],
                None => seq![60u8, 112, 114, 101, 62, 60, 99, 111, 100, 101, 62],
            };
            open_tag + esc_spec(contents) + seq![
                60u8, 47, 99, 111, 100, 101, 62, 60, 47, 112, 114, 101, 62,
            ]
        },
        ElementNode::Html { contents } => contents,
        ElementNode::Iframe { url } => seq![
            60u8, 105, 102, 114, 97, 109, 101, 32, 115, 114, 99, 61, 34,
        ] + esc_spec(full_url_spec(url, s.site_base)) + seq![
            34u8, 62, 60, 47, 105, 102, 114, 97, 109, 101, 62,
        ],
        ElementNode::LineBreak => seq![60u8, 98, 114, 62],
        ElementNode::LineBreaks(n) => brs_spec(n as nat),
        ElementNode::HorizontalRule => seq![60u8, 104, 114, 62],
    }
}

/// `n` line-break tags in a row.
pub open spec fn brs_spec(n: nat) -> Seq<u8>
    decreases n,
{
    if n == 0 {
        Seq::empty()
    } else {
        brs_spec((n - 1) as nat) + seq![60u8, 98, 114, 62]
    }
}

/// The HTML rendering of a sequence of nodes, left to right.
pub open spec fn html_nodes_spec(s: SettingsImage, ns: Seq<ElementNode>) -> Seq<u8>
    decreases ns,
{
    if ns.len() == 0 {
        Seq::empty()
    } else {
        html_node_spec(s, ns[0]) + html_nodes_spec(s, ns.subrange(1, ns.len() as int))
    }
}

/// The HTML rendering of the items of one list: a line item is a list
/// entry, a sub-list nests directly.
pub open spec fn html_items_spec(s: SettingsImage, items: Seq<ListItemNode>) -> Seq<u8>
    decreases items,
{
    if items.len() == 0 {
        Seq::empty()
    } else {
        html_item_spec(s, items[0]) + html_items_spec(s, items.subrange(1, items.len() as int))
    }
}

/// The HTML rendering of a single list item.
pub open spec fn html_item_spec(s: SettingsImage, item: ListItemNode) -> Seq<u8>
    decreases item,
{
    match item {
        ListItemNode::Elements(es) => seq![60u8, 108, 105, 62] + html_nodes_spec(s, es) + seq![
            60u8, 47, 108, 105, 62,
        ],
        ListItemNode::SubList(e) => html_node_spec(s, e),
    }
}

/// Append the escaped bytes of a string to the output.
fn escape_into(out: &mut Vec<u8>, t: &Vec<u8>)
    ensures
        final(out)@ == old(out)@ + esc_spec(t@),
{
    let mut i: usize = 0;
    proof {
        assert(old(out)@ + esc_spec(t@) =~= out@ + esc_spec(t@));
        assert(t@.subrange(0, t@.len() as int) =~= t@);
    }
    while i < t.len()
        invariant
            0 <= i <= t@.len(),
            old(out)@ + esc_spec(t@) == out@ + esc_spec(t@.subrange(i as int, t@.len() as int)),
        decreases t@.len() - i,
    {
        let ghost rest = t@.subrange(i as int, t@.len() as int);
        let b = t[i];
        if b == 38 {
            out.push(38);
            out.push(97);
            out.push(109);
            out.push(112);
            out.push(59);
        } else if b == 60 {
            out.push(38);
            out.push(108);
            out.push(116);
            out.push(59);
        } else if b == 62 {
            out.push(38);
            out.push(103);
            out.push(116);
            out.push(59);
        } else if b == 34 {
            out.push(38);
            out.push(113);
            out.push(117);
            out.push(111);
            out.push(116);
            out.push(59);
        } else {
            out.push(b);
        }
        proof {
            assert(rest.subrange(1, rest.len() as int) =~= t@.subrange(i + 1, t@.len() as int));
            assert(old(out)@ + esc_spec(t@) =~= out@ + esc_spec(
                t@.subrange(i + 1, t@.len() as int),
            ));
        }
        i = i + 1;
    }
    assert(esc_spec(t@.subrange(t@.len() as int, t@.len() as int)) =~= Seq::<u8>::empty());
    assert(final(out)@ =~= old(out)@ + esc_spec(t@)) by {
        assert(out@ + Seq::<u8>::empty() =~= out@);
    }
}

/// Append the bytes of a slice to the output.
fn emit(out: &mut Vec<u8>, bytes: &[u8])
    ensures
        final(out)@ == old(out)@ + bytes@,
{
    let mut i: usize = 0;
    while i < bytes.len()
        invariant
            0 <= i <= bytes@.len(),
            out@ =~= old(out)@ + bytes@.subrange(0, i as int),
        decreases bytes@.len() - i,
    {
        out.push(bytes[i]);
        i = i + 1;
    }
    assert(out@ =~= old(out)@ + bytes@);
}

/// Render a sequence of elements as HTML, appending to the output.
pub fn html_elements(s: &RenderSettings, es: &Vec<Element>, out: &mut Vec<u8>)
    ensures
        final(out)@ == old(out)@ + html_nodes_spec(settings_view(*s), elements_view(es@)),
    decreases elements_view(es@),
{
    let ghost sv = settings_view(*s);
    let ghost ns = elements_view(es@);
    proof {
        lemma_elements_view_pointwise(es@);
        assert(ns.subrange(0, ns.len() as int) =~= ns);
        assert(old(out)@ + html_nodes_spec(sv, ns) =~= out@ + html_nodes_spec(sv, ns));
    }
    let mut j: usize = 0;
    while j < es.len()
        invariant
            0 <= j <= es@.len(),
            sv == settings_view(*s),
            ns == elements_view(es@),
            ns.len() == es@.len(),
            forall|i: int| 0 <= i < es@.len() ==> ns[i] == element_view(es@[i]),
            old(out)@ + html_nodes_spec(sv, ns) == out@ + html_nodes_spec(
                sv,
                ns.subrange(j as int, ns.len() as int),
            ),
        decreases es@.len() - j,
    {
        proof {
            let tail = ns.subrange(j as int, ns.len() as int);
            assert(tail.subrange(1, tail.len() as int) =~= ns.subrange(j + 1, ns.len() as int));
            assert(decreases_to!(ns => ns[j as int]));
        }
        html_element(s, &es[j], out);
        proof {
            assert(old(out)@ + html_nodes_spec(sv, ns) =~= out@ + html_nodes_spec(
                sv,
                ns.subrange(j + 1, ns.len() as int),
            ));
        }
        j = j + 1;
    }
    assert(html_nodes_spec(sv, ns.subrange(es@.len() as int, ns.len() as int)) =~= Seq::<
        u8,
    >::empty());
    assert(final(out)@ =~= old(out)@ + html_nodes_spec(sv, ns)) by {
        assert(out@ + Seq::<u8>::empty() =~= out@);
    }
}

/// Render the items of one list as HTML, appending to the output.
pub fn html_items(s: &RenderSettings, items: &Vec<ListItem>, out: &mut Vec<u8>)
    ensures
        final(out)@ == old(out)@ + html_items_spec(settings_view(*s), list_items_view(items@)),
    decreases list_items_view(items@),
{
    let ghost sv = settings_view(*s);
    let ghost ins = list_items_view(items@);
    proof {
        lemma_list_items_view_pointwise(items@);
        assert(ins.subrange(0, ins.len() as int) =~= ins);
        assert(old(out)@ + html_items_spec(sv, ins) =~= out@ + html_items_spec(sv, ins));
    }
    let mut j: usize = 0;
    while j < items.len()
        invariant
            0 <= j <= items@.len(),
            sv == settings_view(*s),
            ins == list_items_view(items@),
            ins.len() == items@.len(),
            forall|i: int| 0 <= i < items@.len() ==> ins[i] == list_item_view(items@[i]),
            old(out)@ + html_items_spec(sv, ins) == out@ + html_items_spec(
                sv,
                ins.subrange(j as int, ins.len() as int),
            ),
        decreases items@.len() - j,
    {
        proof {
            let tail = ins.subrange(j as int, ins.len() as int);
            assert(tail.subrange(1, tail.len() as int) =~= ins.subrange(j + 1, ins.len() as int));
            assert(decreases_to!(ins => ins[j as int]));
        }
        let ghost pre = out@;
        match &items[j] {
            ListItem::Elements(es) => {
                proof {
                    let item_n = ins[j as int];
                    assert(decreases_to!(item_n => item_n->Elements_0));
                    assert(item_n->Elements_0 == elements_view(es@));
                }
                emit(out, &[60, 108, 105, 62]);
                html_elements(s, es, out);
                emit(out, &[60, 47, 108, 105, 62]);
                assert(out@ =~= pre + html_item_spec(sv, ins[j as int]));
            },
            ListItem::SubList(e) => {
                proof {
                    let item_n = ins[j as int];
                    assert(decreases_to!(item_n => item_n->SubList_0));
                    assert(item_n->SubList_0 == element_view(*e));
                }
                html_element(s, e, out);
                assert(out@ =~= pre + html_item_spec(sv, ins[j as int]));
            },
        }
        proof {
            assert(old(out)@ + html_items_spec(sv, ins) =~= out@ + html_items_spec(
                sv,
                ins.subrange(j + 1, ins.len() as int),
            ));
        }
        j = j + 1;
    }
    assert(html_items_spec(sv, ins.subrange(items@.len() as int, ins.len() as int)) =~= Seq::<
        u8,
    >::empty());
    assert(final(out)@ =~= old(out)@ + html_items_spec(sv, ins)) by {
        assert(out@ + Seq::<u8>::empty() =~= out@);
    }
}

/// Render one element as HTML, appending to the output, per
/// [`html_node_spec`].
#[verifier::rlimit(100)]
pub fn html_element(s: &RenderSettings, e: &Element, out: &mut Vec<u8>)
    ensures
        final(out)@ == old(out)@ + html_node_spec(settings_view(*s), element_view(*e)),
    decreases element_view(*e),
{
    let ghost sv = settings_view(*s);
    let ghost goal = html_node_spec(sv, element_view(*e));
    match e {
        Element::Container { ctype, elements } => {
            proof {
                let n = element_view(*e);
                assert(decreases_to!(n => n->Container_elements));
                assert(n->Container_elements == elements_view(elements@));
            }
            match ctype {
                ContainerType::Div => {
                    emit(out, &[60, 100, 105, 118, 62]);
                    html_elements(s, elements, out);
                    emit(out, &[60, 47, 100, 105, 118, 62]);
                },
                ContainerType::Paragraph => {
                    emit(out, &[60, 112, 62]);
                    html_elements(s, elements, out);
                    emit(out, &[60, 47, 112, 62]);
                },
                ContainerType::Blockquote => {
                    emit(out, &[60, 98, 108, 111, 99, 107, 113, 117, 111, 116, 101, 62]);
                    html_elements(s, elements, out);
                    emit(out, &[60, 47, 98, 108, 111, 99, 107, 113, 117, 111, 116, 101, 62]);
                },
                ContainerType::Header(level) => {
                    emit(out, &[60, 104]);
                    let digits = format_usize(*level as usize);
                    crate::tree::copy_into(out, &digits);
                    emit(out, &[62]);
                    html_elements(s, elements, out);
                    emit(out, &[60, 47, 104]);
                    crate::tree::copy_into(out, &digits);
                    emit(out, &[62]);
                },
            }
            assert(out@ =~= old(out)@ + goal);
        },
        Element::Module { descriptor } => {
            let text = crate::render::module_text(s, descriptor);
            crate::tree::copy_into(out, &text);
            assert(out@ =~= old(out)@ + goal);
        },
        Element::Text(t) => {
            escape_into(out, t);
            assert(out@ =~= old(out)@ + goal);
        },
        Element::Raw(t) => {
            escape_into(out, t);
            assert(out@ =~= old(out)@ + goal);
        },
        Element::Email(t) => {
            escape_into(out, t);
            assert(out@ =~= old(out)@ + goal);
        },
        Element::Anchor { elements, attributes } => {
            proof {
                let n = element_view(*e);
                assert(decreases_to!(n => n->Anchor_elements));
                assert(n->Anchor_elements == elements_view(elements@));
            }
            let href = attributes.get(&[104, 114, 101, 102]);
            match href {
                Some(h) => {
                    let url = crate::url::get_full_url(h, &s.site_base);
                    emit(out, &[60, 97, 32, 104, 114, 101, 102, 61, 34]);
                    escape_into(out, &url);
                    emit(out, &[34, 62]);
                    html_elements(s, elements, out);
                    emit(out, &[60, 47, 97, 62]);
                },
                None => {
                    emit(out, &[60, 97, 62]);
                    html_elements(s, elements, out);
                    emit(out, &[60, 47, 97, 62]);
                },
            }
            assert(out@ =~= old(out)@ + goal);
        },
        Element::Link { url, label, attributes: _ } => {
            let resolved = crate::url::get_full_url(url, &s.site_base);
            emit(out, &[60, 97, 32, 104, 114, 101, 102, 61, 34]);
            escape_into(out, &resolved);
            emit(out, &[34, 62]);
            match label {
                Some(l) => {
                    escape_into(out, l);
                },
                None => {
                    escape_into(out, url);
                },
            }
            emit(out, &[60, 47, 97, 62]);
            assert(out@ =~= old(out)@ + goal);
        },
        Element::List { ltype, items } => {
            proof {
                let n = element_view(*e);
                assert(decreases_to!(n => n->List_items));
                assert(n->List_items == list_items_view(items@));
            }
            match ltype {
                ListType::Numbered => {
                    emit(out, &[60, 111, 108, 62]);
                    html_items(s, items, out);
                    emit(out, &[60, 47, 111, 108, 62]);
                },
                ListType::Bullet | ListType::Generic => {
                    emit(out, &[60, 117, 108, 62]);
                    html_items(s, items, out);
                    emit(out, &[60, 47, 117, 108, 62]);
                },
            }
            assert(out@ =~= old(out)@ + goal);
        },
        Element::RadioButton { checked } => {
            if *checked {
                emit(
                    out,
                    &[60, 105, 110, 112, 117, 116, 32, 116, 121, 112, 101, 61, 34, 114, 97, 100,
                        105, 111, 34, 32, 99, 104, 101, 99, 107, 101, 100, 62],
                );
            } else {
                emit(
                    out,
                    &[60, 105, 110, 112, 117, 116, 32, 116, 121, 112, 101, 61, 34, 114, 97, 100,
                        105, 111, 34, 62],
                );
            }
            assert(out@ =~= old(out)@ + goal);
        },
        Element::CheckBox { checked } => {
            if *checked {
                emit(
                    out,
                    &[60, 105, 110, 112, 117, 116, 32, 116, 121, 112, 101, 61, 34, 99, 104, 101,
                        99, 107, 98, 111, 120, 34, 32, 99, 104, 101, 99, 107, 101, 100, 62],
                );
            } else {
                emit(
                    out,
                    &[60, 105, 110, 112, 117, 116, 32, 116, 121, 112, 101, 61, 34, 99, 104, 101,
                        99, 107, 98, 111, 120, 34, 62],
                );
            }
            assert(out@ =~= old(out)@ + goal);
        },
        Element::Collapsible { elements, show_text, hide_text, show_top, show_bottom } => {
            proof {
                let n = element_view(*e);
                assert(decreases_to!(n => n->Collapsible_elements));
                assert(n->Collapsible_elements == elements_view(elements@));
            }
            let show: Vec<u8> = match show_text {
                Some(t) => crate::tree::copy_bytes(t),
                None => crate::render::message_text(
                    s,
                    &[99, 111, 108, 108, 97, 112, 115, 105, 98, 108, 101, 45, 111, 112, 101, 110],
                ),
            };
            let hide: Vec<u8> = match hide_text {
                Some(t) => crate::tree::copy_bytes(t),
                None => crate::render::message_text(
                    s,
                    &[99, 111, 108, 108, 97, 112, 115, 105, 98, 108, 101, 45, 104, 105, 100, 101],
                ),
            };
            emit(
                out,
                &[60, 100, 101, 116, 97, 105, 108, 115, 62, 60, 115, 117, 109, 109, 97, 114, 121,
                    62],
            );
            escape_into(out, &show);
            emit(out, &[60, 47, 115, 117, 109, 109, 97, 114, 121, 62]);
            if *show_top {
                emit(out, &[60, 112, 62]);
                escape_into(out, &hide);
                emit(out, &[60, 47, 112, 62]);
            }
            html_elements(s, elements, out);
            if *show_bottom {
                emit(out, &[60, 112, 62]);
                escape_into(out, &hide);
                emit(out, &[60, 47, 112, 62]);
            }
            emit(out, &[60, 47, 100, 101, 116, 97, 105, 108, 115, 62]);
            assert(out@ =~= old(out)@ + goal);
        },
        Element::Color { color, elements } => {
            proof {
                let n = element_view(*e);
                assert(decreases_to!(n => n->Color_elements));
                assert(n->Color_elements == elements_view(elements@));
            }
            emit(
                out,
                &[60, 115, 112, 97, 110, 32, 115, 116, 121, 108, 101, 61, 34, 99, 111, 108, 111,
                    114, 58, 32],
            );
            escape_into(out, color);
            emit(out, &[34, 62]);
            html_elements(s, elements, out);
            emit(out, &[60, 47, 115, 112, 97, 110, 62]);
            assert(out@ =~= old(out)@ + goal);
        },
        Element::Code { contents, language } => {
            match language {
                Some(l) => {
                    emit(
                        out,
                        &[60, 112, 114, 101, 62, 60, 99, 111, 100, 101, 32, 99, 108, 97, 115, 115,
                            61, 34],
                    );
                    escape_into(out, l);
                    emit(out, &[34, 62]);
                },
                None => {
                    emit(out, &[60, 112, 114, 101, 62, 60, 99, 111, 100, 101, 62]);
                },
            }
            escape_into(out, contents);
            emit(out, &[60, 47, 99, 111, 100, 101, 62, 60, 47, 112, 114, 101, 62]);
            assert(out@ =~= old(out)@ + goal);
        },
        Element::Html { contents } => {
            crate::tree::copy_into(out, contents);
            assert(out@ =~= old(out)@ + goal);
        },
        Element::Iframe { url } => {
            let resolved = crate::url::get_full_url(url, &s.site_base);
            emit(out, &[60, 105, 102, 114, 97, 109, 101, 32, 115, 114, 99, 61, 34]);
            escape_into(out, &resolved);
            emit(out, &[34, 62, 60, 47, 105, 102, 114, 97, 109, 101, 62]);
            assert(out@ =~= old(out)@ + goal);
        },
        Element::LineBreak => {
            emit(out, &[60, 98, 114, 62]);
            assert(out@ =~= old(out)@ + goal);
        },
        Element::LineBreaks(n) => {
            let mut i: usize = 0;
            let ghost base = out@;
            while i < *n
                invariant
                    0 <= i <= *n,
                    out@ =~= base + brs_spec(i as nat),
                decreases *n - i,
            {
                emit(out, &[60, 98, 114, 62]);
                assert(out@ =~= base + brs_spec((i + 1) as nat));
                i = i + 1;
            }
            assert(out@ =~= old(out)@ + goal);
        },
        Element::HorizontalRule => {
            emit(out, &[60, 104, 114, 62]);
            assert(out@ =~= old(out)@ + goal);
        },
    }
}

/// Render a whole tree as HTML.  The output is a pure function of the
/// tree and the settings, so repeated renders are byte-identical.
pub fn render_html(s: &RenderSettings, elements: &Vec<Element>) -> (out: Vec<u8>)
    ensures
        out@ == html_nodes_spec(settings_view(*s), elements_view(elements@)),
{
    let mut out: Vec<u8> = Vec::new();
    html_elements(s, elements, &mut out);
    assert(out@ =~= html_nodes_spec(settings_view(*s), elements_view(elements@)));
    out
}

} // verus!
