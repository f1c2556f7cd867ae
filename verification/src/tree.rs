//! The document tree: the closed set of node variants produced by the
//! parser and consumed by the renderers.
//!
//! Source text and rendered output are byte strings (UTF-8 encoded), so
//! every textual field is a `Vec<u8>`.  Each node exclusively owns its
//! children; a finished tree is immutable and may be rendered any number
//! of times.  Every exec type has a mathematical image (`ElementNode`,
//! `ListItemNode`) used by contracts, reached through the `*_view`
//! functions.

use vstd::prelude::*;

verus! {

/// The marker style of a list.
#[derive(Debug, Clone, Copy, PartialEq, Eq, Structural)]
pub enum ListType {
    Bullet,
    Numbered,
    Generic,
}

/// The kind of a container node.
#[derive(Debug, Clone, Copy, PartialEq, Eq, Structural)]
pub enum ContainerType {
    Div,
    Paragraph,
    Blockquote,
    Header(u8),
}

/// An ordered attribute list attached to a node, looked up by key; the
/// first entry with a key wins.
#[derive(Debug, PartialEq, Eq)]
pub struct AttributeMap {
    pub entries: Vec<(Vec<u8>, Vec<u8>)>,
}

/// The mathematical image of an [`AttributeMap`].
pub open spec fn attributes_view(attrs: AttributeMap) -> Seq<(Seq<u8>, Seq<u8>)> {
    Seq::new(attrs.entries@.len(), |i: int| (attrs.entries@[i].0@, attrs.entries@[i].1@))
}

/// The value of the first entry with key `key`, if any.
pub open spec fn attr_lookup_spec(attrs: Seq<(Seq<u8>, Seq<u8>)>, key: Seq<u8>) -> Option<Seq<u8>>
    decreases attrs.len(),
{
    if attrs.len() == 0 {
        None
    } else if attrs[0].0 == key {
        Some(attrs[0].1)
    } else {
        attr_lookup_spec(attrs.subrange(1, attrs.len() as int), key)
    }
}

/// A node of the document tree.
#[derive(Debug, PartialEq, Eq)]
pub enum Element {
    /// A grouping node: div, paragraph, blockquote or header.
    Container { ctype: ContainerType, elements: Vec<Element> },
    /// A call into the host platform's module system, by descriptor.
    Module { descriptor: Vec<u8> },
    /// Literal text.
    Text(Vec<u8>),
    /// Raw text that escaping must not touch.
    Raw(Vec<u8>),
    /// An e-mail address, shown literally by the text backend.
    Email(Vec<u8>),
    /// An anchor wrapping children, with its attribute list.
    Anchor { elements: Vec<Element>, attributes: AttributeMap },
    /// A link to `url`, shown under `label` when one is given and under
    /// the URL itself otherwise.
    Link { url: Vec<u8>, label: Option<Vec<u8>>, attributes: AttributeMap },
    /// A list of the given marker style.
    List { ltype: ListType, items: Vec<ListItem> },
    RadioButton { checked: bool },
    CheckBox { checked: bool },
    /// A collapsible block: show/hide captions come from the overrides
    /// when given, else from the locale message table.
    Collapsible {
        elements: Vec<Element>,
        show_text: Option<Vec<u8>>,
        hide_text: Option<Vec<u8>>,
        show_top: bool,
        show_bottom: bool,
    },
    /// A coloured span; the text backend passes straight through to the
    /// children.
    Color { color: Vec<u8>, elements: Vec<Element> },
    /// A fenced code block, optionally tagged with a language.
    Code { contents: Vec<u8>, language: Option<Vec<u8>> },
    /// An embedded HTML block.
    Html { contents: Vec<u8> },
    /// An embedded frame, rendered as a placeholder line naming the URL.
    Iframe { url: Vec<u8> },
    LineBreak,
    /// A run of consecutive line breaks.
    LineBreaks(usize),
    HorizontalRule,
}

/// One item of a list: either a line's own elements, or a nested
/// sub-list (always a `List` element) produced by depth nesting.
#[derive(Debug, PartialEq, Eq)]
pub enum ListItem {
    Elements(Vec<Element>),
    SubList(Element),
}

/// The mathematical image of an [`Element`].
pub enum ElementNode {
    Container { ctype: ContainerType, elements: Seq<ElementNode> },
    Module { descriptor: Seq<u8> },
    Text(Seq<u8>),
    Raw(Seq<u8>),
    Email(Seq<u8>),
    Anchor { elements: Seq<ElementNode>, attributes: Seq<(Seq<u8>, Seq<u8>)> },
    Link { url: Seq<u8>, label: Option<Seq<u8>>, attributes: Seq<(Seq<u8>, Seq<u8>)> },
    List { ltype: ListType, items: Seq<ListItemNode> },
    RadioButton { checked: bool },
    CheckBox { checked: bool },
    Collapsible {
        elements: Seq<ElementNode>,
        show_text: Option<Seq<u8>>,
        hide_text: Option<Seq<u8>>,
        show_top: bool,
        show_bottom: bool,
    },
    Color { color: Seq<u8>, elements: Seq<ElementNode> },
    Code { contents: Seq<u8>, language: Option<Seq<u8>> },
    Html { contents: Seq<u8> },
    Iframe { url: Seq<u8> },
    LineBreak,
    LineBreaks(usize),
    HorizontalRule,
}

/// The mathematical image of a [`ListItem`].
pub enum ListItemNode {
    Elements(Seq<ElementNode>),
    SubList(ElementNode),
}

/// The image of an optional byte string.
pub open spec fn opt_bytes_view(o: Option<Vec<u8>>) -> Option<Seq<u8>> {
    match o {
        Option::None => Option::None,
        Option::Some(v) => Option::Some(v@),
    }
}

/// The mathematical image of one [`Element`].
pub open spec fn element_view(e: Element) -> ElementNode
    decreases e,
{
    match e {
        Element::Container { ctype, elements } => ElementNode::Container {
            ctype,
            elements: elements_view(elements@),
        },
        Element::Module { descriptor } => ElementNode::Module { descriptor: descriptor@ },
        Element::Text(t) => ElementNode::Text(t@),
        Element::Raw(t) => ElementNode::Raw(t@),
        Element::Email(t) => ElementNode::Email(t@),
        Element::Anchor { elements, attributes } => ElementNode::Anchor {
            elements: elements_view(elements@),
            attributes: attributes_view(attributes),
        },
        Element::Link { url, label, attributes } => ElementNode::Link {
            url: url@,
            label: opt_bytes_view(label),
            attributes: attributes_view(attributes),
        },
        Element::List { ltype, items } => ElementNode::List {
            ltype,
            items: list_items_view(items@),
        },
        Element::RadioButton { checked } => ElementNode::RadioButton { checked },
        Element::CheckBox { checked } => ElementNode::CheckBox { checked },
        Element::Collapsible { elements, show_text, hide_text, show_top, show_bottom } => {
            ElementNode::Collapsible {
                elements: elements_view(elements@),
                show_text: opt_bytes_view(show_text),
                hide_text: opt_bytes_view(hide_text),
                show_top,
                show_bottom,
            }
        },
        Element::Color { color, elements } => ElementNode::Color {
            color: color@,
            elements: elements_view(elements@),
        },
        Element::Code { contents, language } => ElementNode::Code {
            contents: contents@,
            language: opt_bytes_view(language),
        },
        Element::Html { contents } => ElementNode::Html { contents: contents@ },
        Element::Iframe { url } => ElementNode::Iframe { url: url@ },
        Element::LineBreak => ElementNode::LineBreak,
        Element::LineBreaks(n) => ElementNode::LineBreaks(n),
        Element::HorizontalRule => ElementNode::HorizontalRule,
    }
}

/// The mathematical image of a sequence of elements.
pub open spec fn elements_view(es: Seq<Element>) -> Seq<ElementNode>
    decreases es,
{
    if es.len() == 0 {
        Seq::empty()
    } else {
        seq![element_view(es[0])] + elements_view(es.subrange(1, es.len() as int))
    }
}

/// The mathematical image of one [`ListItem`].
pub open spec fn list_item_view(item: ListItem) -> ListItemNode
    decreases item,
{
    match item {
        ListItem::Elements(es) => ListItemNode::Elements(elements_view(es@)),
        ListItem::SubList(e) => ListItemNode::SubList(element_view(e)),
    }
}

/// The mathematical image of a sequence of list items.
pub open spec fn list_items_view(items: Seq<ListItem>) -> Seq<ListItemNode>
    decreases items,
{
    if items.len() == 0 {
        Seq::empty()
    } else {
        seq![list_item_view(items[0])] + list_items_view(
            items.subrange(1, items.len() as int),
        )
    }
}

/// `elements_view` maps `element_view` over the sequence, element by
/// element.
pub proof fn lemma_elements_view_pointwise(es: Seq<Element>)
    ensures
        elements_view(es).len() == es.len(),
        forall|i: int| 0 <= i < es.len() ==> elements_view(es)[i] == element_view(es[i]),
    decreases es.len(),
{
    if es.len() > 0 {
        lemma_elements_view_pointwise(es.subrange(1, es.len() as int));
    }
}

/// `list_items_view` maps `list_item_view` over the sequence, item by
/// item.
pub proof fn lemma_list_items_view_pointwise(items: Seq<ListItem>)
    ensures
        list_items_view(items).len() == items.len(),
        forall|i: int|
            0 <= i < items.len() ==> list_items_view(items)[i] == list_item_view(items[i]),
    decreases items.len(),
{
    if items.len() > 0 {
        lemma_list_items_view_pointwise(items.subrange(1, items.len() as int));
    }
}

impl AttributeMap {
    /// An attribute map with no entries.
    pub fn new() -> (r: AttributeMap)
        ensures
            attributes_view(r) =~= Seq::<(Seq<u8>, Seq<u8>)>::empty(),
    {
        AttributeMap { entries: Vec::new() }
    }

    /// Look up the value of the first entry carrying `key`.
    pub fn get(&self, key: &[u8]) -> (r: Option<&Vec<u8>>)
        ensures
            match r {
                Option::Some(v) => attr_lookup_spec(attributes_view(*self), key@)
                    == Option::Some(v@),
                Option::None => attr_lookup_spec(attributes_view(*self), key@) is None,
            },
    {
        let ghost attrs = attributes_view(*self);
        assert(attrs.subrange(0, attrs.len() as int) =~= attrs);
        let mut i: usize = 0;
        while i < self.entries.len()
            invariant
                0 <= i <= self.entries.len(),
                attrs == attributes_view(*self),
                attr_lookup_spec(attrs, key@) == attr_lookup_spec(
                    attrs.subrange(i as int, attrs.len() as int),
                    key@,
                ),
            decreases self.entries.len() - i,
        {
            let ghost tail = attrs.subrange(i as int, attrs.len() as int);
            if bytes_eq_general(&self.entries[i].0, key) {
                return Some(&self.entries[i].1);
            }
            assert(tail.subrange(1, tail.len() as int) =~= attrs.subrange(
                i + 1,
                attrs.len() as int,
            ));
            i = i + 1;
        }
        None
    }
}

/// Copy a byte string.
pub fn copy_bytes(src: &Vec<u8>) -> (r: Vec<u8>)
    ensures
        r@ == src@,
{
    let mut r: Vec<u8> = Vec::new();
    let mut i: usize = 0;
    while i < src.len()
        invariant
            0 <= i <= src@.len(),
            r@ =~= src@.subrange(0, i as int),
        decreases src@.len() - i,
    {
        r.push(src[i]);
        i = i + 1;
    }
    assert(r@ =~= src@);
    r
}

/// Append a byte string to an output buffer.
pub fn copy_into(out: &mut Vec<u8>, src: &Vec<u8>)
    ensures
        final(out)@ == old(out)@ + src@,
{
    let mut i: usize = 0;
    while i < src.len()
        invariant
            0 <= i <= src@.len(),
            out@ =~= old(out)@ + src@.subrange(0, i as int),
        decreases src@.len() - i,
    {
        out.push(src[i]);
        i = i + 1;
    }
    assert(out@ =~= old(out)@ + src@);
}

/// Byte-string equality between a vector and a slice.
pub fn bytes_eq_general(a: &Vec<u8>, b: &[u8]) -> (r: bool)
    ensures
        r <==> a@ == b@,
{
    if a.len() != b.len() {
        assert(a@ !~= b@);
        return false;
    }
    let mut i: usize = 0;
    while i < a.len()
        invariant
            0 <= i <= a@.len(),
            a@.len() == b@.len(),
            forall|j: int| 0 <= j < i ==> a@[j] == b@[j],
        decreases a@.len() - i,
    {
        if a[i] != b[i] {
            assert(a@ !~= b@);
            return false;
        }
        i = i + 1;
    }
    assert(a@ =~= b@);
    true
}

/// Byte-string equality.
pub fn bytes_eq(a: &Vec<u8>, b: &Vec<u8>) -> (r: bool)
    ensures
        r <==> a@ == b@,
{
    if a.len() != b.len() {
        assert(a@ !~= b@);
        return false;
    }
    let mut i: usize = 0;
    while i < a.len()
        invariant
            0 <= i <= a.len(),
            a.len() == b.len(),
            forall|j: int| 0 <= j < i ==> a@[j] == b@[j],
        decreases a.len() - i,
    {
        if a[i] != b[i] {
            assert(a@ !~= b@);
            return false;
        }
        i = i + 1;
    }
    assert(a@ =~= b@);
    true
}

} // verus!
