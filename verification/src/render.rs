//! The text render backend: an exhaustive traversal of the document
//! tree driven by a mutable per-call context.
//!
//! The whole traversal is specified by the functional interpreter
//! [`render_node_spec`] over the tree's mathematical image, so rendering
//! the same immutable tree twice with the same settings produces
//! byte-identical output.  The host capability (site base URL, locale
//! message table, module table) is plain data carried in
//! [`RenderSettings`]; the context is owned by one render call and never
//! shared.

use vstd::prelude::*;

use crate::tree::{
    attr_lookup_spec, copy_bytes, attributes_view, element_view, elements_view, lemma_elements_view_pointwise,
    lemma_list_items_view_pointwise, list_item_view, list_items_view, ContainerType, Element,
    ElementNode, ListItem, ListItemNode, ListType,
};
use crate::token::{NEWLINE, SPACE, BULLET};
use crate::url::{full_url_spec, get_full_url};

verus! {

/// The plus byte, used to build header prefixes.
pub const PLUS: u8 = 43;

/// The host data a render call works against: the site base URL for
/// resolving relative links, the locale, the locale message table and
/// the module output table.  All of it is immutable for the duration of
/// a render.
#[derive(Debug, PartialEq, Eq)]
pub struct RenderSettings {
    pub site_base: Vec<u8>,
    pub locale: Vec<u8>,
    /// Message table rows: (locale, key, text).
    pub messages: Vec<(Vec<u8>, Vec<u8>, Vec<u8>)>,
    /// Module output rows: (descriptor, rendered text).
    pub modules: Vec<(Vec<u8>, Vec<u8>)>,
}

/// The mathematical image of [`RenderSettings`].
#[verifier::ext_equal]
pub struct SettingsImage {
    pub site_base: Seq<u8>,
    pub locale: Seq<u8>,
    pub messages: Seq<(Seq<u8>, Seq<u8>, Seq<u8>)>,
    pub modules: Seq<(Seq<u8>, Seq<u8>)>,
}

/// The mutable state of one text render call: the output buffer, the
/// prefix stack replayed after every newline, and the per-depth
/// numbered-list counters (one entry per open list depth; the current
/// depth is the number of entries below the innermost one).
#[derive(Debug, PartialEq, Eq)]
pub struct TextContext {
    pub output: Vec<u8>,
    pub prefixes: Vec<Vec<u8>>,
    pub list_indices: Vec<usize>,
}

/// The mathematical image of the mutable part of a [`TextContext`].
#[verifier::ext_equal]
pub struct TextState {
    pub output: Seq<u8>,
    pub prefixes: Seq<Seq<u8>>,
    pub list_indices: Seq<usize>,
}

/// The mathematical image of [`RenderSettings`].
pub open spec fn settings_view(s: RenderSettings) -> SettingsImage {
    SettingsImage {
        site_base: s.site_base@,
        locale: s.locale@,
        messages: Seq::new(
            s.messages@.len(),
            |i: int| (s.messages@[i].0@, s.messages@[i].1@, s.messages@[i].2@),
        ),
        modules: Seq::new(s.modules@.len(), |i: int| (s.modules@[i].0@, s.modules@[i].1@)),
    }
}

impl TextContext {
    /// The mathematical image of the mutable state.
    pub open spec fn st(&self) -> TextState {
        TextState {
            output: self.output@,
            prefixes: Seq::new(self.prefixes@.len(), |i: int| self.prefixes@[i]@),
            list_indices: self.list_indices@,
        }
    }

    /// A context is well formed when at least one list counter is open.
    pub open spec fn wf(&self) -> bool {
        self.list_indices@.len() >= 1
    }
}

/// The initial render state: empty output, no prefixes, one open list
/// counter at zero.
pub open spec fn init_state() -> TextState {
    TextState { output: Seq::empty(), prefixes: Seq::empty(), list_indices: seq![0usize] }
}

/// `n` repetitions of the byte `b`.
pub open spec fn repeat_byte(b: u8, n: nat) -> Seq<u8>
    decreases n,
{
    if n == 0 {
        Seq::empty()
    } else {
        repeat_byte(b, (n - 1) as nat) + seq![b]
    }
}

/// The concatenation of the whole prefix stack, bottom first.
pub open spec fn prefixes_flat(prefixes: Seq<Seq<u8>>) -> Seq<u8>
    decreases prefixes.len(),
{
    if prefixes.len() == 0 {
        Seq::empty()
    } else {
        prefixes_flat(prefixes.subrange(0, prefixes.len() - 1)) + prefixes[prefixes.len() - 1]
    }
}

/// The decimal digits of `n`.
pub open spec fn decimal_spec(n: nat) -> Seq<u8>
    decreases n,
{
    if n < 10 {
        seq![(48 + n) as u8]
    } else {
        decimal_spec(n / 10) + seq![(48 + n % 10) as u8]
    }
}

/// First message-table row matching the locale and key, if any.
pub open spec fn msg_lookup_spec(
    rows: Seq<(Seq<u8>, Seq<u8>, Seq<u8>)>,
    locale: Seq<u8>,
    key: Seq<u8>,
) -> Option<Seq<u8>>
    decreases rows.len(),
{
    if rows.len() == 0 {
        None
    } else if rows[0].0 == locale && rows[0].1 == key {
        Some(rows[0].2)
    } else {
        msg_lookup_spec(rows.subrange(1, rows.len() as int), locale, key)
    }
}

/// First module-table row matching the descriptor, if any.
pub open spec fn module_lookup_spec(
    rows: Seq<(Seq<u8>, Seq<u8>)>,
    descriptor: Seq<u8>,
) -> Option<Seq<u8>>
    decreases rows.len(),
{
    if rows.len() == 0 {
        None
    } else if rows[0].0 == descriptor {
        Some(rows[0].1)
    } else {
        module_lookup_spec(rows.subrange(1, rows.len() as int), descriptor)
    }
}

/// The locale message for a key: the table entry when one exists, else
/// the key itself.
pub open spec fn message_spec(s: SettingsImage, key: Seq<u8>) -> Seq<u8> {
    match msg_lookup_spec(s.messages, s.locale, key) {
        Some(text) => text,
        None => key,
    }
}

/// What the host's module system renders for a descriptor: the table
/// entry when one exists, else a placeholder line naming the
/// descriptor.
pub open spec fn module_output_spec(s: SettingsImage, descriptor: Seq<u8>) -> Seq<u8> {
    match module_lookup_spec(s.modules, descriptor) {
        Some(text) => text,
        None => seq![109u8, 111, 100, 117, 108, 101, 58, 32] + descriptor,
    }
}

/// Append bytes to the output buffer.
pub open spec fn st_append(st: TextState, bytes: Seq<u8>) -> TextState {
    TextState { output: st.output + bytes, ..st }
}

/// A newline: the newline byte followed by a replay of the whole prefix
/// stack.
pub open spec fn newline_spec(st: TextState) -> TextState {
    st_append(st, seq![NEWLINE] + prefixes_flat(st.prefixes))
}

/// Push a line prefix to be replayed after every following newline.
pub open spec fn push_prefix_spec(st: TextState, p: Seq<u8>) -> TextState {
    TextState { prefixes: st.prefixes + seq![p], ..st }
}

/// Pop the innermost line prefix (no effect on an empty stack).
pub open spec fn pop_prefix_spec(st: TextState) -> TextState {
    if st.prefixes.len() == 0 {
        st
    } else {
        TextState { prefixes: st.prefixes.subrange(0, st.prefixes.len() - 1), ..st }
    }
}

/// The line prefix of a header of the given level: that many plus
/// bytes and a space.
pub open spec fn header_prefix(level: u8) -> Seq<u8> {
    repeat_byte(PLUS, level as nat) + seq![SPACE]
}

/// `n` newlines in a row.
pub open spec fn newlines_spec(st: TextState, n: nat) -> TextState
    decreases n,
{
    if n == 0 {
        st
    } else {
        newlines_spec(newline_spec(st), (n - 1) as nat)
    }
}

/// The saturating increment used for numbered-list counters.
pub open spec fn sat_inc(n: usize) -> usize {
    if n == usize::MAX {
        n
    } else {
        (n + 1) as usize
    }
}

/// Open a fresh numbered-list counter for one nesting level deeper.
pub open spec fn push_depth_spec(st: TextState) -> TextState {
    TextState { list_indices: st.list_indices + seq![0usize], ..st }
}

/// Close the innermost numbered-list counter (no effect when only the
/// outermost is left).
pub open spec fn pop_depth_spec(st: TextState) -> TextState {
    if st.list_indices.len() <= 1 {
        st
    } else {
        TextState {
            list_indices: st.list_indices.subrange(0, st.list_indices.len() - 1),
            ..st
        }
    }
}

/// The current list depth: how many sub-lists are open around the
/// items being rendered.
pub open spec fn depth_of(st: TextState) -> nat {
    (st.list_indices.len() - 1) as nat
}

/// Bump and read the innermost numbered-list counter.
pub open spec fn next_index_spec(st: TextState) -> (TextState, usize) {
    let last = st.list_indices.len() - 1;
    let v = sat_inc(st.list_indices[last]);
    (TextState { list_indices: st.list_indices.update(last, v), ..st }, v)
}

/// The text rendering of one tree node, as a state transformer.  This
/// is the reference contract of the text backend.
pub open spec fn render_node_spec(s: SettingsImage, n: ElementNode, st: TextState) -> TextState
    decreases n,
{
    match n {
        ElementNode::Container { ctype, elements } => {
            match ctype {
                ContainerType::Div | ContainerType::Paragraph => {
                    newline_spec(render_nodes_spec(s, elements, newline_spec(st)))
                },
                ContainerType::Blockquote => {
                    let st1 = newline_spec(push_prefix_spec(st, repeat_byte(SPACE, 4)));
                    let st2 = render_nodes_spec(s, elements, st1);
                    newline_spec(pop_prefix_spec(st2))
                },
                ContainerType::Header(level) => {
                    let st1 = newline_spec(push_prefix_spec(st, header_prefix(level)));
                    let st2 = render_nodes_spec(s, elements, st1);
                    newline_spec(pop_prefix_spec(st2))
                },
            }
        },
        ElementNode::Module { descriptor } => st_append(st, module_output_spec(s, descriptor)),
        ElementNode::Text(t) => st_append(st, t),
        ElementNode::Raw(t) => st_append(st, t),
        ElementNode::Email(t) => st_append(st, t),
        ElementNode::Anchor { elements, attributes } => {
            let st1 = render_nodes_spec(s, elements, st);
            match attr_lookup_spec(attributes, seq![104u8, 114, 101, 102]) {
                Some(href) => st_append(
                    st1,
                    seq![SPACE, 91u8] + full_url_spec(href, s.site_base) + seq![93u8],
                ),
                None => st1,
            }
        },
        ElementNode::Link { url, label, attributes: _ } => {
            let shown = match label {
                Some(l) => l,
                None => url,
            };
            st_append(
                st,
                shown + seq![SPACE, 91u8] + full_url_spec(url, s.site_base) + seq![93u8],
            )
        },
        ElementNode::List { ltype, items } => render_items_spec(s, ltype, items, st),
        ElementNode::RadioButton { checked } => st_append(
            st,
            seq![40u8, if checked { BULLET } else { SPACE }, 41u8],
        ),
        ElementNode::CheckBox { checked } => st_append(
            st,
            seq![91u8, if checked { 88u8 } else { SPACE }, 93u8],
        ),
        ElementNode::Collapsible { elements, show_text, hide_text, show_top, show_bottom } => {
            let show = match show_text {
                Some(t) => t,
                None => message_spec(
                    s,
                    seq![99u8, 111, 108, 108, 97, 112, 115, 105, 98, 108, 101, 45, 111, 112, 101,
                        110],
                ),
            };
            let hide = match hide_text {
                Some(t) => t,
                None => message_spec(
                    s,
                    seq![99u8, 111, 108, 108, 97, 112, 115, 105, 98, 108, 101, 45, 104, 105, 100,
                        101],
                ),
            };
            let st1 = st_append(st, seq![NEWLINE] + show + seq![NEWLINE]);
            let st2 = if show_top {
                st_append(st1, hide + seq![NEWLINE])
            } else {
                st1
            };
            let st3 = render_nodes_spec(s, elements, st2);
            if show_bottom {
                st_append(st3, hide + seq![NEWLINE])
            } else {
                st3
            }
        },
        ElementNode::Color { color: _, elements } => render_nodes_spec(s, elements, st),
        ElementNode::Code { contents, language } => {
            let lang = match language {
                Some(l) => l,
                None => Seq::empty(),
            };
            st_append(
                st,
                seq![96u8, 96, 96] + lang + seq![NEWLINE] + contents + seq![NEWLINE, 96u8, 96, 96],
            )
        },
        ElementNode::Html { contents } => st_append(
            st,
            seq![96u8, 96, 96, 104, 116, 109, 108, NEWLINE] + contents + seq![
                NEWLINE, 96u8, 96, 96,
            ],
        ),
        ElementNode::Iframe { url } => st_append(
            st,
            seq![105u8, 102, 114, 97, 109, 101, 58, 32] + url,
        ),
        ElementNode::LineBreak => newline_spec(st),
        ElementNode::LineBreaks(n) => newlines_spec(st, n as nat),
        ElementNode::HorizontalRule => {
            let normalized = if st.output.len() > 0 && st.output[st.output.len() - 1]
                == NEWLINE {
                st
            } else {
                st_append(st, seq![NEWLINE])
            };
            st_append(normalized, seq![45u8, 45, 45, 45, 45, NEWLINE, NEWLINE])
        },
    }
}

/// The text rendering of a sequence of nodes, left to right.
pub open spec fn render_nodes_spec(
    s: SettingsImage,
    ns: Seq<ElementNode>,
    st: TextState,
) -> TextState
    decreases ns,
{
    if ns.len() == 0 {
        st
    } else {
        render_nodes_spec(s, ns.subrange(1, ns.len() as int), render_node_spec(s, ns[0], st))
    }
}

/// The text rendering of the items of one list, in order.  A line item
/// is indented by the current depth, marked according to the list type,
/// and rendered; a sub-list recurses one depth deeper, restoring the
/// depth afterwards whatever happens inside.
pub open spec fn render_items_spec(
    s: SettingsImage,
    ltype: ListType,
    items: Seq<ListItemNode>,
    st: TextState,
) -> TextState
    decreases items,
{
    if items.len() == 0 {
        st
    } else {
        let st1 = render_item_spec(s, ltype, items[0], st);
        render_items_spec(s, ltype, items.subrange(1, items.len() as int), st1)
    }
}

/// The text rendering of a single list item.
pub open spec fn render_item_spec(
    s: SettingsImage,
    ltype: ListType,
    item: ListItemNode,
    st: TextState,
) -> TextState
    decreases item,
{
    match item {
        ListItemNode::Elements(es) => {
            let st1 = st_append(st, repeat_byte(SPACE, depth_of(st)));
            let st2 = match ltype {
                ListType::Bullet => st_append(st1, seq![BULLET, SPACE]),
                ListType::Numbered => {
                    let (stn, idx) = next_index_spec(st1);
                    st_append(stn, decimal_spec(idx as nat) + seq![46u8, SPACE])
                },
                ListType::Generic => st1,
            };
            render_nodes_spec(s, es, st2)
        },
        ListItemNode::SubList(e) => {
            pop_depth_spec(render_node_spec(s, e, push_depth_spec(st)))
        },
    }
}

/// The complete text rendering of a tree from a fresh context.
pub open spec fn render_text_spec(s: SettingsImage, ns: Seq<ElementNode>) -> Seq<u8> {
    render_nodes_spec(s, ns, init_state()).output
}


/// Append the bytes of a vector to the output buffer.
fn append_bytes(out: &mut Vec<u8>, src: &Vec<u8>)
    ensures
        final(out)@ == old(out)@ + src@,
{
    let mut i: usize = 0;
    while i < src.len()
        invariant
            0 <= i <= src@.len(),
            out@ =~= old(out)@ + src@.subrange(0, i as int),
        decreases src@.len() - i,
    {
        out.push(src[i]);
        i = i + 1;
    }
    assert(out@ =~= old(out)@ + src@);
}

/// Append the bytes of a slice to the output buffer.
fn append_slice(out: &mut Vec<u8>, src: &[u8])
    ensures
        final(out)@ == old(out)@ + src@,
{
    let mut i: usize = 0;
    while i < src.len()
        invariant
            0 <= i <= src@.len(),
            out@ =~= old(out)@ + src@.subrange(0, i as int),
        decreases src@.len() - i,
    {
        out.push(src[i]);
        i = i + 1;
    }
    assert(out@ =~= old(out)@ + src@);
}

/// Format a number in decimal.
pub fn format_usize(n: usize) -> (r: Vec<u8>)
    ensures
        r@ == decimal_spec(n as nat),
    decreases n,
{
    if n < 10 {
        let mut r: Vec<u8> = Vec::new();
        r.push(48 + n as u8);
        assert(r@ =~= decimal_spec(n as nat));
        r
    } else {
        let mut r = format_usize(n / 10);
        r.push(48 + (n % 10) as u8);
        assert(r@ =~= decimal_spec(n as nat));
        r
    }
}

/// Resolve the locale message for a key: the table entry when one
/// exists, else the key itself.
pub fn message_text(s: &RenderSettings, key: &[u8]) -> (r: Vec<u8>)
    ensures
        r@ == message_spec(settings_view(*s), key@),
{
    let ghost rows = settings_view(*s).messages;
    assert(rows.subrange(0, rows.len() as int) =~= rows);
    let mut i: usize = 0;
    while i < s.messages.len()
        invariant
            0 <= i <= s.messages@.len(),
            rows == settings_view(*s).messages,
            rows.len() == s.messages@.len(),
            msg_lookup_spec(rows, s.locale@, key@) == msg_lookup_spec(
                rows.subrange(i as int, rows.len() as int),
                s.locale@,
                key@,
            ),
        decreases s.messages@.len() - i,
    {
        let ghost tail = rows.subrange(i as int, rows.len() as int);
        let row_locale_ok = crate::tree::bytes_eq(&s.messages[i].0, &s.locale);
        let row_key_ok = crate::tree::bytes_eq_general(&s.messages[i].1, key);
        if row_locale_ok && row_key_ok {
            return copy_bytes(&s.messages[i].2);
        }
        assert(tail.subrange(1, tail.len() as int) =~= rows.subrange(i + 1, rows.len() as int));
        i = i + 1;
    }
    let mut r: Vec<u8> = Vec::new();
    append_slice(&mut r, key);
    assert(r@ =~= key@);
    r
}

/// Resolve the host module output for a descriptor: the table entry
/// when one exists, else a placeholder line naming the descriptor.
pub fn module_text(s: &RenderSettings, descriptor: &Vec<u8>) -> (r: Vec<u8>)
    ensures
        r@ == module_output_spec(settings_view(*s), descriptor@),
{
    let ghost rows = settings_view(*s).modules;
    assert(rows.subrange(0, rows.len() as int) =~= rows);
    let mut i: usize = 0;
    while i < s.modules.len()
        invariant
            0 <= i <= s.modules@.len(),
            rows == settings_view(*s).modules,
            rows.len() == s.modules@.len(),
            module_lookup_spec(rows, descriptor@) == module_lookup_spec(
                rows.subrange(i as int, rows.len() as int),
                descriptor@,
            ),
        decreases s.modules@.len() - i,
    {
        let ghost tail = rows.subrange(i as int, rows.len() as int);
        if crate::tree::bytes_eq(&s.modules[i].0, descriptor) {
            return copy_bytes(&s.modules[i].1);
        }
        assert(tail.subrange(1, tail.len() as int) =~= rows.subrange(i + 1, rows.len() as int));
        i = i + 1;
    }
    let mut r: Vec<u8> = Vec::new();
    append_slice(&mut r, &[109, 111, 100, 117, 108, 101, 58, 32]);
    append_bytes(&mut r, descriptor);
    assert(r@ =~= module_output_spec(settings_view(*s), descriptor@));
    r
}

impl TextContext {
    /// A fresh context: empty output, no prefixes, one open counter.
    pub fn new() -> (r: TextContext)
        ensures
            r.wf(),
            r.st() == init_state(),
    {
        let mut list_indices: Vec<usize> = Vec::new();
        list_indices.push(0);
        let r = TextContext { output: Vec::new(), prefixes: Vec::new(), list_indices };
        assert(r.st() =~= init_state());
        r
    }

    /// Append a newline and replay the prefix stack.
    pub fn add_newline(&mut self)
        ensures
            final(self).st() == newline_spec(old(self).st()),
            final(self).prefixes == old(self).prefixes,
            final(self).list_indices == old(self).list_indices,
    {
        let ghost pv = old(self).st().prefixes;
        self.output.push(NEWLINE);
        let mut i: usize = 0;
        assert(pv.subrange(0, 0) =~= Seq::<Seq<u8>>::empty());
        assert(prefixes_flat(pv.subrange(0, 0)) =~= Seq::<u8>::empty());
        while i < self.prefixes.len()
            invariant
                0 <= i <= self.prefixes@.len(),
                self.prefixes == old(self).prefixes,
                self.list_indices == old(self).list_indices,
                pv == old(self).st().prefixes,
                pv.len() == self.prefixes@.len(),
                self.output@ =~= old(self).output@ + seq![NEWLINE] + prefixes_flat(
                    pv.subrange(0, i as int),
                ),
            decreases self.prefixes@.len() - i,
        {
            append_bytes(&mut self.output, &self.prefixes[i]);
            proof {
                let upto = pv.subrange(0, i + 1);
                assert(upto.subrange(0, upto.len() - 1) =~= pv.subrange(0, i as int));
                assert(upto[upto.len() - 1] == pv[i as int]);
            }
            i = i + 1;
        }
        assert(pv.subrange(0, pv.len() as int) =~= pv);
        assert(self.st() =~= newline_spec(old(self).st()));
    }

    /// Append bytes to the output.
    pub fn push_output(&mut self, bytes: &Vec<u8>)
        ensures
            final(self).st() == st_append(old(self).st(), bytes@),
            final(self).prefixes == old(self).prefixes,
            final(self).list_indices == old(self).list_indices,
    {
        append_bytes(&mut self.output, bytes);
        assert(self.st() =~= st_append(old(self).st(), bytes@));
    }

    /// Append literal bytes to the output.
    pub fn push_output_slice(&mut self, bytes: &[u8])
        ensures
            final(self).st() == st_append(old(self).st(), bytes@),
            final(self).prefixes == old(self).prefixes,
            final(self).list_indices == old(self).list_indices,
    {
        append_slice(&mut self.output, bytes);
        assert(self.st() =~= st_append(old(self).st(), bytes@));
    }

    /// Push a line prefix, to be replayed after every newline until it
    /// is popped.
    pub fn push_prefix(&mut self, p: Vec<u8>)
        ensures
            final(self).st() == push_prefix_spec(old(self).st(), p@),
            final(self).list_indices == old(self).list_indices,
    {
        self.prefixes.push(p);
        assert(self.st().prefixes =~= old(self).st().prefixes + seq![p@]);
        assert(self.st() =~= push_prefix_spec(old(self).st(), p@));
    }

    /// Pop the innermost line prefix.  The pairing of pushes and pops is
    /// scoped in the traversal, but popping on an empty stack is simply
    /// a no-op.
    pub fn pop_prefix(&mut self)
        ensures
            final(self).st() == pop_prefix_spec(old(self).st()),
            final(self).list_indices == old(self).list_indices,
    {
        if self.prefixes.len() > 0 {
            self.prefixes.pop();
            assert(self.st().prefixes =~= old(self).st().prefixes.subrange(
                0,
                old(self).st().prefixes.len() - 1,
            ));
        }
        assert(self.st() =~= pop_prefix_spec(old(self).st()));
    }

    /// Enter one list depth: open a fresh numbered counter.
    pub fn push_depth(&mut self)
        ensures
            final(self).st() == push_depth_spec(old(self).st()),
            final(self).wf(),
    {
        self.list_indices.push(0);
        assert(self.st() =~= push_depth_spec(old(self).st()));
    }

    /// Leave one list depth: close the innermost numbered counter,
    /// keeping the outermost one whatever happens.
    pub fn pop_depth(&mut self)
        requires
            old(self).wf(),
        ensures
            final(self).st() == pop_depth_spec(old(self).st()),
            final(self).wf(),
    {
        if self.list_indices.len() > 1 {
            self.list_indices.pop();
            assert(self.st().list_indices =~= old(self).st().list_indices.subrange(
                0,
                old(self).st().list_indices.len() - 1,
            ));
        }
        assert(self.st() =~= pop_depth_spec(old(self).st()));
    }

    /// Bump and read the innermost numbered-list counter (saturating at
    /// the machine limit).
    pub fn next_index(&mut self) -> (idx: usize)
        requires
            old(self).wf(),
        ensures
            final(self).st() == next_index_spec(old(self).st()).0,
            idx == next_index_spec(old(self).st()).1,
            final(self).wf(),
            final(self).prefixes == old(self).prefixes,
            final(self).output == old(self).output,
    {
        let last = self.list_indices.len() - 1;
        let cur = self.list_indices[last];
        let v: usize = if cur == usize::MAX {
            cur
        } else {
            cur + 1
        };
        self.list_indices.set(last, v);
        assert(self.st() =~= next_index_spec(old(self).st()).0);
        v
    }

    /// The current list depth.
    pub fn list_depth(&self) -> (d: usize)
        requires
            self.wf(),
        ensures
            d == depth_of(self.st()),
    {
        self.list_indices.len() - 1
    }
}

/// Render a sequence of elements, left to right.
pub fn render_elements(s: &RenderSettings, ctx: &mut TextContext, es: &Vec<Element>)
    requires
        old(ctx).wf(),
    ensures
        final(ctx).wf(),
        final(ctx).st() == render_nodes_spec(settings_view(*s), elements_view(es@), old(ctx).st()),
    decreases elements_view(es@),
{
    let ghost sv = settings_view(*s);
    let ghost ns = elements_view(es@);
    let ghost st0 = ctx.st();
    proof {
        lemma_elements_view_pointwise(es@);
        assert(ns.subrange(0, ns.len() as int) =~= ns);
    }
    let mut j: usize = 0;
    while j < es.len()
        invariant
            ctx.wf(),
            0 <= j <= es@.len(),
            sv == settings_view(*s),
            ns == elements_view(es@),
            ns.len() == es@.len(),
            forall|i: int| 0 <= i < es@.len() ==> ns[i] == element_view(es@[i]),
            render_nodes_spec(sv, ns, st0) == render_nodes_spec(
                sv,
                ns.subrange(j as int, ns.len() as int),
                ctx.st(),
            ),
        decreases es@.len() - j,
    {
        proof {
            let tail = ns.subrange(j as int, ns.len() as int);
            assert(tail.subrange(1, tail.len() as int) =~= ns.subrange(j + 1, ns.len() as int));
            assert(decreases_to!(ns => ns[j as int]));
        }
        render_element(s, ctx, &es[j]);
        j = j + 1;
    }
    assert(ns.subrange(es@.len() as int, ns.len() as int) =~= Seq::<ElementNode>::empty());
}

/// Render the items of one list: indent and mark line items, recurse
/// one depth deeper for sub-lists.
#[verifier::rlimit(100)]
pub fn render_list_items(
    s: &RenderSettings,
    ctx: &mut TextContext,
    ltype: ListType,
    items: &Vec<ListItem>,
)
    requires
        old(ctx).wf(),
    ensures
        final(ctx).wf(),
        final(ctx).st() == render_items_spec(
            settings_view(*s),
            ltype,
            list_items_view(items@),
            old(ctx).st(),
        ),
    decreases list_items_view(items@),
{
    let ghost sv = settings_view(*s);
    let ghost ins = list_items_view(items@);
    let ghost st0 = ctx.st();
    proof {
        lemma_list_items_view_pointwise(items@);
        assert(ins.subrange(0, ins.len() as int) =~= ins);
    }
    let mut j: usize = 0;
    while j < items.len()
        invariant
            ctx.wf(),
            0 <= j <= items@.len(),
            sv == settings_view(*s),
            ins == list_items_view(items@),
            ins.len() == items@.len(),
            forall|i: int| 0 <= i < items@.len() ==> ins[i] == list_item_view(items@[i]),
            render_items_spec(sv, ltype, ins, st0) == render_items_spec(
                sv,
                ltype,
                ins.subrange(j as int, ins.len() as int),
                ctx.st(),
            ),
        decreases items@.len() - j,
    {
        proof {
            let tail = ins.subrange(j as int, ins.len() as int);
            assert(tail.subrange(1, tail.len() as int) =~= ins.subrange(j + 1, ins.len() as int));
            assert(decreases_to!(ins => ins[j as int]));
        }
        let ghost st_before = ctx.st();
        match &items[j] {
            ListItem::Elements(es) => {
                proof {
                    let item_n = ins[j as int];
                    assert(decreases_to!(item_n => item_n->Elements_0));
                    assert(item_n->Elements_0 == elements_view(es@));
                }
                let ghost st1s = st_append(st_before, repeat_byte(SPACE, depth_of(st_before)));
                let ghost st2s = (match ltype {
                    ListType::Bullet => st_append(st1s, seq![BULLET, SPACE]),
                    ListType::Numbered => st_append(
                        next_index_spec(st1s).0,
                        decimal_spec(next_index_spec(st1s).1 as nat) + seq![46u8, SPACE],
                    ),
                    ListType::Generic => st1s,
                });
                let depth = ctx.list_depth();
                let mut d: usize = 0;
                while d < depth
                    invariant
                        0 <= d <= depth,
                        ctx.wf(),
                        depth == depth_of(st_before),
                        ctx.st() == st_append(st_before, repeat_byte(SPACE, d as nat)),
                    decreases depth - d,
                {
                    let ghost before = ctx.st();
                    ctx.push_output_slice(&[SPACE]);
                    assert(ctx.st().output =~= st_append(
                        st_before,
                        repeat_byte(SPACE, (d + 1) as nat),
                    ).output);
                    assert(ctx.st() =~= st_append(st_before, repeat_byte(SPACE, (d + 1) as nat)));
                    d = d + 1;
                }
                assert(ctx.st() =~= st1s);
                match ltype {
                    ListType::Bullet => {
                        ctx.push_output_slice(&[BULLET, SPACE]);
                        assert(ctx.st() =~= st2s);
                    },
                    ListType::Numbered => {
                        let idx = ctx.next_index();
                        let digits = format_usize(idx);
                        ctx.push_output(&digits);
                        ctx.push_output_slice(&[46, SPACE]);
                        assert(ctx.st() =~= st2s);
                    },
                    ListType::Generic => {
                        assert(ctx.st() =~= st2s);
                    },
                }
                render_elements(s, ctx, es);
                proof {
                    assert(ctx.st() == render_nodes_spec(sv, elements_view(es@), st2s));
                    assert(ctx.st() =~= render_item_spec(sv, ltype, ins[j as int], st_before));
                }
            },
            ListItem::SubList(e) => {
                proof {
                    let item_n = ins[j as int];
                    assert(decreases_to!(item_n => item_n->SubList_0));
                    assert(item_n->SubList_0 == element_view(*e));
                }
                ctx.push_depth();
                render_element(s, ctx, e);
                ctx.pop_depth();
                proof {
                    assert(ctx.st() =~= render_item_spec(sv, ltype, ins[j as int], st_before));
                }
            },
        }
        j = j + 1;
    }
    assert(ins.subrange(items@.len() as int, ins.len() as int) =~= Seq::<ListItemNode>::empty());
}

/// Render one element of the tree, per the reference contract
/// [`render_node_spec`].
#[verifier::rlimit(100)]
pub fn render_element(s: &RenderSettings, ctx: &mut TextContext, e: &Element)
    requires
        old(ctx).wf(),
    ensures
        final(ctx).wf(),
        final(ctx).st() == render_node_spec(settings_view(*s), element_view(*e), old(ctx).st()),
    decreases element_view(*e),
{
    let ghost sv = settings_view(*s);
    let ghost st0 = ctx.st();
    match e {
        Element::Container { ctype, elements } => {
            proof {
                let n = element_view(*e);
                assert(decreases_to!(n => n->Container_elements));
                assert(n->Container_elements == elements_view(elements@));
            }
            match ctype {
                ContainerType::Div | ContainerType::Paragraph => {
                    ctx.add_newline();
                    render_elements(s, ctx, elements);
                    ctx.add_newline();
                },
                ContainerType::Blockquote => {
                    let mut p: Vec<u8> = Vec::new();
                    p.push(SPACE);
                    p.push(SPACE);
                    p.push(SPACE);
                    p.push(SPACE);
                    proof {
                        reveal_with_fuel(repeat_byte, 5);
                        assert(p@ =~= repeat_byte(SPACE, 4));
                    }
                    ctx.push_prefix(p);
                    ctx.add_newline();
                    render_elements(s, ctx, elements);
                    ctx.pop_prefix();
                    ctx.add_newline();
                },
                ContainerType::Header(level) => {
                    let mut p: Vec<u8> = Vec::new();
                    let mut d: u8 = 0;
                    while d < *level
                        invariant
                            0 <= d <= *level,
                            p@ =~= repeat_byte(PLUS, d as nat),
                        decreases *level - d,
                    {
                        p.push(PLUS);
                        assert(p@ =~= repeat_byte(PLUS, (d + 1) as nat));
                        d = d + 1;
                    }
                    p.push(SPACE);
                    assert(p@ =~= header_prefix(*level));
                    ctx.push_prefix(p);
                    ctx.add_newline();
                    render_elements(s, ctx, elements);
                    ctx.pop_prefix();
                    ctx.add_newline();
                },
            }
        },
        Element::Module { descriptor } => {
            let text = module_text(s, descriptor);
            ctx.push_output(&text);
        },
        Element::Text(t) => {
            ctx.push_output(t);
        },
        Element::Raw(t) => {
            ctx.push_output(t);
        },
        Element::Email(t) => {
            ctx.push_output(t);
        },
        Element::Anchor { elements, attributes } => {
            proof {
                let n = element_view(*e);
                assert(decreases_to!(n => n->Anchor_elements));
                assert(n->Anchor_elements == elements_view(elements@));
            }
            render_elements(s, ctx, elements);
            let href = attributes.get(&[104, 114, 101, 102]);
            match href {
                Some(h) => {
                    let url = get_full_url(h, &s.site_base);
                    ctx.push_output_slice(&[SPACE, 91]);
                    ctx.push_output(&url);
                    ctx.push_output_slice(&[93]);
                    assert(ctx.st() =~= render_node_spec(sv, element_view(*e), st0));
                },
                None => {
                    assert(ctx.st() =~= render_node_spec(sv, element_view(*e), st0));
                },
            }
        },
        Element::Link { url, label, attributes: _ } => {
            match label {
                Some(l) => {
                    ctx.push_output(l);
                },
                None => {
                    ctx.push_output(url);
                },
            }
            let resolved = get_full_url(url, &s.site_base);
            ctx.push_output_slice(&[SPACE, 91]);
            ctx.push_output(&resolved);
            ctx.push_output_slice(&[93]);
            assert(ctx.st() =~= render_node_spec(sv, element_view(*e), st0));
        },
        Element::List { ltype, items } => {
            proof {
                let n = element_view(*e);
                assert(decreases_to!(n => n->List_items));
                assert(n->List_items == list_items_view(items@));
            }
            render_list_items(s, ctx, *ltype, items);
        },
        Element::RadioButton { checked } => {
            if *checked {
                ctx.push_output_slice(&[40, BULLET, 41]);
            } else {
                ctx.push_output_slice(&[40, SPACE, 41]);
            }
            assert(ctx.st() =~= render_node_spec(sv, element_view(*e), st0));
        },
        Element::CheckBox { checked } => {
            if *checked {
                ctx.push_output_slice(&[91, 88, 93]);
            } else {
                ctx.push_output_slice(&[91, SPACE, 93]);
            }
            assert(ctx.st() =~= render_node_spec(sv, element_view(*e), st0));
        },
        Element::Collapsible { elements, show_text, hide_text, show_top, show_bottom } => {
            proof {
                let n = element_view(*e);
                assert(decreases_to!(n => n->Collapsible_elements));
                assert(n->Collapsible_elements == elements_view(elements@));
            }
            let ghost n = element_view(*e);
            let ghost show_s = (match n->Collapsible_show_text {
                Option::Some(t) => t,
                Option::None => message_spec(
                    sv,
                    seq![99u8, 111, 108, 108, 97, 112, 115, 105, 98, 108, 101, 45, 111, 112, 101,
                        110],
                ),
            });
            let ghost hide_s = (match n->Collapsible_hide_text {
                Option::Some(t) => t,
                Option::None => message_spec(
                    sv,
                    seq![99u8, 111, 108, 108, 97, 112, 115, 105, 98, 108, 101, 45, 104, 105, 100,
                        101],
                ),
            });
            let show: Vec<u8> = match show_text {
                Some(t) => copy_bytes(t),
                None => message_text(
                    s,
                    &[99, 111, 108, 108, 97, 112, 115, 105, 98, 108, 101, 45, 111, 112, 101, 110],
                ),
            };
            let hide: Vec<u8> = match hide_text {
                Some(t) => copy_bytes(t),
                None => message_text(
                    s,
                    &[99, 111, 108, 108, 97, 112, 115, 105, 98, 108, 101, 45, 104, 105, 100, 101],
                ),
            };
            proof {
                assert(show@ =~= show_s);
                assert(hide@ =~= hide_s);
            }
            let ghost st1s = st_append(st0, seq![NEWLINE] + show_s + seq![NEWLINE]);
            let ghost st2s = (if *show_top {
                st_append(st1s, hide_s + seq![NEWLINE])
            } else {
                st1s
            });
            ctx.push_output_slice(&[NEWLINE]);
            ctx.push_output(&show);
            ctx.push_output_slice(&[NEWLINE]);
            if *show_top {
                ctx.push_output(&hide);
                ctx.push_output_slice(&[NEWLINE]);
            }
            assert(ctx.st() =~= st2s);
            render_elements(s, ctx, elements);
            let ghost st3s = render_nodes_spec(sv, elements_view(elements@), st2s);
            if *show_bottom {
                ctx.push_output(&hide);
                ctx.push_output_slice(&[NEWLINE]);
                assert(ctx.st() =~= st_append(st3s, hide_s + seq![NEWLINE]));
            } else {
                assert(ctx.st() == st3s);
            }
            assert(ctx.st() =~= render_node_spec(sv, element_view(*e), st0));
        },
        Element::Color { color: _, elements } => {
            proof {
                let n = element_view(*e);
                assert(decreases_to!(n => n->Color_elements));
                assert(n->Color_elements == elements_view(elements@));
            }
            render_elements(s, ctx, elements);
        },
        Element::Code { contents, language } => {
            ctx.push_output_slice(&[96, 96, 96]);
            match language {
                Some(l) => {
                    ctx.push_output(l);
                },
                None => {},
            }
            ctx.push_output_slice(&[NEWLINE]);
            ctx.push_output(contents);
            ctx.push_output_slice(&[NEWLINE, 96, 96, 96]);
            assert(ctx.st() =~= render_node_spec(sv, element_view(*e), st0));
        },
        Element::Html { contents } => {
            ctx.push_output_slice(&[96, 96, 96, 104, 116, 109, 108, NEWLINE]);
            ctx.push_output(contents);
            ctx.push_output_slice(&[NEWLINE, 96, 96, 96]);
            assert(ctx.st() =~= render_node_spec(sv, element_view(*e), st0));
        },
        Element::Iframe { url } => {
            ctx.push_output_slice(&[105, 102, 114, 97, 109, 101, 58, 32]);
            ctx.push_output(url);
            assert(ctx.st() =~= render_node_spec(sv, element_view(*e), st0));
        },
        Element::LineBreak => {
            ctx.add_newline();
        },
        Element::LineBreaks(n) => {
            let mut i: usize = 0;
            while i < *n
                invariant
                    0 <= i <= *n,
                    ctx.wf(),
                    newlines_spec(st0, *n as nat) == newlines_spec(ctx.st(), (*n - i) as nat),
                decreases *n - i,
            {
                ctx.add_newline();
                i = i + 1;
            }
        },
        Element::HorizontalRule => {
            let len = ctx.output.len();
            if len == 0 || ctx.output[len - 1] != NEWLINE {
                ctx.push_output_slice(&[NEWLINE]);
            }
            ctx.push_output_slice(&[45, 45, 45, 45, 45, NEWLINE, NEWLINE]);
            assert(ctx.st() =~= render_node_spec(sv, element_view(*e), st0));
        },
    }
}

/// Render a whole tree from a fresh context, returning the output
/// bytes.  The output is a pure function of the tree and the settings,
/// so repeated renders are byte-identical.
pub fn render_text(s: &RenderSettings, elements: &Vec<Element>) -> (out: Vec<u8>)
    ensures
        out@ == render_text_spec(settings_view(*s), elements_view(elements@)),
{
    let mut ctx = TextContext::new();
    render_elements(s, &mut ctx, elements);
    ctx.output
}


/// A horizontal rule is always set off by exactly one newline: when
/// the buffer does not already end in one, a single newline is added,
/// and the result is the same as if the buffer had ended in one; the
/// divider bytes always follow immediately after a newline.
pub proof fn lemma_hr_single_newline(s: SettingsImage, st: TextState)
    requires
        st.output.len() == 0 || st.output[st.output.len() - 1] != NEWLINE,
    ensures
        render_node_spec(s, ElementNode::HorizontalRule, st) == render_node_spec(
            s,
            ElementNode::HorizontalRule,
            st_append(st, seq![NEWLINE]),
        ),
        render_node_spec(s, ElementNode::HorizontalRule, st).output == st.output + seq![NEWLINE]
            + seq![45u8, 45, 45, 45, 45, NEWLINE, NEWLINE],
{
    let bumped = st_append(st, seq![NEWLINE]);
    assert(bumped.output[bumped.output.len() - 1] == NEWLINE);
    assert(render_node_spec(s, ElementNode::HorizontalRule, st) =~= render_node_spec(
        s,
        ElementNode::HorizontalRule,
        bumped,
    ));
    assert(render_node_spec(s, ElementNode::HorizontalRule, st).output =~= st.output + seq![
        NEWLINE,
    ] + seq![45u8, 45, 45, 45, 45, NEWLINE, NEWLINE]);
}

} // verus!
