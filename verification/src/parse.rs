//! The rule engine: consuming the token stream into a document tree
//! plus a list of non-fatal warnings.
//!
//! At each position the applicable rules are tried in fixed priority
//! order; the first whose entry condition matches is invoked.  A rule
//! either succeeds, advancing the cursor and emitting an element, or
//! fails, in which case a `RuleFailed` warning is recorded and the
//! token is treated as literal text, so parsing never aborts globally
//! on a single construct's failure.  The list rules are entered only at
//! the start of input or immediately after a line break; each list line
//! reads an optional whitespace run as its depth, requires its marker
//! followed by exactly one whitespace separator, and collects inline
//! content up to the line's end.  The collected (depth, content) lines
//! are nested by the depth-list algorithm.
//!
//! The whole parse is specified by the functional interpreter
//! [`parse_spec`] over the token stream.

use vstd::prelude::*;

use crate::depth::{nest_spec, process_depths, DepthItem, DepthList, DepthNode, depth_list_view,
    lemma_depth_list_view_pointwise, run_end};
use crate::token::{Token, TokenKind};
use crate::tree::{element_view, elements_view, lemma_elements_view_pointwise, Element,
    ElementNode, ListItem, ListItemNode, ListType};

verus! {

/// The kinds of non-fatal warning the engine records.
#[derive(Debug, Clone, Copy, PartialEq, Eq, Structural)]
pub enum ParseWarningKind {
    /// A rule was attempted and consumed nothing useful; the input it
    /// looked at falls back to literal text.
    RuleFailed,
}

/// A non-fatal warning, tagged with the source span of the token the
/// failed rule was entered at.
#[derive(Debug, Clone, Copy, PartialEq, Eq, Structural)]
pub struct ParseWarning {
    pub kind: ParseWarningKind,
    pub start: usize,
    pub end: usize,
}

/// A parsing rule of the registry: entered on its marker token, it
/// consumes list lines and produces a list of its type.
#[derive(Debug, Clone, Copy, PartialEq, Eq, Structural)]
pub struct Rule {
    pub marker: TokenKind,
    pub ltype: ListType,
}

/// The rule and list type a marker token selects, if it is a list
/// marker at all.
pub fn get_list_type(token: TokenKind) -> (r: Option<(Rule, ListType)>)
    ensures
        token == TokenKind::BulletItem ==> r == Some(
            (Rule { marker: TokenKind::BulletItem, ltype: ListType::Bullet }, ListType::Bullet),
        ),
        token == TokenKind::NumberedItem ==> r == Some(
            (
                Rule { marker: TokenKind::NumberedItem, ltype: ListType::Numbered },
                ListType::Numbered,
            ),
        ),
        token != TokenKind::BulletItem && token != TokenKind::NumberedItem ==> r is None,
{
    match token {
        TokenKind::BulletItem => Some(
            (Rule { marker: TokenKind::BulletItem, ltype: ListType::Bullet }, ListType::Bullet),
        ),
        TokenKind::NumberedItem => Some(
            (
                Rule { marker: TokenKind::NumberedItem, ltype: ListType::Numbered },
                ListType::Numbered,
            ),
        ),
        _ => None,
    }
}

/// The slice of the source a token covers (empty when the span is out
/// of bounds, which a well-formed stream never produces).
pub open spec fn slice_of(src: Seq<u8>, t: Token) -> Seq<u8> {
    if t.start <= t.end <= src.len() {
        src.subrange(t.start as int, t.end as int)
    } else {
        Seq::empty()
    }
}

/// Inline content collection (`collect_consume`): elements gathered
/// from position `j` until a stop condition (a line break, consumed, or
/// the input end, left in place) or an exception condition (a paragraph
/// break, left in place).  Returns the elements, the cursor after the
/// collection, and whether the exception condition ended it.  Every
/// token of inline content falls back to literal text in this rule
/// registry.
pub open spec fn collect_spec(toks: Seq<Token>, src: Seq<u8>, j: int) -> (
    Seq<ElementNode>,
    int,
    bool,
)
    decreases toks.len() - j,
{
    if j < 0 || j >= toks.len() {
        (Seq::empty(), toks.len() as int, false)
    } else {
        match toks[j].kind {
            TokenKind::LineBreak => (Seq::empty(), j + 1, false),
            TokenKind::InputEnd => (Seq::empty(), j, false),
            TokenKind::ParagraphBreak => (Seq::empty(), j, true),
            TokenKind::InputStart => {
                let r = collect_spec(toks, src, j + 1);
                (r.0, r.1, r.2)
            },
            _ => {
                let r = collect_spec(toks, src, j + 1);
                (seq![ElementNode::Text(slice_of(src, toks[j]))] + r.0, r.1, r.2)
            },
        }
    }
}

/// Collection never moves the cursor backwards and never runs past the
/// end of the stream.
pub proof fn lemma_collect_spec_advances(toks: Seq<Token>, src: Seq<u8>, j: int)
    requires
        0 <= j <= toks.len(),
    ensures
        j <= collect_spec(toks, src, j).1 <= toks.len(),
    decreases toks.len() - j,
{
    if j < toks.len() {
        match toks[j].kind {
            TokenKind::LineBreak | TokenKind::InputEnd | TokenKind::ParagraphBreak => {},
            _ => {
                lemma_collect_spec_advances(toks, src, j + 1);
            },
        }
    }
}

/// One pass of the list rule's line loop from position `j`: the flat
/// (depth, content) lines read, and the cursor after the loop.  A line
/// is an optional whitespace run read as depth, the marker, exactly one
/// whitespace separator, then inline content to the end of the line.  A
/// line that does not match ends the loop with whatever was consumed of
/// it left consumed, exactly as the engine leaves the unread tokens for
/// later dispatch; a paragraph break inside content ends the loop while
/// preserving the line's partial content.
pub open spec fn list_lines_spec(toks: Seq<Token>, src: Seq<u8>, j: int, marker: TokenKind) -> (
    Seq<(usize, Seq<ElementNode>)>,
    int,
)
    decreases toks.len() - j, 0int,
    via list_lines_spec_decreases
{
    if j < 0 || j >= toks.len() {
        (Seq::empty(), if j < 0 { 0 } else { toks.len() as int })
    } else {
        let has_ws = toks[j].kind == TokenKind::Whitespace;
        let d: usize = if has_ws {
            ((toks[j].end - toks[j].start) as usize)
        } else {
            0usize
        };
        let j2 = if has_ws {
            j + 1
        } else {
            j
        };
        if !has_ws && toks[j].kind != marker {
            (Seq::empty(), j)
        } else if j2 >= toks.len() || toks[j2].kind != marker {
            (Seq::empty(), j2)
        } else if j2 + 1 >= toks.len() || toks[j2 + 1].kind != TokenKind::Whitespace {
            (Seq::empty(), if j2 + 1 >= toks.len() {
                toks.len() as int
            } else {
                j2 + 1
            })
        } else {
            let c = collect_spec(toks, src, j2 + 2);
            if c.2 {
                (seq![(d, c.0)], c.1)
            } else {
                let rest = list_lines_spec(toks, src, c.1, marker);
                (seq![(d, c.0)] + rest.0, rest.1)
            }
        }
    }
}

#[via_fn]
proof fn list_lines_spec_decreases(toks: Seq<Token>, src: Seq<u8>, j: int, marker: TokenKind) {
    if 0 <= j < toks.len() {
        let j2 = if toks[j].kind == TokenKind::Whitespace {
            j + 1
        } else {
            j
        };
        if j2 < toks.len() && toks[j2].kind == marker && j2 + 1 < toks.len() && toks[j2
            + 1].kind == TokenKind::Whitespace {
            lemma_collect_spec_advances(toks, src, j2 + 2);
        }
    }
}

/// The line loop never moves the cursor backwards and never runs past
/// the end of the stream.
pub proof fn lemma_list_lines_advances(toks: Seq<Token>, src: Seq<u8>, j: int, marker: TokenKind)
    requires
        0 <= j <= toks.len(),
    ensures
        j <= list_lines_spec(toks, src, j, marker).1 <= toks.len(),
    decreases toks.len() - j,
{
    if j < toks.len() {
        let j2 = if toks[j].kind == TokenKind::Whitespace {
            j + 1
        } else {
            j
        };
        if j2 < toks.len() && toks[j2].kind == marker && j2 + 1 < toks.len() && toks[j2
            + 1].kind == TokenKind::Whitespace {
            lemma_collect_spec_advances(toks, src, j2 + 2);
            let c = collect_spec(toks, src, j2 + 2);
            if !c.2 {
                lemma_list_lines_advances(toks, src, c.1, marker);
            }
        }
    }
}

/// The list items denoted by a nested forest of line contents: a
/// payload becomes a line item, a sub-forest becomes a sub-list of the
/// same list type.
pub open spec fn build_items_spec(
    forest: Seq<DepthNode<Seq<ElementNode>>>,
    ltype: ListType,
) -> Seq<ListItemNode>
    decreases forest,
{
    if forest.len() == 0 {
        Seq::empty()
    } else {
        seq![build_item_spec(forest[0], ltype)] + build_items_spec(
            forest.subrange(1, forest.len() as int),
            ltype,
        )
    }
}

/// One node of a nested line forest as a list item.
pub open spec fn build_item_spec(
    node: DepthNode<Seq<ElementNode>>,
    ltype: ListType,
) -> ListItemNode
    decreases node,
{
    match node {
        DepthNode::Item(els) => ListItemNode::Elements(els),
        DepthNode::List(children) => ListItemNode::SubList(
            ElementNode::List { ltype, items: build_items_spec(children, ltype) },
        ),
    }
}

/// The outcome of one attempt of a list rule entered at position `i`
/// (the start-of-input or line-break token): the list element and the
/// cursor after it on success, or nothing when no complete line was
/// read (the engine then records `RuleFailed` and backtracks).
pub open spec fn try_list_spec(
    toks: Seq<Token>,
    src: Seq<u8>,
    i: int,
    marker: TokenKind,
    ltype: ListType,
) -> Option<(ElementNode, int)> {
    let r = list_lines_spec(toks, src, i + 1, marker);
    if r.0.len() == 0 {
        None
    } else {
        Some(
            (
                ElementNode::List { ltype, items: build_items_spec(nest_spec(r.0), ltype) },
                r.1,
            ),
        )
    }
}

/// Whether a list rule with the given marker is applicable at entry
/// position `i`: the marker stands right after the entry token, or
/// right after one whitespace run (the line's depth).
pub open spec fn rule_applicable(toks: Seq<Token>, i: int, marker: TokenKind) -> bool {
    ||| (i + 1 < toks.len() && toks[i + 1].kind == marker)
    ||| (i + 2 < toks.len() && toks[i + 1].kind == TokenKind::Whitespace && toks[i + 2].kind
        == marker)
}

/// The parse of the token stream from position `i`: the elements and
/// warnings produced by rule dispatch until the end of input.
pub open spec fn parse_spec(toks: Seq<Token>, src: Seq<u8>, i: int) -> (
    Seq<ElementNode>,
    Seq<ParseWarning>,
)
    decreases toks.len() - i, 1int,
    via parse_spec_decreases
{
    if i < 0 || i >= toks.len() {
        (Seq::empty(), Seq::empty())
    } else {
        match toks[i].kind {
            TokenKind::InputEnd => (Seq::empty(), Seq::empty()),
            TokenKind::InputStart | TokenKind::LineBreak => parse_entry_spec(toks, src, i),
            TokenKind::ParagraphBreak => {
                let rest = parse_spec(toks, src, i + 1);
                (
                    seq![
                        ElementNode::LineBreaks(((toks[i].end - toks[i].start) as usize)),
                    ] + rest.0,
                    rest.1,
                )
            },
            _ => {
                let rest = parse_spec(toks, src, i + 1);
                (seq![ElementNode::Text(slice_of(src, toks[i]))] + rest.0, rest.1)
            },
        }
    }
}

/// Rule dispatch at an entry position (start of input or a line
/// break): the applicable list rules are tried in priority order,
/// bullet before numbered; a failed attempt records `RuleFailed` and
/// falls back; with no rule left, a line break stands as its own
/// element and the entry token is passed over.
pub open spec fn parse_entry_spec(toks: Seq<Token>, src: Seq<u8>, i: int) -> (
    Seq<ElementNode>,
    Seq<ParseWarning>,
)
    decreases toks.len() - i, 0int,
    via parse_entry_spec_decreases
{
    if i < 0 || i >= toks.len() {
        (Seq::empty(), Seq::empty())
    } else {
        let fallback_el: Seq<ElementNode> = if toks[i].kind == TokenKind::LineBreak {
            seq![ElementNode::LineBreak]
        } else {
            Seq::empty()
        };
        if rule_applicable(toks, i, TokenKind::BulletItem) {
            match try_list_spec(toks, src, i, TokenKind::BulletItem, ListType::Bullet) {
                Some(r) => {
                    let rest = parse_spec(toks, src, r.1);
                    (seq![r.0] + rest.0, rest.1)
                },
                None => {
                    let rest = parse_spec(toks, src, i + 1);
                    let w = ParseWarning {
                        kind: ParseWarningKind::RuleFailed,
                        start: toks[i].start,
                        end: toks[i].end,
                    };
                    (fallback_el + rest.0, seq![w] + rest.1)
                },
            }
        } else if rule_applicable(toks, i, TokenKind::NumberedItem) {
            match try_list_spec(toks, src, i, TokenKind::NumberedItem, ListType::Numbered) {
                Some(r) => {
                    let rest = parse_spec(toks, src, r.1);
                    (seq![r.0] + rest.0, rest.1)
                },
                None => {
                    let rest = parse_spec(toks, src, i + 1);
                    let w = ParseWarning {
                        kind: ParseWarningKind::RuleFailed,
                        start: toks[i].start,
                        end: toks[i].end,
                    };
                    (fallback_el + rest.0, seq![w] + rest.1)
                },
            }
        } else {
            let rest = parse_spec(toks, src, i + 1);
            (fallback_el + rest.0, rest.1)
        }
    }
}

#[via_fn]
proof fn parse_spec_decreases(toks: Seq<Token>, src: Seq<u8>, i: int) {
}

#[via_fn]
proof fn parse_entry_spec_decreases(toks: Seq<Token>, src: Seq<u8>, i: int) {
    if 0 <= i < toks.len() {
        lemma_list_lines_advances(toks, src, i + 1, TokenKind::BulletItem);
        lemma_list_lines_advances(toks, src, i + 1, TokenKind::NumberedItem);
    }
}

/// The mathematical image of a flat line buffer: depths kept, contents
/// taken to their images.
pub open spec fn lines_view(depths: Seq<(usize, Vec<Element>)>) -> Seq<(usize, Seq<ElementNode>)> {
    Seq::new(depths.len(), |k: int| (depths[k].0, elements_view(depths[k].1@)))
}

/// The image of one nested-forest node when its payloads are taken to
/// their images.
pub open spec fn node_payload_view(n: DepthNode<Vec<Element>>) -> DepthNode<Seq<ElementNode>>
    decreases n,
{
    match n {
        DepthNode::Item(v) => DepthNode::Item(elements_view(v@)),
        DepthNode::List(ch) => DepthNode::List(forest_payload_view(ch)),
    }
}

/// The image of a nested forest when its payloads are taken to their
/// images.
pub open spec fn forest_payload_view(f: Seq<DepthNode<Vec<Element>>>) -> Seq<
    DepthNode<Seq<ElementNode>>,
>
    decreases f,
{
    if f.len() == 0 {
        Seq::empty()
    } else {
        seq![node_payload_view(f[0])] + forest_payload_view(f.subrange(1, f.len() as int))
    }
}

/// `forest_payload_view` maps `node_payload_view` over the forest,
/// node by node.
pub proof fn lemma_forest_payload_view_pointwise(f: Seq<DepthNode<Vec<Element>>>)
    ensures
        forest_payload_view(f).len() == f.len(),
        forall|i: int|
            0 <= i < f.len() ==> forest_payload_view(f)[i] == node_payload_view(f[i]),
    decreases f.len(),
{
    if f.len() > 0 {
        lemma_forest_payload_view_pointwise(f.subrange(1, f.len() as int));
    }
}

/// A run of strictly deeper entries is the same however the payloads
/// are represented: `run_end` reads only the depths.
proof fn lemma_run_end_same<A, B>(
    a: Seq<(usize, A)>,
    b: Seq<(usize, B)>,
    d0: usize,
    i: int,
)
    requires
        a.len() == b.len(),
        forall|k: int| 0 <= k < a.len() ==> a[k].0 == #[trigger] b[k].0,
    ensures
        run_end(a, d0, i) == run_end(b, d0, i),
    decreases a.len() - i,
{
    if 0 <= i < a.len() && a[i].0 > d0 {
        lemma_run_end_same(a, b, d0, i + 1);
    }
}

/// Nesting commutes with taking payloads to their images: the forest
/// of a flat line buffer has the same shape whether the lines hold
/// element vectors or their images.
pub proof fn lemma_nest_payload(entries: Seq<(usize, Vec<Element>)>)
    ensures
        forest_payload_view(nest_spec(entries)) == nest_spec(lines_view(entries)),
    decreases entries.len(),
{
    let m = lines_view(entries);
    if entries.len() == 0 {
        assert(forest_payload_view(nest_spec(entries)) =~= nest_spec(m));
    } else {
        let d0 = entries[0].0;
        lemma_run_end_same(entries, m, d0, 1);
        let k = run_end(entries, d0, 1);
        crate::depth::lemma_run_end_bounds(entries, d0, 1);
        assert(lines_view(entries.subrange(1, k)) =~= m.subrange(1, k));
        assert(lines_view(entries.subrange(k, entries.len() as int)) =~= m.subrange(
            k,
            m.len() as int,
        ));
        lemma_nest_payload(entries.subrange(1, k));
        lemma_nest_payload(entries.subrange(k, entries.len() as int));
        lemma_forest_payload_view_pointwise(nest_spec(entries));
        let children = nest_spec(entries.subrange(1, k));
        let rest = nest_spec(entries.subrange(k, entries.len() as int));
        lemma_forest_payload_view_pointwise(rest);
        if k > 1 {
            assert(nest_spec(entries) == seq![
                DepthNode::Item(entries[0].1),
                DepthNode::List(children),
            ] + rest);
        } else {
            assert(nest_spec(entries) == seq![DepthNode::Item(entries[0].1)] + rest);
        }
        assert(forest_payload_view(nest_spec(entries)) =~= nest_spec(m));
    }
}

/// Collect inline content from position `j` until the end of the line,
/// the end of the input, or a paragraph break.
pub fn collect_line(toks: &Vec<Token>, src: &Vec<u8>, j: usize) -> (r: (Vec<Element>, usize, bool))
    requires
        crate::token::token_stream_wf(src@, toks@),
        j <= toks@.len(),
    ensures
        elements_view(r.0@) == collect_spec(toks@, src@, j as int).0,
        r.1 == collect_spec(toks@, src@, j as int).1,
        r.2 == collect_spec(toks@, src@, j as int).2,
        j <= r.1 <= toks@.len(),
{
    let ghost goal = collect_spec(toks@, src@, j as int);
    proof {
        lemma_collect_spec_advances(toks@, src@, j as int);
    }
    let mut els: Vec<Element> = Vec::new();
    let mut k: usize = j;
    let mut aborted: bool = false;
    proof {
        assert(elements_view(els@) =~= Seq::<ElementNode>::empty());
        assert(goal.0 =~= elements_view(els@) + collect_spec(toks@, src@, j as int).0);
    }
    loop
        invariant_except_break
            crate::token::token_stream_wf(src@, toks@),
            j <= k <= toks@.len(),
            goal == collect_spec(toks@, src@, j as int),
            goal.0 == elements_view(els@) + collect_spec(toks@, src@, k as int).0,
            goal.1 == collect_spec(toks@, src@, k as int).1,
            goal.2 == collect_spec(toks@, src@, k as int).2,
        ensures
            elements_view(els@) == goal.0,
            k == goal.1,
            aborted == goal.2,
            j <= k <= toks@.len(),
        decreases toks@.len() - k,
    {
        if k >= toks.len() {
            assert(collect_spec(toks@, src@, k as int).0 =~= Seq::<ElementNode>::empty());
            assert(elements_view(els@) =~= goal.0);
            aborted = false;
            break;
        }
        let t = toks[k];
        match t.kind {
            TokenKind::LineBreak => {
                k = k + 1;
                aborted = false;
                assert(elements_view(els@) =~= goal.0);
                break;
            },
            TokenKind::InputEnd => {
                aborted = false;
                assert(elements_view(els@) =~= goal.0);
                break;
            },
            TokenKind::ParagraphBreak => {
                aborted = true;
                assert(elements_view(els@) =~= goal.0);
                break;
            },
            TokenKind::InputStart => {
                k = k + 1;
            },
            _ => {
                assert(crate::token::token_wf(src@, toks@[k as int]));
                let slice = crate::token::extract_slice(src, t.start, t.end);
                let ghost old_els = els@;
                els.push(Element::Text(slice));
                proof {
                    lemma_elements_view_pointwise(els@);
                    lemma_elements_view_pointwise(old_els);
                    assert(elements_view(els@) =~= elements_view(old_els) + seq![
                        ElementNode::Text(slice_of(src@, toks@[k as int])),
                    ]);
                }
                k = k + 1;
            },
        }
        proof {
            lemma_collect_spec_advances(toks@, src@, k as int);
        }
    }
    (els, k, aborted)
}


/// Turn a nested forest of line contents into list items: a payload
/// becomes a line item, a sub-forest becomes a sub-list of the same
/// type.
fn build_items(list: DepthList<Vec<Element>>, ltype: ListType) -> (items: Vec<ListItem>)
    ensures
        crate::tree::list_items_view(items@) == build_items_spec(
            forest_payload_view(depth_list_view(list@)),
            ltype,
        ),
    decreases list@, 0int,
{
    let ghost input = list@;
    let mut list = list;
    proof {
        lemma_depth_list_view_pointwise(input);
        lemma_forest_payload_view_pointwise(depth_list_view(input));
    }
    if list.len() == 0 {
        let items: Vec<ListItem> = Vec::new();
        assert(crate::tree::list_items_view(items@) =~= build_items_spec(
            forest_payload_view(depth_list_view(input)),
            ltype,
        ));
        return items;
    }
    let rest = list.split_off(1);
    assert(rest@ =~= input.subrange(1, input.len() as int));
    let first = list.remove(0);
    assert(first == input[0]);
    let ghost fp = forest_payload_view(depth_list_view(input));
    let built_first: ListItem = match first {
        DepthItem::Item(els) => {
            let li = ListItem::Elements(els);
            proof {
                assert(crate::tree::list_item_view(li) == build_item_spec(fp[0], ltype));
            }
            li
        },
        DepthItem::List(children) => {
            proof {
                assert(decreases_to!(input => input[0]));
                assert(decreases_to!(input[0] => children@));
            }
            let li = ListItem::SubList(build_list_element(children, ltype));
            proof {
                assert(crate::tree::list_item_view(li) == build_item_spec(fp[0], ltype));
            }
            li
        },
    };
    let mut items: Vec<ListItem> = Vec::new();
    items.push(built_first);
    let mut rest_items = build_items(rest, ltype);
    let ghost rest_items_view_saved = rest_items@;
    items.append(&mut rest_items);
    proof {
        crate::tree::lemma_list_items_view_pointwise(items@);
        crate::tree::lemma_list_items_view_pointwise(rest_items_view_saved);
        lemma_depth_list_view_pointwise(input.subrange(1, input.len() as int));
        lemma_forest_payload_view_pointwise(depth_list_view(input.subrange(1, input.len() as int)));
        assert(depth_list_view(input.subrange(1, input.len() as int)) =~= depth_list_view(
            input,
        ).subrange(1, input.len() as int));
        assert(forest_payload_view(depth_list_view(input.subrange(1, input.len() as int)))
            =~= fp.subrange(1, fp.len() as int));
        assert(crate::tree::list_items_view(items@) =~= build_items_spec(fp, ltype));
    }
    items
}

/// Wrap a nested forest of line contents as a `List` element of the
/// given type, turning each node into a list item and each sub-forest
/// into a sub-list.
pub fn build_list_element(list: DepthList<Vec<Element>>, ltype: ListType) -> (r: Element)
    ensures
        element_view(r) == (ElementNode::List {
            ltype,
            items: build_items_spec(forest_payload_view(depth_list_view(list@)), ltype),
        }),
    decreases list@, 1int,
{
    let items = build_items(list, ltype);
    Element::List { ltype, items }
}

/// Try a list rule entered at position `i` (a start-of-input or
/// line-break token): read the flat lines, nest them, and wrap them as
/// a list element; fail when no complete line was read.
pub fn try_parse_list(
    toks: &Vec<Token>,
    src: &Vec<u8>,
    i: usize,
    marker: TokenKind,
    ltype: ListType,
) -> (r: Option<(Element, usize)>)
    requires
        crate::token::token_stream_wf(src@, toks@),
        i < toks@.len(),
    ensures
        match r {
            Some(p) => {
                &&& try_list_spec(toks@, src@, i as int, marker, ltype) == Some(
                    (element_view(p.0), p.1 as int),
                )
                &&& i < p.1 <= toks@.len()
            },
            None => try_list_spec(toks@, src@, i as int, marker, ltype) is None,
        },
{
    let ghost goal = list_lines_spec(toks@, src@, i + 1, marker);
    proof {
        lemma_list_lines_advances(toks@, src@, i + 1, marker);
    }
    let total = toks.len();
    assert(i < total);
    let mut depths: Vec<(usize, Vec<Element>)> = Vec::new();
    let mut j: usize = i + 1;
    proof {
        assert(lines_view(depths@) =~= Seq::<(usize, Seq<ElementNode>)>::empty());
        assert(goal.0 =~= lines_view(depths@) + list_lines_spec(toks@, src@, j as int, marker).0);
    }
    loop
        invariant_except_break
            crate::token::token_stream_wf(src@, toks@),
            i + 1 <= j <= toks@.len(),
            i < toks@.len(),
            goal == list_lines_spec(toks@, src@, i + 1, marker),
            goal.0 == lines_view(depths@) + list_lines_spec(toks@, src@, j as int, marker).0,
            goal.1 == list_lines_spec(toks@, src@, j as int, marker).1,
        ensures
            lines_view(depths@) == goal.0,
            j == goal.1,
            i < j <= toks@.len(),
        decreases toks@.len() - j,
    {
        let ghost here = list_lines_spec(toks@, src@, j as int, marker);
        proof {
            lemma_list_lines_advances(toks@, src@, j as int, marker);
        }
        if j >= toks.len() {
            assert(here.0 =~= Seq::<(usize, Seq<ElementNode>)>::empty());
            assert(lines_view(depths@) =~= goal.0);
            break;
        }
        let t = toks[j];
        let has_ws = t.kind == TokenKind::Whitespace;
        let mut d: usize = 0;
        let mut j2: usize = j;
        if has_ws {
            proof {
                assert(crate::token::token_wf(src@, toks@[j as int]));
            }
            d = t.end - t.start;
            j2 = j + 1;
        }
        if !has_ws && t.kind != marker {
            assert(here.0 =~= Seq::<(usize, Seq<ElementNode>)>::empty());
            assert(lines_view(depths@) =~= goal.0);
            break;
        }
        if j2 >= toks.len() || toks[j2].kind != marker {
            if j2 >= toks.len() {
                j = toks.len();
            } else {
                j = j2;
            }
            assert(here.0 =~= Seq::<(usize, Seq<ElementNode>)>::empty());
            assert(lines_view(depths@) =~= goal.0);
            break;
        }
        if j2 + 1 >= toks.len() || toks[j2 + 1].kind != TokenKind::Whitespace {
            if j2 + 1 >= toks.len() {
                j = toks.len();
            } else {
                j = j2 + 1;
            }
            assert(here.0 =~= Seq::<(usize, Seq<ElementNode>)>::empty());
            assert(lines_view(depths@) =~= goal.0);
            break;
        }
        let (els, j5, aborted) = collect_line(toks, src, j2 + 2);
        let ghost old_depths = depths@;
        depths.push((d, els));
        proof {
            assert(lines_view(depths@) =~= lines_view(old_depths) + seq![
                (d, elements_view(els@)),
            ]);
        }
        j = j5;
        if aborted {
            assert(lines_view(depths@) =~= goal.0);
            break;
        }
    }
    if depths.len() == 0 {
        proof {
            assert(goal.0.len() == 0);
        }
        return None;
    }
    let ghost depths_view = depths@;
    let ghost lines_g = lines_view(depths@);
    let end = j;
    let forest = process_depths(depths);
    proof {
        lemma_nest_payload(depths_view);
    }
    let el = build_list_element(forest, ltype);
    proof {
        assert(element_view(el) == (ElementNode::List {
            ltype,
            items: build_items_spec(nest_spec(lines_g), ltype),
        }));
    }
    Some((el, end))
}

/// The bullet-list rule's consume function.
pub fn bullet(toks: &Vec<Token>, src: &Vec<u8>, i: usize) -> (r: Option<(Element, usize)>)
    requires
        crate::token::token_stream_wf(src@, toks@),
        i < toks@.len(),
    ensures
        match r {
            Some(p) => {
                &&& try_list_spec(toks@, src@, i as int, TokenKind::BulletItem, ListType::Bullet)
                    == Some((element_view(p.0), p.1 as int))
                &&& i < p.1 <= toks@.len()
            },
            None => try_list_spec(
                toks@,
                src@,
                i as int,
                TokenKind::BulletItem,
                ListType::Bullet,
            ) is None,
        },
{
    try_parse_list(toks, src, i, TokenKind::BulletItem, ListType::Bullet)
}

/// The numbered-list rule's consume function.
pub fn number(toks: &Vec<Token>, src: &Vec<u8>, i: usize) -> (r: Option<(Element, usize)>)
    requires
        crate::token::token_stream_wf(src@, toks@),
        i < toks@.len(),
    ensures
        match r {
            Some(p) => {
                &&& try_list_spec(
                    toks@,
                    src@,
                    i as int,
                    TokenKind::NumberedItem,
                    ListType::Numbered,
                ) == Some((element_view(p.0), p.1 as int))
                &&& i < p.1 <= toks@.len()
            },
            None => try_list_spec(
                toks@,
                src@,
                i as int,
                TokenKind::NumberedItem,
                ListType::Numbered,
            ) is None,
        },
{
    try_parse_list(toks, src, i, TokenKind::NumberedItem, ListType::Numbered)
}


/// Decide whether a list rule with the given marker is applicable at
/// entry position `i`.
fn applicable(toks: &Vec<Token>, i: usize, marker: TokenKind) -> (r: bool)
    requires
        i < toks@.len(),
    ensures
        r == rule_applicable(toks@, i as int, marker),
{
    let n = toks.len();
    let direct = i + 1 < n && toks[i + 1].kind == marker;
    let after_depth = i + 1 < n && i + 2 < n && toks[i + 1].kind == TokenKind::Whitespace
        && toks[i + 2].kind == marker;
    direct || after_depth
}

/// Parse a well-formed token stream into a document tree and the
/// warnings gathered along the way, by rule dispatch at each position
/// as [`parse_spec`] lays down.
pub fn parse(toks: &Vec<Token>, src: &Vec<u8>) -> (r: (Vec<Element>, Vec<ParseWarning>))
    requires
        crate::token::token_stream_wf(src@, toks@),
    ensures
        elements_view(r.0@) == parse_spec(toks@, src@, 0).0,
        r.1@ == parse_spec(toks@, src@, 0).1,
{
    let ghost goal = parse_spec(toks@, src@, 0);
    let mut els: Vec<Element> = Vec::new();
    let mut warns: Vec<ParseWarning> = Vec::new();
    let mut i: usize = 0;
    proof {
        assert(elements_view(els@) =~= Seq::<ElementNode>::empty());
        assert(goal.0 =~= elements_view(els@) + parse_spec(toks@, src@, 0).0);
        assert(goal.1 =~= warns@ + parse_spec(toks@, src@, 0).1);
    }
    loop
        invariant_except_break
            crate::token::token_stream_wf(src@, toks@),
            0 <= i <= toks@.len(),
            goal == parse_spec(toks@, src@, 0),
            goal.0 == elements_view(els@) + parse_spec(toks@, src@, i as int).0,
            goal.1 == warns@ + parse_spec(toks@, src@, i as int).1,
        ensures
            elements_view(els@) == goal.0,
            warns@ == goal.1,
        decreases toks@.len() - i,
    {
        if i >= toks.len() {
            assert(elements_view(els@) =~= goal.0);
            assert(warns@ =~= goal.1);
            break;
        }
        let ghost here = parse_spec(toks@, src@, i as int);
        let t = toks[i];
        match t.kind {
            TokenKind::InputEnd => {
                assert(elements_view(els@) =~= goal.0);
                assert(warns@ =~= goal.1);
                break;
            },
            TokenKind::InputStart | TokenKind::LineBreak => {
                let ghost entry = parse_entry_spec(toks@, src@, i as int);
                proof {
                    assert(here == entry);
                }
                let is_line_break = t.kind == TokenKind::LineBreak;
                let app_bullet = applicable(toks, i, TokenKind::BulletItem);
                let app_number = applicable(toks, i, TokenKind::NumberedItem);
                if app_bullet || app_number {
                    let attempt = if app_bullet {
                        match get_list_type(TokenKind::BulletItem) {
                            Some(rl) => try_parse_list(toks, src, i, rl.0.marker, rl.1),
                            None => None,
                        }
                    } else {
                        match get_list_type(TokenKind::NumberedItem) {
                            Some(rl) => try_parse_list(toks, src, i, rl.0.marker, rl.1),
                            None => None,
                        }
                    };
                    match attempt {
                        Some((el, j2)) => {
                            let ghost old_els = els@;
                            els.push(el);
                            proof {
                                lemma_elements_view_pointwise(els@);
                                lemma_elements_view_pointwise(old_els);
                                assert(elements_view(els@) =~= elements_view(old_els) + seq![
                                    element_view(el),
                                ]);
                                assert(goal.0 =~= elements_view(els@) + parse_spec(
                                    toks@,
                                    src@,
                                    j2 as int,
                                ).0);
                                assert(goal.1 =~= warns@ + parse_spec(toks@, src@, j2 as int).1);
                            }
                            i = j2;
                        },
                        None => {
                            let w = ParseWarning {
                                kind: ParseWarningKind::RuleFailed,
                                start: t.start,
                                end: t.end,
                            };
                            warns.push(w);
                            let ghost old_els = els@;
                            if is_line_break {
                                els.push(Element::LineBreak);
                                proof {
                                    lemma_elements_view_pointwise(els@);
                                    lemma_elements_view_pointwise(old_els);
                                    assert(elements_view(els@) =~= elements_view(old_els) + seq![
                                        ElementNode::LineBreak,
                                    ]);
                                }
                            }
                            proof {
                                assert(goal.0 =~= elements_view(els@) + parse_spec(
                                    toks@,
                                    src@,
                                    i + 1,
                                ).0);
                                assert(goal.1 =~= warns@ + parse_spec(toks@, src@, i + 1).1);
                            }
                            i = i + 1;
                        },
                    }
                } else {
                    let ghost old_els = els@;
                    if is_line_break {
                        els.push(Element::LineBreak);
                        proof {
                            lemma_elements_view_pointwise(els@);
                            lemma_elements_view_pointwise(old_els);
                            assert(elements_view(els@) =~= elements_view(old_els) + seq![
                                ElementNode::LineBreak,
                            ]);
                        }
                    }
                    proof {
                        assert(goal.0 =~= elements_view(els@) + parse_spec(toks@, src@, i + 1).0);
                        assert(goal.1 =~= warns@ + parse_spec(toks@, src@, i + 1).1);
                    }
                    i = i + 1;
                }
            },
            TokenKind::ParagraphBreak => {
                proof {
                    assert(crate::token::token_wf(src@, toks@[i as int]));
                }
                let ghost old_els = els@;
                els.push(Element::LineBreaks(t.end - t.start));
                proof {
                    lemma_elements_view_pointwise(els@);
                    lemma_elements_view_pointwise(old_els);
                    assert(elements_view(els@) =~= elements_view(old_els) + seq![
                        ElementNode::LineBreaks(((toks@[i as int].end - toks@[i as int].start)
                            as usize)),
                    ]);
                    assert(goal.0 =~= elements_view(els@) + parse_spec(toks@, src@, i + 1).0);
                    assert(goal.1 =~= warns@ + parse_spec(toks@, src@, i + 1).1);
                }
                i = i + 1;
            },
            _ => {
                proof {
                    assert(crate::token::token_wf(src@, toks@[i as int]));
                }
                let slice = crate::token::extract_slice(src, t.start, t.end);
                let ghost old_els = els@;
                els.push(Element::Text(slice));
                proof {
                    lemma_elements_view_pointwise(els@);
                    lemma_elements_view_pointwise(old_els);
                    assert(elements_view(els@) =~= elements_view(old_els) + seq![
                        ElementNode::Text(slice_of(src@, toks@[i as int])),
                    ]);
                    assert(goal.0 =~= elements_view(els@) + parse_spec(toks@, src@, i + 1).0);
                    assert(goal.1 =~= warns@ + parse_spec(toks@, src@, i + 1).1);
                }
                i = i + 1;
            },
        }
    }
    (els, warns)
}

} // verus!
