//! The transclusion resolver: a pre-pass that expands transclusion
//! directives before the text is compiled.
//!
//! A directive embeds another page by reference and is written
//! `{{page-name}}`.  For each directive in document order the fetched
//! page text (the host fetches; this module only substitutes) is
//! inlined on success; on failure or a missing page the fallback
//! template is substituted instead, with every `%%page%%` placeholder
//! filled with the reference, and no error propagates.  The returned
//! reference list keeps first occurrences only, while every occurrence
//! in the source is expanded independently.

use vstd::prelude::*;

verus! {

/// The opening-brace byte, `{`.
pub const OPEN_BRACE: u8 = 123;

/// The closing-brace byte, `}`.
pub const CLOSE_BRACE: u8 = 125;

/// The position of the first `}}` pair at or after `j`, if any.
pub open spec fn close_pos(t: Seq<u8>, j: int) -> Option<int>
    decreases t.len() - j,
{
    if j < 0 || j + 2 > t.len() {
        None
    } else if t[j] == CLOSE_BRACE && t[j + 1] == CLOSE_BRACE {
        Some(j)
    } else {
        close_pos(t, j + 1)
    }
}

/// A found closing pair lies between the search start and the end of
/// the text.
pub proof fn lemma_close_pos_bounds(t: Seq<u8>, j: int)
    requires
        0 <= j,
        close_pos(t, j) is Some,
    ensures
        j <= close_pos(t, j)->0,
        close_pos(t, j)->0 + 2 <= t.len(),
    decreases t.len() - j,
{
    if j + 2 <= t.len() && !(t[j] == CLOSE_BRACE && t[j + 1] == CLOSE_BRACE) {
        lemma_close_pos_bounds(t, j + 1);
    }
}

/// Whether a transclusion directive starts at position `i`: an `{{`
/// pair with a closing `}}` pair somewhere after it.
pub open spec fn directive_at(t: Seq<u8>, i: int) -> bool {
    &&& 0 <= i
    &&& i + 2 <= t.len()
    &&& t[i] == OPEN_BRACE
    &&& t[i + 1] == OPEN_BRACE
    &&& close_pos(t, i + 2) is Some
}

/// The fallback template with every `%%page%%` placeholder replaced by
/// the page reference.
pub open spec fn fill_template_spec(tpl: Seq<u8>, i: int, name: Seq<u8>) -> Seq<u8>
    decreases tpl.len() - i,
{
    if i < 0 || i >= tpl.len() {
        Seq::empty()
    } else if i + 8 <= tpl.len() && tpl.subrange(i, i + 8) == placeholder() {
        name + fill_template_spec(tpl, i + 8, name)
    } else {
        seq![tpl[i]] + fill_template_spec(tpl, i + 1, name)
    }
}

/// The placeholder bytes, `%%page%%`.
pub open spec fn placeholder() -> Seq<u8> {
    seq![37u8, 37, 112, 97, 103, 101, 37, 37]
}

/// The page references named by the directives from position `i` on,
/// in document order, every occurrence kept.
pub open spec fn refs_from(t: Seq<u8>, i: int) -> Seq<Seq<u8>>
    decreases t.len() - i,
    via refs_from_decreases
{
    if i < 0 || i >= t.len() {
        Seq::empty()
    } else if directive_at(t, i) {
        let k = close_pos(t, i + 2)->0;
        seq![t.subrange(i + 2, k)] + refs_from(t, k + 2)
    } else {
        refs_from(t, i + 1)
    }
}

#[via_fn]
proof fn refs_from_decreases(t: Seq<u8>, i: int) {
    if 0 <= i < t.len() && directive_at(t, i) {
        lemma_close_pos_bounds(t, i + 2);
    }
}

/// The expansion of the text from position `i` on, given the fetch
/// outcome of each remaining directive in order: a fetched page is
/// inlined, a failed or missing one becomes the filled template, and
/// every other byte is copied.
pub open spec fn expand_from(
    t: Seq<u8>,
    i: int,
    results: Seq<Option<Seq<u8>>>,
    ridx: int,
    tpl: Seq<u8>,
) -> Seq<u8>
    decreases t.len() - i,
    via expand_from_decreases
{
    if i < 0 || i >= t.len() {
        Seq::empty()
    } else if directive_at(t, i) {
        let k = close_pos(t, i + 2)->0;
        let name = t.subrange(i + 2, k);
        let inlined = if 0 <= ridx < results.len() && results[ridx] is Some {
            results[ridx]->0
        } else {
            fill_template_spec(tpl, 0, name)
        };
        inlined + expand_from(t, k + 2, results, ridx + 1, tpl)
    } else {
        seq![t[i]] + expand_from(t, i + 1, results, ridx, tpl)
    }
}

#[via_fn]
proof fn expand_from_decreases(
    t: Seq<u8>,
    i: int,
    results: Seq<Option<Seq<u8>>>,
    ridx: int,
    tpl: Seq<u8>,
) {
    if 0 <= i < t.len() && directive_at(t, i) {
        lemma_close_pos_bounds(t, i + 2);
    }
}

/// First occurrences of the references from position `i` on, in
/// order: a reference equal to an earlier one is dropped.
pub open spec fn dedup_from(s: Seq<Seq<u8>>, i: int) -> Seq<Seq<u8>>
    decreases s.len() - i,
{
    if i < 0 || i >= s.len() {
        Seq::empty()
    } else if exists|j: int| 0 <= j < i && s[j] == s[i] {
        dedup_from(s, i + 1)
    } else {
        seq![s[i]] + dedup_from(s, i + 1)
    }
}

/// Deduplication keeps exactly the set of references, each once: the
/// result has no repeated entry, and an entry stands in it exactly
/// when it stands somewhere in the input.
pub proof fn lemma_dedup_unique(s: Seq<Seq<u8>>)
    ensures
        forall|a: int, b: int|
            0 <= a < b < dedup_from(s, 0).len() ==> dedup_from(s, 0)[a] != dedup_from(s, 0)[b],
        forall|x: Seq<u8>| #[trigger] dedup_from(s, 0).contains(x) <==> s.contains(x),
{
    lemma_dedup_from_unique(s, 0);
    assert forall|x: Seq<u8>| #[trigger] dedup_from(s, 0).contains(x) <==> s.contains(x) by {
        lemma_dedup_from_contains(s, 0);
        if s.contains(x) {
            let w = choose|w: int| 0 <= w < s.len() && s[w] == x;
            lemma_dedup_from_covers(s, 0, w);
        }
    }
}

/// Entries of the deduplicated list come from the input's tail.
proof fn lemma_dedup_from_contains(s: Seq<Seq<u8>>, i: int)
    requires
        0 <= i,
    ensures
        forall|x: Seq<u8>| #[trigger] dedup_from(s, i).contains(x) ==> s.contains(x),
    decreases s.len() - i,
{
    if i < s.len() {
        lemma_dedup_from_contains(s, i + 1);
        assert forall|x: Seq<u8>| #[trigger] dedup_from(s, i).contains(x) implies s.contains(
            x,
        ) by {
            if dedup_from(s, i).contains(x) {
                if !(exists|j: int| 0 <= j < i && s[j] == s[i]) && x == s[i] {
                    assert(s.contains(s[i]));
                } else {
                    let d = dedup_from(s, i);
                    let w = choose|w: int| 0 <= w < d.len() && d[w] == x;
                    if !(exists|j: int| 0 <= j < i && s[j] == s[i]) {
                        if w == 0 {
                            assert(s.contains(s[i]));
                        } else {
                            assert(dedup_from(s, i + 1).contains(x));
                        }
                    } else {
                        assert(dedup_from(s, i + 1).contains(x));
                    }
                }
            }
        }
    }
}

/// Every reference is represented in the deduplicated list: walking
/// from a position no earlier duplicate precedes, the entry is found.
proof fn lemma_dedup_from_covers(s: Seq<Seq<u8>>, i: int, w: int)
    requires
        0 <= i <= w < s.len(),
        forall|j: int| 0 <= j < i ==> s[j] != s[w],
    ensures
        dedup_from(s, i).contains(s[w]),
    decreases w - i,
{
    if exists|j: int| 0 <= j < i && s[j] == s[i] {
        let j = choose|j: int| 0 <= j < i && s[j] == s[i];
        assert(s[i] != s[w]);
        lemma_dedup_from_covers(s, i + 1, w);
    } else {
        if s[i] == s[w] {
            assert(dedup_from(s, i)[0] == s[i]);
        } else {
            lemma_dedup_from_covers(s, i + 1, w);
            let d1 = dedup_from(s, i + 1);
            let k = choose|k: int| 0 <= k < d1.len() && d1[k] == s[w];
            assert(dedup_from(s, i)[k + 1] == s[w]);
        }
    }
}

/// The deduplicated tail never repeats an entry, and never repeats an
/// entry that occurred before the scan position either.
proof fn lemma_dedup_from_unique(s: Seq<Seq<u8>>, i: int)
    requires
        0 <= i,
    ensures
        forall|a: int, b: int|
            0 <= a < b < dedup_from(s, i).len() ==> dedup_from(s, i)[a] != dedup_from(s, i)[b],
        forall|x: Seq<u8>|
            (exists|j: int| 0 <= j < i && s[j] == x) ==> !dedup_from(s, i).contains(x),
    decreases s.len() - i,
{
    if i < s.len() {
        lemma_dedup_from_unique(s, i + 1);
        assert forall|x: Seq<u8>|
            (exists|j: int| 0 <= j < i && s[j] == x) implies !dedup_from(s, i).contains(x) by {
            if exists|j: int| 0 <= j < i && s[j] == x {
                if !(exists|j: int| 0 <= j < i && s[j] == s[i]) {
                    if x != s[i] {
                        if dedup_from(s, i).contains(x) {
                            let d = dedup_from(s, i);
                            let w = choose|w: int| 0 <= w < d.len() && d[w] == x;
                            assert(dedup_from(s, i + 1).contains(x));
                        }
                    }
                } else {
                    if dedup_from(s, i).contains(x) {
                        assert(dedup_from(s, i + 1).contains(x));
                    }
                }
            }
        }
        assert forall|a: int, b: int|
            0 <= a < b < dedup_from(s, i).len() implies dedup_from(s, i)[a] != dedup_from(
            s,
            i,
        )[b] by {
            if !(exists|j: int| 0 <= j < i && s[j] == s[i]) {
                let d = dedup_from(s, i);
                if a == 0 {
                    if d[b] == s[i] {
                        assert(dedup_from(s, i + 1).contains(s[i]));
                        assert(exists|j: int| 0 <= j < i + 1 && s[j] == s[i]);
                    }
                }
            }
        }
    }
}


/// The mathematical image of a list of byte strings.
pub open spec fn refs_view(v: Seq<Vec<u8>>) -> Seq<Seq<u8>> {
    Seq::new(v.len(), |i: int| v[i]@)
}

/// The mathematical image of a list of fetch outcomes.
pub open spec fn results_view(v: Seq<Option<Vec<u8>>>) -> Seq<Option<Seq<u8>>> {
    Seq::new(
        v.len(),
        |i: int|
            match v[i] {
                Option::None => Option::<Seq<u8>>::None,
                Option::Some(c) => Option::Some(c@),
            },
    )
}

/// The first page-table row matching a reference, if any.
pub open spec fn page_lookup_spec(rows: Seq<(Seq<u8>, Seq<u8>)>, name: Seq<u8>) -> Option<Seq<u8>>
    decreases rows.len(),
{
    if rows.len() == 0 {
        None
    } else if rows[0].0 == name {
        Some(rows[0].1)
    } else {
        page_lookup_spec(rows.subrange(1, rows.len() as int), name)
    }
}

/// The mathematical image of a page table.
pub open spec fn pages_view(pages: Seq<(Vec<u8>, Vec<u8>)>) -> Seq<(Seq<u8>, Seq<u8>)> {
    Seq::new(pages.len(), |i: int| (pages[i].0@, pages[i].1@))
}

/// The fetch outcome of every directive of the text, in order, when a
/// page table stands for the host.
pub open spec fn fetch_table_spec(t: Seq<u8>, pages: Seq<(Seq<u8>, Seq<u8>)>) -> Seq<
    Option<Seq<u8>>,
> {
    Seq::new(refs_from(t, 0).len(), |i: int| page_lookup_spec(pages, refs_from(t, 0)[i]))
}

/// Find the first `}}` pair at or after `j`.
fn find_close(t: &Vec<u8>, j: usize) -> (r: Option<usize>)
    requires
        j <= t@.len(),
    ensures
        match r {
            Some(k) => close_pos(t@, j as int) == Some(k as int) && j <= k && k + 2 <= t@.len(),
            None => close_pos(t@, j as int) is None,
        },
{
    let mut p: usize = j;
    loop
        invariant_except_break
            j <= p <= t@.len(),
            close_pos(t@, j as int) == close_pos(t@, p as int),
        ensures
            j <= p <= t@.len(),
            match close_pos(t@, j as int) {
                Some(k) => p == k && p + 2 <= t@.len(),
                None => p + 2 > t@.len(),
            },
        decreases t@.len() - p,
    {
        if t.len() - p < 2 {
            break;
        }
        if t[p] == CLOSE_BRACE && t[p + 1] == CLOSE_BRACE {
            break;
        }
        p = p + 1;
    }
    if t.len() - p >= 2 {
        Some(p)
    } else {
        None
    }
}

/// Whether the `%%page%%` placeholder stands at position `i` of the
/// template.
fn placeholder_at(tpl: &Vec<u8>, i: usize) -> (r: bool)
    requires
        i <= tpl@.len(),
    ensures
        r == (i + 8 <= tpl@.len() && tpl@.subrange(i as int, i + 8) == placeholder()),
{
    if tpl.len() - i < 8 {
        return false;
    }
    let hit = tpl[i] == 37 && tpl[i + 1] == 37 && tpl[i + 2] == 112 && tpl[i + 3] == 97 && tpl[i
        + 4] == 103 && tpl[i + 5] == 101 && tpl[i + 6] == 37 && tpl[i + 7] == 37;
    proof {
        if hit {
            assert(tpl@.subrange(i as int, i + 8) =~= placeholder());
        } else {
            assert(tpl@.subrange(i as int, i + 8) !~= placeholder());
        }
    }
    hit
}

/// Fill the fallback template for one reference: every `%%page%%`
/// placeholder becomes the reference.
pub fn fill_template(tpl: &Vec<u8>, name: &Vec<u8>) -> (r: Vec<u8>)
    ensures
        r@ == fill_template_spec(tpl@, 0, name@),
{
    let mut out: Vec<u8> = Vec::new();
    let mut i: usize = 0;
    proof {
        assert(Seq::<u8>::empty() + fill_template_spec(tpl@, 0, name@) =~= fill_template_spec(
            tpl@,
            0,
            name@,
        ));
    }
    while i < tpl.len()
        invariant
            0 <= i <= tpl@.len(),
            fill_template_spec(tpl@, 0, name@) == out@ + fill_template_spec(
                tpl@,
                i as int,
                name@,
            ),
        decreases tpl@.len() - i,
    {
        if placeholder_at(tpl, i) {
            let ghost old_out = out@;
            let mut copied = crate::tree::copy_bytes(name);
            out.append(&mut copied);
            i = i + 8;
        } else {
            out.push(tpl[i]);
            i = i + 1;
        }
    }
    out
}

/// Scan the text for transclusion directives, returning the page
/// references in document order, every occurrence kept.
pub fn scan_references(text: &Vec<u8>) -> (r: Vec<Vec<u8>>)
    ensures
        refs_view(r@) == refs_from(text@, 0),
{
    let mut refs: Vec<Vec<u8>> = Vec::new();
    let mut i: usize = 0;
    proof {
        assert(refs_view(refs@) =~= Seq::<Seq<u8>>::empty());
        assert(refs_from(text@, 0) =~= refs_view(refs@) + refs_from(text@, 0));
    }
    while i < text.len()
        invariant
            0 <= i <= text@.len(),
            refs_from(text@, 0) == refs_view(refs@) + refs_from(text@, i as int),
        decreases text@.len() - i,
    {
        let mut advanced = false;
        if text.len() - i >= 2 && text[i] == OPEN_BRACE && text[i + 1] == OPEN_BRACE {
            match find_close(text, i + 2) {
                Some(k) => {
                    let ghost old_refs = refs@;
                    let name = crate::token::extract_slice(text, i + 2, k);
                    refs.push(name);
                    proof {
                        assert(refs_view(refs@) =~= refs_view(old_refs) + seq![
                            text@.subrange(i + 2, k as int),
                        ]);
                        assert(refs_from(text@, 0) =~= refs_view(refs@) + refs_from(
                            text@,
                            k + 2,
                        ));
                    }
                    i = k + 2;
                    advanced = true;
                },
                None => {},
            }
        }
        if !advanced {
            assert(!directive_at(text@, i as int));
            i = i + 1;
        }
    }
    refs
}

/// Whether a byte string stands in a list of byte strings.
fn contains_ref(v: &Vec<Vec<u8>>, x: &Vec<u8>) -> (r: bool)
    ensures
        r == refs_view(v@).contains(x@),
{
    let mut i: usize = 0;
    while i < v.len()
        invariant
            0 <= i <= v@.len(),
            forall|j: int| 0 <= j < i ==> refs_view(v@)[j] != x@,
        decreases v@.len() - i,
    {
        if crate::tree::bytes_eq(&v[i], x) {
            assert(refs_view(v@)[i as int] == x@);
            return true;
        }
        i = i + 1;
    }
    assert(!refs_view(v@).contains(x@));
    false
}

/// Keep the first occurrence of each reference, in order.
fn dedup_refs(refs: &Vec<Vec<u8>>) -> (r: Vec<Vec<u8>>)
    ensures
        refs_view(r@) == dedup_from(refs_view(refs@), 0),
{
    let ghost s = refs_view(refs@);
    let mut out: Vec<Vec<u8>> = Vec::new();
    let mut i: usize = 0;
    proof {
        assert(refs_view(out@) =~= Seq::<Seq<u8>>::empty());
        assert(dedup_from(s, 0) =~= refs_view(out@) + dedup_from(s, 0));
    }
    while i < refs.len()
        invariant
            0 <= i <= refs@.len(),
            s == refs_view(refs@),
            dedup_from(s, 0) == refs_view(out@) + dedup_from(s, i as int),
            forall|x: Seq<u8>|
                #[trigger] refs_view(out@).contains(x) <==> exists|j: int|
                    0 <= j < i && s[j] == x,
        decreases refs@.len() - i,
    {
        let seen = contains_ref(&out, &refs[i]);
        if !seen {
            let ghost old_out = out@;
            let copied = crate::tree::copy_bytes(&refs[i]);
            out.push(copied);
            proof {
                assert(refs_view(out@) =~= refs_view(old_out) + seq![s[i as int]]);
                assert(!(exists|j: int| 0 <= j < i && s[j] == s[i as int]));
                assert(dedup_from(s, i as int) == seq![s[i as int]] + dedup_from(s, i + 1));
                assert(dedup_from(s, 0) =~= refs_view(out@) + dedup_from(s, i + 1));
                assert forall|x: Seq<u8>| #[trigger] refs_view(out@).contains(x) implies (
                exists|j: int| 0 <= j < i + 1 && s[j] == x) by {
                    if refs_view(out@).contains(x) {
                        let w = choose|w: int|
                            0 <= w < refs_view(out@).len() && refs_view(out@)[w] == x;
                        if w < refs_view(old_out).len() {
                            assert(refs_view(old_out).contains(x));
                        } else {
                            assert(x == s[i as int]);
                        }
                    }
                }
                assert forall|x: Seq<u8>| (exists|j: int| 0 <= j < i + 1 && s[j] == x) implies
                    #[trigger] refs_view(out@).contains(x) by {
                    let j = choose|j: int| 0 <= j < i + 1 && s[j] == x;
                    if j < i {
                        assert(refs_view(old_out).contains(x));
                        let w = choose|w: int|
                            0 <= w < refs_view(old_out).len() && refs_view(old_out)[w] == x;
                        assert(refs_view(out@)[w] == x);
                    } else {
                        assert(refs_view(out@)[refs_view(out@).len() - 1] == x);
                    }
                }
            }
        } else {
            proof {
                assert(exists|j: int| 0 <= j < i && s[j] == s[i as int]);
                assert(dedup_from(s, i as int) == dedup_from(s, i + 1));
                assert forall|x: Seq<u8>| (exists|j: int| 0 <= j < i + 1 && s[j] == x) implies
                    #[trigger] refs_view(out@).contains(x) by {
                    let j = choose|j: int| 0 <= j < i + 1 && s[j] == x;
                    if j == i {
                        assert(x == s[i as int]);
                    }
                }
            }
        }
        i = i + 1;
    }
    proof {
        assert(dedup_from(s, s.len() as int) =~= Seq::<Seq<u8>>::empty());
        assert(refs_view(out@) =~= dedup_from(s, 0));
    }
    out
}

/// Substitute the fetch outcomes into the text: each directive in
/// document order is replaced by its fetched page, or by the filled
/// fallback template when the fetch failed, and the deduplicated
/// reference list is returned beside the expanded text.
pub fn substitute(text: &Vec<u8>, results: &Vec<Option<Vec<u8>>>, template: &Vec<u8>) -> (r: (
    Vec<u8>,
    Vec<Vec<u8>>,
))
    ensures
        r.0@ == expand_from(text@, 0, results_view(results@), 0, template@),
        refs_view(r.1@) == dedup_from(refs_from(text@, 0), 0),
{
    let ghost rs = results_view(results@);
    let mut out: Vec<u8> = Vec::new();
    let mut refs: Vec<Vec<u8>> = Vec::new();
    let mut i: usize = 0;
    let mut ridx: usize = 0;
    proof {
        assert(refs_view(refs@) =~= Seq::<Seq<u8>>::empty());
        assert(expand_from(text@, 0, rs, 0, template@) =~= out@ + expand_from(
            text@,
            0,
            rs,
            0,
            template@,
        ));
        assert(refs_from(text@, 0) =~= refs_view(refs@) + refs_from(text@, 0));
    }
    while i < text.len()
        invariant
            0 <= i <= text@.len(),
            0 <= ridx <= i,
            rs == results_view(results@),
            expand_from(text@, 0, rs, 0, template@) == out@ + expand_from(
                text@,
                i as int,
                rs,
                ridx as int,
                template@,
            ),
            refs_from(text@, 0) == refs_view(refs@) + refs_from(text@, i as int),
        decreases text@.len() - i,
    {
        let mut advanced = false;
        if text.len() - i >= 2 && text[i] == OPEN_BRACE && text[i + 1] == OPEN_BRACE {
            match find_close(text, i + 2) {
                Some(k) => {
                    let ghost old_refs = refs@;
                    let name = crate::token::extract_slice(text, i + 2, k);
                    let mut inlined: Vec<u8> = if ridx < results.len() {
                        match &results[ridx] {
                            Some(content) => crate::tree::copy_bytes(content),
                            None => fill_template(template, &name),
                        }
                    } else {
                        fill_template(template, &name)
                    };
                    out.append(&mut inlined);
                    refs.push(name);
                    proof {
                        assert(refs_view(refs@) =~= refs_view(old_refs) + seq![
                            text@.subrange(i + 2, k as int),
                        ]);
                        assert(refs_from(text@, 0) =~= refs_view(refs@) + refs_from(
                            text@,
                            k + 2,
                        ));
                        assert(expand_from(text@, 0, rs, 0, template@) =~= out@ + expand_from(
                            text@,
                            k + 2,
                            rs,
                            ridx + 1,
                            template@,
                        ));
                    }
                    i = k + 2;
                    ridx = ridx + 1;
                    advanced = true;
                },
                None => {},
            }
        }
        if !advanced {
            assert(!directive_at(text@, i as int));
            out.push(text[i]);
            proof {
                assert(expand_from(text@, 0, rs, 0, template@) =~= out@ + expand_from(
                    text@,
                    i + 1,
                    rs,
                    ridx as int,
                    template@,
                ));
            }
            i = i + 1;
        }
    }
    let unique = dedup_refs(&refs);
    proof {
        assert(refs_from(text@, text@.len() as int) =~= Seq::<Seq<u8>>::empty());
        assert(refs_view(refs@) =~= refs_from(text@, 0));
    }
    (out, unique)
}

/// Look a reference up in a page table standing for the host: the
/// first row carrying the reference, if any.
fn page_lookup(pages: &Vec<(Vec<u8>, Vec<u8>)>, name: &Vec<u8>) -> (r: Option<Vec<u8>>)
    ensures
        match r {
            Some(c) => page_lookup_spec(pages_view(pages@), name@) == Some(c@),
            None => page_lookup_spec(pages_view(pages@), name@) is None,
        },
{
    let ghost rows = pages_view(pages@);
    assert(rows.subrange(0, rows.len() as int) =~= rows);
    let mut i: usize = 0;
    while i < pages.len()
        invariant
            0 <= i <= pages@.len(),
            rows == pages_view(pages@),
            rows.len() == pages@.len(),
            page_lookup_spec(rows, name@) == page_lookup_spec(
                rows.subrange(i as int, rows.len() as int),
                name@,
            ),
        decreases pages@.len() - i,
    {
        let ghost tail = rows.subrange(i as int, rows.len() as int);
        if crate::tree::bytes_eq(&pages[i].0, name) {
            return Some(crate::tree::copy_bytes(&pages[i].1));
        }
        assert(tail.subrange(1, tail.len() as int) =~= rows.subrange(i + 1, rows.len() as int));
        i = i + 1;
    }
    None
}

/// Expand every transclusion directive of the text against a page
/// table standing for the host: each occurrence is resolved
/// independently, a missing page becomes the filled fallback template,
/// and the deduplicated reference list is returned beside the text.
pub fn expand_with_pages(text: &Vec<u8>, pages: &Vec<(Vec<u8>, Vec<u8>)>, template: &Vec<u8>)
    -> (r: (Vec<u8>, Vec<Vec<u8>>))
    ensures
        r.0@ == expand_from(text@, 0, fetch_table_spec(text@, pages_view(pages@)), 0, template@),
        refs_view(r.1@) == dedup_from(refs_from(text@, 0), 0),
{
    let refs = scan_references(text);
    let mut results: Vec<Option<Vec<u8>>> = Vec::new();
    let ghost goal_rs = fetch_table_spec(text@, pages_view(pages@));
    let mut i: usize = 0;
    while i < refs.len()
        invariant
            0 <= i <= refs@.len(),
            refs_view(refs@) == refs_from(text@, 0),
            goal_rs == fetch_table_spec(text@, pages_view(pages@)),
            results@.len() == i,
            results_view(results@) =~= goal_rs.subrange(0, i as int),
        decreases refs@.len() - i,
    {
        let ghost old_results = results@;
        let fetched = page_lookup(pages, &refs[i]);
        results.push(fetched);
        proof {
            assert(results_view(results@) =~= goal_rs.subrange(0, i + 1));
        }
        i = i + 1;
    }
    proof {
        assert(results_view(results@) =~= goal_rs);
    }
    let r = substitute(text, &results, template);
    r
}

} // verus!
