//! URL handling for the renderers: deciding whether a target is already
//! absolute, and joining relative targets to the site's base URL with
//! exactly one separating slash.

use vstd::prelude::*;

verus! {

/// The slash byte, `/`.
pub const SLASH: u8 = 47;

/// Whether `s` starts with `prefix`.
pub open spec fn starts_with_spec(s: Seq<u8>, prefix: Seq<u8>) -> bool {
    s.len() >= prefix.len() && s.subrange(0, prefix.len() as int) == prefix
}

/// Whether a target is already an absolute URL: it carries one of the
/// recognized scheme prefixes.
pub open spec fn is_url_spec(s: Seq<u8>) -> bool {
    ||| starts_with_spec(s, "http://"@.map_values(|c: char| c as u8))
    ||| starts_with_spec(s, "https://"@.map_values(|c: char| c as u8))
    ||| starts_with_spec(s, "ftp://"@.map_values(|c: char| c as u8))
}

/// Whether `s` ends with a slash.
pub open spec fn ends_slash(s: Seq<u8>) -> bool {
    s.len() > 0 && s[s.len() - 1] == SLASH
}

/// Whether `s` starts with a slash.
pub open spec fn starts_slash(s: Seq<u8>) -> bool {
    s.len() > 0 && s[0] == SLASH
}

/// The join of a base URL and a relative path with exactly one
/// separating slash: a duplicate slash is dropped, a missing one is
/// added.
pub open spec fn join_spec(base: Seq<u8>, path: Seq<u8>) -> Seq<u8> {
    if ends_slash(base) && starts_slash(path) {
        base.subrange(0, base.len() - 1) + path
    } else if !ends_slash(base) && !starts_slash(path) {
        base + seq![SLASH] + path
    } else {
        base + path
    }
}

/// Joining normalizes slash duplication: for a base with no trailing
/// slash and a path with no leading slash, every way of sprinkling one
/// optional slash on either side joins to the same single-slash result.
pub proof fn lemma_join_normalizes(base: Seq<u8>, path: Seq<u8>)
    requires
        !ends_slash(base),
        !starts_slash(path),
    ensures
        join_spec(base, path) == base + seq![SLASH] + path,
        join_spec(base + seq![SLASH], path) == base + seq![SLASH] + path,
        join_spec(base, seq![SLASH] + path) == base + seq![SLASH] + path,
        join_spec(base + seq![SLASH], seq![SLASH] + path) == base + seq![SLASH] + path,
{
    assert((base + seq![SLASH]).subrange(0, base.len() as int) =~= base);
    assert(join_spec(base + seq![SLASH], path) =~= base + seq![SLASH] + path);
    assert(join_spec(base, seq![SLASH] + path) =~= base + seq![SLASH] + path);
    assert(join_spec(base + seq![SLASH], seq![SLASH] + path) =~= base + seq![SLASH] + path);
}

/// Decide whether `s` starts with the given prefix bytes.
fn starts_with_bytes(s: &Vec<u8>, prefix: &[u8]) -> (r: bool)
    ensures
        r <==> starts_with_spec(s@, prefix@),
{
    if s.len() < prefix.len() {
        assert(!starts_with_spec(s@, prefix@));
        return false;
    }
    let mut i: usize = 0;
    while i < prefix.len()
        invariant
            0 <= i <= prefix@.len() <= s@.len(),
            forall|j: int| 0 <= j < i ==> s@[j] == prefix@[j],
        decreases prefix@.len() - i,
    {
        if s[i] != prefix[i] {
            assert(s@.subrange(0, prefix@.len() as int) !~= prefix@);
            return false;
        }
        i = i + 1;
    }
    assert(s@.subrange(0, prefix@.len() as int) =~= prefix@);
    true
}

/// Decide whether a target is already an absolute URL.
pub fn is_url(s: &Vec<u8>) -> (r: bool)
    ensures
        r <==> is_url_spec(s@),
{
    let http = starts_with_bytes(s, &[104, 116, 116, 112, 58, 47, 47]);
    let https = starts_with_bytes(s, &[104, 116, 116, 112, 115, 58, 47, 47]);
    let ftp = starts_with_bytes(s, &[102, 116, 112, 58, 47, 47]);
    proof {
        assert("http://"@.map_values(|c: char| c as u8) =~= seq![
            104u8, 116, 116, 112, 58, 47, 47,
        ]) by {
            reveal_strlit("http://");
        }
        assert("https://"@.map_values(|c: char| c as u8) =~= seq![
            104u8, 116, 116, 112, 115, 58, 47, 47,
        ]) by {
            reveal_strlit("https://");
        }
        assert("ftp://"@.map_values(|c: char| c as u8) =~= seq![102u8, 116, 112, 58, 47, 47])
            by {
            reveal_strlit("ftp://");
        }
    }
    http || https || ftp
}

/// Join a relative path to the site base with exactly one separating
/// slash, stripping or adding one as needed.
pub fn join_url(base: &Vec<u8>, path: &Vec<u8>) -> (r: Vec<u8>)
    ensures
        r@ == join_spec(base@, path@),
{
    let mut r: Vec<u8> = Vec::new();
    let base_ends = base.len() > 0 && base[base.len() - 1] == SLASH;
    let path_starts = path.len() > 0 && path[0] == SLASH;
    let base_take: usize = if base_ends && path_starts {
        base.len() - 1
    } else {
        base.len()
    };
    let mut i: usize = 0;
    while i < base_take
        invariant
            0 <= i <= base_take <= base@.len(),
            r@ =~= base@.subrange(0, i as int),
        decreases base_take - i,
    {
        r.push(base[i]);
        i = i + 1;
    }
    if !base_ends && !path_starts {
        r.push(SLASH);
    }
    let mut j: usize = 0;
    let ghost mid = r@;
    while j < path.len()
        invariant
            0 <= j <= path@.len(),
            r@ =~= mid + path@.subrange(0, j as int),
        decreases path@.len() - j,
    {
        r.push(path[j]);
        j = j + 1;
    }
    assert(r@ =~= join_spec(base@, path@));
    r
}

/// The URL a render target resolves to: an absolute target passes
/// through unchanged, a relative one is joined to the site base.
pub open spec fn full_url_spec(url: Seq<u8>, base: Seq<u8>) -> Seq<u8> {
    if is_url_spec(url) {
        url
    } else {
        join_spec(base, url)
    }
}

/// Resolve a render target against the site base URL.
pub fn get_full_url(url: &Vec<u8>, base: &Vec<u8>) -> (r: Vec<u8>)
    ensures
        r@ == full_url_spec(url@, base@),
{
    if is_url(url) {
        let mut r: Vec<u8> = Vec::new();
        let mut i: usize = 0;
        while i < url.len()
            invariant
                0 <= i <= url@.len(),
                r@ =~= url@.subrange(0, i as int),
            decreases url@.len() - i,
        {
            r.push(url[i]);
            i = i + 1;
        }
        assert(r@ =~= url@);
        r
    } else {
        join_url(base, url)
    }
}

} // verus!
