//! Canonical forms of article URLs: the relative form `/wiki/<Title>` that keys
//! the link graph, and the full form `<base>/wiki/<Title>` used for fetching.
use vstd::prelude::*;

verus! {

/// `s` begins with `p`.
pub open spec fn has_prefix(s: Seq<char>, p: Seq<char>) -> bool {
    p.len() <= s.len() && s.subrange(0, p.len() as int) =~= p
}

pub open spec fn wiki_dir() -> Seq<char> {
    seq!['/', 'w', 'i', 'k', 'i']
}

pub open spec fn wiki_prefix() -> Seq<char> {
    seq!['/', 'w', 'i', 'k', 'i', '/']
}

pub open spec fn slash() -> Seq<char> {
    seq!['/']
}

/// The full form of an article reference.
pub open spec fn full_url(url: Seq<char>, base: Seq<char>) -> Seq<char> {
    if has_prefix(url, base) {
        url
    } else if !has_prefix(url, slash()) {
        base + wiki_prefix() + url
    } else if !has_prefix(url, wiki_prefix()) {
        base + wiki_dir() + url
    } else {
        base + url
    }
}

/// The relative form of an article reference.
pub open spec fn relative_url(url: Seq<char>, base: Seq<char>) -> Seq<char> {
    if has_prefix(url, base + wiki_dir()) {
        url.subrange(base.len() as int, url.len() as int)
    } else if !has_prefix(url, slash()) {
        wiki_prefix() + url
    } else if !has_prefix(url, wiki_prefix()) {
        wiki_prefix() + url.subrange(1, url.len() as int)
    } else {
        url
    }
}

/// Tests whether `s` begins with `p`.
pub fn starts_with(s: &str, p: &str) -> (r: bool)
    ensures
        r == has_prefix(s@, p@),
{
    let n = s.unicode_len();
    let m = p.unicode_len();
    if m > n {
        return false;
    }
    let mut i: usize = 0;
    while i < m
        invariant
            n == s@.len(),
            m == p@.len(),
            m <= n,
            i <= m,
            forall|j: int| 0 <= j < i ==> s@[j] == p@[j],
        decreases m - i,
    {
        if s.get_char(i) != p.get_char(i) {
            assert(s@.subrange(0, m as int)[i as int] != p@[i as int]);
            return false;
        }
        i = i + 1;
    }
    assert(s@.subrange(0, m as int) =~= p@);
    true
}

/// Maps an article reference to its full form under `base_url`.
pub fn to_full_wiki_url(url: &str, base_url: &String) -> (r: String)
    ensures
        r@ == full_url(url@, base_url@),
{
    proof {
        reveal_strlit("/");
        reveal_strlit("/wiki/");
        reveal_strlit("/wiki");
    }
    if starts_with(url, base_url.as_str()) {
        return String::from_str(url);
    }
    let mut r = base_url.clone();
    if !starts_with(url, "/") {
        r.append("/wiki/");
    } else if !starts_with(url, "/wiki/") {
        r.append("/wiki");
    }
    r.append(url);
    proof {
        assert(wiki_prefix() =~= "/wiki/"@);
        assert(wiki_dir() =~= "/wiki"@);
        assert(slash() =~= "/"@);
    }
    r
}

/// Maps an article reference to its relative form `/wiki/<Title>`.
pub fn to_relative_wiki_url(url: &str, base_url: &String) -> (r: String)
    ensures
        r@ == relative_url(url@, base_url@),
{
    proof {
        reveal_strlit("/");
        reveal_strlit("/wiki/");
        reveal_strlit("/wiki");
        assert(wiki_prefix() =~= "/wiki/"@);
        assert(wiki_dir() =~= "/wiki"@);
        assert(slash() =~= "/"@);
    }
    let wiki_url = base_url.clone().concat("/wiki");
    if starts_with(url, wiki_url.as_str()) {
        let b = base_url.unicode_len();
        let n = url.unicode_len();
        String::from_str(url.substring_char(b, n))
    } else if !starts_with(url, "/") {
        String::from_str("/wiki/").concat(url)
    } else if !starts_with(url, "/wiki/") {
        let n = url.unicode_len();
        String::from_str("/wiki/").concat(url.substring_char(1, n))
    } else {
        String::from_str(url)
    }
}

/// Canonicalising through the relative form loses nothing: for a title `t`
/// that neither begins with `/` nor with the base, and a base that does not
/// begin with `/`, each accepted shape of reference (full, `/wiki/t`, `/t`,
/// bare `t`) has the same full form as its relative form.
pub proof fn lemma_canonical_round_trip(t: Seq<char>, base: Seq<char>)
    requires
        base.len() > 0,
        base[0] != '/',
        !has_prefix(t, slash()),
        !has_prefix(t, base),
    ensures
        full_url(relative_url(base + wiki_prefix() + t, base), base)
            == full_url(base + wiki_prefix() + t, base),
        full_url(relative_url(wiki_prefix() + t, base), base)
            == full_url(wiki_prefix() + t, base),
        full_url(relative_url(slash() + t, base), base)
            == full_url(slash() + t, base),
        full_url(relative_url(t, base), base) == full_url(t, base),
{
    let wp = wiki_prefix();
    let full = base + wp + t;
    assert(full.subrange(0, base.len() as int) =~= base);
    assert(full.subrange(0, (base + wiki_dir()).len() as int) =~= base + wiki_dir());
    assert(full.subrange(base.len() as int, full.len() as int) =~= wp + t);
    let rel = wp + t;
    assert(rel.subrange(0, 1) =~= slash());
    assert(rel.subrange(0, 6) =~= wp);
    assert(!has_prefix(rel, base)) by {
        if has_prefix(rel, base) {
            assert(rel.subrange(0, base.len() as int)[0] == base[0]);
        }
    }
    assert(!has_prefix(rel, base + wiki_dir())) by {
        if has_prefix(rel, base + wiki_dir()) {
            assert(rel.subrange(0, (base + wiki_dir()).len() as int)[0] == base[0]);
        }
    }
    let st = slash() + t;
    assert(st.subrange(0, 1) =~= slash());
    assert(!has_prefix(st, base)) by {
        if has_prefix(st, base) {
            assert(st.subrange(0, base.len() as int)[0] == base[0]);
        }
    }
    assert(!has_prefix(st, base + wiki_dir())) by {
        if has_prefix(st, base + wiki_dir()) {
            assert(st.subrange(0, (base + wiki_dir()).len() as int)[0] == base[0]);
        }
    }
    assert(st.subrange(1, st.len() as int) =~= t);
    assert(wiki_dir() + st =~= wp + t);
    if has_prefix(st, wp) {
        assert(st =~= wp + st.subrange(6, st.len() as int));
    }
    assert(!has_prefix(t, base + wiki_dir())) by {
        if has_prefix(t, base + wiki_dir()) {
            assert(t.subrange(0, base.len() as int) =~= (base + wiki_dir()).subrange(0, base.len() as int));
        }
    }
}

} // verus!
