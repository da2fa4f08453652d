//! Link extraction from an article page: the anchors that point at main
//! namespace articles, in document order, with consecutive repeats removed.
use crate::graph::url_seq;
use crate::wiki::{has_prefix, starts_with, wiki_prefix};
use scraper::{Html, Selector};
use vstd::prelude::*;

verus! {

/// The `href` of each anchor of an HTML document whose `href` begins with
/// `/wiki/`, in document order.
pub uninterp spec fn wiki_anchor_hrefs(page: Seq<char>) -> Seq<Seq<char>>;

/// Relies on scraper: `Html::parse_document`, then `select` with the selector
/// `a[href^='/wiki/']`, reading each match's `href` attribute. The selector is
/// a valid literal, so `Selector::parse` does not fail.
#[verifier::external_body]
fn anchor_hrefs(page: &str) -> (r: Vec<String>)
    ensures
        url_seq(r@) == wiki_anchor_hrefs(page@),
{
    let doc = Html::parse_document(page);
    let selector = Selector::parse("a[href^='/wiki/']").unwrap();
    doc.select(&selector).filter_map(|a| a.value().attr("href")).map(|h| h.to_string()).collect()
}

/// A link to a main namespace article: it begins with `/wiki/` and holds no `:`.
pub open spec fn is_article_link(l: Seq<char>) -> bool {
    has_prefix(l, wiki_prefix()) && !l.contains(':')
}

/// The article links among `s`, in order.
pub open spec fn article_links_of(s: Seq<Seq<char>>) -> Seq<Seq<char>>
    decreases s.len(),
{
    if s.len() == 0 {
        s
    } else if is_article_link(s.last()) {
        article_links_of(s.drop_last()).push(s.last())
    } else {
        article_links_of(s.drop_last())
    }
}

/// `s` with every run of equal neighbours cut to its first element.
pub open spec fn dedup_of(s: Seq<Seq<char>>) -> Seq<Seq<char>>
    decreases s.len(),
{
    if s.len() <= 1 {
        s
    } else if s.last() == s[s.len() - 2] {
        dedup_of(s.drop_last())
    } else {
        dedup_of(s.drop_last()).push(s.last())
    }
}

proof fn lemma_article_links_kept(s: Seq<Seq<char>>)
    ensures
        forall|i: int|
            0 <= i < article_links_of(s).len() ==> is_article_link(#[trigger] article_links_of(s)[i]),
    decreases s.len(),
{
    if s.len() > 0 {
        let p = s.drop_last();
        lemma_article_links_kept(p);
        assert forall|i: int| 0 <= i < article_links_of(s).len() implies is_article_link(
            #[trigger] article_links_of(s)[i],
        ) by {
            if i < article_links_of(p).len() {
                assert(article_links_of(s)[i] == article_links_of(p)[i]);
            }
        }
    }
}

proof fn lemma_dedup_from(s: Seq<Seq<char>>)
    ensures
        forall|i: int| 0 <= i < dedup_of(s).len() ==> s.contains(#[trigger] dedup_of(s)[i]),
    decreases s.len(),
{
    if s.len() > 1 {
        let p = s.drop_last();
        lemma_dedup_from(p);
        assert forall|i: int| 0 <= i < dedup_of(s).len() implies s.contains(
            #[trigger] dedup_of(s)[i],
        ) by {
            if i < dedup_of(p).len() {
                assert(dedup_of(s)[i] == dedup_of(p)[i]);
                let j = choose|j: int| 0 <= j < p.len() && p[j] == dedup_of(p)[i];
                assert(s[j] == p[j]);
            } else {
                assert(s[s.len() - 1] == dedup_of(s)[i]);
            }
        }
    } else {
        assert forall|i: int| 0 <= i < dedup_of(s).len() implies s.contains(
            #[trigger] dedup_of(s)[i],
        ) by {
            assert(s[i] == dedup_of(s)[i]);
        }
    }
}

/// Whether `s` holds a `:`.
pub fn has_colon(s: &str) -> (r: bool)
    ensures
        r == s@.contains(':'),
{
    let n = s.unicode_len();
    let mut i: usize = 0;
    while i < n
        invariant
            n == s@.len(),
            i <= n,
            forall|j: int| 0 <= j < i ==> s@[j] != ':',
        decreases n - i,
    {
        if s.get_char(i) == ':' {
            return true;
        }
        i = i + 1;
    }
    false
}

/// Keeps the links that point at main namespace articles.
pub fn article_links(hrefs: Vec<String>) -> (r: Vec<String>)
    ensures
        url_seq(r@) == article_links_of(url_seq(hrefs@)),
{
    proof {
        reveal_strlit("/wiki/");
        assert(wiki_prefix() =~= "/wiki/"@);
    }
    let mut out: Vec<String> = Vec::new();
    let mut i: usize = 0;
    while i < hrefs.len()
        invariant
            i <= hrefs.len(),
            wiki_prefix() == "/wiki/"@,
            url_seq(out@) == article_links_of(url_seq(hrefs@).subrange(0, i as int)),
        decreases hrefs.len() - i,
    {
        let h = &hrefs[i];
        let keep = starts_with(h.as_str(), "/wiki/") && !has_colon(h.as_str());
        proof {
            let s = url_seq(hrefs@).subrange(0, i + 1);
            assert(s.drop_last() =~= url_seq(hrefs@).subrange(0, i as int));
            assert(s.last() == h@);
        }
        if keep {
            let ghost prev = out@;
            out.push(h.clone());
            proof {
                assert(url_seq(out@) =~= url_seq(prev).push(h@)) by {
                    assert(url_seq(out@).len() == url_seq(prev).len() + 1);
                };
            }
        }
        i = i + 1;
    }
    assert(url_seq(hrefs@).subrange(0, hrefs.len() as int) =~= url_seq(hrefs@));
    out
}

/// Removes consecutive repeats.
pub fn dedup_links(v: Vec<String>) -> (r: Vec<String>)
    ensures
        url_seq(r@) == dedup_of(url_seq(v@)),
{
    let mut out: Vec<String> = Vec::new();
    let mut i: usize = 0;
    while i < v.len()
        invariant
            i <= v.len(),
            url_seq(out@) == dedup_of(url_seq(v@).subrange(0, i as int)),
        decreases v.len() - i,
    {
        let ghost s = url_seq(v@).subrange(0, i + 1);
        proof {
            assert(s.drop_last() =~= url_seq(v@).subrange(0, i as int));
        }
        if i == 0 || v[i] != v[i - 1] {
            let ghost prev = out@;
            out.push(v[i].clone());
            proof {
                assert(url_seq(out@) =~= url_seq(prev).push(v@[i as int]@)) by {
                    assert(url_seq(out@).len() == url_seq(prev).len() + 1);
                };
            }
        }
        i = i + 1;
    }
    assert(url_seq(v@).subrange(0, v.len() as int) =~= url_seq(v@));
    out
}

/// The article links of an HTML page, as anchors give them.
pub fn parse_page(page_content: &str) -> (r: Vec<String>)
    ensures
        url_seq(r@) == article_links_of(wiki_anchor_hrefs(page_content@)),
        forall|i: int| 0 <= i < r@.len() ==> is_article_link(#[trigger] r@[i]@),
{
    let r = article_links(anchor_hrefs(page_content));
    proof {
        lemma_article_links_kept(wiki_anchor_hrefs(page_content@));
        assert forall|i: int| 0 <= i < r@.len() implies is_article_link(#[trigger] r@[i]@) by {
            assert(url_seq(r@)[i] == r@[i]@);
        }
    }
    r
}

/// The links that a fetched page contributes: its article links with
/// consecutive repeats removed.
pub fn links_from_page(page_content: &str) -> (r: Vec<String>)
    ensures
        url_seq(r@) == dedup_of(article_links_of(wiki_anchor_hrefs(page_content@))),
        forall|i: int| 0 <= i < r@.len() ==> is_article_link(#[trigger] r@[i]@),
{
    let p = parse_page(page_content);
    let r = dedup_links(p);
    proof {
        lemma_dedup_from(url_seq(p@));
        assert forall|i: int| 0 <= i < r@.len() implies is_article_link(#[trigger] r@[i]@) by {
            assert(url_seq(r@)[i] == r@[i]@);
            let j = choose|j: int| 0 <= j < url_seq(p@).len() && url_seq(p@)[j] == r@[i]@;
            assert(url_seq(p@)[j] == p@[j]@);
        }
    }
    r
}

} // verus!
