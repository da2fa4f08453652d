//! What an explorer does with one fetched page: record every link as an edge
//! from the page and report the links that were not yet nodes.
use crate::graph::{endpoints, lemma_one_node_per_url, url_seq, LinksGraph};
use crate::wiki::{relative_url, to_relative_wiki_url};
use vstd::prelude::*;

verus! {

/// The elements of `s` that are not in `known`, in order.
pub open spec fn unseen_of(s: Seq<Seq<char>>, known: Seq<Seq<char>>) -> Seq<Seq<char>>
    decreases s.len(),
{
    if s.len() == 0 {
        s
    } else if known.contains(s.last()) {
        unseen_of(s.drop_last(), known)
    } else {
        unseen_of(s.drop_last(), known).push(s.last())
    }
}

/// The edges that a page at `page` with links `links` contributes.
pub open spec fn page_edges(page: Seq<char>, links: Seq<Seq<char>>) -> Seq<(Seq<char>, Seq<char>)> {
    links.map_values(|l: Seq<char>| (page, l))
}

/// Records the links found on the page at `page_url`: one edge from the
/// page's relative URL to each link, in order, whether or not the link was
/// already known. Returns the links that were not nodes before the call.
pub fn record_page(
    graph: &mut LinksGraph,
    page_url: &str,
    base_url: &String,
    page_links: &Vec<String>,
) -> (r: Vec<String>)
    requires
        old(graph).wf(),
        old(graph).nodes().len() + 2 * page_links.len() <= usize::MAX,
    ensures
        final(graph).wf(),
        url_seq(r@) == unseen_of(url_seq(page_links@), old(graph).nodes()),
        final(graph).edges() == old(graph).edges() + page_edges(
            relative_url(page_url@, base_url@),
            url_seq(page_links@),
        ),
        old(graph).nodes().is_prefix_of(final(graph).nodes()),
        forall|i: int|
            0 <= i < r@.len() ==> !old(graph).nodes().contains(#[trigger] r@[i]@)
                && final(graph).nodes().contains(r@[i]@),
{
    let ghost links = url_seq(page_links@);
    let mut fresh: Vec<String> = Vec::new();
    let mut i: usize = 0;
    while i < page_links.len()
        invariant
            i <= page_links.len(),
            graph.wf(),
            links == url_seq(page_links@),
            url_seq(fresh@) == unseen_of(links.subrange(0, i as int), graph.nodes()),
        decreases page_links.len() - i,
    {
        proof {
            assert(links.subrange(0, i + 1).drop_last() =~= links.subrange(0, i as int));
            assert(links.subrange(0, i + 1).last() == page_links@[i as int]@);
        }
        if !graph.node_exists(&page_links[i]) {
            let ghost prev = fresh@;
            fresh.push(page_links[i].clone());
            proof {
                assert(url_seq(fresh@) =~= url_seq(prev).push(page_links@[i as int]@)) by {
                    assert(url_seq(fresh@).len() == url_seq(prev).len() + 1);
                }
            }
        }
        i = i + 1;
    }
    assert(links.subrange(0, page_links.len() as int) =~= links);
    let rel = to_relative_wiki_url(page_url, base_url);
    let ghost start = *graph;
    let mut k: usize = 0;
    while k < page_links.len()
        invariant
            k <= page_links.len(),
            graph.wf(),
            links == url_seq(page_links@),
            start.nodes().len() + 2 * page_links.len() <= usize::MAX,
            graph.nodes().len() <= start.nodes().len() + 2 * k,
            start.nodes().is_prefix_of(graph.nodes()),
            graph.edges() == start.edges() + page_edges(rel@, links.subrange(0, k as int)),
        decreases page_links.len() - k,
    {
        let ghost before = *graph;
        graph.add_edge(&rel, &page_links[k]);
        proof {
            assert(page_edges(rel@, links.subrange(0, k + 1)) =~= page_edges(
                rel@,
                links.subrange(0, k as int),
            ).push((rel@, page_links@[k as int]@)));
            assert(graph.edges() =~= start.edges() + page_edges(rel@, links.subrange(0, k + 1)));
            assert(start.nodes().is_prefix_of(graph.nodes())) by {
                assert forall|j: int| 0 <= j < start.nodes().len() implies graph.nodes()[j]
                    == start.nodes()[j] by {
                    assert(before.nodes()[j] == start.nodes()[j]);
                }
            }
        }
        k = k + 1;
    }
    assert(links.subrange(0, page_links.len() as int) =~= links);
    proof {
        lemma_unseen_of(links, start.nodes());
        lemma_one_node_per_url(graph);
        assert forall|i: int| 0 <= i < fresh@.len() implies !start.nodes().contains(
            #[trigger] fresh@[i]@,
        ) && graph.nodes().contains(fresh@[i]@) by {
            assert(url_seq(fresh@)[i] == fresh@[i]@);
            let j = choose|j: int| 0 <= j < links.len() && links[j] == fresh@[i]@;
            let k = start.edges().len() + j;
            assert(graph.edges()[k] == (rel@, links[j]));
            assert(endpoints(graph.edges()).contains(links[j]));
            assert(graph.nodes().to_set().contains(links[j]));
        }
    }
    fresh
}

proof fn lemma_unseen_of(s: Seq<Seq<char>>, known: Seq<Seq<char>>)
    ensures
        forall|i: int|
            0 <= i < unseen_of(s, known).len() ==> !known.contains(#[trigger] unseen_of(s, known)[i])
                && s.contains(unseen_of(s, known)[i]),
    decreases s.len(),
{
    if s.len() > 0 {
        let p = s.drop_last();
        lemma_unseen_of(p, known);
        assert forall|i: int| 0 <= i < unseen_of(s, known).len() implies !known.contains(
            #[trigger] unseen_of(s, known)[i],
        ) && s.contains(unseen_of(s, known)[i]) by {
            if i < unseen_of(p, known).len() {
                assert(unseen_of(s, known)[i] == unseen_of(p, known)[i]);
                let j = choose|j: int| 0 <= j < p.len() && p[j] == unseen_of(p, known)[i];
                assert(s[j] == p[j]);
            } else {
                assert(s[s.len() - 1] == unseen_of(s, known)[i]);
            }
        }
    }
}

} // verus!
