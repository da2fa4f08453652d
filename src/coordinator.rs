//! The coordinator's decisions: the frontier of full URLs to fetch next, how a
//! round splits it among workers, and what each event from a worker means for
//! the search. Running the workers is left to the caller.
use crate::graph::url_seq;
use crate::wiki::{full_url, relative_url, starts_with, to_full_wiki_url, to_relative_wiki_url};
use itertools::Itertools;
use rand::seq::SliceRandom;
use vstd::prelude::*;

verus! {

/// What one search is asked to do.
pub struct GameArgs {
    /// Start page.
    pub start: String,
    /// Target page.
    pub target: String,
    /// Base wiki URL, such as `https://en.wikipedia.org`.
    pub base_url: String,
    /// Number of parallel workers.
    pub workers: u8,
}

/// Links newly discovered by one worker, in relative form.
pub struct LinksFoundContent {
    pub links: Vec<String>,
}

/// A message from a worker to the coordinator.
pub enum CoordinatorMessage {
    Links(LinksFoundContent),
}

/// What the coordinator does after an event.
#[derive(Debug, Clone, Copy, PartialEq, Eq, Structural)]
pub enum Step {
    /// Start the next round.
    Continue,
    /// The target has been seen: stop and compute the path.
    Found,
    /// Nothing is left to fetch and the target was never seen.
    Exhausted,
}

/// Number of times `t` occurs in `s`.
pub open spec fn count_of(s: Seq<Seq<char>>, t: Seq<char>) -> nat
    decreases s.len(),
{
    if s.len() == 0 {
        0
    } else {
        count_of(s.drop_last(), t) + if s.last() == t {
            1nat
        } else {
            0nat
        }
    }
}

/// Each reference of `s` in its full form.
pub open spec fn full_urls(s: Seq<Seq<char>>, base: Seq<char>) -> Seq<Seq<char>> {
    s.map_values(|u: Seq<char>| full_url(u, base))
}

/// The elements of the chunks, in order.
pub open spec fn chunks_flat(cs: Seq<Vec<String>>) -> Seq<String> {
    cs.map_values(|c: Vec<String>| c@).flatten()
}

/// `cs` cuts `v` into consecutive chunks of `size` elements, the last of
/// which may be shorter but is never empty.
pub open spec fn is_chunking(cs: Seq<Vec<String>>, v: Seq<String>, size: nat) -> bool {
    &&& chunks_flat(cs) == v
    &&& forall|i: int| 0 <= i < cs.len() ==> 0 < #[trigger] cs[i]@.len() <= size
    &&& forall|i: int| 0 <= i < cs.len() - 1 ==> #[trigger] cs[i]@.len() == size
}

/// Relies on rand's `SliceRandom::shuffle` with `thread_rng`: the order that
/// comes out is random, the elements are those that went in.
#[verifier::external_body]
fn shuffle_links(v: &mut Vec<String>)
    ensures
        final(v)@.to_multiset() == old(v)@.to_multiset(),
{
    v.shuffle(&mut rand::thread_rng());
}

/// Relies on itertools' `Itertools::chunks`: consecutive chunks of `size`
/// elements, the last one possibly shorter; it panics only on a zero size.
#[verifier::external_body]
fn chunk_links(v: Vec<String>, size: usize) -> (r: Vec<Vec<String>>)
    requires
        size > 0,
    ensures
        is_chunking(r@, v@, size as nat),
{
    let chunks = v.into_iter().chunks(size);
    let r: Vec<Vec<String>> = chunks.into_iter().map(|c| c.collect()).collect();
    r
}

/// Whether `page` is the target page.
pub fn is_target_page(page: &str, target: &str) -> (r: bool)
    ensures
        r == (page@ == target@),
{
    let same = page.unicode_len() == target.unicode_len() && starts_with(page, target);
    proof {
        if same {
            assert(page@ =~= page@.subrange(0, target@.len() as int));
        }
    }
    same
}

/// Whether the search stops: the target has been seen at least once.
pub fn break_condition(found: u8, _ga: &GameArgs) -> (r: bool)
    ensures
        r == (found >= 1),
{
    found >= 1
}

/// Whether start and target are the same article, so that no fetch is needed.
pub fn immediate_match(ga: &GameArgs) -> (r: bool)
    ensures
        r == (relative_url(ga.start@, ga.base_url@) == relative_url(ga.target@, ga.base_url@)),
{
    let s = to_relative_wiki_url(ga.start.as_str(), &ga.base_url);
    let t = to_relative_wiki_url(ga.target.as_str(), &ga.base_url);
    is_target_page(s.as_str(), t.as_str())
}

/// Number of times `target` occurs among `links`.
pub fn count_target(links: &Vec<String>, target: &str) -> (r: usize)
    ensures
        r == count_of(url_seq(links@), target@),
{
    let mut n: usize = 0;
    let mut i: usize = 0;
    while i < links.len()
        invariant
            i <= links.len(),
            n <= i,
            n == count_of(url_seq(links@).subrange(0, i as int), target@),
        decreases links.len() - i,
    {
        proof {
            let s = url_seq(links@).subrange(0, i + 1);
            assert(s.drop_last() =~= url_seq(links@).subrange(0, i as int));
            assert(s.last() == links@[i as int]@);
        }
        if is_target_page(links[i].as_str(), target) {
            n = n + 1;
        }
        i = i + 1;
    }
    assert(url_seq(links@).subrange(0, links.len() as int) =~= url_seq(links@));
    n
}

proof fn lemma_full_chunks_len(cs: Seq<Seq<String>>, size: nat)
    requires
        forall|i: int| 0 <= i < cs.len() ==> #[trigger] cs[i].len() == size,
    ensures
        cs.flatten().len() == cs.len() * size,
    decreases cs.len(),
{
    if cs.len() > 0 {
        let p = cs.drop_last();
        lemma_full_chunks_len(p, size);
        p.lemma_flatten_push(cs.last());
        assert(p.push(cs.last()) =~= cs);
        assert(cs.last().len() == size);
        assert(cs.len() * size == p.len() * size + size) by (nonlinear_arith)
            requires
                cs.len() == p.len() + 1,
        ;
    }
}

/// A chunking with chunks of `n / w + 1` elements has at most `w` chunks.
proof fn lemma_chunk_count(cs: Seq<Vec<String>>, v: Seq<String>, w: nat)
    requires
        w >= 1,
        is_chunking(cs, v, v.len() / w + 1),
    ensures
        cs.len() <= w,
{
    if cs.len() > 0 {
        let size = v.len() / w + 1;
        let vs = cs.map_values(|c: Vec<String>| c@);
        let p = vs.drop_last();
        assert forall|i: int| 0 <= i < p.len() implies #[trigger] p[i].len() == size by {
            assert(p[i] == cs[i]@);
        }
        lemma_full_chunks_len(p, size);
        p.lemma_flatten_push(vs.last());
        assert(p.push(vs.last()) =~= vs);
        assert(vs.last().len() > 0);
        let c = cs.len();
        let n = v.len();
        assert(n >= (c - 1) * size + 1);
        assert(c <= w) by (nonlinear_arith)
            requires
                n >= (c - 1) * size + 1,
                size == n / w + 1,
                w >= 1,
                c >= 1,
        {
            if c > w {
                assert((c - 1) * size >= w * size);
                assert(w * (n / w) + w > n);
            }
        }
    }
}

/// The state of the search between events.
pub struct Coordinator {
    /// Full URLs to fetch in the next round.
    pub frontier: Vec<String>,
    /// How many times the target has been seen.
    pub found: u8,
    /// How many workers have finished.
    pub dead: u64,
    /// How many rounds have been started.
    pub round: u64,
}

impl Coordinator {
    /// The state before the first round: only the start page to fetch.
    pub fn new(ga: &GameArgs) -> (c: Coordinator)
        ensures
            url_seq(c.frontier@) == seq![full_url(ga.start@, ga.base_url@)],
            c.found == 0,
            c.dead == 0,
            c.round == 0,
    {
        let mut frontier: Vec<String> = Vec::new();
        frontier.push(to_full_wiki_url(ga.start.as_str(), &ga.base_url));
        proof {
            assert(url_seq(frontier@) =~= seq![full_url(ga.start@, ga.base_url@)]);
        }
        Coordinator { frontier, found: 0, dead: 0, round: 0 }
    }

    /// Starts a round: takes the whole frontier, shuffles it, puts each
    /// reference in full form and cuts the result into at most `workers`
    /// chunks of `len / workers + 1` references.
    pub fn plan_round(&mut self, ga: &GameArgs) -> (r: Vec<Vec<String>>)
        requires
            ga.workers >= 1,
            old(self).frontier@.len() < usize::MAX,
        ensures
            final(self).frontier@.len() == 0,
            final(self).found == old(self).found,
            final(self).dead == old(self).dead,
            final(self).round == if old(self).round < u64::MAX {
                old(self).round + 1
            } else {
                old(self).round as int
            },
            r@.len() <= ga.workers,
            exists|p: Seq<String>|
                {
                    &&& #[trigger] p.to_multiset() == old(self).frontier@.to_multiset()
                    &&& is_chunking(
                        r@,
                        chunks_flat(r@),
                        (p.len() / (ga.workers as nat) + 1) as nat,
                    )
                    &&& url_seq(chunks_flat(r@)) == full_urls(url_seq(p), ga.base_url@)
                },
    {
        let mut links: Vec<String> = Vec::new();
        std::mem::swap(&mut links, &mut self.frontier);
        let ghost taken = links@;
        shuffle_links(&mut links);
        let ghost p = links@;
        proof {
            taken.to_multiset_ensures();
            p.to_multiset_ensures();
        }
        let mut full: Vec<String> = Vec::new();
        let mut i: usize = 0;
        while i < links.len()
            invariant
                i <= links.len(),
                full@.len() == i,
                forall|j: int|
                    0 <= j < i ==> #[trigger] full@[j]@ == full_url(links@[j]@, ga.base_url@),
            decreases links.len() - i,
        {
            full.push(to_full_wiki_url(links[i].as_str(), &ga.base_url));
            i = i + 1;
        }
        let size = links.len() / (ga.workers as usize) + 1;
        let ghost fv = full@;
        let r = chunk_links(full, size);
        proof {
            assert(url_seq(fv) =~= full_urls(url_seq(p), ga.base_url@));
            lemma_chunk_count(r@, fv, ga.workers as nat);
            assert(p.to_multiset() == taken.to_multiset());
        }
        if self.round < u64::MAX {
            self.round = self.round + 1;
        }
        r
    }

    /// A worker reported `msg`: count the sightings of the target; stop if it
    /// has been seen, else add the links to the frontier.
    pub fn on_message(&mut self, msg: CoordinatorMessage, target_rel: &str, ga: &GameArgs) -> (r:
        Step)
        ensures
            ({
                let CoordinatorMessage::Links(content) = msg;
                let seen = old(self).found + count_of(url_seq(content.links@), target_rel@);
                &&& final(self).found == if seen <= 255 {
                    seen
                } else {
                    255
                }
                &&& final(self).dead == old(self).dead
                &&& final(self).round == old(self).round
                &&& r == (if final(self).found >= 1 {
                    Step::Found
                } else {
                    Step::Continue
                })
                &&& final(self).frontier@ == if r == Step::Found {
                    old(self).frontier@
                } else {
                    old(self).frontier@ + content.links@
                }
            }),
    {
        let CoordinatorMessage::Links(content) = msg;
        let mut links = content.links;
        let n = count_target(&links, target_rel);
        if n > (255 - self.found) as usize {
            self.found = 255;
        } else {
            self.found = self.found + n as u8;
        }
        if break_condition(self.found, ga) {
            return Step::Found;
        }
        self.frontier.append(&mut links);
        Step::Continue
    }

    /// A worker finished: stop if the target has been seen, or if nothing is
    /// left to fetch.
    pub fn on_worker_done(&mut self, ga: &GameArgs) -> (r: Step)
        ensures
            final(self).found == old(self).found,
            final(self).frontier == old(self).frontier,
            final(self).round == old(self).round,
            final(self).dead == if old(self).dead < u64::MAX {
                old(self).dead + 1
            } else {
                old(self).dead as int
            },
            r == if old(self).found >= 1 {
                Step::Found
            } else if old(self).frontier@.len() == 0 {
                Step::Exhausted
            } else {
                Step::Continue
            },
    {
        if self.dead < u64::MAX {
            self.dead = self.dead + 1;
        }
        if break_condition(self.found, ga) {
            Step::Found
        } else if self.frontier.len() == 0 {
            Step::Exhausted
        } else {
            Step::Continue
        }
    }
}

} // verus!
