//! The decisions of a multi-threaded crawler that maps the pages of one
//! domain. Fetching pages, waiting on the work queue and running the worker
//! threads is I/O; the state they share and every choice they make is here.
use crate::links::{
    domain_of, element_links, extract_links_from_element, get_orig_domain, normalize_spec,
    normalize_url,
};
use crate::text::{list_has, same_text, texts};
use vstd::prelude::*;

verus! {

/// Why a crawl cannot start.
#[derive(Debug, Clone, PartialEq, Eq)]
pub enum CrawlError {
    /// The starting URL does not parse or has no host.
    InvalidUrl { url: String },
}

/// What a worker does with a link taken from the work queue.
#[derive(Debug, Clone, Copy, PartialEq, Eq)]
pub enum LinkDecision {
    /// The site map is full: the worker stops.
    Stop,
    /// The link's page was processed already, or could not be fetched.
    Skip,
    /// Fetch the page and record its links.
    Fetch,
}

/// The state of a crawl, mathematically.
pub struct CrawlerView {
    pub start_from: Seq<char>,
    pub domain: Seq<char>,
    pub max_links: nat,
    pub max_wait_time_s: nat,
    pub max_concurrency: nat,
    /// The links discovered so far, each once.
    pub site_map: Seq<Seq<char>>,
    /// The pages processed so far, each once.
    pub visited: Seq<Seq<char>>,
    /// The links whose page could not be fetched, each once.
    pub failed: Seq<Seq<char>>,
}

impl CrawlerView {
    /// No link is recorded twice, every discovered link is on the domain, and
    /// no link whose page could not be fetched stays in the site map.
    pub open spec fn well_formed(self) -> bool {
        &&& self.site_map.no_duplicates()
        &&& self.visited.no_duplicates()
        &&& self.failed.no_duplicates()
        &&& forall|i: int|
            0 <= i < self.site_map.len() ==> domain_of(#[trigger] self.site_map[i]) == Some(
                self.domain,
            )
        &&& forall|i: int|
            0 <= i < self.site_map.len() ==> !self.failed.contains(#[trigger] self.site_map[i])
    }

    /// The same crawl settings.
    pub open spec fn same_settings(self, other: CrawlerView) -> bool {
        &&& self.start_from == other.start_from
        &&& self.domain == other.domain
        &&& self.max_links == other.max_links
        &&& self.max_wait_time_s == other.max_wait_time_s
        &&& self.max_concurrency == other.max_concurrency
    }
}

/// A link whose page could not be fetched is not in the site map, in every
/// state the crawl's operations reach.
pub proof fn lemma_failed_link_not_mapped(c: CrawlerView, link: Seq<char>)
    requires
        c.well_formed(),
        c.failed.contains(link),
    ensures
        !c.site_map.contains(link),
{
    if c.site_map.contains(link) {
        let i: int = choose|i: int| 0 <= i < c.site_map.len() && c.site_map[i] == link;
        assert(!c.failed.contains(c.site_map[i]));
    }
}

/// A link found on a page, as the crawl records it: normalized (without
/// fragment and query) and kept where the normalized URL is on `domain`.
pub open spec fn recorded_link(domain: Seq<char>, link: Seq<char>) -> Option<Seq<char>> {
    match normalize_spec(link) {
        Some(n) => if domain_of(n) == Some(domain) {
            Some(n)
        } else {
            None
        },
        None => None,
    }
}

/// The recorded forms of a set of links.
pub open spec fn recorded_links(domain: Seq<char>, links: Set<Seq<char>>) -> Set<Seq<char>> {
    Set::new(|n: Seq<char>| exists|l: Seq<char>| links.contains(l) && recorded_link(domain, l) == Some(n))
}

/// The links a page yields: those of its `a` elements' `href` and of its
/// `iframe` elements' `src` that resolve to the crawl's domain, as recorded.
pub open spec fn discovered_on_page(html: Seq<char>, page: Seq<char>, domain: Seq<char>) -> Set<
    Seq<char>,
> {
    recorded_links(
        domain,
        element_links(html, page, domain, "a"@, "href"@).to_set() + element_links(
            html,
            page,
            domain,
            "iframe"@,
            "src"@,
        ).to_set(),
    )
}

/// The distinct recorded forms of `links`.
fn normalize_links(domain: &str, links: &Vec<String>) -> (r: Vec<String>)
    ensures
        texts(r@).no_duplicates(),
        texts(r@).to_set() == recorded_links(domain@, texts(links@).to_set()),
        forall|k: int| 0 <= k < texts(r@).len() ==> domain_of(#[trigger] texts(r@)[k]) == Some(domain@),
{
    let mut out: Vec<String> = Vec::new();
    let mut i: usize = 0;
    proof {
        assert(texts(out@).to_set() =~= recorded_links(domain@, texts(links@).take(0).to_set()));
    }
    while i < links.len()
        invariant
            i <= links@.len(),
            texts(out@).no_duplicates(),
            texts(out@).to_set() == recorded_links(domain@, texts(links@).take(i as int).to_set()),
            forall|k: int| 0 <= k < texts(out@).len() ==> domain_of(#[trigger] texts(out@)[k]) == Some(domain@),
        decreases links@.len() - i,
    {
        let ghost l: Seq<char> = links@[i as int]@;
        let ghost before: Seq<Seq<char>> = texts(out@);
        let ghost prefix: Set<Seq<char>> = texts(links@).take(i as int).to_set();
        proof {
            assert(texts(links@)[i as int] == l);
            assert(texts(links@).take(i + 1) =~= texts(links@).take(i as int).push(l));
            texts(links@).take(i as int).lemma_push_to_set_commute(l);
        }
        let mut added: bool = false;
        match normalize_url(links[i].as_str()) {
            Some(n) => match get_orig_domain(n.as_str()) {
                Some(d) => if same_text(d.as_str(), domain) {
                    if !list_has(&out, n.as_str()) {
                        out.push(n);
                        added = true;
                    }
                },
                None => {},
            },
            None => {},
        }
        proof {
            if added {
                let n: Seq<char> = texts(out@).last();
                assert(texts(out@) =~= before.push(n));
                before.lemma_push_to_set_commute(n);
            } else {
                assert(texts(out@) == before);
            }
            assert(texts(out@).to_set() =~= recorded_links(domain@, prefix.insert(l))) by {
                assert forall|x: Seq<char>| recorded_links(domain@, prefix.insert(l)).contains(x)
                    implies texts(out@).to_set().contains(x) by {
                    let y: Seq<char> = choose|y: Seq<char>| prefix.insert(l).contains(y) && recorded_link(domain@, y) == Some(x);
                    if y != l {
                        assert(recorded_links(domain@, prefix).contains(x));
                    }
                }
                assert forall|x: Seq<char>| texts(out@).to_set().contains(x)
                    implies recorded_links(domain@, prefix.insert(l)).contains(x) by {
                    if before.to_set().contains(x) {
                        let y: Seq<char> = choose|y: Seq<char>| prefix.contains(y) && recorded_link(domain@, y) == Some(x);
                        assert(prefix.insert(l).contains(y));
                    } else {
                        assert(prefix.insert(l).contains(l));
                    }
                }
            }
            assert forall|a: int, b: int| 0 <= a < b < texts(out@).len() implies texts(out@)[a] != texts(out@)[b] by {
                if added && b == before.len() {
                    assert(before.contains(before[a]));
                }
            }
        }
        i += 1;
    }
    proof {
        assert(texts(links@).take(links@.len() as int) =~= texts(links@));
    }
    out
}

/// The shared state of a crawl: its settings, the site map, the pages
/// already processed and the links that could not be fetched.
///
/// The three collections are vectors that hold each link once. They stand in
/// for concurrent hash sets of strings, whose contents the verifier cannot
/// see; the workers share the whole crawler behind one lock instead.
pub struct ThreadCrawler {
    start_from: String,
    domain: String,
    max_links: usize,
    max_wait_time_s: u64,
    max_concurrency: u64,
    site_map: Vec<String>,
    visited: Vec<String>,
    failed: Vec<String>,
}

impl View for ThreadCrawler {
    type V = CrawlerView;

    closed spec fn view(&self) -> CrawlerView {
        CrawlerView {
            start_from: self.start_from@,
            domain: self.domain@,
            max_links: self.max_links as nat,
            max_wait_time_s: self.max_wait_time_s as nat,
            max_concurrency: self.max_concurrency as nat,
            site_map: texts(self.site_map@),
            visited: texts(self.visited@),
            failed: texts(self.failed@),
        }
    }
}

/// Adds to `into` the links of `from` that it lacks.
fn merge_distinct(into: &mut Vec<String>, from: Vec<String>)
    requires
        texts(old(into)@).no_duplicates(),
    ensures
        texts(final(into)@).no_duplicates(),
        texts(final(into)@).to_set() == texts(old(into)@).to_set() + texts(from@).to_set(),
{
    let ghost start: Seq<Seq<char>> = texts(into@);
    let mut i: usize = 0;
    while i < from.len()
        invariant
            i <= from@.len(),
            texts(into@).no_duplicates(),
            texts(into@).to_set() == start.to_set() + texts(from@).take(i as int).to_set(),
        decreases from@.len() - i,
    {
        let ghost before: Seq<Seq<char>> = texts(into@);
        proof {
            assert(texts(from@).take(i + 1) =~= texts(from@).take(i as int).push(from@[i as int]@));
            texts(from@).take(i as int).lemma_push_to_set_commute(from@[i as int]@);
        }
        if !list_has(into, from[i].as_str()) {
            into.push(from[i].clone());
            proof {
                assert(texts(into@) =~= before.push(from@[i as int]@));
                before.lemma_push_to_set_commute(from@[i as int]@);
            }
        } else {
            proof {
                assert(before.to_set().insert(from@[i as int]@) =~= before.to_set());
            }
        }
        i += 1;
    }
    proof {
        assert(texts(from@).take(from@.len() as int) =~= texts(from@));
    }
}

/// The entries of `v` other than `link`, in order.
fn without_text(v: &Vec<String>, link: &str) -> (r: Vec<String>)
    requires
        texts(v@).no_duplicates(),
    ensures
        texts(r@).no_duplicates(),
        texts(r@).to_set() == texts(v@).to_set().remove(link@),
        forall|k: int| 0 <= k < texts(r@).len() ==> texts(v@).contains(#[trigger] texts(r@)[k]),
{
    let mut out: Vec<String> = Vec::new();
    let mut i: usize = 0;
    proof {
        assert(texts(out@).to_set() =~= texts(v@).take(0).to_set().remove(link@));
    }
    while i < v.len()
        invariant
            i <= v@.len(),
            texts(v@).no_duplicates(),
            texts(out@).no_duplicates(),
            texts(out@).to_set() == texts(v@).take(i as int).to_set().remove(link@),
            forall|k: int|
                0 <= k < texts(out@).len() ==> texts(v@).take(i as int).contains(
                    #[trigger] texts(out@)[k],
                ),
        decreases v@.len() - i,
    {
        let ghost x: Seq<char> = v@[i as int]@;
        let ghost before: Seq<Seq<char>> = texts(out@);
        let ghost prefix: Seq<Seq<char>> = texts(v@).take(i as int);
        proof {
            assert(texts(v@)[i as int] == x);
            assert(texts(v@).take(i + 1) =~= prefix.push(x));
            prefix.lemma_push_to_set_commute(x);
            assert forall|k: int| 0 <= k < before.len() implies texts(v@).take(i + 1).contains(
                #[trigger] before[k],
            ) by {
                let j: int = choose|j: int| 0 <= j < prefix.len() && prefix[j] == before[k];
                assert(texts(v@).take(i + 1)[j] == before[k]);
            }
        }
        if !same_text(v[i].as_str(), link) {
            out.push(v[i].clone());
            proof {
                assert(texts(out@) =~= before.push(x));
                before.lemma_push_to_set_commute(x);
                assert(!before.contains(x)) by {
                    if before.contains(x) {
                        let k: int = choose|k: int| 0 <= k < before.len() && before[k] == x;
                        assert(prefix.contains(before[k]));
                        let j: int = choose|j: int| 0 <= j < prefix.len() && prefix[j] == x;
                        assert(texts(v@)[j] == texts(v@)[i as int]);
                    }
                }
                assert(texts(out@).to_set() =~= texts(v@).take(i + 1).to_set().remove(link@));
                assert(texts(v@).take(i + 1)[i as int] == x);
            }
        } else {
            proof {
                assert(texts(out@).to_set() =~= texts(v@).take(i + 1).to_set().remove(link@));
            }
        }
        i += 1;
    }
    proof {
        assert(texts(v@).take(v@.len() as int) =~= texts(v@));
    }
    out
}

impl ThreadCrawler {
    #[verifier::type_invariant]
    spec fn consistent(self) -> bool {
        self@.well_formed()
    }

    /// Starts mapping the site of `start_from`: fails where that URL has no
    /// domain, else gives a crawl of that domain with an empty site map and no
    /// page processed. The workers begin with `start_from` on their queue.
    pub fn build_site_map(
        start_from: &String,
        max_links: usize,
        max_wait_time_s: u64,
        max_concurrency: u64,
    ) -> (r: Result<ThreadCrawler, CrawlError>)
        ensures
            r is Err <==> domain_of(start_from@) is None,
            r matches Err(e) ==> e == (CrawlError::InvalidUrl { url: *start_from }),
            r matches Ok(c) ==> {
                &&& Some(c@.domain) == domain_of(start_from@)
                &&& c@.start_from == start_from@
                &&& c@.max_links == max_links
                &&& c@.max_wait_time_s == max_wait_time_s
                &&& c@.max_concurrency == max_concurrency
                &&& c@.site_map == Seq::<Seq<char>>::empty()
                &&& c@.visited == Seq::<Seq<char>>::empty()
                &&& c@.failed == Seq::<Seq<char>>::empty()
                &&& c@.well_formed()
            },
    {
        match get_orig_domain(start_from.as_str()) {
            Some(domain) => {
                let c = ThreadCrawler {
                    start_from: start_from.clone(),
                    domain,
                    max_links,
                    max_wait_time_s,
                    max_concurrency,
                    site_map: Vec::new(),
                    visited: Vec::new(),
                    failed: Vec::new(),
                };
                assert(c@.site_map =~= Seq::<Seq<char>>::empty());
                assert(c@.visited =~= Seq::<Seq<char>>::empty());
                assert(c@.failed =~= Seq::<Seq<char>>::empty());
                Ok(c)
            },
            None => Err(CrawlError::InvalidUrl { url: start_from.clone() }),
        }
    }

    /// The link the crawl starts from.
    pub fn start_from(&self) -> (r: String)
        ensures
            r@ == self@.start_from,
    {
        self.start_from.clone()
    }

    /// The domain the crawl stays on.
    pub fn domain(&self) -> (r: String)
        ensures
            r@ == self@.domain,
    {
        self.domain.clone()
    }

    /// How many workers run the crawl.
    pub fn max_concurrency(&self) -> (r: u64)
        ensures
            r == self@.max_concurrency,
    {
        self.max_concurrency
    }

    /// How many links the site map is meant to reach.
    pub fn max_links(&self) -> (r: usize)
        ensures
            r == self@.max_links,
    {
        self.max_links
    }

    /// How long, in seconds, an idle worker waits for work.
    pub fn max_wait_time_s(&self) -> (r: u64)
        ensures
            r == self@.max_wait_time_s,
    {
        self.max_wait_time_s
    }

    /// Whether a worker goes on: the site map has not reached `max_links`.
    pub fn should_continue(&self) -> (r: bool)
        ensures
            r == (self@.site_map.len() < self@.max_links),
    {
        self.site_map.len() < self.max_links
    }

    /// What a worker does with `link`, taken from the queue: stop where the site
    /// map is full, skip a page already processed or one that could not be
    /// fetched, else fetch it.
    pub fn on_link_received(&self, link: &str) -> (r: LinkDecision)
        ensures
            r == (if self@.site_map.len() >= self@.max_links {
                LinkDecision::Stop
            } else if self@.visited.contains(link@) || self@.failed.contains(link@) {
                LinkDecision::Skip
            } else {
                LinkDecision::Fetch
            }),
    {
        if self.site_map.len() >= self.max_links {
            LinkDecision::Stop
        } else if list_has(&self.visited, link) || list_has(&self.failed, link) {
            LinkDecision::Skip
        } else {
            LinkDecision::Fetch
        }
    }

    /// Whether a worker that found the queue empty keeps waiting, after
    /// `idle_nanos` nanoseconds without work: not once the site map is full,
    /// and not once the idle time exceeds `max_wait_time_s` seconds.
    pub fn keep_waiting(&self, idle_nanos: u128) -> (r: bool)
        ensures
            r == (self@.site_map.len() < self@.max_links && idle_nanos <= self@.max_wait_time_s
                * 1_000_000_000),
    {
        if self.site_map.len() >= self.max_links {
            return false;
        }
        let limit: u128 = (self.max_wait_time_s as u128) * 1_000_000_000u128;
        idle_nanos <= limit
    }

    /// Records the page `page`, whose document is `html`: every link it
    /// yields (the `href` of its `a` elements and the `src` of its `iframe`
    /// elements, resolved against the page, without fragment and query, and
    /// on the crawl's domain) joins the site map unless it could not be
    /// fetched before, the page counts as processed, and the links that were
    /// neither in the site map, processed nor failed before are returned, to
    /// be queued.
    pub fn record_page(&mut self, page: &str, html: &str) -> (queued: Vec<String>)
        ensures
            final(self)@.well_formed(),
            final(self)@.same_settings(old(self)@),
            final(self)@.site_map.to_set() == old(self)@.site_map.to_set() + discovered_on_page(
                html@,
                page@,
                old(self)@.domain,
            ).difference(old(self)@.failed.to_set()),
            final(self)@.visited.to_set() == old(self)@.visited.to_set().insert(page@),
            final(self)@.failed == old(self)@.failed,
            texts(queued@).no_duplicates(),
            texts(queued@).to_set() == discovered_on_page(html@, page@, old(self)@.domain).difference(
                old(self)@.site_map.to_set(),
            ).difference(old(self)@.visited.to_set()).difference(old(self)@.failed.to_set()),
    {
        proof {
            use_type_invariant(&*self);
        }
        let ghost domain: Seq<char> = self.domain@;
        let ghost found: Set<Seq<char>> = discovered_on_page(html@, page@, domain);
        let ghost linked: Set<Seq<char>> = element_links(html@, page@, domain, "a"@, "href"@).to_set()
            + element_links(html@, page@, domain, "iframe"@, "src"@).to_set();
        let mut sub: Vec<String> = Vec::new();
        proof {
            assert(texts(sub@) =~= Seq::<Seq<char>>::empty());
        }
        let ghost a_links: Seq<Seq<char>> = element_links(html@, page@, domain, "a"@, "href"@);
        let ghost f_links: Seq<Seq<char>> = element_links(html@, page@, domain, "iframe"@, "src"@);
        match extract_links_from_element(html, page, self.domain.as_str(), "a", "href") {
            Ok(links) => {
                merge_distinct(&mut sub, links);
            },
            Err(_) => {
                assert(a_links =~= Seq::<Seq<char>>::empty());
            },
        }
        assert(texts(sub@).to_set() == a_links.to_set()) by {
            assert(Seq::<Seq<char>>::empty().to_set() =~= Set::<Seq<char>>::empty());
            assert(a_links.to_set() =~= Set::<Seq<char>>::empty() + a_links.to_set());
            if a_links.len() == 0 {
                assert(a_links.to_set() =~= Set::<Seq<char>>::empty());
            }
        }
        let ghost after_a: Seq<Seq<char>> = texts(sub@);
        match extract_links_from_element(html, page, self.domain.as_str(), "iframe", "src") {
            Ok(links) => {
                merge_distinct(&mut sub, links);
            },
            Err(_) => {
                assert(f_links =~= Seq::<Seq<char>>::empty());
                assert(f_links.to_set() =~= Set::<Seq<char>>::empty());
                assert(after_a.to_set() + f_links.to_set() =~= after_a.to_set());
            },
        }
        assert(texts(sub@).to_set() == linked);
        let norm: Vec<String> = normalize_links(self.domain.as_str(), &sub);
        let mut map: Vec<String> = Vec::new();
        let mut seen: Vec<String> = Vec::new();
        std::mem::swap(&mut map, &mut self.site_map);
        std::mem::swap(&mut seen, &mut self.visited);
        let ghost old_map: Seq<Seq<char>> = texts(map@);
        let ghost old_seen: Seq<Seq<char>> = texts(seen@);
        let ghost old_failed: Seq<Seq<char>> = texts(self.failed@);
        let mut queued: Vec<String> = Vec::new();
        let mut i: usize = 0;
        while i < norm.len()
            invariant
                i <= norm@.len(),
                texts(norm@).no_duplicates(),
                texts(norm@).to_set() == found,
                forall|k: int|
                    0 <= k < texts(norm@).len() ==> domain_of(#[trigger] texts(norm@)[k]) == Some(
                        domain,
                    ),
                texts(seen@) == old_seen,
                texts(self.failed@) == old_failed,
                texts(map@).no_duplicates(),
                texts(map@).to_set() == old_map.to_set() + texts(norm@).take(
                    i as int,
                ).to_set().difference(old_failed.to_set()),
                forall|k: int|
                    0 <= k < texts(map@).len() ==> domain_of(#[trigger] texts(map@)[k]) == Some(
                        domain,
                    ),
                forall|k: int|
                    0 <= k < texts(map@).len() ==> !old_failed.contains(#[trigger] texts(map@)[k]),
                forall|k: int|
                    0 <= k < old_map.len() ==> domain_of(#[trigger] old_map[k]) == Some(domain),
                texts(queued@).no_duplicates(),
                texts(queued@).to_set() == texts(norm@).take(i as int).to_set().difference(
                    old_map.to_set(),
                ).difference(old_seen.to_set()).difference(old_failed.to_set()),
            decreases norm@.len() - i,
        {
            let ghost link: Seq<char> = norm@[i as int]@;
            let ghost map_before: Seq<Seq<char>> = texts(map@);
            let ghost queued_before: Seq<Seq<char>> = texts(queued@);
            let ghost prefix: Seq<Seq<char>> = texts(norm@).take(i as int);
            proof {
                assert(texts(norm@)[i as int] == link);
                assert(texts(norm@).take(i + 1) =~= prefix.push(link));
                prefix.lemma_push_to_set_commute(link);
                assert(!prefix.contains(link)) by {
                    if prefix.contains(link) {
                        let j: int = choose|j: int| 0 <= j < prefix.len() && prefix[j] == link;
                        assert(texts(norm@)[j] == texts(norm@)[i as int]);
                    }
                }
                assert(map_before.to_set().contains(link) <==> old_map.to_set().contains(link));
            }
            let in_seen: bool = list_has(&seen, norm[i].as_str());
            let in_map: bool = list_has(&map, norm[i].as_str());
            let in_failed: bool = list_has(&self.failed, norm[i].as_str());
            if !in_seen && !in_map && !in_failed {
                queued.push(norm[i].clone());
                proof {
                    assert(texts(queued@) =~= queued_before.push(link));
                    queued_before.lemma_push_to_set_commute(link);
                    assert(!queued_before.contains(link)) by {
                        if queued_before.contains(link) {
                            let j: int = choose|j: int|
                                0 <= j < queued_before.len() && queued_before[j] == link;
                            assert(queued_before.to_set().contains(link));
                        }
                    }
                }
            }
            if !in_map && !in_failed {
                map.push(norm[i].clone());
                proof {
                    assert(texts(map@) =~= map_before.push(link));
                    map_before.lemma_push_to_set_commute(link);
                }
            } else if in_map {
                proof {
                    assert(map_before.to_set().insert(link) =~= map_before.to_set());
                }
            }
            proof {
                assert(texts(queued@).to_set() =~= texts(norm@).take(i + 1).to_set().difference(
                    old_map.to_set(),
                ).difference(old_seen.to_set()).difference(old_failed.to_set()));
                assert(texts(map@).to_set() =~= old_map.to_set() + texts(norm@).take(
                    i + 1,
                ).to_set().difference(old_failed.to_set()));
            }
            i += 1;
        }
        proof {
            assert(texts(norm@).take(norm@.len() as int) =~= texts(norm@));
        }
        let ghost seen_before: Seq<Seq<char>> = texts(seen@);
        if !list_has(&seen, page) {
            seen.push(page.to_string());
            proof {
                assert(texts(seen@) =~= seen_before.push(page@));
                seen_before.lemma_push_to_set_commute(page@);
            }
        } else {
            proof {
                assert(seen_before.to_set().insert(page@) =~= seen_before.to_set());
            }
        }
        self.site_map = map;
        self.visited = seen;
        queued
    }

    /// Records that the page of `link` could not be fetched (the request
    /// failed, or the server answered with an error status): the link leaves
    /// the site map and is not fetched again.
    pub fn record_failure(&mut self, link: &str)
        ensures
            final(self)@.well_formed(),
            final(self)@.same_settings(old(self)@),
            final(self)@.visited == old(self)@.visited,
            final(self)@.site_map.to_set() == old(self)@.site_map.to_set().remove(link@),
            final(self)@.failed.to_set() == old(self)@.failed.to_set().insert(link@),
    {
        proof {
            use_type_invariant(&*self);
        }
        let ghost old_map: Seq<Seq<char>> = texts(self.site_map@);
        let ghost domain: Seq<char> = self.domain@;
        let kept: Vec<String> = without_text(&self.site_map, link);
        let mut failed: Vec<String> = Vec::new();
        std::mem::swap(&mut failed, &mut self.failed);
        let ghost old_failed: Seq<Seq<char>> = texts(failed@);
        proof {
            assert forall|k: int| 0 <= k < texts(kept@).len() implies domain_of(
                #[trigger] texts(kept@)[k],
            ) == Some(domain) && !old_failed.contains(texts(kept@)[k]) by {
                let j: int = choose|j: int| 0 <= j < old_map.len() && old_map[j] == texts(kept@)[k];
                assert(old_map[j] == texts(kept@)[k]);
            }
        }
        self.site_map = kept;
        if !list_has(&failed, link) {
            failed.push(link.to_string());
            proof {
                assert(texts(failed@) =~= old_failed.push(link@));
                old_failed.lemma_push_to_set_commute(link@);
                assert forall|a: int, b: int|
                    0 <= a < b < texts(failed@).len() implies texts(failed@)[a] != texts(
                        failed@,
                    )[b] by {
                    if b == old_failed.len() {
                        assert(old_failed.contains(old_failed[a]));
                    }
                }
            }
        } else {
            proof {
                assert(old_failed.to_set().insert(link@) =~= old_failed.to_set());
            }
        }
        proof {
            assert forall|k: int| 0 <= k < texts(self.site_map@).len() implies !texts(
                failed@,
            ).contains(#[trigger] texts(self.site_map@)[k]) by {
                let x: Seq<char> = texts(self.site_map@)[k];
                assert(texts(self.site_map@).to_set().contains(x));
                if texts(failed@).contains(x) {
                    let j: int = choose|j: int| 0 <= j < texts(failed@).len() && texts(failed@)[j] == x;
                    if j < old_failed.len() {
                        assert(old_failed[j] == x);
                    }
                }
            }
        }
        self.failed = failed;
    }

    /// The links discovered, each once; all are on the crawl's domain.
    pub fn site_map(&self) -> (r: Vec<String>)
        ensures
            texts(r@) == self@.site_map,
            self@.well_formed(),
    {
        proof {
            use_type_invariant(self);
        }
        self.site_map.clone()
    }
}

} // verus!
