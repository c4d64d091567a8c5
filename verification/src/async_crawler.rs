//! The decisions of the task-based crawler: it marks each link discovered as
//! it takes it from the work queue, hands each new link to a task that
//! fetches the page, and stops when the map is full or the work has dried up.
//! Running the tasks, the queue and the clock is I/O; the choices are here.
use crate::links::{domain_of, get_orig_domain};
use crate::text::{list_has, texts};
use vstd::prelude::*;

verus! {

/// What the crawl does with a link taken from the work queue.
#[derive(Debug, Clone, PartialEq, Eq)]
pub enum AsyncStep {
    /// The link was discovered before: nothing to do.
    AlreadySeen,
    /// A new link: start a task that fetches it and keeps the links on `domain`.
    Spawn { url: String, domain: String },
    /// A new link, but the starting URL has no domain: the crawl fails.
    InvalidDomain,
}

/// The state of a task-based crawl, mathematically.
pub struct AsyncCrawlerView {
    pub start_from: Seq<char>,
    pub domain: Option<Seq<char>>,
    pub max_links: nat,
    pub max_wait_time_s: nat,
    pub max_concurrency: nat,
    /// The links taken from the queue so far, each once.
    pub discovered: Seq<Seq<char>>,
}

/// The state of a task-based crawl.
///
/// The links discovered are a vector that holds each link once: it stands in
/// for a hash set of strings, whose contents the verifier cannot see.
pub struct AsyncCrawler {
    start_from: String,
    domain: Option<String>,
    max_links: usize,
    max_wait_time_s: u64,
    max_concurrency: u64,
    discovered: Vec<String>,
}

impl View for AsyncCrawler {
    type V = AsyncCrawlerView;

    closed spec fn view(&self) -> AsyncCrawlerView {
        AsyncCrawlerView {
            start_from: self.start_from@,
            domain: self.domain.deep_view(),
            max_links: self.max_links as nat,
            max_wait_time_s: self.max_wait_time_s as nat,
            max_concurrency: self.max_concurrency as nat,
            discovered: texts(self.discovered@),
        }
    }
}

impl AsyncCrawler {
    #[verifier::type_invariant]
    spec fn distinct(self) -> bool {
        texts(self.discovered@).no_duplicates()
    }

    /// A crawl from `start_from` that has discovered nothing yet; the domain
    /// it stays on is that of `start_from`, where it has one.
    pub fn new(start_from: &str, max_links: usize, max_wait_time_s: u64, max_concurrency: u64) -> (r:
        AsyncCrawler)
        ensures
            r@.start_from == start_from@,
            r@.domain == domain_of(start_from@),
            r@.max_links == max_links,
            r@.max_wait_time_s == max_wait_time_s,
            r@.max_concurrency == max_concurrency,
            r@.discovered == Seq::<Seq<char>>::empty(),
    {
        let r = AsyncCrawler {
            start_from: start_from.to_string(),
            domain: get_orig_domain(start_from),
            max_links,
            max_wait_time_s,
            max_concurrency,
            discovered: Vec::new(),
        };
        assert(r@.discovered =~= Seq::<Seq<char>>::empty());
        r
    }

    /// The link the crawl starts from.
    pub fn start_from(&self) -> (r: String)
        ensures
            r@ == self@.start_from,
    {
        self.start_from.clone()
    }

    /// How many fetches may run at once.
    pub fn max_concurrency(&self) -> (r: u64)
        ensures
            r == self@.max_concurrency,
    {
        self.max_concurrency
    }

    /// Whether the crawl goes on: fewer than `max_links` links discovered.
    pub fn should_continue(&self) -> (r: bool)
        ensures
            r == (self@.discovered.len() < self@.max_links),
    {
        self.discovered.len() < self.max_links
    }

    /// Takes `url` from the queue: a link seen before changes nothing; a new
    /// one is marked discovered and, where the crawl has a domain, handed to a
    /// new task with that domain.
    pub fn on_received(&mut self, url: String) -> (r: AsyncStep)
        ensures
            final(self)@.discovered.no_duplicates(),
            final(self)@.start_from == old(self)@.start_from,
            final(self)@.domain == old(self)@.domain,
            final(self)@.max_links == old(self)@.max_links,
            final(self)@.max_wait_time_s == old(self)@.max_wait_time_s,
            final(self)@.max_concurrency == old(self)@.max_concurrency,
            old(self)@.discovered.contains(url@) ==> {
                &&& r == AsyncStep::AlreadySeen
                &&& final(self)@.discovered == old(self)@.discovered
            },
            !old(self)@.discovered.contains(url@) ==> {
                &&& final(self)@.discovered == old(self)@.discovered.push(url@)
                &&& match old(self)@.domain {
                    Some(d) => r matches AsyncStep::Spawn { url: u, domain: dom } && u@ == url@
                        && dom@ == d,
                    None => r == AsyncStep::InvalidDomain,
                }
            },
    {
        proof {
            use_type_invariant(&*self);
        }
        if list_has(&self.discovered, url.as_str()) {
            return AsyncStep::AlreadySeen;
        }
        let mut seen: Vec<String> = Vec::new();
        std::mem::swap(&mut seen, &mut self.discovered);
        let ghost before: Seq<Seq<char>> = texts(seen@);
        seen.push(url.clone());
        proof {
            assert(texts(seen@) =~= before.push(url@));
            assert forall|i: int, j: int|
                0 <= i < j < texts(seen@).len() implies texts(seen@)[i] != texts(seen@)[j] by {
                if j == before.len() {
                    assert(before[i] == texts(seen@)[i]);
                }
            }
        }
        self.discovered = seen;
        match &self.domain {
            Some(d) => AsyncStep::Spawn { url, domain: d.clone() },
            None => AsyncStep::InvalidDomain,
        }
    }

    /// Whether the crawl stops after waiting for the queue in vain: only when
    /// no task is running, and then once the idle time (in nanoseconds)
    /// exceeds `max_wait_time_s` seconds or the queue is empty.
    pub fn stop_when_idle(&self, active_tasks: usize, idle_nanos: u128, queue_empty: bool) -> (r:
        bool)
        ensures
            r == (active_tasks == 0 && (idle_nanos > self@.max_wait_time_s * 1_000_000_000
                || queue_empty)),
    {
        if active_tasks != 0 {
            return false;
        }
        let limit: u128 = (self.max_wait_time_s as u128) * 1_000_000_000u128;
        idle_nanos > limit || queue_empty
    }

    /// The links discovered, each once.
    pub fn discovered(&self) -> (r: Vec<String>)
        ensures
            texts(r@) == self@.discovered,
            self@.discovered.no_duplicates(),
    {
        proof {
            use_type_invariant(self);
        }
        self.discovered.clone()
    }
}

} // verus!
