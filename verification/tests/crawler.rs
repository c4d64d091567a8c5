use py_interop::async_crawler::{AsyncCrawler, AsyncStep};
use py_interop::thread_crawler::{CrawlError, LinkDecision, ThreadCrawler};

const PAGE: &str = r##"<html><body>
<a href="/y">y</a>
<a href="http://other.com/z">z</a>
<a href="/y#frag">y again</a>
<a href="/v?page=2">v</a>
<a href="mailto:x@a.com">mail</a>
<iframe src="/w?q=1"></iframe>
</body></html>"##;

fn sorted(mut v: Vec<String>) -> Vec<String> {
    v.sort();
    v
}

#[test]
fn build_site_map_refuses_url_without_domain() {
    let start = "nonsense".to_string();
    match ThreadCrawler::build_site_map(&start, 10, 1, 2) {
        Err(CrawlError::InvalidUrl { url }) => assert_eq!(url, start),
        Ok(_) => panic!("an invalid start URL was accepted"),
    }
}

#[test]
fn build_site_map_starts_empty() {
    let start = "http://a.com/x".to_string();
    let crawler = ThreadCrawler::build_site_map(&start, 10, 30, 8).unwrap();
    assert_eq!(crawler.domain(), "a.com");
    assert_eq!(crawler.start_from(), start);
    assert_eq!(crawler.max_concurrency(), 8);
    assert_eq!(crawler.max_links(), 10);
    assert_eq!(crawler.max_wait_time_s(), 30);
    assert!(crawler.site_map().is_empty());
    assert!(crawler.should_continue());
    assert_eq!(crawler.on_link_received("http://a.com/x"), LinkDecision::Fetch);
}

#[test]
fn record_page_adds_normalized_same_domain_links() {
    let start = "http://a.com/x".to_string();
    let mut crawler = ThreadCrawler::build_site_map(&start, 10, 30, 8).unwrap();
    let queued = crawler.record_page("http://a.com/x", PAGE);
    let expected = vec![
        "http://a.com/v".to_string(),
        "http://a.com/w".to_string(),
        "http://a.com/y".to_string(),
    ];
    assert_eq!(sorted(queued), expected);
    assert_eq!(sorted(crawler.site_map()), expected);
    assert_eq!(crawler.on_link_received("http://a.com/x"), LinkDecision::Skip);
    assert_eq!(crawler.on_link_received("http://a.com/y"), LinkDecision::Fetch);

    // The same links found again are not queued again.
    let again = crawler.record_page("http://a.com/y", PAGE);
    assert!(again.is_empty());
    assert_eq!(sorted(crawler.site_map()), expected);
    assert_eq!(crawler.on_link_received("http://a.com/y"), LinkDecision::Skip);
}

#[test]
fn full_site_map_stops_workers() {
    let start = "http://a.com/x".to_string();
    let mut crawler = ThreadCrawler::build_site_map(&start, 2, 1, 1).unwrap();
    crawler.record_page("http://a.com/x", PAGE);
    // The map may pass its limit: it stops the workers, not the recording.
    assert_eq!(crawler.site_map().len(), 3);
    assert!(!crawler.should_continue());
    assert_eq!(crawler.on_link_received("http://a.com/v"), LinkDecision::Stop);
    assert!(!crawler.keep_waiting(0));
}

#[test]
fn idle_workers_give_up_after_the_wait_time() {
    let start = "http://a.com/".to_string();
    let crawler = ThreadCrawler::build_site_map(&start, 5, 2, 1).unwrap();
    assert!(crawler.keep_waiting(0));
    assert!(crawler.keep_waiting(2_000_000_000));
    assert!(!crawler.keep_waiting(2_000_000_001));
}

#[test]
fn async_crawler_marks_links_once() {
    let mut crawl = AsyncCrawler::new("http://a.com/", 3, 1, 4);
    assert_eq!(crawl.start_from(), "http://a.com/");
    assert_eq!(crawl.max_concurrency(), 4);
    assert!(crawl.should_continue());
    assert_eq!(
        crawl.on_received("http://a.com/".to_string()),
        AsyncStep::Spawn { url: "http://a.com/".to_string(), domain: "a.com".to_string() }
    );
    assert_eq!(crawl.on_received("http://a.com/".to_string()), AsyncStep::AlreadySeen);
    crawl.on_received("http://a.com/b".to_string());
    crawl.on_received("http://a.com/c".to_string());
    assert!(!crawl.should_continue());
    assert_eq!(crawl.discovered().len(), 3);
}

#[test]
fn async_crawler_without_domain_fails_on_first_link() {
    let mut crawl = AsyncCrawler::new("nonsense", 3, 1, 4);
    assert_eq!(crawl.on_received("nonsense".to_string()), AsyncStep::InvalidDomain);
}

#[test]
fn async_crawler_stops_only_when_idle() {
    let crawl = AsyncCrawler::new("http://a.com/", 3, 1, 4);
    assert!(!crawl.stop_when_idle(1, 5_000_000_000, true));
    assert!(crawl.stop_when_idle(0, 1_000_000_001, false));
    assert!(!crawl.stop_when_idle(0, 1_000_000_000, false));
    assert!(crawl.stop_when_idle(0, 0, true));
}

#[test]
fn failed_links_leave_the_site_map() {
    let start = "http://a.com/x".to_string();
    let mut crawler = ThreadCrawler::build_site_map(&start, 10, 30, 8).unwrap();
    crawler.record_page("http://a.com/x", PAGE);
    assert_eq!(crawler.on_link_received("http://a.com/v"), LinkDecision::Fetch);
    // The page of /v answers 404.
    crawler.record_failure("http://a.com/v");
    assert_eq!(
        sorted(crawler.site_map()),
        vec!["http://a.com/w".to_string(), "http://a.com/y".to_string()]
    );
    assert_eq!(crawler.on_link_received("http://a.com/v"), LinkDecision::Skip);

    // Found again on another page, it is neither mapped nor queued.
    let queued = crawler.record_page("http://a.com/y", PAGE);
    assert!(queued.is_empty());
    assert_eq!(
        sorted(crawler.site_map()),
        vec!["http://a.com/w".to_string(), "http://a.com/y".to_string()]
    );

    // A failure recorded twice, or for a link never mapped, changes no more.
    crawler.record_failure("http://a.com/v");
    crawler.record_failure("http://a.com/none");
    assert_eq!(crawler.site_map().len(), 2);
    assert_eq!(crawler.on_link_received("http://a.com/none"), LinkDecision::Skip);
}

#[test]
fn a_failed_link_is_not_queued_from_a_later_page() {
    let start = "http://a.com/x".to_string();
    let mut crawler = ThreadCrawler::build_site_map(&start, 10, 30, 8).unwrap();
    crawler.record_failure("http://a.com/w");
    let queued = crawler.record_page("http://a.com/x", PAGE);
    assert_eq!(sorted(queued), vec!["http://a.com/v".to_string(), "http://a.com/y".to_string()]);
    assert_eq!(
        sorted(crawler.site_map()),
        vec!["http://a.com/v".to_string(), "http://a.com/y".to_string()]
    );
}
