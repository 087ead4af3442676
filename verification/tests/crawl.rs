use site_link_extract::CrawlError;
use site_link_extract::link_unificator::StdUnificator;
use site_link_extract::links::Links;
use site_link_extract::scheduler::LinksCounter;

#[test]
fn hrefs_with_scheme_are_never_resolved_against_base() {
    let base = "https://a.test/dir/page".to_string();
    let abs = Links::<StdUnificator>::absolute_link(&base, &"http://b.test/x".to_string());
    assert_eq!(abs.unwrap(), "http://b.test/x");
}

#[test]
fn relative_hrefs_resolved_against_base() {
    let base = "https://a.test/dir/page".to_string();
    let rooted = Links::<StdUnificator>::absolute_link(&base, &"/b".to_string());
    assert_eq!(rooted.unwrap(), "https://a.test/b");
    let sibling = Links::<StdUnificator>::absolute_link(&base, &"c.png".to_string());
    assert_eq!(sibling.unwrap(), "https://a.test/dir/c.png");
}

#[test]
fn bare_host_resolves_as_a_relative_path() {
    let base = "https://a.test/".to_string();
    let r = Links::<StdUnificator>::absolute_link(&base, &"c.test".to_string());
    assert_eq!(r.unwrap(), "https://a.test/c.test");
}

#[test]
fn unresolvable_href_reported_as_malformed() {
    let base = "https://a.test/".to_string();
    match Links::<StdUnificator>::absolute_link(&base, &"https://".to_string()) {
        Err(CrawlError::MalformedUrl { href, .. }) => assert_eq!(href, "https://"),
        _ => panic!("expected MalformedUrl"),
    }
}

#[test]
fn absorb_page_offers_every_anchor_href() {
    let seeds = vec!["https://a.test/".to_string()];
    let mut links = Links::<StdUnificator>::new(&seeds).unwrap();
    let url = links.take_unchecked_url().unwrap();
    let body = "<html><body><a href=\"/b\">b</a><a href=\"https://a.test/b#x\">b again</a><a href=\"http://c.test/d\">elsewhere</a><p>no anchor here</p><a name=\"no-href\">nothing</a></body></html>".to_string();
    links.absorb_page(&url, &body).unwrap();
    assert_eq!(links.len(), 3);
    let snap = links.snapshot();
    assert!(snap.contains(&"https://a.test/".to_string()));
    assert!(snap.contains(&"https://a.test/b".to_string()));
    assert!(snap.contains(&"https://c.test/d".to_string()));
}

#[test]
fn crawl_aborts_on_malformed_link_keeping_earlier_offers() {
    let seeds = vec!["https://a.test/".to_string()];
    let mut links = Links::<StdUnificator>::new(&seeds).unwrap();
    let url = links.take_unchecked_url().unwrap();
    let body = "<html><body><a href=\"/b\">b</a><a href=\"https://a.test/b#x\">b again</a><a href=\"https://\">malformed</a><a href=\"/never-reached\">after</a></body></html>".to_string();
    match links.absorb_page(&url, &body) {
        Err(CrawlError::MalformedUrl { href, .. }) => assert_eq!(href, "https://"),
        _ => panic!("expected MalformedUrl"),
    }
    // `/b` and its `#x` variant were absorbed as one identity before the abort
    assert_eq!(links.len(), 2);
    let snap = links.snapshot();
    assert!(snap.contains(&"https://a.test/".to_string()));
    assert!(snap.contains(&"https://a.test/b".to_string()));
    assert!(!snap.contains(&"https://a.test/never-reached".to_string()));
}

#[test]
fn each_seed_fetched_exactly_once_when_pages_add_nothing() {
    let seeds = vec![
        "https://a.test/".to_string(),
        "https://b.test/".to_string(),
        "https://c.test/".to_string(),
    ];
    let mut links = Links::<StdUnificator>::new(&seeds).unwrap();
    let body = "<html><body>no links at all</body></html>".to_string();
    let mut fetches = 0;
    while let Some(url) = links.take_unchecked_url() {
        fetches += 1;
        links.absorb_page(&url, &body).unwrap();
    }
    assert_eq!(fetches, 3);
    assert_eq!(links.len(), 3);
}

#[test]
fn crawl_reaches_terminal_on_a_finite_graph() {
    let seeds = vec!["https://a.test/".to_string()];
    let mut links = Links::<StdUnificator>::new(&seeds).unwrap();
    let mut counter = LinksCounter::new(Some(2));
    let mut fetched: Vec<String> = Vec::new();
    let mut rounds = 0;
    loop {
        rounds += 1;
        assert!(rounds <= 100, "the crawl did not terminate");
        let n = counter.awaiter_filling(links.len());
        if n == 0 && counter.cur_run == 0 {
            break;
        }
        for _ in 0..n {
            // a dispatched task: pop, "fetch" from the fixed two-page site, absorb
            if let Some(url) = links.take_unchecked_url() {
                let body = match url.as_str() {
                    "https://a.test/" => "<a href=\"/x\">x</a><a href=\"https://a.test/#top\">self</a>",
                    "https://a.test/x" => "<a href=\"http://a.test/\">home</a>",
                    other => panic!("fetched a URL outside the graph: {other}"),
                }
                .to_string();
                links.absorb_page(&url, &body).unwrap();
                fetched.push(url);
            }
            counter.awaiter_task_done();
        }
    }
    // the transitive closure has exactly two identities, each fetched once
    assert_eq!(links.len(), 2);
    assert_eq!(fetched.len(), 2);
    assert!(links.take_unchecked_url().is_none());
}

#[test]
fn concurrency_bound_respected() {
    let mut c = LinksCounter::new(Some(2));
    assert_eq!(c.awaiter_filling(5), 2);
    assert_eq!(c.cur_run, 2);
    assert_eq!(c.total_run, 2);
    assert_eq!(c.awaiter_filling(5), 0);
    c.awaiter_task_done();
    assert_eq!(c.cur_run, 1);
    assert_eq!(c.awaiter_filling(5), 1);
    assert_eq!(c.cur_run, 2);
    assert_eq!(c.total_run, 3);
}

#[test]
fn unbounded_pool_dispatches_everything_discovered() {
    let mut c = LinksCounter::new(None);
    assert_eq!(c.awaiter_filling(5), 5);
    assert_eq!(c.cur_run, 5);
    assert_eq!(c.total_run, 5);
    assert_eq!(c.awaiter_filling(5), 0);
}

#[test]
fn bound_below_one_is_raised_to_one() {
    let mut c = LinksCounter::new(Some(0));
    assert_eq!(c.awaiter_filling(5), 1);
    assert_eq!(c.cur_run, 1);
}
