use site_link_extract::CrawlError;
use site_link_extract::link_unificator::EmptyUnificator;
use site_link_extract::link_unificator::StdUnificator;
use site_link_extract::links::Links;

#[test]
fn offer_is_idempotent() {
    let seeds = vec!["https://a.test/".to_string()];
    let mut links = Links::<EmptyUnificator>::new(&seeds).unwrap();
    assert_eq!(links.len(), 1);
    assert!(links.offer("https://b.test/".to_string()));
    assert_eq!(links.len(), 2);
    assert!(!links.offer("https://b.test/".to_string()));
    assert_eq!(links.len(), 2);
    assert!(!links.offer("https://b.test/".to_string()));
    assert_eq!(links.len(), 2);
}

#[test]
fn offer_dedups_by_identity_not_by_string() {
    let seeds = vec!["https://a.test/".to_string()];
    let mut links = Links::<StdUnificator>::new(&seeds).unwrap();
    assert!(!links.offer("http://a.test/".to_string()));
    assert!(!links.offer("https://a.test/#anchor".to_string()));
    assert_eq!(links.len(), 1);
}

#[test]
fn seeds_deduplicated_first_occurrence_wins() {
    let seeds = vec![
        "http://a.test/".to_string(),
        "https://a.test/#frag".to_string(),
        "https://a.test/x".to_string(),
    ];
    let links = Links::<StdUnificator>::new(&seeds).unwrap();
    assert_eq!(links.len(), 2);
}

#[test]
fn empty_seed_set_rejected_before_any_fetch() {
    let seeds: Vec<String> = Vec::new();
    match Links::<StdUnificator>::new(&seeds) {
        Err(CrawlError::EmptySeedSet) => {}
        _ => panic!("expected EmptySeedSet"),
    }
}

#[test]
fn bad_seed_rejected_with_the_offending_string() {
    let seeds = vec!["https://a.test/".to_string(), "not a url".to_string()];
    match Links::<StdUnificator>::new(&seeds) {
        Err(CrawlError::InvalidSeedUrl { url, .. }) => assert_eq!(url, "not a url"),
        _ => panic!("expected InvalidSeedUrl"),
    }
}

#[test]
fn seeds_are_normalized_by_parsing() {
    let seeds = vec!["HTTPS://A.test".to_string()];
    let links = Links::<EmptyUnificator>::new(&seeds).unwrap();
    assert_eq!(links.snapshot(), vec!["https://a.test/".to_string()]);
}

#[test]
fn take_returns_youngest_first_and_drains() {
    let seeds = vec!["https://a.test/".to_string(), "https://b.test/".to_string()];
    let mut links = Links::<EmptyUnificator>::new(&seeds).unwrap();
    assert_eq!(links.take_unchecked_url().unwrap(), "https://b.test/");
    assert_eq!(links.take_unchecked_url().unwrap(), "https://a.test/");
    assert!(links.take_unchecked_url().is_none());
    assert_eq!(links.len(), 2);
}

#[test]
fn seeding_from_text_lines() {
    let text = "  https://a.test/  \n\n\thttp://a.test/#x\r\n   \nhttps://b.test/".to_string();
    let links = Links::<StdUnificator>::new_from_lines(&text).unwrap();
    assert_eq!(links.len(), 2);
}

#[test]
fn seeding_from_blank_text_rejected() {
    let text = "  \n \t \n".to_string();
    match Links::<StdUnificator>::new_from_lines(&text) {
        Err(CrawlError::EmptySeedSet) => {}
        _ => panic!("expected EmptySeedSet"),
    }
}

#[test]
fn report_and_export_formats() {
    let seeds = vec!["https://a.test/".to_string()];
    let links = Links::<EmptyUnificator>::new(&seeds).unwrap();
    assert_eq!(links.display_string(), "[1]:\nhttps://a.test/\n");
    assert_eq!(links.export_string(), "https://a.test/\n");
    assert_eq!(links.snapshot(), vec!["https://a.test/".to_string()]);
}

#[test]
fn std_strategy_reports_reconstructed_urls() {
    // reconstruction prefixes `https://`, deliberately losing the original scheme
    let seeds = vec!["http://a.test/page#sec".to_string()];
    let links = Links::<StdUnificator>::new(&seeds).unwrap();
    assert_eq!(links.snapshot(), vec!["https://a.test/page".to_string()]);
    assert_eq!(links.display_string(), "[1]:\nhttps://a.test/page\n");
}

#[test]
fn error_messages_name_the_offender() {
    let seeds = vec!["nope".to_string()];
    let e = match Links::<StdUnificator>::new(&seeds) {
        Err(e) => e,
        Ok(_) => panic!("expected an error"),
    };
    let msg = e.message();
    assert!(msg.starts_with("bad URL("));
    assert!(msg.ends_with("): nope"));
    assert_eq!(CrawlError::EmptySeedSet.message(), "`init_links` was empty");
}
