//! A verified link-collection crawler core: a frontier/visited store that
//! discovers the transitive closure of hyperlinks from a set of seed URLs,
//! deduplicated under a pluggable URL-canonicalization strategy, together
//! with the counters that bound how many fetches run at once.

use vstd::prelude::*;

pub mod link_unificator;
pub mod links;
pub mod scheduler;
pub mod str_search;

verus! {

/// The errors the crawler core itself can produce.
///
/// Fetch failures and lock poisoning are faults of the surrounding runtime,
/// not of this library; they are handled where the fetching happens.
#[derive(Debug)]
pub enum CrawlError {
    /// A seed string could not be parsed as an absolute URL.
    InvalidSeedUrl { url: String, reason: String },
    /// After deduplication no seed remained.
    EmptySeedSet,
    /// An href could not be resolved to an absolute URL against its base.
    MalformedUrl { href: String, reason: String },
}

impl CrawlError {
    /// A short human-readable description; the offending string is kept verbatim.
    pub fn message(&self) -> (r: String)
        ensures
            r@ == self.message_spec(),
    {
        match self {
            CrawlError::InvalidSeedUrl { url, reason } => {
                let mut s = String::from_str("bad URL(");
                s.append(reason.as_str());
                s.append("): ");
                s.append(url.as_str());
                s
            },
            CrawlError::EmptySeedSet => String::from_str("`init_links` was empty"),
            CrawlError::MalformedUrl { href, reason } => {
                let mut s = String::from_str("malformed link(");
                s.append(reason.as_str());
                s.append("): ");
                s.append(href.as_str());
                s
            },
        }
    }

    pub open spec fn message_spec(&self) -> Seq<char> {
        match self {
            CrawlError::InvalidSeedUrl { url, reason } => "bad URL("@ + reason@ + "): "@
                + url@,
            CrawlError::EmptySeedSet => "`init_links` was empty"@,
            CrawlError::MalformedUrl { href, reason } => "malformed link("@ + reason@ + "): "@
                + href@,
        }
    }
}

} // verus!
