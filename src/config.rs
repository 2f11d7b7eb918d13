//! Per-feed configuration as it comes from the sources file, and its binding
//! to the cached records.

use vstd::prelude::*;
use crate::models::{FeedId, FeedMetrics, Timestamp, items_equiv};
use crate::cache::SerializableFeed;
use crate::feed::{Feed, flagged_items, is_recent_at, latest_posted, lemma_flagged_items_equiv};

verus! {

/// A title filter: a regular expression, optionally inverted and optionally
/// case-insensitive.
pub struct FeedFilter {
    pub pattern: String,
    pub invert: bool,
    pub case_insensitive: bool,
}

impl Clone for FeedFilter {
    fn clone(&self) -> (r: Self)
        ensures
            r == *self,
    {
        FeedFilter {
            pattern: self.pattern.clone(),
            invert: self.invert,
            case_insensitive: self.case_insensitive,
        }
    }
}


/// A title filter as written in the sources file: flags may be left out.
pub struct PartialFeedFilter {
    pub pattern: String,
    pub invert: Option<bool>,
    pub case_insensitive: Option<bool>,
}

pub open spec fn filter_of(p: PartialFeedFilter) -> FeedFilter {
    FeedFilter {
        pattern: p.pattern,
        invert: p.invert.unwrap_or(false),
        case_insensitive: p.case_insensitive.unwrap_or(false),
    }
}

impl From<PartialFeedFilter> for FeedFilter {
    /// Missing flags are false.
    fn from(value: PartialFeedFilter) -> (r: FeedFilter)
        ensures
            r == filter_of(value),
    {
        FeedFilter {
            pattern: value.pattern,
            invert: match value.invert {
                Some(b) => b,
                None => false,
            },
            case_insensitive: match value.case_insensitive {
                Some(b) => b,
                None => false,
            },
        }
    }
}

impl vstd::std_specs::convert::FromSpecImpl<PartialFeedFilter> for FeedFilter {
    open spec fn obeys_from_spec() -> bool {
        true
    }

    open spec fn from_spec(v: PartialFeedFilter) -> FeedFilter {
        filter_of(v)
    }
}

/// How many items a feed keeps when its source does not say.
pub const DEFAULT_MAX_ITEMS: u32 = 5000;

/// Configuration of one feed.
pub struct FeedSource {
    pub url: FeedId,
    pub tags: Vec<String>,
    pub manual_update: bool,
    pub filter: Option<FeedFilter>,
    pub max_items: u32,
}

impl FeedSource {
    /// Same fields; the tags compared by value.
    pub open spec fn equiv(self, other: Self) -> bool {
        &&& self.url == other.url
        &&& self.tags@ == other.tags@
        &&& self.manual_update == other.manual_update
        &&& self.filter == other.filter
        &&& self.max_items == other.max_items
    }
}

impl Clone for FeedSource {
    fn clone(&self) -> (r: Self)
        ensures
            r.equiv(*self),
    {
        let tags = self.tags.clone();
        assert(tags@ =~= self.tags@);
        FeedSource {
            url: self.url.clone(),
            tags,
            manual_update: self.manual_update,
            filter: self.filter.clone(),
            max_items: self.max_items,
        }
    }
}

/// One entry of the sources file: every field but the tags may be left out.
pub struct PartialFeedSource {
    pub url: Option<FeedId>,
    pub tags: Vec<String>,
    pub manual_update: Option<bool>,
    pub filter: Option<PartialFeedFilter>,
    pub max_items: Option<u32>,
}

pub open spec fn source_of(p: PartialFeedSource) -> FeedSource
    recommends
        p.url.is_some(),
{
    FeedSource {
        url: p.url.unwrap(),
        tags: p.tags,
        manual_update: p.manual_update.unwrap_or(false),
        filter: match p.filter {
            Some(f) => Some(filter_of(f)),
            None => None,
        },
        max_items: p.max_items.unwrap_or(DEFAULT_MAX_ITEMS),
    }
}

impl FeedSource {
    /// Fills in the defaults; `None` when the entry has no URL.
    pub fn from_partial(value: PartialFeedSource) -> (r: Option<FeedSource>)
        ensures
            value.url.is_none() ==> r.is_none(),
            value.url.is_some() ==> r == Some(source_of(value)),
    {
        match value.url {
            None => None,
            Some(url) => Some(
                FeedSource {
                    url,
                    tags: value.tags,
                    manual_update: match value.manual_update {
                        Some(b) => b,
                        None => false,
                    },
                    filter: match value.filter {
                        Some(f) => Some(FeedFilter::from(f)),
                        None => None,
                    },
                    max_items: match value.max_items {
                        Some(n) => n,
                        None => DEFAULT_MAX_ITEMS,
                    },
                },
            ),
        }
    }
}

/// The sources file as written.
pub struct PartialSources {
    pub sources: Option<Vec<PartialFeedSource>>,
}

/// The configured feeds, one per URL, in the order of the sources file.
pub struct Sources(pub Vec<FeedSource>);

pub open spec fn has_url(s: Seq<FeedSource>, url: FeedId) -> bool {
    exists|j: int| 0 <= j < s.len() && (#[trigger] s[j]).url.0@ == url.0@
}

/// Keeps the first source of each URL.
pub open spec fn unique_sources(s: Seq<FeedSource>) -> Seq<FeedSource>
    decreases s.len(),
{
    if s.len() == 0 {
        s
    } else {
        let r = unique_sources(s.drop_last());
        if has_url(r, s.last().url) {
            r
        } else {
            r.push(s.last())
        }
    }
}

pub open spec fn all_have_url(s: Seq<PartialFeedSource>) -> bool {
    forall|i: int| 0 <= i < s.len() ==> (#[trigger] s[i]).url.is_some()
}

/// Why a sources file cannot be used.
#[derive(Debug, PartialEq, Eq, Structural)]
pub enum SourcesError {
    /// The entry at this position has no URL.
    MissingUrl(usize),
}

pub open spec fn first_missing_url(s: Seq<PartialFeedSource>, i: int) -> bool {
    &&& 0 <= i < s.len()
    &&& s[i].url.is_none()
    &&& forall|j: int| 0 <= j < i ==> (#[trigger] s[j]).url.is_some()
}

pub open spec fn sources_spec(s: Seq<PartialFeedSource>) -> Seq<FeedSource> {
    unique_sources(s.map_values(|p: PartialFeedSource| source_of(p)))
}

impl Sources {
    /// Applies the defaults to each entry and drops the later entries of a
    /// URL seen before; an entry without a URL is an error. A file without a
    /// list gives no sources.
    pub fn from_partial(value: PartialSources) -> (r: Result<Sources, SourcesError>)
        ensures
            value.sources.is_none() ==> r.is_ok() && r.unwrap().0@.len() == 0,
            value.sources.is_some() ==> {
                let s = value.sources.unwrap()@;
                &&& all_have_url(s) ==> r.is_ok() && r.unwrap().0@ == sources_spec(s)
                &&& !all_have_url(s) ==> exists|i: usize|
                    first_missing_url(s, i as int) && r == Err::<Sources, SourcesError>(
                        SourcesError::MissingUrl(i),
                    )
            },
    {
        match value.sources {
            None => Ok(Sources(Vec::new())),
            Some(list) => {
                let ghost input = list@;
                let ghost conv = input.map_values(|p: PartialFeedSource| source_of(p));
                let n: usize = list.len();
                let mut list = list;
                let mut out: Vec<FeedSource> = Vec::new();
                let mut i: usize = 0;
                while list.len() > 0
                    invariant
                        value.sources.is_some(),
                        value.sources.unwrap()@ == input,
                        i + list.len() == input.len(),
                        input.len() == n,
                        list@ == input.skip(i as int),
                        conv == input.map_values(|p: PartialFeedSource| source_of(p)),
                        forall|j: int| 0 <= j < i ==> (#[trigger] input[j]).url.is_some(),
                        out@ == unique_sources(conv.take(i as int)),
                    decreases list.len(),
                {
                    let p = list.remove(0);
                    assert(p == input[i as int]);
                    assert(list@ == input.skip(i as int + 1));
                    match FeedSource::from_partial(p) {
                        None => {
                            assert(first_missing_url(input, i as int));
                            return Err(SourcesError::MissingUrl(i));
                        },
                        Some(src) => {
                            let ghost prev = out@;
                            let mut seen = false;
                            let mut j: usize = 0;
                            while j < out.len()
                                invariant
                                    j <= out.len(),
                                    out@ == prev,
                                    seen == exists|q: int|
                                        0 <= q < j && (#[trigger] prev[q]).url.0@ == src.url.0@,
                                decreases out.len() - j,
                            {
                                if out[j].url == src.url {
                                    seen = true;
                                }
                                j = j + 1;
                            }
                            proof {
                                let t = conv.take(i as int + 1);
                                assert(t.drop_last() == conv.take(i as int));
                                assert(t.last() == source_of(input[i as int]));
                            }
                            if !seen {
                                out.push(src);
                            }
                            i = i + 1;
                        },
                    }
                }
                assert(conv.take(i as int) == conv);
                Ok(Sources(out))
            },
        }
    }
}

/// Index of the first record of `url`.
pub open spec fn find_record(c: Seq<SerializableFeed>, url: FeedId) -> Option<int>
    decreases c.len(),
{
    if c.len() == 0 {
        None
    } else {
        match find_record(c.drop_last(), url) {
            Some(j) => Some(j),
            None => if c.last().id.0@ == url.0@ {
                Some(c.len() - 1)
            } else {
                None
            },
        }
    }
}

pub(crate) proof fn lemma_find_record_range(c: Seq<SerializableFeed>, url: FeedId)
    ensures
        find_record(c, url) is Some ==> 0 <= find_record(c, url)->Some_0 < c.len() && c[find_record(
            c,
            url,
        )->Some_0].id.0@ == url.0@,
    decreases c.len(),
{
    if c.len() > 0 {
        lemma_find_record_range(c.drop_last(), url);
    }
}

pub(crate) proof fn lemma_find_record(c: Seq<SerializableFeed>, url: FeedId, j: int)
    requires
        0 <= j <= c.len(),
        forall|q: int| 0 <= q < j ==> (#[trigger] c[q]).id.0@ != url.0@,
    ensures
        j < c.len() && c[j].id.0@ == url.0@ ==> find_record(c, url) == Some(j),
        j == c.len() ==> find_record(c, url).is_none(),
    decreases c.len(),
{
    if c.len() > 0 {
        let t = c.drop_last();
        if j < c.len() {
            if j < t.len() {
                assert forall|q: int| 0 <= q < j implies (#[trigger] t[q]).id.0@ != url.0@ by {
                    assert(t[q] == c[q]);
                }
                lemma_find_record(t, url, j);
            } else {
                assert forall|q: int| 0 <= q < t.len() implies (#[trigger] t[q]).id.0@ != url.0@ by {
                    assert(t[q] == c[q]);
                }
                lemma_find_record(t, url, t.len() as int);
            }
        } else {
            assert forall|q: int| 0 <= q < t.len() implies (#[trigger] t[q]).id.0@ != url.0@ by {
                assert(t[q] == c[q]);
            }
            lemma_find_record(t, url, t.len() as int);
        }
    }
}

/// `f` is the feed of source `s` restored at time `now` from the record
/// `rec`, or started empty when there is none. A restored feed keeps the
/// record's hit count; its filter flags, newest item date and recency are
/// recomputed.
pub open spec fn restored(
    f: Feed,
    s: FeedSource,
    rec: Option<SerializableFeed>,
    now: Timestamp,
    threshold: u32,
) -> bool {
    &&& f.conf == s
    &&& match rec {
        None => {
            &&& f.data.is_none()
            &&& f.metrics.latest_item_date.is_none()
            &&& f.metrics.hits == 0
            &&& !f.metrics.is_recent
        },
        Some(r) => {
            &&& f.metrics.hits == r.metrics.hits
            &&& f.data.is_some()
            &&& f.metrics.latest_item_date == latest_posted(f.data.unwrap().items@)
            &&& f.metrics.is_recent == is_recent_at(f.metrics.latest_item_date, now, threshold)
            &&& f.data.unwrap().meta_equiv(r.data)
            &&& items_equiv(f.data.unwrap().items@, flagged_items(r.data.items@, s.filter))
        },
    }
}

pub open spec fn record_for(c: Seq<SerializableFeed>, url: FeedId) -> Option<SerializableFeed> {
    match find_record(c, url) {
        Some(j) => Some(c[j]),
        None => None,
    }
}

impl Sources {
    /// One feed per source, in order, carrying a copy of the content and the
    /// hit count of the first cached record with the source's URL (records
    /// of other URLs are dropped); the title filter flags and the metrics are
    /// recomputed at time `now`.
    pub fn bind_to_cached(
        self,
        cached_feeds: Vec<SerializableFeed>,
        now: Timestamp,
        threshold: u32,
    ) -> (r: Vec<Feed>)
        ensures
            r@.len() == self.0@.len(),
            forall|i: int|
                0 <= i < r@.len() ==> restored(
                    #[trigger] r@[i],
                    self.0@[i],
                    record_for(cached_feeds@, self.0@[i].url),
                    now,
                    threshold,
                ),
    {
        let ghost srcs = self.0@;
        let n: usize = self.0.len();
        let mut list = self.0;
        let mut out: Vec<Feed> = Vec::new();
        let mut i: usize = 0;
        while list.len() > 0
            invariant
                i + list.len() == srcs.len(),
                srcs.len() == n,
                list@ == srcs.skip(i as int),
                out@.len() == i,
                forall|q: int|
                    0 <= q < i ==> restored(
                        #[trigger] out@[q],
                        srcs[q],
                        record_for(cached_feeds@, srcs[q].url),
                        now,
                        threshold,
                    ),
            decreases list.len(),
        {
            let s = list.remove(0);
            assert(s == srcs[i as int]);
            assert(list@ == srcs.skip(i as int + 1));
            let mut j: usize = 0;
            while j < cached_feeds.len() && cached_feeds[j].id != s.url
                invariant
                    j <= cached_feeds.len(),
                    forall|q: int| 0 <= q < j ==> (#[trigger] cached_feeds@[q]).id.0@ != s.url.0@,
                decreases cached_feeds.len() - j,
            {
                j = j + 1;
            }
            proof {
                lemma_find_record(cached_feeds@, s.url, j as int);
            }
            let mut feed = if j < cached_feeds.len() {
                let d = cached_feeds[j].data.clone();
                Feed { conf: s, data: Some(d), metrics: cached_feeds[j].metrics }
            } else {
                Feed { conf: s, data: None, metrics: FeedMetrics::default() }
            };
            let ghost before = feed;
            feed.refresh_items_metrics();
            proof {
                if j < cached_feeds.len() {
                    lemma_flagged_items_equiv(
                        before.data.unwrap().items@,
                        cached_feeds@[j as int].data.items@,
                        before.conf.filter,
                    );
                }
            }
            feed.refresh_feed_metrics(now, threshold);
            out.push(feed);
            i = i + 1;
        }
        out
    }
}

/// How many days an item counts as recent, and how many fetches run at once.
pub struct Config {
    pub relative_time_threshold: u32,
    pub max_concurrency: usize,
}

/// The configuration file as written: every field may be left out.
pub struct PartialConfig {
    pub relative_time_threshold: Option<u32>,
    pub max_concurrency: Option<usize>,
}

pub const DEFAULT_RELATIVE_TIME_THRESHOLD: u32 = 3;

pub const DEFAULT_MAX_CONCURRENCY: usize = 5;

pub open spec fn config_of(p: PartialConfig) -> Config {
    Config {
        relative_time_threshold: p.relative_time_threshold.unwrap_or(
            DEFAULT_RELATIVE_TIME_THRESHOLD,
        ),
        max_concurrency: p.max_concurrency.unwrap_or(DEFAULT_MAX_CONCURRENCY),
    }
}

impl From<PartialConfig> for Config {
    /// Missing values take their defaults.
    fn from(value: PartialConfig) -> (r: Config)
        ensures
            r == config_of(value),
    {
        Config {
            relative_time_threshold: match value.relative_time_threshold {
                Some(n) => n,
                None => DEFAULT_RELATIVE_TIME_THRESHOLD,
            },
            max_concurrency: match value.max_concurrency {
                Some(n) => n,
                None => DEFAULT_MAX_CONCURRENCY,
            },
        }
    }
}

impl vstd::std_specs::convert::FromSpecImpl<PartialConfig> for Config {
    open spec fn obeys_from_spec() -> bool {
        true
    }

    open spec fn from_spec(v: PartialConfig) -> Config {
        config_of(v)
    }
}

} // verus!
