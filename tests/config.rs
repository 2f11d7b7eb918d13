use rrss_core::config::{
    Config, FeedFilter, FeedSource, PartialConfig, PartialFeedFilter, PartialFeedSource,
    PartialSources, Sources, SourcesError,
};
use rrss_core::models::FeedId;

fn partial(url: Option<&str>) -> PartialFeedSource {
    PartialFeedSource {
        url: url.map(|u| FeedId(u.to_string())),
        tags: vec!["t".to_string()],
        manual_update: None,
        filter: None,
        max_items: None,
    }
}

#[test]
fn sources_take_defaults_and_drop_duplicates() {
    let mut second = partial(Some("http://a"));
    second.max_items = Some(7);
    let mut third = partial(Some("http://b"));
    third.manual_update = Some(true);
    third.filter = Some(PartialFeedFilter { pattern: "x".to_string(), invert: Some(true), case_insensitive: None });
    let p = PartialSources { sources: Some(vec![partial(Some("http://a")), second, third]) };
    let s = Sources::from_partial(p).unwrap();
    assert_eq!(s.0.len(), 2);
    assert_eq!(s.0[0].url.0, "http://a");
    assert_eq!(s.0[0].max_items, 5000);
    assert!(!s.0[0].manual_update);
    assert!(s.0[1].manual_update);
    let f = s.0[1].filter.as_ref().unwrap();
    assert!(f.invert && !f.case_insensitive);
}

#[test]
fn sources_missing_url_is_an_error() {
    let p = PartialSources { sources: Some(vec![partial(Some("http://a")), partial(None), partial(None)]) };
    assert_eq!(Sources::from_partial(p).err(), Some(SourcesError::MissingUrl(1)));
    let none = Sources::from_partial(PartialSources { sources: None }).unwrap();
    assert!(none.0.is_empty());
}

#[test]
fn source_from_partial() {
    assert!(FeedSource::from_partial(partial(None)).is_none());
    let s = FeedSource::from_partial(partial(Some("http://x"))).unwrap();
    assert_eq!(s.tags, vec!["t".to_string()]);
}

#[test]
fn config_defaults() {
    let c = Config::from(PartialConfig { relative_time_threshold: None, max_concurrency: None });
    assert_eq!(c.relative_time_threshold, 3);
    assert_eq!(c.max_concurrency, 5);
    let c = Config::from(PartialConfig { relative_time_threshold: Some(1), max_concurrency: Some(9) });
    assert_eq!((c.relative_time_threshold, c.max_concurrency), (1, 9));
    let f = FeedFilter::from(PartialFeedFilter { pattern: "p".to_string(), invert: None, case_insensitive: Some(true) });
    assert!(!f.invert && f.case_insensitive);
}
