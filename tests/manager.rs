use rrss_core::cache::{CachedFeeds, SerializableFeed};
use rrss_core::config::{Config, FeedSource, Sources};
use rrss_core::feed_manager::{ChannelPoll, FeedManager, FetchResult, TaskStatus};
use rrss_core::filter::Filter;
use rrss_core::models::{FeedAdapter, FeedId, FeedMetrics, FeedTypeAdapter, Item, ItemId, Link};
use rrss_core::sorter::{FeedOrder, ItemOrder, LinkOrder, Sorter, TagOrder};

fn item(id: &str, title: &str, posted: i64) -> Item {
    Item {
        id: ItemId(id.to_string()),
        is_read: false,
        is_filtered: false,
        title: Some(title.to_string()),
        content: None,
        summary: None,
        media: vec![],
        posted: Some(posted),
        links: vec![Link { href: format!("http://{}", id), title: None, mime_type: None }],
    }
}

fn content(title: &str, items: Vec<Item>) -> FeedAdapter {
    FeedAdapter {
        feed_type: FeedTypeAdapter::RSS2,
        title: title.to_string(),
        items,
        published: None,
        updated: None,
        links: vec![],
        authors: vec![],
        description: None,
        categories: vec![],
        language: None,
    }
}

fn source(url: &str, tags: &[&str], manual: bool) -> FeedSource {
    FeedSource {
        url: FeedId(url.to_string()),
        tags: tags.iter().map(|t| t.to_string()).collect(),
        manual_update: manual,
        filter: None,
        max_items: 100,
    }
}

fn record(url: &str, data: FeedAdapter, hits: usize) -> SerializableFeed {
    SerializableFeed {
        id: FeedId(url.to_string()),
        data,
        metrics: FeedMetrics { latest_item_date: Some(3), hits, is_recent: false },
    }
}

fn config() -> Config {
    Config { relative_time_threshold: 3, max_concurrency: 5 }
}

fn manager() -> FeedManager {
    let sources = Sources(vec![
        source("http://a", &["news", "tech"], false),
        source("http://b", &["tech"], true),
        source("http://c", &[], false),
    ]);
    let cached = CachedFeeds(vec![
        record("http://a", content("Alpha", vec![item("a1", "Rust news", 3), item("a2", "Other", 1)]), 4),
        record("http://b", content("Beta", vec![item("b1", "rust again", 2)]), 0),
        record("http://gone", content("Gone", vec![item("g1", "x", 1)]), 0),
    ]);
    FeedManager::new(sources, cached, config(), 3 + 86400)
}

fn item_ids(items: &[Item]) -> Vec<String> {
    items.iter().map(|i| i.id.0.clone()).collect()
}

#[test]
fn binding_restores_cached_content() {
    let fm = manager();
    let feeds = fm.get_feeds(&Filter::new(), &Sorter::none());
    assert_eq!(feeds.len(), 3);
    assert_eq!(feeds[0].name(), "Alpha");
    assert_eq!(feeds[0].metrics.hits, 4);
    assert_eq!(feeds[1].name(), "Beta");
    assert!(feeds[2].data.is_none());
    assert_eq!(feeds[2].metrics.hits, 0);
    assert_eq!(feeds[1].metrics.latest_item_date, Some(2));
    assert!(feeds[0].metrics.is_recent);
}

#[test]
fn cache_round_trip_keeps_content_and_metrics() {
    let fm = manager();
    let records = fm.cache_records();
    assert_eq!(records.0.len(), 2);
    let sources = Sources(vec![
        source("http://a", &["news", "tech"], false),
        source("http://b", &["tech"], true),
        source("http://c", &[], false),
    ]);
    let again = FeedManager::new(sources, records, config(), 3 + 86400);
    let before = fm.get_feeds(&Filter::new(), &Sorter::none());
    let after = again.get_feeds(&Filter::new(), &Sorter::none());
    for (x, y) in before.iter().zip(after.iter()) {
        assert_eq!(x.metrics.hits, y.metrics.hits);
        assert_eq!(x.metrics.latest_item_date, y.metrics.latest_item_date);
        assert_eq!(x.name(), y.name());
        assert_eq!(x.items().map(|v| item_ids(v)), y.items().map(|v| item_ids(v)));
    }
}

#[test]
fn poll_protocol_batch() {
    let mut fm = manager();
    assert!(matches!(fm.poll_update_feeds(ChannelPoll::Empty, 0), TaskStatus::Idle));
    let targets = fm.update_feeds(&Filter::new());
    let urls: Vec<String> = targets.iter().map(|f| f.0.clone()).collect();
    assert_eq!(urls, vec!["http://a", "http://c"]);
    assert!(matches!(fm.poll_update_feeds(ChannelPoll::Empty, 0), TaskStatus::Running));
    let results: Vec<FetchResult> = vec![
        Ok(record("http://c", content("Gamma", vec![item("c1", "fresh", 9)]), 0)),
        Err("http://a: timeout".to_string()),
    ];
    match fm.poll_update_feeds(ChannelPoll::Received(results), 9) {
        TaskStatus::Done(errs) => assert_eq!(errs, vec!["http://a: timeout".to_string()]),
        _ => panic!("expected Done"),
    }
    assert!(matches!(fm.poll_update_feeds(ChannelPoll::Empty, 0), TaskStatus::Idle));
    let c = fm.get_feed(&FeedId("http://c".to_string())).unwrap();
    assert_eq!(c.name(), "Gamma");
    assert_eq!(c.metrics.latest_item_date, Some(9));
}

#[test]
fn poll_protocol_closed_channel() {
    let mut fm = manager();
    let _ = fm.update_feeds(&Filter::new());
    match fm.poll_update_feeds(ChannelPoll::Closed, 0) {
        TaskStatus::Error(m) => assert_eq!(m, "Internal error"),
        _ => panic!("expected Error"),
    }
    assert!(matches!(fm.poll_update_feeds(ChannelPoll::Empty, 0), TaskStatus::Idle));
}

#[test]
fn poll_protocol_single_feed() {
    let mut fm = manager();
    assert!(matches!(fm.poll_update_feed(ChannelPoll::Empty, 0), TaskStatus::Idle));
    assert!(!fm.update_feed(&FeedId("http://none".to_string())));
    assert!(fm.update_feed(&FeedId("http://b".to_string())));
    assert!(matches!(fm.poll_update_feed(ChannelPoll::Empty, 0), TaskStatus::Running));
    match fm.poll_update_feed(ChannelPoll::Received(Err("boom".to_string())), 0) {
        TaskStatus::Error(m) => assert_eq!(m, "boom"),
        _ => panic!("expected Error"),
    }
    assert!(fm.update_feed(&FeedId("http://b".to_string())));
    let rec = record("http://b", content("Beta2", vec![item("b2", "new", 5)]), 0);
    assert!(matches!(fm.poll_update_feed(ChannelPoll::Received(Ok(rec)), 5), TaskStatus::Done(())));
    let b = fm.get_feed(&FeedId("http://b".to_string())).unwrap();
    assert_eq!(item_ids(b.items().unwrap()), vec!["b2", "b1"]);
    assert_eq!(b.name(), "Beta");
}

#[test]
fn mark_feed_as_read_touches_only_that_feed() {
    let mut fm = manager();
    fm.mark_feed_as_read(&FeedId("http://a".to_string()));
    let a = fm.get_feed(&FeedId("http://a".to_string())).unwrap();
    assert!(a.items().unwrap().iter().all(|i| i.is_read));
    let b = fm.get_feed(&FeedId("http://b".to_string())).unwrap();
    assert!(b.items().unwrap().iter().all(|i| !i.is_read));
    assert_eq!(fm.get_items(&Filter::new().read_item(), &Sorter::none()).len(), 2);
    assert_eq!(fm.get_items(&Filter::new().unread_item(), &Sorter::none()).len(), 1);
}

#[test]
fn mark_item_and_hits() {
    let mut fm = manager();
    assert!(fm.mark_item_as_read(&ItemId("a2".to_string())));
    assert!(!fm.mark_item_as_read(&ItemId("zz".to_string())));
    assert!(fm.get_item(&ItemId("a2".to_string())).unwrap().is_read);
    assert!(!fm.get_item(&ItemId("a1".to_string())).unwrap().is_read);
    assert!(fm.get_item(&ItemId("zz".to_string())).is_none());
    assert!(fm.increment_feed_hits(&FeedId("http://c".to_string())));
    assert!(!fm.increment_feed_hits(&FeedId("http://zz".to_string())));
    assert_eq!(fm.get_feed(&FeedId("http://c".to_string())).unwrap().metrics.hits, 1);
}

#[test]
fn clear_drops_content_keeps_metrics() {
    let mut fm = manager();
    fm.clear();
    let feeds = fm.get_feeds(&Filter::new(), &Sorter::none());
    assert!(feeds.iter().all(|f| f.data.is_none()));
    assert!(feeds.iter().all(|f| f.metrics.latest_item_date.is_none() && !f.metrics.is_recent));
    assert_eq!(feeds[0].metrics.hits, 4);
    assert!(fm.get_items(&Filter::new(), &Sorter::none()).is_empty());
}

#[test]
fn filter_criteria_intersect() {
    let fm = manager();
    let tech = item_ids(&fm.get_items(&Filter::new().tag_id("tech".to_string()), &Sorter::none()));
    assert_eq!(tech, vec!["a1", "a2", "b1"]);
    let rust = item_ids(&fm.get_items(&Filter::new().item_contains("RUST".to_string()), &Sorter::none()));
    assert_eq!(rust, vec!["a1", "b1"]);
    let news = item_ids(&fm.get_items(&Filter::new().tag_id("news".to_string()), &Sorter::none()));
    assert_eq!(news, vec!["a1", "a2"]);
    let both = item_ids(&fm.get_items(
        &Filter::new().tag_id("news".to_string()).item_contains("rust".to_string()),
        &Sorter::none(),
    ));
    let expected: Vec<String> = rust.iter().filter(|i| news.contains(i)).cloned().collect();
    assert_eq!(both, expected);
    assert_eq!(both, vec!["a1"]);
}

#[test]
fn feed_filters() {
    let fm = manager();
    let unread: Vec<String> = fm
        .get_feeds(&Filter::new().unread_feed(), &Sorter::none())
        .iter()
        .map(|f| f.url().to_string())
        .collect();
    assert_eq!(unread, vec!["http://a", "http://b"]);
    let read: Vec<String> = fm
        .get_feeds(&Filter::new().read_feed(), &Sorter::none())
        .iter()
        .map(|f| f.url().to_string())
        .collect();
    assert_eq!(read, vec!["http://c"]);
    let named = fm.get_feeds(&Filter::new().feed_contains("ALPH".to_string()), &Sorter::none());
    assert_eq!(named.len(), 1);
    assert_eq!(named[0].name(), "Alpha");
    let by_id = fm.get_feeds(&Filter::new().feed_id(FeedId("http://b".to_string())), &Sorter::none());
    assert_eq!(by_id.len(), 1);
}

#[test]
fn tags_are_counted() {
    let fm = manager();
    let tags = fm.get_tags(&Filter::new(), &Sorter::none());
    let v: Vec<(String, usize)> = tags.iter().map(|t| (t.name.clone(), t.count)).collect();
    assert_eq!(v, vec![("news".to_string(), 1), ("tech".to_string(), 2)]);
    let by_count = fm.get_tags(&Filter::new(), &Sorter::descending(TagOrder::Count));
    assert_eq!(by_count[0].name, "tech");
    let some = fm.get_tags(&Filter::new().tag_contains("TE".to_string()), &Sorter::none());
    assert_eq!(some.len(), 1);
    assert_eq!(some[0].name, "tech");
}

#[test]
fn sorted_queries() {
    let fm = manager();
    let by_title = item_ids(&fm.get_items(&Filter::new(), &Sorter::ascending(ItemOrder::Title)));
    assert_eq!(by_title, vec!["a2", "a1", "b1"]);
    let newest = item_ids(&fm.get_items(&Filter::new(), &Sorter::descending(ItemOrder::Posted)));
    assert_eq!(newest, vec!["a1", "b1", "a2"]);
    let feeds = fm.get_feeds(&Filter::new(), &Sorter::descending(FeedOrder::Title));
    let names: Vec<String> = feeds.iter().map(|f| f.name()).collect();
    assert_eq!(names, vec!["http://c", "Beta", "Alpha"]);
    let hits = fm.get_feeds(&Filter::new(), &Sorter::ascending(FeedOrder::Hits));
    assert_eq!(hits[2].name(), "Alpha");
    let links = fm.get_links(&Filter::new(), &Sorter::descending(LinkOrder::Href));
    let hrefs: Vec<String> = links.iter().map(|l| l.href.clone()).collect();
    assert_eq!(hrefs, vec!["http://b1", "http://a2", "http://a1"]);
}

#[test]
fn opml_lists_every_feed() {
    let fm = manager();
    let doc = fm.as_opml();
    let outlines: Vec<(String, Option<String>)> =
        doc.body.outlines.iter().map(|o| (o.text.clone(), o.xml_url.clone())).collect();
    assert_eq!(
        outlines,
        vec![
            ("Alpha".to_string(), Some("http://a".to_string())),
            ("Beta".to_string(), Some("http://b".to_string())),
            ("http://c".to_string(), Some("http://c".to_string())),
        ]
    );
}

#[test]
fn equal_keys_keep_their_order() {
    let fm = manager();
    let by_read = item_ids(&fm.get_items(&Filter::new(), &Sorter::ascending(ItemOrder::IsRead)));
    assert_eq!(by_read, vec!["a1", "a2", "b1"]);
    let by_unread = fm.get_feeds(&Filter::new(), &Sorter::descending(FeedOrder::TotUnreads));
    let names: Vec<String> = by_unread.iter().map(|f| f.name()).collect();
    assert_eq!(names, vec!["Alpha", "Beta", "http://c"]);
}

#[test]
fn name_and_tag_patterns_fold_case_fully() {
    let sources = Sources(vec![source("http://e", &["Écoles"], false)]);
    let cached = CachedFeeds(vec![record("http://e", content("ÉCOLE du soir", vec![]), 0)]);
    let fm = FeedManager::new(sources, cached, config(), 0);
    assert_eq!(fm.get_feeds(&Filter::new().feed_contains("école".to_string()), &Sorter::none()).len(), 1);
    assert_eq!(fm.get_tags(&Filter::new().tag_contains("éco".to_string()), &Sorter::none()).len(), 1);
}
