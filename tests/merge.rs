use rrss_core::config::{FeedFilter, FeedSource};
use rrss_core::feed::{is_recent, Feed};
use rrss_core::models::{FeedAdapter, FeedId, FeedMetrics, FeedTypeAdapter, Item, ItemId};

fn item(id: &str, posted: Option<i64>) -> Item {
    Item {
        id: ItemId(id.to_string()),
        is_read: false,
        is_filtered: false,
        title: Some(format!("title {}", id)),
        content: None,
        summary: None,
        media: vec![],
        posted,
        links: vec![],
    }
}

fn content(items: Vec<Item>) -> FeedAdapter {
    FeedAdapter {
        feed_type: FeedTypeAdapter::Atom,
        title: "Feed".to_string(),
        items,
        published: None,
        updated: None,
        links: vec![],
        authors: vec![],
        description: None,
        categories: vec![],
        language: None,
    }
}

fn source(url: &str, max_items: u32, filter: Option<FeedFilter>) -> FeedSource {
    FeedSource {
        url: FeedId(url.to_string()),
        tags: vec![],
        manual_update: false,
        filter,
        max_items,
    }
}

fn ids(feed: &Feed) -> Vec<String> {
    feed.items().unwrap().iter().map(|i| i.id.0.clone()).collect()
}

#[test]
fn merge_scenario_evicts_oldest_and_keeps_duplicate() {
    let mut feed = Feed {
        conf: source("http://a", 3, None),
        metrics: FeedMetrics::default(),
        data: Some(content(vec![item("A", Some(3)), item("B", Some(2)), item("C", Some(1))])),
    };
    feed.data.as_mut().unwrap().items[0].is_read = true;
    let mut dup = item("A", Some(3));
    dup.title = Some("changed".to_string());
    feed.merge_feed(content(vec![item("D", Some(4)), dup]), 10, 3);
    assert_eq!(ids(&feed), vec!["D", "A", "B"]);
    let items = feed.items().unwrap();
    assert!(items[1].is_read);
    assert_eq!(items[1].title.as_deref(), Some("title A"));
    assert_eq!(feed.metrics.latest_item_date, Some(4));
}

#[test]
fn first_content_is_sorted_and_cut() {
    let mut feed = Feed { conf: source("http://a", 2, None), metrics: FeedMetrics::default(), data: None };
    let mut c = content(vec![item("X", Some(1)), item("Y", Some(5)), item("X", Some(9)), item("Z", Some(3))]);
    c.title = "First".to_string();
    feed.merge_feed(c, 0, 3);
    assert_eq!(ids(&feed), vec!["Y", "Z"]);
    assert_eq!(feed.name(), "First");
    assert_eq!(feed.metrics.latest_item_date, Some(5));
}

#[test]
fn merge_of_known_items_changes_nothing() {
    let mut feed = Feed {
        conf: source("http://a", 10, None),
        metrics: FeedMetrics::default(),
        data: Some(content(vec![item("A", Some(3)), item("B", Some(2))])),
    };
    feed.data.as_mut().unwrap().items[1].is_read = true;
    feed.merge_feed(content(vec![item("B", Some(2)), item("A", Some(3))]), 0, 3);
    assert_eq!(ids(&feed), vec!["A", "B"]);
    let items = feed.items().unwrap();
    assert!(!items[0].is_read && items[1].is_read);
    assert!(!items[0].is_filtered && !items[1].is_filtered);
}

#[test]
fn repeated_merges_stay_within_bound_and_keep_newest() {
    let mut feed = Feed {
        conf: source("http://a", 2, None),
        metrics: FeedMetrics::default(),
        data: Some(content(vec![item("A", Some(1))])),
    };
    for (n, t) in [("B", 5), ("C", 2), ("D", 7), ("E", 0)] {
        feed.merge_feed(content(vec![item(n, Some(t))]), 0, 3);
        assert!(feed.items().unwrap().len() <= 2);
    }
    assert_eq!(ids(&feed), vec!["D", "B"]);
}

#[test]
fn undated_items_sort_last_and_ties_keep_order() {
    let mut feed = Feed {
        conf: source("http://a", 10, None),
        metrics: FeedMetrics::default(),
        data: Some(content(vec![item("N1", None), item("A", Some(2))])),
    };
    feed.merge_feed(content(vec![item("N2", None), item("B", Some(2)), item("C", Some(9))]), 0, 3);
    assert_eq!(ids(&feed), vec!["C", "A", "B", "N1", "N2"]);
}

#[test]
fn merge_recomputes_title_filter_flags() {
    let filter = FeedFilter { pattern: "^IMPORTANT".to_string(), invert: false, case_insensitive: true };
    let mut feed = Feed {
        conf: source("http://a", 10, Some(filter)),
        metrics: FeedMetrics::default(),
        data: Some(content(vec![])),
    };
    let mut a = item("A", Some(1));
    a.title = Some("important: read me".to_string());
    let b = item("B", Some(2));
    feed.merge_feed(content(vec![a, b]), 0, 3);
    let items = feed.items().unwrap();
    assert_eq!(ids(&feed), vec!["B", "A"]);
    assert!(!items[0].is_filtered);
    assert!(items[1].is_filtered);
    assert!(feed.has_new_unfiltered());
}

#[test]
fn inverted_filter_and_bad_pattern() {
    let inverted = FeedFilter { pattern: "ad".to_string(), invert: true, case_insensitive: false };
    let mut it = item("A", None);
    it.title = Some("an ad".to_string());
    assert!(it.title_matches(&inverted));
    let bad = FeedFilter { pattern: "(".to_string(), invert: false, case_insensitive: false };
    assert!(!it.title_matches(&bad));
    let upper = FeedFilter { pattern: "AN".to_string(), invert: false, case_insensitive: false };
    assert!(!it.title_matches(&upper));
    let upper_ci = FeedFilter { pattern: "AN".to_string(), invert: false, case_insensitive: true };
    assert!(it.title_matches(&upper_ci));
}

#[test]
fn recent_counts_whole_days() {
    let day = 86400;
    assert!(is_recent(Some(0), 2 * day + day - 1, 3));
    assert!(!is_recent(Some(0), 3 * day, 3));
    assert!(!is_recent(None, 0, 3));
    assert!(!is_recent(Some(day - 1), 0, 0));
    assert!(is_recent(Some(day), 0, 0));
}

#[test]
fn merge_sets_is_recent() {
    let mut feed = Feed { conf: source("http://a", 10, None), metrics: FeedMetrics::default(), data: None };
    feed.merge_feed(content(vec![item("A", Some(1000))]), 1000 + 86400, 3);
    assert!(feed.metrics.is_recent);
    feed.merge_feed(content(vec![]), 1000 + 5 * 86400, 3);
    assert!(!feed.metrics.is_recent);
}

#[test]
fn feed_helpers() {
    let mut feed = Feed {
        conf: source("http://a", 10, None),
        metrics: FeedMetrics::default(),
        data: None,
    };
    assert_eq!(feed.name(), "http://a");
    assert_eq!(feed.feed_type(), FeedTypeAdapter::Unknown);
    assert_eq!(feed.tot_unread(), 0);
    feed.data = Some(content(vec![item("A", None), item("B", None)]));
    feed.data.as_mut().unwrap().items[0].is_read = true;
    assert_eq!(feed.name(), "Feed");
    assert_eq!(feed.tot_unread(), 1);
    assert!(!feed.has_new_unfiltered());
    feed.increment_hits();
    assert_eq!(feed.metrics.hits, 1);
    feed.mark_all_read();
    assert_eq!(feed.tot_unread(), 0);
    feed.metrics.latest_item_date = Some(7);
    feed.metrics.is_recent = true;
    feed.clear_data();
    assert!(feed.items().is_none());
    assert_eq!(feed.metrics.hits, 1);
    assert_eq!(feed.metrics.latest_item_date, None);
    assert!(!feed.metrics.is_recent);
    assert_eq!(feed.url(), "http://a");
}

#[test]
fn zero_retention_keeps_nothing() {
    let mut feed = Feed {
        conf: source("http://a", 0, None),
        metrics: FeedMetrics::default(),
        data: Some(content(vec![item("A", Some(1))])),
    };
    feed.merge_feed(content(vec![item("B", Some(2))]), 0, 3);
    assert!(feed.items().unwrap().is_empty());
    assert_eq!(feed.metrics.latest_item_date, None);
    assert!(!feed.metrics.is_recent);
}

#[test]
fn hits_stop_at_the_largest_count() {
    let mut feed = Feed {
        conf: source("http://a", 1, None),
        metrics: FeedMetrics { latest_item_date: None, hits: usize::MAX, is_recent: false },
        data: None,
    };
    feed.increment_hits();
    assert_eq!(feed.metrics.hits, usize::MAX);
}

#[test]
fn an_id_repeated_within_a_batch_is_taken_once() {
    let mut feed = Feed {
        conf: source("http://a", 10, None),
        metrics: FeedMetrics::default(),
        data: Some(content(vec![])),
    };
    let mut second = item("A", Some(2));
    second.title = Some("second".to_string());
    feed.merge_feed(content(vec![item("A", Some(1)), second, item("B", Some(0))]), 0, 3);
    assert_eq!(ids(&feed), vec!["A", "B"]);
    let items = feed.items().unwrap();
    assert_eq!(items[0].posted, Some(1));
    assert_eq!(items[0].title.as_deref(), Some("title A"));
}
