//! What is persisted of a feed: its identity, content and metrics, never its
//! configuration.

use vstd::prelude::*;
use crate::feed::{
    Feed, flagged_items, flags_consistent, is_recent_at, latest_posted, lemma_flagged_items_equiv,
};
use crate::config::{find_record, record_for, restored};
use crate::models::{FeedAdapter, FeedId, FeedMetrics, Item, Timestamp, items_equiv, media_equiv};

verus! {

/// The cached record of one feed.
pub struct SerializableFeed {
    pub id: FeedId,
    pub data: FeedAdapter,
    pub metrics: FeedMetrics,
}

impl SerializableFeed {
    /// The record of `feed`, a copy of its id, content and metrics; `None`
    /// when the feed has no content.
    pub fn try_from_feed(feed: &Feed) -> (r: Option<Self>)
        ensures
            feed.data.is_none() ==> r.is_none(),
            feed.data.is_some() ==> r.is_some() && r.unwrap().id == feed.conf.url
                && r.unwrap().data.equiv(feed.data.unwrap()) && r.unwrap().metrics == feed.metrics,
    {
        match &feed.data {
            None => None,
            Some(d) => Some(
                SerializableFeed { id: feed.conf.url.clone(), data: d.clone(), metrics: feed.metrics },
            ),
        }
    }
}

/// The records of the feeds that have content, in order.
pub open spec fn records_of(feeds: Seq<Feed>) -> Seq<Feed>
    decreases feeds.len(),
{
    if feeds.len() == 0 {
        feeds
    } else if feeds.last().data.is_some() {
        records_of(feeds.drop_last()).push(feeds.last())
    } else {
        records_of(feeds.drop_last())
    }
}

/// `rec` is the record of `f`.
pub open spec fn is_record_of(rec: SerializableFeed, f: Feed) -> bool {
    &&& f.data.is_some()
    &&& rec.id == f.conf.url
    &&& rec.data.equiv(f.data.unwrap())
    &&& rec.metrics == f.metrics
}

/// The whole cache: one record per feed with content.
pub struct CachedFeeds(pub Vec<SerializableFeed>);

impl CachedFeeds {
    /// The records of the feeds that have content, in their order.
    pub fn from_feeds(feeds: &Vec<Feed>) -> (r: CachedFeeds)
        ensures
            r.0@.len() == records_of(feeds@).len(),
            forall|i: int|
                0 <= i < r.0@.len() ==> is_record_of(#[trigger] r.0@[i], records_of(feeds@)[i]),
    {
        let mut out: Vec<SerializableFeed> = Vec::new();
        let mut i: usize = 0;
        while i < feeds.len()
            invariant
                i <= feeds.len(),
                out@.len() == records_of(feeds@.take(i as int)).len(),
                forall|j: int|
                    0 <= j < out@.len() ==> is_record_of(
                        #[trigger] out@[j],
                        records_of(feeds@.take(i as int))[j],
                    ),
            decreases feeds.len() - i,
        {
            proof {
                assert(feeds@.take(i as int + 1).drop_last() == feeds@.take(i as int));
            }
            match SerializableFeed::try_from_feed(&feeds[i]) {
                Some(rec) => {
                    out.push(rec);
                },
                None => {},
            }
            i = i + 1;
        }
        assert(feeds@.take(i as int) == feeds@);
        CachedFeeds(out)
    }
}

proof fn lemma_records_of_elements(feeds: Seq<Feed>)
    ensures
        forall|j: int|
            0 <= j < records_of(feeds).len() ==> exists|i: int|
                0 <= i < feeds.len() && #[trigger] records_of(feeds)[j] == feeds[i],
    decreases feeds.len(),
{
    if feeds.len() > 0 {
        let t = feeds.drop_last();
        lemma_records_of_elements(t);
        assert forall|j: int| 0 <= j < records_of(feeds).len() implies exists|i: int|
            0 <= i < feeds.len() && #[trigger] records_of(feeds)[j] == feeds[i] by {
            if j < records_of(t).len() {
                let i = choose|i: int| 0 <= i < t.len() && records_of(t)[j] == t[i];
                assert(records_of(feeds)[j] == feeds[i]);
            } else {
                assert(records_of(feeds)[j] == feeds[feeds.len() - 1]);
            }
        }
    }
}

/// With distinct URLs, the record found for a feed's URL among the feeds'
/// records is that feed's own, and a feed without content has none.
proof fn lemma_record_for_feed(feeds: Seq<Feed>, recs: Seq<SerializableFeed>, i: int)
    requires
        recs.len() == records_of(feeds).len(),
        forall|q: int| 0 <= q < recs.len() ==> is_record_of(#[trigger] recs[q], records_of(feeds)[q]),
        forall|p: int, q: int|
            0 <= p < q < feeds.len() ==> (#[trigger] feeds[p]).conf.url.0@ != (#[trigger] feeds[q]).conf.url.0@,
        0 <= i < feeds.len(),
    ensures
        feeds[i].data.is_none() ==> record_for(recs, feeds[i].conf.url).is_none(),
        feeds[i].data.is_some() ==> record_for(recs, feeds[i].conf.url).is_some() && is_record_of(
            record_for(recs, feeds[i].conf.url).unwrap(),
            feeds[i],
        ),
    decreases feeds.len(),
{
    let t = feeds.drop_last();
    let f = feeds.last();
    let url = feeds[i].conf.url;
    let rt = if f.data.is_some() {
        recs.drop_last()
    } else {
        recs
    };
    assert(records_of(feeds) == if f.data.is_some() {
        records_of(t).push(f)
    } else {
        records_of(t)
    });
    assert forall|q: int| 0 <= q < rt.len() implies is_record_of(#[trigger] rt[q], records_of(t)[q]) by {
        assert(rt[q] == recs[q]);
        assert(records_of(t)[q] == records_of(feeds)[q]);
    }
    assert forall|p: int, q: int| 0 <= p < q < t.len() implies (#[trigger] t[p]).conf.url.0@ != (
    #[trigger] t[q]).conf.url.0@ by {
        assert(t[p] == feeds[p] && t[q] == feeds[q]);
    }
    if i < t.len() {
        assert(t[i] == feeds[i]);
        lemma_record_for_feed(t, rt, i);
        assert(f.conf.url.0@ != url.0@) by {
            assert(feeds[feeds.len() - 1] == f);
        }
        if f.data.is_some() {
            assert(recs.drop_last() == rt);
            assert(recs.last().id == f.conf.url);
            if feeds[i].data.is_some() {
                crate::config::lemma_find_record_range(rt, url);
                let j = find_record(rt, url).unwrap();
                assert(find_record(recs, url) == Some(j));
                assert(recs[j] == rt[j]);
            }
        }
    } else {
        assert(feeds[i] == f);
        lemma_records_of_elements(t);
        assert forall|q: int| 0 <= q < rt.len() implies (#[trigger] rt[q]).id.0@ != url.0@ by {
            let p = choose|p: int| 0 <= p < t.len() && #[trigger] records_of(t)[q] == t[p];
            assert(t[p] == feeds[p]);
            assert(rt[q].id == records_of(t)[q].conf.url);
        }
        crate::config::lemma_find_record(rt, url, rt.len() as int);
        if f.data.is_some() {
            assert(recs.drop_last() == rt);
            assert(recs.last().id == f.conf.url);
            assert(is_record_of(recs[recs.len() - 1], records_of(feeds)[recs.len() - 1]));
            assert(records_of(feeds)[recs.len() - 1] == f);
            assert(find_record(recs, url) == Some(recs.len() - 1));
        }
    }
}

proof fn lemma_items_equiv_transitive(a: Seq<Item>, b: Seq<Item>, c: Seq<Item>)
    requires
        items_equiv(a, b),
        items_equiv(b, c),
    ensures
        items_equiv(a, c),
{
    assert forall|i: int| 0 <= i < a.len() implies (#[trigger] a[i]).equiv(c[i]) by {
        assert(a[i].equiv(b[i]) && b[i].equiv(c[i]));
        assert(media_equiv(a[i].media@, c[i].media@)) by {
            assert forall|q: int| 0 <= q < a[i].media@.len() implies (#[trigger] a[i].media@[q]).equiv(
                c[i].media@[q],
            ) by {
                assert(a[i].media@[q].equiv(b[i].media@[q]));
                assert(b[i].media@[q].equiv(c[i].media@[q]));
            }
        }
    }
}

proof fn lemma_latest_posted_equiv(a: Seq<Item>, b: Seq<Item>)
    requires
        items_equiv(a, b),
    ensures
        latest_posted(a) == latest_posted(b),
    decreases a.len(),
{
    if a.len() > 0 {
        let (ta, tb) = (a.drop_last(), b.drop_last());
        assert(items_equiv(ta, tb)) by {
            assert forall|i: int| 0 <= i < ta.len() implies (#[trigger] ta[i]).equiv(tb[i]) by {
                assert(ta[i] == a[i] && tb[i] == b[i]);
            }
        }
        lemma_latest_posted_equiv(ta, tb);
        assert(a[a.len() - 1].equiv(b[b.len() - 1]));
    }
}

/// Cache round trip: feeds restored at time `now` from the records of a
/// collection whose URLs are distinct and whose filter flags and metrics are
/// up to date at `now`, with the same sources, have the content and metrics
/// they had; a feed that had no content has none.
pub proof fn cache_round_trip(
    feeds: Seq<Feed>,
    recs: Seq<SerializableFeed>,
    restored_feeds: Seq<Feed>,
    now: Timestamp,
    threshold: u32,
)
    requires
        recs.len() == records_of(feeds).len(),
        forall|q: int| 0 <= q < recs.len() ==> is_record_of(#[trigger] recs[q], records_of(feeds)[q]),
        forall|p: int, q: int|
            0 <= p < q < feeds.len() ==> (#[trigger] feeds[p]).conf.url.0@ != (#[trigger] feeds[q]).conf.url.0@,
        forall|q: int|
            0 <= q < feeds.len() ==> flags_consistent(
                (#[trigger] feeds[q]).item_seq(),
                feeds[q].conf.filter,
            ),
        forall|q: int|
            0 <= q < feeds.len() && (#[trigger] feeds[q]).data.is_some() ==> {
                &&& feeds[q].metrics.latest_item_date == latest_posted(feeds[q].item_seq())
                &&& feeds[q].metrics.is_recent == is_recent_at(
                    feeds[q].metrics.latest_item_date,
                    now,
                    threshold,
                )
            },
        restored_feeds.len() == feeds.len(),
        forall|q: int|
            0 <= q < feeds.len() ==> restored(
                #[trigger] restored_feeds[q],
                feeds[q].conf,
                record_for(recs, feeds[q].conf.url),
                now,
                threshold,
            ),
    ensures
        forall|q: int|
            0 <= q < feeds.len() && (#[trigger] feeds[q]).data.is_some() ==> restored_feeds[q].metrics
                == feeds[q].metrics && restored_feeds[q].data.unwrap().equiv(feeds[q].data.unwrap()),
        forall|q: int|
            0 <= q < feeds.len() && (#[trigger] feeds[q]).data.is_none()
                ==> restored_feeds[q].data.is_none(),
{
    assert forall|q: int| 0 <= q < feeds.len() && (#[trigger] feeds[q]).data.is_some() implies restored_feeds[q].metrics
        == feeds[q].metrics && restored_feeds[q].data.unwrap().equiv(feeds[q].data.unwrap()) by {
        lemma_record_for_feed(feeds, recs, q);
        let r = record_for(recs, feeds[q].conf.url).unwrap();
        let f = feeds[q];
        let d = f.data.unwrap();
        let g = restored_feeds[q].data.unwrap();
        lemma_flagged_items_equiv(r.data.items@, d.items@, f.conf.filter);
        assert(flagged_items(d.items@, f.conf.filter) =~= d.items@) by {
            assert(flags_consistent(f.item_seq(), f.conf.filter));
        }
        lemma_items_equiv_transitive(
            g.items@,
            flagged_items(r.data.items@, f.conf.filter),
            d.items@,
        );
        lemma_latest_posted_equiv(g.items@, d.items@);
    }
    assert forall|q: int| 0 <= q < feeds.len() && (#[trigger] feeds[q]).data.is_none()
        implies restored_feeds[q].data.is_none() by {
        lemma_record_for_feed(feeds, recs, q);
    }
}

} // verus!
