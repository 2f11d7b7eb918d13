//! The orchestrator: owns the feed collection, runs the update protocol and
//! serves queries and mutations.

use vstd::prelude::*;
use crate::cache::{CachedFeeds, SerializableFeed};
use crate::config::{Config, Sources, record_for, restored};
use crate::feed::{Feed, has_item_id, marked_read, marked_read_at, merge_ok, unread_count};
use crate::filter::{Filter, FilterTest};
use crate::models::{FeedId, Item, ItemId, Link, Tag, Timestamp, items_equiv};
use crate::sorter::{
    FeedOrder, ItemOrder, LinkOrder, Sorter, TagOrder, feed_key, item_key, lemma_sorted_by_aligned,
};

verus! {

/// What a poll of an update reports.
pub enum TaskStatus<T> {
    /// No update was started on this slot, or its result was taken.
    Idle,
    /// The update is still running.
    Running,
    /// The update ended without a result.
    Error(String),
    /// The update ended; its result was merged.
    Done(T),
}

/// What a non-blocking receive on an update's result channel gave.
pub enum ChannelPoll<T> {
    /// Nothing yet.
    Empty,
    /// The sending side is gone without a value.
    Closed,
    Received(T),
}

/// The outcome of fetching and parsing one feed: its record, or an error
/// message.
pub type FetchResult = Result<SerializableFeed, String>;

/// The message of an update that ended without a result.
pub const INTERNAL_ERROR: &'static str = "Internal error";

/// The feed collection, the configuration, and the two update slots: one for
/// a batch of feeds and one for a single feed.
pub struct FeedManager {
    feeds: Vec<Feed>,
    config: Config,
    updating_feeds: bool,
    updating_feed: bool,
}

/// Index of the first feed with the id `id`.
pub open spec fn find_feed(feeds: Seq<Feed>, id: FeedId) -> Option<int>
    decreases feeds.len(),
{
    if feeds.len() == 0 {
        None
    } else {
        match find_feed(feeds.drop_last(), id) {
            Some(j) => Some(j),
            None => if feeds.last().conf.url.0@ == id.0@ {
                Some(feeds.len() - 1)
            } else {
                None
            },
        }
    }
}

proof fn lemma_find_feed(feeds: Seq<Feed>, id: FeedId, j: int)
    requires
        0 <= j <= feeds.len(),
        forall|q: int| 0 <= q < j ==> (#[trigger] feeds[q]).conf.url.0@ != id.0@,
    ensures
        j < feeds.len() && feeds[j].conf.url.0@ == id.0@ ==> find_feed(feeds, id) == Some(j),
        j == feeds.len() ==> find_feed(feeds, id).is_none(),
    decreases feeds.len(),
{
    if feeds.len() > 0 {
        let t = feeds.drop_last();
        assert forall|q: int| 0 <= q < j && q < t.len() implies (#[trigger] t[q]).conf.url.0@
            != id.0@ by {
            assert(t[q] == feeds[q]);
        }
        if j < t.len() {
            lemma_find_feed(t, id, j);
        } else {
            lemma_find_feed(t, id, t.len() as int);
        }
    }
}

/// `after` is `before` with the record `rec` merged into the first feed of
/// its id; a record of no configured feed is dropped.
pub open spec fn merged_one(
    before: Seq<Feed>,
    rec: SerializableFeed,
    after: Seq<Feed>,
    now: Timestamp,
    threshold: u32,
) -> bool {
    match find_feed(before, rec.id) {
        None => after == before,
        Some(k) => {
            &&& after.len() == before.len()
            &&& forall|i: int| 0 <= i < before.len() && i != k ==> after[i] == before[i]
            &&& merge_ok(before[k], rec.data, after[k], now, threshold)
        },
    }
}

/// `after` is `before` with the records merged in turn.
pub open spec fn merged_all(
    before: Seq<Feed>,
    recs: Seq<SerializableFeed>,
    after: Seq<Feed>,
    now: Timestamp,
    threshold: u32,
) -> bool
    decreases recs.len(),
{
    if recs.len() == 0 {
        after == before
    } else {
        exists|mid: Seq<Feed>|
            merged_all(before, recs.drop_last(), mid, now, threshold) && #[trigger] merged_one(
                mid,
                recs.last(),
                after,
                now,
                threshold,
            )
    }
}

/// The records among the results, in order.
pub open spec fn ok_records(results: Seq<FetchResult>) -> Seq<SerializableFeed>
    decreases results.len(),
{
    if results.len() == 0 {
        Seq::empty()
    } else {
        match results.last() {
            Ok(r) => ok_records(results.drop_last()).push(r),
            Err(_) => ok_records(results.drop_last()),
        }
    }
}

/// The error messages among the results, in order.
pub open spec fn error_messages(results: Seq<FetchResult>) -> Seq<String>
    decreases results.len(),
{
    if results.len() == 0 {
        Seq::empty()
    } else {
        match results.last() {
            Ok(_) => error_messages(results.drop_last()),
            Err(e) => error_messages(results.drop_last()).push(e),
        }
    }
}

#[verifier::external_type_specification]
#[verifier::external_body]
pub struct ExOpml(opml::OPML);

/// The top-level outlines of an OPML document's body: the text of each and
/// its feed URL.
pub uninterp spec fn opml_outlines(o: opml::OPML) -> Seq<(Seq<char>, Option<Seq<char>>)>;

/// Relies on `opml::OPML::default`: a version 2.0 document whose body has no
/// outlines.
#[verifier::external_body]
fn new_opml() -> (r: opml::OPML)
    ensures
        opml_outlines(r) == Seq::<(Seq<char>, Option<Seq<char>>)>::empty(),
{
    opml::OPML::default()
}

/// Relies on `opml::OPML::add_feed`: appends to the body an outline with the
/// text `text` and the feed URL `url`.
#[verifier::external_body]
fn opml_add_feed(o: &mut opml::OPML, text: &str, url: &str)
    ensures
        opml_outlines(*final(o)) == opml_outlines(*old(o)).push((text@, Some(url@))),
{
    let _ = o.add_feed(text, url);
}

/// One outline per feed: its name and its URL.
pub open spec fn feed_outlines(feeds: Seq<Feed>) -> Seq<(Seq<char>, Option<Seq<char>>)> {
    feeds.map_values(|f: Feed| (f.name_spec(), Some(f.conf.url.0@)))
}

/// The kind of a poll's outcome, without its payload.
pub enum PollKind {
    Idle,
    Running,
    Error,
    Done,
}

pub open spec fn kind_of<T>(s: TaskStatus<T>) -> PollKind {
    match s {
        TaskStatus::Idle => PollKind::Idle,
        TaskStatus::Running => PollKind::Running,
        TaskStatus::Error(_) => PollKind::Error,
        TaskStatus::Done(_) => PollKind::Done,
    }
}

/// A receive's outcome without its payload.
pub open spec fn event_of<T>(p: ChannelPoll<T>) -> ChannelPoll<()> {
    match p {
        ChannelPoll::Empty => ChannelPoll::Empty,
        ChannelPoll::Closed => ChannelPoll::Closed,
        ChannelPoll::Received(_) => ChannelPoll::Received(()),
    }
}

/// One poll of the batch slot: what it reports and whether the slot stays
/// outstanding.
pub open spec fn batch_poll(pending: bool, ev: ChannelPoll<()>) -> (PollKind, bool) {
    if !pending {
        (PollKind::Idle, false)
    } else {
        match ev {
            ChannelPoll::Empty => (PollKind::Running, true),
            ChannelPoll::Closed => (PollKind::Error, false),
            ChannelPoll::Received(_) => (PollKind::Done, false),
        }
    }
}

/// Whether the batch slot is outstanding after polls that saw `evs`.
pub open spec fn pending_after(pending: bool, evs: Seq<ChannelPoll<()>>) -> bool
    decreases evs.len(),
{
    if evs.len() == 0 {
        pending
    } else {
        batch_poll(pending_after(pending, evs.drop_last()), evs.last()).1
    }
}

/// What successive polls that saw `evs` report.
pub open spec fn poll_reports(pending: bool, evs: Seq<ChannelPoll<()>>) -> Seq<PollKind>
    decreases evs.len(),
{
    if evs.len() == 0 {
        Seq::empty()
    } else {
        poll_reports(pending, evs.drop_last()).push(
            batch_poll(pending_after(pending, evs.drop_last()), evs.last()).0,
        )
    }
}

pub open spec fn all_empty(evs: Seq<ChannelPoll<()>>) -> bool {
    forall|j: int| 0 <= j < evs.len() ==> #[trigger] evs[j] is Empty
}

proof fn lemma_poll_reports(pending: bool, evs: Seq<ChannelPoll<()>>)
    ensures
        poll_reports(pending, evs).len() == evs.len(),
        pending_after(pending, evs) == (pending && all_empty(evs)),
        forall|i: int|
            0 <= i < evs.len() ==> #[trigger] poll_reports(pending, evs)[i] == if pending
                && all_empty(evs.take(i)) {
                batch_poll(true, evs[i]).0
            } else {
                PollKind::Idle
            },
    decreases evs.len(),
{
    if evs.len() > 0 {
        let t = evs.drop_last();
        lemma_poll_reports(pending, t);
        assert forall|i: int| 0 <= i < t.len() implies evs.take(i) == t.take(i) by {}
        assert(evs.take(t.len() as int) == t);
        if all_empty(t) && evs.last() is Empty {
            assert forall|j: int| 0 <= j < evs.len() implies #[trigger] evs[j] is Empty by {
                if j < t.len() {
                    assert(evs[j] == t[j]);
                }
            }
        }
        if !all_empty(t) {
            let j = choose|j: int| 0 <= j < t.len() && !(#[trigger] t[j] is Empty);
            assert(evs[j] == t[j]);
        }
    }
}

/// Poll protocol of the batch slot. With no update started every poll
/// reports `Idle`. Once started, polls report `Running` until the first
/// result or closed channel, which is reported once (`Done` or `Error`);
/// every later poll reports `Idle`. A result after only empty receives is
/// reported as `Done`.
pub proof fn batch_poll_protocol(evs: Seq<ChannelPoll<()>>)
    ensures
        forall|i: int| 0 <= i < evs.len() ==> #[trigger] poll_reports(false, evs)[i] is Idle,
        forall|i: int, j: int|
            0 <= j < i < evs.len() && (#[trigger] poll_reports(true, evs)[i] is Done
                || poll_reports(true, evs)[i] is Error) ==> #[trigger] poll_reports(true, evs)[j] is Running,
        forall|i: int, j: int|
            0 <= i < j < evs.len() && (#[trigger] poll_reports(true, evs)[i] is Done
                || poll_reports(true, evs)[i] is Error) ==> #[trigger] poll_reports(true, evs)[j] is Idle,
        forall|i: int|
            0 <= i < evs.len() && evs[i] is Received && all_empty(evs.take(i))
                ==> #[trigger] poll_reports(true, evs)[i] is Done,
{
    lemma_poll_reports(false, evs);
    lemma_poll_reports(true, evs);
    assert forall|i: int, j: int|
        0 <= j < i < evs.len() && (#[trigger] poll_reports(true, evs)[i] is Done
            || poll_reports(true, evs)[i] is Error) implies #[trigger] poll_reports(true, evs)[j] is Running by {
        assert(all_empty(evs.take(i)));
        assert(evs.take(i)[j] == evs[j]);
        assert(evs.take(j) == evs.take(i).take(j));
    }
    assert forall|i: int, j: int|
        0 <= i < j < evs.len() && (#[trigger] poll_reports(true, evs)[i] is Done
            || poll_reports(true, evs)[i] is Error) implies #[trigger] poll_reports(true, evs)[j] is Idle by {
        assert(all_empty(evs.take(i)));
        assert(!(evs[i] is Empty));
        assert(evs.take(j)[i] == evs[i]);
    }
}

/// The feeds that pass `filter`, in order.
pub open spec fn matching_feeds(feeds: Seq<Feed>, filter: Filter) -> Seq<Feed>
    decreases feeds.len(),
{
    if feeds.len() == 0 {
        Seq::empty()
    } else if filter.feed_matches(feeds.last()) {
        matching_feeds(feeds.drop_last(), filter).push(feeds.last())
    } else {
        matching_feeds(feeds.drop_last(), filter)
    }
}

/// The items that pass `filter`, in order.
pub open spec fn passing_items(items: Seq<Item>, filter: Filter) -> Seq<Item>
    decreases items.len(),
{
    if items.len() == 0 {
        Seq::empty()
    } else if filter.item_matches(items.last()) {
        passing_items(items.drop_last(), filter).push(items.last())
    } else {
        passing_items(items.drop_last(), filter)
    }
}

/// The items that pass `filter` within the feeds that pass it, feed by feed.
pub open spec fn matching_items(feeds: Seq<Feed>, filter: Filter) -> Seq<Item>
    decreases feeds.len(),
{
    if feeds.len() == 0 {
        Seq::empty()
    } else if filter.feed_matches(feeds.last()) {
        matching_items(feeds.drop_last(), filter) + passing_items(feeds.last().item_seq(), filter)
    } else {
        matching_items(feeds.drop_last(), filter)
    }
}

proof fn lemma_passing_items_members(items: Seq<Item>, f: Filter)
    ensures
        forall|x: Item|
            #[trigger] passing_items(items, f).contains(x) <==> items.contains(x) && f.item_matches(x),
    decreases items.len(),
{
    if items.len() > 0 {
        let t = items.drop_last();
        lemma_passing_items_members(t, f);
        assert forall|x: Item| #[trigger] passing_items(items, f).contains(x) <==> items.contains(x)
            && f.item_matches(x) by {
            assert(items == t.push(items.last()));
            if items.contains(x) && x != items.last() {
                let j = choose|j: int| 0 <= j < items.len() && items[j] == x;
                assert(j < t.len());
                assert(t[j] == x);
            }
            if t.contains(x) {
                let j = choose|j: int| 0 <= j < t.len() && t[j] == x;
                assert(items[j] == x);
            }
            if f.item_matches(items.last()) {
                let r = passing_items(t, f);
                assert(passing_items(items, f) == r.push(items.last()));
                if r.contains(x) {
                    let j = choose|j: int| 0 <= j < r.len() && r[j] == x;
                    assert(r.push(items.last())[j] == x);
                }
                if r.push(items.last()).contains(x) && x != items.last() {
                    let j = choose|j: int| 0 <= j < r.len() + 1 && r.push(items.last())[j] == x;
                    assert(r[j] == x);
                }
                assert(r.push(items.last())[r.len() as int] == items.last());
            }
            assert(items[items.len() - 1] == items.last());
        }
    }
}

/// Filter conjunction over a collection: an item is among the matching
/// items exactly when some feed that passes the filter holds it and it
/// passes the filter itself; with the per-entity conjunction laws, the
/// result is the intersection of the criteria applied one at a time.
pub proof fn matching_items_are_intersection(feeds: Seq<Feed>, f: Filter)
    ensures
        forall|x: Item|
            #[trigger] matching_items(feeds, f).contains(x) <==> exists|k: int|
                0 <= k < feeds.len() && f.feed_matches(#[trigger] feeds[k])
                    && feeds[k].item_seq().contains(x) && f.item_matches(x),
    decreases feeds.len(),
{
    if feeds.len() > 0 {
        let t = feeds.drop_last();
        let last = feeds.last();
        matching_items_are_intersection(t, f);
        lemma_passing_items_members(last.item_seq(), f);
        let r = matching_items(t, f);
        let p = passing_items(last.item_seq(), f);
        assert forall|x: Item| #[trigger] matching_items(feeds, f).contains(x) <==> exists|k: int|
            0 <= k < feeds.len() && f.feed_matches(#[trigger] feeds[k])
                && feeds[k].item_seq().contains(x) && f.item_matches(x) by {
            assert(feeds[feeds.len() - 1] == last);
            if f.feed_matches(last) {
                assert(matching_items(feeds, f) == r + p);
                if (r + p).contains(x) {
                    let j = choose|j: int| 0 <= j < (r + p).len() && (r + p)[j] == x;
                    if j < r.len() {
                        assert(r[j] == x);
                        assert(r.contains(x));
                        let k = choose|k: int|
                            0 <= k < t.len() && f.feed_matches(#[trigger] t[k])
                                && t[k].item_seq().contains(x) && f.item_matches(x);
                        assert(feeds[k] == t[k]);
                    } else {
                        assert(p[j - r.len()] == x);
                        assert(p.contains(x));
                    }
                }
                if exists|k: int|
                    0 <= k < feeds.len() && f.feed_matches(#[trigger] feeds[k])
                        && feeds[k].item_seq().contains(x) && f.item_matches(x) {
                    let k = choose|k: int|
                        0 <= k < feeds.len() && f.feed_matches(#[trigger] feeds[k])
                            && feeds[k].item_seq().contains(x) && f.item_matches(x);
                    if k < t.len() {
                        assert(t[k] == feeds[k]);
                        assert(r.contains(x));
                        let j = choose|j: int| 0 <= j < r.len() && r[j] == x;
                        assert((r + p)[j] == x);
                    } else {
                        assert(p.contains(x));
                        let j = choose|j: int| 0 <= j < p.len() && p[j] == x;
                        assert((r + p)[r.len() + j] == x);
                    }
                }
            } else {
                assert(matching_items(feeds, f) == r);
                if r.contains(x) {
                    let k = choose|k: int|
                        0 <= k < t.len() && f.feed_matches(#[trigger] t[k])
                            && t[k].item_seq().contains(x) && f.item_matches(x);
                    assert(feeds[k] == t[k]);
                }
                if exists|k: int|
                    0 <= k < feeds.len() && f.feed_matches(#[trigger] feeds[k])
                        && feeds[k].item_seq().contains(x) && f.item_matches(x) {
                    let k = choose|k: int|
                        0 <= k < feeds.len() && f.feed_matches(#[trigger] feeds[k])
                            && feeds[k].item_seq().contains(x) && f.item_matches(x);
                    assert(k < t.len());
                    assert(t[k] == feeds[k]);
                }
            }
        }
    }
}

/// The links of the items, item by item.
pub open spec fn links_of(items: Seq<Item>) -> Seq<Link>
    decreases items.len(),
{
    if items.len() == 0 {
        Seq::empty()
    } else {
        links_of(items.drop_last()) + items.last().links@
    }
}

pub open spec fn feeds_equiv(a: Seq<Feed>, b: Seq<Feed>) -> bool {
    a.len() == b.len() && forall|i: int| 0 <= i < a.len() ==> (#[trigger] a[i]).equiv(b[i])
}

proof fn lemma_unread_count_equiv(a: Seq<Item>, b: Seq<Item>)
    requires
        items_equiv(a, b),
    ensures
        unread_count(a) == unread_count(b),
    decreases a.len(),
{
    if a.len() > 0 {
        let (ta, tb) = (a.drop_last(), b.drop_last());
        assert(items_equiv(ta, tb)) by {
            assert forall|i: int| 0 <= i < ta.len() implies (#[trigger] ta[i]).equiv(tb[i]) by {
                assert(ta[i] == a[i] && tb[i] == b[i]);
            }
        }
        lemma_unread_count_equiv(ta, tb);
        assert(a[a.len() - 1].equiv(b[b.len() - 1]));
    }
}

proof fn lemma_feeds_arranged(c: Seq<Feed>, m: Seq<Feed>, sorter: Sorter<FeedOrder>)
    requires
        feeds_equiv(c, m),
    ensures
        feeds_equiv(sorter.arrange(c), sorter.arrange(m)),
{
    if let Some(o) = sorter.key {
        assert forall|i: int| 0 <= i < c.len() implies (sorter.key_fn())(#[trigger] c[i]) == (
        sorter.key_fn())(m[i]) && (|x: Feed, y: Feed| x.equiv(y))(c[i], m[i]) by {
            assert(c[i].equiv(m[i]));
            if c[i].data.is_some() {
                lemma_unread_count_equiv(c[i].data.unwrap().items@, m[i].data.unwrap().items@);
            }
            assert(feed_key(o, c[i]) == feed_key(o, m[i]));
        }
        lemma_sorted_by_aligned(c, m, sorter.key_fn(), sorter.reverse, |x: Feed, y: Feed| x.equiv(y));
    }
}

proof fn lemma_items_arranged(c: Seq<Item>, m: Seq<Item>, sorter: Sorter<ItemOrder>)
    requires
        items_equiv(c, m),
    ensures
        items_equiv(sorter.arrange(c), sorter.arrange(m)),
{
    if let Some(o) = sorter.key {
        assert forall|i: int| 0 <= i < c.len() implies (sorter.key_fn())(#[trigger] c[i]) == (
        sorter.key_fn())(m[i]) && (|x: Item, y: Item| x.equiv(y))(c[i], m[i]) by {
            assert(c[i].equiv(m[i]));
            assert(item_key(o, c[i]) == item_key(o, m[i]));
        }
        lemma_sorted_by_aligned(c, m, sorter.key_fn(), sorter.reverse, |x: Item, y: Item| x.equiv(y));
    }
}

/// The tags of all feeds, feed by feed.
pub open spec fn all_tags(feeds: Seq<Feed>) -> Seq<String>
    decreases feeds.len(),
{
    if feeds.len() == 0 {
        Seq::empty()
    } else {
        all_tags(feeds.drop_last()) + feeds.last().conf.tags@
    }
}

/// Index of the tag named `name`.
pub open spec fn find_tag(tags: Seq<Tag>, name: Seq<char>) -> Option<int>
    decreases tags.len(),
{
    if tags.len() == 0 {
        None
    } else {
        match find_tag(tags.drop_last(), name) {
            Some(j) => Some(j),
            None => if tags.last().name@ == name {
                Some(tags.len() - 1)
            } else {
                None
            },
        }
    }
}

proof fn lemma_find_tag(tags: Seq<Tag>, name: Seq<char>, j: int)
    requires
        0 <= j <= tags.len(),
        forall|q: int| 0 <= q < j ==> (#[trigger] tags[q]).name@ != name,
    ensures
        j < tags.len() && tags[j].name@ == name ==> find_tag(tags, name) == Some(j),
        j == tags.len() ==> find_tag(tags, name).is_none(),
    decreases tags.len(),
{
    if tags.len() > 0 {
        let t = tags.drop_last();
        assert forall|q: int| 0 <= q < j && q < t.len() implies (#[trigger] t[q]).name@ != name by {
            assert(t[q] == tags[q]);
        }
        if j < t.len() {
            lemma_find_tag(t, name, j);
        } else {
            lemma_find_tag(t, name, t.len() as int);
        }
    }
}

/// Each name once, in order of first appearance, with the number of its
/// appearances (which stops at `usize::MAX`).
pub open spec fn tally(names: Seq<String>) -> Seq<Tag>
    decreases names.len(),
{
    if names.len() == 0 {
        Seq::empty()
    } else {
        let r = tally(names.drop_last());
        let n = names.last();
        match find_tag(r, n@) {
            Some(j) => r.update(
                j,
                Tag {
                    name: r[j].name,
                    count: if r[j].count < usize::MAX {
                        (r[j].count + 1) as usize
                    } else {
                        r[j].count
                    },
                },
            ),
            None => r.push(Tag { name: n, count: 1 }),
        }
    }
}

/// The tags that pass `filter`, in order.
pub open spec fn passing_tags(tags: Seq<Tag>, filter: Filter) -> Seq<Tag>
    decreases tags.len(),
{
    if tags.len() == 0 {
        Seq::empty()
    } else if filter.tag_matches(tags.last()) {
        passing_tags(tags.drop_last(), filter).push(tags.last())
    } else {
        passing_tags(tags.drop_last(), filter)
    }
}

/// The first item with id `id` is the item at `j` of the feed at `k`.
pub open spec fn is_first_item(feeds: Seq<Feed>, id: ItemId, k: int, j: int) -> bool {
    &&& 0 <= k < feeds.len()
    &&& 0 <= j < feeds[k].item_seq().len()
    &&& feeds[k].item_seq()[j].id.0@ == id.0@
    &&& forall|q: int| 0 <= q < k ==> !has_item_id(#[trigger] feeds[q].item_seq(), id)
    &&& forall|q: int| 0 <= q < j ==> (#[trigger] feeds[k].item_seq()[q]).id.0@ != id.0@
}

pub open spec fn has_item_anywhere(feeds: Seq<Feed>, id: ItemId) -> bool {
    exists|k: int| 0 <= k < feeds.len() && has_item_id(#[trigger] feeds[k].item_seq(), id)
}

/// The feeds an update of `filter` fetches: those that pass the filter and
/// are not updated by hand only.
pub open spec fn update_targets(feeds: Seq<Feed>, filter: Filter) -> Seq<FeedId>
    decreases feeds.len(),
{
    if feeds.len() == 0 {
        Seq::empty()
    } else {
        let r = update_targets(feeds.drop_last(), filter);
        if filter.feed_matches(feeds.last()) && !feeds.last().conf.manual_update {
            r.push(feeds.last().conf.url)
        } else {
            r
        }
    }
}

/// Splits fetch results into the records and the error messages.
fn partition_results(results: Vec<FetchResult>) -> (r: (Vec<SerializableFeed>, Vec<String>))
    ensures
        r.0@ == ok_records(results@),
        r.1@ == error_messages(results@),
{
    let ghost input = results@;
    let mut list = results;
    let mut oks: Vec<SerializableFeed> = Vec::new();
    let mut errs: Vec<String> = Vec::new();
    let ghost mut i: int = 0;
    while list.len() > 0
        invariant
            0 <= i <= input.len(),
            list@ == input.skip(i),
            oks@ == ok_records(input.take(i)),
            errs@ == error_messages(input.take(i)),
        decreases list.len(),
    {
        let x = list.remove(0);
        proof {
            assert(x == input[i]);
            assert(list@ == input.skip(i + 1));
            assert(input.take(i + 1).drop_last() == input.take(i));
            assert(input.take(i + 1).last() == x);
        }
        match x {
            Ok(rec) => oks.push(rec),
            Err(e) => errs.push(e),
        }
        proof {
            i = i + 1;
        }
    }
    assert(input.take(i) == input);
    (oks, errs)
}

impl FeedManager {
    pub closed spec fn feeds_spec(&self) -> Seq<Feed> {
        self.feeds@
    }

    pub closed spec fn config_spec(&self) -> Config {
        self.config
    }

    /// A batch update is outstanding.
    pub closed spec fn batch_pending(&self) -> bool {
        self.updating_feeds
    }

    /// A single-feed update is outstanding.
    pub closed spec fn single_pending(&self) -> bool {
        self.updating_feed
    }

    /// The feeds of `sources`, restored at time `now` from the cached
    /// records; no update is outstanding.
    pub fn new(sources: Sources, cached: CachedFeeds, config: Config, now: Timestamp) -> (r: Self)
        ensures
            r.feeds_spec().len() == sources.0@.len(),
            forall|i: int|
                0 <= i < r.feeds_spec().len() ==> restored(
                    #[trigger] r.feeds_spec()[i],
                    sources.0@[i],
                    record_for(cached.0@, sources.0@[i].url),
                    now,
                    config.relative_time_threshold,
                ),
            r.config_spec() == config,
            !r.batch_pending(),
            !r.single_pending(),
    {
        let threshold = config.relative_time_threshold;
        FeedManager {
            feeds: sources.bind_to_cached(cached.0, now, threshold),
            config,
            updating_feeds: false,
            updating_feed: false,
        }
    }

    /// The records to persist: one per feed with content.
    pub fn cache_records(&self) -> (r: CachedFeeds)
        ensures
            r.0@.len() == crate::cache::records_of(self.feeds_spec()).len(),
            forall|i: int|
                0 <= i < r.0@.len() ==> crate::cache::is_record_of(
                    #[trigger] r.0@[i],
                    crate::cache::records_of(self.feeds_spec())[i],
                ),
    {
        CachedFeeds::from_feeds(&self.feeds)
    }

    /// Starts a batch update: returns the ids (the URLs) of the feeds to fetch,
    /// those that pass `filter` and are not updated by hand only, and marks
    /// the batch slot outstanding. A batch still outstanding is forgotten.
    pub fn update_feeds(&mut self, filter: &Filter) -> (r: Vec<FeedId>)
        ensures
            r@ == update_targets(old(self).feeds_spec(), *filter),
            final(self).batch_pending(),
            final(self).single_pending() == old(self).single_pending(),
            final(self).feeds_spec() == old(self).feeds_spec(),
            final(self).config_spec() == old(self).config_spec(),
    {
        let mut out: Vec<FeedId> = Vec::new();
        let mut i: usize = 0;
        while i < self.feeds.len()
            invariant
                i <= self.feeds.len(),
                out@ == update_targets(self.feeds@.take(i as int), *filter),
            decreases self.feeds.len() - i,
        {
            proof {
                assert(self.feeds@.take(i as int + 1).drop_last() == self.feeds@.take(i as int));
                assert(self.feeds@.take(i as int + 1).last() == self.feeds@[i as int]);
            }
            if filter.test(&self.feeds[i]) && !self.feeds[i].conf.manual_update {
                out.push(self.feeds[i].conf.url.clone());
            }
            i = i + 1;
        }
        assert(self.feeds@.take(i as int) == self.feeds@);
        self.updating_feeds = true;
        out
    }

    /// Starts an update of the feed `id`, whether or not it is updated by
    /// hand only: marks the single-feed slot outstanding and returns true,
    /// or returns false when there is no such feed.
    pub fn update_feed(&mut self, id: &FeedId) -> (r: bool)
        ensures
            r == find_feed(old(self).feeds_spec(), *id).is_some(),
            final(self).single_pending() == (r || old(self).single_pending()),
            final(self).batch_pending() == old(self).batch_pending(),
            final(self).feeds_spec() == old(self).feeds_spec(),
            final(self).config_spec() == old(self).config_spec(),
    {
        let mut k: usize = 0;
        while k < self.feeds.len() && self.feeds[k].conf.url != *id
            invariant
                k <= self.feeds.len(),
                forall|q: int| 0 <= q < k ==> (#[trigger] self.feeds@[q]).conf.url.0@ != id.0@,
            decreases self.feeds.len() - k,
        {
            k = k + 1;
        }
        proof {
            lemma_find_feed(self.feeds@, *id, k as int);
        }
        if k < self.feeds.len() {
            self.updating_feed = true;
            true
        } else {
            false
        }
    }

    /// Takes what a receive on the batch channel gave. With no batch
    /// outstanding: `Idle`. Nothing yet: `Running`. Channel closed: `Error`,
    /// and the slot is free. A result: its records are merged in order, the
    /// slot is free, and `Done` carries the error messages.
    pub fn poll_update_feeds(
        &mut self,
        polled: ChannelPoll<Vec<FetchResult>>,
        now: Timestamp,
    ) -> (r: TaskStatus<Vec<String>>)
        ensures
            (kind_of(r), final(self).batch_pending()) == batch_poll(
                old(self).batch_pending(),
                event_of(polled),
            ),
            final(self).config_spec() == old(self).config_spec(),
            final(self).single_pending() == old(self).single_pending(),
            !old(self).batch_pending() ==> r is Idle && final(self).feeds_spec() == old(self).feeds_spec() && !final(self).batch_pending(),
            old(self).batch_pending() ==> match polled {
                ChannelPoll::Empty => r is Running && final(self).feeds_spec() == old(self).feeds_spec() && final(self).batch_pending(),
                ChannelPoll::Closed => r is Error && r->Error_0@ == INTERNAL_ERROR@ && final(self).feeds_spec() == old(self).feeds_spec() && !final(self).batch_pending(),
                ChannelPoll::Received(results) => {
                    &&& r is Done
                    &&& r->Done_0@ == error_messages(results@)
                    &&& merged_all(
                        old(self).feeds_spec(),
                        ok_records(results@),
                        final(self).feeds_spec(),
                        now,
                        old(self).config_spec().relative_time_threshold,
                    )
                    &&& !final(self).batch_pending()
                },
            },
    {
        if !self.updating_feeds {
            return TaskStatus::Idle;
        }
        match polled {
            ChannelPoll::Empty => TaskStatus::Running,
            ChannelPoll::Closed => {
                self.updating_feeds = false;
                TaskStatus::Error(INTERNAL_ERROR.to_owned())
            },
            ChannelPoll::Received(results) => {
                self.updating_feeds = false;
                let (oks, errs) = partition_results(results);
                self.merge_new_feeds(oks, now);
                TaskStatus::Done(errs)
            },
        }
    }

    /// Takes what a receive on the single-feed channel gave. With no update
    /// outstanding: `Idle`. Nothing yet: `Running`. Channel closed: `Error`
    /// with the internal message; a failed fetch: `Error` with its message;
    /// both free the slot. A record: merged into the first feed of its id,
    /// the slot is free, `Done`.
    pub fn poll_update_feed(&mut self, polled: ChannelPoll<FetchResult>, now: Timestamp) -> (r:
        TaskStatus<()>)
        ensures
            final(self).config_spec() == old(self).config_spec(),
            final(self).batch_pending() == old(self).batch_pending(),
            !old(self).single_pending() ==> r is Idle && final(self).feeds_spec() == old(self).feeds_spec() && !final(self).single_pending(),
            old(self).single_pending() ==> match polled {
                ChannelPoll::Empty => r is Running && final(self).feeds_spec() == old(self).feeds_spec() && final(self).single_pending(),
                ChannelPoll::Closed => r is Error && r->Error_0@ == INTERNAL_ERROR@ && final(self).feeds_spec() == old(self).feeds_spec() && !final(self).single_pending(),
                ChannelPoll::Received(Err(e)) => r == TaskStatus::<()>::Error(e) && final(self).feeds_spec() == old(self).feeds_spec() && !final(self).single_pending(),
                ChannelPoll::Received(Ok(rec)) => {
                    &&& r is Done
                    &&& merged_one(
                        old(self).feeds_spec(),
                        rec,
                        final(self).feeds_spec(),
                        now,
                        old(self).config_spec().relative_time_threshold,
                    )
                    &&& !final(self).single_pending()
                },
            },
    {
        if !self.updating_feed {
            return TaskStatus::Idle;
        }
        match polled {
            ChannelPoll::Empty => TaskStatus::Running,
            ChannelPoll::Closed => {
                self.updating_feed = false;
                TaskStatus::Error(INTERNAL_ERROR.to_owned())
            },
            ChannelPoll::Received(Err(e)) => {
                self.updating_feed = false;
                TaskStatus::Error(e)
            },
            ChannelPoll::Received(Ok(rec)) => {
                self.updating_feed = false;
                let ghost before = self.feeds@;
                let mut one: Vec<SerializableFeed> = Vec::new();
                one.push(rec);
                self.merge_new_feeds(one, now);
                proof {
                    let recs = seq![rec];
                    assert(recs.drop_last() == Seq::<SerializableFeed>::empty());
                    let mid = choose|mid: Seq<Feed>|
                        merged_all(before, recs.drop_last(), mid, now, self.config.relative_time_threshold)
                            && #[trigger] merged_one(mid, recs.last(), self.feeds@, now, self.config.relative_time_threshold);
                    assert(mid == before);
                }
                TaskStatus::Done(())
            },
        }
    }

    /// Drops the content of every feed, with its newest item date and
    /// recency; configuration and hit counts stay.
    pub fn clear(&mut self)
        ensures
            final(self).feeds_spec().len() == old(self).feeds_spec().len(),
            forall|i: int|
                0 <= i < final(self).feeds_spec().len() ==> {
                    &&& (#[trigger] final(self).feeds_spec()[i]).data.is_none()
                    &&& final(self).feeds_spec()[i].conf == old(self).feeds_spec()[i].conf
                    &&& final(self).feeds_spec()[i].metrics.hits == old(self).feeds_spec()[i].metrics.hits
                    &&& final(self).feeds_spec()[i].metrics.latest_item_date.is_none()
                    &&& !final(self).feeds_spec()[i].metrics.is_recent
                },
            final(self).config_spec() == old(self).config_spec(),
            final(self).batch_pending() == old(self).batch_pending(),
            final(self).single_pending() == old(self).single_pending(),
    {
        let ghost start = self.feeds@;
        let ghost cfg = self.config;
        let ghost pending = (self.updating_feeds, self.updating_feed);
        let mut i: usize = 0;
        while i < self.feeds.len()
            invariant
                i <= self.feeds.len(),
                self.feeds@.len() == start.len(),
                self.config == cfg,
                (self.updating_feeds, self.updating_feed) == pending,
                forall|q: int|
                    0 <= q < i ==> {
                        &&& (#[trigger] self.feeds@[q]).data.is_none()
                        &&& self.feeds@[q].conf == start[q].conf
                        &&& self.feeds@[q].metrics.hits == start[q].metrics.hits
                        &&& self.feeds@[q].metrics.latest_item_date.is_none()
                        &&& !self.feeds@[q].metrics.is_recent
                    },
                forall|q: int| i <= q < self.feeds@.len() ==> #[trigger] self.feeds@[q] == start[q],
            decreases self.feeds.len() - i,
        {
            self.feeds[i].clear_data();
            i = i + 1;
        }
    }

    /// Marks every item of the feeds with id `id` read; other feeds stay as
    /// they are.
    pub fn mark_feed_as_read(&mut self, id: &FeedId)
        ensures
            final(self).feeds_spec().len() == old(self).feeds_spec().len(),
            forall|i: int|
                0 <= i < final(self).feeds_spec().len() ==> if old(self).feeds_spec()[i].conf.url.0@
                    == id.0@ {
                    marked_read(old(self).feeds_spec()[i], #[trigger] final(self).feeds_spec()[i])
                } else {
                    final(self).feeds_spec()[i] == old(self).feeds_spec()[i]
                },
            final(self).config_spec() == old(self).config_spec(),
            final(self).batch_pending() == old(self).batch_pending(),
            final(self).single_pending() == old(self).single_pending(),
    {
        let ghost start = self.feeds@;
        let ghost cfg = self.config;
        let ghost pending = (self.updating_feeds, self.updating_feed);
        let mut i: usize = 0;
        while i < self.feeds.len()
            invariant
                i <= self.feeds.len(),
                self.feeds@.len() == start.len(),
                self.config == cfg,
                (self.updating_feeds, self.updating_feed) == pending,
                forall|q: int|
                    0 <= q < i ==> if start[q].conf.url.0@ == id.0@ {
                        marked_read(start[q], #[trigger] self.feeds@[q])
                    } else {
                        self.feeds@[q] == start[q]
                    },
                forall|q: int| i <= q < self.feeds@.len() ==> #[trigger] self.feeds@[q] == start[q],
            decreases self.feeds.len() - i,
        {
            if self.feeds[i].conf.url == *id {
                self.feeds[i].mark_all_read();
            }
            i = i + 1;
        }
    }

    /// Marks the first item with id `id` read; true when there is one.
    pub fn mark_item_as_read(&mut self, id: &ItemId) -> (r: bool)
        ensures
            r == has_item_anywhere(old(self).feeds_spec(), *id),
            !r ==> final(self).feeds_spec() == old(self).feeds_spec(),
            r ==> exists|k: int, j: int|
                #[trigger] is_first_item(old(self).feeds_spec(), *id, k, j) && final(self).feeds_spec()
                    == old(self).feeds_spec().update(k, final(self).feeds_spec()[k])
                    && marked_read_at(old(self).feeds_spec()[k], final(self).feeds_spec()[k], j),
            final(self).config_spec() == old(self).config_spec(),
            final(self).batch_pending() == old(self).batch_pending(),
            final(self).single_pending() == old(self).single_pending(),
    {
        match self.find_item(id) {
            None => false,
            Some((k, j)) => {
                let ghost before = self.feeds@;
                assert(is_first_item(before, *id, k as int, j as int));
                self.feeds[k].mark_read_at(j);
                assert(self.feeds@ == before.update(k as int, self.feeds@[k as int]));
                assert(has_item_id(before[k as int].item_seq(), *id));
                true
            },
        }
    }

    /// Position of the first item with id `id`: its feed and its index there.
    fn find_item(&self, id: &ItemId) -> (r: Option<(usize, usize)>)
        ensures
            r.is_none() ==> !has_item_anywhere(self.feeds@, *id),
            r.is_some() ==> is_first_item(self.feeds@, *id, r.unwrap().0 as int, r.unwrap().1 as int),
    {
        let mut k: usize = 0;
        while k < self.feeds.len()
            invariant
                k <= self.feeds.len(),
                forall|q: int| 0 <= q < k ==> !has_item_id(#[trigger] self.feeds@[q].item_seq(), *id),
            decreases self.feeds.len() - k,
        {
            match self.feeds[k].items() {
                None => {
                    assert(self.feeds@[k as int].item_seq().len() == 0);
                },
                Some(items) => {
                    let mut j: usize = 0;
                    while j < items.len()
                        invariant
                            k < self.feeds.len(),
                            j <= items.len(),
                            forall|q: int|
                                0 <= q < k ==> !has_item_id(#[trigger] self.feeds@[q].item_seq(), *id),
                            items@ == self.feeds@[k as int].item_seq(),
                            forall|q: int| 0 <= q < j ==> (#[trigger] items@[q]).id.0@ != id.0@,
                        decreases items.len() - j,
                    {
                        if items[j].id == *id {
                            return Some((k, j));
                        }
                        j = j + 1;
                    }
                },
            }
            k = k + 1;
        }
        None
    }

    /// Counts one more visit of the first feed with id `id`; true when there
    /// is one.
    pub fn increment_feed_hits(&mut self, id: &FeedId) -> (r: bool)
        ensures
            r == find_feed(old(self).feeds_spec(), *id).is_some(),
            !r ==> final(self).feeds_spec() == old(self).feeds_spec(),
            r ==> {
                let k = find_feed(old(self).feeds_spec(), *id).unwrap();
                let f = old(self).feeds_spec()[k];
                &&& final(self).feeds_spec() == old(self).feeds_spec().update(
                    k,
                    final(self).feeds_spec()[k],
                )
                &&& final(self).feeds_spec()[k].conf == f.conf
                &&& final(self).feeds_spec()[k].data == f.data
                &&& final(self).feeds_spec()[k].metrics.hits == if f.metrics.hits < usize::MAX {
                    f.metrics.hits + 1
                } else {
                    f.metrics.hits as int
                }
                &&& final(self).feeds_spec()[k].metrics.latest_item_date
                    == f.metrics.latest_item_date
                &&& final(self).feeds_spec()[k].metrics.is_recent == f.metrics.is_recent
            },
            final(self).config_spec() == old(self).config_spec(),
            final(self).batch_pending() == old(self).batch_pending(),
            final(self).single_pending() == old(self).single_pending(),
    {
        let mut k: usize = 0;
        while k < self.feeds.len() && self.feeds[k].conf.url != *id
            invariant
                k <= self.feeds.len(),
                forall|q: int| 0 <= q < k ==> (#[trigger] self.feeds@[q]).conf.url.0@ != id.0@,
            decreases self.feeds.len() - k,
        {
            k = k + 1;
        }
        proof {
            lemma_find_feed(self.feeds@, *id, k as int);
        }
        if k < self.feeds.len() {
            let ghost before = self.feeds@;
            self.feeds[k].increment_hits();
            assert(self.feeds@ == before.update(k as int, self.feeds@[k as int]));
            true
        } else {
            false
        }
    }

    /// Positions of the feeds that pass `filter`, in order.
    fn feeds_matching(&self, filter: &Filter) -> (r: Vec<usize>)
        ensures
            forall|q: int| 0 <= q < r@.len() ==> #[trigger] r@[q] < self.feeds@.len(),
            r@.map_values(|k: usize| self.feeds@[k as int]) == matching_feeds(self.feeds@, *filter),
    {
        let mut out: Vec<usize> = Vec::new();
        let mut i: usize = 0;
        while i < self.feeds.len()
            invariant
                i <= self.feeds.len(),
                forall|q: int| 0 <= q < out@.len() ==> #[trigger] out@[q] < i,
                out@.map_values(|k: usize| self.feeds@[k as int]) == matching_feeds(
                    self.feeds@.take(i as int),
                    *filter,
                ),
            decreases self.feeds.len() - i,
        {
            proof {
                assert(self.feeds@.take(i as int + 1).drop_last() == self.feeds@.take(i as int));
            }
            if filter.test(&self.feeds[i]) {
                let ghost before = out@;
                out.push(i);
                assert(out@.map_values(|k: usize| self.feeds@[k as int]) =~= before.map_values(
                    |k: usize| self.feeds@[k as int],
                ).push(self.feeds@[i as int]));
            }
            i = i + 1;
        }
        assert(self.feeds@.take(i as int) == self.feeds@);
        out
    }

    /// Positions (feed, item) of the items that pass `filter` within the
    /// feeds that pass it.
    fn items_matching(&self, filter: &Filter) -> (r: Vec<(usize, usize)>)
        ensures
            forall|q: int|
                0 <= q < r@.len() ==> (#[trigger] r@[q]).0 < self.feeds@.len() && r@[q].1
                    < self.feeds@[r@[q].0 as int].item_seq().len(),
            r@.map_values(|p: (usize, usize)| self.feeds@[p.0 as int].item_seq()[p.1 as int])
                == matching_items(self.feeds@, *filter),
    {
        let mut out: Vec<(usize, usize)> = Vec::new();
        let mut i: usize = 0;
        while i < self.feeds.len()
            invariant
                i <= self.feeds.len(),
                forall|q: int|
                    0 <= q < out@.len() ==> (#[trigger] out@[q]).0 < i && out@[q].1
                        < self.feeds@[out@[q].0 as int].item_seq().len(),
                out@.map_values(|p: (usize, usize)| self.feeds@[p.0 as int].item_seq()[p.1 as int])
                    == matching_items(self.feeds@.take(i as int), *filter),
            decreases self.feeds.len() - i,
        {
            proof {
                assert(self.feeds@.take(i as int + 1).drop_last() == self.feeds@.take(i as int));
            }
            if filter.test(&self.feeds[i]) {
                match self.feeds[i].items() {
                    None => {
                        let ghost m = out@.map_values(
                            |p: (usize, usize)| self.feeds@[p.0 as int].item_seq()[p.1 as int],
                        );
                        assert(passing_items(self.feeds@[i as int].item_seq(), *filter)
                            =~= Seq::<Item>::empty());
                        assert(m =~= m + Seq::<Item>::empty());
                    },
                    Some(items) => {
                        let ghost base = out@.map_values(
                            |p: (usize, usize)| self.feeds@[p.0 as int].item_seq()[p.1 as int],
                        );
                        let mut j: usize = 0;
                        while j < items.len()
                            invariant
                                i < self.feeds.len(),
                                j <= items.len(),
                                items@ == self.feeds@[i as int].item_seq(),
                                forall|q: int|
                                    0 <= q < out@.len() ==> (#[trigger] out@[q]).0 <= i && out@[q].1
                                        < self.feeds@[out@[q].0 as int].item_seq().len(),
                                out@.map_values(
                                    |p: (usize, usize)|
                                        self.feeds@[p.0 as int].item_seq()[p.1 as int],
                                ) == base + passing_items(items@.take(j as int), *filter),
                            decreases items.len() - j,
                        {
                            proof {
                                assert(items@.take(j as int + 1).drop_last() == items@.take(
                                    j as int,
                                ));
                            }
                            if filter.test(&items[j]) {
                                let ghost before = out@;
                                out.push((i, j));
                                assert(out@.map_values(
                                    |p: (usize, usize)|
                                        self.feeds@[p.0 as int].item_seq()[p.1 as int],
                                ) =~= before.map_values(
                                    |p: (usize, usize)|
                                        self.feeds@[p.0 as int].item_seq()[p.1 as int],
                                ).push(items@[j as int]));
                            }
                            j = j + 1;
                        }
                        assert(items@.take(j as int) == items@);
                    },
                }
            }
            i = i + 1;
        }
        assert(self.feeds@.take(i as int) == self.feeds@);
        out
    }

    /// Copies of the feeds that pass `filter`, in `sorter`'s order.
    pub fn get_feeds(&self, filter: &Filter, sorter: &Sorter<FeedOrder>) -> (r: Vec<Feed>)
        ensures
            feeds_equiv(r@, sorter.arrange(matching_feeds(self.feeds_spec(), *filter))),
    {
        let pos = self.feeds_matching(filter);
        let ghost m = pos@.map_values(|k: usize| self.feeds@[k as int]);
        let mut out: Vec<Feed> = Vec::new();
        let mut i: usize = 0;
        while i < pos.len()
            invariant
                i <= pos.len(),
                out@.len() == i,
                m == pos@.map_values(|k: usize| self.feeds@[k as int]),
                forall|q: int| 0 <= q < pos@.len() ==> #[trigger] pos@[q] < self.feeds@.len(),
                forall|q: int| 0 <= q < i ==> (#[trigger] out@[q]).equiv(m[q]),
            decreases pos.len() - i,
        {
            out.push(self.feeds[pos[i]].clone());
            i = i + 1;
        }
        let ghost c = out@;
        let r = sorter.sort(out);
        proof {
            lemma_feeds_arranged(c, matching_feeds(self.feeds@, *filter), *sorter);
        }
        r
    }

    /// Copies of the items that pass `filter` within the feeds that pass it,
    /// in `sorter`'s order.
    pub fn get_items(&self, filter: &Filter, sorter: &Sorter<ItemOrder>) -> (r: Vec<Item>)
        ensures
            items_equiv(r@, sorter.arrange(matching_items(self.feeds_spec(), *filter))),
    {
        let pos = self.items_matching(filter);
        let ghost m = pos@.map_values(
            |p: (usize, usize)| self.feeds@[p.0 as int].item_seq()[p.1 as int],
        );
        let mut out: Vec<Item> = Vec::new();
        let mut i: usize = 0;
        while i < pos.len()
            invariant
                i <= pos.len(),
                out@.len() == i,
                m == pos@.map_values(
                    |p: (usize, usize)| self.feeds@[p.0 as int].item_seq()[p.1 as int],
                ),
                forall|q: int|
                    0 <= q < pos@.len() ==> (#[trigger] pos@[q]).0 < self.feeds@.len() && pos@[q].1
                        < self.feeds@[pos@[q].0 as int].item_seq().len(),
                forall|q: int| 0 <= q < i ==> (#[trigger] out@[q]).equiv(m[q]),
            decreases pos.len() - i,
        {
            let (k, j) = pos[i];
            match self.feeds[k].items() {
                Some(items) => out.push(items[j].clone()),
                None => {},
            }
            i = i + 1;
        }
        let ghost c = out@;
        let r = sorter.sort(out);
        proof {
            lemma_items_arranged(c, matching_items(self.feeds@, *filter), *sorter);
        }
        r
    }

    /// Copies of the links of the items that pass `filter` within the feeds
    /// that pass it, in `sorter`'s order.
    pub fn get_links(&self, filter: &Filter, sorter: &Sorter<LinkOrder>) -> (r: Vec<Link>)
        ensures
            r@ == sorter.arrange(links_of(matching_items(self.feeds_spec(), *filter))),
    {
        let pos = self.items_matching(filter);
        let ghost m = pos@.map_values(
            |p: (usize, usize)| self.feeds@[p.0 as int].item_seq()[p.1 as int],
        );
        let mut out: Vec<Link> = Vec::new();
        let mut i: usize = 0;
        while i < pos.len()
            invariant
                i <= pos.len(),
                m == pos@.map_values(
                    |p: (usize, usize)| self.feeds@[p.0 as int].item_seq()[p.1 as int],
                ),
                forall|q: int|
                    0 <= q < pos@.len() ==> (#[trigger] pos@[q]).0 < self.feeds@.len() && pos@[q].1
                        < self.feeds@[pos@[q].0 as int].item_seq().len(),
                out@ == links_of(m.take(i as int)),
            decreases pos.len() - i,
        {
            proof {
                assert(m.take(i as int + 1).drop_last() == m.take(i as int));
            }
            let (k, j) = pos[i];
            match self.feeds[k].items() {
                Some(items) => {
                    let mut links = items[j].links.clone();
                    assert(links@ =~= m[i as int].links@);
                    out.append(&mut links);
                },
                None => {},
            }
            i = i + 1;
        }
        assert(m.take(i as int) == m);
        sorter.sort(out)
    }

    /// Each tag of the configured feeds, with the number of times feeds carry
    /// it, those that pass `filter`, in `sorter`'s order (else in order of
    /// first appearance).
    pub fn get_tags(&self, filter: &Filter, sorter: &Sorter<TagOrder>) -> (r: Vec<Tag>)
        ensures
            r@ == sorter.arrange(passing_tags(tally(all_tags(self.feeds_spec())), *filter)),
    {
        let mut tags: Vec<Tag> = Vec::new();
        let mut i: usize = 0;
        while i < self.feeds.len()
            invariant
                i <= self.feeds.len(),
                tags@ == tally(all_tags(self.feeds@.take(i as int))),
            decreases self.feeds.len() - i,
        {
            proof {
                assert(self.feeds@.take(i as int + 1).drop_last() == self.feeds@.take(i as int));
            }
            let names = &self.feeds[i].conf.tags;
            let ghost base = all_tags(self.feeds@.take(i as int));
            let mut j: usize = 0;
            while j < names.len()
                invariant
                    j <= names.len(),
                    tags@ == tally(base + names@.take(j as int)),
                decreases names.len() - j,
            {
                proof {
                    assert((base + names@.take(j as int + 1)).drop_last() == base + names@.take(j as int));
                    assert((base + names@.take(j as int + 1)).last() == names@[j as int]);
                }
                let mut k: usize = 0;
                while k < tags.len() && tags[k].name != names[j]
                    invariant
                        k <= tags.len(),
                        j < names.len(),
                        forall|q: int| 0 <= q < k ==> (#[trigger] tags@[q]).name@ != names@[j as int]@,
                    decreases tags.len() - k,
                {
                    k = k + 1;
                }
                proof {
                    lemma_find_tag(tags@, names@[j as int]@, k as int);
                }
                if k < tags.len() {
                    let c = tags[k].count;
                    let t = Tag { name: tags[k].name.clone(), count: c.saturating_add(1) };
                    tags.set(k, t);
                } else {
                    tags.push(Tag { name: names[j].clone(), count: 1 });
                }
                j = j + 1;
            }
            assert(names@.take(j as int) == names@);
            i = i + 1;
        }
        assert(self.feeds@.take(i as int) == self.feeds@);
        let mut out: Vec<Tag> = Vec::new();
        let ghost all = tags@;
        let n: usize = tags.len();
        let mut i: usize = 0;
        let mut rest = tags;
        while rest.len() > 0
            invariant
                i + rest.len() == all.len(),
                all.len() == n,
                rest@ == all.skip(i as int),
                out@ == passing_tags(all.take(i as int), *filter),
            decreases rest.len(),
        {
            let t = rest.remove(0);
            proof {
                assert(t == all[i as int]);
                assert(rest@ == all.skip(i as int + 1));
                assert(all.take(i as int + 1).drop_last() == all.take(i as int));
            }
            if filter.test(&t) {
                out.push(t);
            }
            i = i + 1;
        }
        assert(all.take(i as int) == all);
        sorter.sort(out)
    }

    /// A copy of the first feed with id `id`.
    pub fn get_feed(&self, id: &FeedId) -> (r: Option<Feed>)
        ensures
            find_feed(self.feeds_spec(), *id).is_none() ==> r.is_none(),
            find_feed(self.feeds_spec(), *id).is_some() ==> r.is_some() && r.unwrap().equiv(
                self.feeds_spec()[find_feed(self.feeds_spec(), *id).unwrap()],
            ),
    {
        let mut k: usize = 0;
        while k < self.feeds.len() && self.feeds[k].conf.url != *id
            invariant
                k <= self.feeds.len(),
                forall|q: int| 0 <= q < k ==> (#[trigger] self.feeds@[q]).conf.url.0@ != id.0@,
            decreases self.feeds.len() - k,
        {
            k = k + 1;
        }
        proof {
            lemma_find_feed(self.feeds@, *id, k as int);
        }
        if k < self.feeds.len() {
            Some(self.feeds[k].clone())
        } else {
            None
        }
    }

    /// A copy of the first item with id `id`.
    pub fn get_item(&self, id: &ItemId) -> (r: Option<Item>)
        ensures
            !has_item_anywhere(self.feeds_spec(), *id) ==> r.is_none(),
            has_item_anywhere(self.feeds_spec(), *id) ==> r.is_some() && exists|k: int, j: int|
                #[trigger] is_first_item(self.feeds_spec(), *id, k, j) && r.unwrap().equiv(
                    self.feeds_spec()[k].item_seq()[j],
                ),
    {
        match self.find_item(id) {
            None => None,
            Some((k, j)) => {
                assert(is_first_item(self.feeds@, *id, k as int, j as int));
                assert(has_item_id(self.feeds@[k as int].item_seq(), *id));
                match self.feeds[k].items() {
                    Some(items) => Some(items[j].clone()),
                    None => None,
                }
            },
        }
    }

    /// The feeds as an OPML document: one outline per feed, with its name
    /// and URL, in order.
    pub fn as_opml(&self) -> (r: opml::OPML)
        ensures
            opml_outlines(r) == feed_outlines(self.feeds_spec()),
    {
        let mut doc = new_opml();
        let mut i: usize = 0;
        while i < self.feeds.len()
            invariant
                i <= self.feeds.len(),
                opml_outlines(doc) == feed_outlines(self.feeds@.take(i as int)),
            decreases self.feeds.len() - i,
        {
            let name = self.feeds[i].name();
            opml_add_feed(&mut doc, name.as_str(), self.feeds[i].url());
            assert(feed_outlines(self.feeds@.take(i as int + 1)) =~= feed_outlines(
                self.feeds@.take(i as int),
            ).push((self.feeds@[i as int].name_spec(), Some(self.feeds@[i as int].conf.url.0@))));
            i = i + 1;
        }
        assert(self.feeds@.take(i as int) == self.feeds@);
        doc
    }

    /// Merges each record into the first feed of its id, in order.
    pub fn merge_new_feeds(&mut self, new_feeds: Vec<SerializableFeed>, now: Timestamp)
        ensures
            merged_all(
                old(self).feeds_spec(),
                new_feeds@,
                final(self).feeds_spec(),
                now,
                old(self).config_spec().relative_time_threshold,
            ),
            final(self).config_spec() == old(self).config_spec(),
            final(self).batch_pending() == old(self).batch_pending(),
            final(self).single_pending() == old(self).single_pending(),
    {
        let ghost start = self.feeds@;
        let ghost recs = new_feeds@;
        let ghost cfg = self.config;
        let ghost pending = (self.updating_feeds, self.updating_feed);
        let threshold = self.config.relative_time_threshold;
        let mut list = new_feeds;
        let ghost mut i: int = 0;
        while list.len() > 0
            invariant
                0 <= i <= recs.len(),
                list@ == recs.skip(i),
                threshold == self.config.relative_time_threshold,
                self.config == cfg,
                (self.updating_feeds, self.updating_feed) == pending,
                merged_all(start, recs.take(i), self.feeds@, now, threshold),
            decreases list.len(),
        {
            let rec = list.remove(0);
            let ghost mid = self.feeds@;
            proof {
                assert(rec == recs[i]);
                assert(list@ == recs.skip(i + 1));
                assert(recs.take(i + 1).drop_last() == recs.take(i));
                assert(recs.take(i + 1).last() == rec);
            }
            let mut k: usize = 0;
            while k < self.feeds.len() && self.feeds[k].conf.url != rec.id
                invariant
                    k <= self.feeds.len(),
                    forall|q: int| 0 <= q < k ==> (#[trigger] self.feeds@[q]).conf.url.0@ != rec.id.0@,
                decreases self.feeds.len() - k,
            {
                k = k + 1;
            }
            proof {
                lemma_find_feed(self.feeds@, rec.id, k as int);
            }
            if k < self.feeds.len() {
                self.feeds[k].merge_feed(rec.data, now, threshold);
            }
            proof {
                assert(merged_one(mid, recs.take(i + 1).last(), self.feeds@, now, threshold));
                i = i + 1;
            }
        }
        assert(recs.take(i) == recs);
    }
}

} // verus!
