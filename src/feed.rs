//! A configured feed with its fetched content, and the merge and retention
//! policy applied when new content arrives.

use vstd::prelude::*;
use crate::config::{FeedFilter, FeedSource};
use crate::models::{FeedAdapter, FeedId, FeedMetrics, FeedTypeAdapter, Item, ItemId, Timestamp, items_equiv};
use crate::sorter::{SortKey, is_sorted_by, sorted_by, sort_by_keys, lemma_sorted_by};

verus! {

broadcast use vstd::seq_lib::group_to_multiset_ensures;

/// A configured feed: its source, its metrics, and its content once fetched
/// or loaded from the cache.
pub struct Feed {
    pub conf: FeedSource,
    pub metrics: FeedMetrics,
    pub data: Option<FeedAdapter>,
}

/// The order key of an item: its date; an item without one sorts as oldest.
pub open spec fn posted_key(i: Item) -> SortKey {
    match i.posted {
        Some(t) => SortKey::Number(t as i128),
        None => SortKey::Absent,
    }
}

pub open spec fn posted_order() -> spec_fn(Item) -> SortKey {
    |i: Item| posted_key(i)
}

/// Items ordered newest first; items with equal dates keep their order.
pub open spec fn newest_first(s: Seq<Item>) -> Seq<Item> {
    sorted_by(s, posted_order(), true)
}

pub open spec fn is_newest_first(s: Seq<Item>) -> bool {
    is_sorted_by(s, posted_order(), true)
}

pub open spec fn has_item_id(s: Seq<Item>, id: ItemId) -> bool {
    exists|j: int| 0 <= j < s.len() && (#[trigger] s[j]).id.0@ == id.0@
}

/// The items of `new` whose id is neither among `old` nor among the earlier
/// items of `new` already taken, in their order.
pub open spec fn fresh_items(old: Seq<Item>, new: Seq<Item>) -> Seq<Item>
    decreases new.len(),
{
    if new.len() == 0 {
        new
    } else {
        let r = fresh_items(old, new.drop_last());
        if has_item_id(old, new.last().id) || has_item_id(r, new.last().id) {
            r
        } else {
            r.push(new.last())
        }
    }
}

/// No two items share an id.
pub open spec fn ids_distinct(s: Seq<Item>) -> bool {
    forall|i: int, j: int| 0 <= i < j < s.len() ==> (#[trigger] s[i]).id.0@ != (#[trigger] s[j]).id.0@
}

/// The existing items with the fresh ones appended, newest first.
pub open spec fn merged_items(old: Seq<Item>, new: Seq<Item>) -> Seq<Item> {
    newest_first(old + fresh_items(old, new))
}

/// What a merge keeps: the `max` newest of the merged items.
pub open spec fn retained_items(old: Seq<Item>, new: Seq<Item>, max: nat) -> Seq<Item> {
    let all = merged_items(old, new);
    if all.len() <= max {
        all
    } else {
        all.take(max as int)
    }
}

/// An item with `is_filtered` recomputed from the feed's title filter; with
/// no filter the item is kept as it is.
pub open spec fn flagged(it: Item, filter: Option<FeedFilter>) -> Item {
    match filter {
        Some(f) => Item {
            id: it.id,
            is_read: it.is_read,
            is_filtered: f.invert != it.title_match_spec(f),
            title: it.title,
            content: it.content,
            summary: it.summary,
            media: it.media,
            posted: it.posted,
            links: it.links,
        },
        None => it,
    }
}

pub open spec fn flagged_items(s: Seq<Item>, filter: Option<FeedFilter>) -> Seq<Item> {
    s.map_values(|it: Item| flagged(it, filter))
}

/// Every item's `is_filtered` agrees with the filter.
pub open spec fn flags_consistent(s: Seq<Item>, filter: Option<FeedFilter>) -> bool {
    forall|i: int| 0 <= i < s.len() ==> flagged(#[trigger] s[i], filter) == s[i]
}

pub open spec fn opt_max(a: Option<Timestamp>, b: Option<Timestamp>) -> Option<Timestamp> {
    match (a, b) {
        (Some(x), Some(y)) => Some(if x >= y { x } else { y }),
        (Some(x), None) => Some(x),
        (None, _) => b,
    }
}

/// The newest date among the items, if any has one.
pub open spec fn latest_posted(s: Seq<Item>) -> Option<Timestamp>
    decreases s.len(),
{
    if s.len() == 0 {
        None
    } else {
        opt_max(latest_posted(s.drop_last()), s.last().posted)
    }
}

pub const SECONDS_PER_DAY: i128 = 86400;

/// `after` is `before` with `new` merged in at time `now`: the items become
/// the retained ones of the earlier items (none without earlier content) and
/// the new ones; the rest of the earlier content stays, or, without earlier
/// content, that of the new content is taken. The filter flags and the
/// metrics are recomputed; the configuration and hit count stay.
pub open spec fn merge_ok(
    before: Feed,
    new: FeedAdapter,
    after: Feed,
    now: Timestamp,
    threshold: u32,
) -> bool {
    &&& after.conf == before.conf
    &&& after.metrics.hits == before.metrics.hits
    &&& after.data.is_some()
    &&& before.data.is_none() ==> same_meta(after.data.unwrap(), new)
    &&& before.data.is_some() ==> same_meta(after.data.unwrap(), before.data.unwrap())
    &&& after.data.unwrap().items@ == flagged_items(
        retained_items(before.item_seq(), new.items@, before.conf.max_items as nat),
        before.conf.filter,
    )
    &&& ids_distinct(before.item_seq()) ==> ids_distinct(after.data.unwrap().items@)
    &&& after.metrics.latest_item_date == latest_posted(after.data.unwrap().items@)
    &&& after.metrics.is_recent == is_recent_at(after.metrics.latest_item_date, now, threshold)
}

/// `it` marked read.
pub open spec fn as_read(it: Item) -> Item {
    Item { is_read: true, ..it }
}

/// `after` is `before` with every item marked read.
pub open spec fn marked_read(before: Feed, after: Feed) -> bool {
    &&& after.conf == before.conf
    &&& after.metrics == before.metrics
    &&& match before.data {
        None => after.data.is_none(),
        Some(d) => {
            &&& after.data.is_some()
            &&& same_meta(after.data.unwrap(), d)
            &&& after.data.unwrap().items@ == d.items@.map_values(|it: Item| as_read(it))
        },
    }
}

/// `after` is `before` with the item at `j` marked read.
pub open spec fn marked_read_at(before: Feed, after: Feed, j: int) -> bool {
    &&& after.conf == before.conf
    &&& after.metrics == before.metrics
    &&& before.data.is_some()
    &&& after.data.is_some()
    &&& same_meta(after.data.unwrap(), before.data.unwrap())
    &&& after.data.unwrap().items@ == before.data.unwrap().items@.update(
        j,
        as_read(before.data.unwrap().items@[j]),
    )
}

/// Whole days from `then` to `now`, rounded toward zero.
pub open spec fn elapsed_days(now: int, then: int) -> int {
    if now >= then {
        (now - then) / (SECONDS_PER_DAY as int)
    } else {
        -((then - now) / (SECONDS_PER_DAY as int))
    }
}

/// A feed is recent when its newest item is less than `threshold` days old.
pub open spec fn is_recent_at(latest: Option<Timestamp>, now: Timestamp, threshold: u32) -> bool {
    match latest {
        Some(d) => elapsed_days(now as int, d as int) < threshold as int,
        None => false,
    }
}

/// Everything but the items is the same.
pub open spec fn same_meta(a: FeedAdapter, b: FeedAdapter) -> bool {
    &&& a.feed_type == b.feed_type
    &&& a.title == b.title
    &&& a.published == b.published
    &&& a.updated == b.updated
    &&& a.links == b.links
    &&& a.authors == b.authors
    &&& a.description == b.description
    &&& a.categories == b.categories
    &&& a.language == b.language
}

pub open spec fn unread_count(s: Seq<Item>) -> nat
    decreases s.len(),
{
    if s.len() == 0 {
        0
    } else {
        unread_count(s.drop_last()) + if s.last().is_read {
            0nat
        } else {
            1nat
        }
    }
}

proof fn lemma_unread_count_bound(s: Seq<Item>)
    ensures
        unread_count(s) <= s.len(),
    decreases s.len(),
{
    if s.len() > 0 {
        lemma_unread_count_bound(s.drop_last());
    }
}

/// Whether an item of `items` has the id `id`.
fn contains_item_id(items: &Vec<Item>, id: &ItemId) -> (r: bool)
    ensures
        r == has_item_id(items@, *id),
{
    let mut i: usize = 0;
    while i < items.len()
        invariant
            i <= items.len(),
            forall|j: int| 0 <= j < i ==> (#[trigger] items@[j]).id.0@ != id.0@,
        decreases items.len() - i,
    {
        if items[i].id == *id {
            return true;
        }
        i = i + 1;
    }
    false
}

/// The items of `new` whose id is new to `old` and to the items taken.
fn fresh_items_exec(old: &Vec<Item>, new: Vec<Item>) -> (r: Vec<Item>)
    ensures
        r@ == fresh_items(old@, new@),
{
    let ghost input = new@;
    let mut new = new;
    let mut out: Vec<Item> = Vec::new();
    let ghost mut i: int = 0;
    while new.len() > 0
        invariant
            0 <= i <= input.len(),
            new@ == input.skip(i),
            out@ == fresh_items(old@, input.take(i)),
        decreases new.len(),
    {
        let it = new.remove(0);
        proof {
            assert(it == input[i]);
            assert(new@ == input.skip(i + 1));
            assert(input.take(i + 1).drop_last() == input.take(i));
            assert(input.take(i + 1).last() == it);
        }
        if !contains_item_id(old, &it.id) && !contains_item_id(&out, &it.id) {
            out.push(it);
        }
        proof {
            i = i + 1;
        }
    }
    assert(input.take(i) == input);
    out
}

/// The merged items of `old` and `new`, newest first, cut to `max`.
fn retain_items(old: Vec<Item>, new: Vec<Item>, max: u32) -> (r: Vec<Item>)
    ensures
        r@ == retained_items(old@, new@, max as nat),
{
    let mut fresh = fresh_items_exec(&old, new);
    let mut all = old;
    let ghost combined = all@ + fresh@;
    all.append(&mut fresh);
    let mut keys: Vec<SortKey> = Vec::new();
    let mut i: usize = 0;
    while i < all.len()
        invariant
            i <= all.len(),
            keys.len() == i,
            forall|j: int| 0 <= j < i ==> keys@[j] == posted_key(#[trigger] all@[j]),
        decreases all.len() - i,
    {
        let k = match all[i].posted {
            Some(t) => SortKey::Number(t as i128),
            None => SortKey::Absent,
        };
        keys.push(k);
        i = i + 1;
    }
    assert(all@ == combined);
    let mut sorted = sort_by_keys(keys, all, true, Ghost(posted_order()));
    proof {
        lemma_sorted_by(combined, posted_order(), true);
    }
    if sorted.len() > max as usize {
        sorted.truncate(max as usize);
    }
    sorted
}

/// Recomputes `is_filtered` of every item from the title filter.
fn flag_items(items: &mut Vec<Item>, filter: &FeedFilter)
    ensures
        final(items)@ == flagged_items(old(items)@, Some(*filter)),
{
    let ghost input = items@;
    let mut i: usize = 0;
    while i < items.len()
        invariant
            i <= items.len(),
            items@.len() == input.len(),
            forall|j: int| 0 <= j < i ==> items@[j] == flagged(#[trigger] input[j], Some(*filter)),
            forall|j: int| i <= j < items@.len() ==> items@[j] == #[trigger] input[j],
        decreases items.len() - i,
    {
        let m = items[i].title_matches(filter);
        items[i].is_filtered = filter.invert != m;
        i = i + 1;
    }
    assert(items@ =~= flagged_items(input, Some(*filter)));
}

/// Marks every item read.
fn mark_items_read(items: &mut Vec<Item>)
    ensures
        final(items)@ == old(items)@.map_values(|it: Item| as_read(it)),
{
    let ghost input = items@;
    let mut j: usize = 0;
    while j < items.len()
        invariant
            j <= items.len(),
            items@.len() == input.len(),
            forall|q: int| 0 <= q < j ==> items@[q] == as_read(#[trigger] input[q]),
            forall|q: int| j <= q < items@.len() ==> items@[q] == #[trigger] input[q],
        decreases items.len() - j,
    {
        items[j].is_read = true;
        j = j + 1;
    }
    assert(items@ =~= input.map_values(|it: Item| as_read(it)));
}

/// The newest date among the items.
fn latest_posted_exec(items: &Vec<Item>) -> (r: Option<Timestamp>)
    ensures
        r == latest_posted(items@),
{
    let mut best: Option<Timestamp> = None;
    let mut i: usize = 0;
    while i < items.len()
        invariant
            i <= items.len(),
            best == latest_posted(items@.take(i as int)),
        decreases items.len() - i,
    {
        proof {
            assert(items@.take(i as int + 1).drop_last() == items@.take(i as int));
        }
        best = match (best, items[i].posted) {
            (Some(x), Some(y)) => Some(if x >= y { x } else { y }),
            (Some(x), None) => Some(x),
            (None, p) => p,
        };
        i = i + 1;
    }
    assert(items@.take(i as int) == items@);
    best
}

/// Whether the newest date is less than `threshold` whole days before `now`.
pub fn is_recent(latest: Option<Timestamp>, now: Timestamp, threshold: u32) -> (r: bool)
    ensures
        r == is_recent_at(latest, now, threshold),
{
    match latest {
        None => false,
        Some(d) => {
            let diff: i128 = now as i128 - d as i128;
            let days: i128 = if diff >= 0 {
                ((diff as u128) / (SECONDS_PER_DAY as u128)) as i128
            } else {
                -((((-diff) as u128) / (SECONDS_PER_DAY as u128)) as i128)
            };
            days < threshold as i128
        },
    }
}

impl Feed {
    /// Same fields; vectors compared element by element.
    pub open spec fn equiv(self, other: Self) -> bool {
        &&& self.conf.equiv(other.conf)
        &&& self.metrics == other.metrics
        &&& match (self.data, other.data) {
            (Some(a), Some(b)) => a.equiv(b),
            (None, None) => true,
            _ => false,
        }
    }

    pub open spec fn item_seq(self) -> Seq<Item> {
        match self.data {
            Some(d) => d.items@,
            None => Seq::empty(),
        }
    }

    pub open spec fn unread_spec(self) -> nat {
        unread_count(self.item_seq())
    }

    /// The title of the content, or the URL before any content.
    pub open spec fn name_spec(self) -> Seq<char> {
        match self.data {
            Some(d) => d.title@,
            None => self.conf.url.0@,
        }
    }

    pub open spec fn has_new_unfiltered_spec(self) -> bool {
        &&& self.conf.filter.is_some()
        &&& exists|i: int|
            0 <= i < self.item_seq().len() && !(#[trigger] self.item_seq()[i]).is_read
                && !self.item_seq()[i].is_filtered
    }

    /// Recomputes `is_filtered` of every item from the feed's title filter.
    pub fn refresh_items_metrics(&mut self)
        ensures
            final(self).conf == old(self).conf,
            final(self).metrics == old(self).metrics,
            old(self).data.is_none() ==> final(self).data.is_none(),
            old(self).data.is_some() ==> final(self).data.is_some() && same_meta(
                final(self).data.unwrap(),
                old(self).data.unwrap(),
            ) && final(self).data.unwrap().items@ == flagged_items(
                old(self).data.unwrap().items@,
                old(self).conf.filter,
            ),
    {
        match self.data.take() {
            None => {},
            Some(mut d) => {
                let ghost before = d.items@;
                match &self.conf.filter {
                    Some(f) => flag_items(&mut d.items, f),
                    None => {
                        assert(d.items@ =~= flagged_items(before, self.conf.filter));
                    },
                }
                self.data = Some(d);
            },
        }
    }

    /// Recomputes the newest item date and whether the feed is recent, when
    /// the feed has content.
    pub fn refresh_feed_metrics(&mut self, now: Timestamp, threshold: u32)
        ensures
            final(self).conf == old(self).conf,
            final(self).data == old(self).data,
            final(self).metrics.hits == old(self).metrics.hits,
            old(self).data.is_none() ==> final(self).metrics == old(self).metrics,
            old(self).data.is_some() ==> {
                &&& final(self).metrics.latest_item_date == latest_posted(
                    old(self).data.unwrap().items@,
                )
                &&& final(self).metrics.is_recent == is_recent_at(
                    final(self).metrics.latest_item_date,
                    now,
                    threshold,
                )
            },
    {
        match &self.data {
            None => {},
            Some(d) => {
                let latest = latest_posted_exec(&d.items);
                self.metrics.latest_item_date = latest;
                self.metrics.is_recent = is_recent(latest, now, threshold);
            },
        }
    }

    /// Merges newly fetched content. The new items whose id is already
    /// present, or was taken earlier from the same batch, are dropped, the
    /// rest appended to the earlier items (none without earlier content), all
    /// sorted newest first (equal dates keep their order) and cut to
    /// `max_items`. The rest of the earlier content stays; without earlier
    /// content, that of the new content is taken. Then the title filter flags
    /// and the metrics are recomputed.
    pub fn merge_feed(&mut self, new: FeedAdapter, now: Timestamp, threshold: u32)
        ensures
            merge_ok(*old(self), new, *final(self), now, threshold),
    {
        proof {
            if ids_distinct(self.item_seq()) {
                merge_keeps_ids_distinct(
                    self.item_seq(),
                    new.items@,
                    self.conf.max_items as nat,
                    self.conf.filter,
                );
            }
        }
        match self.data.take() {
            None => {
                let mut d = new;
                let mut items: Vec<Item> = Vec::new();
                std::mem::swap(&mut items, &mut d.items);
                d.items = retain_items(Vec::new(), items, self.conf.max_items);
                self.data = Some(d);
            },
            Some(old_data) => {
                proof {
                    if ids_distinct(old_data.items@) {
                        merge_keeps_ids_distinct(
                            old_data.items@,
                            new.items@,
                            self.conf.max_items as nat,
                            self.conf.filter,
                        );
                    }
                }
                let mut d = old_data;
                let mut items: Vec<Item> = Vec::new();
                std::mem::swap(&mut items, &mut d.items);
                d.items = retain_items(items, new.items, self.conf.max_items);
                self.data = Some(d);
            },
        }
        self.refresh_items_metrics();
        self.refresh_feed_metrics(now, threshold);
    }

    /// Marks every item read.
    pub fn mark_all_read(&mut self)
        ensures
            marked_read(*old(self), *final(self)),
    {
        match &mut self.data {
            None => {},
            Some(d) => mark_items_read(&mut d.items),
        }
    }

    /// Marks the item at `j` read.
    pub(crate) fn mark_read_at(&mut self, j: usize)
        requires
            j < old(self).item_seq().len(),
        ensures
            marked_read_at(*old(self), *final(self), j as int),
    {
        match &mut self.data {
            None => {},
            Some(d) => {
                d.items[j].is_read = true;
            },
        }
    }

    pub fn url(&self) -> (r: &str)
        ensures
            r@ == self.conf.url.0@,
    {
        self.conf.url.0.as_str()
    }

    pub fn id(&self) -> (r: &FeedId)
        ensures
            *r == self.conf.url,
    {
        &self.conf.url
    }

    pub fn tags(&self) -> (r: &Vec<String>)
        ensures
            *r == self.conf.tags,
    {
        &self.conf.tags
    }

    /// The format of the content; `Unknown` before any content.
    pub fn feed_type(&self) -> (r: FeedTypeAdapter)
        ensures
            r == match self.data {
                Some(d) => d.feed_type,
                None => FeedTypeAdapter::Unknown,
            },
    {
        match &self.data {
            Some(d) => d.feed_type,
            None => FeedTypeAdapter::Unknown,
        }
    }

    pub fn items(&self) -> (r: Option<&Vec<Item>>)
        ensures
            self.data.is_none() ==> r.is_none(),
            self.data.is_some() ==> r.is_some() && *r.unwrap() == self.data.unwrap().items,
    {
        match &self.data {
            Some(d) => Some(&d.items),
            None => None,
        }
    }

    /// Drops the fetched content; with it the newest item date and the
    /// recency go, the configuration and the hit count stay.
    pub fn clear_data(&mut self)
        ensures
            final(self).data.is_none(),
            final(self).conf == old(self).conf,
            final(self).metrics.hits == old(self).metrics.hits,
            final(self).metrics.latest_item_date.is_none(),
            !final(self).metrics.is_recent,
    {
        self.data = None;
        self.metrics.latest_item_date = None;
        self.metrics.is_recent = false;
    }

    /// Counts one more visit; the count stops at `usize::MAX`.
    pub fn increment_hits(&mut self)
        ensures
            final(self).metrics.hits == if old(self).metrics.hits < usize::MAX {
                old(self).metrics.hits + 1
            } else {
                old(self).metrics.hits as int
            },
            final(self).metrics.latest_item_date == old(self).metrics.latest_item_date,
            final(self).metrics.is_recent == old(self).metrics.is_recent,
            final(self).conf == old(self).conf,
            final(self).data == old(self).data,
    {
        self.metrics.hits = self.metrics.hits.saturating_add(1);
    }

    /// Number of unread items.
    pub fn tot_unread(&self) -> (r: usize)
        ensures
            r == self.unread_spec(),
    {
        match &self.data {
            None => 0,
            Some(d) => {
                let mut n: usize = 0;
                let mut i: usize = 0;
                while i < d.items.len()
                    invariant
                        i <= d.items.len(),
                        n == unread_count(d.items@.take(i as int)),
                    decreases d.items.len() - i,
                {
                    proof {
                        assert(d.items@.take(i as int + 1).drop_last() == d.items@.take(i as int));
                        lemma_unread_count_bound(d.items@.take(i as int));
                    }
                    if !d.items[i].is_read {
                        n = n + 1;
                    }
                    i = i + 1;
                }
                assert(d.items@.take(i as int) == d.items@);
                n
            },
        }
    }

    /// Whether the feed has a title filter and an unread item that it lets
    /// through.
    pub fn has_new_unfiltered(&self) -> (r: bool)
        ensures
            r == self.has_new_unfiltered_spec(),
    {
        if let None = self.conf.filter {
            return false;
        }
        match self.items() {
            None => false,
            Some(items) => {
                let mut i: usize = 0;
                while i < items.len()
                    invariant
                        i <= items.len(),
                        items@ == self.item_seq(),
                        self.conf.filter.is_some(),
                        forall|j: int|
                            0 <= j < i ==> (#[trigger] items@[j]).is_read || items@[j].is_filtered,
                    decreases items.len() - i,
                {
                    if !items[i].is_read && !items[i].is_filtered {
                        assert(!self.item_seq()[i as int].is_read);
                        return true;
                    }
                    i = i + 1;
                }
                false
            },
        }
    }

    /// The title of the content, or the URL before any content.
    pub fn name(&self) -> (r: String)
        ensures
            r@ == self.name_spec(),
    {
        match &self.data {
            Some(d) => d.title.clone(),
            None => self.conf.url.0.clone(),
        }
    }
}

impl Clone for Feed {
    fn clone(&self) -> (r: Self)
        ensures
            r.equiv(*self),
    {
        Feed {
            conf: self.conf.clone(),
            metrics: self.metrics,
            data: match &self.data {
                Some(d) => Some(d.clone()),
                None => None,
            },
        }
    }
}

/// The state of a feed's items after merging each batch in turn onto
/// earlier content.
pub open spec fn after_merges(items: Seq<Item>, batches: Seq<Seq<Item>>, max: nat) -> Seq<Item>
    decreases batches.len(),
{
    if batches.len() == 0 {
        items
    } else {
        retained_items(after_merges(items, batches.drop_last(), max), batches.last(), max)
    }
}

pub(crate) proof fn lemma_flagged_items_equiv(
    a: Seq<Item>,
    b: Seq<Item>,
    filter: Option<FeedFilter>,
)
    requires
        items_equiv(a, b),
    ensures
        items_equiv(flagged_items(a, filter), flagged_items(b, filter)),
{
    assert forall|i: int| 0 <= i < a.len() implies (#[trigger] flagged_items(a, filter)[i]).equiv(
        flagged_items(b, filter)[i],
    ) by {
        assert(a[i].equiv(b[i]));
        assert(a[i].title == b[i].title);
    }
}

proof fn lemma_flagged_items_posted(s: Seq<Item>, filter: Option<FeedFilter>)
    ensures
        flagged_items(s, filter).len() == s.len(),
        forall|i: int|
            0 <= i < s.len() ==> (#[trigger] flagged_items(s, filter)[i]).posted == s[i].posted,
{
}

proof fn lemma_fresh_items_empty(old: Seq<Item>, new: Seq<Item>)
    requires
        forall|j: int| 0 <= j < new.len() ==> has_item_id(old, #[trigger] new[j].id),
    ensures
        fresh_items(old, new) == Seq::<Item>::empty(),
    decreases new.len(),
{
    if new.len() > 0 {
        let t = new.drop_last();
        assert forall|j: int| 0 <= j < t.len() implies has_item_id(old, #[trigger] t[j].id) by {
            assert(t[j] == new[j]);
        }
        lemma_fresh_items_empty(old, t);
        assert(has_item_id(old, new[new.len() - 1].id));
    }
}

/// Ordering: after a merge (`old` being the feed's earlier items, empty
/// without earlier content) the items are ordered by date, newest first, and
/// the items without a date come last.
pub proof fn merge_orders_newest_first(
    old: Seq<Item>,
    new: Seq<Item>,
    max: nat,
    filter: Option<FeedFilter>,
)
    ensures
        is_newest_first(flagged_items(retained_items(old, new, max), filter)),
        forall|i: int, j: int|
            0 <= i < j < retained_items(old, new, max).len() && (#[trigger] flagged_items(
                retained_items(old, new, max),
                filter,
            )[i]).posted.is_none() ==> (#[trigger] flagged_items(
                retained_items(old, new, max),
                filter,
            )[j]).posted.is_none(),
{
    let all = merged_items(old, new);
    lemma_sorted_by(old + fresh_items(old, new), posted_order(), true);
    let kept = retained_items(old, new, max);
    assert(is_newest_first(kept)) by {
        assert forall|i: int, j: int| 0 <= i < j < kept.len() implies crate::sorter::in_order(
            posted_order(),
            true,
            #[trigger] kept[i],
            #[trigger] kept[j],
        ) by {
            assert(kept[i] == all[i] && kept[j] == all[j]);
        }
    }
    let r = flagged_items(kept, filter);
    lemma_flagged_items_posted(kept, filter);
    assert forall|i: int, j: int| 0 <= i < j < r.len() implies crate::sorter::in_order(
        posted_order(),
        true,
        #[trigger] r[i],
        #[trigger] r[j],
    ) by {
        assert(crate::sorter::in_order(posted_order(), true, kept[i], kept[j]));
        assert(posted_key(r[i]) == posted_key(kept[i]));
        assert(posted_key(r[j]) == posted_key(kept[j]));
    }
}

/// Retention: a merge (`old` being the feed's earlier items, empty without
/// earlier content) keeps at most `max` items, and
/// they are the newest of the merged items: none of the evicted ones is
/// newer than a kept one, and kept plus evicted are exactly the earlier
/// items with the fresh ones.
pub proof fn merge_keeps_most_recent(
    old: Seq<Item>,
    new: Seq<Item>,
    max: nat,
    filter: Option<FeedFilter>,
)
    ensures
        ({
            let all = merged_items(old, new);
            let kept = flagged_items(retained_items(old, new, max), filter);
            &&& kept.len() <= max
            &&& kept.len() == if all.len() <= max {
                all.len()
            } else {
                max
            }
            &&& retained_items(old, new, max) == all.take(kept.len() as int)
            &&& all.to_multiset() == (old + fresh_items(old, new)).to_multiset()
            &&& forall|i: int|
                0 <= i < kept.len() ==> (old + fresh_items(old, new)).contains(
                    #[trigger] retained_items(old, new, max)[i],
                ) && kept[i] == flagged(retained_items(old, new, max)[i], filter)
            &&& forall|i: int, j: int|
                0 <= i < kept.len() <= j < all.len() ==> crate::sorter::key_le(
                    posted_key(#[trigger] all[j]),
                    posted_key(#[trigger] kept[i]),
                )
        }),
{
    let all = merged_items(old, new);
    lemma_sorted_by(old + fresh_items(old, new), posted_order(), true);
    let kept0 = retained_items(old, new, max);
    lemma_flagged_items_posted(kept0, filter);
    let kept = flagged_items(kept0, filter);
    assert(kept0 == all.take(kept.len() as int));
    assert forall|i: int| 0 <= i < kept.len() implies (old + fresh_items(old, new)).contains(
        #[trigger] kept0[i],
    ) && kept[i] == flagged(kept0[i], filter) by {
        assert(kept0[i] == all[i]);
        assert(all.to_multiset().count(all[i]) > 0);
    }
    assert forall|i: int, j: int| 0 <= i < kept.len() <= j < all.len() implies crate::sorter::key_le(
        posted_key(#[trigger] all[j]),
        posted_key(#[trigger] kept[i]),
    ) by {
        assert(kept0[i] == all[i]);
        assert(crate::sorter::in_order(posted_order(), true, all[i], all[j]));
    }
}

/// Retention over any number of merges: after at least one merge a feed
/// never holds more than `max` items.
pub proof fn merges_stay_within_bound(items: Seq<Item>, batches: Seq<Seq<Item>>, max: nat)
    requires
        batches.len() > 0,
    ensures
        after_merges(items, batches, max).len() <= max,
{
    merge_keeps_most_recent(after_merges(items, batches.drop_last(), max), batches.last(), max, None);
}

proof fn lemma_fresh_items_distinct(old: Seq<Item>, new: Seq<Item>)
    requires
        ids_distinct(old),
    ensures
        ids_distinct(old + fresh_items(old, new)),
    decreases new.len(),
{
    if new.len() > 0 {
        let t = new.drop_last();
        lemma_fresh_items_distinct(old, t);
        let r = fresh_items(old, t);
        let x = new.last();
        if !(has_item_id(old, x.id) || has_item_id(r, x.id)) {
            let a = old + r;
            let b = old + r.push(x);
            assert(b == a.push(x));
            assert forall|i: int, j: int| 0 <= i < j < b.len() implies (#[trigger] b[i]).id.0@ != (
            #[trigger] b[j]).id.0@ by {
                if j == b.len() - 1 {
                    if i < old.len() {
                        assert(b[i] == old[i]);
                    } else {
                        assert(b[i] == r[i - old.len()]);
                    }
                } else {
                    assert(b[i] == a[i] && b[j] == a[j]);
                }
            }
        }
    }
}

/// A merge onto items whose ids are distinct (there are none without earlier
/// content) leaves item ids
/// distinct: an incoming item is dropped when its id is already present or
/// was taken earlier from the same batch.
pub proof fn merge_keeps_ids_distinct(
    old: Seq<Item>,
    new: Seq<Item>,
    max: nat,
    filter: Option<FeedFilter>,
)
    requires
        ids_distinct(old),
    ensures
        ids_distinct(flagged_items(retained_items(old, new, max), filter)),
{
    let c = old + fresh_items(old, new);
    lemma_fresh_items_distinct(old, new);
    crate::sorter::lemma_sorted_by_distinct(c, posted_order(), true, |it: Item| it.id.0@);
    let all = merged_items(old, new);
    let kept = retained_items(old, new, max);
    let r = flagged_items(kept, filter);
    assert forall|i: int, j: int| 0 <= i < j < r.len() implies (#[trigger] r[i]).id.0@ != (
    #[trigger] r[j]).id.0@ by {
        assert(kept[i] == all[i] && kept[j] == all[j]);
        assert((|it: Item| it.id.0@)(all[i]) != (|it: Item| it.id.0@)(all[j]));
    }
}

/// Idempotence: merging a batch whose items are all present already, onto
/// earlier content that fits the bound and whose filter flags are up to
/// date, leaves the same items with the same annotations (at most in
/// another order).
pub proof fn merge_of_known_items_keeps_items(
    old: Seq<Item>,
    new: Seq<Item>,
    max: nat,
    filter: Option<FeedFilter>,
)
    requires
        old.len() <= max,
        forall|j: int| 0 <= j < new.len() ==> has_item_id(old, #[trigger] new[j].id),
        flags_consistent(old, filter),
    ensures
        flagged_items(retained_items(old, new, max), filter).len() == old.len(),
        flagged_items(retained_items(old, new, max), filter).to_multiset() == old.to_multiset(),
{
    lemma_fresh_items_empty(old, new);
    assert(old + fresh_items(old, new) == old);
    lemma_sorted_by(old, posted_order(), true);
    let all = merged_items(old, new);
    assert(all.len() <= max);
    let r = flagged_items(all, filter);
    assert forall|i: int| 0 <= i < all.len() implies #[trigger] r[i] == all[i] by {
        vstd::seq_lib::to_multiset_contains(all, all[i]);
        assert(all.contains(all[i]));
        assert(all.to_multiset().count(all[i]) > 0);
        vstd::seq_lib::to_multiset_contains(old, all[i]);
        let j = choose|j: int| 0 <= j < old.len() && old[j] == all[i];
        assert(flagged(old[j], filter) == old[j]);
    }
    assert(r =~= all);
}

} // verus!
