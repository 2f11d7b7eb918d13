//! Composable query predicates over feeds, items and tags.

use vstd::prelude::*;
use crate::feed::Feed;
use crate::models::{FeedId, Item, ItemId, Tag};
use crate::text::{is_infix, lower_of, text_contains, to_lower};

verus! {

/// Testing an entity against a filter.
pub trait FilterTest<T> {
    spec fn test_spec(&self, e: T) -> bool;

    fn test(&self, e: &T) -> (r: bool)
        ensures
            r == self.test_spec(*e);
}

/// Optional criteria; an entity passes when it meets every criterion that is
/// set, so the empty filter lets everything through.
pub struct Filter {
    /// The feed carries this tag; the tag has this name.
    pub tag_id: Option<String>,
    pub feed_id: Option<FeedId>,
    pub item_id: Option<ItemId>,
    /// `Some(true)`: the feed has unread items; `Some(false)`: it has none.
    pub unread_feed: Option<bool>,
    /// `Some(true)`: the item is unread; `Some(false)`: it is read.
    pub unread_item: Option<bool>,
    /// Case-insensitive substring of the feed's name.
    pub feed_contains: Option<String>,
    /// Case-insensitive substring of the item's title, or of its content when
    /// it has no title.
    pub item_contains: Option<String>,
    /// Case-insensitive substring of the tag's name.
    pub tag_contains: Option<String>,
    /// The item is let through by its feed's title filter.
    pub unfiltered: bool,
}

/// One criterion of a filter.
pub enum Criterion {
    TagId,
    FeedId,
    ItemId,
    UnreadFeed,
    UnreadItem,
    FeedContains,
    ItemContains,
    TagContains,
    Unfiltered,
}

pub open spec fn has_tag(tags: Seq<String>, tag: Seq<char>) -> bool {
    exists|i: int| 0 <= i < tags.len() && (#[trigger] tags[i])@ == tag
}

/// `pattern` is part of `text`, both lower-cased.
pub open spec fn contains_ci(text: Seq<char>, pattern: Seq<char>) -> bool {
    is_infix(lower_of(pattern), lower_of(text))
}

/// The text an item is searched in: its title, else its content.
pub open spec fn item_text_matches(e: Item, pattern: Seq<char>) -> bool {
    match e.title {
        Some(t) => contains_ci(t@, pattern),
        None => match e.content {
            Some(c) => contains_ci(c@, pattern),
            None => false,
        },
    }
}

impl Filter {
    pub open spec fn empty_spec() -> Filter {
        Filter {
            tag_id: None,
            feed_id: None,
            item_id: None,
            unread_feed: None,
            unread_item: None,
            feed_contains: None,
            item_contains: None,
            tag_contains: None,
            unfiltered: false,
        }
    }

    /// This filter with every criterion but `c` cleared.
    pub open spec fn only(self, c: Criterion) -> Filter {
        let e = Filter::empty_spec();
        match c {
            Criterion::TagId => Filter { tag_id: self.tag_id, ..e },
            Criterion::FeedId => Filter { feed_id: self.feed_id, ..e },
            Criterion::ItemId => Filter { item_id: self.item_id, ..e },
            Criterion::UnreadFeed => Filter { unread_feed: self.unread_feed, ..e },
            Criterion::UnreadItem => Filter { unread_item: self.unread_item, ..e },
            Criterion::FeedContains => Filter { feed_contains: self.feed_contains, ..e },
            Criterion::ItemContains => Filter { item_contains: self.item_contains, ..e },
            Criterion::TagContains => Filter { tag_contains: self.tag_contains, ..e },
            Criterion::Unfiltered => Filter { unfiltered: self.unfiltered, ..e },
        }
    }

    pub open spec fn feed_matches(self, e: Feed) -> bool {
        &&& match self.tag_id {
            Some(t) => has_tag(e.conf.tags@, t@),
            None => true,
        }
        &&& match self.feed_id {
            Some(id) => e.conf.url.0@ == id.0@,
            None => true,
        }
        &&& match self.unread_feed {
            Some(true) => e.unread_spec() > 0,
            Some(false) => e.unread_spec() == 0,
            None => true,
        }
        &&& match self.feed_contains {
            Some(p) => contains_ci(e.name_spec(), p@),
            None => true,
        }
    }

    pub open spec fn item_matches(self, e: Item) -> bool {
        &&& match self.item_id {
            Some(id) => e.id.0@ == id.0@,
            None => true,
        }
        &&& match self.unread_item {
            Some(true) => !e.is_read,
            Some(false) => e.is_read,
            None => true,
        }
        &&& match self.item_contains {
            Some(p) => item_text_matches(e, p@),
            None => true,
        }
        &&& (self.unfiltered ==> !e.is_filtered)
    }

    pub open spec fn tag_matches(self, e: Tag) -> bool {
        &&& match self.tag_id {
            Some(t) => e.name@ == t@,
            None => true,
        }
        &&& match self.tag_contains {
            Some(p) => contains_ci(e.name@, p@),
            None => true,
        }
    }

    /// The empty filter.
    pub fn new() -> (r: Self)
        ensures
            r == Filter::empty_spec(),
    {
        Filter {
            tag_id: None,
            feed_id: None,
            item_id: None,
            unread_feed: None,
            unread_item: None,
            feed_contains: None,
            item_contains: None,
            tag_contains: None,
            unfiltered: false,
        }
    }

    pub fn tag_id(self, tag: String) -> (r: Self)
        ensures
            r == (Filter { tag_id: Some(tag), ..self }),
    {
        Filter { tag_id: Some(tag), ..self }
    }

    pub fn feed_id(self, id: FeedId) -> (r: Self)
        ensures
            r == (Filter { feed_id: Some(id), ..self }),
    {
        Filter { feed_id: Some(id), ..self }
    }

    pub fn item_id(self, id: ItemId) -> (r: Self)
        ensures
            r == (Filter { item_id: Some(id), ..self }),
    {
        Filter { item_id: Some(id), ..self }
    }

    pub fn unread_feed(self) -> (r: Self)
        ensures
            r == (Filter { unread_feed: Some(true), ..self }),
    {
        Filter { unread_feed: Some(true), ..self }
    }

    pub fn read_feed(self) -> (r: Self)
        ensures
            r == (Filter { unread_feed: Some(false), ..self }),
    {
        Filter { unread_feed: Some(false), ..self }
    }

    pub fn unread_item(self) -> (r: Self)
        ensures
            r == (Filter { unread_item: Some(true), ..self }),
    {
        Filter { unread_item: Some(true), ..self }
    }

    pub fn read_item(self) -> (r: Self)
        ensures
            r == (Filter { unread_item: Some(false), ..self }),
    {
        Filter { unread_item: Some(false), ..self }
    }

    pub fn feed_contains(self, pattern: String) -> (r: Self)
        ensures
            r == (Filter { feed_contains: Some(pattern), ..self }),
    {
        Filter { feed_contains: Some(pattern), ..self }
    }

    pub fn item_contains(self, pattern: String) -> (r: Self)
        ensures
            r == (Filter { item_contains: Some(pattern), ..self }),
    {
        Filter { item_contains: Some(pattern), ..self }
    }

    pub fn tag_contains(self, pattern: String) -> (r: Self)
        ensures
            r == (Filter { tag_contains: Some(pattern), ..self }),
    {
        Filter { tag_contains: Some(pattern), ..self }
    }

    pub fn unfiltered(self) -> (r: Self)
        ensures
            r == (Filter { unfiltered: true, ..self }),
    {
        Filter { unfiltered: true, ..self }
    }
}

fn tags_contain(tags: &Vec<String>, tag: &String) -> (r: bool)
    ensures
        r == has_tag(tags@, tag@),
{
    let mut i: usize = 0;
    while i < tags.len()
        invariant
            i <= tags.len(),
            forall|j: int| 0 <= j < i ==> (#[trigger] tags@[j])@ != tag@,
        decreases tags.len() - i,
    {
        if tags[i] == *tag {
            return true;
        }
        i = i + 1;
    }
    false
}

fn contains_ci_exec(text: &str, pattern: &str) -> (r: bool)
    ensures
        r == contains_ci(text@, pattern@),
{
    let t = to_lower(text);
    let p = to_lower(pattern);
    text_contains(t.as_str(), p.as_str())
}

impl FilterTest<Feed> for Filter {
    open spec fn test_spec(&self, e: Feed) -> bool {
        self.feed_matches(e)
    }

    fn test(&self, e: &Feed) -> (r: bool) {
        if let Some(tag) = &self.tag_id {
            if !tags_contain(&e.conf.tags, tag) {
                return false;
            }
        }
        if let Some(id) = &self.feed_id {
            if e.conf.url != *id {
                return false;
            }
        }
        if let Some(unread) = self.unread_feed {
            if unread != (e.tot_unread() > 0) {
                return false;
            }
        }
        if let Some(p) = &self.feed_contains {
            let name = e.name();
            if !contains_ci_exec(name.as_str(), p.as_str()) {
                return false;
            }
        }
        true
    }
}

impl FilterTest<Item> for Filter {
    open spec fn test_spec(&self, e: Item) -> bool {
        self.item_matches(e)
    }

    fn test(&self, e: &Item) -> (r: bool) {
        if let Some(id) = &self.item_id {
            if e.id != *id {
                return false;
            }
        }
        if let Some(unread) = self.unread_item {
            if unread == e.is_read {
                return false;
            }
        }
        if let Some(p) = &self.item_contains {
            let found = match &e.title {
                Some(t) => contains_ci_exec(t.as_str(), p.as_str()),
                None => match &e.content {
                    Some(c) => contains_ci_exec(c.as_str(), p.as_str()),
                    None => false,
                },
            };
            if !found {
                return false;
            }
        }
        if self.unfiltered && e.is_filtered {
            return false;
        }
        true
    }
}

impl FilterTest<Tag> for Filter {
    open spec fn test_spec(&self, e: Tag) -> bool {
        self.tag_matches(e)
    }

    fn test(&self, e: &Tag) -> (r: bool) {
        if let Some(t) = &self.tag_id {
            if e.name != *t {
                return false;
            }
        }
        if let Some(p) = &self.tag_contains {
            if !contains_ci_exec(e.name.as_str(), p.as_str()) {
                return false;
            }
        }
        true
    }
}

/// Filter conjunction: a feed passes a filter exactly when it passes each of
/// the filter's criteria applied alone.
pub proof fn feed_filter_is_conjunction(f: Filter, e: Feed)
    ensures
        f.feed_matches(e) <==> forall|c: Criterion| (#[trigger] f.only(c)).feed_matches(e),
{
    assert(f.only(Criterion::TagId).feed_matches(e) && f.only(Criterion::FeedId).feed_matches(e)
        && f.only(Criterion::UnreadFeed).feed_matches(e) && f.only(
        Criterion::FeedContains,
    ).feed_matches(e) ==> f.feed_matches(e));
}

/// Filter conjunction: an item passes a filter exactly when it passes each
/// of the filter's criteria applied alone.
pub proof fn item_filter_is_conjunction(f: Filter, e: Item)
    ensures
        f.item_matches(e) <==> forall|c: Criterion| (#[trigger] f.only(c)).item_matches(e),
{
    assert(f.only(Criterion::ItemId).item_matches(e) && f.only(Criterion::UnreadItem).item_matches(
        e,
    ) && f.only(Criterion::ItemContains).item_matches(e) && f.only(
        Criterion::Unfiltered,
    ).item_matches(e) ==> f.item_matches(e));
}

/// Filter conjunction: a tag passes a filter exactly when it passes each of
/// the filter's criteria applied alone.
pub proof fn tag_filter_is_conjunction(f: Filter, e: Tag)
    ensures
        f.tag_matches(e) <==> forall|c: Criterion| (#[trigger] f.only(c)).tag_matches(e),
{
    assert(f.only(Criterion::TagId).tag_matches(e) && f.only(Criterion::TagContains).tag_matches(e)
        ==> f.tag_matches(e));
}

} // verus!
