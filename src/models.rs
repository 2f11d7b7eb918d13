//! The entity model: feeds, items, links, tags and their identities.

use vstd::prelude::*;
use crate::config::FeedFilter;
use crate::text::{regex_outcome, regex_search};

verus! {

/// Seconds since the Unix epoch, UTC.
pub type Timestamp = i64;

/// Identity of a feed: its canonical source URL.
pub struct FeedId(pub String);

impl PartialEq for FeedId {
    fn eq(&self, other: &FeedId) -> (r: bool) {
        self.0 == other.0
    }
}

impl vstd::std_specs::cmp::PartialEqSpecImpl for FeedId {
    open spec fn obeys_eq_spec() -> bool {
        true
    }

    open spec fn eq_spec(&self, other: &FeedId) -> bool {
        self.0@ == other.0@
    }
}

impl Clone for FeedId {
    fn clone(&self) -> (r: Self)
        ensures
            r == *self,
    {
        FeedId(self.0.clone())
    }
}

/// Identity of an item within the collection; equal ids are the same item.
pub struct ItemId(pub String);

impl PartialEq for ItemId {
    fn eq(&self, other: &ItemId) -> (r: bool) {
        self.0 == other.0
    }
}

impl vstd::std_specs::cmp::PartialEqSpecImpl for ItemId {
    open spec fn obeys_eq_spec() -> bool {
        true
    }

    open spec fn eq_spec(&self, other: &ItemId) -> bool {
        self.0@ == other.0@
    }
}

impl Clone for ItemId {
    fn clone(&self) -> (r: Self)
        ensures
            r == *self,
    {
        ItemId(self.0.clone())
    }
}

/// Summary of a feed, recomputed whenever its content changes.
#[derive(Clone, Copy, Debug)]
pub struct FeedMetrics {
    pub latest_item_date: Option<Timestamp>,
    pub hits: usize,
    pub is_recent: bool,
}

impl Default for FeedMetrics {
    fn default() -> (r: Self)
        ensures
            r.latest_item_date.is_none(),
            r.hits == 0,
            !r.is_recent,
    {
        FeedMetrics { latest_item_date: None, hits: 0, is_recent: false }
    }
}

pub struct Link {
    pub href: String,
    pub title: Option<String>,
    pub mime_type: Option<String>,
}

impl Clone for Link {
    fn clone(&self) -> (r: Self)
        ensures
            r == *self,
    {
        Link { href: self.href.clone(), title: self.title.clone(), mime_type: self.mime_type.clone() }
    }
}

/// One media file attached to an item.
pub struct MediaContentAdapter {
    pub url: Option<String>,
    pub mime_type: Option<String>,
    pub width: Option<u32>,
    pub height: Option<u32>,
    pub duration_secs: Option<u64>,
    pub file_size: Option<u64>,
}

impl Clone for MediaContentAdapter {
    fn clone(&self) -> (r: Self)
        ensures
            r == *self,
    {
        MediaContentAdapter {
            url: self.url.clone(),
            mime_type: self.mime_type.clone(),
            width: self.width,
            height: self.height,
            duration_secs: self.duration_secs,
            file_size: self.file_size,
        }
    }
}

/// A media object of an item: a title, a description and its files.
pub struct MediaObjectAdapter {
    pub title: Option<String>,
    pub description: Option<String>,
    pub payload: Vec<MediaContentAdapter>,
}

impl MediaObjectAdapter {
    /// Same fields; the files compared by value.
    pub open spec fn equiv(self, other: Self) -> bool {
        &&& self.title == other.title
        &&& self.description == other.description
        &&& self.payload@ == other.payload@
    }
}

impl Clone for MediaObjectAdapter {
    fn clone(&self) -> (r: Self)
        ensures
            r.equiv(*self),
    {
        MediaObjectAdapter {
            title: self.title.clone(),
            description: self.description.clone(),
            payload: self.payload.clone(),
        }
    }
}

/// The syndication format a feed was parsed from.
#[derive(Clone, Copy, Debug, PartialEq, Eq, Structural)]
pub enum FeedTypeAdapter {
    Unknown,
    Atom,
    JSON,
    RSS0,
    RSS1,
    RSS2,
}

/// A feed entry with its local annotations `is_read` and `is_filtered`.
pub struct Item {
    pub id: ItemId,
    pub is_read: bool,
    pub is_filtered: bool,
    pub title: Option<String>,
    pub content: Option<String>,
    pub summary: Option<String>,
    pub media: Vec<MediaObjectAdapter>,
    pub posted: Option<Timestamp>,
    pub links: Vec<Link>,
}

pub open spec fn media_equiv(a: Seq<MediaObjectAdapter>, b: Seq<MediaObjectAdapter>) -> bool {
    a.len() == b.len() && forall|i: int| 0 <= i < a.len() ==> (#[trigger] a[i]).equiv(b[i])
}

impl Item {
    /// Same fields; vectors compared element by element.
    pub open spec fn equiv(self, other: Self) -> bool {
        &&& self.id == other.id
        &&& self.is_read == other.is_read
        &&& self.is_filtered == other.is_filtered
        &&& self.title == other.title
        &&& self.content == other.content
        &&& self.summary == other.summary
        &&& self.posted == other.posted
        &&& self.links@ == other.links@
        &&& media_equiv(self.media@, other.media@)
    }

    /// Whether the title filter's pattern matches this item's title.
    pub open spec fn title_match_spec(self, filter: FeedFilter) -> bool {
        match self.title {
            Some(t) => regex_outcome(filter.pattern@, filter.case_insensitive, t@) == Some(true),
            None => false,
        }
    }

    /// The pattern is searched in the title; an item without a title, or a
    /// pattern that does not compile, does not match.
    pub fn title_matches(&self, filter: &FeedFilter) -> (r: bool)
        ensures
            r == self.title_match_spec(*filter),
    {
        match &self.title {
            Some(t) => match regex_search(filter.pattern.as_str(), filter.case_insensitive, t.as_str()) {
                Some(b) => b,
                None => false,
            },
            None => false,
        }
    }
}

impl Clone for Item {
    fn clone(&self) -> (r: Self)
        ensures
            r.equiv(*self),
    {
        let media = self.media.clone();
        let links = self.links.clone();
        assert(links@ =~= self.links@);
        Item {
            id: self.id.clone(),
            is_read: self.is_read,
            is_filtered: self.is_filtered,
            title: self.title.clone(),
            content: self.content.clone(),
            summary: self.summary.clone(),
            media,
            posted: self.posted,
            links,
        }
    }
}

pub open spec fn items_equiv(a: Seq<Item>, b: Seq<Item>) -> bool {
    a.len() == b.len() && forall|i: int| 0 <= i < a.len() ==> (#[trigger] a[i]).equiv(b[i])
}

/// Feed-level metadata plus the items, newest first after every merge.
pub struct FeedAdapter {
    pub feed_type: FeedTypeAdapter,
    pub title: String,
    pub items: Vec<Item>,
    pub published: Option<Timestamp>,
    pub updated: Option<Timestamp>,
    pub links: Vec<Link>,
    pub authors: Vec<String>,
    pub description: Option<String>,
    pub categories: Vec<String>,
    pub language: Option<String>,
}

impl FeedAdapter {
    /// Same fields; vectors compared element by element.
    pub open spec fn equiv(self, other: Self) -> bool {
        &&& self.meta_equiv(other)
        &&& items_equiv(self.items@, other.items@)
    }

    /// Same fields but for the items.
    pub open spec fn meta_equiv(self, other: Self) -> bool {
        &&& self.feed_type == other.feed_type
        &&& self.title == other.title
        &&& self.published == other.published
        &&& self.updated == other.updated
        &&& self.links@ == other.links@
        &&& self.authors@ == other.authors@
        &&& self.description == other.description
        &&& self.categories@ == other.categories@
        &&& self.language == other.language
    }
}

impl Clone for FeedAdapter {
    fn clone(&self) -> (r: Self)
        ensures
            r.equiv(*self),
    {
        let links = self.links.clone();
        let authors = self.authors.clone();
        let categories = self.categories.clone();
        assert(links@ =~= self.links@);
        assert(authors@ =~= self.authors@);
        assert(categories@ =~= self.categories@);
        FeedAdapter {
            feed_type: self.feed_type,
            title: self.title.clone(),
            items: self.items.clone(),
            published: self.published,
            updated: self.updated,
            links,
            authors,
            description: self.description.clone(),
            categories,
            language: self.language.clone(),
        }
    }
}

/// A tag and the number of configured feeds that carry it.
pub struct Tag {
    pub name: String,
    pub count: usize,
}

impl Clone for Tag {
    fn clone(&self) -> (r: Self)
        ensures
            r == *self,
    {
        Tag { name: self.name.clone(), count: self.count }
    }
}

} // verus!
