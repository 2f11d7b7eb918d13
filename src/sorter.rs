//! Sort keys, the `Sorter` selector and a verified stable sort.

use vstd::prelude::*;
use crate::text::{lex_le, lemma_lex_le_total, lemma_lex_le_transitive, text_le};
use crate::feed::Feed;
use crate::models::{FeedTypeAdapter, Item, Link, Tag};

verus! {

broadcast use vstd::seq_lib::group_to_multiset_ensures;

/// The value an entity is ordered by: a missing value sorts first, then
/// numbers, then text.
pub enum SortKey {
    Absent,
    Number(i128),
    Text(String),
}

pub open spec fn key_le(a: SortKey, b: SortKey) -> bool {
    match (a, b) {
        (SortKey::Absent, _) => true,
        (_, SortKey::Absent) => false,
        (SortKey::Number(x), SortKey::Number(y)) => x <= y,
        (SortKey::Number(_), SortKey::Text(_)) => true,
        (SortKey::Text(_), SortKey::Number(_)) => false,
        (SortKey::Text(x), SortKey::Text(y)) => lex_le(x@, y@),
    }
}

/// `a` may stand before `b`: ascending, or descending when `desc`.
pub open spec fn in_order<T>(k: spec_fn(T) -> SortKey, desc: bool, a: T, b: T) -> bool {
    if desc {
        key_le(k(b), k(a))
    } else {
        key_le(k(a), k(b))
    }
}

pub open spec fn is_sorted_by<T>(s: Seq<T>, k: spec_fn(T) -> SortKey, desc: bool) -> bool {
    forall|i: int, j: int| 0 <= i < j < s.len() ==> in_order(k, desc, #[trigger] s[i], #[trigger] s[j])
}

/// Where a stable insertion puts `x` into `s`: after the last element that
/// may stand before it.
pub open spec fn insert_pos<T>(s: Seq<T>, x: T, k: spec_fn(T) -> SortKey, desc: bool) -> int
    decreases s.len(),
{
    if s.len() == 0 {
        0
    } else if in_order(k, desc, s.last(), x) {
        s.len() as int
    } else {
        insert_pos(s.drop_last(), x, k, desc)
    }
}

/// Stable sort of `s` by the key `k`: each element, in turn, is inserted
/// after every earlier one that may stand before it.
pub open spec fn sorted_by<T>(s: Seq<T>, k: spec_fn(T) -> SortKey, desc: bool) -> Seq<T>
    decreases s.len(),
{
    if s.len() == 0 {
        s
    } else {
        let r = sorted_by(s.drop_last(), k, desc);
        r.insert(insert_pos(r, s.last(), k, desc), s.last())
    }
}

proof fn lemma_key_le_total(a: SortKey, b: SortKey)
    ensures
        key_le(a, b) || key_le(b, a),
{
    match (a, b) {
        (SortKey::Text(x), SortKey::Text(y)) => lemma_lex_le_total(x@, y@),
        _ => {},
    }
}

proof fn lemma_key_le_transitive(a: SortKey, b: SortKey, c: SortKey)
    requires
        key_le(a, b),
        key_le(b, c),
    ensures
        key_le(a, c),
{
    match (a, b, c) {
        (SortKey::Text(x), SortKey::Text(y), SortKey::Text(z)) => lemma_lex_le_transitive(
            x@,
            y@,
            z@,
        ),
        _ => {},
    }
}

proof fn lemma_insert_pos<T>(s: Seq<T>, x: T, k: spec_fn(T) -> SortKey, desc: bool)
    ensures
        0 <= insert_pos(s, x, k, desc) <= s.len(),
        insert_pos(s, x, k, desc) > 0 ==> in_order(k, desc, s[insert_pos(s, x, k, desc) - 1], x),
        forall|j: int|
            insert_pos(s, x, k, desc) <= j < s.len() ==> !in_order(k, desc, #[trigger] s[j], x),
    decreases s.len(),
{
    if s.len() > 0 && !in_order(k, desc, s.last(), x) {
        let t = s.drop_last();
        lemma_insert_pos(t, x, k, desc);
        let p = insert_pos(t, x, k, desc);
        assert forall|j: int| p <= j < s.len() implies !in_order(k, desc, #[trigger] s[j], x) by {
            if j < t.len() {
                assert(s[j] == t[j]);
            }
        }
        if p > 0 {
            assert(s[p - 1] == t[p - 1]);
        }
    }
}

/// Any position with the properties of `insert_pos` is `insert_pos`.
proof fn lemma_insert_pos_unique<T>(
    s: Seq<T>,
    x: T,
    k: spec_fn(T) -> SortKey,
    desc: bool,
    p: int,
)
    requires
        0 <= p <= s.len(),
        p > 0 ==> in_order(k, desc, s[p - 1], x),
        forall|j: int| p <= j < s.len() ==> !in_order(k, desc, #[trigger] s[j], x),
    ensures
        p == insert_pos(s, x, k, desc),
    decreases s.len(),
{
    if s.len() > 0 {
        if in_order(k, desc, s.last(), x) {
            if p < s.len() {
                assert(!in_order(k, desc, s[s.len() - 1], x));
            }
        } else {
            let t = s.drop_last();
            assert forall|j: int| p <= j < t.len() implies !in_order(k, desc, #[trigger] t[j], x) by {
                assert(t[j] == s[j]);
            }
            lemma_insert_pos_unique(t, x, k, desc, p);
        }
    }
}

/// The stable sort keeps the elements, as a multiset, and orders them.
pub proof fn lemma_sorted_by<T>(s: Seq<T>, k: spec_fn(T) -> SortKey, desc: bool)
    ensures
        sorted_by(s, k, desc).len() == s.len(),
        sorted_by(s, k, desc).to_multiset() == s.to_multiset(),
        is_sorted_by(sorted_by(s, k, desc), k, desc),
    decreases s.len(),
{
    if s.len() > 0 {
        let t = s.drop_last();
        let x = s.last();
        lemma_sorted_by(t, k, desc);
        let r = sorted_by(t, k, desc);
        let p = insert_pos(r, x, k, desc);
        lemma_insert_pos(r, x, k, desc);
        let out = r.insert(p, x);
        assert(s == t.push(x));
        assert(out.to_multiset() == r.to_multiset().insert(x));
        assert forall|i: int, j: int| 0 <= i < j < out.len() implies in_order(
            k,
            desc,
            #[trigger] out[i],
            #[trigger] out[j],
        ) by {
            if j < p {
                assert(out[i] == r[i] && out[j] == r[j]);
            } else if j == p {
                assert(out[j] == x);
                assert(out[i] == r[i]);
                if i < p - 1 {
                    assert(in_order(k, desc, r[i], r[p - 1]));
                    lemma_order_transitive(k, desc, r[i], r[p - 1], x);
                }
            } else if i > p {
                assert(out[i] == r[i - 1] && out[j] == r[j - 1]);
            } else if i == p {
                assert(out[i] == x && out[j] == r[j - 1]);
                assert(!in_order(k, desc, r[j - 1], x));
                lemma_order_total(k, desc, r[j - 1], x);
            } else {
                assert(out[i] == r[i] && out[j] == r[j - 1]);
            }
        }
    }
}

proof fn lemma_insert_pos_aligned<T>(
    a: Seq<T>,
    b: Seq<T>,
    x: T,
    y: T,
    k: spec_fn(T) -> SortKey,
    desc: bool,
)
    requires
        a.len() == b.len(),
        forall|i: int| 0 <= i < a.len() ==> k(#[trigger] a[i]) == k(b[i]),
        k(x) == k(y),
    ensures
        insert_pos(a, x, k, desc) == insert_pos(b, y, k, desc),
    decreases a.len(),
{
    if a.len() > 0 {
        assert(k(a[a.len() - 1]) == k(b[b.len() - 1]));
        let (ta, tb) = (a.drop_last(), b.drop_last());
        assert forall|i: int| 0 <= i < ta.len() implies k(#[trigger] ta[i]) == k(tb[i]) by {
            assert(ta[i] == a[i] && tb[i] == b[i]);
        }
        lemma_insert_pos_aligned(ta, tb, x, y, k, desc);
    }
}

/// Sorting two sequences whose elements have equal keys pairwise moves the
/// elements alike: a relation that holds pairwise before holds pairwise
/// after.
pub proof fn lemma_sorted_by_aligned<T>(
    a: Seq<T>,
    b: Seq<T>,
    k: spec_fn(T) -> SortKey,
    desc: bool,
    rel: spec_fn(T, T) -> bool,
)
    requires
        a.len() == b.len(),
        forall|i: int| 0 <= i < a.len() ==> k(#[trigger] a[i]) == k(b[i]) && rel(a[i], b[i]),
    ensures
        sorted_by(a, k, desc).len() == a.len(),
        sorted_by(b, k, desc).len() == b.len(),
        forall|i: int|
            0 <= i < a.len() ==> k(#[trigger] sorted_by(a, k, desc)[i]) == k(sorted_by(b, k, desc)[i])
                && rel(sorted_by(a, k, desc)[i], sorted_by(b, k, desc)[i]),
    decreases a.len(),
{
    lemma_sorted_by(a, k, desc);
    lemma_sorted_by(b, k, desc);
    if a.len() > 0 {
        let (ta, tb) = (a.drop_last(), b.drop_last());
        assert forall|i: int| 0 <= i < ta.len() implies k(#[trigger] ta[i]) == k(tb[i]) && rel(
            ta[i],
            tb[i],
        ) by {
            assert(ta[i] == a[i] && tb[i] == b[i]);
        }
        lemma_sorted_by_aligned(ta, tb, k, desc, rel);
        let (ra, rb) = (sorted_by(ta, k, desc), sorted_by(tb, k, desc));
        let (x, y) = (a.last(), b.last());
        assert(k(x) == k(y) && rel(x, y)) by {
            assert(a[a.len() - 1] == x && b[b.len() - 1] == y);
        }
        lemma_insert_pos_aligned(ra, rb, x, y, k, desc);
        lemma_insert_pos(ra, x, k, desc);
        let p = insert_pos(ra, x, k, desc);
        let (sa, sb) = (sorted_by(a, k, desc), sorted_by(b, k, desc));
        assert(sa == ra.insert(p, x));
        assert(sb == rb.insert(p, y));
        assert forall|i: int| 0 <= i < a.len() implies k(#[trigger] sa[i]) == k(sb[i]) && rel(
            sa[i],
            sb[i],
        ) by {
            if i < p {
                assert(sa[i] == ra[i] && sb[i] == rb[i]);
            } else if i > p {
                assert(sa[i] == ra[i - 1] && sb[i] == rb[i - 1]);
            }
        }
    }
}

/// No two elements share a value of `g`.
pub open spec fn distinct_by<T>(s: Seq<T>, g: spec_fn(T) -> Seq<char>) -> bool {
    forall|i: int, j: int| 0 <= i < j < s.len() ==> g(#[trigger] s[i]) != g(#[trigger] s[j])
}

/// Sorting keeps the elements pairwise distinct by `g`.
pub proof fn lemma_sorted_by_distinct<T>(
    s: Seq<T>,
    k: spec_fn(T) -> SortKey,
    desc: bool,
    g: spec_fn(T) -> Seq<char>,
)
    requires
        distinct_by(s, g),
    ensures
        distinct_by(sorted_by(s, k, desc), g),
    decreases s.len(),
{
    if s.len() > 0 {
        let t = s.drop_last();
        let x = s.last();
        assert(distinct_by(t, g)) by {
            assert forall|i: int, j: int| 0 <= i < j < t.len() implies g(#[trigger] t[i]) != g(
                #[trigger] t[j],
            ) by {
                assert(t[i] == s[i] && t[j] == s[j]);
            }
        }
        lemma_sorted_by_distinct(t, k, desc, g);
        lemma_sorted_by(t, k, desc);
        let r = sorted_by(t, k, desc);
        lemma_insert_pos(r, x, k, desc);
        let p = insert_pos(r, x, k, desc);
        let out = r.insert(p, x);
        assert forall|q: int| 0 <= q < r.len() implies g(#[trigger] r[q]) != g(x) by {
            assert(r.to_multiset().count(r[q]) > 0);
            assert(t.contains(r[q]));
            let j = choose|j: int| 0 <= j < t.len() && t[j] == r[q];
            assert(s[j] == t[j]);
            assert(s[s.len() - 1] == x);
        }
        assert forall|i: int, j: int| 0 <= i < j < out.len() implies g(#[trigger] out[i]) != g(
            #[trigger] out[j],
        ) by {
            if j < p {
                assert(out[i] == r[i] && out[j] == r[j]);
            } else if j == p {
                assert(out[i] == r[i]);
            } else if i > p {
                assert(out[i] == r[i - 1] && out[j] == r[j - 1]);
            } else if i == p {
                assert(out[j] == r[j - 1]);
            } else {
                assert(out[i] == r[i] && out[j] == r[j - 1]);
            }
        }
    }
}

proof fn lemma_order_total<T>(k: spec_fn(T) -> SortKey, desc: bool, a: T, b: T)
    ensures
        in_order(k, desc, a, b) || in_order(k, desc, b, a),
{
    lemma_key_le_total(k(a), k(b));
}

proof fn lemma_order_transitive<T>(k: spec_fn(T) -> SortKey, desc: bool, a: T, b: T, c: T)
    requires
        in_order(k, desc, a, b),
        in_order(k, desc, b, c),
    ensures
        in_order(k, desc, a, c),
{
    if desc {
        lemma_key_le_transitive(k(c), k(b), k(a));
    } else {
        lemma_key_le_transitive(k(a), k(b), k(c));
    }
}

fn key_le_exec(a: &SortKey, b: &SortKey) -> (r: bool)
    ensures
        r == key_le(*a, *b),
{
    match (a, b) {
        (SortKey::Absent, _) => true,
        (_, SortKey::Absent) => false,
        (SortKey::Number(x), SortKey::Number(y)) => *x <= *y,
        (SortKey::Number(_), SortKey::Text(_)) => true,
        (SortKey::Text(_), SortKey::Number(_)) => false,
        (SortKey::Text(x), SortKey::Text(y)) => text_le(x.as_str(), y.as_str()),
    }
}

fn in_order_exec(a: &SortKey, b: &SortKey, desc: bool) -> (r: bool)
    ensures
        r == (if desc { key_le(*b, *a) } else { key_le(*a, *b) }),
{
    if desc {
        key_le_exec(b, a)
    } else {
        key_le_exec(a, b)
    }
}

/// Stable sort of `vals`, where `keys[i]` is the key of `vals[i]`.
pub(crate) fn sort_by_keys<T>(
    keys: Vec<SortKey>,
    vals: Vec<T>,
    desc: bool,
    Ghost(k): Ghost<spec_fn(T) -> SortKey>,
) -> (r: Vec<T>)
    requires
        keys.len() == vals.len(),
        forall|i: int| 0 <= i < vals.len() ==> keys@[i] == k(#[trigger] vals@[i]),
    ensures
        r@ == sorted_by(vals@, k, desc),
{
    let n = vals.len();
    let mut keys = keys;
    let mut vals = vals;
    let mut out_keys: Vec<SortKey> = Vec::new();
    let mut out: Vec<T> = Vec::new();
    let ghost input = vals@;
    let ghost input_keys = keys@;
    let mut m: usize = 0;
    while vals.len() > 0
        invariant
            keys.len() == vals.len(),
            m + vals.len() == n,
            n == input.len(),
            input_keys.len() == n,
            forall|i: int| 0 <= i < n ==> input_keys[i] == k(#[trigger] input[i]),
            vals@ == input.skip(m as int),
            keys@ == input_keys.skip(m as int),
            out@ == sorted_by(input.take(m as int), k, desc),
            out_keys.len() == out.len(),
            out.len() == m,
            forall|i: int| 0 <= i < out.len() ==> out_keys@[i] == k(#[trigger] out@[i]),
        decreases vals.len(),
    {
        let ghost r = out@;
        let x = vals.remove(0);
        let kx = keys.remove(0);
        assert(x == input[m as int]);
        assert(kx == input_keys[m as int]);
        assert(vals@ == input.skip(m as int + 1));
        assert(keys@ == input_keys.skip(m as int + 1));
        proof {
            lemma_sorted_by(input.take(m as int), k, desc);
        }
        let mut p = out.len();
        while p > 0 && !in_order_exec(&out_keys[p - 1], &kx, desc)
            invariant
                0 <= p <= out.len(),
                out@ == r,
                out_keys.len() == out.len(),
                kx == k(x),
                forall|i: int| 0 <= i < out.len() ==> out_keys@[i] == k(#[trigger] out@[i]),
                forall|j: int| p <= j < r.len() ==> !in_order(k, desc, #[trigger] r[j], x),
            decreases p,
        {
            p = p - 1;
        }
        proof {
            lemma_insert_pos_unique(r, x, k, desc, p as int);
            let s = input.take(m as int + 1);
            assert(s.drop_last() == input.take(m as int));
            assert(s.last() == x);
        }
        out.insert(p, x);
        out_keys.insert(p, kx);
        m = m + 1;
        proof {
            assert forall|i: int| 0 <= i < out.len() implies out_keys@[i] == k(#[trigger] out@[i]) by {
                if i < p {
                } else if i > p {
                    assert(out@[i] == r[i - 1]);
                }
            }
        }
    }
    assert(input.take(n as int) == input);
    out
}

/// Orders of feeds.
#[derive(Clone, Copy, Debug, PartialEq, Eq, Structural)]
pub enum FeedOrder {
    Title,
    LatestItem,
    Type,
    Hits,
    TotUnreads,
}

/// Orders of items.
#[derive(Clone, Copy, Debug, PartialEq, Eq, Structural)]
pub enum ItemOrder {
    IsRead,
    Title,
    Posted,
}

/// Orders of tags.
#[derive(Clone, Copy, Debug, PartialEq, Eq, Structural)]
pub enum TagOrder {
    Name,
    Count,
}

/// Orders of links.
#[derive(Clone, Copy, Debug, PartialEq, Eq, Structural)]
pub enum LinkOrder {
    Title,
    Href,
    Mime,
}

/// A named order and its direction, or no order at all. Sorting is stable:
/// entities with equal keys keep their relative order.
#[derive(Debug)]
pub struct Sorter<K> {
    pub key: Option<K>,
    pub reverse: bool,
}

impl<K> Sorter<K> {
    /// Leaves the order as it is.
    pub fn none() -> (r: Self)
        ensures
            r.key.is_none(),
    {
        Sorter { key: None, reverse: false }
    }

    /// Ascending by `key`.
    pub fn ascending(key: K) -> (r: Self)
        ensures
            r.key == Some(key),
            !r.reverse,
    {
        Sorter { key: Some(key), reverse: false }
    }

    /// Descending by `key`.
    pub fn descending(key: K) -> (r: Self)
        ensures
            r.key == Some(key),
            r.reverse,
    {
        Sorter { key: Some(key), reverse: true }
    }
}

pub open spec fn text_key(t: String) -> SortKey {
    SortKey::Text(t)
}

pub open spec fn opt_text_key(t: Option<String>) -> SortKey {
    match t {
        Some(s) => SortKey::Text(s),
        None => SortKey::Absent,
    }
}

pub open spec fn opt_number_key(t: Option<i64>) -> SortKey {
    match t {
        Some(n) => SortKey::Number(n as i128),
        None => SortKey::Absent,
    }
}

/// Feed types rank in the alphabetical order of their names.
pub open spec fn type_rank(t: FeedTypeAdapter) -> int {
    match t {
        FeedTypeAdapter::Atom => 0,
        FeedTypeAdapter::JSON => 1,
        FeedTypeAdapter::RSS0 => 2,
        FeedTypeAdapter::RSS1 => 3,
        FeedTypeAdapter::RSS2 => 4,
        FeedTypeAdapter::Unknown => 5,
    }
}

pub open spec fn feed_key(o: FeedOrder, f: Feed) -> SortKey {
    match o {
        FeedOrder::Title => match f.data {
            Some(d) => SortKey::Text(d.title),
            None => SortKey::Text(f.conf.url.0),
        },
        FeedOrder::LatestItem => opt_number_key(f.metrics.latest_item_date),
        FeedOrder::Type => SortKey::Number(
            type_rank(
                match f.data {
                    Some(d) => d.feed_type,
                    None => FeedTypeAdapter::Unknown,
                },
            ) as i128,
        ),
        FeedOrder::Hits => SortKey::Number(f.metrics.hits as i128),
        FeedOrder::TotUnreads => SortKey::Number(f.unread_spec() as i128),
    }
}

pub open spec fn item_key(o: ItemOrder, i: Item) -> SortKey {
    match o {
        ItemOrder::IsRead => SortKey::Number(if i.is_read { 1 } else { 0 }),
        ItemOrder::Title => opt_text_key(i.title),
        ItemOrder::Posted => opt_number_key(i.posted),
    }
}

pub open spec fn tag_key(o: TagOrder, t: Tag) -> SortKey {
    match o {
        TagOrder::Name => SortKey::Text(t.name),
        TagOrder::Count => SortKey::Number(t.count as i128),
    }
}

pub open spec fn link_key(o: LinkOrder, l: Link) -> SortKey {
    match o {
        LinkOrder::Title => opt_text_key(l.title),
        LinkOrder::Href => SortKey::Text(l.href),
        LinkOrder::Mime => opt_text_key(l.mime_type),
    }
}

fn opt_text_key_exec(t: &Option<String>) -> (r: SortKey)
    ensures
        r == opt_text_key(*t),
{
    match t {
        Some(s) => SortKey::Text(s.clone()),
        None => SortKey::Absent,
    }
}

fn opt_number_key_exec(t: Option<i64>) -> (r: SortKey)
    ensures
        r == opt_number_key(t),
{
    match t {
        Some(n) => SortKey::Number(n as i128),
        None => SortKey::Absent,
    }
}

fn feed_key_exec(o: FeedOrder, f: &Feed) -> (r: SortKey)
    ensures
        r == feed_key(o, *f),
{
    match o {
        FeedOrder::Title => match &f.data {
            Some(d) => SortKey::Text(d.title.clone()),
            None => SortKey::Text(f.conf.url.0.clone()),
        },
        FeedOrder::LatestItem => opt_number_key_exec(f.metrics.latest_item_date),
        FeedOrder::Type => {
            let rank: i128 = match f.feed_type() {
                FeedTypeAdapter::Atom => 0,
                FeedTypeAdapter::JSON => 1,
                FeedTypeAdapter::RSS0 => 2,
                FeedTypeAdapter::RSS1 => 3,
                FeedTypeAdapter::RSS2 => 4,
                FeedTypeAdapter::Unknown => 5,
            };
            SortKey::Number(rank)
        },
        FeedOrder::Hits => SortKey::Number(f.metrics.hits as i128),
        FeedOrder::TotUnreads => SortKey::Number(f.tot_unread() as i128),
    }
}

fn item_key_exec(o: ItemOrder, i: &Item) -> (r: SortKey)
    ensures
        r == item_key(o, *i),
{
    match o {
        ItemOrder::IsRead => SortKey::Number(if i.is_read { 1 } else { 0 }),
        ItemOrder::Title => opt_text_key_exec(&i.title),
        ItemOrder::Posted => opt_number_key_exec(i.posted),
    }
}

fn tag_key_exec(o: TagOrder, t: &Tag) -> (r: SortKey)
    ensures
        r == tag_key(o, *t),
{
    match o {
        TagOrder::Name => SortKey::Text(t.name.clone()),
        TagOrder::Count => SortKey::Number(t.count as i128),
    }
}

fn link_key_exec(o: LinkOrder, l: &Link) -> (r: SortKey)
    ensures
        r == link_key(o, *l),
{
    match o {
        LinkOrder::Title => opt_text_key_exec(&l.title),
        LinkOrder::Href => SortKey::Text(l.href.clone()),
        LinkOrder::Mime => opt_text_key_exec(&l.mime_type),
    }
}

impl Sorter<FeedOrder> {
    pub open spec fn key_fn(self) -> spec_fn(Feed) -> SortKey {
        |f: Feed| feed_key(self.key.unwrap(), f)
    }

    /// `v` in this order.
    pub open spec fn arrange(self, v: Seq<Feed>) -> Seq<Feed> {
        match self.key {
            None => v,
            Some(_) => sorted_by(v, self.key_fn(), self.reverse),
        }
    }

    pub fn sort(&self, v: Vec<Feed>) -> (r: Vec<Feed>)
        ensures
            r@ == self.arrange(v@),
    {
        match self.key {
            None => v,
            Some(o) => {
                let mut keys: Vec<SortKey> = Vec::new();
                let mut i: usize = 0;
                while i < v.len()
                    invariant
                        i <= v.len(),
                        keys.len() == i,
                        self.key == Some(o),
                        forall|j: int| 0 <= j < i ==> keys@[j] == (self.key_fn())(#[trigger] v@[j]),
                    decreases v.len() - i,
                {
                    keys.push(feed_key_exec(o, &v[i]));
                    i = i + 1;
                }
                sort_by_keys(keys, v, self.reverse, Ghost(self.key_fn()))
            },
        }
    }
}

impl Sorter<ItemOrder> {
    pub open spec fn key_fn(self) -> spec_fn(Item) -> SortKey {
        |i: Item| item_key(self.key.unwrap(), i)
    }

    /// `v` in this order.
    pub open spec fn arrange(self, v: Seq<Item>) -> Seq<Item> {
        match self.key {
            None => v,
            Some(_) => sorted_by(v, self.key_fn(), self.reverse),
        }
    }

    pub fn sort(&self, v: Vec<Item>) -> (r: Vec<Item>)
        ensures
            r@ == self.arrange(v@),
    {
        match self.key {
            None => v,
            Some(o) => {
                let mut keys: Vec<SortKey> = Vec::new();
                let mut i: usize = 0;
                while i < v.len()
                    invariant
                        i <= v.len(),
                        keys.len() == i,
                        self.key == Some(o),
                        forall|j: int| 0 <= j < i ==> keys@[j] == (self.key_fn())(#[trigger] v@[j]),
                    decreases v.len() - i,
                {
                    keys.push(item_key_exec(o, &v[i]));
                    i = i + 1;
                }
                sort_by_keys(keys, v, self.reverse, Ghost(self.key_fn()))
            },
        }
    }
}

impl Sorter<TagOrder> {
    pub open spec fn key_fn(self) -> spec_fn(Tag) -> SortKey {
        |t: Tag| tag_key(self.key.unwrap(), t)
    }

    /// `v` in this order.
    pub open spec fn arrange(self, v: Seq<Tag>) -> Seq<Tag> {
        match self.key {
            None => v,
            Some(_) => sorted_by(v, self.key_fn(), self.reverse),
        }
    }

    pub fn sort(&self, v: Vec<Tag>) -> (r: Vec<Tag>)
        ensures
            r@ == self.arrange(v@),
    {
        match self.key {
            None => v,
            Some(o) => {
                let mut keys: Vec<SortKey> = Vec::new();
                let mut i: usize = 0;
                while i < v.len()
                    invariant
                        i <= v.len(),
                        keys.len() == i,
                        self.key == Some(o),
                        forall|j: int| 0 <= j < i ==> keys@[j] == (self.key_fn())(#[trigger] v@[j]),
                    decreases v.len() - i,
                {
                    keys.push(tag_key_exec(o, &v[i]));
                    i = i + 1;
                }
                sort_by_keys(keys, v, self.reverse, Ghost(self.key_fn()))
            },
        }
    }
}

impl Sorter<LinkOrder> {
    pub open spec fn key_fn(self) -> spec_fn(Link) -> SortKey {
        |l: Link| link_key(self.key.unwrap(), l)
    }

    /// `v` in this order.
    pub open spec fn arrange(self, v: Seq<Link>) -> Seq<Link> {
        match self.key {
            None => v,
            Some(_) => sorted_by(v, self.key_fn(), self.reverse),
        }
    }

    pub fn sort(&self, v: Vec<Link>) -> (r: Vec<Link>)
        ensures
            r@ == self.arrange(v@),
    {
        match self.key {
            None => v,
            Some(o) => {
                let mut keys: Vec<SortKey> = Vec::new();
                let mut i: usize = 0;
                while i < v.len()
                    invariant
                        i <= v.len(),
                        keys.len() == i,
                        self.key == Some(o),
                        forall|j: int| 0 <= j < i ==> keys@[j] == (self.key_fn())(#[trigger] v@[j]),
                    decreases v.len() - i,
                {
                    keys.push(link_key_exec(o, &v[i]));
                    i = i + 1;
                }
                sort_by_keys(keys, v, self.reverse, Ghost(self.key_fn()))
            },
        }
    }
}

} // verus!
