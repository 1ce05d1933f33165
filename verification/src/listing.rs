//! Listings of a bucket, which the storage service hands out in pages.

use vstd::prelude::*;

use crate::s3_fs::object_size;
#[allow(unused_imports)]
use crate::s3_fs::{clamped_size, entries_view};
use crate::text::contains_char;

verus! {

/// An object as a listing reports it.
#[derive(Debug, PartialEq, Eq)]
pub struct ListedObject {
    pub key: Option<String>,
    pub size: Option<i64>,
}

/// One page of a listing.
#[derive(Debug, PartialEq, Eq)]
pub struct ListPage {
    pub objects: Vec<ListedObject>,
    /// Whether more pages follow.
    pub is_truncated: Option<bool>,
    /// What to ask for the next page with.
    pub next_token: Option<String>,
}

impl ListPage {
    /// More pages follow.
    pub open spec fn has_more(self) -> bool {
        self.is_truncated == Some(true)
    }
}

/// An object without a size counts as empty.
pub open spec fn listed_size(size: Option<i64>) -> u64 {
    match size {
        Some(n) => clamped_size(n),
        None => 0,
    }
}

/// An object that the root directory shows: it has a key, and that key is
/// not nested.
pub open spec fn is_shown(object: ListedObject) -> bool {
    object.key is Some && !object.key->0@.contains('/')
}

/// The objects that the root directory shows, in their order.
pub open spec fn shown_entries(objects: Seq<ListedObject>) -> Seq<(Seq<char>, u64)>
    decreases objects.len(),
{
    if objects.len() == 0 {
        Seq::empty()
    } else {
        let front = shown_entries(objects.drop_last());
        if is_shown(objects.last()) {
            front.push((objects.last().key->0@, listed_size(objects.last().size)))
        } else {
            front
        }
    }
}

/// The keys that a listing reports, nested ones too, in their order.
pub open spec fn object_keys(objects: Seq<ListedObject>) -> Seq<Seq<char>>
    decreases objects.len(),
{
    if objects.len() == 0 {
        Seq::empty()
    } else {
        let front = object_keys(objects.drop_last());
        match objects.last().key {
            Some(key) => front.push(key@),
            None => front,
        }
    }
}

/// A listing of the root directory under way.
#[derive(Debug)]
pub struct RootListing {
    entries: Vec<(String, u64)>,
}

impl View for RootListing {
    type V = Seq<(Seq<char>, u64)>;

    closed spec fn view(&self) -> Seq<(Seq<char>, u64)> {
        entries_view(self.entries@)
    }
}

impl RootListing {
    /// Before the first page.
    pub fn new() -> (listing: Self)
        ensures
            listing@ == Seq::<(Seq<char>, u64)>::empty(),
    {
        let listing = RootListing { entries: Vec::new() };
        proof {
            assert(listing@ =~= Seq::empty());
        }
        listing
    }

    /// Takes a page. The token is what to ask for the next page with; without
    /// one the listing is complete.
    pub fn page_listed(&mut self, page: ListPage) -> (token: Option<String>)
        ensures
            final(self)@ == old(self)@ + shown_entries(page.objects@),
            token == (if page.has_more() {
                page.next_token
            } else {
                None
            }),
    {
        let ghost objects = page.objects@;
        let n: usize = page.objects.len();
        proof {
            assert(objects.take(0) =~= Seq::empty());
            assert(self@ =~= old(self)@ + shown_entries(objects.take(0)));
        }
        for i in 0..n
            invariant
                n == page.objects.len(),
                objects == page.objects@,
                self@ == old(self)@ + shown_entries(objects.take(i as int)),
        {
            let ghost before = self@;
            proof {
                assert(objects.take(i + 1).drop_last() =~= objects.take(i as int));
                assert(objects.take(i + 1).last() == objects[i as int]);
            }
            if let Some(key) = &page.objects[i].key {
                if !contains_char(key.as_str(), '/') {
                    let size: u64 = match page.objects[i].size {
                        Some(n) => object_size(n),
                        None => 0,
                    };
                    self.entries.push((key.clone(), size));
                    proof {
                        assert(self@ =~= before.push((key@, size)));
                    }
                }
            }
            proof {
                assert(self@ =~= old(self)@ + shown_entries(objects.take(i + 1)));
            }
        }
        proof {
            assert(objects.take(n as int) =~= objects);
        }
        match page.is_truncated {
            Some(true) => page.next_token,
            _ => None,
        }
    }

    /// What was listed: keys and sizes.
    pub fn into_entries(self) -> (entries: Vec<(String, u64)>)
        ensures
            entries_view(entries@) == self@,
    {
        self.entries
    }
}

/// Appends the keys that a page reports to `keys`.
pub(crate) fn append_keys(keys: &mut Vec<String>, objects: &Vec<ListedObject>)
    ensures
        final(keys).deep_view() == old(keys).deep_view() + object_keys(objects@),
{
    let n: usize = objects.len();
    let ghost first = keys.deep_view();
    proof {
        assert(objects@.take(0) =~= Seq::empty());
        assert(first =~= first + object_keys(objects@.take(0)));
    }
    for i in 0..n
        invariant
            n == objects.len(),
            keys.deep_view() == first + object_keys(objects@.take(i as int)),
    {
        let ghost before = keys.deep_view();
        proof {
            assert(objects@.take(i + 1).drop_last() =~= objects@.take(i as int));
            assert(objects@.take(i + 1).last() == objects@[i as int]);
        }
        if let Some(key) = &objects[i].key {
            keys.push(key.clone());
            proof {
                assert(keys.deep_view() =~= before.push(key@));
            }
        }
        proof {
            assert(keys.deep_view() =~= first + object_keys(objects@.take(i + 1)));
        }
    }
    proof {
        assert(objects@.take(n as int) =~= objects@);
    }
}

/// The names that are present.
pub open spec fn present_only(names: Seq<Option<Seq<char>>>) -> Seq<Seq<char>>
    decreases names.len(),
{
    if names.len() == 0 {
        Seq::empty()
    } else {
        let front = present_only(names.drop_last());
        match names.last() {
            Some(name) => front.push(name),
            None => front,
        }
    }
}

/// The buckets to show of those that the storage service reports: the ones
/// that have a name.
pub fn bucket_names(reported: &Vec<Option<String>>) -> (names: Vec<String>)
    ensures
        names.deep_view() == present_only(reported.deep_view()),
{
    let mut names: Vec<String> = Vec::new();
    let n: usize = reported.len();
    let ghost all = reported.deep_view();
    proof {
        assert(all.take(0) =~= Seq::empty());
        assert(names.deep_view() =~= Seq::empty());
    }
    for i in 0..n
        invariant
            n == reported.len(),
            all == reported.deep_view(),
            names.deep_view() == present_only(all.take(i as int)),
    {
        let ghost before = names.deep_view();
        proof {
            assert(all.take(i + 1).drop_last() =~= all.take(i as int));
            assert(all.take(i + 1).last() == reported@[i as int].deep_view());
        }
        if let Some(name) = &reported[i] {
            names.push(name.clone());
            proof {
                assert(names.deep_view() =~= before.push(name@));
            }
        }
    }
    proof {
        assert(all.take(n as int) =~= all);
    }
    names
}

/// A nested key is in no listing of the root, and every other key that a page
/// reports is, with its size.
pub proof fn law_listing_shows_exactly_top_level_keys(objects: Seq<ListedObject>)
    ensures
        forall|i: int|
            0 <= i < shown_entries(objects).len() ==> !(#[trigger] shown_entries(
                objects,
            )[i]).0.contains('/'),
        forall|key: Seq<char>, size: u64| #[trigger]
            shown_entries(objects).contains((key, size)) <==> exists|i: int|
                0 <= i < objects.len() && is_shown(#[trigger] objects[i]) && objects[i].key->0@
                    == key && listed_size(objects[i].size) == size,
    decreases objects.len(),
{
    let all = shown_entries(objects);
    if objects.len() > 0 {
        let rest = objects.drop_last();
        let front = shown_entries(rest);
        law_listing_shows_exactly_top_level_keys(rest);
        let last = objects.last();
        assert forall|i: int| 0 <= i < all.len() implies !(#[trigger] all[i]).0.contains('/') by {
            if i < front.len() {
                assert(all[i] == front[i]);
            }
        }
        assert forall|key: Seq<char>, size: u64| #[trigger] all.contains((key, size)) <==> exists|
            i: int,
        |
            0 <= i < objects.len() && is_shown(#[trigger] objects[i]) && objects[i].key->0@ == key
                && listed_size(objects[i].size) == size by {
            if all.contains((key, size)) {
                let j = choose|j: int| 0 <= j < all.len() && all[j] == (key, size);
                if j < front.len() {
                    assert(front[j] == (key, size));
                    assert(front.contains((key, size)));
                    let i = choose|i: int|
                        0 <= i < rest.len() && is_shown(#[trigger] rest[i]) && rest[i].key->0@
                            == key && listed_size(rest[i].size) == size;
                    assert(objects[i] == rest[i]);
                } else {
                    assert(objects[objects.len() - 1] == last);
                }
            }
            if exists|i: int|
                0 <= i < objects.len() && is_shown(#[trigger] objects[i]) && objects[i].key->0@
                    == key && listed_size(objects[i].size) == size {
                let i = choose|i: int|
                    0 <= i < objects.len() && is_shown(#[trigger] objects[i]) && objects[i].key->0@
                        == key && listed_size(objects[i].size) == size;
                if i < rest.len() {
                    assert(rest[i] == objects[i]);
                    assert(front.contains((key, size)));
                    let j = choose|j: int| 0 <= j < front.len() && front[j] == (key, size);
                    assert(all[j] == (key, size));
                } else {
                    assert(all[all.len() - 1] == (key, size));
                }
            }
        }
    }
}

proof fn lemma_two_pages(first: Seq<ListedObject>, second: Seq<ListedObject>)
    ensures
        shown_entries(first + second) == shown_entries(first) + shown_entries(second),
        object_keys(first + second) == object_keys(first) + object_keys(second),
    decreases second.len(),
{
    if second.len() == 0 {
        assert(first + second =~= first);
        assert(shown_entries(first) + shown_entries(second) =~= shown_entries(first));
        assert(object_keys(first) + object_keys(second) =~= object_keys(first));
    } else {
        lemma_two_pages(first, second.drop_last());
        assert((first + second).drop_last() =~= first + second.drop_last());
        assert(shown_entries(first + second) =~= shown_entries(first) + shown_entries(second));
        assert(object_keys(first + second) =~= object_keys(first) + object_keys(second));
    }
}

/// Where a listing is split into pages does not matter: the pages show, and
/// report, one after the other what their objects do together.
pub proof fn law_pages_concatenate(pages: Seq<Seq<ListedObject>>)
    ensures
        shown_entries(pages.flatten()) == pages.map_values(
            |page: Seq<ListedObject>| shown_entries(page),
        ).flatten(),
        object_keys(pages.flatten()) == pages.map_values(
            |page: Seq<ListedObject>| object_keys(page),
        ).flatten(),
    decreases pages.len(),
{
    let shown = |page: Seq<ListedObject>| shown_entries(page);
    let keys = |page: Seq<ListedObject>| object_keys(page);
    if pages.len() > 0 {
        let rest = pages.drop_first();
        law_pages_concatenate(rest);
        lemma_two_pages(pages.first(), rest.flatten());
        assert(pages.map_values(shown).drop_first() =~= rest.map_values(shown));
        assert(pages.map_values(keys).drop_first() =~= rest.map_values(keys));
    }
}

/// The root directory shows every object whose key holds no slash, with that
/// key and its size, each as often as it is reported and in that order, and
/// nothing else. A size that is missing or below zero counts as zero.
pub proof fn law_root_shows_all_top_level_objects(objects: Seq<ListedObject>)
    ensures
        shown_entries(objects) == objects.filter_map(
            |object: ListedObject|
                match object.key {
                    Some(key) => if key@.contains('/') {
                        None
                    } else {
                        Some(
                            (
                                key@,
                                match object.size {
                                    Some(n) => if n > 0 {
                                        n as u64
                                    } else {
                                        0
                                    },
                                    None => 0,
                                },
                            ),
                        )
                    },
                    None => None,
                },
        ),
        forall|i: int|
            0 <= i < objects.len() && (#[trigger] objects[i]).key is Some
                && !objects[i].key->0@.contains('/') ==> exists|size: u64|
                shown_entries(objects).contains((objects[i].key->0@, size)) && (objects[i].size
                    is Some && objects[i].size->0 >= 0 ==> size == objects[i].size->0) && (
                objects[i].size is None || objects[i].size->0 < 0 ==> size == 0),
    decreases objects.len(),
{
    let rest = objects.drop_last();
    let all = shown_entries(objects);
    if objects.len() > 0 {
        law_root_shows_all_top_level_objects(rest);
        let front = shown_entries(rest);
        if all.len() > front.len() {
            assert(all =~= front + seq![all.last()]);
        }
        assert forall|i: int|
            0 <= i < objects.len() && (#[trigger] objects[i]).key is Some
                && !objects[i].key->0@.contains('/') implies exists|size: u64|
            all.contains((objects[i].key->0@, size)) && (objects[i].size is Some
                && objects[i].size->0 >= 0 ==> size == objects[i].size->0) && (objects[i].size
                is None || objects[i].size->0 < 0 ==> size == 0) by {
            let key = objects[i].key->0@;
            let size = listed_size(objects[i].size);
            law_listing_shows_exactly_top_level_keys(objects);
            assert(is_shown(objects[i]));
            assert(all.contains((key, size)));
        }
    }
}

/// A page reports the keys of all its objects that have one, whatever else is
/// said of them, in their order. Where all have one, there are as many.
pub proof fn law_every_key_is_reported(objects: Seq<ListedObject>)
    ensures
        object_keys(objects) == objects.filter_map(
            |object: ListedObject|
                match object.key {
                    Some(key) => Some(key@),
                    None => None,
                },
        ),
        forall|i: int|
            0 <= i < objects.len() && (#[trigger] objects[i]).key is Some ==> object_keys(
                objects,
            ).contains(objects[i].key->0@),
        (forall|i: int| 0 <= i < objects.len() ==> (#[trigger] objects[i]).key is Some) ==> {
            &&& object_keys(objects).len() == objects.len()
            &&& forall|i: int|
                0 <= i < objects.len() ==> #[trigger] object_keys(objects)[i]
                    == objects[i].key->0@
        },
    decreases objects.len(),
{
    let rest = objects.drop_last();
    let all = object_keys(objects);
    if objects.len() > 0 {
        law_every_key_is_reported(rest);
        let front = object_keys(rest);
        let last = objects[objects.len() - 1];
        if last.key is Some {
            assert(all =~= front + seq![last.key->0@]);
            assert(all[all.len() - 1] == last.key->0@);
        }
        assert forall|i: int|
            0 <= i < objects.len() && (#[trigger] objects[i]).key is Some implies all.contains(
            objects[i].key->0@,
        ) by {
            if i < rest.len() {
                assert(rest[i] == objects[i]);
                let j = front.index_of(rest[i].key->0@);
                assert(all[j] == front[j]);
            }
        }
        if forall|i: int| 0 <= i < objects.len() ==> (#[trigger] objects[i]).key is Some {
            assert forall|i: int| 0 <= i < rest.len() implies (#[trigger] rest[i]).key is Some by {
                assert(rest[i] == objects[i]);
            }
            assert forall|i: int| 0 <= i < objects.len() implies #[trigger] all[i]
                == objects[i].key->0@ by {
                if i < rest.len() {
                    assert(rest[i] == objects[i]);
                    assert(front[i] == rest[i].key->0@);
                }
            }
        }
    }
}

/// All buckets that have a name are shown, in their order, and nothing else.
pub proof fn law_every_named_bucket_is_shown(names: Seq<Option<Seq<char>>>)
    ensures
        present_only(names) == names.filter_map(|name: Option<Seq<char>>| name),
        forall|i: int|
            0 <= i < names.len() && (#[trigger] names[i]) is Some ==> present_only(names).contains(
                names[i]->0,
            ),
    decreases names.len(),
{
    let rest = names.drop_last();
    let all = present_only(names);
    if names.len() > 0 {
        law_every_named_bucket_is_shown(rest);
        let front = present_only(rest);
        let last = names[names.len() - 1];
        if last is Some {
            assert(all =~= front + seq![last->0]);
            assert(all[all.len() - 1] == last->0);
        }
        assert forall|i: int| 0 <= i < names.len() && (#[trigger] names[i]) is Some implies all.contains(
            names[i]->0,
        ) by {
            if i < rest.len() {
                assert(rest[i] == names[i]);
                let j = front.index_of(rest[i]->0);
                assert(all[j] == front[j]);
            }
        }
    }
}

/// More pages follow exactly where the page says so.
pub proof fn law_pages_end(page: ListPage)
    ensures
        page.has_more() <==> page.is_truncated is Some && page.is_truncated->0,
{
}

} // verus!
