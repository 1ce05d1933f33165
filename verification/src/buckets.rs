//! Commands on whole buckets: their names, and emptying them before they are
//! deleted.

use vstd::prelude::*;

use crate::config::{forget_bucket, AppConfig};
use crate::listing::{append_keys, ListPage};
#[allow(unused_imports)]
use crate::listing::{law_every_key_is_reported, law_pages_concatenate, object_keys, ListedObject};
use crate::text::starts_with;

verus! {

/// What the names of all buckets of this program begin with, before a dash.
pub const BUCKET_PREFIX: &'static str = "ise";

/// The most keys that one call of the storage service deletes.
pub const DELETE_BATCH: usize = 1000;

/// The prefix of all buckets of this program, with its dash.
pub open spec fn dashed_prefix() -> Seq<char> {
    seq!['i', 's', 'e', '-']
}

/// The bucket that is created under `name`.
pub open spec fn spec_full_bucket_name(name: Seq<char>) -> Seq<char> {
    dashed_prefix() + name
}

/// The bucket that is meant by `name`, with or without the prefix.
pub open spec fn meant_bucket(name: Seq<char>) -> Seq<char> {
    if dashed_prefix().is_prefix_of(name) {
        name
    } else {
        spec_full_bucket_name(name)
    }
}

fn prefix_with_dash() -> (prefix: String)
    ensures
        prefix@ == dashed_prefix(),
{
    let mut prefix: String = BUCKET_PREFIX.to_owned();
    prefix.push('-');
    proof {
        reveal_strlit("ise");
        assert(prefix@ =~= dashed_prefix());
    }
    prefix
}

/// The bucket that is created under `bucket_name`.
pub fn full_bucket_name(bucket_name: &str) -> (full_name: String)
    ensures
        full_name@ == spec_full_bucket_name(bucket_name@),
{
    let mut full_name: String = prefix_with_dash();
    full_name.append(bucket_name);
    full_name
}

/// The bucket that a deletion of `bucket_name` means: the name as it is
/// where it has the prefix, else with the prefix before it.
pub fn bucket_to_delete(bucket_name: String) -> (full_name: String)
    ensures
        full_name@ == meant_bucket(bucket_name@),
{
    if starts_with(bucket_name.as_str(), prefix_with_dash().as_str()) {
        bucket_name
    } else {
        full_bucket_name(bucket_name.as_str())
    }
}

/// The smaller of a number of files and the most that one batch holds.
pub open spec fn batch_len(files: nat) -> nat {
    if files < DELETE_BATCH {
        files
    } else {
        DELETE_BATCH as nat
    }
}

/// Files to delete, batch by batch.
#[derive(Debug)]
pub struct FileBatches {
    files: Vec<String>,
}

impl View for FileBatches {
    type V = Seq<Seq<char>>;

    /// The files that no batch was handed out for yet.
    closed spec fn view(&self) -> Seq<Seq<char>> {
        self.files.deep_view()
    }
}

impl FileBatches {
    pub fn new(files: Vec<String>) -> (batches: Self)
        ensures
            batches@ == files.deep_view(),
    {
        FileBatches { files }
    }

    /// The next files to delete together; none when all were handed out.
    pub fn next_batch(&mut self) -> (batch: Option<Vec<String>>)
        ensures
            old(self)@.len() == 0 ==> batch is None && final(self)@ == old(self)@,
            old(self)@.len() > 0 ==> {
                &&& batch matches Some(files) && files.deep_view() == old(self)@.take(
                    batch_len(old(self)@.len()) as int,
                )
                &&& final(self)@ == old(self)@.skip(batch_len(old(self)@.len()) as int)
            },
    {
        let n: usize = self.files.len();
        if n == 0 {
            return None;
        }
        let len: usize = if n < DELETE_BATCH {
            n
        } else {
            DELETE_BATCH
        };
        let mut batch: Vec<String> = self.files.split_off(len);
        std::mem::swap(&mut self.files, &mut batch);
        proof {
            assert(batch.deep_view() =~= old(self)@.take(len as int));
            assert(self@ =~= old(self)@.skip(len as int));
        }
        Some(batch)
    }
}

/// What the deletion of a bucket does next.
#[derive(Debug, PartialEq, Eq)]
pub enum BucketAction {
    /// List a page of the bucket.
    List { token: Option<String> },
    /// Delete these objects.
    DeleteFiles { keys: Vec<String> },
    /// Delete the bucket, which is empty now.
    DeleteBucket,
}

/// A [`BucketAction`] as contracts speak of it.
#[verifier::ext_equal]
pub enum BucketActionView {
    List { token: Option<Seq<char>> },
    DeleteFiles { keys: Seq<Seq<char>> },
    DeleteBucket,
}

impl View for BucketAction {
    type V = BucketActionView;

    open spec fn view(&self) -> BucketActionView {
        match *self {
            BucketAction::List { token } => BucketActionView::List { token: token.deep_view() },
            BucketAction::DeleteFiles { keys } => BucketActionView::DeleteFiles {
                keys: keys.deep_view(),
            },
            BucketAction::DeleteBucket => BucketActionView::DeleteBucket,
        }
    }
}

/// The deletion of a bucket under way: all pages of the bucket are listed,
/// then all objects are deleted batch by batch, then the bucket is.
#[derive(Debug)]
pub struct BucketDeletion {
    bucket: String,
    batches: FileBatches,
}

/// A [`BucketDeletion`] as contracts speak of it.
#[verifier::ext_equal]
pub struct DeletionView {
    pub bucket: Seq<char>,
    /// The objects found that no batch was handed out for yet.
    pub remaining: Seq<Seq<char>>,
}

impl DeletionView {
    /// The next batch of objects, or the bucket when none is left.
    pub open spec fn next_action(self) -> BucketActionView {
        if self.remaining.len() == 0 {
            BucketActionView::DeleteBucket
        } else {
            BucketActionView::DeleteFiles {
                keys: self.remaining.take(batch_len(self.remaining.len()) as int),
            }
        }
    }

    /// With the next batch handed out.
    pub open spec fn advanced(self) -> DeletionView {
        DeletionView {
            remaining: self.remaining.skip(batch_len(self.remaining.len()) as int),
            ..self
        }
    }

    /// With the objects of a page found.
    pub open spec fn found(self, keys: Seq<Seq<char>>) -> DeletionView {
        DeletionView { remaining: self.remaining + keys, ..self }
    }

    /// With the objects of several pages found, page by page.
    pub open spec fn found_on(self, pages: Seq<Seq<ListedObject>>) -> DeletionView
        decreases pages.len(),
    {
        if pages.len() == 0 {
            self
        } else {
            self.found_on(pages.drop_last()).found(object_keys(pages.last()))
        }
    }
}

impl View for BucketDeletion {
    type V = DeletionView;

    closed spec fn view(&self) -> DeletionView {
        DeletionView { bucket: self.bucket@, remaining: self.batches@ }
    }
}

impl BucketDeletion {
    /// Starts the deletion of the bucket meant by `bucket_name`.
    pub fn start(bucket_name: String) -> (started: (Self, BucketAction))
        ensures
            started.0@ == (DeletionView {
                bucket: meant_bucket(bucket_name@),
                remaining: Seq::empty(),
            }),
            started.1@ == (BucketActionView::List { token: None }),
    {
        let deletion = BucketDeletion {
            bucket: bucket_to_delete(bucket_name),
            batches: FileBatches::new(Vec::new()),
        };
        proof {
            assert(deletion@.remaining =~= Seq::empty());
        }
        (deletion, BucketAction::List { token: None })
    }

    pub fn bucket(&self) -> (bucket: &str)
        ensures
            bucket@ == self@.bucket,
    {
        self.bucket.as_str()
    }

    /// Takes a page of the bucket. The next page is listed while the page
    /// says that more follow.
    pub fn page_listed(&mut self, page: ListPage) -> (action: BucketAction)
        ensures
            page.has_more() ==> {
                &&& action@ == (BucketActionView::List { token: page.next_token.deep_view() })
                &&& final(self)@ == old(self)@.found(object_keys(page.objects@))
            },
            !page.has_more() ==> {
                let complete = old(self)@.found(object_keys(page.objects@));
                &&& action@ == complete.next_action()
                &&& final(self)@ == complete.advanced()
            },
    {
        append_keys(&mut self.batches.files, &page.objects);
        match page.is_truncated {
            Some(true) => BucketAction::List { token: page.next_token },
            _ => self.next_action(),
        }
    }

    /// The last batch was deleted.
    pub fn files_deleted(&mut self) -> (action: BucketAction)
        ensures
            action@ == old(self)@.next_action(),
            final(self)@ == old(self)@.advanced(),
    {
        self.next_action()
    }

    fn next_action(&mut self) -> (action: BucketAction)
        ensures
            action@ == old(self)@.next_action(),
            final(self)@ == old(self)@.advanced(),
    {
        match self.batches.next_batch() {
            Some(keys) => BucketAction::DeleteFiles { keys },
            None => {
                proof {
                    assert(self@.remaining =~= old(self)@.advanced().remaining);
                }
                BucketAction::DeleteBucket
            },
        }
    }

    /// The bucket was deleted: its drives leave the configuration.
    pub fn bucket_deleted(self, config: &mut AppConfig)
        ensures
            final(config)@ == old(config)@.without(self@.bucket),
    {
        forget_bucket(config, self.bucket.as_str());
    }
}

/// A name means the same bucket with and without the prefix, and what a name
/// means, means itself.
pub proof fn law_bucket_names(name: Seq<char>)
    ensures
        dashed_prefix().is_prefix_of(meant_bucket(name)),
        meant_bucket(meant_bucket(name)) == meant_bucket(name),
        meant_bucket(spec_full_bucket_name(name)) == spec_full_bucket_name(name),
        !dashed_prefix().is_prefix_of(name) ==> meant_bucket(name) == spec_full_bucket_name(name),
{
    let full = spec_full_bucket_name(name);
    assert(dashed_prefix() =~= full.subrange(0, dashed_prefix().len() as int));
}

/// The batches that files are handed out in.
pub open spec fn batches_of(files: Seq<Seq<char>>) -> Seq<Seq<Seq<char>>>
    decreases files.len(),
{
    if files.len() == 0 {
        Seq::empty()
    } else {
        let len = batch_len(files.len()) as int;
        seq![files.take(len)] + batches_of(files.skip(len))
    }
}

/// The batches hold every file once and in order, none is empty or larger
/// than one call of the storage service takes, and there are no more of them
/// than that needs.
pub proof fn law_batches_hold_every_file_once(files: Seq<Seq<char>>)
    ensures
        batches_of(files).flatten() == files,
        batches_of(files).len() == (files.len() + DELETE_BATCH - 1) / (DELETE_BATCH as int),
        forall|i: int|
            0 <= i < batches_of(files).len() ==> 0 < (#[trigger] batches_of(files)[i]).len()
                <= DELETE_BATCH,
    decreases files.len(),
{
    if files.len() > 0 {
        let len = batch_len(files.len()) as int;
        let rest = batches_of(files.skip(len));
        law_batches_hold_every_file_once(files.skip(len));
        assert(batches_of(files).drop_first() =~= rest);
        assert(files.take(len) + files.skip(len) =~= files);
        assert forall|i: int| 0 <= i < batches_of(files).len() implies 0 < (
        #[trigger] batches_of(files)[i]).len() <= DELETE_BATCH by {
            if i > 0 {
                assert(batches_of(files)[i] == rest[i - 1]);
            }
        }
    } else {
        assert(batches_of(files).flatten() =~= files);
    }
}

/// What a deletion does from `deletion` on, once the bucket is listed.
pub open spec fn actions_of(deletion: DeletionView) -> Seq<BucketActionView>
    decreases deletion.remaining.len(),
{
    if deletion.remaining.len() == 0 {
        seq![deletion.next_action()]
    } else {
        seq![deletion.next_action()] + actions_of(deletion.advanced())
    }
}

/// A bucket is deleted last, after all its objects were, batch by batch.
pub proof fn law_bucket_is_emptied_before_it_goes(deletion: DeletionView)
    ensures
        ({
            let batches = batches_of(deletion.remaining);
            &&& actions_of(deletion).len() == batches.len() + 1
            &&& actions_of(deletion).last() == BucketActionView::DeleteBucket
            &&& forall|i: int|
                0 <= i < batches.len() ==> #[trigger] actions_of(deletion)[i]
                    == (BucketActionView::DeleteFiles { keys: batches[i] })
        }),
    decreases deletion.remaining.len(),
{
    let batches = batches_of(deletion.remaining);
    if deletion.remaining.len() > 0 {
        let next = deletion.advanced();
        law_bucket_is_emptied_before_it_goes(next);
        assert forall|i: int| 0 <= i < batches.len() implies #[trigger] actions_of(deletion)[i] == (
        BucketActionView::DeleteFiles { keys: batches[i] }) by {
            if i > 0 {
                assert(actions_of(deletion)[i] == actions_of(next)[i - 1]);
                assert(batches[i] == batches_of(next.remaining)[i - 1]);
            }
        }
    }
}

/// However many pages a bucket has, every object that they report is found
/// in the order of the pages, beside those found before.
proof fn lemma_found_on(deletion: DeletionView, pages: Seq<Seq<ListedObject>>)
    ensures
        deletion.found_on(pages) == deletion.found(
            pages.map_values(|page: Seq<ListedObject>| object_keys(page)).flatten(),
        ),
    decreases pages.len(),
{
    let keys = |page: Seq<ListedObject>| object_keys(page);
    let mapped = pages.map_values(keys);
    mapped.lemma_flatten_and_flatten_alt_are_equivalent();
    if pages.len() == 0 {
        assert(deletion.found(mapped.flatten()) =~= deletion);
    } else {
        let rest = pages.drop_last();
        lemma_found_on(deletion, rest);
        rest.map_values(keys).lemma_flatten_and_flatten_alt_are_equivalent();
        assert(mapped.drop_last() =~= rest.map_values(keys));
        assert(deletion.found_on(pages) =~= deletion.found(mapped.flatten()));
    }
}

/// Every object that the pages of a bucket report is deleted, once for each
/// time that it is reported and in the order of the pages, after those found
/// before.
pub proof fn law_every_listed_object_is_deleted(
    deletion: DeletionView,
    pages: Seq<Seq<ListedObject>>,
)
    ensures
        deletion.found_on(pages) == deletion.found(object_keys(pages.flatten())),
        batches_of(deletion.found_on(pages).remaining).flatten() == deletion.remaining
            + object_keys(pages.flatten()),
{
    law_pages_concatenate(pages);
    lemma_found_on(deletion, pages);
    law_batches_hold_every_file_once(deletion.found_on(pages).remaining);
}

/// A bucket is created under `ise-` and the name; a name that begins with
/// `ise-` means itself when a bucket is deleted, and any other means the one
/// created under it.
pub proof fn law_names_of_buckets(name: Seq<char>)
    ensures
        spec_full_bucket_name(name) == "ise-"@ + name,
        name.len() >= 4 && name.take(4) == "ise-"@ ==> meant_bucket(name) == name,
        name.len() < 4 || name.take(4) != "ise-"@ ==> meant_bucket(name) == "ise-"@ + name,
{
    reveal_strlit("ise-");
    assert("ise-"@ =~= dashed_prefix());
}

/// What is handed out next and what remains are together what there was: the
/// next thousand files or all that are left, in their order. The bucket goes
/// exactly when no file remains, and is the same one throughout.
pub proof fn law_next_batch(deletion: DeletionView, keys: Seq<Seq<char>>)
    ensures
        deletion.next_action() == BucketActionView::DeleteBucket <==> deletion.remaining.len() == 0,
        deletion.remaining.len() > 0 ==> (deletion.next_action() matches
            BucketActionView::DeleteFiles { keys: batch } && batch + deletion.advanced().remaining
            == deletion.remaining && (batch.len() == 1000 || batch.len() < 1000
            && deletion.advanced().remaining.len() == 0)),
        deletion.remaining.len() == 0 ==> deletion.advanced().remaining.len() == 0,
        deletion.advanced().bucket == deletion.bucket,
        deletion.found(keys).bucket == deletion.bucket,
        deletion.found(keys).remaining == deletion.remaining + keys,
        batch_len(deletion.remaining.len()) <= deletion.remaining.len(),
        batch_len(deletion.remaining.len()) == 1000 || batch_len(deletion.remaining.len())
            == deletion.remaining.len(),
        batch_len(deletion.remaining.len()) <= 1000,
{
    let len = batch_len(deletion.remaining.len()) as int;
    assert(deletion.remaining.take(len) + deletion.remaining.skip(len) =~= deletion.remaining);
}

/// Every key that some page reports, whatever else is said of the object, is
/// in a batch of files to delete.
pub proof fn law_every_reported_key_is_in_a_batch(
    deletion: DeletionView,
    pages: Seq<Seq<ListedObject>>,
    page: int,
    i: int,
)
    requires
        0 <= page < pages.len(),
        0 <= i < pages[page].len(),
        pages[page][i].key is Some,
    ensures
        batches_of(deletion.found_on(pages).remaining).flatten().contains(
            pages[page][i].key->0@,
        ),
    decreases pages.len(),
{
    let key = pages[page][i].key->0@;
    let rest = pages.drop_last();
    let found = deletion.found_on(pages).remaining;
    let front = deletion.found_on(rest).remaining;
    let last = object_keys(pages.last());
    law_batches_hold_every_file_once(found);
    law_batches_hold_every_file_once(front);
    if page < rest.len() {
        law_every_reported_key_is_in_a_batch(deletion, rest, page, i);
        let j = front.index_of(key);
        assert(found[j] == key);
    } else {
        law_every_key_is_reported(pages.last());
        let j = last.index_of(key);
        assert(found[front.len() + j] == key);
    }
}

/// An action as contracts speak of it holds all that the action does.
pub proof fn law_actions_are_seen_whole(token: Option<String>, keys: Vec<String>)
    ensures
        (BucketAction::List { token })@ matches BucketActionView::List { token: seen } && (
        token is None ==> seen is None) && (token is Some ==> seen == Some(token->0@)),
        (BucketAction::DeleteFiles { keys })@ matches BucketActionView::DeleteFiles { keys: seen }
            && seen.len() == keys@.len() && (forall|i: int|
            0 <= i < seen.len() ==> #[trigger] seen[i] == keys@[i]@),
        BucketAction::DeleteBucket@ == BucketActionView::DeleteBucket,
{
}

} // verus!
