use ise::buckets::{
    bucket_to_delete, full_bucket_name, BucketAction, BucketDeletion, FileBatches,
};
use ise::config::{create_config, record_created_bucket};
use ise::listing::{ListPage, ListedObject};

fn page(keys: &[&str], is_truncated: Option<bool>, next_token: Option<&str>) -> ListPage {
    ListPage {
        objects: keys
            .iter()
            .map(|key| ListedObject {
                key: Some((*key).to_owned()),
                size: Some(1),
            })
            .collect(),
        is_truncated,
        next_token: next_token.map(str::to_owned),
    }
}

#[test]
fn names_get_the_prefix() {
    assert_eq!(full_bucket_name("photos"), "ise-photos");
    assert_eq!(full_bucket_name("ise-photos"), "ise-ise-photos");
}

#[test]
fn deletion_accepts_both_spellings() {
    assert_eq!(bucket_to_delete("photos".to_owned()), "ise-photos");
    assert_eq!(bucket_to_delete("ise-photos".to_owned()), "ise-photos");
    assert_eq!(bucket_to_delete("ise".to_owned()), "ise-ise");
}

#[test]
fn files_come_in_batches_of_a_thousand() {
    let files: Vec<String> = (0..2500).map(|i| format!("f{i}")).collect();
    let mut batches = FileBatches::new(files.clone());
    let mut seen: Vec<String> = Vec::new();
    let mut lens: Vec<usize> = Vec::new();
    while let Some(batch) = batches.next_batch() {
        lens.push(batch.len());
        seen.extend(batch);
    }
    assert_eq!(lens, vec![1000, 1000, 500]);
    assert_eq!(seen, files);
}

#[test]
fn no_files_make_no_batch() {
    assert_eq!(FileBatches::new(Vec::new()).next_batch(), None);
    let mut exact = FileBatches::new(vec!["x".to_owned(); 1000]);
    assert_eq!(exact.next_batch().map(|batch| batch.len()), Some(1000));
    assert_eq!(exact.next_batch(), None);
}

#[test]
fn bucket_is_emptied_then_deleted() {
    let mut config = create_config(Vec::new());
    record_created_bucket(&mut config, "other".to_owned());
    record_created_bucket(&mut config, "photos".to_owned());
    let (mut deletion, first) = BucketDeletion::start("photos".to_owned());
    assert_eq!(deletion.bucket(), "ise-photos");
    assert_eq!(first, BucketAction::List { token: None });
    assert_eq!(
        deletion.page_listed(page(&["a", "b/c"], Some(true), Some("t"))),
        BucketAction::List {
            token: Some("t".to_owned())
        }
    );
    assert_eq!(
        deletion.page_listed(page(&["d"], Some(false), None)),
        BucketAction::DeleteFiles {
            keys: vec!["a".to_owned(), "b/c".to_owned(), "d".to_owned()]
        }
    );
    assert_eq!(deletion.files_deleted(), BucketAction::DeleteBucket);
    deletion.bucket_deleted(&mut config);
    assert_eq!(config.drives.len(), 1);
    assert_eq!(config.drives[0].bucket, "ise-other");
}

#[test]
fn empty_bucket_is_deleted_at_once() {
    let (mut deletion, _) = BucketDeletion::start("ise-x".to_owned());
    assert_eq!(deletion.bucket(), "ise-x");
    assert_eq!(
        deletion.page_listed(page(&[], None, None)),
        BucketAction::DeleteBucket
    );
}

#[test]
fn truncated_page_without_token_lists_again() {
    let (mut deletion, _) = BucketDeletion::start("x".to_owned());
    assert_eq!(
        deletion.page_listed(page(&["a"], Some(true), None)),
        BucketAction::List { token: None }
    );
}

#[test]
fn keys_reported_twice_are_deleted_twice() {
    let (mut deletion, _) = BucketDeletion::start("x".to_owned());
    deletion.page_listed(page(&["a"], Some(true), Some("t")));
    assert_eq!(
        deletion.page_listed(page(&["a", "b"], None, None)),
        BucketAction::DeleteFiles {
            keys: vec!["a".to_owned(), "a".to_owned(), "b".to_owned()]
        }
    );
}
