use ise::listing::{bucket_names, ListPage, ListedObject, RootListing};

fn object(key: Option<&str>, size: Option<i64>) -> ListedObject {
    ListedObject {
        key: key.map(str::to_owned),
        size,
    }
}

#[test]
fn nested_keys_are_hidden() {
    let mut listing = RootListing::new();
    let page = ListPage {
        objects: vec![
            object(Some("a.jpg"), Some(3)),
            object(Some("photos/b.jpg"), Some(4)),
            object(None, Some(5)),
            object(Some("c.jpg"), None),
            object(Some("d.jpg"), Some(-1)),
        ],
        is_truncated: Some(false),
        next_token: Some("unused".to_owned()),
    };
    assert_eq!(listing.page_listed(page), None);
    assert_eq!(
        listing.into_entries(),
        vec![
            ("a.jpg".to_owned(), 3),
            ("c.jpg".to_owned(), 0),
            ("d.jpg".to_owned(), 0)
        ]
    );
}

#[test]
fn pages_follow_each_other() {
    let mut listing = RootListing::new();
    let first = ListPage {
        objects: vec![object(Some("a"), Some(1))],
        is_truncated: Some(true),
        next_token: Some("t".to_owned()),
    };
    assert_eq!(listing.page_listed(first), Some("t".to_owned()));
    let second = ListPage {
        objects: vec![object(Some("b"), Some(2))],
        is_truncated: None,
        next_token: None,
    };
    assert_eq!(listing.page_listed(second), None);
    assert_eq!(
        listing.into_entries(),
        vec![("a".to_owned(), 1), ("b".to_owned(), 2)]
    );
}

#[test]
fn truncated_page_without_token_ends_the_listing() {
    let mut listing = RootListing::new();
    let page = ListPage {
        objects: Vec::new(),
        is_truncated: Some(true),
        next_token: None,
    };
    assert_eq!(listing.page_listed(page), None);
    assert_eq!(listing.into_entries(), Vec::new());
}

#[test]
fn buckets_without_a_name_are_left_out() {
    let reported = vec![Some("ise-a".to_owned()), None, Some("b".to_owned())];
    assert_eq!(bucket_names(&reported), vec!["ise-a", "b"]);
}
