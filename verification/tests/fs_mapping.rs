use ise::fs_mapping::{
    file_name_from_key, is_root_path, s3_key_from_win_path, win_path_from_s3_key,
};
use ise::text::join_parts;

#[test]
fn root_paths_map_to_none() {
    for root in ["\\", "/", "", "\\\\", "//", ".", "\\.\\"] {
        assert_eq!(s3_key_from_win_path(root), None, "path: {root:?}");
        assert!(is_root_path(root), "path: {root:?}");
    }
}

#[test]
fn nested_win_path_maps_to_key() {
    assert_eq!(
        s3_key_from_win_path("\\photos\\2024\\a.jpg"),
        Some("photos/2024/a.jpg".to_owned())
    );
    assert_eq!(
        s3_key_from_win_path("/photos/2024/a.jpg"),
        Some("photos/2024/a.jpg".to_owned())
    );
    assert_eq!(
        s3_key_from_win_path("photos\\mixed/a.jpg"),
        Some("photos/mixed/a.jpg".to_owned())
    );
}

#[test]
fn dot_segments_are_ignored_but_dotdot_is_rejected() {
    assert_eq!(
        s3_key_from_win_path("\\photos\\.\\a.jpg"),
        Some("photos/a.jpg".to_owned())
    );
    assert_eq!(s3_key_from_win_path("\\photos\\..\\a.jpg"), None);
    assert_eq!(s3_key_from_win_path(".."), None);
}

#[test]
fn key_to_win_path_roundtrip() {
    for key in ["a.jpg", "photos/a.jpg", "photos/2024/a.jpg"] {
        let win = win_path_from_s3_key(key);
        assert_eq!(s3_key_from_win_path(&win).as_deref(), Some(key));
    }
    assert_eq!(win_path_from_s3_key(""), "\\");
    assert_eq!(win_path_from_s3_key("photos/a.jpg"), "\\photos\\a.jpg");
}

#[test]
fn non_root_paths_are_not_root() {
    for path in ["\\a.jpg", "photos", "\\photos\\a.jpg", "C"] {
        assert!(!is_root_path(path), "path: {path:?}");
    }
}

#[test]
fn file_name_extraction() {
    assert_eq!(file_name_from_key("a.jpg"), "a.jpg");
    assert_eq!(file_name_from_key("photos/a.jpg"), "a.jpg");
    assert_eq!(file_name_from_key("a/b/"), "b");
    assert_eq!(file_name_from_key(""), "");
}

#[test]
fn parts_are_joined_by_the_separator() {
    let parts = vec!["a".to_owned(), "".to_owned(), "b".to_owned()];
    assert_eq!(join_parts(&parts, ", "), "a, , b");
    assert_eq!(join_parts(&Vec::new(), "/"), "");
}

#[test]
fn extra_separators_and_dots_do_not_change_the_key() {
    let key = Some("a/b".to_owned());
    for path in ["a/b", "\\a\\b", "a//b", "a\\b\\", "/./a/.\\b/."] {
        assert_eq!(s3_key_from_win_path(path), key);
    }
}

#[test]
fn names_with_dots_are_names() {
    assert_eq!(s3_key_from_win_path("..."), Some("...".to_owned()));
    assert_eq!(s3_key_from_win_path("a..b"), Some("a..b".to_owned()));
    assert_eq!(s3_key_from_win_path("\\a\\.."), None);
    assert_eq!(s3_key_from_win_path("../a"), None);
    assert!(!is_root_path(".."));
}

#[test]
fn mapping_a_key_again_changes_nothing() {
    let key = s3_key_from_win_path("\\x/./y\\z").unwrap();
    assert_eq!(key, "x/y/z");
    assert_eq!(s3_key_from_win_path(&key), Some(key));
}

#[test]
fn keys_with_backslashes_come_back_as_they_map() {
    let key = "a\\b//./c";
    let path = win_path_from_s3_key(key);
    assert_eq!(path, "\\a\\b\\c");
    assert_eq!(s3_key_from_win_path(&path), s3_key_from_win_path(key));
    assert_eq!(s3_key_from_win_path(&path), Some("a/b/c".to_owned()));
}

#[test]
fn characters_outside_ascii_are_kept() {
    assert_eq!(
        s3_key_from_win_path("\\Größe\\日本.txt"),
        Some("Größe/日本.txt".to_owned())
    );
    assert_eq!(file_name_from_key("Größe/日本.txt"), "日本.txt");
    assert_eq!(win_path_from_s3_key("é/ü"), "\\é\\ü");
}

#[test]
fn base_names_ignore_trailing_slashes_only() {
    assert_eq!(file_name_from_key("a/b//"), "b");
    assert_eq!(file_name_from_key("///"), "");
    assert_eq!(file_name_from_key("a/."), ".");
    assert_eq!(file_name_from_key("a\\b"), "a\\b");
}

#[test]
fn blank_paths_are_the_root() {
    for path in [" ", "   ", "\t\n", "\u{3000}\u{a0}"] {
        assert!(is_root_path(path));
    }
    for path in [" a ", "\\ ", " /", "\u{200b}"] {
        assert!(!is_root_path(path));
    }
    assert_eq!(s3_key_from_win_path("   "), Some("   ".to_owned()));
}

#[test]
fn keys_are_no_longer_than_paths() {
    for path in ["\\a\\.\\b", "a", "x//y/", "日/本"] {
        let key = s3_key_from_win_path(path).unwrap();
        assert!(key.chars().count() <= path.chars().count());
    }
}

#[test]
fn paths_below_the_root_keep_their_key() {
    for root in ["", "\\", "/", ".", "\\.\\"] {
        let path = format!("{root}\\a/b");
        assert_eq!(s3_key_from_win_path(&path), Some("a/b".to_owned()));
    }
}
