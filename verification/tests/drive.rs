use ise::handle::S3FileContext;
use ise::s3_fs::{
    can_stage, head_size, object_size, DirectoryStep, FileInfo, FileSecurity, RenameStep, S3FileSystem,
    Written,
};
use ise::service::{FsError, Invalid, Request, Step};
use ise::wide::decode_name;

const DIRECTORY: u32 = 1;

fn drive() -> S3FileSystem {
    S3FileSystem::new("ise-photos".to_owned(), "photos".to_owned())
}

fn wide(text: &str) -> Vec<u16> {
    text.encode_utf16().collect()
}

fn created(fs: &mut S3FileSystem, path: &str) -> S3FileContext {
    fs.create_path(path, 0).unwrap().context
}

fn opened(fs: &mut S3FileSystem, key: &str, size: i64) -> S3FileContext {
    fs.open_after_head(key.to_owned(), Some(size))
        .unwrap()
        .context
}

fn head(key: &str) -> Request {
    Request::Head {
        key: key.to_owned(),
    }
}

fn get(key: &str) -> Request {
    Request::Get {
        key: key.to_owned(),
    }
}

fn put(key: &str, bytes: &[u8]) -> Request {
    Request::Put {
        key: key.to_owned(),
        bytes: bytes.to_vec(),
    }
}

fn delete(key: &str) -> Request {
    Request::Delete {
        key: key.to_owned(),
    }
}

fn wrote(count: u32, file_size: u64) -> Step<Written> {
    Step::Done(Ok(Written { count, file_size }))
}

fn invalid<T>(reason: Invalid) -> Step<T> {
    Step::Done(Err(FsError::InvalidInput(reason)))
}

fn file_info(size: u64) -> FileInfo {
    FileInfo {
        file_attributes: 0x20,
        file_size: size,
        allocation_size: size,
    }
}

fn dir_info() -> FileInfo {
    FileInfo {
        file_attributes: 0x10,
        file_size: 0,
        allocation_size: 0,
    }
}

fn security(attributes: u32) -> FileSecurity {
    FileSecurity {
        reparse: false,
        sz_security_descriptor: 0,
        attributes,
    }
}

#[test]
fn names_are_decoded_from_utf16() {
    assert_eq!(decode_name(&wide("\\Größe.txt")), "\\Größe.txt");
    assert_eq!(decode_name(&[0xD83D, 0xDE00]), "\u{1F600}");
    assert_eq!(decode_name(&[0x61, 0xDBFF, 0xDFFF, 0x62]), "a\u{10FFFF}b");
    assert_eq!(decode_name(&[]), "");
    assert_eq!(decode_name(&[0xD800, 0xDC00]), "\u{10000}");
    assert_eq!(decode_name(&[0xD800, 0xD800]), "\u{FFFD}\u{FFFD}");
    assert_eq!(decode_name(&[0xDC00, 0xDC00]), "\u{FFFD}\u{FFFD}");
    assert_eq!(decode_name(&[0xDC00, 0xD800]), "\u{FFFD}\u{FFFD}");
    assert_eq!(
        decode_name(&[0xD800, 0xD800, 0xDC00, 0xDC00]),
        "\u{FFFD}\u{10000}\u{FFFD}"
    );
    assert_eq!(decode_name(&[0xD7FF, 0xE000]), "\u{D7FF}\u{E000}");
    assert_eq!(decode_name(&[0x61, 0xD800, 0x62]), "a\u{FFFD}b");
    let mut fs = drive();
    assert_eq!(
        fs.get_security_by_name(&wide("\\a.jpg")),
        Step::Ask(head("a.jpg"))
    );
    let step = fs.open(&[0x5C, 0xD800], 0);
    assert!(matches!(step, Step::Ask(Request::Head { key }) if key == "\u{FFFD}"));
    assert_eq!(fs.create(&wide("\\b.txt"), 0).unwrap().info, file_info(0));
    assert_eq!(fs.cached_size("b.txt"), Some(0));
    let handle = created(&mut fs, "c.txt");
    assert!(matches!(
        fs.rename(&handle, &wide("\\d.txt"), true),
        RenameStep::Transfer(rename) if rename.old_key() == "c.txt" && rename.new_key() == "d.txt"
    ));
    assert_eq!(fs.set_volume_label(&wide("other")), "other");
}

#[test]
fn sizes_below_zero_count_as_zero() {
    assert_eq!(object_size(-5), 0);
    assert_eq!(object_size(5), 5);
    assert_eq!(head_size(Some(-1)), Some(0));
    assert_eq!(head_size(Some(9)), Some(9));
    assert_eq!(head_size(None), None);
}

#[test]
fn root_is_a_directory() {
    let mut fs = drive();
    for path in ["\\", "", "/./"] {
        assert_eq!(fs.security_of_path(path), Step::Done(Ok(security(0x10))));
        let Step::Done(Ok(root)) = fs.open_path(path, DIRECTORY) else {
            panic!("the root opens");
        };
        assert_eq!(root.info, dir_info());
        assert!(root.context.is_dir());
        assert_eq!(root.context.key(), None);
        assert_eq!(fs.create_path(path, 0).err(), Some(FsError::AlreadyExists));
    }
}

#[test]
fn unknown_names_are_asked_for_and_remembered() {
    let mut fs = drive();
    assert_eq!(fs.security_of_path("\\a"), Step::Ask(head("a")));
    assert_eq!(fs.security_after_head("a", None), Err(FsError::NotFound));
    assert_eq!(fs.cached_size("a"), None);
    assert_eq!(fs.security_after_head("a", Some(7)), Ok(security(0x20)));
    assert_eq!(fs.cached_size("a"), Some(7));
    assert_eq!(fs.security_of_path("\\a"), Step::Done(Ok(security(0x20))));
    let Step::Done(Ok(file)) = fs.open_path("\\a", 0) else {
        panic!("a known file opens");
    };
    assert_eq!(file.info, file_info(7));
    assert_eq!(file.context.key(), Some("a".to_owned()));
}

#[test]
fn missing_objects_do_not_open() {
    let mut fs = drive();
    assert!(matches!(fs.open_path("\\a", 0), Step::Ask(request) if request == head("a")));
    assert_eq!(
        fs.open_after_head("a".to_owned(), None).err(),
        Some(FsError::NotFound)
    );
    assert!(matches!(
        fs.open_path("\\a", DIRECTORY),
        Step::Done(Err(FsError::NotFound))
    ));
    assert!(matches!(
        fs.open_path("\\a\\..\\b", 0),
        Step::Done(Err(FsError::NotFound))
    ));
    assert_eq!(
        fs.security_of_path("\\.."),
        Step::Done(Err(FsError::NotFound))
    );
}

#[test]
fn nested_keys_are_addressable() {
    let mut fs = drive();
    assert!(matches!(
        fs.open_path("\\photos\\a.jpg", 0),
        Step::Ask(request) if request == head("photos/a.jpg")
    ));
    let file = fs
        .open_after_head("photos/a.jpg".to_owned(), Some(3))
        .unwrap();
    assert_eq!(file.info, file_info(3));
    assert_eq!(
        fs.security_of_path("/photos/a.jpg"),
        Step::Done(Ok(security(0x20)))
    );
}

#[test]
fn refused_creations_leave_no_trace() {
    let mut fs = drive();
    for (path, options, reason) in [
        ("\\..", 0, Invalid::FileName),
        ("\\a\\b", 0, Invalid::NestedPath),
        ("\\a", DIRECTORY, Invalid::Subdirectory),
    ] {
        assert_eq!(
            fs.create_path(path, options).err(),
            Some(FsError::InvalidInput(reason))
        );
    }
    assert_eq!(fs.cached_size("a"), None);
    assert_eq!(fs.cached_size("a/b"), None);
}

#[test]
fn created_file_is_found_and_stored_on_close() {
    let mut fs = drive();
    let file = created(&mut fs, "\\a");
    assert_eq!(fs.cached_size("a"), Some(0));
    assert_eq!(fs.security_of_path("\\a"), Step::Done(Ok(security(0x20))));
    assert_eq!(fs.get_file_info(&file), Step::Done(Ok(file_info(0))));
    assert_eq!(fs.flush(Some(&file)), None);
    let request = fs.close(file).unwrap();
    assert_eq!(request, put("a", &[]));
    fs.close_after(&request, true);
    assert_eq!(fs.cached_size("a"), Some(0));
}

#[test]
fn opened_file_closes_without_a_request() {
    let mut fs = drive();
    let file = opened(&mut fs, "a", 4);
    assert_eq!(fs.close(file), None);
    assert_eq!(fs.close(S3FileContext::dir()), None);
}

#[test]
fn writes_are_read_back_and_stored() {
    let mut fs = drive();
    let mut file = created(&mut fs, "a");
    assert_eq!(fs.write(&mut file, b"hello", 0), wrote(5, 5));
    assert_eq!(fs.write(&mut file, b"LL", 2), wrote(2, 5));
    assert_eq!(fs.write(&mut file, b"!", 7), wrote(1, 8));
    assert_eq!(fs.cached_size("a"), Some(8));
    assert_eq!(fs.get_file_info(&file), Step::Done(Ok(file_info(8))));
    let mut buffer = [9u8; 4];
    assert_eq!(fs.read(&file, &mut buffer, 2), Step::Done(Ok(4)));
    assert_eq!(&buffer, b"LLo\0");
    let mut long = [9u8; 5];
    assert_eq!(fs.read(&file, &mut long, 6), Step::Done(Ok(2)));
    assert_eq!(long, [0, b'!', 9, 9, 9]);
    assert_eq!(fs.read(&file, &mut long, 8), Step::Done(Ok(0)));
    let request = fs.close(file).unwrap();
    assert_eq!(request, put("a", b"heLLo\0\0!"));
    fs.learn_size("a", Some(1));
    fs.close_after(&request, false);
    assert_eq!(fs.cached_size("a"), Some(1));
    fs.close_after(&request, true);
    assert_eq!(fs.cached_size("a"), Some(8));
}

#[test]
fn stored_bytes_around_a_write_are_kept() {
    let mut fs = drive();
    let mut file = opened(&mut fs, "a", 6);
    assert_eq!(fs.write(&mut file, b"XY", 1), Step::Ask(get("a")));
    assert_eq!(file.staged_len(), 0);
    assert_eq!(
        fs.write_after_get(&mut file, Ok(b"abcdef".to_vec()), b"XY", 1),
        Ok(Written {
            count: 2,
            file_size: 6
        })
    );
    assert_eq!(file.staged_bytes(), b"aXYdef");
    assert_eq!(fs.close(file), Some(put("a", b"aXYdef")));
}

#[test]
fn failed_fetch_fails_the_write() {
    let mut fs = drive();
    let mut file = opened(&mut fs, "a", 6);
    assert_eq!(
        fs.write_after_get(&mut file, Err("down".to_owned()), b"XY", 1),
        Err(FsError::Storage("down".to_owned()))
    );
    assert!(!file.is_dirty());
    assert_eq!(fs.cached_size("a"), Some(6));
}

#[test]
fn fetched_bytes_do_not_replace_staged_ones() {
    let mut fs = drive();
    let mut file = created(&mut fs, "a");
    assert_eq!(fs.write(&mut file, b"new", 0), wrote(3, 3));
    assert_eq!(
        fs.write_after_get(&mut file, Ok(b"older".to_vec()), b"s", 3),
        Ok(Written {
            count: 1,
            file_size: 4
        })
    );
    assert_eq!(file.staged_bytes(), b"news");
}

#[test]
fn reads_fetch_stored_bytes_once() {
    let mut fs = drive();
    let mut file = opened(&mut fs, "a", 3);
    let mut buffer = [0u8; 2];
    assert_eq!(fs.read(&file, &mut buffer, 1), Step::Ask(get("a")));
    assert_eq!(
        fs.read_after_get(&mut file, Err("gone".to_owned()), &mut buffer, 1),
        0
    );
    assert_eq!(buffer, [0, 0]);
    assert_eq!(
        fs.read_after_get(&mut file, Ok(b"xyz".to_vec()), &mut buffer, 1),
        2
    );
    assert_eq!(&buffer, b"yz");
    assert_eq!(fs.read(&file, &mut buffer, 0), Step::Done(Ok(2)));
    assert_eq!(&buffer, b"xy");
    assert!(!file.is_dirty());
    assert_eq!(fs.close(file), None);
}

#[test]
fn new_files_are_not_fetched() {
    let mut fs = drive();
    let file = created(&mut fs, "a");
    let mut buffer = [1u8; 2];
    assert_eq!(fs.read(&file, &mut buffer, 0), Step::Done(Ok(0)));
    assert_eq!(buffer, [1, 1]);
}

#[test]
fn flush_stores_changes_once() {
    let mut fs = drive();
    let mut file = created(&mut fs, "a");
    assert_eq!(fs.flush(None), None);
    assert_eq!(fs.write(&mut file, b"abc", 0), wrote(3, 3));
    assert_eq!(fs.flush(Some(&file)), Some(put("a", b"abc")));
    assert_eq!(
        fs.flush_after_put(&mut file, Err("down".to_owned())),
        Err(FsError::Storage("down".to_owned()))
    );
    assert!(file.is_dirty());
    assert_eq!(fs.flush_after_put(&mut file, Ok(())), Ok(()));
    assert_eq!(fs.flush(Some(&file)), None);
    assert_eq!(fs.get_file_info(&file), Step::Done(Ok(file_info(3))));
    assert_eq!(fs.close(file), None);
}

#[test]
fn file_info_of_an_unknown_size_is_asked_for() {
    let mut fs = drive();
    let file = opened(&mut fs, "a", 5);
    assert_eq!(fs.get_file_info(&file), Step::Done(Ok(file_info(5))));
    fs.close_after(&delete("a"), true);
    assert_eq!(fs.get_file_info(&file), Step::Ask(head("a")));
    assert_eq!(fs.file_info_after_head("a", None), Err(FsError::NotFound));
    assert_eq!(fs.file_info_after_head("a", Some(6)), Ok(file_info(6)));
    assert_eq!(fs.cached_size("a"), Some(6));
    assert_eq!(
        fs.get_file_info(&S3FileContext::dir()),
        Step::Done(Ok(dir_info()))
    );
    assert_eq!(fs.get_security(&file), 0);
}

#[test]
fn deletion_wins_over_upload() {
    let mut fs = drive();
    let mut file = created(&mut fs, "a");
    assert_eq!(fs.write(&mut file, b"abc", 0), wrote(3, 3));
    fs.set_delete(&mut file, true);
    assert_eq!(fs.flush(Some(&file)), None);
    fs.set_delete(&mut file, false);
    assert_eq!(fs.flush(Some(&file)), Some(put("a", b"abc")));
    fs.cleanup(&mut file, 0);
    assert!(!file.delete_pending());
    fs.cleanup(&mut file, 3);
    assert!(file.delete_pending());
    let request = fs.close(file).unwrap();
    assert_eq!(request, delete("a"));
    fs.close_after(&request, false);
    assert_eq!(fs.cached_size("a"), Some(3));
    fs.close_after(&request, true);
    assert_eq!(fs.cached_size("a"), None);
    assert_eq!(fs.security_of_path("a"), Step::Ask(head("a")));
}

#[test]
fn resizing_cuts_and_fills() {
    let mut fs = drive();
    let mut file = created(&mut fs, "a");
    assert_eq!(fs.write(&mut file, b"abcdef", 0), wrote(6, 6));
    assert_eq!(fs.set_file_size(&mut file, 3), Step::Done(Ok(3)));
    assert_eq!(file.staged_bytes(), b"abc");
    assert_eq!(fs.set_file_size(&mut file, 5), Step::Done(Ok(5)));
    assert_eq!(file.staged_bytes(), b"abc\0\0");
    assert_eq!(fs.cached_size("a"), Some(5));
    assert_eq!(fs.get_file_info(&file), Step::Done(Ok(file_info(5))));
}

#[test]
fn resizing_fetches_what_is_stored() {
    let mut fs = drive();
    let mut file = opened(&mut fs, "a", 3);
    assert_eq!(fs.set_file_size(&mut file, 2), Step::Ask(get("a")));
    assert_eq!(
        fs.set_file_size_after_get(&mut file, Ok(b"xyz".to_vec()), 2),
        2
    );
    assert_eq!(file.staged_bytes(), b"xy");
    assert!(file.is_dirty());
    let mut lost = opened(&mut fs, "b", 3);
    assert_eq!(
        fs.set_file_size_after_get(&mut lost, Err("gone".to_owned()), 2),
        2
    );
    assert_eq!(lost.staged_bytes(), b"\0\0");
    assert_eq!(fs.cached_size("b"), Some(2));
}

#[test]
fn created_files_start_empty() {
    let mut fs = drive();
    assert_eq!(fs.learn_size("a.txt", Some(3)), Some(3));
    let mut file = created(&mut fs, "a.txt");
    assert_eq!(fs.set_file_size(&mut file, 2), Step::Done(Ok(2)));
    assert_eq!(file.staged_bytes(), [0, 0]);
    assert_eq!(fs.cached_size("a.txt"), Some(2));
    let mut other = created(&mut fs, "b");
    assert_eq!(fs.write(&mut other, b"x", 2), wrote(1, 3));
    assert_eq!(other.staged_bytes(), b"\0\0x");
}

#[test]
fn reads_refresh_the_known_size() {
    let mut fs = drive();
    let mut file = opened(&mut fs, "a", 9);
    let mut buffer = [0u8; 2];
    assert_eq!(
        fs.read_after_get(&mut file, Err("down".to_owned()), &mut buffer, 0),
        0
    );
    assert_eq!(fs.cached_size("a"), Some(9));
    assert_eq!(
        fs.read_after_get(&mut file, Ok(b"xyz".to_vec()), &mut buffer, 0),
        2
    );
    assert_eq!(fs.cached_size("a"), Some(3));
    assert_eq!(fs.get_file_info(&file), Step::Done(Ok(file_info(3))));
}

#[test]
fn blank_paths_open_the_root() {
    let mut fs = drive();
    assert_eq!(fs.security_of_path("   "), Step::Done(Ok(security(0x10))));
    assert_eq!(fs.create_path("   ", 0).err(), Some(FsError::AlreadyExists));
    assert_eq!(fs.security_of_path("\\   "), Step::Ask(head("   ")));
}

#[test]
fn directories_are_not_files() {
    let mut fs = drive();
    let mut root = S3FileContext::dir();
    let mut buffer = [1u8; 1];
    assert_eq!(
        fs.read(&root, &mut buffer, 0),
        invalid(Invalid::ReadOfDirectory)
    );
    assert_eq!(
        fs.write(&mut root, b"a", 0),
        invalid(Invalid::WriteToDirectory)
    );
    assert_eq!(fs.set_file_size(&mut root, 1), invalid(Invalid::NotAFile));
    assert_eq!(fs.flush(Some(&root)), None);
    assert!(matches!(
        fs.rename_to_path(&root, "x", true),
        RenameStep::Done(Err(FsError::InvalidInput(Invalid::DirectoryRename)))
    ));
    let file = created(&mut fs, "a");
    assert_eq!(
        fs.read_directory(&file, true),
        Err(FsError::InvalidInput(Invalid::NotADirectory))
    );
    assert_eq!(fs.read_directory(&root, true), Ok(DirectoryStep::List));
    assert_eq!(fs.read_directory(&root, false), Ok(DirectoryStep::Resume));
}

#[test]
fn listing_shows_names_and_records_sizes() {
    let mut fs = drive();
    created(&mut fs, "kept");
    let entries = fs.directory_listed(&vec![
        ("a.jpg".to_owned(), 3),
        ("b".to_owned(), 4),
        ("a.jpg".to_owned(), 5),
    ]);
    assert_eq!(entries.len(), 3);
    assert_eq!(entries[0].name, "a.jpg");
    assert_eq!(entries[0].info, file_info(3));
    assert_eq!(entries[1].name, "b");
    assert_eq!(fs.cached_size("a.jpg"), Some(5));
    assert_eq!(fs.cached_size("b"), Some(4));
    assert_eq!(fs.cached_size("kept"), Some(0));
    let Step::Done(Ok(file)) = fs.open_path("\\a.jpg", 0) else {
        panic!("a listed name opens");
    };
    assert_eq!(file.info, file_info(5));
}

#[test]
fn refused_renames_say_why() {
    let mut fs = drive();
    let file = created(&mut fs, "a");
    for (path, reason) in [
        ("\\..", Invalid::TargetName),
        ("\\", Invalid::TargetName),
        ("\\x\\y", Invalid::NestedPath),
    ] {
        let RenameStep::Done(Err(error)) = fs.rename_to_path(&file, path, true) else {
            panic!("the rename is refused");
        };
        assert_eq!(error, FsError::InvalidInput(reason));
    }
    assert!(matches!(
        fs.rename_to_path(&file, "/a", false),
        RenameStep::Done(Ok(()))
    ));
}

#[test]
fn rename_without_replacing_checks_the_target() {
    let mut fs = drive();
    let file = opened(&mut fs, "a", 1);
    assert!(matches!(
        fs.rename_to_path(&file, "b", false),
        RenameStep::CheckTarget(rename) if rename.new_key() == "b"
    ));
    assert_eq!(fs.rename_after_head(Some(0)), Err(FsError::AlreadyExists));
    assert_eq!(fs.rename_after_head(None), Ok(()));
}

#[test]
fn staged_changes_move_with_a_rename() {
    let mut fs = drive();
    let mut file = created(&mut fs, "a");
    assert_eq!(fs.write(&mut file, b"abc", 0), wrote(3, 3));
    let RenameStep::Transfer(rename) = fs.rename_to_path(&file, "\\b", true) else {
        panic!("the rename goes on");
    };
    assert_eq!(fs.rename_transfer(&file, &rename), put("b", b"abc"));
    assert_eq!(
        fs.rename_after_transfer(&mut file, &rename, Err("down".to_owned())),
        Err(FsError::Storage("down".to_owned()))
    );
    assert!(file.is_dirty());
    assert_eq!(
        fs.rename_after_transfer(&mut file, &rename, Ok(())),
        Ok(delete("a"))
    );
    fs.rename_finish(&mut file, rename);
    assert_eq!(file.key(), Some("b".to_owned()));
    assert_eq!(file.staged_bytes(), b"abc");
    assert_eq!(fs.cached_size("a"), None);
    assert_eq!(fs.cached_size("b"), Some(3));
    assert_eq!(fs.close(file), None);
}

#[test]
fn stored_objects_are_copied_by_a_rename() {
    let mut fs = drive();
    let mut file = opened(&mut fs, "a", 4);
    let RenameStep::Transfer(rename) = fs.rename_to_path(&file, "\\b", true) else {
        panic!("the rename goes on");
    };
    assert_eq!(
        fs.rename_transfer(&file, &rename),
        Request::Copy {
            source: "ise-photos/a".to_owned(),
            key: "b".to_owned()
        }
    );
    assert_eq!(
        fs.rename_after_transfer(&mut file, &rename, Ok(())),
        Ok(delete("a"))
    );
    fs.rename_finish(&mut file, rename);
    assert_eq!(file.key(), Some("b".to_owned()));
    assert_eq!(fs.cached_size("a"), None);
    assert_eq!(fs.cached_size("b"), Some(4));
}

#[test]
fn created_file_is_stored_under_its_new_name() {
    let mut fs = drive();
    let mut file = created(&mut fs, "a");
    let RenameStep::Transfer(rename) = fs.rename_to_path(&file, "\\b", true) else {
        panic!("the rename goes on");
    };
    assert_eq!(
        fs.rename_after_transfer(&mut file, &rename, Ok(())),
        Ok(delete("a"))
    );
    fs.rename_finish(&mut file, rename);
    assert_eq!(fs.close(file), Some(put("b", &[])));
}

#[test]
fn staging_is_bounded_by_memory() {
    let most = isize::MAX as usize;
    assert!(can_stage(0, 0));
    assert!(can_stage(most as u64, 0));
    assert!(can_stage(1, most - 1));
    assert!(!can_stage(1, most));
    assert!(!can_stage(most as u64 + 1, 0));
    assert!(!can_stage(u64::MAX, usize::MAX));
}

#[test]
fn volume_has_a_label_and_a_size() {
    let fs = drive();
    let info = fs.get_volume_info();
    assert_eq!(info.total_size, 1 << 40);
    assert_eq!(info.free_size, 1 << 39);
    assert_eq!(info.label, "photos");
    assert_eq!(fs.bucket(), "ise-photos");
}

#[test]
fn reasons_have_messages() {
    assert_eq!(Invalid::FileName.message(), "invalid file name");
    assert_eq!(
        Invalid::NestedPath.message(),
        "nested paths are not supported"
    );
    assert_eq!(
        Invalid::Subdirectory.message(),
        "subdirectories are not supported"
    );
    assert_eq!(Invalid::NotADirectory.message(), "not a directory");
    assert_eq!(
        Invalid::DirectoryRename.message(),
        "directory rename is not supported"
    );
    assert_eq!(Invalid::TargetName.message(), "invalid target name");
    assert_eq!(Invalid::NotAFile.message(), "not a file");
    assert_eq!(
        Invalid::ReadOfDirectory.message(),
        "cannot read a directory"
    );
    assert_eq!(
        Invalid::WriteToDirectory.message(),
        "cannot write to a directory"
    );
}
