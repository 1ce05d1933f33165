//! Laws of the drive: what its decisions promise together.
//!
//! Laws that follow a file to the storage service and back speak of a
//! [`Store`]: the objects of the drive's bucket, and what each request does
//! to them where the service serves it.

use vstd::prelude::*;

#[allow(unused_imports)]
use crate::bytes::{law_overwrite, overwritten, resized, window_len};
#[allow(unused_imports)]
use crate::fs_mapping::{
    base_name, is_canonical_key, is_root, key_of_path, law_base_name,
    law_extra_separators_are_ignored, law_key_roundtrip, law_keys_are_canonical,
    lemma_dotdot_is_not_root, lemma_separator_is_not_blank, path_of_key,
};
#[allow(unused_imports)]
use crate::handle::HandleView;
#[allow(unused_imports)]
use crate::s3_fs::{
    clamped_size, create_outcome, entries_view, is_read, opened_step, opened_view, spec_head_size,
    wants_directory, written_view, DriveView, FileInfo, FileSecurity, Opened, Rename, RenameStep,
    RenameStepView, RenameView, CLEANUP_DELETE, CREATE_OPTION_DIRECTORY_FILE,
    FILE_ATTRIBUTE_ARCHIVE, FILE_ATTRIBUTE_DIRECTORY,
};
#[allow(unused_imports)]
use crate::service::{FsError, Invalid, Request, RequestView, Step, StepView};
#[allow(unused_imports)]
use crate::text::{
    is_blank, key_separators, lemma_blank_is_one_piece, path_separators, segments, split,
};

verus! {

/// The objects of a bucket.
pub type Store = Map<Seq<char>, Seq<u8>>;

/// The objects of `bucket` after the storage service served `request`. A copy
/// names its source by bucket and key.
pub open spec fn served(store: Store, bucket: Seq<char>, request: RequestView) -> Store {
    match request {
        RequestView::Head { .. } => store,
        RequestView::Get { .. } => store,
        RequestView::Put { key, bytes } => store.insert(key, bytes),
        RequestView::Copy { source, key } => store.insert(
            key,
            store[source.skip(bucket.len() as int + 1)],
        ),
        RequestView::Delete { key } => store.remove(key),
    }
}

/// What a file holds: the staged bytes where they count, else the stored ones.
pub open spec fn contents(handle: HandleView, store: Store) -> Seq<u8> {
    if handle.needs_fetch() {
        store[handle.key->0]
    } else {
        handle.data
    }
}

/// What a clean handle holds is what is stored under its key: nobody else
/// changed the object since it was fetched.
pub open spec fn is_current(handle: HandleView, store: Store) -> bool {
    !handle.dirty && handle.data.len() > 0 ==> store[handle.key->0] == handle.data
}

/// Every handle stays well-formed: whatever is done to a well-formed file
/// handle leaves one.
pub proof fn law_handles_stay_well_formed(
    handle: HandleView,
    bytes: Seq<u8>,
    at: nat,
    flag: bool,
    rename: RenameView,
)
    requires
        handle.wf(),
    ensures
        HandleView::directory().wf(),
        handle.with_delete(flag).wf(),
        handle.uploaded().wf(),
        handle.is_file() ==> {
            &&& handle.fetched(bytes).wf()
            &&& handle.written(at, bytes).wf()
            &&& handle.resized(at).wf()
            &&& rename.wf() ==> handle.renamed(rename.new_key).wf()
        },
{
}

/// What is written is read back: a read of the written range fills the buffer
/// with the written bytes, and needs no call of the storage service.
pub proof fn law_read_gives_back_write(
    handle: HandleView,
    at: nat,
    bytes: Seq<u8>,
    before: Seq<u8>,
    after: Seq<u8>,
)
    requires
        before.len() == bytes.len(),
        is_read(before, after, handle.written(at, bytes).data, at),
    ensures
        !handle.written(at, bytes).needs_fetch(),
        window_len(handle.written(at, bytes).data, at, bytes.len()) == bytes.len(),
        after == bytes,
{
    assert(after =~= bytes);
}

/// A write changes nothing outside its range; a gap that it leaves behind the
/// end of the file reads as zeros.
pub proof fn law_write_keeps_the_rest(handle: HandleView, at: nat, bytes: Seq<u8>, i: int)
    requires
        0 <= i < handle.written(at, bytes).data.len(),
        !(at <= i < at + bytes.len()),
    ensures
        i < handle.data.len() ==> handle.written(at, bytes).data[i] == handle.data[i],
        i >= handle.data.len() ==> handle.written(at, bytes).data[i] == 0,
        handle.data.len() <= handle.written(at, bytes).data.len(),
{
}

/// A write over the same range counts alone, and writes to ranges apart from
/// each other may be swapped.
pub proof fn law_writes_compose(
    handle: HandleView,
    at: nat,
    bytes: Seq<u8>,
    at2: nat,
    bytes2: Seq<u8>,
)
    ensures
        at == at2 && bytes.len() == bytes2.len() ==> handle.written(at, bytes).written(at2, bytes2)
            == handle.written(at2, bytes2),
        at + bytes.len() <= at2 || at2 + bytes2.len() <= at ==> handle.written(at, bytes).written(
            at2,
            bytes2,
        ) == handle.written(at2, bytes2).written(at, bytes),
{
    if at == at2 && bytes.len() == bytes2.len() {
        assert(handle.written(at, bytes).written(at2, bytes2) =~= handle.written(at2, bytes2));
    }
    if at + bytes.len() <= at2 || at2 + bytes2.len() <= at {
        assert(handle.written(at, bytes).written(at2, bytes2) =~= handle.written(
            at2,
            bytes2,
        ).written(at, bytes));
    }
}

/// A resize keeps what fits, fills with zeros, and is what the file is told
/// to be: repeated it changes nothing, and to the present length it keeps the
/// bytes.
pub proof fn law_resize(handle: HandleView, len: nat)
    ensures
        handle.resized(len).data.len() == len,
        forall|i: int|
            0 <= i < len ==> #[trigger] handle.resized(len).data[i] == (if i < handle.data.len() {
                handle.data[i]
            } else {
                0
            }),
        handle.resized(len).resized(len) == handle.resized(len),
        len == handle.data.len() ==> handle.resized(len).data == handle.data,
{
    assert(handle.resized(len).resized(len) =~= handle.resized(len));
    if len == handle.data.len() {
        assert(handle.resized(len).data =~= handle.data);
    }
}

/// A new file starts empty, whatever is stored under its key: it is never
/// fetched, a resize fills it with zeros, and a write leaves zeros around it.
pub proof fn law_created_file_starts_empty(
    key: Seq<char>,
    store: Store,
    len: nat,
    at: nat,
    bytes: Seq<u8>,
)
    ensures
        ({
            let handle = HandleView::created(key);
            &&& !handle.needs_fetch()
            &&& contents(handle, store) == Seq::<u8>::empty()
            &&& contents(handle.resized(len), store) == Seq::new(len, |i: int| 0u8)
            &&& contents(handle.written(at, bytes), store) == Seq::new(at, |i: int| 0u8) + bytes
        }),
{
    let handle = HandleView::created(key);
    assert(handle.resized(len).data =~= Seq::new(len, |i: int| 0u8));
    assert(handle.written(at, bytes).data =~= Seq::new(at, |i: int| 0u8) + bytes);
}

/// A created file materialises on close, even when nothing was written.
pub proof fn law_created_file_is_stored_on_close(key: Seq<char>, bucket: Seq<char>, store: Store)
    ensures
        HandleView::created(key).close_request() == Some(
            RequestView::Put { key, bytes: Seq::empty() },
        ),
        served(store, bucket, HandleView::created(key).close_request()->0) == store.insert(
            key,
            Seq::empty(),
        ),
{
}

/// Written, closed, opened again and read: a file gives back what was written
/// to it, and around that what it held before.
pub proof fn law_stored_file_gives_back_write(
    handle: HandleView,
    at: nat,
    bytes: Seq<u8>,
    bucket: Seq<char>,
    store: Store,
    before: Seq<u8>,
    after: Seq<u8>,
)
    requires
        handle.is_file(),
        !handle.delete_pending,
        before.len() == bytes.len(),
        ({
            let loaded = handle.fetched(contents(handle, store));
            let stored = served(store, bucket, loaded.written(at, bytes).close_request()->0);
            let reopened = HandleView::existing(handle.key->0);
            is_read(before, after, reopened.fetched(stored[handle.key->0]).data, at)
        }),
    ensures
        ({
            let loaded = handle.fetched(contents(handle, store));
            let closing = loaded.written(at, bytes).close_request();
            let reopened = HandleView::existing(handle.key->0);
            &&& closing == Some(
                RequestView::Put {
                    key: handle.key->0,
                    bytes: overwritten(contents(handle, store), at, bytes),
                },
            )
            &&& reopened.needs_fetch()
            &&& contents(reopened, served(store, bucket, closing->0)) == overwritten(
                contents(handle, store),
                at,
                bytes,
            )
            &&& after == bytes
        }),
{
    let loaded = handle.fetched(contents(handle, store));
    assert(loaded.data =~= contents(handle, store));
    assert(after =~= bytes);
}

/// Flushing stores what closing would store. Once stored, neither stores it
/// again.
pub proof fn law_contents_are_stored_once(handle: HandleView)
    ensures
        handle.flush_request() is Some ==> handle.flush_request() == handle.close_request(),
        handle.uploaded().flush_request() is None,
        !handle.delete_pending ==> handle.uploaded().close_request() is None,
        handle.uploaded().data == handle.data,
{
}

/// A file marked for deletion is deleted on close and never stored; taking
/// the mark back leaves the handle as it was.
pub proof fn law_deletion_wins_over_upload(handle: HandleView, bucket: Seq<char>, store: Store)
    requires
        handle.is_file(),
    ensures
        handle.with_delete(true).close_request() == Some(
            RequestView::Delete { key: handle.key->0 },
        ),
        handle.with_delete(true).flush_request() is None,
        !served(store, bucket, handle.with_delete(true).close_request()->0).contains_key(
            handle.key->0,
        ),
        handle.with_delete(true).with_delete(handle.delete_pending) == handle,
{
}

/// The root directory is never stored, deleted or renamed.
pub proof fn law_root_asks_for_nothing(
    handle: HandleView,
    drive: DriveView,
    path: Seq<char>,
    replace_if_exists: bool,
)
    requires
        handle.wf(),
        handle.is_dir,
    ensures
        handle.close_request() is None,
        handle.flush_request() is None,
        drive.info_step(handle) == StepView::Done(Ok(FileInfo::spec_directory())),
        drive.rename_step(handle, path, replace_if_exists) == RenameStepView::Done(
            Err(FsError::InvalidInput(Invalid::DirectoryRename)),
        ),
{
}

/// After a write or a resize the driver is told the staged length, without a
/// call of the storage service, and still is once the contents are stored.
pub proof fn law_size_is_what_was_staged(handle: HandleView, drive: DriveView)
    requires
        handle.is_file(),
        handle.dirty,
    ensures
        ({
            let len = handle.data.len() as u64;
            let stored = drive.recorded(handle.key->0, len);
            &&& drive.info_step(handle) == StepView::Done(Ok(FileInfo::spec_file(len)))
            &&& stored.info_step(handle.uploaded()) == StepView::Done(
                Ok(FileInfo::spec_file(len)),
            )
        }),
{
}

/// A rename moves a file: the new key holds the staged changes, or else what
/// was stored, the old key is gone, no other object changes, and the handle
/// goes on under the new key with the bytes that it had. Where the handle is
/// current, and was written to or not created anew, the new key so holds the
/// contents of the file, and so does the file after the rename. Nothing is
/// left to store of staged changes; a created file without any is still
/// stored on close, under the new key.
pub proof fn law_rename_moves_contents(
    drive: DriveView,
    handle: HandleView,
    rename: RenameView,
    store: Store,
)
    requires
        handle.is_file(),
        handle.key == Some(rename.old_key),
        rename.wf(),
        handle.dirty || store.contains_key(rename.old_key),
    ensures
        ({
            let moved = served(store, drive.bucket, drive.transfer_request(handle, rename));
            let done = served(
                moved,
                drive.bucket,
                RequestView::Delete { key: rename.old_key },
            );
            let held = if handle.dirty {
                handle.data
            } else {
                store[rename.old_key]
            };
            let after = (if handle.dirty {
                handle.uploaded()
            } else {
                handle
            }).renamed(rename.new_key);
            &&& done == store.insert(rename.new_key, held).remove(rename.old_key)
            &&& done.contains_key(rename.new_key) && done[rename.new_key] == held
            &&& !done.contains_key(rename.old_key)
            &&& after.data == handle.data
            &&& after.key == Some(rename.new_key)
            &&& is_current(handle, store) && (handle.dirty || !handle.is_new) ==> {
                &&& done[rename.new_key] == contents(handle, store)
                &&& contents(after, done) == contents(handle, store)
            }
            &&& handle.dirty && !handle.delete_pending ==> after.close_request() is None
            &&& !handle.dirty && handle.is_new && !handle.delete_pending ==> {
                &&& after.close_request() == Some(
                    RequestView::Put { key: rename.new_key, bytes: handle.data },
                )
                &&& handle.data.len() == 0 ==> after.close_request() == Some(
                    RequestView::Put { key: rename.new_key, bytes: Seq::empty() },
                )
            }
        }),
{
    let source = drive.bucket + seq!['/'] + rename.old_key;
    assert(source.skip(drive.bucket.len() as int + 1) =~= rename.old_key);
    if handle.data.len() == 0 {
        assert(handle.data =~= Seq::empty());
    }
}

/// A rename moves the known size with the file and leaves all others.
pub proof fn law_rename_moves_size(
    drive: DriveView,
    handle: HandleView,
    rename: RenameView,
    other: Seq<char>,
)
    requires
        rename.wf(),
        other != rename.old_key,
        other != rename.new_key,
    ensures
        ({
            let after = drive.transferred(handle, rename).forgotten(rename.old_key);
            &&& after.known_size(rename.old_key) is None
            &&& handle.dirty ==> after.known_size(rename.new_key) == Some(
                handle.data.len() as u64,
            )
            &&& !handle.dirty && drive.known_size(rename.old_key) is Some ==> after.known_size(
                rename.new_key,
            ) == drive.known_size(rename.old_key)
            &&& after.known_size(other) == drive.known_size(other)
        }),
{
}

/// The root is a directory under each of its spellings, and cannot be
/// created.
pub proof fn law_root_is_a_directory(drive: DriveView, path: Seq<char>, create_options: u32)
    requires
        is_root(path),
    ensures
        drive.security_step(path) == StepView::Done(
            Ok(FileSecurity::spec_of(FILE_ATTRIBUTE_DIRECTORY)),
        ),
        drive.open_step(path, create_options) == StepView::Done(
            Ok((HandleView::directory(), FileInfo::spec_directory())),
        ),
        create_outcome(path, create_options) == Err::<(HandleView, FileInfo), FsError>(
            FsError::AlreadyExists,
        ),
{
}

/// A path with a `..` segment names nothing: it is not found, and nothing is
/// created under it.
pub proof fn law_dotdot_names_nothing(drive: DriveView, path: Seq<char>, create_options: u32)
    requires
        segments(path, path_separators()).contains(seq!['.', '.']),
    ensures
        drive.security_step(path) == StepView::<FileSecurity>::Done(Err(FsError::NotFound)),
        drive.open_step(path, create_options) == StepView::<(HandleView, FileInfo)>::Done(
            Err(FsError::NotFound),
        ),
        create_outcome(path, create_options) == Err::<(HandleView, FileInfo), FsError>(
            FsError::InvalidInput(Invalid::FileName),
        ),
{
    lemma_dotdot_is_not_root(path);
}

/// No path leads out of the bucket: what opens is well-formed, and what is
/// asked for is a canonical key, none of whose segments is `..`.
pub proof fn law_no_path_escapes_the_bucket(drive: DriveView, path: Seq<char>, create_options: u32)
    ensures
        drive.open_step(path, create_options) matches StepView::Done(Ok((handle, _)))
            ==> handle.wf(),
        create_outcome(path, create_options) matches Ok((handle, _)) ==> handle.wf(),
        drive.open_step(path, create_options) matches StepView::Ask(request) ==> (request matches
            RequestView::Head { key } && is_canonical_key(key) && !split(
            key,
            key_separators(),
        ).contains(seq!['.', '.'])),
{
    law_keys_are_canonical(path);
}

/// Every key in canonical form, nested or not, is addressable by its path: it
/// opens with its known size, or the storage service is asked for it.
pub proof fn law_keys_are_addressable(drive: DriveView, key: Seq<char>, create_options: u32)
    requires
        is_canonical_key(key),
        !wants_directory(create_options),
    ensures
        ({
            let path = path_of_key(key);
            match drive.known_size(key) {
                Some(size) => {
                    &&& drive.security_step(path) == StepView::Done(
                        Ok(FileSecurity::spec_of(FILE_ATTRIBUTE_ARCHIVE)),
                    )
                    &&& drive.open_step(path, create_options) == StepView::Done(
                        Ok((HandleView::existing(key), FileInfo::spec_file(size))),
                    )
                },
                None => {
                    &&& drive.security_step(path) == StepView::<FileSecurity>::Ask(
                        RequestView::Head { key },
                    )
                    &&& drive.open_step(path, create_options) == StepView::<
                        (HandleView, FileInfo),
                    >::Ask(RequestView::Head { key })
                },
            }
        }),
{
    law_key_roundtrip(key);
}

/// Nothing is created under a nested key, and nothing is renamed to one.
pub proof fn law_nested_keys_are_not_created(
    drive: DriveView,
    handle: HandleView,
    path: Seq<char>,
    create_options: u32,
    replace_if_exists: bool,
)
    requires
        key_of_path(path) matches Some(key) && key.contains('/'),
        !handle.is_dir,
    ensures
        create_outcome(path, create_options) == Err::<(HandleView, FileInfo), FsError>(
            FsError::InvalidInput(Invalid::NestedPath),
        ),
        drive.rename_step(handle, path, replace_if_exists) == RenameStepView::Done(
            Err(FsError::InvalidInput(Invalid::NestedPath)),
        ),
{
    if is_blank(path) {
        lemma_blank_is_one_piece(path);
        let i = path.index_of('/');
        assert(!path_separators().contains(path[i]));
    }
}

/// A created file is found at once, empty, under the path that it was created
/// with; a deleted one is asked for again.
pub proof fn law_created_file_is_found(drive: DriveView, path: Seq<char>, create_options: u32)
    requires
        create_outcome(path, create_options) is Ok,
    ensures
        ({
            let key = key_of_path(path)->0;
            let created = drive.recorded(key, 0);
            &&& created.security_step(path) == StepView::Done(
                Ok(FileSecurity::spec_of(FILE_ATTRIBUTE_ARCHIVE)),
            )
            &&& created.open_step(path, create_options) == StepView::Done(
                Ok((HandleView::existing(key), FileInfo::spec_file(0))),
            )
            &&& created.forgotten(key).security_step(path) == StepView::<FileSecurity>::Ask(
                RequestView::Head { key },
            )
        }),
{
}

/// A name that was found is not asked for again: once a lookup told its size,
/// it opens with that size until something else is learned of it.
pub proof fn law_lookups_are_remembered(
    drive: DriveView,
    path: Seq<char>,
    content_length: i64,
    create_options: u32,
)
    requires
        !is_root(path),
        key_of_path(path) is Some,
        !wants_directory(create_options),
    ensures
        ({
            let key = key_of_path(path)->0;
            let size = clamped_size(content_length);
            let after = drive.learned(key, Some(content_length));
            &&& after.known_size(key) == Some(size)
            &&& after.security_step(path) == StepView::Done(
                Ok(FileSecurity::spec_of(FILE_ATTRIBUTE_ARCHIVE)),
            )
            &&& after.open_step(path, create_options) == StepView::Done(
                Ok((HandleView::existing(key), FileInfo::spec_file(size))),
            )
        }),
{
}

/// After a listing the size of a listed key is that of its last entry, and
/// the size of a key that is not listed is what it was.
pub proof fn law_listing_refreshes_sizes(
    drive: DriveView,
    entries: Seq<(Seq<char>, u64)>,
    key: Seq<char>,
)
    ensures
        forall|i: int|
            0 <= i < entries.len() && (#[trigger] entries[i]).0 == key && (forall|j: int|
                i < j < entries.len() ==> (#[trigger] entries[j]).0 != key) ==> drive.listed(
                entries,
            ).known_size(key) == Some(entries[i].1),
        (forall|i: int| 0 <= i < entries.len() ==> (#[trigger] entries[i]).0 != key)
            ==> drive.listed(entries).known_size(key) == drive.known_size(key),
        drive.listed(entries).bucket == drive.bucket,
        drive.listed(entries).label == drive.label,
    decreases entries.len(),
{
    if entries.len() > 0 {
        let front = entries.drop_last();
        law_listing_refreshes_sizes(drive, front, key);
        assert forall|i: int|
            0 <= i < entries.len() && (#[trigger] entries[i]).0 == key && (forall|j: int|
                i < j < entries.len() ==> (#[trigger] entries[j]).0 != key) implies drive.listed(
            entries,
        ).known_size(key) == Some(entries[i].1) by {
            if i < front.len() {
                assert(entries[entries.len() - 1].0 != key);
                assert(front[i] == entries[i]);
                assert forall|j: int| i < j < front.len() implies (#[trigger] front[j]).0
                    != key by {
                    assert(front[j] == entries[j]);
                }
            }
        }
        if forall|i: int| 0 <= i < entries.len() ==> (#[trigger] entries[i]).0 != key {
            assert(entries[entries.len() - 1].0 != key);
            assert forall|i: int| 0 <= i < front.len() implies (#[trigger] front[i]).0 != key by {
                assert(front[i] == entries[i]);
            }
        }
    }
}

/// A listed name opens the listed object: below the root, the name that the
/// directory shows for a top-level key in canonical form stands for that key.
pub proof fn law_listed_name_opens_its_key(key: Seq<char>)
    requires
        is_canonical_key(key),
        !key.contains('/'),
    ensures
        base_name(key) == key,
        key_of_path(seq!['\\'] + base_name(key)) == Some(key),
        !is_root(seq!['\\'] + base_name(key)),
{
    law_base_name(key);
    law_extra_separators_are_ignored(key, '\\', '\\', Seq::empty());
    lemma_separator_is_not_blank(Seq::empty(), '\\', key);
    assert(Seq::empty().push('\\') + key =~= seq!['\\'] + key);
}

/// The numbers of the driver: directories are 0x10, files 0x20 with their
/// size told twice, no name has a descriptor or is a reparse point, and the
/// lowest bit of the options asks for a directory.
pub proof fn law_driver_numbers(size: u64, attributes: u32, create_options: u32)
    ensures
        ({
            let root = FileInfo::spec_directory();
            &&& root.file_attributes == 0x10 && root.file_size == 0 && root.allocation_size == 0
        }),
        ({
            let file = FileInfo::spec_file(size);
            &&& file.file_attributes == 0x20
            &&& file.file_size == size && file.allocation_size == size
        }),
        ({
            let security = FileSecurity::spec_of(attributes);
            &&& !security.reparse && security.sz_security_descriptor == 0
            &&& security.attributes == attributes
        }),
        wants_directory(create_options) <==> create_options % 2 == 1,
        FILE_ATTRIBUTE_DIRECTORY == 0x10,
        FILE_ATTRIBUTE_ARCHIVE == 0x20,
        CREATE_OPTION_DIRECTORY_FILE == 1,
        CLEANUP_DELETE == 1,
{
    assert(create_options & 1 != 0 <==> create_options % 2 == 1) by (bit_vector);
}

/// What the service reports is the size, but for sizes below zero, which
/// count as zero; without a report there is no size.
pub proof fn law_reported_sizes(content_length: i64)
    ensures
        spec_head_size(None) is None,
        content_length >= 0 ==> spec_head_size(Some(content_length)) == Some(
            content_length as u64,
        ) && clamped_size(content_length) == content_length,
        content_length < 0 ==> spec_head_size(Some(content_length)) == Some(0u64) && clamped_size(
            content_length,
        ) == 0,
{
}

/// The known sizes: what was recorded of a key is known of it until it is
/// forgotten, a reply without a size teaches nothing, and no other key, nor
/// the bucket or the label, is touched.
pub proof fn law_known_sizes(
    drive: DriveView,
    key: Seq<char>,
    size: u64,
    content_length: i64,
    other: Seq<char>,
)
    ensures
        drive.known_size(key) is Some <==> drive.sizes.contains_key(key),
        drive.known_size(key) is Some ==> drive.known_size(key)->0 == drive.sizes[key],
        drive.recorded(key, size).known_size(key) == Some(size),
        drive.forgotten(key).known_size(key) is None,
        drive.learned(key, None) == drive,
        content_length >= 0 ==> drive.learned(key, Some(content_length)).known_size(key) == Some(
            content_length as u64,
        ),
        content_length < 0 ==> drive.learned(key, Some(content_length)).known_size(key) == Some(
            0u64,
        ),
        other != key ==> {
            &&& drive.recorded(key, size).known_size(other) == drive.known_size(other)
            &&& drive.forgotten(key).known_size(other) == drive.known_size(other)
            &&& drive.learned(key, Some(content_length)).known_size(other) == drive.known_size(
                other,
            )
        },
        ({
            let changed = seq![
                drive.recorded(key, size),
                drive.forgotten(key),
                drive.learned(key, Some(content_length)),
            ];
            forall|i: int|
                0 <= i < changed.len() ==> (#[trigger] changed[i]).bucket == drive.bucket
                    && changed[i].label == drive.label
        }),
{
}

/// What a close leaves known: the size of what was stored, nothing of what
/// was deleted, and all as it was where the service failed.
pub proof fn law_close_keeps_sizes_right(
    drive: DriveView,
    key: Seq<char>,
    bytes: Seq<u8>,
    other: Seq<char>,
)
    requires
        other != key,
    ensures
        ({
            let stored = drive.closed(RequestView::Put { key, bytes }, true);
            let deleted = drive.closed(RequestView::Delete { key }, true);
            &&& stored.known_size(key) == Some(bytes.len() as u64)
            &&& deleted.known_size(key) is None
            &&& stored.known_size(other) == drive.known_size(other)
            &&& deleted.known_size(other) == drive.known_size(other)
            &&& stored.bucket == drive.bucket && stored.label == drive.label
            &&& deleted.bucket == drive.bucket && deleted.label == drive.label
            &&& drive.closed(RequestView::Put { key, bytes }, false) == drive
            &&& drive.closed(RequestView::Delete { key }, false) == drive
        }),
{
}

/// A name is answered for from the known sizes alone, and asked for exactly
/// where nothing is known of it. It opens as a file with that size, nothing
/// staged, and not as a directory.
pub proof fn law_names_go_by_known_sizes(
    drive: DriveView,
    path: Seq<char>,
    key: Seq<char>,
    create_options: u32,
)
    requires
        !is_root(path),
        key_of_path(path) == Some(key),
    ensures
        drive.known_size(key) is None ==> {
            &&& drive.security_step(path) == StepView::<FileSecurity>::Ask(
                RequestView::Head { key },
            )
            &&& create_options % 2 == 0 ==> drive.open_step(path, create_options) == StepView::<
                (HandleView, FileInfo),
            >::Ask(RequestView::Head { key })
        },
        drive.known_size(key) is Some ==> {
            let size = drive.known_size(key)->0;
            &&& drive.security_step(path) matches StepView::Done(Ok(security))
                && security.attributes == 0x20 && !security.reparse
                && security.sz_security_descriptor == 0
            &&& create_options % 2 == 0 ==> (drive.open_step(path, create_options) matches
                StepView::Done(Ok((handle, info))) && info.file_attributes == 0x20
                && info.file_size == size && info.allocation_size == size && handle.key == Some(key)
                && !handle.is_dir && !handle.is_new && !handle.dirty && !handle.delete_pending
                && handle.data.len() == 0)
        },
        create_options % 2 == 1 ==> drive.open_step(path, create_options) == StepView::<
            (HandleView, FileInfo),
        >::Done(Err(FsError::NotFound)),
{
    law_driver_numbers(0, 0, create_options);
}

/// A path that names nothing is not found, and the root is a directory that
/// opens with whatever options.
pub proof fn law_root_and_nothing(drive: DriveView, path: Seq<char>, create_options: u32)
    ensures
        is_root(path) ==> {
            &&& drive.security_step(path) matches StepView::Done(Ok(security))
                && security.attributes == 0x10 && !security.reparse
                && security.sz_security_descriptor == 0
            &&& drive.open_step(path, create_options) matches StepView::Done(Ok((handle, info)))
                && info.file_attributes == 0x10 && info.file_size == 0 && info.allocation_size == 0
                && handle.is_dir && handle.key is None
            &&& create_outcome(path, create_options) matches Err(FsError::AlreadyExists)
        },
        !is_root(path) && key_of_path(path) is None ==> {
            &&& drive.security_step(path) matches StepView::Done(Err(FsError::NotFound))
            &&& drive.open_step(path, create_options) matches StepView::Done(
                Err(FsError::NotFound),
            )
            &&& create_outcome(path, create_options) matches Err(
                FsError::InvalidInput(Invalid::FileName),
            )
        },
{
}

/// Every top-level name can be created, as an empty file that is still to be
/// stored; as a directory none can, and under a nested key nothing can.
pub proof fn law_top_level_files_can_be_created(
    path: Seq<char>,
    key: Seq<char>,
    create_options: u32,
)
    requires
        !is_root(path),
        key_of_path(path) == Some(key),
    ensures
        key.contains('/') ==> (create_outcome(path, create_options) matches Err(
            FsError::InvalidInput(Invalid::NestedPath),
        )),
        !key.contains('/') && create_options % 2 == 1 ==> (create_outcome(path, create_options)
            matches Err(FsError::InvalidInput(Invalid::Subdirectory))),
        !key.contains('/') && create_options % 2 == 0 ==> (create_outcome(path, create_options)
            matches Ok((handle, info)) && info.file_attributes == 0x20 && info.file_size == 0
            && info.allocation_size == 0 && handle.key == Some(key) && handle.is_new
            && !handle.is_dir && !handle.dirty && !handle.delete_pending && handle.data.len()
            == 0),
{
    law_driver_numbers(0, 0, create_options);
}

/// What the driver is told of a file is the number of staged bytes where they
/// are not stored yet, and else the known size, which is asked for exactly
/// where it is not known.
pub proof fn law_told_sizes(drive: DriveView, handle: HandleView, key: Seq<char>)
    ensures
        handle.is_dir ==> (drive.info_step(handle) matches StepView::Done(Ok(info))
            && info.file_attributes == 0x10 && info.file_size == 0 && info.allocation_size == 0),
        !handle.is_dir && handle.key is None ==> (drive.info_step(handle) matches StepView::Done(
            Err(FsError::NotFound),
        )),
        !handle.is_dir && handle.key == Some(key) ==> {
            let size = if handle.dirty || handle.is_new {
                Some(handle.data.len() as u64)
            } else {
                drive.known_size(key)
            };
            &&& size is Some ==> (drive.info_step(handle) matches StepView::Done(Ok(info))
                && info.file_attributes == 0x20 && info.file_size == size->0
                && info.allocation_size == size->0)
            &&& size is None ==> drive.info_step(handle) == StepView::<FileInfo>::Ask(
                RequestView::Head { key },
            )
        },
{
}

/// A read gives all the bytes that are left, as far as the buffer has room:
/// the rest of the data where it ends inside the buffer, and a full buffer
/// where it does not. What is behind them in the buffer stays. So a read from
/// the start into a buffer at least as long as the file gives the whole file.
pub proof fn law_read_gives_all_that_is_left(
    data: Seq<u8>,
    offset: nat,
    before: Seq<u8>,
    after: Seq<u8>,
)
    requires
        is_read(before, after, data, offset),
    ensures
        after.len() == before.len(),
        offset >= data.len() ==> after == before && window_len(data, offset, before.len()) == 0,
        offset <= data.len() && data.len() - offset <= before.len() ==> {
            let rest = (data.len() - offset) as int;
            &&& window_len(data, offset, before.len()) == rest
            &&& after.take(rest) == data.skip(offset as int)
            &&& after.skip(rest) == before.skip(rest)
        },
        offset <= data.len() && data.len() - offset > before.len() ==> {
            &&& window_len(data, offset, before.len()) == before.len()
            &&& after == data.subrange(offset as int, (offset + before.len()) as int)
        },
        offset == 0 && before.len() >= data.len() ==> after.take(data.len() as int) == data,
{
    if offset >= data.len() {
        assert(after =~= before);
    }
    if offset <= data.len() && data.len() - offset <= before.len() {
        let rest = (data.len() - offset) as int;
        assert(after.take(rest) =~= data.skip(offset as int));
        assert(after.skip(rest) =~= before.skip(rest));
        assert(data.skip(0) =~= data);
    }
    if offset <= data.len() && data.len() - offset > before.len() {
        assert(after =~= data.subrange(offset as int, (offset + before.len()) as int));
    }
}

/// Two reads, the second from where the first ended, give what one read into
/// both buffers gives.
pub proof fn law_reads_continue(data: Seq<u8>, offset: nat, first: nat, second: nat)
    ensures
        ({
            let count = window_len(data, offset, first);
            let next = window_len(data, offset + count, second);
            count == first ==> count + next == window_len(data, offset, first + second)
        }),
        window_len(data, offset, first) < first ==> window_len(
            data,
            offset + window_len(data, offset, first),
            second,
        ) == 0,
{
}

/// A write tells the number of its bytes and the length of the file.
pub proof fn law_writes_tell_the_length(handle: HandleView, at: nat, bytes: Seq<u8>)
    ensures
        ({
            let told = written_view(handle.written(at, bytes), bytes);
            let end = at + bytes.len();
            &&& told.count == bytes.len() as u32
            &&& end <= handle.data.len() ==> told.file_size == handle.data.len() as u64
            &&& end > handle.data.len() ==> told.file_size == end as u64
        }),
{
    law_overwrite(handle.data, at, bytes);
}

/// A rename of a file to another top-level key checks the target first
/// exactly where replacing was not asked for, whatever is known of the sizes,
/// and is between the key of the file and that of the path.
pub proof fn law_rename_checks_the_target(
    drive: DriveView,
    handle: HandleView,
    old_key: Seq<char>,
    new_path: Seq<char>,
    new_key: Seq<char>,
)
    requires
        !handle.is_dir,
        handle.key == Some(old_key),
        key_of_path(new_path) == Some(new_key),
        !new_key.contains('/'),
    ensures
        old_key != new_key ==> {
            &&& drive.rename_step(handle, new_path, false) == RenameStepView::CheckTarget(
                RenameView { old_key, new_key },
            )
            &&& drive.rename_step(handle, new_path, true) == RenameStepView::Transfer(
                RenameView { old_key, new_key },
            )
        },
        old_key == new_key ==> forall|replace_if_exists: bool|
            (#[trigger] drive.rename_step(handle, new_path, replace_if_exists))
                == RenameStepView::Done(Ok(())),
{
}

/// Renames are refused of directories, to paths that name nothing, and to
/// nested keys, in that order.
pub proof fn law_refused_renames(
    drive: DriveView,
    handle: HandleView,
    new_path: Seq<char>,
    replace_if_exists: bool,
)
    ensures
        handle.is_dir ==> (drive.rename_step(handle, new_path, replace_if_exists) matches
            RenameStepView::Done(Err(FsError::InvalidInput(Invalid::DirectoryRename)))),
        !handle.is_dir && key_of_path(new_path) is None ==> (drive.rename_step(
            handle,
            new_path,
            replace_if_exists,
        ) matches RenameStepView::Done(Err(FsError::InvalidInput(Invalid::TargetName)))),
        !handle.is_dir && key_of_path(new_path) is Some && key_of_path(new_path)->0.contains('/')
            ==> (drive.rename_step(handle, new_path, replace_if_exists) matches
            RenameStepView::Done(Err(FsError::InvalidInput(Invalid::NestedPath)))),
        !handle.is_dir && key_of_path(new_path) is Some && !key_of_path(new_path)->0.contains('/')
            && handle.key is None ==> (drive.rename_step(handle, new_path, replace_if_exists)
            matches RenameStepView::Done(Err(FsError::NotFound))),
{
}

/// What the service replies to a size request: the length of the object, or
/// nothing where there is none.
pub open spec fn head_reply(store: Store, key: Seq<char>) -> Option<i64> {
    if store.contains_key(key) {
        Some(store[key].len() as i64)
    } else {
        None
    }
}

/// The objects of the bucket after a rename, where the service serves what it
/// is asked.
pub open spec fn store_after_rename(
    drive: DriveView,
    handle: HandleView,
    new_path: Seq<char>,
    replace_if_exists: bool,
    store: Store,
) -> Store {
    match drive.rename_step(handle, new_path, replace_if_exists) {
        RenameStepView::Done(_) => store,
        RenameStepView::Transfer(rename) => store_after_transfer(drive, handle, rename, store),
        RenameStepView::CheckTarget(rename) => if spec_head_size(
            head_reply(store, rename.new_key),
        ) is Some {
            store
        } else {
            store_after_transfer(drive, handle, rename, store)
        },
    }
}

/// The objects of the bucket after a rename moved the contents and deleted
/// the old key.
pub open spec fn store_after_transfer(
    drive: DriveView,
    handle: HandleView,
    rename: RenameView,
    store: Store,
) -> Store {
    served(
        served(store, drive.bucket, drive.transfer_request(handle, rename)),
        drive.bucket,
        RequestView::Delete { key: rename.old_key },
    )
}

/// Without replacing, a rename overwrites nothing: every object but the
/// renamed one is kept as it was, and where the target exists, so is that
/// one. Replacing or not, no object apart from the two keys changes.
pub proof fn law_rename_overwrites_nothing(
    drive: DriveView,
    handle: HandleView,
    old_key: Seq<char>,
    new_path: Seq<char>,
    store: Store,
    other: Seq<char>,
)
    requires
        handle.key == Some(old_key),
        store.contains_key(other),
        other != old_key,
    ensures
        ({
            let after = store_after_rename(drive, handle, new_path, false, store);
            &&& after.contains_key(other) && after[other] == store[other]
            &&& key_of_path(new_path) == Some(other) ==> after == store
        }),
        key_of_path(new_path) != Some(other) ==> {
            let after = store_after_rename(drive, handle, new_path, true, store);
            after.contains_key(other) && after[other] == store[other]
        },
{
}

/// What a rename asks for: staged changes are stored whole under the new key,
/// and else the service copies the old object, named by bucket, slash and
/// key, to the new key.
pub proof fn law_rename_requests(drive: DriveView, handle: HandleView, rename: RenameView)
    ensures
        handle.dirty ==> drive.transfer_request(handle, rename) == (RequestView::Put {
            key: rename.new_key,
            bytes: handle.data,
        }),
        !handle.dirty ==> (drive.transfer_request(handle, rename) matches RequestView::Copy {
            source,
            key,
        } && key == rename.new_key && source == drive.bucket.push('/') + rename.old_key),
{
    assert(drive.bucket + seq!['/'] =~= drive.bucket.push('/'));
}

/// A rename teaches the size of the new key and nothing else: the staged
/// length, or what was known of the old key, and where nothing was, nothing.
pub proof fn law_rename_teaches_one_size(
    drive: DriveView,
    handle: HandleView,
    rename: RenameView,
    other: Seq<char>,
)
    ensures
        ({
            let after = drive.transferred(handle, rename);
            &&& handle.dirty ==> after.known_size(rename.new_key) == Some(
                handle.data.len() as u64,
            )
            &&& !handle.dirty && drive.known_size(rename.old_key) is Some ==> after.known_size(
                rename.new_key,
            ) == drive.known_size(rename.old_key)
            &&& !handle.dirty && drive.known_size(rename.old_key) is None ==> after == drive
            &&& other != rename.new_key ==> after.known_size(other) == drive.known_size(other)
            &&& after.bucket == drive.bucket && after.label == drive.label
        }),
{
}

/// Each further entry of a listing makes the size of its key known and leaves
/// what is known of all others; an empty listing teaches nothing.
pub proof fn law_listed_sizes_are_known(
    drive: DriveView,
    entries: Seq<(Seq<char>, u64)>,
    key: Seq<char>,
    size: u64,
)
    ensures
        drive.listed(Seq::empty()) == drive,
        drive.listed(entries.push((key, size))).known_size(key) == Some(size),
        forall|other: Seq<char>|
            other != key ==> #[trigger] drive.listed(entries.push((key, size))).known_size(other)
                == drive.listed(entries).known_size(other),
{
    assert(entries.push((key, size)).drop_last() =~= entries);
}

/// Requests, steps and outcomes as contracts speak of them hold all that is
/// asked for or handed back.
pub proof fn law_requests_are_seen_whole(key: String, source: String, bytes: Vec<u8>)
    ensures
        (Request::Head { key })@ == (RequestView::Head { key: key@ }),
        (Request::Get { key })@ == (RequestView::Get { key: key@ }),
        (Request::Put { key, bytes })@ == (RequestView::Put { key: key@, bytes: bytes@ }),
        (Request::Copy { source, key })@ == (RequestView::Copy { source: source@, key: key@ }),
        (Request::Delete { key })@ == (RequestView::Delete { key: key@ }),
        (Request::Put { key, bytes }).deep_view() == (Request::Put { key, bytes })@,
        (Request::Delete { key }).deep_view() == (Request::Delete { key })@,
{
}

/// A step as contracts speak of it is the outcome, or all of the request.
pub proof fn law_steps_are_seen_whole<T>(outcome: Result<T, FsError>, request: Request)
    ensures
        Step::Done(outcome)@ == StepView::Done(outcome),
        Step::<T>::Ask(request)@ == StepView::<T>::Ask(request@),
{
}

/// An open, a listing and a rename as contracts speak of them hold all that
/// is handed back.
pub proof fn law_outcomes_are_seen_whole(
    opened: Opened,
    error: FsError,
    request: Request,
    entries: Seq<(String, u64)>,
    rename: Rename,
    done: Result<(), FsError>,
)
    ensures
        opened_view(Ok(opened)) == Ok::<(HandleView, FileInfo), FsError>(
            (opened.context@, opened.info),
        ),
        opened_view(Err(error)) == Err::<(HandleView, FileInfo), FsError>(error),
        opened_step(Step::Done(Ok(opened))) == StepView::Done(
            Ok::<(HandleView, FileInfo), FsError>((opened.context@, opened.info)),
        ),
        opened_step(Step::Done(Err(error))) == StepView::<(HandleView, FileInfo)>::Done(Err(error)),
        opened_step(Step::Ask(request)) == StepView::<(HandleView, FileInfo)>::Ask(request@),
        entries_view(entries).len() == entries.len(),
        forall|i: int|
            0 <= i < entries.len() ==> (#[trigger] entries_view(entries)[i]).0 == entries[i].0@
                && entries_view(entries)[i].1 == entries[i].1,
        RenameStep::Done(done)@ == RenameStepView::Done(done),
        RenameStep::CheckTarget(rename)@ == RenameStepView::CheckTarget(rename@),
        RenameStep::Transfer(rename)@ == RenameStepView::Transfer(rename@),
{
}

} // verus!
