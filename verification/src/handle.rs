//! Open handles: the root directory, or a file with its staged contents.

use vstd::prelude::*;

#[allow(unused_imports)]
use crate::bytes::{law_overwrite, overwritten, resized, window_len};
use crate::bytes::{copy_window, overwrite, resize};
#[allow(unused_imports)]
use crate::fs_mapping::is_canonical_key;
#[allow(unused_imports)]
use crate::service::RequestView;

verus! {

/// The contents of a file that a handle holds in memory.
#[derive(Debug)]
pub struct StagedBytes {
    data: Vec<u8>,
    /// True while `data` holds what the storage service does not.
    dirty: bool,
}

impl StagedBytes {
    pub closed spec fn bytes(self) -> Seq<u8> {
        self.data@
    }

    pub closed spec fn is_dirty(self) -> bool {
        self.dirty
    }
}

impl Default for StagedBytes {
    fn default() -> (staged: Self)
        ensures
            staged.bytes() == Seq::<u8>::empty(),
            !staged.is_dirty(),
    {
        StagedBytes { data: Vec::new(), dirty: false }
    }
}

/// Per-handle state for an open file or the root directory.
#[derive(Debug)]
pub struct S3FileContext {
    /// Object key for files; `None` for the root directory.
    key: Option<String>,
    is_dir: bool,
    /// True for handles of created files that have not been uploaded yet, so
    /// even an empty file materialises on close.
    is_new: bool,
    delete_pending: bool,
    staging: StagedBytes,
}

/// An [`S3FileContext`] as contracts speak of it.
#[verifier::ext_equal]
pub struct HandleView {
    pub key: Option<Seq<char>>,
    pub is_dir: bool,
    pub is_new: bool,
    pub delete_pending: bool,
    pub data: Seq<u8>,
    pub dirty: bool,
}

impl HandleView {
    /// A fresh handle on the root directory.
    pub open spec fn directory() -> HandleView {
        HandleView {
            key: None,
            is_dir: true,
            is_new: false,
            delete_pending: false,
            data: Seq::empty(),
            dirty: false,
        }
    }

    /// A fresh handle on a stored object.
    pub open spec fn existing(key: Seq<char>) -> HandleView {
        HandleView {
            key: Some(key),
            is_dir: false,
            is_new: false,
            delete_pending: false,
            data: Seq::empty(),
            dirty: false,
        }
    }

    /// A fresh handle on a file that is not stored yet.
    pub open spec fn created(key: Seq<char>) -> HandleView {
        HandleView { is_new: true, ..HandleView::existing(key) }
    }

    /// What holds of every handle: a file has a canonical key, and the root
    /// directory has neither a key nor contents.
    pub open spec fn wf(self) -> bool {
        &&& self.is_dir <==> self.key is None
        &&& self.key matches Some(key) ==> is_canonical_key(key)
        &&& self.is_dir ==> !self.is_new && !self.dirty && self.data.len() == 0
    }

    /// A handle on a file.
    pub open spec fn is_file(self) -> bool {
        !self.is_dir && self.key is Some
    }

    /// Nothing is staged: no bytes, and no change to them.
    pub open spec fn is_unloaded(self) -> bool {
        !self.dirty && self.data.len() == 0
    }

    /// What is staged still has to reach the storage service.
    pub open spec fn needs_upload(self) -> bool {
        self.dirty || self.is_new
    }

    /// The stored bytes have to be fetched before the contents are used.
    pub open spec fn needs_fetch(self) -> bool {
        self.is_unloaded() && !self.is_new
    }

    /// With fetched bytes staged where nothing was.
    pub open spec fn fetched(self, bytes: Seq<u8>) -> HandleView {
        if self.is_unloaded() {
            HandleView { data: bytes, ..self }
        } else {
            self
        }
    }

    pub open spec fn written(self, offset: nat, bytes: Seq<u8>) -> HandleView {
        HandleView { data: overwritten(self.data, offset, bytes), dirty: true, ..self }
    }

    pub open spec fn resized(self, len: nat) -> HandleView {
        HandleView { data: resized(self.data, len), dirty: true, ..self }
    }

    /// With the staged bytes stored.
    pub open spec fn uploaded(self) -> HandleView {
        HandleView { is_new: false, dirty: false, ..self }
    }

    pub open spec fn renamed(self, key: Seq<char>) -> HandleView {
        HandleView { key: Some(key), ..self }
    }

    pub open spec fn with_delete(self, pending: bool) -> HandleView {
        HandleView { delete_pending: pending, ..self }
    }

    /// What closing the handle asks for: a file marked for deletion is
    /// deleted, else contents that were not stored yet are stored.
    pub open spec fn close_request(self) -> Option<RequestView> {
        if !self.is_file() {
            None
        } else if self.delete_pending {
            Some(RequestView::Delete { key: self.key->0 })
        } else if self.needs_upload() {
            Some(RequestView::Put { key: self.key->0, bytes: self.data })
        } else {
            None
        }
    }

    /// What flushing the handle asks for: staged changes of a file that is
    /// not marked for deletion are stored.
    pub open spec fn flush_request(self) -> Option<RequestView> {
        if self.is_file() && !self.delete_pending && self.dirty {
            Some(RequestView::Put { key: self.key->0, bytes: self.data })
        } else {
            None
        }
    }
}

impl View for S3FileContext {
    type V = HandleView;

    closed spec fn view(&self) -> HandleView {
        HandleView {
            key: self.key.deep_view(),
            is_dir: self.is_dir,
            is_new: self.is_new,
            delete_pending: self.delete_pending,
            data: self.staging.data@,
            dirty: self.staging.dirty,
        }
    }
}

impl S3FileContext {
    /// A handle on the root directory.
    pub fn dir() -> (handle: Self)
        ensures
            handle@ == HandleView::directory(),
            handle@.wf(),
    {
        S3FileContext {
            key: None,
            is_dir: true,
            is_new: false,
            delete_pending: false,
            staging: StagedBytes::default(),
        }
    }

    /// A handle on the stored object `key`.
    pub(crate) fn file(key: String) -> (handle: Self)
        ensures
            handle@ == HandleView::existing(key@),
            is_canonical_key(key@) ==> handle@.wf(),
    {
        S3FileContext {
            key: Some(key),
            is_dir: false,
            is_new: false,
            delete_pending: false,
            staging: StagedBytes::default(),
        }
    }

    /// A handle on the file `key`, which is not stored yet.
    pub(crate) fn new_file(key: String) -> (handle: Self)
        ensures
            handle@ == HandleView::created(key@),
            is_canonical_key(key@) ==> handle@.wf(),
    {
        S3FileContext {
            key: Some(key),
            is_dir: false,
            is_new: true,
            delete_pending: false,
            staging: StagedBytes::default(),
        }
    }

    pub fn key(&self) -> (key: Option<String>)
        ensures
            key.deep_view() == self@.key,
    {
        match &self.key {
            Some(key) => Some(key.clone()),
            None => None,
        }
    }

    pub fn is_dir(&self) -> (is_dir: bool)
        ensures
            is_dir == self@.is_dir,
    {
        self.is_dir
    }

    pub fn delete_pending(&self) -> (pending: bool)
        ensures
            pending == self@.delete_pending,
    {
        self.delete_pending
    }

    /// True while the staged bytes hold what the storage service does not.
    pub fn is_dirty(&self) -> (dirty: bool)
        ensures
            dirty == self@.dirty,
    {
        self.staging.dirty
    }

    pub fn is_unloaded(&self) -> (unloaded: bool)
        ensures
            unloaded == self@.is_unloaded(),
    {
        !self.staging.dirty && self.staging.data.len() == 0
    }

    pub fn needs_upload(&self) -> (needed: bool)
        ensures
            needed == self@.needs_upload(),
    {
        self.staging.dirty || self.is_new
    }

    pub fn needs_fetch(&self) -> (needed: bool)
        ensures
            needed == self@.needs_fetch(),
    {
        self.is_unloaded() && !self.is_new
    }

    /// The number of staged bytes.
    pub fn staged_len(&self) -> (len: u64)
        ensures
            len == self@.data.len(),
    {
        self.staging.data.len() as u64
    }

    /// A copy of the staged bytes.
    pub fn staged_bytes(&self) -> (bytes: Vec<u8>)
        ensures
            bytes@ == self@.data,
    {
        self.staging.data.clone()
    }

    /// The staged bytes, moved out of the handle.
    pub(crate) fn into_staged_bytes(self) -> (bytes: Vec<u8>)
        ensures
            bytes@ == self@.data,
    {
        self.staging.data
    }

    /// Stages fetched bytes where nothing is staged.
    pub(crate) fn accept_fetched(&mut self, bytes: Vec<u8>)
        ensures
            final(self)@ == old(self)@.fetched(bytes@),
    {
        if self.is_unloaded() {
            self.staging.data = bytes;
        }
    }

    /// Copies staged bytes from `offset` on into `buffer` and returns their
    /// number.
    pub(crate) fn read_staged(&self, buffer: &mut [u8], offset: usize) -> (count: usize)
        ensures
            count == window_len(self@.data, offset as nat, old(buffer)@.len()),
            final(buffer)@.len() == old(buffer)@.len(),
            forall|i: int|
                0 <= i < old(buffer)@.len() ==> #[trigger] final(buffer)@[i] == (if i < count {
                    self@.data[offset + i]
                } else {
                    old(buffer)@[i]
                }),
    {
        copy_window(&self.staging.data, offset, buffer)
    }

    /// Stages `bytes` at `offset`.
    pub(crate) fn stage_write(&mut self, bytes: &[u8], offset: usize)
        requires
            offset + bytes@.len() <= isize::MAX,
        ensures
            final(self)@ == old(self)@.written(offset as nat, bytes@),
    {
        overwrite(&mut self.staging.data, offset, bytes);
        self.staging.dirty = true;
    }

    /// Cuts or zero-fills the staged bytes to `len`.
    pub(crate) fn stage_resize(&mut self, len: usize)
        requires
            len <= isize::MAX,
        ensures
            final(self)@ == old(self)@.resized(len as nat),
    {
        resize(&mut self.staging.data, len);
        self.staging.dirty = true;
    }

    /// Records that the staged bytes are stored.
    pub(crate) fn mark_uploaded(&mut self)
        ensures
            final(self)@ == old(self)@.uploaded(),
    {
        self.is_new = false;
        self.staging.dirty = false;
    }

    pub(crate) fn set_key(&mut self, key: String)
        ensures
            final(self)@ == old(self)@.renamed(key@),
    {
        self.key = Some(key);
    }

    pub(crate) fn set_delete_pending(&mut self, pending: bool)
        ensures
            final(self)@ == old(self)@.with_delete(pending),
    {
        self.delete_pending = pending;
    }
}

/// What a fresh handle is: the root without key or contents, a file with its
/// key and nothing staged, and new exactly where it was created.
pub proof fn law_fresh_handles(key: Seq<char>)
    ensures
        ({
            let root = HandleView::directory();
            &&& root.is_dir && root.key is None
            &&& !root.is_new && !root.delete_pending && !root.dirty && root.data.len() == 0
        }),
        ({
            let file = HandleView::existing(key);
            &&& !file.is_dir && file.key == Some(key)
            &&& !file.is_new && !file.delete_pending && !file.dirty && file.data.len() == 0
        }),
        ({
            let file = HandleView::created(key);
            &&& !file.is_dir && file.key == Some(key)
            &&& file.is_new && !file.delete_pending && !file.dirty && file.data.len() == 0
        }),
{
}

/// When a handle is a file, has nothing staged, has something to store, or
/// has to fetch its contents first.
pub proof fn law_handle_states(handle: HandleView)
    ensures
        handle.is_file() <==> handle.key is Some && !handle.is_dir,
        handle.is_unloaded() <==> handle.data.len() == 0 && !handle.dirty,
        handle.needs_upload() <==> handle.is_new || handle.dirty,
        handle.needs_fetch() <==> handle.data.len() == 0 && !handle.dirty && !handle.is_new,
        handle.wf() ==> (handle.is_file() <==> !handle.is_dir),
{
}

/// Two handles differ in what is staged at most.
pub open spec fn same_but_staging(a: HandleView, b: HandleView) -> bool {
    &&& a.key == b.key
    &&& a.is_dir == b.is_dir
    &&& a.is_new == b.is_new
    &&& a.delete_pending == b.delete_pending
}

/// What each change does to a handle, and that it changes nothing else: a
/// write and a resize change the contents and have them stored later, fetched
/// bytes are taken only where nothing is staged, an upload keeps the contents
/// and leaves nothing to store, a rename changes the key, and a mark for
/// deletion is just set.
pub proof fn law_handle_changes(
    handle: HandleView,
    at: nat,
    bytes: Seq<u8>,
    key: Seq<char>,
    pending: bool,
)
    ensures
        same_but_staging(handle.written(at, bytes), handle) && handle.written(at, bytes).dirty,
        same_but_staging(handle.resized(at), handle) && handle.resized(at).dirty,
        same_but_staging(handle.fetched(bytes), handle) && handle.fetched(bytes).dirty
            == handle.dirty,
        handle.dirty || handle.data.len() > 0 ==> handle.fetched(bytes) == handle,
        !handle.dirty && handle.data.len() == 0 ==> handle.fetched(bytes).data == bytes,
        ({
            let stored = handle.uploaded();
            &&& !stored.dirty && !stored.is_new
            &&& stored.data == handle.data && stored.key == handle.key
            &&& stored.is_dir == handle.is_dir && stored.delete_pending == handle.delete_pending
        }),
        ({
            let moved = handle.renamed(key);
            &&& moved.key == Some(key)
            &&& moved.data == handle.data && moved.dirty == handle.dirty
            &&& moved.is_dir == handle.is_dir && moved.is_new == handle.is_new
            &&& moved.delete_pending == handle.delete_pending
        }),
        ({
            let marked = handle.with_delete(pending);
            &&& marked.delete_pending == pending
            &&& marked.key == handle.key && marked.is_dir == handle.is_dir
            &&& marked.is_new == handle.is_new
            &&& marked.data == handle.data && marked.dirty == handle.dirty
        }),
{
}

/// A write leaves the contents exactly as long as before or as its last byte
/// asks, whichever is more, with the bytes at their offset.
pub proof fn law_file_is_as_long_as_its_last_byte(handle: HandleView, at: nat, bytes: Seq<u8>)
    ensures
        ({
            let after = handle.written(at, bytes).data;
            let end = at + bytes.len();
            &&& end <= handle.data.len() ==> after.len() == handle.data.len()
            &&& end > handle.data.len() ==> after.len() == end
            &&& after.subrange(at as int, end as int) == bytes
        }),
{
    law_overwrite(handle.data, at, bytes);
}

/// Closing a file deletes it where it is marked, and else stores all that is
/// staged where that was not stored yet; flushing stores staged changes of a
/// file that is not marked. Nothing else is asked for, and nothing at all of
/// the root.
pub proof fn law_close_and_flush(handle: HandleView, key: Seq<char>)
    ensures
        handle.is_dir || handle.key is None ==> handle.close_request() is None
            && handle.flush_request() is None,
        !handle.is_dir && handle.key == Some(key) ==> {
            &&& handle.delete_pending ==> handle.close_request() == Some(
                RequestView::Delete { key },
            ) && handle.flush_request() is None
            &&& !handle.delete_pending && handle.dirty ==> handle.close_request() == Some(
                RequestView::Put { key, bytes: handle.data },
            ) && handle.flush_request() == Some(RequestView::Put { key, bytes: handle.data })
            &&& !handle.delete_pending && !handle.dirty ==> handle.flush_request() is None
            &&& !handle.delete_pending && !handle.dirty && handle.is_new
                ==> handle.close_request() == Some(RequestView::Put { key, bytes: handle.data })
            &&& !handle.delete_pending && !handle.dirty && !handle.is_new
                ==> handle.close_request() is None
        },
{
}

} // verus!
