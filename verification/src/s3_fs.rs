//! A storage bucket presented as a flat drive.
//!
//! - File writes are staged in memory per open handle and stored with one
//!   upload when the handle is closed (or flushed).
//! - Enumerating the root directory lists the bucket.
//!
//! The drive has a flat namespace: only the root directory exists and only
//! top-level keys (no `/`) are enumerated. Nested keys created through other
//! tools stay directly addressable but are hidden from listings.
//!
//! Each callback of the volume driver is one or more decisions. A decision
//! that needs the storage service comes to a [`Step::Ask`]; the reply goes to
//! the decision named after it.

use vstd::hash_map::StringHashMap;
use vstd::prelude::*;

#[allow(unused_imports)]
use crate::bytes::window_len;
use crate::fs_mapping::{file_name_from_key, is_root_path, s3_key_from_win_path};
#[allow(unused_imports)]
use crate::fs_mapping::{base_name, is_canonical_key, is_root, key_of_path, law_keys_are_canonical};
#[allow(unused_imports)]
use crate::handle::HandleView;
use crate::handle::S3FileContext;
#[allow(unused_imports)]
use crate::service::{RequestView, StepView};
use crate::service::{FsError, Invalid, Request, Step};
use crate::text::contains_char;
use crate::wide::decode_name;
#[allow(unused_imports)]
use crate::wide::utf16_text;

verus! {

pub const FILE_ATTRIBUTE_DIRECTORY: u32 = 0x10;

pub const FILE_ATTRIBUTE_ARCHIVE: u32 = 0x20;

/// Set in the create options when the caller wants a directory.
pub const CREATE_OPTION_DIRECTORY_FILE: u32 = 0x0000_0001;

/// Set in the cleanup flags when the file is being deleted.
pub const CLEANUP_DELETE: u32 = 0x01;

/// The name that the drive reports for its kind of filesystem.
pub const FILESYSTEM_NAME: &'static str = "ISE";

/// What the volume driver is told of a file or directory.
#[derive(Debug, Clone, Copy, PartialEq, Eq, Structural)]
pub struct FileInfo {
    pub file_attributes: u32,
    pub file_size: u64,
    pub allocation_size: u64,
}

impl FileInfo {
    pub open spec fn spec_directory() -> FileInfo {
        FileInfo {
            file_attributes: FILE_ATTRIBUTE_DIRECTORY,
            file_size: 0,
            allocation_size: 0,
        }
    }

    pub open spec fn spec_file(size: u64) -> FileInfo {
        FileInfo {
            file_attributes: FILE_ATTRIBUTE_ARCHIVE,
            file_size: size,
            allocation_size: size,
        }
    }

    /// The root directory.
    pub fn directory() -> (info: FileInfo)
        ensures
            info == FileInfo::spec_directory(),
    {
        FileInfo { file_attributes: FILE_ATTRIBUTE_DIRECTORY, file_size: 0, allocation_size: 0 }
    }

    /// A file of `size` bytes.
    pub fn file(size: u64) -> (info: FileInfo)
        ensures
            info == FileInfo::spec_file(size),
    {
        FileInfo { file_attributes: FILE_ATTRIBUTE_ARCHIVE, file_size: size, allocation_size: size }
    }
}

/// What the volume driver is told of the security of a name.
#[derive(Debug, Clone, Copy, PartialEq, Eq, Structural)]
pub struct FileSecurity {
    pub reparse: bool,
    pub sz_security_descriptor: u64,
    pub attributes: u32,
}

impl FileSecurity {
    pub open spec fn spec_of(attributes: u32) -> FileSecurity {
        FileSecurity { reparse: false, sz_security_descriptor: 0, attributes }
    }

    /// No reparse point and no descriptor, with the given attributes.
    pub fn of(attributes: u32) -> (security: FileSecurity)
        ensures
            security == FileSecurity::spec_of(attributes),
    {
        FileSecurity { reparse: false, sz_security_descriptor: 0, attributes }
    }
}

/// A handle and what the volume driver is told of it.
#[derive(Debug)]
pub struct Opened {
    pub context: S3FileContext,
    pub info: FileInfo,
}

/// What a write comes to.
#[derive(Debug, Clone, Copy, PartialEq, Eq, Structural)]
pub struct Written {
    /// The number of bytes taken.
    pub count: u32,
    /// The size of the file now.
    pub file_size: u64,
}

/// What the volume driver is told of the drive.
#[derive(Debug, PartialEq, Eq)]
pub struct VolumeInfo {
    pub total_size: u64,
    pub free_size: u64,
    pub label: String,
}

/// An entry of the root directory.
#[derive(Debug, PartialEq, Eq)]
pub struct DirEntry {
    pub name: String,
    pub info: FileInfo,
}

/// How a directory read goes on.
#[derive(Debug, Clone, Copy, PartialEq, Eq, Structural)]
pub enum DirectoryStep {
    /// List the bucket first.
    List,
    /// Go on with the entries of the last listing.
    Resume,
}

/// The two keys of a rename under way.
#[derive(Debug)]
pub struct Rename {
    old_key: String,
    new_key: String,
}

/// A [`Rename`] as contracts speak of it.
#[verifier::ext_equal]
pub struct RenameView {
    pub old_key: Seq<char>,
    pub new_key: Seq<char>,
}

impl RenameView {
    /// A rename goes to another, top-level key in canonical form.
    pub open spec fn wf(self) -> bool {
        &&& self.old_key != self.new_key
        &&& is_canonical_key(self.new_key)
        &&& !self.new_key.contains('/')
    }
}

impl View for Rename {
    type V = RenameView;

    closed spec fn view(&self) -> RenameView {
        RenameView { old_key: self.old_key@, new_key: self.new_key@ }
    }
}

impl Rename {
    pub fn old_key(&self) -> (key: &str)
        ensures
            key@ == self@.old_key,
    {
        self.old_key.as_str()
    }

    pub fn new_key(&self) -> (key: &str)
        ensures
            key@ == self@.new_key,
    {
        self.new_key.as_str()
    }
}

/// How a rename starts.
#[derive(Debug)]
pub enum RenameStep {
    Done(Result<(), FsError>),
    /// Ask for the size of the new key: it must not exist.
    CheckTarget(Rename),
    /// Move the contents.
    Transfer(Rename),
}

/// A [`RenameStep`] as contracts speak of it.
#[verifier::ext_equal]
pub enum RenameStepView {
    Done(Result<(), FsError>),
    CheckTarget(RenameView),
    Transfer(RenameView),
}

impl View for RenameStep {
    type V = RenameStepView;

    open spec fn view(&self) -> RenameStepView {
        match *self {
            RenameStep::Done(outcome) => RenameStepView::Done(outcome),
            RenameStep::CheckTarget(rename) => RenameStepView::CheckTarget(rename@),
            RenameStep::Transfer(rename) => RenameStepView::Transfer(rename@),
        }
    }
}

/// The size that the storage service reports for an object, with sizes
/// below zero taken as zero.
pub open spec fn clamped_size(content_length: i64) -> u64 {
    if content_length < 0 {
        0
    } else {
        content_length as u64
    }
}

/// The size in a reply to [`Request::Head`]: none where the object does not
/// exist or its size was not reported.
pub open spec fn spec_head_size(content_length: Option<i64>) -> Option<u64> {
    match content_length {
        Some(n) => Some(clamped_size(n)),
        None => None,
    }
}

/// The size in a reply to [`Request::Head`]: none where the object does not
/// exist or its size was not reported.
pub fn head_size(content_length: Option<i64>) -> (size: Option<u64>)
    ensures
        size == spec_head_size(content_length),
{
    match content_length {
        Some(n) => Some(object_size(n)),
        None => None,
    }
}

/// A reported size, with sizes below zero taken as zero.
pub fn object_size(content_length: i64) -> (size: u64)
    ensures
        size == clamped_size(content_length),
{
    if content_length < 0 {
        0
    } else {
        content_length as u64
    }
}

/// Whether `len` bytes at `offset` can be staged: no buffer in memory is
/// longer than `isize::MAX` bytes.
pub fn can_stage(offset: u64, len: usize) -> (fits: bool)
    ensures
        fits == (offset as usize + len <= isize::MAX),
{
    let start: usize = offset as usize;
    let most: usize = isize::MAX as usize;
    start <= most && len <= most - start
}

/// The caller wants a directory.
pub open spec fn wants_directory(create_options: u32) -> bool {
    create_options & CREATE_OPTION_DIRECTORY_FILE != 0
}

/// A drive as contracts speak of it.
#[verifier::ext_equal]
pub struct DriveView {
    pub bucket: Seq<char>,
    pub label: Seq<char>,
    /// Last-known object sizes.
    pub sizes: Map<Seq<char>, u64>,
}

impl DriveView {
    pub open spec fn known_size(self, key: Seq<char>) -> Option<u64> {
        if self.sizes.contains_key(key) {
            Some(self.sizes[key])
        } else {
            None
        }
    }

    pub open spec fn recorded(self, key: Seq<char>, size: u64) -> DriveView {
        DriveView { sizes: self.sizes.insert(key, size), ..self }
    }

    pub open spec fn forgotten(self, key: Seq<char>) -> DriveView {
        DriveView { sizes: self.sizes.remove(key), ..self }
    }

    /// With the size from a reply to [`Request::Head`], where there is one.
    pub open spec fn learned(self, key: Seq<char>, content_length: Option<i64>) -> DriveView {
        match spec_head_size(content_length) {
            Some(size) => self.recorded(key, size),
            None => self,
        }
    }

    /// The root is a directory; a name whose size is known is a file; a name
    /// whose size is not known is asked for; what is no key is not found.
    pub open spec fn security_step(self, path: Seq<char>) -> StepView<FileSecurity> {
        if is_root(path) {
            StepView::Done(Ok(FileSecurity::spec_of(FILE_ATTRIBUTE_DIRECTORY)))
        } else {
            match key_of_path(path) {
                None => StepView::Done(Err(FsError::NotFound)),
                Some(key) => if self.sizes.contains_key(key) {
                    StepView::Done(Ok(FileSecurity::spec_of(FILE_ATTRIBUTE_ARCHIVE)))
                } else {
                    StepView::Ask(RequestView::Head { key })
                },
            }
        }
    }

    /// Opening goes by the same rules; no name but the root opens as a
    /// directory.
    pub open spec fn open_step(self, path: Seq<char>, create_options: u32) -> StepView<
        (HandleView, FileInfo),
    > {
        if is_root(path) {
            StepView::Done(Ok((HandleView::directory(), FileInfo::spec_directory())))
        } else {
            match key_of_path(path) {
                None => StepView::Done(Err(FsError::NotFound)),
                Some(key) => if wants_directory(create_options) {
                    StepView::Done(Err(FsError::NotFound))
                } else if self.sizes.contains_key(key) {
                    StepView::Done(
                        Ok((HandleView::existing(key), FileInfo::spec_file(self.sizes[key]))),
                    )
                } else {
                    StepView::Ask(RequestView::Head { key })
                },
            }
        }
    }

    /// What the driver is told of a handle: the staged length where it is not
    /// stored yet, else the last-known size.
    pub open spec fn info_step(self, handle: HandleView) -> StepView<FileInfo> {
        if handle.is_dir {
            StepView::Done(Ok(FileInfo::spec_directory()))
        } else {
            match handle.key {
                None => StepView::Done(Err(FsError::NotFound)),
                Some(key) => if handle.needs_upload() {
                    StepView::Done(Ok(FileInfo::spec_file(handle.data.len() as u64)))
                } else if self.sizes.contains_key(key) {
                    StepView::Done(Ok(FileInfo::spec_file(self.sizes[key])))
                } else {
                    StepView::Ask(RequestView::Head { key })
                },
            }
        }
    }

    /// A rename is refused for directories and for targets that are no
    /// top-level key; to the same key it is done at once.
    pub open spec fn rename_step(
        self,
        handle: HandleView,
        new_path: Seq<char>,
        replace_if_exists: bool,
    ) -> RenameStepView {
        if handle.is_dir {
            RenameStepView::Done(Err(FsError::InvalidInput(Invalid::DirectoryRename)))
        } else {
            match (key_of_path(new_path), handle.key) {
                (None, _) => RenameStepView::Done(Err(FsError::InvalidInput(Invalid::TargetName))),
                (Some(new_key), old) => if new_key.contains('/') {
                    RenameStepView::Done(Err(FsError::InvalidInput(Invalid::NestedPath)))
                } else {
                    match old {
                        None => RenameStepView::Done(Err(FsError::NotFound)),
                        Some(old_key) => if old_key == new_key {
                            RenameStepView::Done(Ok(()))
                        } else if replace_if_exists {
                            RenameStepView::Transfer(RenameView { old_key, new_key })
                        } else {
                            RenameStepView::CheckTarget(RenameView { old_key, new_key })
                        },
                    }
                },
            }
        }
    }

    /// Staged changes are stored under the new key; otherwise the stored
    /// object is copied.
    pub open spec fn transfer_request(self, handle: HandleView, rename: RenameView) -> RequestView {
        if handle.dirty {
            RequestView::Put { key: rename.new_key, bytes: handle.data }
        } else {
            RequestView::Copy {
                source: self.bucket + seq!['/'] + rename.old_key,
                key: rename.new_key,
            }
        }
    }

    /// Once the contents are at the new key, its size is known: the staged
    /// length, or what was known of the old key.
    pub open spec fn transferred(self, handle: HandleView, rename: RenameView) -> DriveView {
        if handle.dirty {
            self.recorded(rename.new_key, handle.data.len() as u64)
        } else if self.sizes.contains_key(rename.old_key) {
            self.recorded(rename.new_key, self.sizes[rename.old_key])
        } else {
            self
        }
    }

    /// After the request of a close, `done` where the service served it:
    /// what was stored has the size of the stored bytes, and of what was
    /// deleted no size is known.
    pub open spec fn closed(self, request: RequestView, done: bool) -> DriveView {
        if !done {
            self
        } else {
            match request {
                RequestView::Put { key, bytes } => self.recorded(key, bytes.len() as u64),
                RequestView::Delete { key } => self.forgotten(key),
                _ => self,
            }
        }
    }

    /// With the sizes of a listing, the later of two entries for one key
    /// counting.
    pub open spec fn listed(self, entries: Seq<(Seq<char>, u64)>) -> DriveView
        decreases entries.len(),
    {
        if entries.len() == 0 {
            self
        } else {
            self.listed(entries.drop_last()).recorded(entries.last().0, entries.last().1)
        }
    }
}

/// What creating a file comes to.
pub open spec fn create_outcome(path: Seq<char>, create_options: u32) -> Result<
    (HandleView, FileInfo),
    FsError,
> {
    if is_root(path) {
        Err(FsError::AlreadyExists)
    } else {
        match key_of_path(path) {
            None => Err(FsError::InvalidInput(Invalid::FileName)),
            Some(key) => if key.contains('/') {
                Err(FsError::InvalidInput(Invalid::NestedPath))
            } else if wants_directory(create_options) {
                Err(FsError::InvalidInput(Invalid::Subdirectory))
            } else {
                Ok((HandleView::created(key), FileInfo::spec_file(0)))
            },
        }
    }
}

/// The outcome of an open or create as contracts speak of it.
pub open spec fn opened_view(outcome: Result<Opened, FsError>) -> Result<
    (HandleView, FileInfo),
    FsError,
> {
    match outcome {
        Ok(opened) => Ok((opened.context@, opened.info)),
        Err(e) => Err(e),
    }
}

/// A step of an open as contracts speak of it.
pub open spec fn opened_step(step: Step<Opened>) -> StepView<(HandleView, FileInfo)> {
    match step {
        Step::Done(outcome) => StepView::Done(opened_view(outcome)),
        Step::Ask(request) => StepView::Ask(request@),
    }
}

/// The entries of a listing as contracts speak of them.
pub open spec fn entries_view(entries: Seq<(String, u64)>) -> Seq<(Seq<char>, u64)> {
    Seq::new(entries.len(), |i: int| (entries[i].0@, entries[i].1))
}

/// A bucket presented as a flat drive.
pub struct S3FileSystem {
    bucket: String,
    label: String,
    /// Last-known object sizes, refreshed by listing/reads/writes.
    sizes: StringHashMap<u64>,
}

impl View for S3FileSystem {
    type V = DriveView;

    closed spec fn view(&self) -> DriveView {
        DriveView { bucket: self.bucket@, label: self.label@, sizes: self.sizes@ }
    }
}

impl S3FileSystem {
    /// A drive of `bucket`, labelled `label`, with no size known.
    pub fn new(bucket: String, label: String) -> (fs: Self)
        ensures
            fs@ == (DriveView {
                bucket: bucket@,
                label: label@,
                sizes: Map::<Seq<char>, u64>::empty(),
            }),
    {
        S3FileSystem { bucket, label, sizes: StringHashMap::new() }
    }

    pub fn bucket(&self) -> (bucket: &str)
        ensures
            bucket@ == self@.bucket,
    {
        self.bucket.as_str()
    }

    /// The last-known size of an object.
    pub fn cached_size(&self, key: &str) -> (size: Option<u64>)
        ensures
            size == self@.known_size(key@),
    {
        match self.sizes.get(key) {
            Some(size) => Some(*size),
            None => None,
        }
    }

    /// Records the size in a reply to [`Request::Head`], and returns it.
    pub fn learn_size(&mut self, key: &str, content_length: Option<i64>) -> (size: Option<u64>)
        ensures
            size == spec_head_size(content_length),
            final(self)@ == old(self)@.learned(key@, content_length),
    {
        let size = head_size(content_length);
        if let Some(n) = size {
            self.sizes.insert(key.to_owned(), n);
        }
        size
    }

    /// Looks up the attributes of a name.
    pub fn get_security_by_name(&self, file_name: &[u16]) -> (step: Step<FileSecurity>)
        ensures
            step@ == self@.security_step(utf16_text(file_name@)),
    {
        self.security_of_path(decode_name(file_name).as_str())
    }

    /// Looks up the attributes of a path.
    pub fn security_of_path(&self, path: &str) -> (step: Step<FileSecurity>)
        ensures
            step@ == self@.security_step(path@),
    {
        if is_root_path(path) {
            return Step::Done(Ok(FileSecurity::of(FILE_ATTRIBUTE_DIRECTORY)));
        }
        match s3_key_from_win_path(path) {
            None => Step::Done(Err(FsError::NotFound)),
            Some(key) => match self.cached_size(key.as_str()) {
                Some(_) => Step::Done(Ok(FileSecurity::of(FILE_ATTRIBUTE_ARCHIVE))),
                None => Step::Ask(Request::Head { key }),
            },
        }
    }

    /// Takes the reply to the request of [`Self::security_of_path`].
    pub fn security_after_head(&mut self, key: &str, content_length: Option<i64>) -> (outcome:
        Result<FileSecurity, FsError>)
        ensures
            outcome == (match spec_head_size(content_length) {
                Some(_) => Ok(FileSecurity::spec_of(FILE_ATTRIBUTE_ARCHIVE)),
                None => Err(FsError::NotFound),
            }),
            final(self)@ == old(self)@.learned(key@, content_length),
    {
        match self.learn_size(key, content_length) {
            Some(_) => Ok(FileSecurity::of(FILE_ATTRIBUTE_ARCHIVE)),
            None => Err(FsError::NotFound),
        }
    }

    /// Opens a name.
    pub fn open(&self, file_name: &[u16], create_options: u32) -> (step: Step<Opened>)
        ensures
            opened_step(step) == self@.open_step(utf16_text(file_name@), create_options),
            step matches Step::Done(Ok(opened)) ==> opened.context@.wf(),
    {
        self.open_path(decode_name(file_name).as_str(), create_options)
    }

    /// Opens a path.
    pub fn open_path(&self, path: &str, create_options: u32) -> (step: Step<Opened>)
        ensures
            opened_step(step) == self@.open_step(path@, create_options),
            step matches Step::Done(Ok(opened)) ==> opened.context@.wf(),
    {
        if is_root_path(path) {
            return Step::Done(
                Ok(Opened { context: S3FileContext::dir(), info: FileInfo::directory() }),
            );
        }
        proof {
            law_keys_are_canonical(path@);
        }
        match s3_key_from_win_path(path) {
            None => Step::Done(Err(FsError::NotFound)),
            Some(key) => {
                if create_options & CREATE_OPTION_DIRECTORY_FILE != 0 {
                    return Step::Done(Err(FsError::NotFound));
                }
                match self.cached_size(key.as_str()) {
                    Some(size) => Step::Done(
                        Ok(Opened { context: S3FileContext::file(key), info: FileInfo::file(size) }),
                    ),
                    None => Step::Ask(Request::Head { key }),
                }
            },
        }
    }

    /// Takes the reply to the request of [`Self::open_path`].
    pub fn open_after_head(&mut self, key: String, content_length: Option<i64>) -> (outcome: Result<
        Opened,
        FsError,
    >)
        ensures
            opened_view(outcome) == (match spec_head_size(content_length) {
                Some(size) => Ok((HandleView::existing(key@), FileInfo::spec_file(size))),
                None => Err(FsError::NotFound),
            }),
            final(self)@ == old(self)@.learned(key@, content_length),
            is_canonical_key(key@) ==> (outcome matches Ok(opened) ==> opened.context@.wf()),
    {
        match self.learn_size(key.as_str(), content_length) {
            Some(size) => Ok(
                Opened { context: S3FileContext::file(key), info: FileInfo::file(size) },
            ),
            None => Err(FsError::NotFound),
        }
    }

    /// Creates a file under a name.
    pub fn create(&mut self, file_name: &[u16], create_options: u32) -> (outcome: Result<
        Opened,
        FsError,
    >)
        ensures
            opened_view(outcome) == create_outcome(utf16_text(file_name@), create_options),
            outcome matches Ok(opened) ==> opened.context@.wf() && final(self)@ == old(
                self,
            )@.recorded(opened.context@.key->0, 0),
            outcome is Err ==> final(self)@ == old(self)@,
    {
        self.create_path(decode_name(file_name).as_str(), create_options)
    }

    /// Creates a file under a path.
    pub fn create_path(&mut self, path: &str, create_options: u32) -> (outcome: Result<
        Opened,
        FsError,
    >)
        ensures
            opened_view(outcome) == create_outcome(path@, create_options),
            outcome matches Ok(opened) ==> opened.context@.wf() && final(self)@ == old(
                self,
            )@.recorded(opened.context@.key->0, 0),
            outcome is Err ==> final(self)@ == old(self)@,
    {
        if is_root_path(path) {
            return Err(FsError::AlreadyExists);
        }
        proof {
            law_keys_are_canonical(path@);
        }
        match s3_key_from_win_path(path) {
            None => Err(FsError::InvalidInput(Invalid::FileName)),
            Some(key) => {
                if contains_char(key.as_str(), '/') {
                    return Err(FsError::InvalidInput(Invalid::NestedPath));
                }
                if create_options & CREATE_OPTION_DIRECTORY_FILE != 0 {
                    return Err(FsError::InvalidInput(Invalid::Subdirectory));
                }
                self.sizes.insert(key.clone(), 0);
                Ok(Opened { context: S3FileContext::new_file(key), info: FileInfo::file(0) })
            },
        }
    }

    /// Closes a handle. The request is a deletion, an upload, or none.
    pub fn close(&self, context: S3FileContext) -> (request: Option<Request>)
        ensures
            request.deep_view() == context@.close_request(),
    {
        if context.is_dir() {
            return None;
        }
        match context.key() {
            None => None,
            Some(key) => {
                if context.delete_pending() {
                    Some(Request::Delete { key })
                } else if context.needs_upload() {
                    Some(Request::Put { key, bytes: context.into_staged_bytes() })
                } else {
                    None
                }
            },
        }
    }

    /// Takes the reply to the request of [`Self::close`], `done` where the
    /// service served it.
    pub fn close_after(&mut self, request: &Request, done: bool)
        ensures
            final(self)@ == old(self)@.closed(request@, done),
    {
        if !done {
            return ;
        }
        match request {
            Request::Put { key, bytes } => {
                self.sizes.insert(key.clone(), bytes.len() as u64);
            },
            Request::Delete { key } => {
                self.sizes.remove(key.as_str());
            },
            _ => {},
        }
    }

    /// The last handle on a file is going away.
    pub fn cleanup(&self, context: &mut S3FileContext, flags: u32)
        ensures
            final(context)@ == (if flags & CLEANUP_DELETE != 0 {
                old(context)@.with_delete(true)
            } else {
                old(context)@
            }),
            final(context)@.delete_pending <==> old(context)@.delete_pending || flags % 2 == 1,
    {
        proof {
            assert(flags & 1 != 0 <==> flags % 2 == 1) by (bit_vector);
        }
        if flags & CLEANUP_DELETE != 0 {
            context.set_delete_pending(true);
        }
    }

    /// Marks a file for deletion on close, or takes the mark back.
    pub fn set_delete(&self, context: &mut S3FileContext, delete_file: bool)
        ensures
            final(context)@ == old(context)@.with_delete(delete_file),
    {
        context.set_delete_pending(delete_file);
    }

    /// Flushes a handle, or the whole drive where none is given.
    pub fn flush(&self, context: Option<&S3FileContext>) -> (request: Option<Request>)
        ensures
            request.deep_view() == (match context {
                Some(handle) => handle@.flush_request(),
                None => None,
            }),
    {
        match context {
            None => None,
            Some(handle) => {
                if handle.is_dir() || handle.delete_pending() || !handle.is_dirty() {
                    return None;
                }
                match handle.key() {
                    Some(key) => Some(Request::Put { key, bytes: handle.staged_bytes() }),
                    None => None,
                }
            },
        }
    }

    /// Takes the reply to the upload of [`Self::flush`].
    pub fn flush_after_put(
        &mut self,
        context: &mut S3FileContext,
        stored: Result<(), String>,
    ) -> (outcome: Result<(), FsError>)
        ensures
            match stored {
                Ok(()) => {
                    &&& outcome == Ok::<(), FsError>(())
                    &&& match old(context)@.key {
                        Some(key) => {
                            &&& final(context)@ == old(context)@.uploaded()
                            &&& final(self)@ == old(self)@.recorded(
                                key,
                                old(context)@.data.len() as u64,
                            )
                        },
                        None => final(context)@ == old(context)@ && final(self)@ == old(self)@,
                    }
                },
                Err(e) => {
                    &&& outcome == Err::<(), FsError>(FsError::Storage(e))
                    &&& final(context)@ == old(context)@
                    &&& final(self)@ == old(self)@
                },
            },
            old(context)@.wf() ==> final(context)@.wf(),
    {
        match stored {
            Err(e) => Err(FsError::Storage(e)),
            Ok(()) => {
                if let Some(key) = context.key() {
                    self.sizes.insert(key, context.staged_len());
                    context.mark_uploaded();
                }
                Ok(())
            },
        }
    }

    /// Tells of an open handle.
    pub fn get_file_info(&self, context: &S3FileContext) -> (step: Step<FileInfo>)
        ensures
            step@ == self@.info_step(context@),
    {
        if context.is_dir() {
            return Step::Done(Ok(FileInfo::directory()));
        }
        match context.key() {
            None => Step::Done(Err(FsError::NotFound)),
            Some(key) => {
                if context.needs_upload() {
                    return Step::Done(Ok(FileInfo::file(context.staged_len())));
                }
                match self.cached_size(key.as_str()) {
                    Some(size) => Step::Done(Ok(FileInfo::file(size))),
                    None => Step::Ask(Request::Head { key }),
                }
            },
        }
    }

    /// Takes the reply to the request of [`Self::get_file_info`].
    pub fn file_info_after_head(&mut self, key: &str, content_length: Option<i64>) -> (outcome:
        Result<FileInfo, FsError>)
        ensures
            outcome == (match spec_head_size(content_length) {
                Some(size) => Ok(FileInfo::spec_file(size)),
                None => Err(FsError::NotFound),
            }),
            final(self)@ == old(self)@.learned(key@, content_length),
    {
        match self.learn_size(key, content_length) {
            Some(size) => Ok(FileInfo::file(size)),
            None => Err(FsError::NotFound),
        }
    }

    /// The size of the security descriptor of every handle: there are none.
    pub fn get_security(&self, _context: &S3FileContext) -> (size: u64)
        ensures
            size == 0,
    {
        0
    }

    /// Reads the root directory, from its start where `from_start` is set.
    pub fn read_directory(&self, context: &S3FileContext, from_start: bool) -> (outcome: Result<
        DirectoryStep,
        FsError,
    >)
        ensures
            outcome == (if !context@.is_dir {
                Err(FsError::InvalidInput(Invalid::NotADirectory))
            } else if from_start {
                Ok(DirectoryStep::List)
            } else {
                Ok(DirectoryStep::Resume)
            }),
    {
        if !context.is_dir() {
            return Err(FsError::InvalidInput(Invalid::NotADirectory));
        }
        if from_start {
            Ok(DirectoryStep::List)
        } else {
            Ok(DirectoryStep::Resume)
        }
    }

    /// Takes the complete listing that [`Self::read_directory`] asked for,
    /// records its sizes and returns the directory entries.
    pub fn directory_listed(&mut self, entries: &Vec<(String, u64)>) -> (listing: Vec<DirEntry>)
        ensures
            final(self)@ == old(self)@.listed(entries_view(entries@)),
            listing.len() == entries.len(),
            forall|i: int|
                0 <= i < entries.len() ==> (#[trigger] listing[i]).name@ == base_name(
                    entries[i].0@,
                ) && listing[i].info == FileInfo::spec_file(entries[i].1),
    {
        let mut listing: Vec<DirEntry> = Vec::new();
        let ghost all = entries_view(entries@);
        let n: usize = entries.len();
        proof {
            assert(all.take(0) =~= Seq::empty());
        }
        for i in 0..n
            invariant
                n == entries.len(),
                all == entries_view(entries@),
                self@ == old(self)@.listed(all.take(i as int)),
                listing.len() == i,
                forall|j: int|
                    0 <= j < i ==> (#[trigger] listing[j]).name@ == base_name(entries[j].0@)
                        && listing[j].info == FileInfo::spec_file(entries[j].1),
        {
            let key = entries[i].0.as_str();
            let size: u64 = entries[i].1;
            self.sizes.insert(key.to_owned(), size);
            proof {
                assert(all.take(i + 1).drop_last() =~= all.take(i as int));
            }
            listing.push(
                DirEntry { name: file_name_from_key(key).to_owned(), info: FileInfo::file(size) },
            );
        }
        proof {
            assert(all.take(n as int) =~= all);
        }
        listing
    }

    /// Renames a file to a name.
    pub fn rename(
        &self,
        context: &S3FileContext,
        new_file_name: &[u16],
        replace_if_exists: bool,
    ) -> (step: RenameStep)
        ensures
            step@ == self@.rename_step(
                context@,
                utf16_text(new_file_name@),
                replace_if_exists,
            ),
            step matches RenameStep::CheckTarget(rename) ==> rename@.wf(),
            step matches RenameStep::Transfer(rename) ==> rename@.wf(),
    {
        self.rename_to_path(context, decode_name(new_file_name).as_str(), replace_if_exists)
    }

    /// Renames a file to a path.
    pub fn rename_to_path(
        &self,
        context: &S3FileContext,
        new_path: &str,
        replace_if_exists: bool,
    ) -> (step: RenameStep)
        ensures
            step@ == self@.rename_step(context@, new_path@, replace_if_exists),
            step matches RenameStep::CheckTarget(rename) ==> rename@.wf(),
            step matches RenameStep::Transfer(rename) ==> rename@.wf(),
    {
        if context.is_dir() {
            return RenameStep::Done(Err(FsError::InvalidInput(Invalid::DirectoryRename)));
        }
        proof {
            law_keys_are_canonical(new_path@);
        }
        let new_key = match s3_key_from_win_path(new_path) {
            None => {
                return RenameStep::Done(Err(FsError::InvalidInput(Invalid::TargetName)));
            },
            Some(key) => key,
        };
        if contains_char(new_key.as_str(), '/') {
            return RenameStep::Done(Err(FsError::InvalidInput(Invalid::NestedPath)));
        }
        match context.key() {
            None => RenameStep::Done(Err(FsError::NotFound)),
            Some(old_key) => {
                if old_key == new_key {
                    return RenameStep::Done(Ok(()));
                }
                let rename = Rename { old_key, new_key };
                if replace_if_exists {
                    RenameStep::Transfer(rename)
                } else {
                    RenameStep::CheckTarget(rename)
                }
            },
        }
    }

    /// Takes the reply to the size request of [`RenameStep::CheckTarget`]:
    /// the rename goes on only where the new key does not exist.
    pub fn rename_after_head(&self, content_length: Option<i64>) -> (outcome: Result<(), FsError>)
        ensures
            outcome == (match spec_head_size(content_length) {
                Some(_) => Err(FsError::AlreadyExists),
                None => Ok(()),
            }),
    {
        match head_size(content_length) {
            Some(_) => Err(FsError::AlreadyExists),
            None => Ok(()),
        }
    }

    /// The request that moves the contents to the new key.
    pub fn rename_transfer(&self, context: &S3FileContext, rename: &Rename) -> (request: Request)
        ensures
            request@ == self@.transfer_request(context@, rename@),
    {
        let key: String = rename.new_key.clone();
        if context.is_dirty() {
            Request::Put { key, bytes: context.staged_bytes() }
        } else {
            let mut source: String = self.bucket.clone();
            source.push('/');
            source.append(rename.old_key.as_str());
            proof {
                assert(source@ =~= self@.bucket + seq!['/'] + rename@.old_key);
            }
            Request::Copy { source, key }
        }
    }

    /// Takes the reply to the request of [`Self::rename_transfer`]. The old
    /// key is to be deleted next.
    pub fn rename_after_transfer(
        &mut self,
        context: &mut S3FileContext,
        rename: &Rename,
        moved: Result<(), String>,
    ) -> (outcome: Result<Request, FsError>)
        ensures
            match moved {
                Ok(()) => {
                    &&& outcome matches Ok(request) && request@ == RequestView::Delete {
                        key: rename@.old_key,
                    }
                    &&& final(self)@ == old(self)@.transferred(old(context)@, rename@)
                    &&& final(context)@ == (if old(context)@.dirty {
                        old(context)@.uploaded()
                    } else {
                        old(context)@
                    })
                },
                Err(e) => {
                    &&& outcome == Err::<Request, FsError>(FsError::Storage(e))
                    &&& final(self)@ == old(self)@
                    &&& final(context)@ == old(context)@
                },
            },
            old(context)@.wf() ==> final(context)@.wf(),
    {
        match moved {
            Err(e) => Err(FsError::Storage(e)),
            Ok(()) => {
                if context.is_dirty() {
                    self.sizes.insert(rename.new_key.clone(), context.staged_len());
                    context.mark_uploaded();
                } else {
                    match self.cached_size(rename.old_key.as_str()) {
                        Some(len) => {
                            self.sizes.insert(rename.new_key.clone(), len);
                        },
                        None => {},
                    }
                }
                Ok(Request::Delete { key: rename.old_key.clone() })
            },
        }
    }

    /// Ends a rename. Whether the old key could be deleted does not matter.
    pub fn rename_finish(&mut self, context: &mut S3FileContext, rename: Rename)
        ensures
            final(self)@ == old(self)@.forgotten(rename@.old_key),
            final(context)@ == old(context)@.renamed(rename@.new_key),
            old(context)@.wf() && old(context)@.is_file() && rename@.wf() ==> final(context)@.wf(),
    {
        self.sizes.remove(rename.old_key.as_str());
        context.set_key(rename.new_key);
    }

    /// Sets the size of a file. Stored bytes that fit are kept, so they are
    /// fetched first where nothing is staged; a new file starts empty.
    pub fn set_file_size(&mut self, context: &mut S3FileContext, new_size: u64) -> (step: Step<u64>)
        requires
            !old(context)@.is_dir && !(old(context)@.is_file() && old(context)@.needs_fetch())
                ==> new_size as usize <= isize::MAX,
        ensures
            old(context)@.is_dir ==> step@ == StepView::<u64>::Done(
                Err(FsError::InvalidInput(Invalid::NotAFile)),
            ),
            old(context)@.is_file() && old(context)@.needs_fetch() ==> step@ == StepView::<
                u64,
            >::Ask(RequestView::Get { key: old(context)@.key->0 }),
            old(context)@.is_dir || (old(context)@.is_file() && old(context)@.needs_fetch()) ==> {
                &&& final(self)@ == old(self)@
                &&& final(context)@ == old(context)@
            },
            !old(context)@.is_dir && !(old(context)@.is_file() && old(context)@.needs_fetch()) ==> {
                &&& step@ == StepView::<u64>::Done(Ok(new_size))
                &&& final(context)@ == old(context)@.resized(new_size as usize as nat)
                &&& final(self)@ == (match old(context)@.key {
                    Some(key) => old(self)@.recorded(key, new_size),
                    None => old(self)@,
                })
            },
            old(context)@.wf() ==> final(context)@.wf(),
    {
        if context.is_dir() {
            return Step::Done(Err(FsError::InvalidInput(Invalid::NotAFile)));
        }
        if context.needs_fetch() {
            if let Some(key) = context.key() {
                return Step::Ask(Request::Get { key });
            }
        }
        self.apply_size(context, new_size);
        Step::Done(Ok(new_size))
    }

    /// Takes the reply to the request of [`Self::set_file_size`]. An object
    /// that could not be fetched counts as empty.
    pub fn set_file_size_after_get(
        &mut self,
        context: &mut S3FileContext,
        fetched: Result<Vec<u8>, String>,
        new_size: u64,
    ) -> (size: u64)
        requires
            new_size as usize <= isize::MAX,
        ensures
            size == new_size,
            final(context)@ == (match fetched {
                Ok(bytes) => old(context)@.fetched(bytes@),
                Err(_) => old(context)@,
            }).resized(new_size as usize as nat),
            final(self)@ == (match old(context)@.key {
                Some(key) => old(self)@.recorded(key, new_size),
                None => old(self)@,
            }),
            old(context)@.wf() && old(context)@.is_file() ==> final(context)@.wf(),
    {
        if let Ok(bytes) = fetched {
            context.accept_fetched(bytes);
        }
        self.apply_size(context, new_size);
        new_size
    }

    fn apply_size(&mut self, context: &mut S3FileContext, new_size: u64)
        requires
            new_size as usize <= isize::MAX,
        ensures
            final(context)@ == old(context)@.resized(new_size as usize as nat),
            final(self)@ == (match old(context)@.key {
                Some(key) => old(self)@.recorded(key, new_size),
                None => old(self)@,
            }),
    {
        context.stage_resize(new_size as usize);
        if let Some(key) = context.key() {
            self.sizes.insert(key, new_size);
        }
    }

    /// Reads a file from `offset` on into `buffer`.
    pub fn read(&self, context: &S3FileContext, buffer: &mut [u8], offset: u64) -> (step: Step<u32>)
        ensures
            context@.is_dir ==> step@ == StepView::<u32>::Done(
                Err(FsError::InvalidInput(Invalid::ReadOfDirectory)),
            ),
            !context@.is_dir && context@.key is None ==> step@ == StepView::<u32>::Done(Ok(0)),
            context@.is_file() && context@.needs_fetch() ==> step@ == StepView::<u32>::Ask(
                RequestView::Get { key: context@.key->0 },
            ),
            !(context@.is_file() && !context@.needs_fetch()) ==> final(buffer)@ == old(buffer)@,
            context@.is_file() && !context@.needs_fetch() ==> {
                &&& step@ == StepView::<u32>::Done(
                    Ok(
                        window_len(
                            context@.data,
                            offset as usize as nat,
                            old(buffer)@.len(),
                        ) as u32,
                    ),
                )
                &&& is_read(old(buffer)@, final(buffer)@, context@.data, offset as usize as nat)
            },
    {
        if context.is_dir() {
            return Step::Done(Err(FsError::InvalidInput(Invalid::ReadOfDirectory)));
        }
        match context.key() {
            None => Step::Done(Ok(0)),
            Some(key) => {
                if context.needs_fetch() {
                    return Step::Ask(Request::Get { key });
                }
                Step::Done(Ok(context.read_staged(buffer, offset as usize) as u32))
            },
        }
    }

    /// Takes the reply to the request of [`Self::read`] and records the size
    /// of what was fetched. An object that could not be fetched has no bytes
    /// to read.
    pub fn read_after_get(
        &mut self,
        context: &mut S3FileContext,
        fetched: Result<Vec<u8>, String>,
        buffer: &mut [u8],
        offset: u64,
    ) -> (count: u32)
        ensures
            match fetched {
                Ok(bytes) => {
                    let data = old(context)@.fetched(bytes@).data;
                    &&& final(context)@ == old(context)@.fetched(bytes@)
                    &&& count == window_len(
                        data,
                        offset as usize as nat,
                        old(buffer)@.len(),
                    ) as u32
                    &&& is_read(old(buffer)@, final(buffer)@, data, offset as usize as nat)
                    &&& final(self)@ == (match old(context)@.key {
                        Some(key) => old(self)@.recorded(key, data.len() as u64),
                        None => old(self)@,
                    })
                },
                Err(_) => {
                    &&& final(self)@ == old(self)@
                    &&& final(context)@ == old(context)@
                    &&& count == 0
                    &&& final(buffer)@ == old(buffer)@
                },
            },
            old(context)@.wf() && old(context)@.is_file() ==> final(context)@.wf(),
    {
        match fetched {
            Err(_) => 0,
            Ok(bytes) => {
                context.accept_fetched(bytes);
                if let Some(key) = context.key() {
                    self.sizes.insert(key, context.staged_len());
                }
                context.read_staged(buffer, offset as usize) as u32
            },
        }
    }

    /// Writes `buffer` into a file at `offset`. The bytes are staged; they
    /// are stored on close or flush. Stored bytes outside the written range
    /// are kept, so they are fetched first where nothing is staged.
    pub fn write(&mut self, context: &mut S3FileContext, buffer: &[u8], offset: u64) -> (step: Step<
        Written,
    >)
        requires
            old(context)@.is_file() && !old(context)@.needs_fetch() ==> offset as usize
                + buffer@.len() <= isize::MAX,
        ensures
            old(context)@.is_dir ==> step@ == StepView::<Written>::Done(
                Err(FsError::InvalidInput(Invalid::WriteToDirectory)),
            ),
            !old(context)@.is_dir && old(context)@.key is None ==> step@ == StepView::<
                Written,
            >::Done(Err(FsError::NotFound)),
            old(context)@.is_file() && old(context)@.needs_fetch() ==> step@ == StepView::<
                Written,
            >::Ask(RequestView::Get { key: old(context)@.key->0 }),
            !(old(context)@.is_file() && !old(context)@.needs_fetch()) ==> {
                &&& final(self)@ == old(self)@
                &&& final(context)@ == old(context)@
            },
            old(context)@.is_file() && !old(context)@.needs_fetch() ==> {
                let after = old(context)@.written(offset as usize as nat, buffer@);
                &&& step@ == StepView::<Written>::Done(Ok(written_view(after, buffer@)))
                &&& final(context)@ == after
                &&& final(self)@ == old(self)@.recorded(
                    old(context)@.key->0,
                    after.data.len() as u64,
                )
            },
            old(context)@.wf() ==> final(context)@.wf(),
    {
        if context.is_dir() {
            return Step::Done(Err(FsError::InvalidInput(Invalid::WriteToDirectory)));
        }
        match context.key() {
            None => Step::Done(Err(FsError::NotFound)),
            Some(key) => {
                if context.needs_fetch() {
                    return Step::Ask(Request::Get { key });
                }
                Step::Done(Ok(self.apply_write(context, key, buffer, offset)))
            },
        }
    }

    /// Takes the reply to the request of [`Self::write`].
    pub fn write_after_get(
        &mut self,
        context: &mut S3FileContext,
        fetched: Result<Vec<u8>, String>,
        buffer: &[u8],
        offset: u64,
    ) -> (outcome: Result<Written, FsError>)
        requires
            old(context)@.key is Some && fetched is Ok ==> offset as usize + buffer@.len()
                <= isize::MAX,
        ensures
            match (old(context)@.key, fetched) {
                (None, _) => {
                    &&& outcome == Err::<Written, FsError>(FsError::NotFound)
                    &&& final(context)@ == old(context)@
                    &&& final(self)@ == old(self)@
                },
                (Some(key), Ok(bytes)) => {
                    let after = old(context)@.fetched(bytes@).written(
                        offset as usize as nat,
                        buffer@,
                    );
                    &&& outcome == Ok::<Written, FsError>(written_view(after, buffer@))
                    &&& final(context)@ == after
                    &&& final(self)@ == old(self)@.recorded(key, after.data.len() as u64)
                },
                (Some(_), Err(e)) => {
                    &&& outcome == Err::<Written, FsError>(FsError::Storage(e))
                    &&& final(context)@ == old(context)@
                    &&& final(self)@ == old(self)@
                },
            },
            old(context)@.wf() ==> final(context)@.wf(),
    {
        match context.key() {
            None => Err(FsError::NotFound),
            Some(key) => match fetched {
                Err(e) => Err(FsError::Storage(e)),
                Ok(bytes) => {
                    context.accept_fetched(bytes);
                    Ok(self.apply_write(context, key, buffer, offset))
                },
            },
        }
    }

    fn apply_write(
        &mut self,
        context: &mut S3FileContext,
        key: String,
        buffer: &[u8],
        offset: u64,
    ) -> (written: Written)
        requires
            offset as usize + buffer@.len() <= isize::MAX,
        ensures
            final(context)@ == old(context)@.written(offset as usize as nat, buffer@),
            written == written_view(final(context)@, buffer@),
            final(self)@ == old(self)@.recorded(key@, final(context)@.data.len() as u64),
    {
        context.stage_write(buffer, offset as usize);
        let len: u64 = context.staged_len();
        self.sizes.insert(key, len);
        Written { count: buffer.len() as u32, file_size: len }
    }

    /// Tells of the drive.
    pub fn get_volume_info(&self) -> (info: VolumeInfo)
        ensures
            info.total_size == 0x100_0000_0000,
            info.free_size == 0x80_0000_0000,
            info.label@ == self@.label,
    {
        VolumeInfo {
            total_size: 0x100_0000_0000,
            free_size: 0x80_0000_0000,
            label: self.label.clone(),
        }
    }

    /// The label that the driver is told after it asked for another one. The
    /// drive keeps its own.
    pub fn set_volume_label(&self, volume_label: &[u16]) -> (label: String)
        ensures
            label@ == utf16_text(volume_label@),
    {
        decode_name(volume_label)
    }
}

/// The front of `after` holds the bytes of `data` from `offset` on, as many
/// as there are and fit; the rest of it is as it was in `before`.
pub open spec fn is_read(
    before: Seq<u8>,
    after: Seq<u8>,
    data: Seq<u8>,
    offset: nat,
) -> bool {
    let count = window_len(data, offset, before.len());
    &&& after.len() == before.len()
    &&& forall|i: int|
        0 <= i < before.len() ==> #[trigger] after[i] == (if i < count {
            data[offset + i]
        } else {
            before[i]
        })
}

/// What the driver is told of a write that left the handle at `after`.
pub open spec fn written_view(after: HandleView, buffer: Seq<u8>) -> Written {
    Written { count: buffer.len() as u32, file_size: after.data.len() as u64 }
}

} // verus!
