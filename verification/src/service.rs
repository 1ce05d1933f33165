//! What the filesystem asks of the storage service, and how it fails.

use vstd::prelude::*;

verus! {

/// One call of the storage service that a decision asks for.
#[derive(Debug, PartialEq, Eq)]
pub enum Request {
    /// Ask for the size of an object.
    Head { key: String },
    /// Fetch the bytes of an object.
    Get { key: String },
    /// Store bytes as an object.
    Put { key: String, bytes: Vec<u8> },
    /// Copy `source`, written `bucket/key`, to an object.
    Copy { source: String, key: String },
    /// Delete an object.
    Delete { key: String },
}

/// A [`Request`] as contracts speak of it.
#[verifier::ext_equal]
pub enum RequestView {
    Head { key: Seq<char> },
    Get { key: Seq<char> },
    Put { key: Seq<char>, bytes: Seq<u8> },
    Copy { source: Seq<char>, key: Seq<char> },
    Delete { key: Seq<char> },
}

impl View for Request {
    type V = RequestView;

    open spec fn view(&self) -> RequestView {
        match *self {
            Request::Head { key } => RequestView::Head { key: key@ },
            Request::Get { key } => RequestView::Get { key: key@ },
            Request::Put { key, bytes } => RequestView::Put { key: key@, bytes: bytes@ },
            Request::Copy { source, key } => RequestView::Copy { source: source@, key: key@ },
            Request::Delete { key } => RequestView::Delete { key: key@ },
        }
    }
}

impl DeepView for Request {
    type V = RequestView;

    open spec fn deep_view(&self) -> RequestView {
        self@
    }
}

/// Why a request on the filesystem was refused as invalid.
#[derive(Debug, Clone, Copy, PartialEq, Eq, Structural)]
pub enum Invalid {
    FileName,
    NestedPath,
    Subdirectory,
    NotADirectory,
    DirectoryRename,
    TargetName,
    NotAFile,
    ReadOfDirectory,
    WriteToDirectory,
}

impl Invalid {
    /// The message that the reason is reported with.
    pub open spec fn spec_message(self) -> Seq<char> {
        match self {
            Invalid::FileName => "invalid file name"@,
            Invalid::NestedPath => "nested paths are not supported"@,
            Invalid::Subdirectory => "subdirectories are not supported"@,
            Invalid::NotADirectory => "not a directory"@,
            Invalid::DirectoryRename => "directory rename is not supported"@,
            Invalid::TargetName => "invalid target name"@,
            Invalid::NotAFile => "not a file"@,
            Invalid::ReadOfDirectory => "cannot read a directory"@,
            Invalid::WriteToDirectory => "cannot write to a directory"@,
        }
    }

    /// The message that the reason is reported with.
    pub fn message(self) -> (text: &'static str)
        ensures
            text@ == self.spec_message(),
    {
        match self {
            Invalid::FileName => "invalid file name",
            Invalid::NestedPath => "nested paths are not supported",
            Invalid::Subdirectory => "subdirectories are not supported",
            Invalid::NotADirectory => "not a directory",
            Invalid::DirectoryRename => "directory rename is not supported",
            Invalid::TargetName => "invalid target name",
            Invalid::NotAFile => "not a file",
            Invalid::ReadOfDirectory => "cannot read a directory",
            Invalid::WriteToDirectory => "cannot write to a directory",
        }
    }
}

/// How a request on the filesystem fails.
#[derive(Debug, PartialEq, Eq)]
pub enum FsError {
    NotFound,
    AlreadyExists,
    InvalidInput(Invalid),
    /// The storage service failed, with its own words.
    Storage(String),
}

/// What a decision comes to: an outcome, or a call of the storage service
/// whose reply the next decision takes.
#[derive(Debug, PartialEq, Eq)]
pub enum Step<T> {
    Done(Result<T, FsError>),
    Ask(Request),
}

/// A [`Step`] as contracts speak of it.
#[verifier::ext_equal]
pub enum StepView<T> {
    Done(Result<T, FsError>),
    Ask(RequestView),
}

impl<T> View for Step<T> {
    type V = StepView<T>;

    open spec fn view(&self) -> StepView<T> {
        match *self {
            Step::Done(outcome) => StepView::Done(outcome),
            Step::Ask(request) => StepView::Ask(request@),
        }
    }
}

} // verus!
