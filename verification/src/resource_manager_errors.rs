use vstd::prelude::*;
use std::rc::Rc;
use vstd::string::StringExecFns;

verus! {

/// What a decoder held against the data it was given.
#[derive(Debug)]
pub enum DecodeCause {
    /// The `gltf` crate rejected the data.
    Gltf(gltf::Error),
    /// The `lewton` crate rejected the data.
    Ogg(Rc<lewton::VorbisError>),
    /// The Ogg Vorbis decoder gave up on the data without a report.
    OggAborted,
    /// The `imagefmt` crate rejected the data.
    Tga(imagefmt::Error),
    /// A binary glTF header declared a length below the header's own twelve
    /// bytes; the data never reached the decoder.
    GlbLength,
    /// A primitive's `POSITION` named an accessor that the glTF document does not
    /// hold; the document never reached the validation.
    GltfPosition,
    /// The file held another form of content than the kind of its path takes:
    /// bytes where an opened stream is due, or the other way round.
    WrongContent,
}

/// What an error carries as the report of the collaborator that failed.
#[derive(Debug)]
pub enum ErrorCause<'a> {
    /// What the filesystem reported.
    Filesystem(&'a str),
    /// What the decoder reported.
    Decode(&'a DecodeCause),
}

/// Everything that can go wrong while resources are tracked, loaded and
/// unloaded. Each variant starts with a description for people to read.
#[derive(Debug)]
pub enum ResourceManagerError {
    /// The filesystem could not hand out the resource's data; the second field
    /// is what the filesystem reported.
    FilesystemError(String, String),
    /// A decoder rejected the resource's data.
    DecodeError(String, DecodeCause),
    /// The path names no kind of resource that the engine decodes.
    UnsupportedKind(String),
    /// A path was looked up where it is not registered.
    NotFoundError(String),
    /// A reference count of zero was asked to go down.
    UnderflowError(String),
    /// A path that is tracked already was asked to be tracked anew.
    AlreadyTracked(String),
    /// A reference count that is as high as the table can hold was asked to go
    /// up.
    OverflowError(String),
}

pub type ResourceManagerResult<T> = Result<T, ResourceManagerError>;

/// `before`, then `path`, then `after`.
pub open spec fn framed(before: &str, path: Seq<char>, after: &str) -> Seq<char> {
    before@ + path + after@
}

/// Writes `path` between two fixed pieces of text.
pub fn frame(before: &str, path: &str, after: &str) -> (text: String)
    ensures
        text@ == framed(before, path@, after),
{
    String::from_str(before).concat(path).concat(after)
}

impl ResourceManagerError {
    /// The description that the error carries.
    pub open spec fn text(self) -> Seq<char> {
        match self {
            ResourceManagerError::FilesystemError(text, _) => text@,
            ResourceManagerError::DecodeError(text, _) => text@,
            ResourceManagerError::UnsupportedKind(text) => text@,
            ResourceManagerError::NotFoundError(text) => text@,
            ResourceManagerError::UnderflowError(text) => text@,
            ResourceManagerError::AlreadyTracked(text) => text@,
            ResourceManagerError::OverflowError(text) => text@,
        }
    }

    /// The fixed name of the error's variant.
    pub open spec fn label(self) -> &'static str {
        match self {
            ResourceManagerError::FilesystemError(_, _) => "FilesystemError",
            ResourceManagerError::DecodeError(_, _) => "DecodeError",
            ResourceManagerError::UnsupportedKind(_) => "UnsupportedKind",
            ResourceManagerError::NotFoundError(_) => "NotFoundError",
            ResourceManagerError::UnderflowError(_) => "UnderflowError",
            ResourceManagerError::AlreadyTracked(_) => "AlreadyTracked",
            ResourceManagerError::OverflowError(_) => "OverflowError",
        }
    }

    /// What a message about the error starts with.
    pub open spec fn heading(self) -> &'static str {
        match self {
            ResourceManagerError::FilesystemError(_, _) => "Filesystem error: ",
            ResourceManagerError::DecodeError(_, _) => "Decode error: ",
            ResourceManagerError::UnsupportedKind(_) => "Unsupported kind error: ",
            ResourceManagerError::NotFoundError(_) => "Not found error: ",
            ResourceManagerError::UnderflowError(_) => "Underflow error: ",
            ResourceManagerError::AlreadyTracked(_) => "Already tracked error: ",
            ResourceManagerError::OverflowError(_) => "Overflow error: ",
        }
    }

    /// A short fixed name for the kind of error.
    pub fn description(&self) -> (name: &'static str)
        ensures
            name@ == self.label()@,
    {
        match self {
            ResourceManagerError::FilesystemError(_, _) => "FilesystemError",
            ResourceManagerError::DecodeError(_, _) => "DecodeError",
            ResourceManagerError::UnsupportedKind(_) => "UnsupportedKind",
            ResourceManagerError::NotFoundError(_) => "NotFoundError",
            ResourceManagerError::UnderflowError(_) => "UnderflowError",
            ResourceManagerError::AlreadyTracked(_) => "AlreadyTracked",
            ResourceManagerError::OverflowError(_) => "OverflowError",
        }
    }

    /// The message for people to read: the heading of the variant, then the
    /// description that the error carries.
    pub fn message(&self) -> (message: String)
        ensures
            message@ == self.heading()@ + self.text(),
    {
        match self {
            ResourceManagerError::FilesystemError(text, _) => String::from_str(
                "Filesystem error: ",
            ).concat(text.as_str()),
            ResourceManagerError::DecodeError(text, _) => String::from_str(
                "Decode error: ",
            ).concat(text.as_str()),
            ResourceManagerError::UnsupportedKind(text) => String::from_str(
                "Unsupported kind error: ",
            ).concat(text.as_str()),
            ResourceManagerError::NotFoundError(text) => String::from_str(
                "Not found error: ",
            ).concat(text.as_str()),
            ResourceManagerError::UnderflowError(text) => String::from_str(
                "Underflow error: ",
            ).concat(text.as_str()),
            ResourceManagerError::AlreadyTracked(text) => String::from_str(
                "Already tracked error: ",
            ).concat(text.as_str()),
            ResourceManagerError::OverflowError(text) => String::from_str(
                "Overflow error: ",
            ).concat(text.as_str()),
        }
    }

    /// The report of the collaborator that failed, for the errors that carry one:
    /// the filesystem's for a filesystem error, the decoder's for a decode
    /// error. The other errors have no cause.
    pub fn cause(&self) -> (cause: Option<ErrorCause<'_>>)
        ensures
            match *self {
                ResourceManagerError::FilesystemError(_, report) => cause matches Some(
                    ErrorCause::Filesystem(text),
                ) && text@ == report@,
                ResourceManagerError::DecodeError(_, report) => cause == Some(
                    ErrorCause::Decode(&report),
                ),
                _ => cause is None,
            },
    {
        match self {
            ResourceManagerError::FilesystemError(_, report) => Some(
                ErrorCause::Filesystem(report.as_str()),
            ),
            ResourceManagerError::DecodeError(_, report) => Some(ErrorCause::Decode(report)),
            _ => None,
        }
    }
}

} // verus!
