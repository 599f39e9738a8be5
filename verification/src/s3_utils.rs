//! The plain data that the object store and this library exchange: storage
//! classes, object keys, tags, and the error of a failed upload.

use vstd::prelude::*;
use vstd::string::StringExecFns;

verus! {

/// The storage tier of an object.
#[derive(Hash, Copy, Clone, Eq, PartialEq, Debug, Structural)]
pub enum StorageClass {
    STANDARD,
    Glacier,
    DeepArchive,
    StandardInfrequentAccess,
}

impl StorageClass {
    /// The token by which the object store knows this class.
    pub open spec fn token(self) -> Seq<char> {
        match self {
            StorageClass::STANDARD => "STANDARD"@,
            StorageClass::Glacier => "GLACIER"@,
            StorageClass::DeepArchive => "DEEP_ARCHIVE"@,
            StorageClass::StandardInfrequentAccess => "STANDARD_IA"@,
        }
    }

    /// The token by which the object store knows this class.
    pub fn to_string(&self) -> (s: String)
        ensures
            s@ == self.token(),
    {
        match self {
            StorageClass::STANDARD => String::from_str("STANDARD"),
            StorageClass::Glacier => String::from_str("GLACIER"),
            StorageClass::DeepArchive => String::from_str("DEEP_ARCHIVE"),
            StorageClass::StandardInfrequentAccess => String::from_str("STANDARD_IA"),
        }
    }
}

/// An object as a bucket listing shows it.
#[derive(Hash, Clone, PartialEq, Eq, Debug)]
pub struct S3Key {
    pub key: String,
    pub etag: String,
}

impl DeepView for S3Key {
    type V = (Seq<char>, Seq<char>);

    open spec fn deep_view(&self) -> (Seq<char>, Seq<char>) {
        self@
    }
}

impl View for S3Key {
    type V = (Seq<char>, Seq<char>);

    open spec fn view(&self) -> (Seq<char>, Seq<char>) {
        (self.key@, self.etag@)
    }
}

/// A tag of an object: a name and a value.
#[derive(Hash, Clone, PartialEq, Eq, Debug)]
pub struct Tag {
    pub key: String,
    pub value: String,
}

impl DeepView for Tag {
    type V = (Seq<char>, Seq<char>);

    open spec fn deep_view(&self) -> (Seq<char>, Seq<char>) {
        self@
    }
}

impl View for Tag {
    type V = (Seq<char>, Seq<char>);

    open spec fn view(&self) -> (Seq<char>, Seq<char>) {
        (self.key@, self.value@)
    }
}

/// An upload that failed: the operation that failed, and why.
#[derive(Clone, PartialEq, Eq, Debug)]
pub struct S3UploadFailedError(pub String, pub String);

impl DeepView for S3UploadFailedError {
    type V = (Seq<char>, Seq<char>);

    open spec fn deep_view(&self) -> (Seq<char>, Seq<char>) {
        self@
    }
}

impl View for S3UploadFailedError {
    type V = (Seq<char>, Seq<char>);

    open spec fn view(&self) -> (Seq<char>, Seq<char>) {
        (self.0@, self.1@)
    }
}

impl S3UploadFailedError {
    /// The message of this error as a user reads it.
    pub open spec fn message(self) -> Seq<char> {
        "S3 upload operation "@ + self.0@ + " failed with error: "@ + self.1@
    }

    /// The message of this error as a user reads it.
    pub fn to_string(&self) -> (s: String)
        ensures
            s@ == self.message(),
    {
        let mut s = String::from_str("S3 upload operation ");
        s.append(self.0.as_str());
        s.append(" failed with error: ");
        s.append(self.1.as_str());
        s
    }
}

/// Why an upload failed.
#[derive(Clone, PartialEq, Eq, Debug)]
pub enum UploadError {
    /// The store refused a request on its last attempt: what it said.
    Store(String),
    /// The upload failed in one of its own operations.
    Failed(S3UploadFailedError),
}

/// An `UploadError` as plain values.
pub enum UploadErrorView {
    Store(Seq<char>),
    Failed(Seq<char>, Seq<char>),
}

impl DeepView for UploadError {
    type V = UploadErrorView;

    open spec fn deep_view(&self) -> UploadErrorView {
        self@
    }
}

impl View for UploadError {
    type V = UploadErrorView;

    open spec fn view(&self) -> UploadErrorView {
        match self {
            UploadError::Store(text) => UploadErrorView::Store(text@),
            UploadError::Failed(error) => UploadErrorView::Failed(error.0@, error.1@),
        }
    }
}

impl UploadErrorView {
    /// The message of this error as a user reads it: the store's own words,
    /// or the message of the failed operation.
    pub open spec fn message(self) -> Seq<char> {
        match self {
            UploadErrorView::Store(text) => text,
            UploadErrorView::Failed(operation, reason) => "S3 upload operation "@ + operation
                + " failed with error: "@ + reason,
        }
    }
}

impl UploadError {
    /// The message of this error as a user reads it.
    pub fn to_string(&self) -> (s: String)
        ensures
            s@ == self@.message(),
    {
        match self {
            UploadError::Store(text) => text.clone(),
            UploadError::Failed(error) => error.to_string(),
        }
    }
}

/// A part that the store has taken: its number and the tag that the store
/// gave it.
#[derive(Clone, PartialEq, Eq, Debug)]
pub struct CompletedPart {
    pub part_number: i64,
    pub e_tag: String,
}

/// A `CompletedPart` as plain values.
pub struct PartView {
    pub part_number: int,
    pub e_tag: Seq<char>,
}

impl DeepView for CompletedPart {
    type V = PartView;

    open spec fn deep_view(&self) -> PartView {
        self@
    }
}

impl View for CompletedPart {
    type V = PartView;

    open spec fn view(&self) -> PartView {
        PartView { part_number: self.part_number as int, e_tag: self.e_tag@ }
    }
}

/// What all requests of one multipart upload share.
#[derive(Clone, PartialEq, Eq, Debug)]
pub struct UploadContext {
    pub bucket: String,
    pub key: String,
    pub upload_id: String,
    pub buf_size: usize,
}

/// An `UploadContext` as plain values.
pub struct ContextView {
    pub bucket: Seq<char>,
    pub key: Seq<char>,
    pub upload_id: Seq<char>,
    pub buf_size: nat,
}

impl View for UploadContext {
    type V = ContextView;

    open spec fn view(&self) -> ContextView {
        ContextView {
            bucket: self.bucket@,
            key: self.key@,
            upload_id: self.upload_id@,
            buf_size: self.buf_size as nat,
        }
    }
}

} // verus!
