//! One multipart upload from its first request to its result: create the
//! upload, send the parts, then complete it. An upload that was created and
//! then fails, in sending its parts or in completing, is aborted.
//!
//! The upload decides; the caller talks to the store, each request under the
//! retry policy, runs the parts pipeline, and reports each outcome as an
//! event.

use crate::part_size::buffer_size_for;
use crate::part_size::select_buffer_size;
use crate::s3_utils::CompletedPart;
use crate::s3_utils::ContextView;
use crate::s3_utils::PartView;
use crate::s3_utils::S3UploadFailedError;
use crate::s3_utils::StorageClass;
use crate::s3_utils::Tag;
use crate::s3_utils::UploadContext;
use crate::s3_utils::UploadError;
use crate::s3_utils::UploadErrorView;
use crate::tagging::buffer_size_tag;
use crate::tagging::encode_tagging;
use crate::tagging::tagging_of;
use crate::tagging::with_buffer_size;
use crate::upload_parts::child_failed;
use crate::upload_parts::SentParts;
use crate::upload_parts::SentPartsView;
use vstd::prelude::*;
use vstd::string::StringExecFns;

verus! {

/// A request to the object store.
#[derive(Clone, PartialEq, Eq, Debug)]
pub enum StoreRequest {
    /// `CreateMultipartUpload`.
    Create { bucket: String, key: String, storage_class: String, tagging: String },
    /// `CompleteMultipartUpload`, with the parts in the order of their numbers.
    Complete { bucket: String, key: String, upload_id: String, parts: Vec<CompletedPart> },
    /// `AbortMultipartUpload`.
    Abort { bucket: String, key: String, upload_id: String },
}

/// A `StoreRequest` as plain values.
pub enum StoreRequestView {
    Create { bucket: Seq<char>, key: Seq<char>, storage_class: Seq<char>, tagging: Seq<char> },
    Complete { bucket: Seq<char>, key: Seq<char>, upload_id: Seq<char>, parts: Seq<PartView> },
    Abort { bucket: Seq<char>, key: Seq<char>, upload_id: Seq<char> },
}

impl View for StoreRequest {
    type V = StoreRequestView;

    open spec fn view(&self) -> StoreRequestView {
        match self {
            StoreRequest::Create { bucket, key, storage_class, tagging } => {
                StoreRequestView::Create {
                    bucket: bucket@,
                    key: key@,
                    storage_class: storage_class@,
                    tagging: tagging@,
                }
            },
            StoreRequest::Complete { bucket, key, upload_id, parts } => {
                StoreRequestView::Complete {
                    bucket: bucket@,
                    key: key@,
                    upload_id: upload_id@,
                    parts: parts.deep_view(),
                }
            },
            StoreRequest::Abort { bucket, key, upload_id } => StoreRequestView::Abort {
                bucket: bucket@,
                key: key@,
                upload_id: upload_id@,
            },
        }
    }
}

/// What the caller does next.
#[derive(PartialEq, Eq, Debug)]
pub enum Action {
    /// Send this request to the store and report its outcome.
    Call(StoreRequest),
    /// Run the parts pipeline on the child's output and report its outcome.
    SendParts(UploadContext),
    /// The upload is over: this is its result, the bytes sent or the error.
    Return(Result<u64, UploadError>),
}

/// An `Action` as plain values.
pub enum ActionView {
    Call(StoreRequestView),
    SendParts(ContextView),
    Return(Result<nat, UploadErrorView>),
}

impl View for Action {
    type V = ActionView;

    open spec fn view(&self) -> ActionView {
        match self {
            Action::Call(request) => ActionView::Call(request@),
            Action::SendParts(context) => ActionView::SendParts(context@),
            Action::Return(Ok(bytes)) => ActionView::Return(Ok(*bytes as nat)),
            Action::Return(Err(error)) => ActionView::Return(Err(error@)),
        }
    }
}

/// What the caller reports.
#[derive(PartialEq, Eq, Debug)]
pub enum Event {
    /// How `CreateMultipartUpload` ended: the id of the upload, or the
    /// store's last error.
    Created(Result<String, String>),
    /// How the parts pipeline ended.
    PartsSent(Result<SentParts, UploadError>),
    /// How `CompleteMultipartUpload` ended.
    Completed(Result<(), String>),
    /// How `AbortMultipartUpload` ended.
    Aborted(Result<(), String>),
}

/// An `Event` as plain values.
pub enum EventView {
    Created(Result<Seq<char>, Seq<char>>),
    PartsSent(Result<SentPartsView, UploadErrorView>),
    Completed(Result<(), Seq<char>>),
    Aborted(Result<(), Seq<char>>),
}

impl View for Event {
    type V = EventView;

    open spec fn view(&self) -> EventView {
        match self {
            Event::Created(Ok(id)) => EventView::Created(Ok(id@)),
            Event::Created(Err(reason)) => EventView::Created(Err(reason@)),
            Event::PartsSent(Ok(sent)) => EventView::PartsSent(Ok(sent@)),
            Event::PartsSent(Err(error)) => EventView::PartsSent(Err(error@)),
            Event::Completed(Ok(_)) => EventView::Completed(Ok(())),
            Event::Completed(Err(reason)) => EventView::Completed(Err(reason@)),
            Event::Aborted(Ok(_)) => EventView::Aborted(Ok(())),
            Event::Aborted(Err(reason)) => EventView::Aborted(Err(reason@)),
        }
    }
}

/// How far an upload has got.
#[derive(Clone, PartialEq, Eq, Debug)]
pub enum Phase {
    /// `CreateMultipartUpload` is under way.
    Creating,
    /// The parts are being sent under this upload id.
    SendingParts { upload_id: String },
    /// `CompleteMultipartUpload` is under way under this upload id, for
    /// this many bytes.
    Completing { upload_id: String, bytes_sent: u64 },
    /// `AbortMultipartUpload` is under way, because of this error.
    Aborting { cause: UploadError },
    /// The result has been handed out.
    Finished,
}

/// A `Phase` as plain values.
pub enum PhaseView {
    Creating,
    SendingParts { upload_id: Seq<char> },
    Completing { upload_id: Seq<char>, bytes_sent: nat },
    Aborting { cause: UploadErrorView },
    Finished,
}

impl View for Phase {
    type V = PhaseView;

    open spec fn view(&self) -> PhaseView {
        match self {
            Phase::Creating => PhaseView::Creating,
            Phase::SendingParts { upload_id } => PhaseView::SendingParts { upload_id: upload_id@ },
            Phase::Completing { upload_id, bytes_sent } => PhaseView::Completing {
                upload_id: upload_id@,
                bytes_sent: *bytes_sent as nat,
            },
            Phase::Aborting { cause } => PhaseView::Aborting { cause: cause@ },
            Phase::Finished => PhaseView::Finished,
        }
    }
}

/// One multipart upload.
#[derive(Clone, PartialEq, Eq, Debug)]
pub struct Upload {
    pub bucket: String,
    pub key: String,
    pub buf_size: usize,
    pub phase: Phase,
}

/// An `Upload` as plain values.
pub struct UploadView {
    pub bucket: Seq<char>,
    pub key: Seq<char>,
    pub buf_size: nat,
    pub phase: PhaseView,
}

impl View for Upload {
    type V = UploadView;

    open spec fn view(&self) -> UploadView {
        UploadView {
            bucket: self.bucket@,
            key: self.key@,
            buf_size: self.buf_size as nat,
            phase: self.phase@,
        }
    }
}

/// The error of an event that does not answer what the upload asked for.
pub open spec fn out_of_turn() -> UploadErrorView {
    UploadErrorView::Failed("upload"@, "an event came out of turn"@)
}

impl UploadView {
    /// The upload in another phase.
    pub open spec fn in_phase(self, phase: PhaseView) -> UploadView {
        UploadView { phase, ..self }
    }

    /// The request that aborts this upload.
    pub open spec fn abort_request(self, upload_id: Seq<char>) -> StoreRequestView {
        StoreRequestView::Abort { bucket: self.bucket, key: self.key, upload_id }
    }

    /// The upload after `event`, and what the caller does next.
    ///
    /// A created upload sends its parts, and parts that were all sent are
    /// completed. Where the parts fail, or completing fails, the upload is
    /// aborted, and whatever the abort comes to, the result is the error
    /// that led to it. An error of creating is the result as it stands:
    /// there is no upload to abort.
    pub open spec fn next(self, event: EventView) -> (UploadView, ActionView) {
        match (self.phase, event) {
            (PhaseView::Creating, EventView::Created(Ok(upload_id))) => (
                self.in_phase(PhaseView::SendingParts { upload_id }),
                ActionView::SendParts(
                    ContextView {
                        bucket: self.bucket,
                        key: self.key,
                        upload_id,
                        buf_size: self.buf_size,
                    },
                ),
            ),
            (PhaseView::Creating, EventView::Created(Err(reason))) => (
                self.in_phase(PhaseView::Finished),
                ActionView::Return(Err(UploadErrorView::Store(reason))),
            ),
            (PhaseView::SendingParts { upload_id }, EventView::PartsSent(Ok(sent))) => (
                self.in_phase(PhaseView::Completing { upload_id, bytes_sent: sent.bytes_sent }),
                ActionView::Call(
                    StoreRequestView::Complete {
                        bucket: self.bucket,
                        key: self.key,
                        upload_id,
                        parts: sent.parts,
                    },
                ),
            ),
            (PhaseView::SendingParts { upload_id }, EventView::PartsSent(Err(cause))) => (
                self.in_phase(PhaseView::Aborting { cause }),
                ActionView::Call(self.abort_request(upload_id)),
            ),
            (PhaseView::Completing { upload_id, bytes_sent }, EventView::Completed(Ok(_))) => (
                self.in_phase(PhaseView::Finished),
                ActionView::Return(Ok(bytes_sent)),
            ),
            (PhaseView::Completing { upload_id, bytes_sent }, EventView::Completed(Err(reason))) => (
                self.in_phase(PhaseView::Aborting { cause: UploadErrorView::Store(reason) }),
                ActionView::Call(self.abort_request(upload_id)),
            ),
            (PhaseView::Aborting { cause }, EventView::Aborted(_)) => (
                self.in_phase(PhaseView::Finished),
                ActionView::Return(Err(cause)),
            ),
            _ => (self.in_phase(PhaseView::Finished), ActionView::Return(Err(out_of_turn()))),
        }
    }
}

/// The first request of an upload with parts of `buf_size` bytes: it creates
/// the upload under `key` in `bucket`, in the given storage class, with the
/// caller's tags and one more, `buffer_size`, that records the part size.
pub open spec fn create_request(
    bucket: Seq<char>,
    key: Seq<char>,
    tags: Seq<(Seq<char>, Seq<char>)>,
    storage_class: StorageClass,
    buf_size: nat,
) -> StoreRequestView {
    StoreRequestView::Create {
        bucket,
        key,
        storage_class: storage_class.token(),
        tagging: tagging_of(tags.push(buffer_size_tag(buf_size))),
    }
}

/// Starts an upload with parts of `buf_size` bytes, and gives the request
/// that creates it at the store.
pub fn upload_stdout_internal(
    bucket: &str,
    key: &str,
    tags: Vec<Tag>,
    storage_class: StorageClass,
    buf_size: usize,
) -> (start: (Upload, StoreRequest))
    ensures
        start.0@ == (UploadView {
            bucket: bucket@,
            key: key@,
            buf_size: buf_size as nat,
            phase: PhaseView::Creating,
        }),
        start.1@ == create_request(
            bucket@,
            key@,
            tags.deep_view(),
            storage_class,
            buf_size as nat,
        ),
{
    let all_tags = with_buffer_size(tags, buf_size);
    let request = StoreRequest::Create {
        bucket: String::from_str(bucket),
        key: String::from_str(key),
        storage_class: storage_class.to_string(),
        tagging: encode_tagging(&all_tags),
    };
    let upload = Upload {
        bucket: String::from_str(bucket),
        key: String::from_str(key),
        buf_size,
        phase: Phase::Creating,
    };
    (upload, request)
}

/// Starts an upload of a stream estimated at `estimated_size` bytes: the
/// part size is chosen from the estimate so that the parts stay below the
/// store's limit on their number.
pub fn upload_stdout(
    bucket: &str,
    key: &str,
    tags: Vec<Tag>,
    storage_class: StorageClass,
    estimated_size: usize,
) -> (start: (Upload, StoreRequest))
    ensures
        start.0@ == (UploadView {
            bucket: bucket@,
            key: key@,
            buf_size: buffer_size_for(estimated_size as nat),
            phase: PhaseView::Creating,
        }),
        start.1@ == create_request(
            bucket@,
            key@,
            tags.deep_view(),
            storage_class,
            buffer_size_for(estimated_size as nat),
        ),
{
    let buf_size = select_buffer_size(estimated_size);
    upload_stdout_internal(bucket, key, tags, storage_class, buf_size)
}

impl Upload {
    /// Takes the outcome of what the upload asked for last, and says what to
    /// do next.
    pub fn on_event(self, event: Event) -> (r: (Upload, Action))
        ensures
            (r.0@, r.1@) == self@.next(event@),
    {
        let Upload { bucket, key, buf_size, phase } = self;
        match (phase, event) {
            (Phase::Creating, Event::Created(Ok(upload_id))) => {
                let context = UploadContext {
                    bucket: bucket.clone(),
                    key: key.clone(),
                    upload_id: upload_id.clone(),
                    buf_size,
                };
                (
                    Upload { bucket, key, buf_size, phase: Phase::SendingParts { upload_id } },
                    Action::SendParts(context),
                )
            },
            (Phase::Creating, Event::Created(Err(reason))) => (
                Upload { bucket, key, buf_size, phase: Phase::Finished },
                Action::Return(Err(UploadError::Store(reason))),
            ),
            (Phase::SendingParts { upload_id }, Event::PartsSent(Ok(sent))) => {
                let request = StoreRequest::Complete {
                    bucket: bucket.clone(),
                    key: key.clone(),
                    upload_id: upload_id.clone(),
                    parts: sent.parts,
                };
                (
                    Upload {
                        bucket,
                        key,
                        buf_size,
                        phase: Phase::Completing { upload_id, bytes_sent: sent.bytes_sent },
                    },
                    Action::Call(request),
                )
            },
            (Phase::SendingParts { upload_id }, Event::PartsSent(Err(cause))) => {
                let request = StoreRequest::Abort {
                    bucket: bucket.clone(),
                    key: key.clone(),
                    upload_id,
                };
                (
                    Upload { bucket, key, buf_size, phase: Phase::Aborting { cause } },
                    Action::Call(request),
                )
            },
            (Phase::Completing { upload_id, bytes_sent }, Event::Completed(Ok(_))) => (
                Upload { bucket, key, buf_size, phase: Phase::Finished },
                Action::Return(Ok(bytes_sent)),
            ),
            (Phase::Completing { upload_id, bytes_sent }, Event::Completed(Err(reason))) => {
                let request = StoreRequest::Abort {
                    bucket: bucket.clone(),
                    key: key.clone(),
                    upload_id,
                };
                (
                    Upload {
                        bucket,
                        key,
                        buf_size,
                        phase: Phase::Aborting { cause: UploadError::Store(reason) },
                    },
                    Action::Call(request),
                )
            },
            (Phase::Aborting { cause }, Event::Aborted(_)) => (
                Upload { bucket, key, buf_size, phase: Phase::Finished },
                Action::Return(Err(cause)),
            ),
            _ => (
                Upload { bucket, key, buf_size, phase: Phase::Finished },
                Action::Return(
                    Err(
                        UploadError::Failed(
                            S3UploadFailedError(
                                String::from_str("upload"),
                                String::from_str("an event came out of turn"),
                            ),
                        ),
                    ),
                ),
            ),
        }
    }
}

/// An upload whose requests all succeed and whose parts are all sent returns
/// the bytes sent: the store is asked to create the upload, the parts go out
/// under the id it gave, and the upload is completed with the parts in the
/// order in which the pipeline handed them over.
pub proof fn law_upload_succeeds(start: UploadView, upload_id: Seq<char>, sent: SentPartsView)
    requires
        start.phase == PhaseView::Creating,
    ensures
        ({
            let (sending, first) = start.next(EventView::Created(Ok(upload_id)));
            let (completing, second) = sending.next(EventView::PartsSent(Ok(sent)));
            let (finished, third) = completing.next(EventView::Completed(Ok(())));
            &&& first == ActionView::SendParts(
                ContextView {
                    bucket: start.bucket,
                    key: start.key,
                    upload_id,
                    buf_size: start.buf_size,
                },
            )
            &&& second == ActionView::Call(
                StoreRequestView::Complete {
                    bucket: start.bucket,
                    key: start.key,
                    upload_id,
                    parts: sent.parts,
                },
            )
            &&& third == ActionView::Return(Ok(sent.bytes_sent))
            &&& finished.phase == PhaseView::Finished
        }),
{
}

/// An upload whose parts fail is aborted and returns the error of the parts,
/// whether the abort succeeds or not. So it is when the child process ends
/// with a failure: the result is an error that names the child's status, and
/// `AbortMultipartUpload` was asked for this upload.
pub proof fn law_failure_aborts(
    sending: UploadView,
    cause: UploadErrorView,
    aborted: Result<(), Seq<char>>,
)
    requires
        sending.phase is SendingParts,
    ensures
        ({
            let (aborting, first) = sending.next(EventView::PartsSent(Err(cause)));
            let (finished, second) = aborting.next(EventView::Aborted(aborted));
            &&& first == ActionView::Call(sending.abort_request(sending.phase->SendingParts_upload_id))
            &&& second == ActionView::Return(Err(cause))
            &&& finished.phase == PhaseView::Finished
        }),
{
}

/// An upload that the store fails to complete is aborted and returns the
/// store's error of completing, whether the abort succeeds or not.
pub proof fn law_failed_completion_aborts(
    completing: UploadView,
    reason: Seq<char>,
    aborted: Result<(), Seq<char>>,
)
    requires
        completing.phase is Completing,
    ensures
        ({
            let (aborting, first) = completing.next(EventView::Completed(Err(reason)));
            let (finished, second) = aborting.next(EventView::Aborted(aborted));
            &&& first == ActionView::Call(completing.abort_request(completing.phase->Completing_upload_id))
            &&& second == ActionView::Return(Err(UploadErrorView::Store(reason)))
            &&& finished.phase == PhaseView::Finished
        }),
{
}

/// An error of an upload that the store has created is returned only after
/// `AbortMultipartUpload` was asked for it: the answer to a failure of the
/// parts or of completing is the request to abort, never the result.
pub proof fn law_no_error_without_abort(upload: UploadView, event: EventView)
    requires
        upload.phase is SendingParts || upload.phase is Completing,
        upload.phase is SendingParts ==> event is PartsSent,
        upload.phase is Completing ==> event is Completed,
    ensures
        upload.next(event).1 matches ActionView::Return(result) ==> result is Ok,
        (event matches EventView::PartsSent(Err(_))) || (event matches EventView::Completed(Err(_)))
            ==> upload.next(event).0.phase is Aborting && upload.next(event).1 is Call
            && upload.next(event).1->Call_0 is Abort,
{
}

/// A child process that ends with a failure fails the upload: the parts
/// pipeline reports the child's status as its error, `AbortMultipartUpload`
/// is asked for the upload, and whatever comes of the abort, the result is
/// the error that names the child's status.
pub proof fn law_child_failure_aborts(
    sending: UploadView,
    status: Seq<char>,
    aborted: Result<(), Seq<char>>,
)
    requires
        sending.phase is SendingParts,
    ensures
        ({
            let failure = child_failed(status);
            let (aborting, first) = sending.next(EventView::PartsSent(Err(failure)));
            let (finished, second) = aborting.next(EventView::Aborted(aborted));
            &&& first == ActionView::Call(sending.abort_request(sending.phase->SendingParts_upload_id))
            &&& second == ActionView::Return(Err(failure))
            &&& finished.phase == PhaseView::Finished
        }),
{
    law_failure_aborts(sending, child_failed(status), aborted);
}

/// No request follows the result: once an upload has finished, every event
/// is answered with an error and the upload stays finished.
pub proof fn law_finished_stays(finished: UploadView, event: EventView)
    requires
        finished.phase == PhaseView::Finished,
    ensures
        finished.next(event).0 == finished,
        finished.next(event).1 == ActionView::Return(Err(out_of_turn())),
{
}

} // verus!
