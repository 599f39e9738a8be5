//! The parts of one multipart upload: the reader numbers each buffer that it
//! hands to the senders, the senders' acknowledgements come back in any
//! order, and at the end the parts go to the store in the order of their
//! numbers.
//!
//! The session decides; the caller reads the stream, sends the parts and
//! reports what happened.

use crate::digest::content_md5;
use crate::digest::content_md5_of;
use crate::part_size::MAX_S3_PART_COUNT;
use crate::s3_utils::CompletedPart;
use crate::s3_utils::PartView;
use crate::s3_utils::S3UploadFailedError;
use crate::s3_utils::UploadContext;
use crate::s3_utils::UploadError;
use crate::s3_utils::UploadErrorView;
use crate::text::joined;
use vstd::prelude::*;
use vstd::string::StringExecFns;

verus! {

/// How many buffers may wait between the reader and the senders.
pub const BUFFER_CHANNEL_CAPACITY: usize = 2;

/// The worker threads that an upload needs on a machine with `logical_cpus`
/// processors: one for each, and not fewer than two, so that a reader that
/// waits for the child does not keep the senders from their work.
pub fn worker_threads(logical_cpus: usize) -> (threads: usize)
    ensures
        threads == if logical_cpus < 2 {
            2
        } else {
            logical_cpus
        },
{
    if logical_cpus < 2 {
        2
    } else {
        logical_cpus
    }
}

/// What the reader does with the buffer it has just filled.
#[derive(Copy, Clone, PartialEq, Eq, Debug, Structural)]
pub enum ReaderStep {
    /// Hand the buffer to the senders under this part number, and report
    /// to the progress callback the bytes sent so far.
    Submit { part_number: i64, progress: u64 },
    /// The buffer is empty: the stream has ended.
    EndOfStream,
}

/// One `UploadPart` request, but for the bytes themselves.
#[derive(Clone, PartialEq, Eq, Debug)]
pub struct PartRequest {
    pub bucket: String,
    pub key: String,
    pub upload_id: String,
    pub part_number: i64,
    pub content_length: usize,
    pub content_md5: String,
}

/// A `PartRequest` as plain values.
pub struct PartRequestView {
    pub bucket: Seq<char>,
    pub key: Seq<char>,
    pub upload_id: Seq<char>,
    pub part_number: int,
    pub content_length: nat,
    pub content_md5: Seq<char>,
}

impl View for PartRequest {
    type V = PartRequestView;

    open spec fn view(&self) -> PartRequestView {
        PartRequestView {
            bucket: self.bucket@,
            key: self.key@,
            upload_id: self.upload_id@,
            part_number: self.part_number as int,
            content_length: self.content_length as nat,
            content_md5: self.content_md5@,
        }
    }
}

/// The request that uploads `data` as part `part_number`: it names the
/// upload, gives the exact length of the part and the digest of its bytes.
/// Every attempt at the part sends this same request.
pub fn part_request(context: &UploadContext, part_number: i64, data: &[u8]) -> (request:
    PartRequest)
    ensures
        request@ == (PartRequestView {
            bucket: context@.bucket,
            key: context@.key,
            upload_id: context@.upload_id,
            part_number: part_number as int,
            content_length: data@.len(),
            content_md5: content_md5_of(data@),
        }),
{
    PartRequest {
        bucket: context.bucket.clone(),
        key: context.key.clone(),
        upload_id: context.upload_id.clone(),
        part_number,
        content_length: data.len(),
        content_md5: content_md5(data),
    }
}

/// What the parts pipeline hands over when every part is with the store.
#[derive(Clone, PartialEq, Eq, Debug)]
pub struct SentParts {
    /// The parts in the order of their numbers.
    pub parts: Vec<CompletedPart>,
    /// The bytes of all of them.
    pub bytes_sent: u64,
}

/// `SentParts` as plain values.
pub struct SentPartsView {
    pub parts: Seq<PartView>,
    pub bytes_sent: nat,
}

impl View for SentParts {
    type V = SentPartsView;

    open spec fn view(&self) -> SentPartsView {
        SentPartsView { parts: self.parts.deep_view(), bytes_sent: self.bytes_sent as nat }
    }
}

/// The parts of an upload as the session knows them: the size of each part
/// handed out, in the order of the part numbers, and the store's tag of each
/// part acknowledged.
pub struct SessionView {
    pub sizes: Seq<nat>,
    pub e_tags: Seq<Option<Seq<char>>>,
}

/// The bytes of the parts that have a tag.
pub open spec fn acknowledged_bytes(sizes: Seq<nat>, e_tags: Seq<Option<Seq<char>>>) -> nat
    recommends
        sizes.len() == e_tags.len(),
    decreases sizes.len(),
{
    if sizes.len() == 0 || e_tags.len() == 0 {
        0
    } else {
        acknowledged_bytes(sizes.drop_last(), e_tags.drop_last()) + if e_tags.last() is Some {
            sizes.last()
        } else {
            0
        }
    }
}

/// The sum of `sizes`.
pub open spec fn total_bytes(sizes: Seq<nat>) -> nat
    decreases sizes.len(),
{
    if sizes.len() == 0 {
        0
    } else {
        total_bytes(sizes.drop_last()) + sizes.last()
    }
}

impl SessionView {
    /// No part has been handed out.
    pub open spec fn empty() -> SessionView {
        SessionView { sizes: Seq::empty(), e_tags: Seq::empty() }
    }

    /// Every part has a size above zero and a place for its tag, there are
    /// no more parts than the store takes, and no more bytes than a `u64`
    /// counts.
    pub open spec fn wf(self) -> bool {
        &&& self.sizes.len() == self.e_tags.len()
        &&& self.sizes.len() <= MAX_S3_PART_COUNT
        &&& forall|i: int| 0 <= i < self.sizes.len() ==> #[trigger] self.sizes[i] > 0
        &&& self.bytes_read() <= u64::MAX
    }

    /// Whether one more part, of `size` bytes, can be handed out.
    pub open spec fn has_room_for(self, size: nat) -> bool {
        &&& self.parts() < MAX_S3_PART_COUNT
        &&& self.bytes_read() + size <= u64::MAX
    }

    /// The number of parts handed out: their numbers are 1 to `parts()`.
    pub open spec fn parts(self) -> nat {
        self.sizes.len()
    }

    /// Whether part `part_number` was handed out and has no tag yet.
    pub open spec fn awaits(self, part_number: int) -> bool {
        &&& 1 <= part_number <= self.parts()
        &&& self.e_tags[part_number - 1] is None
    }

    /// Whether every part handed out has its tag.
    pub open spec fn all_acknowledged(self) -> bool {
        forall|i: int| 0 <= i < self.e_tags.len() ==> #[trigger] self.e_tags[i] is Some
    }

    /// The bytes read from the stream: the sizes of all parts.
    pub open spec fn bytes_read(self) -> nat {
        total_bytes(self.sizes)
    }

    /// The bytes sent: the sizes of the parts acknowledged.
    pub open spec fn bytes_sent(self) -> nat {
        acknowledged_bytes(self.sizes, self.e_tags)
    }

    /// The session after a buffer of `size` bytes was handed out.
    pub open spec fn submit(self, size: nat) -> SessionView {
        SessionView { sizes: self.sizes.push(size), e_tags: self.e_tags.push(None) }
    }

    /// The session after `part` was acknowledged.
    pub open spec fn acknowledge(self, part: PartView) -> SessionView {
        SessionView {
            sizes: self.sizes,
            e_tags: self.e_tags.update(part.part_number - 1, Some(part.e_tag)),
        }
    }

    /// The session after buffers of the given sizes were handed out, one
    /// after the other.
    pub open spec fn submit_all(self, sizes: Seq<nat>) -> SessionView
        decreases sizes.len(),
    {
        if sizes.len() == 0 {
            self
        } else {
            self.submit_all(sizes.drop_last()).submit(sizes.last())
        }
    }

    /// The parts in the order of their numbers, as they go to the store when
    /// the upload is completed.
    pub open spec fn completed_parts(self) -> Seq<PartView>
        recommends
            self.all_acknowledged(),
    {
        Seq::new(
            self.e_tags.len(),
            |i: int| PartView { part_number: i + 1, e_tag: self.e_tags[i]->0 },
        )
    }
}

/// The error of a stream that needs more parts than the store takes, or
/// holds more bytes than can be counted.
pub open spec fn too_many_parts() -> UploadErrorView {
    UploadErrorView::Failed("uploadparts"@, "the stream is too long for one upload"@)
}

/// The error of an acknowledgement for a part that is not awaited.
pub open spec fn unexpected_part() -> UploadErrorView {
    UploadErrorView::Failed("uploadparts"@, "a part was acknowledged that is not awaited"@)
}

/// The error of completing an upload of which a part has no tag.
pub open spec fn missing_part() -> UploadErrorView {
    UploadErrorView::Failed("uploadparts"@, "a part was never acknowledged"@)
}

/// The error of a child process that ended with the failure `status`.
pub open spec fn child_failed(status: Seq<char>) -> UploadErrorView {
    UploadErrorView::Failed("uploadparts"@, "zfs command exited with error code "@ + status)
}

fn failure(reason: &str) -> (error: UploadError)
    ensures
        error@ == UploadErrorView::Failed("uploadparts"@, reason@),
{
    UploadError::Failed(S3UploadFailedError(String::from_str("uploadparts"), String::from_str(reason)))
}

/// Judges how the child process ended, once its output is read to the end. A
/// failure of the child fails the upload, with the child's status in the
/// error.
pub fn on_child_exit(success: bool, status: &str) -> (r: Result<(), UploadError>)
    ensures
        success ==> r is Ok,
        !success ==> r is Err && r->Err_0@ == child_failed(status@),
{
    if success {
        Ok(())
    } else {
        let reason = joined("zfs command exited with error code ", status);
        Err(failure(reason.as_str()))
    }
}

/// The parts of one multipart upload.
pub struct UploadSession {
    sizes: Vec<usize>,
    e_tags: Vec<Option<String>>,
    bytes_read: u64,
    bytes_sent: u64,
}

impl View for UploadSession {
    type V = SessionView;

    closed spec fn view(&self) -> SessionView {
        SessionView {
            sizes: Seq::new(self.sizes@.len(), |i: int| self.sizes@[i] as nat),
            e_tags: self.e_tags.deep_view(),
        }
    }
}

/// The tagged parts weigh no more than all parts.
pub proof fn lemma_sent_at_most_read(sizes: Seq<nat>, e_tags: Seq<Option<Seq<char>>>)
    requires
        sizes.len() == e_tags.len(),
    ensures
        acknowledged_bytes(sizes, e_tags) <= total_bytes(sizes),
    decreases sizes.len(),
{
    if sizes.len() > 0 {
        lemma_sent_at_most_read(sizes.drop_last(), e_tags.drop_last());
    }
}

proof fn lemma_acknowledge_adds(sizes: Seq<nat>, e_tags: Seq<Option<Seq<char>>>, i: int, tag: Seq<
    char,
>)
    requires
        sizes.len() == e_tags.len(),
        0 <= i < sizes.len(),
        e_tags[i] is None,
    ensures
        acknowledged_bytes(sizes, e_tags.update(i, Some(tag))) == acknowledged_bytes(sizes, e_tags)
            + sizes[i],
    decreases sizes.len(),
{
    let after = e_tags.update(i, Some(tag));
    if i == sizes.len() - 1 {
        assert(after.drop_last() =~= e_tags.drop_last());
    } else {
        lemma_acknowledge_adds(sizes.drop_last(), e_tags.drop_last(), i, tag);
        assert(after.drop_last() =~= e_tags.drop_last().update(i, Some(tag)));
    }
}

impl UploadSession {
    /// The session is well formed, and its counts of the bytes are right.
    pub closed spec fn wf(&self) -> bool {
        &&& self@.wf()
        &&& self.bytes_read == self@.bytes_read()
        &&& self.bytes_sent == self@.bytes_sent()
    }

    /// What a well-formed session holds is well formed: each part has its
    /// place for a tag, and there are no more parts than the store takes.
    pub proof fn lemma_wf_holds_of_view(&self)
        requires
            self.wf(),
        ensures
            self@.wf(),
            self@.sizes.len() == self@.e_tags.len(),
            self@.parts() <= MAX_S3_PART_COUNT,
    {
    }

    /// A session in which no part has been handed out.
    pub fn new() -> (session: UploadSession)
        ensures
            session.wf(),
            session@ == SessionView::empty(),
    {
        let session = UploadSession {
            sizes: Vec::new(),
            e_tags: Vec::new(),
            bytes_read: 0,
            bytes_sent: 0,
        };
        assert(session@.sizes =~= Seq::empty());
        assert(session@.e_tags =~= Seq::empty());
        session
    }

    /// The number of parts handed out so far.
    pub fn parts(&self) -> (n: usize)
        requires
            self.wf(),
        ensures
            n == self@.parts(),
    {
        self.sizes.len()
    }

    /// The bytes of the parts acknowledged so far.
    pub fn bytes_sent(&self) -> (n: u64)
        requires
            self.wf(),
        ensures
            n == self@.bytes_sent(),
    {
        self.bytes_sent
    }

    /// Takes the length of the buffer that the reader has just filled. A
    /// buffer with bytes in it gets the next part number, counted from 1, and
    /// the progress to report is the count of the bytes sent; an empty buffer
    /// ends the stream. A part beyond what one upload can hold is refused.
    pub fn on_buffer(&mut self, bytes_read: usize) -> (step: Result<ReaderStep, UploadError>)
        requires
            old(self).wf(),
        ensures
            final(self).wf(),
            bytes_read == 0 ==> step == Ok::<ReaderStep, UploadError>(ReaderStep::EndOfStream)
                && final(self)@ == old(self)@,
            bytes_read > 0 && old(self)@.has_room_for(bytes_read as nat) ==> step == Ok::<
                ReaderStep,
                UploadError,
            >(
                ReaderStep::Submit {
                    part_number: (old(self)@.parts() + 1) as i64,
                    progress: old(self)@.bytes_sent() as u64,
                },
            ) && final(self)@ == old(self)@.submit(bytes_read as nat),
            bytes_read > 0 && !old(self)@.has_room_for(bytes_read as nat) ==> step is Err
                && step->Err_0@ == too_many_parts() && final(self)@ == old(self)@,
    {
        if bytes_read == 0 {
            return Ok(ReaderStep::EndOfStream);
        }
        if self.sizes.len() >= MAX_S3_PART_COUNT || bytes_read as u64 > u64::MAX
            - self.bytes_read {
            return Err(failure("the stream is too long for one upload"));
        }
        let ghost before = self@;
        self.sizes.push(bytes_read);
        self.e_tags.push(None);
        self.bytes_read = self.bytes_read + bytes_read as u64;
        proof {
            assert(self@.sizes =~= before.sizes.push(bytes_read as nat));
            assert(self@.e_tags =~= before.e_tags.push(None));
            assert(self@.sizes.drop_last() =~= before.sizes);
            assert(self@.e_tags.drop_last() =~= before.e_tags);
        }
        Ok(ReaderStep::Submit { part_number: self.sizes.len() as i64, progress: self.bytes_sent })
    }

    /// Takes what a sender reports of one part. A part that was handed out
    /// and has no tag yet is acknowledged, and its bytes count as sent. A
    /// sender's failure is the failure of the upload, in the sender's words.
    pub fn on_completion(&mut self, outcome: Result<CompletedPart, String>) -> (r: Result<
        (),
        UploadError,
    >)
        requires
            old(self).wf(),
        ensures
            final(self).wf(),
            match outcome {
                Ok(part) => if old(self)@.awaits(part@.part_number) {
                    r is Ok && final(self)@ == old(self)@.acknowledge(part@)
                } else {
                    r is Err && r->Err_0@ == unexpected_part() && final(self)@ == old(self)@
                },
                Err(reason) => r is Err && r->Err_0@ == UploadErrorView::Store(reason@)
                    && final(self)@ == old(self)@,
            },
    {
        match outcome {
            Err(reason) => Err(UploadError::Store(reason)),
            Ok(part) => {
                if part.part_number < 1 || part.part_number > self.sizes.len() as i64 {
                    return Err(failure("a part was acknowledged that is not awaited"));
                }
                let index: usize = (part.part_number - 1) as usize;
                if self.e_tags[index].is_some() {
                    return Err(failure("a part was acknowledged that is not awaited"));
                }
                let ghost before = self@;
                let ghost tag = part.e_tag@;
                proof {
                    lemma_acknowledge_adds(before.sizes, before.e_tags, index as int, tag);
                    lemma_sent_at_most_read(
                        before.sizes,
                        before.e_tags.update(index as int, Some(tag)),
                    );
                }
                self.bytes_sent = self.bytes_sent + self.sizes[index] as u64;
                self.e_tags.set(index, Some(part.e_tag));
                proof {
                    assert(self@.sizes =~= before.sizes);
                    assert(self@.e_tags =~= before.e_tags.update(index as int, Some(tag)));
                }
                Ok(())
            },
        }
    }

    /// What the pipeline hands over at its end: every part handed out, in
    /// the order of the part numbers 1, 2, ..., each with its tag, and the
    /// bytes of all of them. Where a part has no tag, the upload cannot be
    /// completed.
    pub fn finish(&self) -> (r: Result<SentParts, UploadError>)
        requires
            self.wf(),
        ensures
            self@.all_acknowledged() ==> r is Ok && r->Ok_0@ == (SentPartsView {
                parts: self@.completed_parts(),
                bytes_sent: self@.bytes_read(),
            }),
            !self@.all_acknowledged() ==> r is Err && r->Err_0@ == missing_part(),
            r matches Ok(sent) ==> sent@.parts.len() <= MAX_S3_PART_COUNT,
    {
        let mut parts: Vec<CompletedPart> = Vec::new();
        let mut i: usize = 0;
        while i < self.e_tags.len()
            invariant
                self.wf(),
                i <= self.e_tags.len(),
                parts.len() == i,
                forall|k: int| 0 <= k < i ==> #[trigger] self@.e_tags[k] is Some,
                forall|k: int|
                    0 <= k < i ==> #[trigger] parts@[k]@ == (PartView {
                        part_number: k + 1,
                        e_tag: self@.e_tags[k]->0,
                    }),
            decreases self.e_tags.len() - i,
        {
            match &self.e_tags[i] {
                None => {
                    assert(self@.e_tags[i as int] is None);
                    return Err(failure("a part was never acknowledged"));
                },
                Some(tag) => {
                    parts.push(CompletedPart { part_number: (i + 1) as i64, e_tag: tag.clone() });
                },
            }
            i += 1;
        }
        proof {
            assert(parts.deep_view() =~= self@.completed_parts());
            law_all_acknowledged(self@);
        }
        Ok(SentParts { parts, bytes_sent: self.bytes_sent })
    }
}

/// The buffers of a stream get the part numbers 1, 2, 3, ... in the order in
/// which they were read: after any beginning of the stream, the next part
/// number is one more than the number of buffers so far, and the session
/// holds the sizes of exactly those buffers.
pub proof fn law_part_numbers_contiguous(sizes: Seq<nat>)
    requires
        sizes.len() <= MAX_S3_PART_COUNT,
        forall|i: int| 0 <= i < sizes.len() ==> sizes[i] > 0,
        total_bytes(sizes) <= u64::MAX,
    ensures
        SessionView::empty().submit_all(sizes).wf(),
        SessionView::empty().submit_all(sizes).sizes == sizes,
        SessionView::empty().submit_all(sizes).parts() == sizes.len(),
        forall|n: int|
            1 <= n <= sizes.len() ==> #[trigger] SessionView::empty().submit_all(sizes).awaits(n),
    decreases sizes.len(),
{
    let end = SessionView::empty().submit_all(sizes);
    if sizes.len() == 0 {
        assert(end.sizes =~= sizes);
    } else {
        let before = sizes.drop_last();
        law_part_numbers_contiguous(before);
        let mid = SessionView::empty().submit_all(before);
        assert(end == mid.submit(sizes.last()));
        assert(end.sizes =~= sizes);
        assert forall|n: int| 1 <= n <= sizes.len() implies #[trigger] end.awaits(n) by {
            if n < sizes.len() {
                assert(mid.awaits(n));
            }
        }
    }
}

/// Once every part is acknowledged, the bytes sent are the bytes read, and
/// the parts that go to the store carry the numbers 1 to `parts()`, each
/// once, in rising order.
pub proof fn law_all_acknowledged(session: SessionView)
    requires
        session.wf(),
        session.all_acknowledged(),
    ensures
        session.bytes_sent() == session.bytes_read(),
        session.completed_parts().len() == session.parts(),
        forall|i: int|
            0 <= i < session.parts() ==> (#[trigger] session.completed_parts()[i]).part_number == i
                + 1,
{
    lemma_all_tagged(session.sizes, session.e_tags);
}

proof fn lemma_all_tagged(sizes: Seq<nat>, e_tags: Seq<Option<Seq<char>>>)
    requires
        sizes.len() == e_tags.len(),
        forall|i: int| 0 <= i < e_tags.len() ==> #[trigger] e_tags[i] is Some,
    ensures
        acknowledged_bytes(sizes, e_tags) == total_bytes(sizes),
    decreases sizes.len(),
{
    if sizes.len() > 0 {
        assert(e_tags[e_tags.len() - 1] is Some);
        assert forall|i: int| 0 <= i < e_tags.drop_last().len() implies #[trigger] e_tags.drop_last()[i] is Some by {
            assert(e_tags[i] is Some);
        }
        lemma_all_tagged(sizes.drop_last(), e_tags.drop_last());
    }
}

/// The count of the bytes sent never falls: handing out a part leaves it as
/// it is, and an acknowledgement adds the size of its part.
pub proof fn law_bytes_sent_monotonic(session: SessionView, size: nat, part: PartView)
    requires
        session.wf(),
    ensures
        session.submit(size).bytes_sent() == session.bytes_sent(),
        session.awaits(part.part_number) ==> session.acknowledge(part).bytes_sent()
            == session.bytes_sent() + session.sizes[part.part_number - 1],
{
    let next = session.submit(size);
    assert(next.sizes.drop_last() =~= session.sizes);
    assert(next.e_tags.drop_last() =~= session.e_tags);
    if session.awaits(part.part_number) {
        lemma_acknowledge_adds(
            session.sizes,
            session.e_tags,
            part.part_number - 1,
            part.e_tag,
        );
    }
}

/// The buffers that a reader fills from `stream`: each holds `buf_size`
/// bytes but the last, which holds what is left. A stream without bytes
/// fills none.
pub open spec fn buffers_of(stream: Seq<u8>, buf_size: nat) -> Seq<Seq<u8>>
    decreases stream.len(),
{
    if stream.len() == 0 || buf_size == 0 {
        Seq::empty()
    } else if stream.len() <= buf_size {
        seq![stream]
    } else {
        seq![stream.take(buf_size as int)] + buffers_of(stream.skip(buf_size as int), buf_size)
    }
}

/// The lengths of `buffers`.
pub open spec fn sizes_of(buffers: Seq<Seq<u8>>) -> Seq<nat> {
    Seq::new(buffers.len(), |i: int| buffers[i].len())
}

/// The bytes of the object that the store puts together when an upload is
/// completed with `parts`: the bytes of the parts named, in the order in
/// which they are named. `bodies` holds at `n - 1` the bytes that were sent
/// as part `n`.
pub open spec fn object_of(parts: Seq<PartView>, bodies: Seq<Seq<u8>>) -> Seq<u8> {
    Seq::new(parts.len(), |i: int| bodies[parts[i].part_number - 1]).flatten()
}

proof fn lemma_total_from_front(first: nat, rest: Seq<nat>)
    ensures
        total_bytes(seq![first] + rest) == first + total_bytes(rest),
    decreases rest.len(),
{
    let all = seq![first] + rest;
    if rest.len() == 0 {
        assert(all.drop_last() =~= Seq::<nat>::empty());
        assert(total_bytes(all.drop_last()) == 0);
    } else {
        lemma_total_from_front(first, rest.drop_last());
        assert(all.drop_last() =~= seq![first] + rest.drop_last());
        assert(all.last() == rest.last());
    }
}

/// A stream of `L` bytes read into buffers of `S` bytes fills `L / S`
/// buffers, rounded up: none where the stream is empty. No buffer is empty,
/// each holds `S` bytes but the last, and the buffers one after the other
/// are the stream.
pub proof fn law_stream_fills_buffers(stream: Seq<u8>, buf_size: nat)
    requires
        buf_size > 0,
    ensures
        buffers_of(stream, buf_size).len() == (stream.len() + buf_size - 1) / (buf_size as int),
        stream.len() == 0 ==> buffers_of(stream, buf_size).len() == 0,
        buffers_of(stream, buf_size).flatten() == stream,
        total_bytes(sizes_of(buffers_of(stream, buf_size))) == stream.len(),
        forall|i: int|
            0 <= i < buffers_of(stream, buf_size).len() ==> 0 < (#[trigger] buffers_of(
                stream,
                buf_size,
            )[i]).len() <= buf_size,
        forall|i: int|
            0 <= i < buffers_of(stream, buf_size).len() - 1 ==> (#[trigger] buffers_of(
                stream,
                buf_size,
            )[i]).len() == buf_size,
    decreases stream.len(),
{
    let buffers = buffers_of(stream, buf_size);
    let length = stream.len() as int;
    let size = buf_size as int;
    if stream.len() == 0 {
        assert((length + size - 1) / size == 0) by (nonlinear_arith)
            requires
                length == 0,
                size > 0,
        ;
        assert(buffers.flatten() =~= stream);
        assert(sizes_of(buffers) =~= Seq::<nat>::empty());
    } else if stream.len() <= buf_size {
        assert((length + size - 1) / size == 1) by (nonlinear_arith)
            requires
                0 < length <= size,
        ;
        buffers.lemma_flatten_one_element();
        assert(buffers.first() == stream);
        assert(sizes_of(buffers) =~= seq![stream.len()] + Seq::<nat>::empty());
        lemma_total_from_front(stream.len(), Seq::<nat>::empty());
    } else {
        let head = stream.take(size);
        let left = stream.skip(size);
        let rest = buffers_of(left, buf_size);
        law_stream_fills_buffers(left, buf_size);
        assert((length + size - 1) / size == 1 + ((length - size) + size - 1) / size)
            by (nonlinear_arith)
            requires
                size > 0,
                length > size,
        ;
        assert(buffers.first() == head);
        assert(buffers.drop_first() =~= rest);
        assert(head + left =~= stream);
        assert(sizes_of(buffers) =~= seq![head.len()] + sizes_of(rest));
        lemma_total_from_front(head.len(), sizes_of(rest));
        assert(rest.len() > 0);
        assert forall|i: int| 0 <= i < buffers.len() implies 0 < (#[trigger] buffers[i]).len()
            <= buf_size by {
            if i > 0 {
                assert(buffers[i] == rest[i - 1]);
            }
        }
        assert forall|i: int| 0 <= i < buffers.len() - 1 implies (#[trigger] buffers[i]).len()
            == buf_size by {
            if i > 0 {
                assert(buffers[i] == rest[i - 1]);
            }
        }
    }
}

proof fn lemma_sizes_weigh_the_bytes(buffers: Seq<Seq<u8>>)
    ensures
        total_bytes(sizes_of(buffers)) == buffers.flatten().len(),
    decreases buffers.len(),
{
    if buffers.len() == 0 {
        assert(sizes_of(buffers) =~= Seq::<nat>::empty());
    } else {
        let rest = buffers.drop_first();
        lemma_sizes_weigh_the_bytes(rest);
        assert(sizes_of(buffers) =~= seq![buffers.first().len()] + sizes_of(rest));
        lemma_total_from_front(buffers.first().len(), sizes_of(rest));
    }
}

/// An upload whose parts are the buffers that the reader filled, in the
/// order in which it filled them, and all acknowledged, in whatever order:
/// there are as many parts as buffers, the bytes sent are the bytes of the
/// buffers, and the object that the store puts together of the parts handed
/// over is the buffers one after the other, byte for byte.
pub proof fn law_object_is_what_was_read(buffers: Seq<Seq<u8>>, session: SessionView)
    requires
        session.wf(),
        session.sizes == sizes_of(buffers),
        session.all_acknowledged(),
    ensures
        session.parts() == buffers.len(),
        session.completed_parts().len() == buffers.len(),
        session.bytes_sent() == buffers.flatten().len(),
        object_of(session.completed_parts(), buffers) == buffers.flatten(),
{
    law_all_acknowledged(session);
    lemma_sizes_weigh_the_bytes(buffers);
    let parts = session.completed_parts();
    assert(Seq::new(parts.len(), |i: int| buffers[parts[i].part_number - 1]) =~= buffers);
}

/// An upload of a stream of `L` bytes that was read into buffers of `S`
/// bytes, once all its parts are acknowledged: it has `L / S` parts, rounded
/// up, the bytes sent are `L`, and the object that the store puts together
/// is the stream, byte for byte.
pub proof fn law_object_is_stream(stream: Seq<u8>, buf_size: nat, session: SessionView)
    requires
        buf_size > 0,
        session.wf(),
        session.sizes == sizes_of(buffers_of(stream, buf_size)),
        session.all_acknowledged(),
    ensures
        session.parts() == (stream.len() + buf_size - 1) / (buf_size as int),
        session.bytes_sent() == stream.len(),
        object_of(session.completed_parts(), buffers_of(stream, buf_size)) == stream,
{
    law_stream_fills_buffers(stream, buf_size);
    law_object_is_what_was_read(buffers_of(stream, buf_size), session);
}

} // verus!
