//! What passes between a job and its caller: the events that the caller
//! reports, the actions that the job asks for, and the rules by which one
//! follows from the other.

use crate::archive::entry_names;
use crate::archive::name_fits;
use crate::archive::with_chunk;
use crate::archive::Archiver;
use crate::error::ErrorKind;
use crate::error::STATUS_OK;
use crate::fetch::key_views;
use crate::partition::effective_part_size;
use crate::partition::is_partition;
use crate::partition::StoreLimits;
use crate::partition::UploadPart;
use crate::upload::canonical;
use crate::upload::CompletedPart;
use crate::upload::PartFailure;
use crate::upload::SessionView;
use vstd::multiset::Multiset;
use vstd::prelude::*;

verus! {


/// Where a job stands. A job only ever moves forward through its phases.
#[derive(Clone, Copy, Debug, PartialEq, Eq, Structural)]
pub enum Phase {
    /// The request was taken; nothing has been asked of the store.
    Dispatched,
    /// The retrievals were launched; no outcome has arrived.
    Fetching,
    /// Outcomes arrive and their bodies are written into the archive.
    Assembling,
    /// The archive is sealed and cut into parts; the upload is being created.
    Partitioning,
    /// The parts are being uploaded, or the upload is being ended.
    Uploading,
    /// The archive is stored.
    Completed,
    /// The job has failed.
    Failed,
}

impl Phase {
    /// The place of the phase in the order of phases.
    pub open spec fn rank(self) -> nat {
        match self {
            Phase::Dispatched => 0,
            Phase::Fetching => 1,
            Phase::Assembling => 2,
            Phase::Partitioning => 3,
            Phase::Uploading => 4,
            Phase::Completed => 5,
            Phase::Failed => 5,
        }
    }

    /// The job has ended, one way or the other.
    pub open spec fn terminal(self) -> bool {
        self == Phase::Completed || self == Phase::Failed
    }

    /// Whether the job has ended.
    pub fn is_terminal(self) -> (b: bool)
        ensures
            b == self.terminal(),
    {
        match self {
            Phase::Completed => true,
            Phase::Failed => true,
            _ => false,
        }
    }
}

/// What a job is configured with.
#[derive(Debug)]
pub struct JobConfig {
    /// The bucket that holds the requested objects.
    pub source_bucket: String,
    /// The bucket that the archive is written to.
    pub dest_bucket: String,
    /// The key under which the archive is stored.
    pub dest_key: String,
    /// The limits of the store.
    pub limits: StoreLimits,
    /// The target size of an upload part, in bytes.
    pub part_size: u64,
}

/// A request: the keys of the objects to put into one archive. A key that
/// is named twice is archived twice.
#[derive(Debug)]
pub struct ArchiveRequest {
    pub keys: Vec<String>,
}

/// Why a configuration is refused.
#[derive(Clone, Copy, Debug, PartialEq, Eq, Structural)]
pub enum ConfigError {
    /// The limits of the store make no sense.
    Limits,
    /// The target part size is below the store's minimum.
    PartSizeTooSmall,
    /// The target part size is above the store's maximum.
    PartSizeTooLarge,
}

/// A call that changes what the store holds under the destination key.
#[derive(Clone, Copy, Debug, PartialEq, Eq, Structural)]
pub enum StoreCall {
    /// CreateMultipartUpload.
    Create,
    /// CompleteMultipartUpload.
    Complete,
    /// AbortMultipartUpload.
    Abort,
}

/// What the caller reports to the job.
#[derive(Debug)]
pub enum Event {
    /// The job may begin.
    Start,
    /// The retrieval of `key` succeeded; the chunks of its body follow.
    Fetched { key: String },
    /// The next chunk of the body that is being written.
    Chunk { bytes: Vec<u8> },
    /// The retrieval of `key`, or the reading of its body, failed.
    FetchFailed { key: String, kind: ErrorKind },
    /// Every retrieval has reported: no further outcome will come.
    FetchClosed,
    /// The store has answered the creation of the upload.
    UploadCreated { upload_id: Option<String> },
    /// The store has refused to create the upload, or was not reached.
    UploadRefused { kind: ErrorKind },
    /// A part was uploaded.
    PartUploaded { part: CompletedPart },
    /// The upload of a part failed for good.
    PartFailed { part_number: u32, kind: ErrorKind },
    /// The store has completed the upload.
    Completed,
    /// The store has refused to complete the upload, or was not reached.
    CompleteFailed { kind: ErrorKind },
    /// The upload was aborted.
    Aborted,
    /// The request was withdrawn, or its time is up.
    Cancelled,
}

impl Event {
    /// The report of a part whose upload the store has answered. The
    /// store names every part that it has taken by an entity tag, which
    /// the completion of the upload asks for. So an answer with a tag
    /// reports the upload of the part, and an answer without one its
    /// failure, as a failure of the store.
    pub fn part_answered(part_number: u32, entity_tag: Option<String>) -> (event: Event)
        ensures
            entity_tag matches Some(tag) ==> event == (Event::PartUploaded {
                part: CompletedPart { part_number, entity_tag: tag },
            }),
            entity_tag is None ==> event == (Event::PartFailed {
                part_number,
                kind: ErrorKind::ServiceError,
            }),
    {
        match entity_tag {
            Some(tag) => Event::PartUploaded {
                part: CompletedPart { part_number, entity_tag: tag },
            },
            None => Event::PartFailed { part_number, kind: ErrorKind::ServiceError },
        }
    }
}

/// The answer of a job.
#[derive(Debug)]
pub enum Reply {
    /// The archive is stored under `key`.
    Stored { key: String },
    /// The job has failed with a failure of this class.
    Failed { kind: ErrorKind },
}

impl Reply {
    /// The status with which the request is answered.
    pub open spec fn status_of(self) -> u16 {
        match self {
            Reply::Stored { .. } => STATUS_OK,
            Reply::Failed { kind } => kind.status_of(),
        }
    }

    /// The status with which the request is answered: 200 where the
    /// archive is stored, 404 where a key is missing, 500 otherwise.
    pub fn status(&self) -> (code: u16)
        ensures
            code == self.status_of(),
            code == 200 <==> self is Stored,
    {
        match self {
            Reply::Stored { .. } => STATUS_OK,
            Reply::Failed { kind } => kind.status(),
        }
    }
}

/// What the job asks of the caller.
#[derive(Debug)]
#[allow(inconsistent_fields)]
pub enum Action {
    /// Launch one retrieval for each of the keys.
    FetchAll { bucket: String, keys: Vec<String> },
    /// Nothing new: go on and report the next event.
    Continue,
    /// Create the multipart upload.
    CreateUpload { bucket: String, key: String },
    /// Upload every one of the parts.
    UploadParts { bucket: String, key: String, upload_id: String, parts: Vec<UploadPart> },
    /// Complete the upload with these parts, in this order.
    Complete { bucket: String, key: String, upload_id: String, parts: Vec<CompletedPart> },
    /// Abort the upload.
    Abort { bucket: String, key: String, upload_id: String },
    /// The job has ended: answer the request.
    Respond { reply: Reply },
}

/// A job as plain values.
pub ghost struct JobView {
    /// The configuration.
    pub config: JobConfig,
    /// The phase.
    pub phase: Phase,
    /// The requested keys, in the order of the request.
    pub keys: Seq<Seq<char>>,
    /// The requested keys that still owe an outcome.
    pub pending: Multiset<Seq<char>>,
    /// The archive under construction, as it was when the job last wrote
    /// into it.
    pub archiver: Archiver,
    /// The bytes of the sealed archive.
    pub archive: Seq<u8>,
    /// The parts that the sealed archive was cut into.
    pub parts: Seq<UploadPart>,
    /// The multipart upload, once the store has named it.
    pub session: Option<SessionView>,
    /// The class of the failure, once the job has failed.
    pub failure: Option<ErrorKind>,
    /// The job was cancelled while the upload was being created.
    pub cancelled: bool,
    /// The calls made so far that change what the store holds under the
    /// destination key, in their order.
    pub calls: Seq<StoreCall>,
}

/// No part of the session failed for want of a source key.
pub open spec fn failures_on_write(s: SessionView) -> bool {
    forall|i: int| 0 <= i < s.failed.len() ==> (#[trigger] s.failed[i]).kind != ErrorKind::NotFound
}

impl JobView {
    /// The entries of the archive: names and bytes, in the order in which
    /// the outcomes were taken.
    pub open spec fn entries(self) -> Seq<(Seq<char>, Seq<u8>)> {
        self.archiver.entries()
    }

    /// The job takes the outcomes of retrievals.
    pub open spec fn fetching(self) -> bool {
        self.phase == Phase::Fetching || self.phase == Phase::Assembling
    }

    /// The part size in use for the sealed archive.
    pub open spec fn part_size(self) -> int {
        effective_part_size(
            self.archive.len() as int,
            self.config.part_size as int,
            self.config.limits.max_part_count as int,
        )
    }

    /// The archive is sealed: every key has had its outcome, the bytes are
    /// those that the archiver has handed out, and they are cut into at
    /// least one part.
    pub open spec fn sealed(self) -> bool {
        &&& self.pending.len() == 0
        &&& self.archiver.sealed() == Some(self.archive)
        &&& self.archive.len() > 0
        &&& self.config.limits.holds(self.archive.len() as int)
        &&& is_partition(self.archive, self.part_size(), self.parts)
        &&& 1 <= self.parts.len() <= u32::MAX
    }

    /// The upload is open and collects the reports of its parts.
    pub open spec fn collecting(self) -> bool {
        self.phase == Phase::Uploading && self.calls == seq![StoreCall::Create]
    }

    /// The completing call was made and has not been answered.
    pub open spec fn completing(self) -> bool {
        self.phase == Phase::Uploading && self.calls == seq![StoreCall::Create, StoreCall::Complete]
    }

    /// The aborting call was made and has not been answered.
    pub open spec fn aborting(self) -> bool {
        self.phase == Phase::Uploading && self.calls == seq![StoreCall::Create, StoreCall::Abort]
    }

    /// The job as it is after it has failed with `kind`.
    pub open spec fn failed_with(self, kind: ErrorKind) -> JobView {
        JobView { phase: Phase::Failed, failure: Some(kind), ..self }
    }

    /// The session is one that this job can have.
    pub open spec fn session_fits(self, s: SessionView) -> bool {
        &&& s.valid()
        &&& failures_on_write(s)
        &&& s.expected == self.parts.len()
        &&& s.bucket == self.config.dest_bucket@
        &&& s.key == self.config.dest_key@
    }

    /// What holds of a job in every state that it can reach.
    pub open spec fn consistent(self) -> bool {
        &&& self.config.limits.wf()
        &&& self.config.limits.admits(self.config.part_size)
        &&& entry_names(self.entries()).to_multiset().add(self.pending)
            == self.keys.to_multiset()
        &&& match self.phase {
            Phase::Dispatched | Phase::Fetching => {
                &&& self.calls.len() == 0
                &&& self.session is None
                &&& self.failure is None
                &&& !self.cancelled
                &&& self.entries().len() == 0
            },
            Phase::Assembling => {
                &&& self.calls.len() == 0
                &&& self.session is None
                &&& self.failure is None
                &&& !self.cancelled
                &&& self.entries().len() > 0
            },
            Phase::Partitioning => {
                &&& self.sealed()
                &&& self.calls == seq![StoreCall::Create]
                &&& self.session is None
                &&& self.failure is None
            },
            Phase::Uploading => {
                &&& self.sealed()
                &&& self.failure is None
                &&& self.session matches Some(s)
                &&& self.session_fits(s)
                &&& {
                    ||| self.calls == seq![StoreCall::Create] && !s.drained()
                    ||| self.calls == seq![StoreCall::Create, StoreCall::Complete] && s.complete()
                    ||| self.calls == seq![StoreCall::Create, StoreCall::Abort] && !s.complete()
                }
            },
            Phase::Completed => {
                &&& self.sealed()
                &&& self.failure is None
                &&& self.session matches Some(s)
                &&& self.session_fits(s)
                &&& s.complete()
                &&& self.calls == seq![StoreCall::Create, StoreCall::Complete]
            },
            Phase::Failed => {
                &&& self.failure matches Some(kind)
                &&& {
                    ||| self.calls.len() == 0 && self.session is None
                    ||| {
                        &&& self.calls == seq![StoreCall::Create]
                        &&& self.session is None
                        &&& self.sealed()
                        &&& kind != ErrorKind::NotFound
                    }
                    ||| {
                        &&& self.calls == seq![StoreCall::Create, StoreCall::Abort]
                        &&& self.sealed()
                        &&& self.session matches Some(s)
                        &&& self.session_fits(s)
                        &&& !s.complete()
                        &&& kind == s.failure_kind()
                    }
                    ||| {
                        &&& self.calls == seq![StoreCall::Create, StoreCall::Complete]
                        &&& self.sealed()
                        &&& self.session matches Some(s)
                        &&& self.session_fits(s)
                        &&& s.complete()
                        &&& kind != ErrorKind::NotFound
                    }
                }
            },
        }
    }
}

/// The action answers the request with a failure of class `kind`.
pub open spec fn answers_failure(action: Action, kind: ErrorKind) -> bool {
    action matches Action::Respond { reply: Reply::Failed { kind: k } } && k == kind
}

/// The job fails with `kind` and says so; nothing else changes.
pub open spec fn fails(pre: JobView, post: JobView, action: Action, kind: ErrorKind) -> bool {
    post == pre.failed_with(kind) && answers_failure(action, kind)
}

/// The event changes nothing.
pub open spec fn ignores(pre: JobView, post: JobView, action: Action) -> bool {
    post == pre && action is Continue
}

/// What `Start` does.
pub open spec fn on_start(pre: JobView, post: JobView, action: Action) -> bool {
    if pre.phase == Phase::Dispatched {
        &&& post == JobView { phase: Phase::Fetching, ..pre }
        &&& action matches Action::FetchAll { bucket, keys }
        &&& bucket@ == pre.config.source_bucket@
        &&& key_views(keys@) == pre.keys
    } else {
        ignores(pre, post, action)
    }
}

/// What `Fetched` does: where an outcome was owed for the key, the key is
/// a name that the archive's format can hold, and the archive takes an
/// entry of that name, the outcome is taken and the entry is opened.
/// Otherwise the job fails.
pub open spec fn on_fetched(pre: JobView, key: Seq<char>, post: JobView, action: Action) -> bool {
    if pre.fetching() {
        if pre.pending.contains(key) && name_fits(key) && pre.archiver.takes_entry(key) {
            &&& post == JobView {
                phase: Phase::Assembling,
                pending: pre.pending.remove(key),
                archiver: post.archiver,
                ..pre
            }
            &&& post.entries() == pre.entries().push((key, Seq::empty()))
            &&& action is Continue
        } else {
            fails(pre, post, action, ErrorKind::InternalError)
        }
    } else {
        ignores(pre, post, action)
    }
}

/// What `Chunk` does: where the archive takes the bytes, they go into the
/// entry that was opened last. Otherwise, and where no entry was opened
/// yet, the job fails.
pub open spec fn on_chunk(pre: JobView, bytes: Seq<u8>, post: JobView, action: Action) -> bool {
    if pre.phase == Phase::Assembling {
        if pre.archiver.takes_bytes(bytes) {
            &&& post == JobView { archiver: post.archiver, ..pre }
            &&& post.entries() == with_chunk(pre.entries(), bytes)
            &&& action is Continue
        } else {
            fails(pre, post, action, ErrorKind::InternalError)
        }
    } else if pre.phase == Phase::Fetching {
        fails(pre, post, action, ErrorKind::InternalError)
    } else {
        ignores(pre, post, action)
    }
}

/// What `FetchFailed` does: the first failure that is seen ends the job,
/// with its class.
pub open spec fn on_fetch_failed(pre: JobView, kind: ErrorKind, post: JobView, action: Action) -> bool {
    if pre.fetching() {
        fails(pre, post, action, kind)
    } else {
        ignores(pre, post, action)
    }
}

/// The archive can be sealed and uploaded: no outcome is owed any more,
/// the archiver hands out its bytes, and these are bytes that the store
/// takes.
pub open spec fn ready_to_upload(pre: JobView) -> bool {
    &&& pre.pending.len() == 0
    &&& pre.archiver.sealed() matches Some(archive)
    &&& archive.len() > 0
    &&& pre.config.limits.holds(archive.len() as int)
}

/// What `FetchClosed` does: where the archive can be sealed and uploaded,
/// it is sealed, its bytes are cut into parts, and the upload is to be
/// created. Otherwise the job fails.
pub open spec fn on_fetch_closed(pre: JobView, post: JobView, action: Action) -> bool {
    if pre.fetching() {
        if ready_to_upload(pre) {
            &&& post == JobView {
                phase: Phase::Partitioning,
                archive: pre.archiver.sealed()->0,
                parts: post.parts,
                calls: seq![StoreCall::Create],
                ..pre
            }
            &&& post.sealed()
            &&& action matches Action::CreateUpload { bucket, key }
            &&& bucket@ == pre.config.dest_bucket@
            &&& key@ == pre.config.dest_key@
        } else {
            fails(pre, post, action, ErrorKind::InternalError)
        }
    } else {
        ignores(pre, post, action)
    }
}

/// The session as it is when the store has just named the upload.
pub open spec fn opened_session(pre: JobView, upload_id: Seq<char>) -> SessionView {
    SessionView {
        upload_id,
        bucket: pre.config.dest_bucket@,
        key: pre.config.dest_key@,
        expected: pre.parts.len(),
        received: Seq::empty(),
        failed: Seq::empty(),
    }
}

/// What `UploadCreated` does: with an upload identifier the parts are
/// handed out, or, where the job was cancelled meanwhile, the upload is
/// aborted at once; without an identifier the job fails.
pub open spec fn on_upload_created(
    pre: JobView,
    upload_id: Option<String>,
    post: JobView,
    action: Action,
) -> bool {
    if pre.phase == Phase::Partitioning {
        match upload_id {
            Some(id) => if pre.cancelled {
                &&& post == JobView {
                    phase: Phase::Uploading,
                    session: Some(opened_session(pre, id@)),
                    calls: seq![StoreCall::Create, StoreCall::Abort],
                    ..pre
                }
                &&& action matches Action::Abort { bucket, key, upload_id: given }
                &&& bucket@ == pre.config.dest_bucket@
                &&& key@ == pre.config.dest_key@
                &&& given@ == id@
            } else {
                &&& post == JobView {
                    phase: Phase::Uploading,
                    session: Some(opened_session(pre, id@)),
                    ..pre
                }
                &&& action matches Action::UploadParts { bucket, key, upload_id: given, parts }
                &&& bucket@ == pre.config.dest_bucket@
                &&& key@ == pre.config.dest_key@
                &&& given@ == id@
                &&& parts@ == pre.parts
            },
            None => fails(pre, post, action, ErrorKind::ServiceError),
        }
    } else {
        ignores(pre, post, action)
    }
}

/// What `UploadRefused` does.
pub open spec fn on_upload_refused(pre: JobView, kind: ErrorKind, post: JobView, action: Action) -> bool {
    if pre.phase == Phase::Partitioning {
        fails(pre, post, action, kind.on_write_of())
    } else {
        ignores(pre, post, action)
    }
}

/// What follows a report that the session has taken. While reports are
/// owed, nothing. With the last report the upload is ended: completed with
/// every part in the store's order if all were uploaded, aborted if any
/// failed.
pub open spec fn after_report(pre: JobView, s: SessionView, post: JobView, action: Action) -> bool {
    if !s.drained() {
        &&& post == JobView { session: Some(s), ..pre }
        &&& action is Continue
    } else if s.complete() {
        &&& post == JobView {
            session: Some(s),
            calls: seq![StoreCall::Create, StoreCall::Complete],
            ..pre
        }
        &&& action matches Action::Complete { bucket, key, upload_id, parts }
        &&& bucket@ == s.bucket
        &&& key@ == s.key
        &&& upload_id@ == s.upload_id
        &&& parts@.len() == s.expected
        &&& canonical(parts@)
        &&& parts@.to_multiset() == s.received.to_multiset()
    } else {
        &&& post == JobView {
            session: Some(s),
            calls: seq![StoreCall::Create, StoreCall::Abort],
            ..pre
        }
        &&& action matches Action::Abort { bucket, key, upload_id }
        &&& bucket@ == s.bucket
        &&& key@ == s.key
        &&& upload_id@ == s.upload_id
    }
}

/// What `PartUploaded` does.
pub open spec fn on_part_uploaded(pre: JobView, part: CompletedPart, post: JobView, action: Action) -> bool {
    if pre.collecting() && pre.session is Some && pre.session->0.accepts(part.part_number as int) {
        let s = pre.session->0;
        after_report(pre, SessionView { received: s.received.push(part), ..s }, post, action)
    } else {
        ignores(pre, post, action)
    }
}

/// What `PartFailed` does.
pub open spec fn on_part_failed(
    pre: JobView,
    part_number: u32,
    kind: ErrorKind,
    post: JobView,
    action: Action,
) -> bool {
    if pre.collecting() && pre.session is Some && pre.session->0.accepts(part_number as int) {
        let s = pre.session->0;
        let failure = PartFailure { part_number, kind: kind.on_write_of() };
        after_report(pre, SessionView { failed: s.failed.push(failure), ..s }, post, action)
    } else {
        ignores(pre, post, action)
    }
}

/// What `Completed` does.
pub open spec fn on_completed(pre: JobView, post: JobView, action: Action) -> bool {
    if pre.completing() {
        &&& post == JobView { phase: Phase::Completed, ..pre }
        &&& action matches Action::Respond { reply: Reply::Stored { key } }
        &&& key@ == pre.config.dest_key@
    } else {
        ignores(pre, post, action)
    }
}

/// What `CompleteFailed` does.
pub open spec fn on_complete_failed(pre: JobView, kind: ErrorKind, post: JobView, action: Action) -> bool {
    if pre.completing() {
        fails(pre, post, action, kind.on_write_of())
    } else {
        ignores(pre, post, action)
    }
}

/// What `Aborted` does.
pub open spec fn on_aborted(pre: JobView, post: JobView, action: Action) -> bool {
    if pre.aborting() && pre.session is Some {
        fails(pre, post, action, pre.session->0.failure_kind())
    } else {
        ignores(pre, post, action)
    }
}

/// What `Cancelled` does. Before anything was asked of the store for the
/// destination key, the job fails. While the upload is being created, the
/// job waits for its name, to abort it. An upload that collects reports
/// is aborted without waiting for them. Once the call that ends the
/// upload is made, it is too late.
pub open spec fn on_cancelled(pre: JobView, post: JobView, action: Action) -> bool {
    if pre.phase == Phase::Dispatched || pre.fetching() {
        fails(pre, post, action, ErrorKind::InternalError)
    } else if pre.phase == Phase::Partitioning {
        post == JobView { cancelled: true, ..pre } && action is Continue
    } else if pre.collecting() && pre.session is Some {
        let s = pre.session->0;
        &&& post == JobView { calls: seq![StoreCall::Create, StoreCall::Abort], ..pre }
        &&& action matches Action::Abort { bucket, key, upload_id }
        &&& bucket@ == s.bucket
        &&& key@ == s.key
        &&& upload_id@ == s.upload_id
    } else {
        ignores(pre, post, action)
    }
}

/// The job takes `event` in the state `pre`, is in the state `post`
/// afterwards and asks for `action`.
pub open spec fn transition(pre: JobView, event: Event, post: JobView, action: Action) -> bool {
    match event {
        Event::Start => on_start(pre, post, action),
        Event::Fetched { key } => on_fetched(pre, key@, post, action),
        Event::Chunk { bytes } => on_chunk(pre, bytes@, post, action),
        Event::FetchFailed { key, kind } => on_fetch_failed(pre, kind, post, action),
        Event::FetchClosed => on_fetch_closed(pre, post, action),
        Event::UploadCreated { upload_id } => on_upload_created(pre, upload_id, post, action),
        Event::UploadRefused { kind } => on_upload_refused(pre, kind, post, action),
        Event::PartUploaded { part } => on_part_uploaded(pre, part, post, action),
        Event::PartFailed { part_number, kind } => on_part_failed(
            pre,
            part_number,
            kind,
            post,
            action,
        ),
        Event::Completed => on_completed(pre, post, action),
        Event::CompleteFailed { kind } => on_complete_failed(pre, kind, post, action),
        Event::Aborted => on_aborted(pre, post, action),
        Event::Cancelled => on_cancelled(pre, post, action),
    }
}

/// The job as it is when the request was taken, with an archiver that
/// holds no entry yet.
pub open spec fn initial(config: JobConfig, keys: Seq<Seq<char>>, archiver: Archiver) -> JobView {
    JobView {
        config,
        phase: Phase::Dispatched,
        keys,
        pending: keys.to_multiset(),
        archiver,
        archive: Seq::empty(),
        parts: Seq::empty(),
        session: None,
        failure: None,
        cancelled: false,
        calls: Seq::empty(),
    }
}

} // verus!
