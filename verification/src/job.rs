//! The job orchestrator: one request, from its dispatch to its answer.
//!
//! A job is a state machine. The caller performs what the job asks for (a
//! retrieval, a call to the store) and reports what happened as an event;
//! the job takes the event and says what has to happen next.

use crate::archive::with_chunk;
use crate::archive::Archiver;
use crate::error::ErrorKind;
use crate::fetch::clone_keys;
use crate::fetch::key_views;
use crate::fetch::FetchLedger;
use crate::laws::lemma_calls_differ;
use crate::laws::lemma_initial_consistent;
use crate::laws::lemma_transition_consistent;
use crate::partition::partition;
use crate::partition::UploadPart;
use crate::protocol::after_report;
use crate::protocol::fails;
use crate::protocol::initial;
use crate::protocol::on_aborted;
use crate::protocol::on_cancelled;
use crate::protocol::on_chunk;
use crate::protocol::on_complete_failed;
use crate::protocol::on_completed;
use crate::protocol::on_fetch_closed;
use crate::protocol::on_fetch_failed;
use crate::protocol::on_fetched;
use crate::protocol::on_part_failed;
use crate::protocol::on_part_uploaded;
use crate::protocol::on_start;
use crate::protocol::on_upload_created;
use crate::protocol::on_upload_refused;
use crate::protocol::transition;
use crate::protocol::Action;
use crate::protocol::ArchiveRequest;
use crate::protocol::ConfigError;
use crate::protocol::Event;
use crate::protocol::JobConfig;
use crate::protocol::JobView;
use crate::protocol::Phase;
use crate::protocol::Reply;
use crate::protocol::StoreCall;
use crate::upload::CompletedPart;
use crate::upload::Finish;
use crate::upload::MultipartSession;
use crate::upload::PartFailure;
use vstd::prelude::*;

verus! {

/// What a job holds in each of its states.
enum State {
    Dispatched { keys: Vec<String>, archiver: Archiver },
    Fetching { ledger: FetchLedger, archiver: Archiver, assembling: bool },
    Partitioning { parts: Vec<UploadPart>, cancelled: bool },
    Uploading { session: MultipartSession },
    Completing,
    Aborting { kind: ErrorKind },
    Completed,
    Failed { kind: ErrorKind },
}

/// One request for an archive, from its dispatch to its answer.
pub struct Job {
    config: JobConfig,
    state: State,
    model: Ghost<JobView>,
}

impl View for Job {
    type V = JobView;

    closed spec fn view(&self) -> JobView {
        self.model@
    }
}

impl Job {
    /// What the job holds is what its view says.
    spec fn refines(&self) -> bool {
        let v = self.model@;
        &&& v.config == self.config
        &&& match self.state {
            State::Dispatched { keys, archiver } => {
                &&& v.phase == Phase::Dispatched
                &&& key_views(keys@) == v.keys
                &&& v.pending == v.keys.to_multiset()
                &&& archiver == v.archiver
            },
            State::Fetching { ledger, archiver, assembling } => {
                &&& v.fetching()
                &&& assembling <==> v.phase == Phase::Assembling
                &&& ledger.pending() == v.pending
                &&& archiver == v.archiver
            },
            State::Partitioning { parts, cancelled } => {
                &&& v.phase == Phase::Partitioning
                &&& parts@ == v.parts
                &&& cancelled == v.cancelled
            },
            State::Uploading { session } => {
                &&& v.collecting()
                &&& session.wf()
                &&& v.session == Some(session@)
            },
            State::Completing => v.completing(),
            State::Aborting { kind } => {
                &&& v.aborting()
                &&& v.session matches Some(s)
                &&& kind == s.failure_kind()
            },
            State::Completed => v.phase == Phase::Completed,
            State::Failed { kind } => v.phase == Phase::Failed && v.failure == Some(kind),
        }
    }

    /// The job is in a state that it can reach.
    pub closed spec fn wf(&self) -> bool {
        self.model@.consistent() && self.refines()
    }

    /// What holds of every job.
    pub proof fn lemma_wf(&self)
        requires
            self.wf(),
        ensures
            self@.consistent(),
    {
    }

    /// Takes a request. The configuration is refused where the limits
    /// make no sense or do not admit the target part size.
    pub fn new(config: JobConfig, request: ArchiveRequest) -> (res: Result<Job, ConfigError>)
        ensures
            res is Ok <==> config.limits.wf() && config.limits.admits(config.part_size),
            res matches Ok(job) ==> job.wf() && job@ == initial(
                config,
                key_views(request.keys@),
                job@.archiver,
            ) && job@.entries() == Seq::<(Seq<char>, Seq<u8>)>::empty(),
            res matches Err(e) ==> e == (if !config.limits.wf() {
                ConfigError::Limits
            } else if config.part_size < config.limits.min_part_size {
                ConfigError::PartSizeTooSmall
            } else {
                ConfigError::PartSizeTooLarge
            }),
    {
        if !config.limits.is_wf() {
            return Err(ConfigError::Limits);
        }
        if config.part_size < config.limits.min_part_size {
            return Err(ConfigError::PartSizeTooSmall);
        }
        if config.part_size > config.limits.max_part_size {
            return Err(ConfigError::PartSizeTooLarge);
        }
        let keys = request.keys;
        let archiver = Archiver::new();
        let ghost view = initial(config, key_views(keys@), archiver);
        proof {
            lemma_initial_consistent(config, key_views(keys@), archiver);
        }
        Ok(Job { config, state: State::Dispatched { keys, archiver }, model: Ghost(view) })
    }

    /// The phase of the job.
    pub fn phase(&self) -> (phase: Phase)
        requires
            self.wf(),
        ensures
            phase == self@.phase,
    {
        match &self.state {
            State::Dispatched { .. } => Phase::Dispatched,
            State::Fetching { assembling, .. } => {
                if *assembling {
                    Phase::Assembling
                } else {
                    Phase::Fetching
                }
            },
            State::Partitioning { .. } => Phase::Partitioning,
            State::Uploading { .. } => Phase::Uploading,
            State::Completing => Phase::Uploading,
            State::Aborting { .. } => Phase::Uploading,
            State::Completed => Phase::Completed,
            State::Failed { .. } => Phase::Failed,
        }
    }

    /// Whether the job has ended.
    pub fn is_terminal(&self) -> (b: bool)
        requires
            self.wf(),
        ensures
            b == self@.phase.terminal(),
    {
        self.phase().is_terminal()
    }

    /// The class of the failure, if the job has failed.
    pub fn failure(&self) -> (failure: Option<ErrorKind>)
        requires
            self.wf(),
        ensures
            failure == self@.failure,
    {
        match &self.state {
            State::Failed { kind } => Some(*kind),
            _ => None,
        }
    }
}

impl Job {
    /// Takes an event and says what has to happen next.
    pub fn step(self, event: Event) -> (next: (Job, Action))
        requires
            self.wf(),
        ensures
            next.0.wf(),
            transition(self@, event, next.0@, next.1),
    {
        let ghost pre = self@;
        let ghost taken = event;
        let next = match event {
            Event::Start => self.start(),
            Event::Fetched { key } => self.fetched(key),
            Event::Chunk { bytes } => self.chunk(bytes),
            Event::FetchFailed { key, kind } => self.fetch_failed(kind),
            Event::FetchClosed => self.fetch_closed(),
            Event::UploadCreated { upload_id } => self.upload_created(upload_id),
            Event::UploadRefused { kind } => self.upload_refused(kind),
            Event::PartUploaded { part } => self.part_uploaded(part),
            Event::PartFailed { part_number, kind } => self.part_failed(part_number, kind),
            Event::Completed => self.completed(),
            Event::CompleteFailed { kind } => self.complete_failed(kind),
            Event::Aborted => self.aborted(),
            Event::Cancelled => self.cancelled(),
        };
        proof {
            lemma_transition_consistent(pre, taken, next.0@, next.1);
        }
        next
    }

    /// The job fails with `kind`.
    fn fail(config: JobConfig, model: Ghost<JobView>, kind: ErrorKind) -> (next: (Job, Action))
        requires
            model@.config == config,
        ensures
            next.0.refines(),
            fails(model@, next.0@, next.1, kind),
    {
        let job = Job {
            config,
            state: State::Failed { kind },
            model: Ghost(model@.failed_with(kind)),
        };
        (job, Action::Respond { reply: Reply::Failed { kind } })
    }

    fn start(self) -> (next: (Job, Action))
        requires
            self.wf(),
        ensures
            next.0.refines(),
            on_start(self@, next.0@, next.1),
    {
        let Job { config, state, model } = self;
        match state {
            State::Dispatched { keys, archiver } => {
                let listed = clone_keys(&keys);
                let bucket = config.source_bucket.clone();
                let ledger = FetchLedger::new(keys);
                let ghost post = JobView { phase: Phase::Fetching, ..model@ };
                let job = Job {
                    config,
                    state: State::Fetching { ledger, archiver, assembling: false },
                    model: Ghost(post),
                };
                (job, Action::FetchAll { bucket, keys: listed })
            },
            other => (Job { config, state: other, model }, Action::Continue),
        }
    }

    fn fetched(self, key: String) -> (next: (Job, Action))
        requires
            self.wf(),
        ensures
            next.0.refines(),
            on_fetched(self@, key@, next.0@, next.1),
    {
        let Job { config, state, model } = self;
        match state {
            State::Fetching { ledger, archiver, assembling } => {
                let mut ledger = ledger;
                let mut archiver = archiver;
                if !ledger.settle(&key) {
                    return Self::fail(config, model, ErrorKind::InternalError);
                }
                match archiver.begin_entry(key.as_str()) {
                    Ok(()) => {
                        let ghost post = JobView {
                            phase: Phase::Assembling,
                            pending: model@.pending.remove(key@),
                            archiver,
                            ..model@
                        };
                        let job = Job {
                            config,
                            state: State::Fetching { ledger, archiver, assembling: true },
                            model: Ghost(post),
                        };
                        (job, Action::Continue)
                    },
                    Err(kind) => Self::fail(config, model, kind),
                }
            },
            other => (Job { config, state: other, model }, Action::Continue),
        }
    }

    fn chunk(self, bytes: Vec<u8>) -> (next: (Job, Action))
        requires
            self.wf(),
        ensures
            next.0.refines(),
            on_chunk(self@, bytes@, next.0@, next.1),
    {
        let Job { config, state, model } = self;
        match state {
            State::Fetching { ledger, archiver, assembling } => {
                let mut archiver = archiver;
                if !assembling {
                    return Self::fail(config, model, ErrorKind::InternalError);
                }
                match archiver.write(bytes.as_slice()) {
                    Ok(()) => {
                        let ghost post = JobView { archiver, ..model@ };
                        let job = Job {
                            config,
                            state: State::Fetching { ledger, archiver, assembling },
                            model: Ghost(post),
                        };
                        (job, Action::Continue)
                    },
                    Err(kind) => Self::fail(config, model, kind),
                }
            },
            other => (Job { config, state: other, model }, Action::Continue),
        }
    }

    fn fetch_failed(self, kind: ErrorKind) -> (next: (Job, Action))
        requires
            self.wf(),
        ensures
            next.0.refines(),
            on_fetch_failed(self@, kind, next.0@, next.1),
    {
        let Job { config, state, model } = self;
        match state {
            State::Fetching { .. } => Self::fail(config, model, kind),
            other => (Job { config, state: other, model }, Action::Continue),
        }
    }

    fn fetch_closed(self) -> (next: (Job, Action))
        requires
            self.wf(),
        ensures
            next.0.refines(),
            on_fetch_closed(self@, next.0@, next.1),
    {
        let Job { config, state, model } = self;
        match state {
            State::Fetching { ledger, archiver, assembling } => {
                if !ledger.is_settled() {
                    return Self::fail(config, model, ErrorKind::InternalError);
                }
                match archiver.seal() {
                    Ok(archive) => Self::cut(config, model, archive),
                    Err(kind) => Self::fail(config, model, kind),
                }
            },
            other => (Job { config, state: other, model }, Action::Continue),
        }
    }

    /// The archive is sealed: its bytes are cut into parts, and the upload
    /// is to be created. An archive without bytes, or with more than the
    /// store takes, fails the job.
    fn cut(config: JobConfig, model: Ghost<JobView>, archive: Vec<u8>) -> (next: (Job, Action))
        requires
            model@.consistent(),
            model@.config == config,
            model@.fetching(),
            model@.pending.len() == 0,
            model@.archiver.sealed() == Some(archive@),
        ensures
            next.0.refines(),
            on_fetch_closed(model@, next.0@, next.1),
    {
        if archive.len() == 0 {
            return Self::fail(config, model, ErrorKind::InternalError);
        }
        match partition(archive.as_slice(), &config.limits, config.part_size) {
            Ok(parts) => {
                let ghost post = JobView {
                    phase: Phase::Partitioning,
                    archive: archive@,
                    parts: parts@,
                    calls: seq![StoreCall::Create],
                    ..model@
                };
                proof {
                    config.limits.lemma_effective_part_size(
                        archive@.len() as int,
                        config.part_size,
                    );
                    crate::partition::lemma_ceil_div(archive@.len() as int, post.part_size());
                }
                let bucket = config.dest_bucket.clone();
                let key = config.dest_key.clone();
                let job = Job {
                    config,
                    state: State::Partitioning { parts, cancelled: false },
                    model: Ghost(post),
                };
                (job, Action::CreateUpload { bucket, key })
            },
            Err(_) => Self::fail(config, model, ErrorKind::InternalError),
        }
    }

    fn upload_created(self, upload_id: Option<String>) -> (next: (Job, Action))
        requires
            self.wf(),
        ensures
            next.0.refines(),
            on_upload_created(self@, upload_id, next.0@, next.1),
    {
        let Job { config, state, model } = self;
        match state {
            State::Partitioning { parts, cancelled } => {
                let given = match &upload_id {
                    Some(id) => id.clone(),
                    None => {
                        return Self::fail(config, model, ErrorKind::ServiceError);
                    },
                };
                let expected: u32 = parts.len() as u32;
                let bucket = config.dest_bucket.clone();
                let key = config.dest_key.clone();
                match MultipartSession::open(upload_id, bucket, key, expected) {
                    Ok(session) => {
                        let ghost opened = JobView {
                            phase: Phase::Uploading,
                            session: Some(session@),
                            ..model@
                        };
                        if cancelled {
                            Self::abort(config, Ghost(opened), session)
                        } else {
                            let bucket = config.dest_bucket.clone();
                            let key = config.dest_key.clone();
                            let job = Job {
                                config,
                                state: State::Uploading { session },
                                model: Ghost(opened),
                            };
                            (job, Action::UploadParts { bucket, key, upload_id: given, parts })
                        }
                    },
                    Err(kind) => Self::fail(config, model, kind),
                }
            },
            other => (Job { config, state: other, model }, Action::Continue),
        }
    }

    fn upload_refused(self, kind: ErrorKind) -> (next: (Job, Action))
        requires
            self.wf(),
        ensures
            next.0.refines(),
            on_upload_refused(self@, kind, next.0@, next.1),
    {
        let Job { config, state, model } = self;
        match state {
            State::Partitioning { .. } => Self::fail(config, model, kind.on_write()),
            other => (Job { config, state: other, model }, Action::Continue),
        }
    }

    fn part_uploaded(self, part: CompletedPart) -> (next: (Job, Action))
        requires
            self.wf(),
        ensures
            next.0.refines(),
            on_part_uploaded(self@, part, next.0@, next.1),
    {
        proof {
            lemma_calls_differ();
        }
        let Job { config, state, model } = self;
        match state {
            State::Uploading { session } => {
                let mut session = session;
                if session.record_uploaded(part) {
                    Self::reported(config, model, session)
                } else {
                    (Job { config, state: State::Uploading { session }, model }, Action::Continue)
                }
            },
            other => (Job { config, state: other, model }, Action::Continue),
        }
    }

    fn part_failed(self, part_number: u32, kind: ErrorKind) -> (next: (Job, Action))
        requires
            self.wf(),
        ensures
            next.0.refines(),
            on_part_failed(self@, part_number, kind, next.0@, next.1),
    {
        proof {
            lemma_calls_differ();
        }
        let Job { config, state, model } = self;
        match state {
            State::Uploading { session } => {
                let mut session = session;
                if session.record_failed(PartFailure { part_number, kind: kind.on_write() }) {
                    Self::reported(config, model, session)
                } else {
                    (Job { config, state: State::Uploading { session }, model }, Action::Continue)
                }
            },
            other => (Job { config, state: other, model }, Action::Continue),
        }
    }

    /// The session has taken a report: with the last one the upload is
    /// ended.
    fn reported(config: JobConfig, model: Ghost<JobView>, session: MultipartSession) -> (next: (
        Job,
        Action,
    ))
        requires
            model@.config == config,
            model@.collecting(),
            session.wf(),
        ensures
            next.0.refines(),
            after_report(model@, session@, next.0@, next.1),
    {
        let ghost s = session@;
        if !session.is_drained() {
            let ghost post = JobView { session: Some(s), ..model@ };
            (Job { config, state: State::Uploading { session }, model: Ghost(post) }, Action::Continue)
        } else {
            match session.conclude() {
                Finish::Complete { upload_id, bucket, key, parts } => {
                    let ghost post = JobView {
                        session: Some(s),
                        calls: seq![StoreCall::Create, StoreCall::Complete],
                        ..model@
                    };
                    let job = Job { config, state: State::Completing, model: Ghost(post) };
                    (job, Action::Complete { bucket, key, upload_id, parts })
                },
                Finish::Abort { upload_id, bucket, key, kind } => {
                    let ghost post = JobView {
                        session: Some(s),
                        calls: seq![StoreCall::Create, StoreCall::Abort],
                        ..model@
                    };
                    let job = Job { config, state: State::Aborting { kind }, model: Ghost(post) };
                    (job, Action::Abort { bucket, key, upload_id })
                },
            }
        }
    }

    /// Gives up an upload in which reports are still owed.
    fn abort(config: JobConfig, model: Ghost<JobView>, session: MultipartSession) -> (next: (
        Job,
        Action,
    ))
        requires
            model@.config == config,
            model@.collecting(),
            model@.session == Some(session@),
            session.wf(),
            !session@.complete(),
        ensures
            next.0.refines(),
            next.0@ == (JobView { calls: seq![StoreCall::Create, StoreCall::Abort], ..model@ }),
            next.1 matches Action::Abort { bucket, key, upload_id } && bucket@ == session@.bucket
                && key@ == session@.key && upload_id@ == session@.upload_id,
    {
        let ghost post = JobView { calls: seq![StoreCall::Create, StoreCall::Abort], ..model@ };
        match session.conclude() {
            Finish::Abort { upload_id, bucket, key, kind } => {
                let job = Job { config, state: State::Aborting { kind }, model: Ghost(post) };
                (job, Action::Abort { bucket, key, upload_id })
            },
            // Never taken: a session that still owes reports is not complete.
            Finish::Complete { upload_id, bucket, key, parts } => {
                let job = Job {
                    config,
                    state: State::Aborting { kind: ErrorKind::InternalError },
                    model: Ghost(post),
                };
                (job, Action::Abort { bucket, key, upload_id })
            },
        }
    }

    fn cancelled(self) -> (next: (Job, Action))
        requires
            self.wf(),
        ensures
            next.0.refines(),
            on_cancelled(self@, next.0@, next.1),
    {
        proof {
            lemma_calls_differ();
        }
        let Job { config, state, model } = self;
        match state {
            State::Dispatched { .. } => Self::fail(config, model, ErrorKind::InternalError),
            State::Fetching { .. } => Self::fail(config, model, ErrorKind::InternalError),
            State::Partitioning { parts, cancelled } => {
                let ghost post = JobView { cancelled: true, ..model@ };
                let job = Job {
                    config,
                    state: State::Partitioning { parts, cancelled: true },
                    model: Ghost(post),
                };
                (job, Action::Continue)
            },
            State::Uploading { session } => Self::abort(config, model, session),
            other => (Job { config, state: other, model }, Action::Continue),
        }
    }

    fn completed(self) -> (next: (Job, Action))
        requires
            self.wf(),
        ensures
            next.0.refines(),
            on_completed(self@, next.0@, next.1),
    {
        proof {
            lemma_calls_differ();
        }
        let Job { config, state, model } = self;
        match state {
            State::Completing => {
                let key = config.dest_key.clone();
                let ghost post = JobView { phase: Phase::Completed, ..model@ };
                let job = Job { config, state: State::Completed, model: Ghost(post) };
                (job, Action::Respond { reply: Reply::Stored { key } })
            },
            other => (Job { config, state: other, model }, Action::Continue),
        }
    }

    fn complete_failed(self, kind: ErrorKind) -> (next: (Job, Action))
        requires
            self.wf(),
        ensures
            next.0.refines(),
            on_complete_failed(self@, kind, next.0@, next.1),
    {
        proof {
            lemma_calls_differ();
        }
        let Job { config, state, model } = self;
        match state {
            State::Completing => Self::fail(config, model, kind.on_write()),
            other => (Job { config, state: other, model }, Action::Continue),
        }
    }

    fn aborted(self) -> (next: (Job, Action))
        requires
            self.wf(),
        ensures
            next.0.refines(),
            on_aborted(self@, next.0@, next.1),
    {
        proof {
            lemma_calls_differ();
        }
        let Job { config, state, model } = self;
        match state {
            State::Aborting { kind } => Self::fail(config, model, kind),
            other => (Job { config, state: other, model }, Action::Continue),
        }
    }
}

} // verus!
