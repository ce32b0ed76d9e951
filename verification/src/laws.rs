//! What holds of every job: the laws that follow from the rules by which a
//! job takes its events.

use crate::archive::body_of;
use crate::archive::entry_names;
use crate::archive::name_fits;
use crate::archive::lemma_entry_holds_body;
use crate::archive::with_chunk;
use crate::archive::with_chunks;
use crate::archive::Archiver;
use crate::error::ErrorKind;
use crate::protocol::answers_failure;
use crate::protocol::initial;
use crate::partition::joined;
use crate::partition::lemma_partition_joined;
use crate::protocol::after_report;
use crate::protocol::on_aborted;
use crate::protocol::on_cancelled;
use crate::protocol::on_chunk;
use crate::protocol::on_complete_failed;
use crate::protocol::on_completed;
use crate::protocol::on_fetch_closed;
use crate::protocol::on_fetch_failed;
use crate::protocol::on_fetched;
use crate::protocol::on_part_failed;
use crate::protocol::on_part_uploaded;
use crate::protocol::on_start;
use crate::protocol::on_upload_created;
use crate::protocol::on_upload_refused;
use crate::protocol::opened_session;
use crate::protocol::ready_to_upload;
use crate::protocol::transition;
use crate::protocol::Action;
use crate::protocol::Event;
use crate::protocol::JobConfig;
use crate::protocol::JobView;
use crate::protocol::Phase;
use crate::protocol::Reply;
use crate::protocol::StoreCall;
use crate::upload::canonical;
use crate::upload::CompletedPart;
use crate::upload::PartFailure;
use crate::upload::SessionView;
use vstd::multiset::Multiset;
use vstd::prelude::*;

verus! {

/// Opening an entry for a key that owed its outcome keeps the books: the
/// names of the entries and the keys that still owe an outcome are,
/// together, the requested keys.
proof fn lemma_books_after_entry(
    entries: Seq<(Seq<char>, Seq<u8>)>,
    pending: Multiset<Seq<char>>,
    key: Seq<char>,
)
    requires
        pending.contains(key),
    ensures
        entry_names(entries.push((key, Seq::empty()))).to_multiset().add(pending.remove(key))
            == entry_names(entries).to_multiset().add(pending),
{
    broadcast use vstd::seq_lib::group_to_multiset_ensures;
    broadcast use vstd::multiset::group_multiset_axioms;

    let names = entry_names(entries);
    assert(entry_names(entries.push((key, Seq::empty()))) =~= names.push(key));
    assert(names.push(key).to_multiset() =~= names.to_multiset().insert(key));
    assert(names.to_multiset().insert(key).add(pending.remove(key)) =~= names.to_multiset().add(
        pending,
    ));
}

/// Writing a chunk changes no name.
proof fn lemma_names_after_chunk(entries: Seq<(Seq<char>, Seq<u8>)>, bytes: Seq<u8>)
    requires
        entries.len() > 0,
    ensures
        entry_names(with_chunk(entries, bytes)) == entry_names(entries),
        with_chunk(entries, bytes).len() == entries.len(),
{
    assert(entry_names(with_chunk(entries, bytes)) =~= entry_names(entries));
}

/// A session that has taken one more report of an uploaded part is still
/// one that the job can have.
proof fn lemma_fits_after_upload(job: JobView, s: SessionView, part: CompletedPart)
    requires
        job.session_fits(s),
        s.accepts(part.part_number as int),
    ensures
        job.session_fits(SessionView { received: s.received.push(part), ..s }),
{
    s.lemma_valid_after_upload(part);
}

/// A session that has taken one more report of a failed part is still one
/// that the job can have.
proof fn lemma_fits_after_failure(job: JobView, s: SessionView, failure: PartFailure)
    requires
        job.session_fits(s),
        s.accepts(failure.part_number as int),
        failure.kind != ErrorKind::NotFound,
    ensures
        job.session_fits(SessionView { failed: s.failed.push(failure), ..s }),
{
    s.lemma_valid_after_failure(failure);
}

proof fn lemma_after_start(pre: JobView, post: JobView, action: Action)
    requires
        pre.consistent(),
        on_start(pre, post, action),
    ensures
        post.consistent(),
{
}

proof fn lemma_after_fetched(pre: JobView, key: Seq<char>, post: JobView, action: Action)
    requires
        pre.consistent(),
        on_fetched(pre, key, post, action),
    ensures
        post.consistent(),
{
    if pre.fetching() && pre.pending.contains(key) {
        lemma_books_after_entry(pre.entries(), pre.pending, key);
    }
}

proof fn lemma_after_chunk(pre: JobView, bytes: Seq<u8>, post: JobView, action: Action)
    requires
        pre.consistent(),
        on_chunk(pre, bytes, post, action),
    ensures
        post.consistent(),
{
    if pre.phase == Phase::Assembling {
        lemma_names_after_chunk(pre.entries(), bytes);
    }
}

proof fn lemma_after_fetch_failed(pre: JobView, kind: ErrorKind, post: JobView, action: Action)
    requires
        pre.consistent(),
        on_fetch_failed(pre, kind, post, action),
    ensures
        post.consistent(),
{
}

proof fn lemma_after_fetch_closed(pre: JobView, post: JobView, action: Action)
    requires
        pre.consistent(),
        on_fetch_closed(pre, post, action),
    ensures
        post.consistent(),
{
}

proof fn lemma_after_upload_created(
    pre: JobView,
    upload_id: Option<String>,
    post: JobView,
    action: Action,
)
    requires
        pre.consistent(),
        on_upload_created(pre, upload_id, post, action),
    ensures
        post.consistent(),
{
    if pre.phase == Phase::Partitioning && upload_id is Some {
        let s = opened_session(pre, upload_id->0@);
        assert(s.reported_numbers().len() == 0);
        assert(post.session == Some(s));
        assert(post.session_fits(s));
        assert(!s.drained());
        assert(!s.complete());
    }
}

proof fn lemma_after_upload_refused(pre: JobView, kind: ErrorKind, post: JobView, action: Action)
    requires
        pre.consistent(),
        on_upload_refused(pre, kind, post, action),
    ensures
        post.consistent(),
{
}

proof fn lemma_after_taken_report(pre: JobView, s: SessionView, post: JobView, action: Action)
    requires
        pre.consistent(),
        pre.collecting(),
        pre.session_fits(s),
        after_report(pre, s, post, action),
    ensures
        post.consistent(),
{
    assert(post.session == Some(s));
    assert(post.session_fits(s));
    if s.drained() && !s.complete() {
        assert(post.calls == seq![StoreCall::Create, StoreCall::Abort]);
    }
}

proof fn lemma_after_part_uploaded(
    pre: JobView,
    part: CompletedPart,
    post: JobView,
    action: Action,
)
    requires
        pre.consistent(),
        on_part_uploaded(pre, part, post, action),
    ensures
        post.consistent(),
{
    if pre.collecting() && pre.session is Some && pre.session->0.accepts(part.part_number as int) {
        let s = pre.session->0;
        lemma_fits_after_upload(pre, s, part);
        lemma_after_taken_report(
            pre,
            SessionView { received: s.received.push(part), ..s },
            post,
            action,
        );
    }
}

proof fn lemma_after_part_failed(
    pre: JobView,
    part_number: u32,
    kind: ErrorKind,
    post: JobView,
    action: Action,
)
    requires
        pre.consistent(),
        on_part_failed(pre, part_number, kind, post, action),
    ensures
        post.consistent(),
{
    if pre.collecting() && pre.session is Some && pre.session->0.accepts(part_number as int) {
        let s = pre.session->0;
        let failure = PartFailure { part_number, kind: kind.on_write_of() };
        lemma_fits_after_failure(pre, s, failure);
        lemma_after_taken_report(
            pre,
            SessionView { failed: s.failed.push(failure), ..s },
            post,
            action,
        );
    }
}

proof fn lemma_after_completed(pre: JobView, post: JobView, action: Action)
    requires
        pre.consistent(),
        on_completed(pre, post, action),
    ensures
        post.consistent(),
{
    lemma_calls_differ();
}

proof fn lemma_after_complete_failed(pre: JobView, kind: ErrorKind, post: JobView, action: Action)
    requires
        pre.consistent(),
        on_complete_failed(pre, kind, post, action),
    ensures
        post.consistent(),
{
    lemma_calls_differ();
}

proof fn lemma_after_aborted(pre: JobView, post: JobView, action: Action)
    requires
        pre.consistent(),
        on_aborted(pre, post, action),
    ensures
        post.consistent(),
{
    lemma_calls_differ();
}

proof fn lemma_after_cancelled(pre: JobView, post: JobView, action: Action)
    requires
        pre.consistent(),
        on_cancelled(pre, post, action),
    ensures
        post.consistent(),
{
    lemma_calls_differ();
    if pre.collecting() && pre.session is Some {
        let s = pre.session->0;
        assert(!s.drained());
        assert(!s.complete());
    }
}

/// Whatever a job does, it stays in a state in which its books are in
/// order.
pub proof fn lemma_transition_consistent(pre: JobView, event: Event, post: JobView, action: Action)
    requires
        pre.consistent(),
        transition(pre, event, post, action),
    ensures
        post.consistent(),
{
    match event {
        Event::Start => lemma_after_start(pre, post, action),
        Event::Fetched { key } => lemma_after_fetched(pre, key@, post, action),
        Event::Chunk { bytes } => lemma_after_chunk(pre, bytes@, post, action),
        Event::FetchFailed { key, kind } => lemma_after_fetch_failed(pre, kind, post, action),
        Event::FetchClosed => lemma_after_fetch_closed(pre, post, action),
        Event::UploadCreated { upload_id } => lemma_after_upload_created(
            pre,
            upload_id,
            post,
            action,
        ),
        Event::UploadRefused { kind } => lemma_after_upload_refused(pre, kind, post, action),
        Event::PartUploaded { part } => lemma_after_part_uploaded(pre, part, post, action),
        Event::PartFailed { part_number, kind } => lemma_after_part_failed(
            pre,
            part_number,
            kind,
            post,
            action,
        ),
        Event::Completed => lemma_after_completed(pre, post, action),
        Event::CompleteFailed { kind } => lemma_after_complete_failed(pre, kind, post, action),
        Event::Aborted => lemma_after_aborted(pre, post, action),
        Event::Cancelled => lemma_after_cancelled(pre, post, action),
    }
}

/// A job only moves forward: no event takes it back to an earlier phase,
/// and once it has ended nothing changes it.
pub proof fn lemma_phases_go_forward(pre: JobView, event: Event, post: JobView, action: Action)
    requires
        pre.consistent(),
        transition(pre, event, post, action),
    ensures
        pre.phase.rank() <= post.phase.rank(),
        pre.phase.terminal() ==> post == pre && action is Continue,
{
}

/// Once the archive is sealed, the archiver holds exactly one entry for
/// each requested key, a key that was requested twice having two; the
/// sealed bytes are those that this archiver has handed out; and the parts
/// that are uploaded are, put one after the other, those bytes.
pub proof fn lemma_sealed_archive_holds_requested_keys(job: JobView)
    requires
        job.consistent(),
        job.phase == Phase::Partitioning || job.phase == Phase::Uploading || job.phase
            == Phase::Completed,
    ensures
        entry_names(job.entries()).to_multiset() == job.keys.to_multiset(),
        job.entries().len() == job.keys.len(),
        job.archiver.sealed() == Some(job.archive),
        joined(job.parts) == job.archive,
{
    broadcast use vstd::seq_lib::group_to_multiset_ensures;
    broadcast use vstd::multiset::group_multiset_axioms;

    let names = entry_names(job.entries()).to_multiset();
    assert(job.pending =~= Multiset::empty());
    assert(names.add(job.pending) =~= names);
    assert(entry_names(job.entries()).len() == names.len());
    assert(job.keys.len() == job.keys.to_multiset().len());
    job.config.limits.lemma_effective_part_size(job.archive.len() as int, job.config.part_size);
    lemma_partition_joined(job.archive, job.part_size(), job.parts);
}

/// While outcomes are taken, the first one that says a key is missing
/// ends the job as not found, and nothing has been asked of the store for
/// the destination key.
pub proof fn lemma_missing_key_fails_job(pre: JobView, event: Event, post: JobView, action: Action)
    requires
        pre.consistent(),
        pre.fetching(),
        event matches Event::FetchFailed { kind, .. } && kind == ErrorKind::NotFound,
        transition(pre, event, post, action),
    ensures
        post.phase == Phase::Failed,
        post.failure == Some(ErrorKind::NotFound),
        answers_failure(action, ErrorKind::NotFound),
        post.calls.len() == 0,
        post.session is None,
{
}

/// A job that has failed as not found has never asked the store to
/// create, complete or abort an upload: nothing is stored, and nothing is
/// left open.
pub proof fn lemma_not_found_leaves_nothing(job: JobView)
    requires
        job.consistent(),
        job.failure == Some(ErrorKind::NotFound),
    ensures
        job.phase == Phase::Failed,
        job.calls.len() == 0,
        job.session is None,
{
    if job.session is Some {
        let s = job.session->0;
        if s.failed.len() > 0 {
            assert(s.failed[0].kind != ErrorKind::NotFound);
        }
    }
}

/// Whenever the job asks for the upload to be completed, the parts it
/// lists are every part of the archive, each once, in ascending order of
/// their numbers and without a gap, in whatever order their uploads were
/// reported.
pub proof fn lemma_completion_lists_parts_in_order(
    pre: JobView,
    event: Event,
    post: JobView,
    action: Action,
)
    requires
        pre.consistent(),
        transition(pre, event, post, action),
        action is Complete,
    ensures
        canonical(action->Complete_parts@),
        action->Complete_parts@.len() == post.parts.len(),
        post.session matches Some(s) && s.complete() && action->Complete_parts@.to_multiset()
            == s.received.to_multiset(),
        post.calls == seq![StoreCall::Create, StoreCall::Complete],
{
    lemma_transition_consistent(pre, event, post, action);
}

/// The step that completes a job answers the request with the key under
/// which the archive is stored, and so with the status 200. The archive
/// that is stored then is the one that the archiver has sealed, which
/// holds an entry for each requested key.
pub proof fn lemma_completion_answers_stored(
    pre: JobView,
    event: Event,
    post: JobView,
    action: Action,
)
    requires
        pre.consistent(),
        transition(pre, event, post, action),
        pre.phase != Phase::Completed,
        post.phase == Phase::Completed,
    ensures
        action matches Action::Respond { reply } && reply.status_of() == 200 && (
        reply matches Reply::Stored { key } && key@ == pre.config.dest_key@),
        post.archiver.sealed() == Some(joined(post.parts)),
        entry_names(post.entries()).to_multiset() == post.keys.to_multiset(),
        post.calls == seq![StoreCall::Create, StoreCall::Complete],
{
    lemma_transition_consistent(pre, event, post, action);
    lemma_sealed_archive_holds_requested_keys(post);
    lemma_calls_differ();
}

/// Once a part has failed, the upload is never completed; and when every
/// part has reported, or the job has ended, the upload has been aborted,
/// once.
pub proof fn lemma_failed_part_aborts_upload(job: JobView)
    requires
        job.consistent(),
        job.session matches Some(s) && s.failed.len() > 0,
    ensures
        !job.calls.contains(StoreCall::Complete),
        job.phase != Phase::Completed,
        job.session->0.drained() || job.phase.terminal() ==> job.calls == seq![
            StoreCall::Create,
            StoreCall::Abort,
        ],
{
    let s = job.session->0;
    if job.calls.contains(StoreCall::Complete) {
        let i = choose|i: int| 0 <= i < job.calls.len() && job.calls[i] == StoreCall::Complete;
        assert(job.calls == seq![StoreCall::Create, StoreCall::Complete]);
    }
}

/// An upload that was opened is ended by exactly one call, completing or
/// aborting, by the time the job has ended; and at no time have both
/// calls been made, or one of them twice.
pub proof fn lemma_upload_ends_once(job: JobView)
    requires
        job.consistent(),
    ensures
        job.calls.len() <= 2,
        job.calls.len() >= 1 ==> job.calls[0] == StoreCall::Create,
        job.calls.len() == 2 ==> job.calls[1] != StoreCall::Create && job.session is Some,
        job.session is Some && job.phase.terminal() ==> job.calls.len() == 2,
        job.phase == Phase::Completed ==> job.calls == seq![StoreCall::Create, StoreCall::Complete],
{
}

/// The call that an action asks for, where it is one that changes what
/// the store holds under the destination key.
pub open spec fn call_of(action: Action) -> Seq<StoreCall> {
    match action {
        Action::CreateUpload { .. } => seq![StoreCall::Create],
        Action::Complete { .. } => seq![StoreCall::Complete],
        Action::Abort { .. } => seq![StoreCall::Abort],
        _ => Seq::empty(),
    }
}

/// The calls that a run of actions asks for, in their order.
pub open spec fn calls_of(actions: Seq<Action>) -> Seq<StoreCall>
    decreases actions.len(),
{
    if actions.len() == 0 {
        Seq::empty()
    } else {
        calls_of(actions.drop_last()) + call_of(actions.last())
    }
}

/// A run of a job: the states it goes through, the events that take it
/// from each state to the next, and the actions it asks for on the way.
pub open spec fn is_run(states: Seq<JobView>, events: Seq<Event>, actions: Seq<Action>) -> bool {
    &&& states.len() == events.len() + 1
    &&& actions.len() == events.len()
    &&& forall|i: int|
        0 <= i < events.len() ==> transition(
            states[i],
            #[trigger] events[i],
            states[i + 1],
            actions[i],
        )
}

/// A job that is taken with limits that make sense and admit its part
/// size starts with its books in order.
pub proof fn lemma_initial_consistent(config: JobConfig, keys: Seq<Seq<char>>, archiver: Archiver)
    requires
        config.limits.wf(),
        config.limits.admits(config.part_size),
        archiver.entries().len() == 0,
    ensures
        initial(config, keys, archiver).consistent(),
        initial(config, keys, archiver).calls.len() == 0,
{
    broadcast use vstd::multiset::group_multiset_axioms;
    broadcast use vstd::seq_lib::group_to_multiset_ensures;

    let start = initial(config, keys, archiver);
    assert(entry_names(start.entries()) =~= Seq::<Seq<char>>::empty());
    assert(entry_names(start.entries()).to_multiset().len() == 0);
    assert(entry_names(start.entries()).to_multiset() =~= Multiset::empty());
    assert(entry_names(start.entries()).to_multiset().add(start.pending) =~= start.pending);
}

/// The calls that a job has on its books are the calls that its actions
/// have asked for: each step adds the call of its action, and nothing
/// else.
pub proof fn lemma_calls_record_actions(pre: JobView, event: Event, post: JobView, action: Action)
    requires
        pre.consistent(),
        transition(pre, event, post, action),
    ensures
        post.calls == pre.calls + call_of(action),
{
    lemma_calls_differ();
    assert(seq![StoreCall::Create] + seq![StoreCall::Complete] =~= seq![
        StoreCall::Create,
        StoreCall::Complete,
    ]);
    assert(seq![StoreCall::Create] + seq![StoreCall::Abort] =~= seq![
        StoreCall::Create,
        StoreCall::Abort,
    ]);
    assert(Seq::<StoreCall>::empty() + seq![StoreCall::Create] =~= seq![StoreCall::Create]);
    assert(pre.calls + Seq::<StoreCall>::empty() =~= pre.calls);
    if pre.calls.len() == 0 {
        assert(pre.calls =~= Seq::<StoreCall>::empty());
    }
}

/// In every run that starts with the books in order and no call made,
/// the books stay in order, and the calls on the books are those that the
/// actions of the run have asked for.
pub proof fn lemma_run(states: Seq<JobView>, events: Seq<Event>, actions: Seq<Action>, i: int)
    requires
        is_run(states, events, actions),
        states[0].consistent(),
        states[0].calls.len() == 0,
        0 <= i <= events.len(),
    ensures
        states[i].consistent(),
        states[i].calls == calls_of(actions.take(i)),
    decreases i,
{
    if i == 0 {
        assert(states[0].calls =~= Seq::<StoreCall>::empty());
        assert(actions.take(0).len() == 0);
    } else {
        lemma_run(states, events, actions, i - 1);
        assert(transition(states[i - 1], events[i - 1], states[i], actions[i - 1]));
        lemma_transition_consistent(states[i - 1], events[i - 1], states[i], actions[i - 1]);
        lemma_calls_record_actions(states[i - 1], events[i - 1], states[i], actions[i - 1]);
        assert(actions.take(i).drop_last() =~= actions.take(i - 1));
        assert(actions.take(i).last() == actions[i - 1]);
    }
}

/// The bytes that an event brings for the entry that is being written.
pub open spec fn chunk_of(event: Event) -> Seq<u8> {
    match event {
        Event::Chunk { bytes } => bytes@,
        _ => Seq::empty(),
    }
}

/// The chunks that a run of events brings, in their order.
pub open spec fn chunks_of(events: Seq<Event>) -> Seq<Seq<u8>> {
    events.map_values(|e: Event| chunk_of(e))
}

proof fn lemma_chunks_so_far(
    states: Seq<JobView>,
    events: Seq<Event>,
    actions: Seq<Action>,
    i: int,
)
    requires
        is_run(states, events, actions),
        states[0].phase == Phase::Assembling,
        forall|k: int| 0 <= k < events.len() ==> (#[trigger] events[k]) is Chunk,
        0 <= i <= events.len(),
    ensures
        states[i].phase == Phase::Failed || (states[i].phase == Phase::Assembling
            && states[i].entries() == with_chunks(
            states[0].entries(),
            chunks_of(events).take(i),
        )),
    decreases i,
{
    if i == 0 {
        assert(chunks_of(events).take(0).len() == 0);
    } else {
        lemma_chunks_so_far(states, events, actions, i - 1);
        assert(events[i - 1] is Chunk);
        assert(transition(states[i - 1], events[i - 1], states[i], actions[i - 1]));
        let so_far = chunks_of(events).take(i);
        assert(so_far.drop_last() =~= chunks_of(events).take(i - 1));
        assert(so_far.last() == chunk_of(events[i - 1]));
    }
}

/// While a body is written, chunk after chunk, and the job does not fail,
/// the entry that was opened for the key comes to hold the bytes of the
/// body, all of them and in the order in which they arrived; the entries
/// before it are untouched.
pub proof fn lemma_body_arrives_whole(
    states: Seq<JobView>,
    events: Seq<Event>,
    actions: Seq<Action>,
    entries: Seq<(Seq<char>, Seq<u8>)>,
    key: Seq<char>,
)
    requires
        is_run(states, events, actions),
        states[0].phase == Phase::Assembling,
        states[0].entries() == entries.push((key, Seq::empty())),
        forall|k: int| 0 <= k < events.len() ==> (#[trigger] events[k]) is Chunk,
        states.last().phase != Phase::Failed,
    ensures
        states.last().entries() == entries.push((key, body_of(chunks_of(events)))),
{
    lemma_chunks_so_far(states, events, actions, events.len() as int);
    assert(chunks_of(events).take(events.len() as int) =~= chunks_of(events));
    lemma_entry_holds_body(entries, key, chunks_of(events));
}

/// A run that ends as not found has asked for no call that changes what
/// the store holds under the destination key: no upload was created, so
/// none is left open and nothing is stored.
pub proof fn lemma_run_not_found(states: Seq<JobView>, events: Seq<Event>, actions: Seq<Action>)
    requires
        is_run(states, events, actions),
        states[0].consistent(),
        states[0].calls.len() == 0,
        states.last().failure == Some(ErrorKind::NotFound),
    ensures
        calls_of(actions) == Seq::<StoreCall>::empty(),
{
    lemma_run(states, events, actions, events.len() as int);
    lemma_not_found_leaves_nothing(states.last());
    assert(actions.take(events.len() as int) =~= actions);
    assert(states.last().calls =~= Seq::<StoreCall>::empty());
}

/// A run in which a part has failed, once it has ended or every part has
/// reported, has asked for the upload to be created and to be aborted,
/// each once, and never for it to be completed.
pub proof fn lemma_run_failed_part(states: Seq<JobView>, events: Seq<Event>, actions: Seq<Action>)
    requires
        is_run(states, events, actions),
        states[0].consistent(),
        states[0].calls.len() == 0,
        states.last().session matches Some(s) && s.failed.len() > 0 && (s.drained()
            || states.last().phase.terminal()),
    ensures
        calls_of(actions) == seq![StoreCall::Create, StoreCall::Abort],
{
    lemma_run(states, events, actions, events.len() as int);
    lemma_failed_part_aborts_upload(states.last());
    assert(actions.take(events.len() as int) =~= actions);
}

/// A run that has ended with an upload opened has asked for the upload to
/// be ended exactly once: completed where the job is completed, and
/// completed or aborted, never both, where it has failed.
pub proof fn lemma_run_ends_upload_once(
    states: Seq<JobView>,
    events: Seq<Event>,
    actions: Seq<Action>,
)
    requires
        is_run(states, events, actions),
        states[0].consistent(),
        states[0].calls.len() == 0,
        states.last().phase.terminal(),
        states.last().session is Some,
    ensures
        calls_of(actions) == seq![StoreCall::Create, StoreCall::Complete] || calls_of(actions)
            == seq![StoreCall::Create, StoreCall::Abort],
        states.last().phase == Phase::Completed ==> calls_of(actions) == seq![
            StoreCall::Create,
            StoreCall::Complete,
        ],
{
    lemma_run(states, events, actions, events.len() as int);
    assert(actions.take(events.len() as int) =~= actions);
}

/// The event brings no cause of failure but a missing key: the store and
/// the caller do their part, and the archive takes what it is given.
///
/// - An outcome is one that was owed, for a key that the archive's format
///   can hold and that the archive takes; a chunk comes for an entry that
///   is open and is taken; the retrievals are closed when the archive can
///   be sealed and uploaded.
/// - A retrieval that fails does so because its key is missing.
/// - The store names the upload, takes every part and completes the
///   upload, and the request is not withdrawn.
pub open spec fn blameless(pre: JobView, event: Event) -> bool {
    match event {
        Event::Fetched { key } => pre.fetching() ==> pre.pending.contains(key@) && name_fits(key@)
            && pre.archiver.takes_entry(key@),
        Event::Chunk { bytes } => pre.fetching() ==> pre.phase == Phase::Assembling
            && pre.archiver.takes_bytes(bytes@),
        Event::FetchFailed { key, kind } => kind == ErrorKind::NotFound,
        Event::FetchClosed => pre.fetching() ==> ready_to_upload(pre),
        Event::UploadCreated { upload_id } => upload_id is Some,
        Event::UploadRefused { .. } => false,
        Event::PartFailed { .. } => false,
        Event::CompleteFailed { .. } => false,
        Event::Cancelled => false,
        _ => true,
    }
}

/// The job has not failed, and nothing has happened that will make it
/// fail: no part has failed, the request was not withdrawn, and the
/// upload is not being aborted.
pub open spec fn unharmed(job: JobView) -> bool {
    &&& job.failure is None
    &&& !job.cancelled
    &&& !job.aborting()
    &&& job.session matches Some(s) ==> s.failed.len() == 0
}

/// A job fails only for a cause. On an event that brings none but a
/// missing key, a job that is unharmed stays so and does not ask for the
/// upload to be aborted; unless the event is the failure of a retrieval
/// while outcomes are taken, and then the job fails as not found and
/// answers 404.
pub proof fn lemma_blameless_step(pre: JobView, event: Event, post: JobView, action: Action)
    requires
        pre.consistent(),
        unharmed(pre),
        blameless(pre, event),
        transition(pre, event, post, action),
    ensures
        !(action is Abort),
        event is FetchFailed && pre.fetching() ==> post.failure == Some(ErrorKind::NotFound)
            && answers_failure(action, ErrorKind::NotFound) && ErrorKind::NotFound.status_of()
            == 404,
        !(event is FetchFailed && pre.fetching()) ==> unharmed(post),
{
    lemma_calls_differ();
    lemma_transition_consistent(pre, event, post, action);
    match event {
        Event::PartUploaded { part } => {
            if pre.collecting() && pre.session is Some && pre.session->0.accepts(
                part.part_number as int,
            ) {
                let s = pre.session->0;
                let taken = SessionView { received: s.received.push(part), ..s };
                assert(taken.failed.len() == 0);
                assert(taken.drained() ==> taken.complete());
            }
        },
        Event::UploadCreated { upload_id } => {
            if pre.phase == Phase::Partitioning {
                assert(opened_session(pre, upload_id->0@).failed.len() == 0);
            }
        },
        _ => {},
    }
}

/// In a run from an unharmed start in which no event brings a cause of
/// failure but a missing key, the job is at every time unharmed or has
/// failed as not found.
pub proof fn lemma_blameless_run(
    states: Seq<JobView>,
    events: Seq<Event>,
    actions: Seq<Action>,
    i: int,
)
    requires
        is_run(states, events, actions),
        states[0].consistent(),
        unharmed(states[0]),
        forall|k: int| 0 <= k < events.len() ==> blameless(states[k], #[trigger] events[k]),
        0 <= i <= events.len(),
    ensures
        states[i].consistent(),
        unharmed(states[i]) || states[i].failure == Some(ErrorKind::NotFound),
        forall|k: int| 0 <= k < i ==> !((#[trigger] actions[k]) is Abort),
    decreases i,
{
    if i > 0 {
        lemma_blameless_run(states, events, actions, i - 1);
        let pre = states[i - 1];
        assert(transition(pre, events[i - 1], states[i], actions[i - 1]));
        assert(blameless(pre, events[i - 1]));
        lemma_transition_consistent(pre, events[i - 1], states[i], actions[i - 1]);
        if unharmed(pre) {
            lemma_blameless_step(pre, events[i - 1], states[i], actions[i - 1]);
        } else {
            lemma_phases_go_forward(pre, events[i - 1], states[i], actions[i - 1]);
        }
    }
}

/// Where every key is found and nothing else goes wrong, the job does not
/// fail: in a run without a cause of failure and without a failed
/// retrieval, the job is unharmed to the end and never asks for the
/// upload to be aborted. Once it is completed, it has answered 200 and the
/// archive that is stored holds an entry for each requested key.
pub proof fn lemma_run_without_cause_does_not_fail(
    states: Seq<JobView>,
    events: Seq<Event>,
    actions: Seq<Action>,
)
    requires
        is_run(states, events, actions),
        states[0].consistent(),
        unharmed(states[0]),
        forall|k: int| 0 <= k < events.len() ==> blameless(states[k], #[trigger] events[k]),
        forall|k: int| 0 <= k < events.len() ==> !((#[trigger] events[k]) is FetchFailed),
    ensures
        states.last().failure is None,
        states.last().phase != Phase::Failed,
        forall|k: int| 0 <= k < actions.len() ==> !((#[trigger] actions[k]) is Abort),
        states.last().phase == Phase::Completed ==> entry_names(
            states.last().entries(),
        ).to_multiset() == states.last().keys.to_multiset() && states.last().archiver.sealed()
            == Some(joined(states.last().parts)),
{
    lemma_unharmed_so_far(states, events, actions, events.len() as int);
    lemma_blameless_run(states, events, actions, events.len() as int);
    if states.last().phase == Phase::Completed {
        lemma_sealed_archive_holds_requested_keys(states.last());
    }
}

proof fn lemma_unharmed_so_far(
    states: Seq<JobView>,
    events: Seq<Event>,
    actions: Seq<Action>,
    i: int,
)
    requires
        is_run(states, events, actions),
        states[0].consistent(),
        unharmed(states[0]),
        forall|k: int| 0 <= k < events.len() ==> blameless(states[k], #[trigger] events[k]),
        forall|k: int| 0 <= k < events.len() ==> !((#[trigger] events[k]) is FetchFailed),
        0 <= i <= events.len(),
    ensures
        states[i].consistent(),
        unharmed(states[i]),
    decreases i,
{
    if i > 0 {
        lemma_unharmed_so_far(states, events, actions, i - 1);
        let pre = states[i - 1];
        assert(transition(pre, events[i - 1], states[i], actions[i - 1]));
        assert(blameless(pre, events[i - 1]));
        assert(!(events[i - 1] is FetchFailed));
        lemma_transition_consistent(pre, events[i - 1], states[i], actions[i - 1]);
        lemma_blameless_step(pre, events[i - 1], states[i], actions[i - 1]);
    }
}

/// Where a key is missing and nothing else goes wrong, the job fails as
/// not found: in a run without another cause of failure, once a retrieval
/// has failed while outcomes were taken, the job has failed as not found
/// and stays so, and it has asked for nothing that changes what the store
/// holds under the destination key.
pub proof fn lemma_run_with_missing_key_fails_as_not_found(
    states: Seq<JobView>,
    events: Seq<Event>,
    actions: Seq<Action>,
    m: int,
)
    requires
        is_run(states, events, actions),
        states[0].consistent(),
        unharmed(states[0]),
        states[0].calls.len() == 0,
        forall|k: int| 0 <= k < events.len() ==> blameless(states[k], #[trigger] events[k]),
        0 <= m < events.len(),
        events[m] is FetchFailed,
        states[m].fetching(),
    ensures
        states.last().phase == Phase::Failed,
        states.last().failure == Some(ErrorKind::NotFound),
        ErrorKind::NotFound.status_of() == 404,
        calls_of(actions) == Seq::<StoreCall>::empty(),
{
    lemma_blameless_run(states, events, actions, m);
    assert(unharmed(states[m]));
    assert(transition(states[m], events[m], states[m + 1], actions[m]));
    lemma_blameless_step(states[m], events[m], states[m + 1], actions[m]);
    lemma_stays_failed(states, events, actions, m + 1, events.len() as int);
    lemma_run_not_found(states, events, actions);
}

/// A job that has failed stays as it is.
proof fn lemma_stays_failed(
    states: Seq<JobView>,
    events: Seq<Event>,
    actions: Seq<Action>,
    from: int,
    i: int,
)
    requires
        is_run(states, events, actions),
        states[0].consistent(),
        states[0].calls.len() == 0,
        0 <= from <= i <= events.len(),
        states[from].phase == Phase::Failed,
    ensures
        states[i] == states[from],
    decreases i - from,
{
    if i > from {
        lemma_stays_failed(states, events, actions, from, i - 1);
        lemma_run(states, events, actions, i - 1);
        assert(transition(states[i - 1], events[i - 1], states[i], actions[i - 1]));
        lemma_phases_go_forward(states[i - 1], events[i - 1], states[i], actions[i - 1]);
    }
}

/// The three runs of calls that an open upload can have seen differ.
pub proof fn lemma_calls_differ()
    ensures
        seq![StoreCall::Create] != seq![StoreCall::Create, StoreCall::Complete],
        seq![StoreCall::Create] != seq![StoreCall::Create, StoreCall::Abort],
        seq![StoreCall::Create, StoreCall::Complete] != seq![StoreCall::Create, StoreCall::Abort],
{
    assert(seq![StoreCall::Create].len() == 1);
    assert(seq![StoreCall::Create, StoreCall::Complete].len() == 2);
    assert(seq![StoreCall::Create, StoreCall::Abort].len() == 2);
    assert(seq![StoreCall::Create, StoreCall::Complete][1] == StoreCall::Complete);
    assert(seq![StoreCall::Create, StoreCall::Abort][1] == StoreCall::Abort);
}

} // verus!
