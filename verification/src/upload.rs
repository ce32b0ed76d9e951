//! The upload coordinator's bookkeeping: which parts of a multipart upload
//! have reported, and how the upload has to end.

use crate::error::ErrorKind;
use vstd::prelude::*;

verus! {

/// What the store returned for one uploaded part.
#[derive(Debug)]
pub struct CompletedPart {
    pub part_number: u32,
    pub entity_tag: String,
}

/// A part whose upload failed for good.
#[derive(Debug)]
pub struct PartFailure {
    pub part_number: u32,
    pub kind: ErrorKind,
}

/// The part numbers never go down from one part to the next.
pub open spec fn ascending(parts: Seq<CompletedPart>) -> bool {
    forall|i: int, j: int|
        0 <= i < j < parts.len() ==> (#[trigger] parts[i]).part_number <= (
        #[trigger] parts[j]).part_number
}

/// The part numbers are one, two, three and so on: strictly ascending and
/// without a gap. This is the order in which the store wants the parts.
pub open spec fn canonical(parts: Seq<CompletedPart>) -> bool {
    forall|i: int| 0 <= i < parts.len() ==> (#[trigger] parts[i]).part_number == i + 1
}

/// No part number occurs twice.
pub open spec fn distinct_numbers(parts: Seq<CompletedPart>) -> bool {
    forall|i: int, j: int|
        0 <= i < j < parts.len() ==> (#[trigger] parts[i]).part_number != (
        #[trigger] parts[j]).part_number
}

/// Every part number lies between one and `count`.
pub open spec fn numbers_within(parts: Seq<CompletedPart>, count: int) -> bool {
    forall|i: int| 0 <= i < parts.len() ==> 1 <= (#[trigger] parts[i]).part_number <= count
}

/// The parts that have the number `n`, in their order.
pub open spec fn numbered(parts: Seq<CompletedPart>, n: u32) -> Seq<CompletedPart> {
    parts.filter(|p: CompletedPart| p.part_number == n)
}

/// Parts among which none has the number `n`.
proof fn lemma_none_numbered(parts: Seq<CompletedPart>, n: u32)
    requires
        forall|k: int| 0 <= k < parts.len() ==> (#[trigger] parts[k]).part_number != n,
    ensures
        numbered(parts, n) == Seq::<CompletedPart>::empty(),
    decreases parts.len(),
{
    reveal(Seq::filter);
    if parts.len() > 0 {
        let rest = parts.drop_last();
        assert forall|k: int| 0 <= k < rest.len() implies (#[trigger] rest[k]).part_number
            != n by {
            assert(rest[k] == parts[k]);
        }
        lemma_none_numbered(rest, n);
        assert(parts.last() == parts[parts.len() - 1]);
    }
}

/// Moving a part forward over parts with other numbers changes, for no
/// number, which parts have it and in which order.
proof fn lemma_move_keeps_numbered(before: Seq<CompletedPart>, j: int, i: int, n: u32)
    requires
        0 <= j < i < before.len(),
        forall|k: int| j <= k < i ==> (#[trigger] before[k]).part_number > before[i].part_number,
    ensures
        numbered(before.remove(i).insert(j, before[i]), n) == numbered(before, n),
{
    broadcast use Seq::filter_distributes_over_add;

    let pred = |p: CompletedPart| p.part_number == n;
    let moved = before[i];
    let head = before.subrange(0, j);
    let passed = before.subrange(j, i);
    let tail = before.subrange(i + 1, before.len() as int);
    let after = before.remove(i).insert(j, moved);
    assert(before =~= head + passed + seq![moved] + tail);
    assert(after =~= head + seq![moved] + passed + tail);
    assert(seq![moved].filter(pred) == if moved.part_number == n {
        seq![moved]
    } else {
        Seq::empty()
    }) by {
        reveal(Seq::filter);
        assert(seq![moved].drop_last() =~= Seq::<CompletedPart>::empty());
        assert(seq![moved].drop_last().filter(pred) =~= Seq::<CompletedPart>::empty());
        assert(seq![moved].last() == moved);
        assert(Seq::<CompletedPart>::empty().push(moved) =~= seq![moved]);
    }
    assert((head + passed + seq![moved] + tail).filter(pred) == head.filter(pred) + passed.filter(
        pred,
    ) + seq![moved].filter(pred) + tail.filter(pred));
    assert((head + seq![moved] + passed + tail).filter(pred) == head.filter(pred) + seq![
        moved,
    ].filter(pred) + passed.filter(pred) + tail.filter(pred));
    if moved.part_number == n {
        assert forall|k: int| 0 <= k < passed.len() implies (#[trigger] passed[k]).part_number
            != n by {
            assert(passed[k] == before[j + k]);
        }
        lemma_none_numbered(passed, n);
    }
    assert(head.filter(pred) + passed.filter(pred) + seq![moved].filter(pred) =~= head.filter(pred)
        + seq![moved].filter(pred) + passed.filter(pred));
}

/// Puts completed parts into ascending order of their part numbers,
/// whatever the order in which they arrived. Parts with the same number
/// keep their order of arrival, so the outcome is the one ascending
/// arrangement of the parts that does so.
pub fn sort_completed_parts(parts: &mut Vec<CompletedPart>)
    ensures
        ascending(final(parts)@),
        final(parts)@.to_multiset() == old(parts)@.to_multiset(),
        forall|n: u32| #[trigger] numbered(final(parts)@, n) == numbered(old(parts)@, n),
{
    let n: usize = parts.len();
    if n < 2 {
        return ;
    }
    let mut i: usize = 1;
    while i < n
        invariant
            parts@.len() == n,
            1 <= i <= n,
            ascending(parts@.take(i as int)),
            parts@.to_multiset() == old(parts)@.to_multiset(),
            forall|n: u32| #[trigger] numbered(parts@, n) == numbered(old(parts)@, n),
        decreases n - i,
    {
        let number: u32 = parts[i].part_number;
        let mut j: usize = i;
        while j > 0 && parts[j - 1].part_number > number
            invariant
                parts@.len() == n,
                i < n,
                j <= i,
                number == parts@[i as int].part_number,
                forall|k: int| j <= k < i ==> (#[trigger] parts@[k]).part_number > number,
            decreases j,
        {
            j = j - 1;
        }
        if j < i {
            let ghost before = parts@;
            let part = parts.remove(i);
            let ghost without = parts@;
            parts.insert(j, part);
            proof {
                broadcast use vstd::seq_lib::group_to_multiset_ensures;

                let after = parts@;
                assert(after == before.remove(i as int).insert(j as int, before[i as int]));
                assert forall|n: u32| #[trigger] numbered(after, n) == numbered(before, n) by {
                    lemma_move_keeps_numbered(before, j as int, i as int, n);
                }
                assert(after.remove(j as int) =~= without);
                assert(after[j as int] == part);
                assert(before.to_multiset().count(part) > 0) by {
                    assert(before.contains(part));
                }
                assert(after.to_multiset().count(part) > 0) by {
                    assert(after.contains(part));
                }
                assert(after.to_multiset() =~= before.to_multiset());
                assert forall|a: int, b: int| 0 <= a < b < i + 1 implies (#[trigger] after.take(
                    i + 1,
                )[a]).part_number <= (#[trigger] after.take(i + 1)[b]).part_number by {
                    let lo = before.take(i as int);
                    if b < j {
                        assert(after[a] == lo[a] && after[b] == lo[b]);
                    } else if b == j {
                        assert(after[a] == lo[a]);
                        assert(lo[a].part_number <= lo[j - 1].part_number || a == j - 1);
                    } else if a < j {
                        assert(after[a] == lo[a] && after[b] == lo[b - 1]);
                    } else if a == j {
                        assert(after[b] == before[b - 1]);
                    } else {
                        assert(after[a] == lo[a - 1] && after[b] == lo[b - 1]);
                    }
                }
            }
        } else {
            proof {
                assert forall|a: int, b: int| 0 <= a < b < i + 1 implies (#[trigger] parts@.take(
                    i + 1,
                )[a]).part_number <= (#[trigger] parts@.take(i + 1)[b]).part_number by {
                    let lo = parts@.take(i as int);
                    if b < i {
                        assert(parts@[a] == lo[a] && parts@[b] == lo[b]);
                    } else {
                        assert(parts@[a] == lo[a]);
                        assert(lo[a].part_number <= lo[i - 1].part_number || a == i - 1);
                    }
                }
            }
        }
        i = i + 1;
    }
    proof {
        assert(parts@.take(n as int) =~= parts@);
    }
}

/// Parts that are in ascending order, with `count` different numbers
/// between one and `count`, are in the order that the store wants.
pub proof fn lemma_ascending_is_canonical(parts: Seq<CompletedPart>)
    requires
        ascending(parts),
        distinct_numbers(parts),
        numbers_within(parts, parts.len() as int),
    ensures
        canonical(parts),
{
    assert forall|i: int| 0 <= i < parts.len() implies (#[trigger] parts[i]).part_number == i
        + 1 by {
        lemma_number_at_least(parts, i);
        lemma_number_at_most(parts, i);
    }
}

proof fn lemma_number_at_least(parts: Seq<CompletedPart>, i: int)
    requires
        ascending(parts),
        distinct_numbers(parts),
        numbers_within(parts, parts.len() as int),
        0 <= i < parts.len(),
    ensures
        parts[i].part_number >= i + 1,
    decreases i,
{
    if i > 0 {
        lemma_number_at_least(parts, i - 1);
        assert(parts[i - 1].part_number <= parts[i].part_number);
        assert(parts[i - 1].part_number != parts[i].part_number);
    }
}

proof fn lemma_number_at_most(parts: Seq<CompletedPart>, i: int)
    requires
        ascending(parts),
        distinct_numbers(parts),
        numbers_within(parts, parts.len() as int),
        0 <= i < parts.len(),
    ensures
        parts[i].part_number <= i + 1,
    decreases parts.len() - i,
{
    if i + 1 < parts.len() {
        lemma_number_at_most(parts, i + 1);
        assert(parts[i].part_number <= parts[i + 1].part_number);
        assert(parts[i].part_number != parts[i + 1].part_number);
    }
}

/// A rearrangement of parts with different numbers within a range has
/// different numbers within that range.
pub proof fn lemma_rearranged(before: Seq<CompletedPart>, after: Seq<CompletedPart>, count: int)
    requires
        before.to_multiset() == after.to_multiset(),
        distinct_numbers(before),
        numbers_within(before, count),
    ensures
        after.len() == before.len(),
        distinct_numbers(after),
        numbers_within(after, count),
{
    broadcast use vstd::seq_lib::group_to_multiset_ensures;

    assert(before.no_duplicates()) by {
        assert forall|i: int, j: int| 0 <= i < before.len() && 0 <= j < before.len() && i
            != j implies before[i] != before[j] by {
            if i < j {
                assert(before[i].part_number != before[j].part_number);
            } else {
                assert(before[j].part_number != before[i].part_number);
            }
        }
    }
    before.lemma_multiset_has_no_duplicates();
    after.lemma_multiset_has_no_duplicates_conv();
    assert(after.len() == after.to_multiset().len());
    assert(before.len() == before.to_multiset().len());
    assert forall|i: int| 0 <= i < after.len() implies 1 <= (#[trigger] after[i]).part_number
        <= count by {
        assert(after.contains(after[i]));
        assert(after.to_multiset().count(after[i]) > 0);
        assert(before.to_multiset().count(after[i]) > 0);
        assert(before.contains(after[i]));
        let k = choose|k: int| 0 <= k < before.len() && before[k] == after[i];
        assert(1 <= before[k].part_number <= count);
    }
    assert forall|i: int, j: int| 0 <= i < j < after.len() implies (#[trigger] after[i]).part_number
        != (#[trigger] after[j]).part_number by {
        assert(after.contains(after[i]));
        assert(after.contains(after[j]));
        assert(after.to_multiset().count(after[i]) > 0);
        assert(after.to_multiset().count(after[j]) > 0);
        assert(before.to_multiset().count(after[i]) > 0);
        assert(before.to_multiset().count(after[j]) > 0);
        assert(before.contains(after[i]));
        assert(before.contains(after[j]));
        let a = choose|a: int| 0 <= a < before.len() && before[a] == after[i];
        let b = choose|b: int| 0 <= b < before.len() && before[b] == after[j];
        assert(after[i] != after[j]);
        if a < b {
            assert(before[a].part_number != before[b].part_number);
        } else if b < a {
            assert(before[b].part_number != before[a].part_number);
        }
    }
}

/// What a session holds, as plain values.
pub ghost struct SessionView {
    /// The identifier that the store gave to the upload.
    pub upload_id: Seq<char>,
    /// The bucket that the upload writes to.
    pub bucket: Seq<char>,
    /// The key under which the object will be stored.
    pub key: Seq<char>,
    /// The number of parts that were dispatched.
    pub expected: nat,
    /// The parts that were uploaded, in the order in which they reported.
    pub received: Seq<CompletedPart>,
    /// The parts that failed, in the order in which they reported.
    pub failed: Seq<PartFailure>,
}

impl SessionView {
    /// Part `n` has reported its upload.
    pub open spec fn has_received(self, n: int) -> bool {
        exists|i: int| 0 <= i < self.received.len() && (#[trigger] self.received[i]).part_number == n
    }

    /// Part `n` has reported its failure.
    pub open spec fn has_failed(self, n: int) -> bool {
        exists|i: int| 0 <= i < self.failed.len() && (#[trigger] self.failed[i]).part_number == n
    }

    /// Part `n` has reported, one way or the other.
    pub open spec fn reported(self, n: int) -> bool {
        self.has_received(n) || self.has_failed(n)
    }

    /// A report for part `n` is taken: the part was dispatched and has not
    /// reported before.
    pub open spec fn accepts(self, n: int) -> bool {
        1 <= n <= self.expected && !self.reported(n)
    }

    /// As many parts have reported as were dispatched.
    pub open spec fn drained(self) -> bool {
        self.received.len() + self.failed.len() == self.expected
    }

    /// Every part was uploaded.
    pub open spec fn complete(self) -> bool {
        self.failed.len() == 0 && self.received.len() == self.expected
    }

    /// The class of the failure with which the upload ends when it is not
    /// complete: that of the first part that failed, or an internal error
    /// where parts are merely missing.
    pub open spec fn failure_kind(self) -> ErrorKind {
        if self.failed.len() > 0 {
            self.failed[0].kind
        } else {
            ErrorKind::InternalError
        }
    }

    /// The numbers of the parts that have reported: first those that were
    /// uploaded, then those that failed.
    pub open spec fn reported_numbers(self) -> Seq<int> {
        Seq::new(
            self.received.len() + self.failed.len(),
            |i: int|
                if i < self.received.len() {
                    self.received[i].part_number as int
                } else {
                    self.failed[i - self.received.len()].part_number as int
                },
        )
    }

    /// No part has reported twice, and every part that has reported was
    /// dispatched.
    pub open spec fn valid(self) -> bool {
        &&& distinct_numbers(self.received)
        &&& numbers_within(self.received, self.expected as int)
        &&& self.reported_numbers().no_duplicates()
        &&& forall|i: int|
            0 <= i < self.failed.len() ==> 1 <= (#[trigger] self.failed[i]).part_number
                <= self.expected
    }

    /// A part has reported exactly if its number is among those of the
    /// parts that have reported.
    pub proof fn lemma_reported_numbers(self, n: int)
        ensures
            self.reported(n) <==> self.reported_numbers().contains(n),
    {
        let nums = self.reported_numbers();
        let offset = self.received.len() as int;
        if self.has_received(n) {
            let i = choose|i: int|
                0 <= i < self.received.len() && (#[trigger] self.received[i]).part_number == n;
            assert(nums[i] == n);
        }
        if self.has_failed(n) {
            let i = choose|i: int|
                0 <= i < self.failed.len() && (#[trigger] self.failed[i]).part_number == n;
            assert(nums[offset + i] == n);
        }
        if nums.contains(n) {
            let k = choose|k: int| 0 <= k < nums.len() && nums[k] == n;
            if k < offset {
                assert(self.received[k].part_number == n);
            } else {
                assert(self.failed[k - offset].part_number == n);
            }
        }
    }

    /// A session in which no part has reported twice is still such a
    /// session after the upload of a part that had not reported.
    pub proof fn lemma_valid_after_upload(self, part: CompletedPart)
        requires
            self.valid(),
            self.accepts(part.part_number as int),
        ensures
            (SessionView { received: self.received.push(part), ..self }).valid(),
    {
        let after = SessionView { received: self.received.push(part), ..self };
        let before = self.reported_numbers();
        let nums = after.reported_numbers();
        let last = self.received.len() as int;
        self.lemma_reported_numbers(part.part_number as int);
        assert forall|i: int, j: int| 0 <= i < j < after.received.len() implies (
        #[trigger] after.received[i]).part_number != (#[trigger] after.received[j]).part_number by {
            if j == last {
                assert(before[i] == self.received[i].part_number);
                assert(before.contains(before[i]));
            }
        }
        assert forall|i: int, j: int| 0 <= i < nums.len() && 0 <= j < nums.len() && i
            != j implies nums[i] != nums[j] by {
            let a = if i < last {
                i
            } else {
                i - 1
            };
            let b = if j < last {
                j
            } else {
                j - 1
            };
            if i == last {
                assert(nums[j] == before[b]);
                assert(before.contains(before[b]));
            } else if j == last {
                assert(nums[i] == before[a]);
                assert(before.contains(before[a]));
            } else {
                assert(nums[i] == before[a] && nums[j] == before[b]);
            }
        }
    }

    /// A session in which no part has reported twice is still such a
    /// session after the failure of a part that had not reported.
    pub proof fn lemma_valid_after_failure(self, failure: PartFailure)
        requires
            self.valid(),
            self.accepts(failure.part_number as int),
        ensures
            (SessionView { failed: self.failed.push(failure), ..self }).valid(),
    {
        let after = SessionView { failed: self.failed.push(failure), ..self };
        let before = self.reported_numbers();
        let nums = after.reported_numbers();
        let last = before.len() as int;
        self.lemma_reported_numbers(failure.part_number as int);
        assert forall|i: int, j: int| 0 <= i < nums.len() && 0 <= j < nums.len() && i
            != j implies nums[i] != nums[j] by {
            if i == last {
                assert(nums[j] == before[j]);
                assert(before.contains(before[j]));
            } else if j == last {
                assert(nums[i] == before[i]);
                assert(before.contains(before[i]));
            } else {
                assert(nums[i] == before[i] && nums[j] == before[j]);
            }
        }
    }

    /// When as many parts have reported as were dispatched, every part
    /// that was dispatched has reported: counting the reports is enough to
    /// know that none is still to come.
    pub proof fn lemma_drained_all_reported(self, n: int)
        requires
            self.valid(),
            self.drained(),
            1 <= n <= self.expected,
        ensures
            self.reported(n),
    {
        let nums = self.reported_numbers();
        let all = vstd::set_lib::set_int_range(1, self.expected as int + 1);
        vstd::set_lib::lemma_int_range(1, self.expected as int + 1);
        nums.unique_seq_to_set();
        vstd::seq_lib::seq_to_set_is_finite(nums);
        assert(nums.to_set().subset_of(all)) by {
            assert forall|x: int| nums.to_set().contains(x) implies all.contains(x) by {
                assert(nums.contains(x));
                let k = choose|k: int| 0 <= k < nums.len() && nums[k] == x;
                if k < self.received.len() {
                    assert(1 <= self.received[k].part_number <= self.expected);
                } else {
                    assert(1 <= self.failed[k - self.received.len()].part_number
                        <= self.expected);
                }
            }
        }
        vstd::set_lib::lemma_subset_equality(nums.to_set(), all);
        assert(all.contains(n));
        assert(nums.to_set().contains(n));
        assert(nums.contains(n));
        self.lemma_reported_numbers(n);
    }
}

/// One multipart upload, from the moment the store has named it to the
/// call that ends it.
pub struct MultipartSession {
    upload_id: String,
    bucket: String,
    key: String,
    expected_part_count: u32,
    received_parts: Vec<CompletedPart>,
    failed_parts: Vec<PartFailure>,
    seen: Vec<bool>,
}

/// The call that ends a multipart upload.
#[derive(Debug)]
pub enum Finish {
    /// Every part was uploaded: the upload is completed with these parts.
    Complete { upload_id: String, bucket: String, key: String, parts: Vec<CompletedPart> },
    /// The upload is given up and the store releases what it holds of it.
    Abort { upload_id: String, bucket: String, key: String, kind: ErrorKind },
}

impl View for MultipartSession {
    type V = SessionView;

    closed spec fn view(&self) -> SessionView {
        SessionView {
            upload_id: self.upload_id@,
            bucket: self.bucket@,
            key: self.key@,
            expected: self.expected_part_count as nat,
            received: self.received_parts@,
            failed: self.failed_parts@,
        }
    }
}

impl MultipartSession {
    /// The session is consistent with the reports it has taken.
    pub closed spec fn wf(&self) -> bool {
        &&& self@.valid()
        &&& self.seen@.len() == self.expected_part_count
        &&& forall|k: int|
            0 <= k < self.seen@.len() ==> (#[trigger] self.seen@[k] <==> self@.reported(k + 1))
    }

    /// What holds of every consistent session.
    pub proof fn lemma_wf(&self)
        requires
            self.wf(),
        ensures
            self@.valid(),
            self@.expected <= u32::MAX,
    {
    }

    /// Opens the session for the upload that the store has just created.
    /// Without an upload identifier there is no session.
    pub fn open(upload_id: Option<String>, bucket: String, key: String, expected_part_count: u32) -> (res:
        Result<MultipartSession, ErrorKind>)
        ensures
            res is Ok <==> upload_id is Some,
            res matches Ok(session) ==> session.wf() && session@ == (SessionView {
                upload_id: upload_id->0@,
                bucket: bucket@,
                key: key@,
                expected: expected_part_count as nat,
                received: Seq::empty(),
                failed: Seq::empty(),
            }),
            res matches Err(kind) ==> kind == ErrorKind::ServiceError,
    {
        match upload_id {
            None => Err(ErrorKind::ServiceError),
            Some(id) => {
                let mut seen: Vec<bool> = Vec::new();
                let mut k: u32 = 0;
                while k < expected_part_count
                    invariant
                        k <= expected_part_count,
                        seen@.len() == k,
                        forall|i: int| 0 <= i < k ==> !(#[trigger] seen@[i]),
                    decreases expected_part_count - k,
                {
                    seen.push(false);
                    k = k + 1;
                }
                let session = MultipartSession {
                    upload_id: id,
                    bucket,
                    key,
                    expected_part_count,
                    received_parts: Vec::new(),
                    failed_parts: Vec::new(),
                    seen,
                };
                Ok(session)
            },
        }
    }

    /// The identifier that the store gave to the upload.
    pub fn upload_id(&self) -> (id: &String)
        ensures
            id@ == self@.upload_id,
    {
        &self.upload_id
    }

    /// The bucket that the upload writes to.
    pub fn bucket(&self) -> (bucket: &String)
        ensures
            bucket@ == self@.bucket,
    {
        &self.bucket
    }

    /// The key under which the object will be stored.
    pub fn key(&self) -> (key: &String)
        ensures
            key@ == self@.key,
    {
        &self.key
    }

    /// The number of parts that were dispatched.
    pub fn expected_part_count(&self) -> (count: u32)
        ensures
            count == self@.expected,
    {
        self.expected_part_count
    }

    /// The number of parts that have reported their upload.
    pub fn received_count(&self) -> (count: usize)
        ensures
            count == self@.received.len(),
    {
        self.received_parts.len()
    }

    /// The number of parts that have reported their failure.
    pub fn failed_count(&self) -> (count: usize)
        ensures
            count == self@.failed.len(),
    {
        self.failed_parts.len()
    }

    /// Whether as many parts have reported as were dispatched. This, and
    /// not the closing of a channel, tells that nothing more will come.
    pub fn is_drained(&self) -> (drained: bool)
        ensures
            drained == self@.drained(),
    {
        let expected: usize = self.expected_part_count as usize;
        let received: usize = self.received_parts.len();
        received <= expected && self.failed_parts.len() == expected - received
    }

    /// Takes the report of an uploaded part. A report for a part that was
    /// not dispatched, or that has reported before, changes nothing.
    pub fn record_uploaded(&mut self, part: CompletedPart) -> (accepted: bool)
        requires
            old(self).wf(),
        ensures
            final(self).wf(),
            accepted == old(self)@.accepts(part.part_number as int),
            accepted ==> final(self)@ == (SessionView {
                received: old(self)@.received.push(part),
                ..old(self)@
            }),
            !accepted ==> final(self)@ == old(self)@,
    {
        let number: u32 = part.part_number;
        if number < 1 || number > self.expected_part_count {
            return false;
        }
        let slot: usize = (number - 1) as usize;
        if self.seen[slot] {
            return false;
        }
        let ghost before = self@;
        self.seen.set(slot, true);
        self.received_parts.push(part);
        proof {
            let after = self@;
            before.lemma_valid_after_upload(part);
            assert forall|k: int| 0 <= k < self.seen@.len() implies (#[trigger] self.seen@[k]
                <==> after.reported(k + 1)) by {
                lemma_reported_after_upload(before, part, k + 1);
            }
        }
        true
    }

    /// Takes the report of a part whose upload failed for good. A report
    /// for a part that was not dispatched, or that has reported before,
    /// changes nothing.
    pub fn record_failed(&mut self, failure: PartFailure) -> (accepted: bool)
        requires
            old(self).wf(),
        ensures
            final(self).wf(),
            accepted == old(self)@.accepts(failure.part_number as int),
            accepted ==> final(self)@ == (SessionView {
                failed: old(self)@.failed.push(failure),
                ..old(self)@
            }),
            !accepted ==> final(self)@ == old(self)@,
    {
        let number: u32 = failure.part_number;
        if number < 1 || number > self.expected_part_count {
            return false;
        }
        let slot: usize = (number - 1) as usize;
        if self.seen[slot] {
            return false;
        }
        let ghost before = self@;
        self.seen.set(slot, true);
        self.failed_parts.push(failure);
        proof {
            let after = self@;
            before.lemma_valid_after_failure(failure);
            assert forall|k: int| 0 <= k < self.seen@.len() implies (#[trigger] self.seen@[k]
                <==> after.reported(k + 1)) by {
                lemma_reported_after_failure(before, failure, k + 1);
            }
        }
        true
    }

    /// Ends the session: with the completing call, which lists every part
    /// in the store's order, if every part was uploaded, and with the
    /// aborting call in every other case.
    pub fn conclude(self) -> (finish: Finish)
        requires
            self.wf(),
        ensures
            self@.complete() <==> finish is Complete,
            finish matches Finish::Complete { upload_id, bucket, key, parts } ==> {
                &&& upload_id@ == self@.upload_id
                &&& bucket@ == self@.bucket
                &&& key@ == self@.key
                &&& parts@.len() == self@.expected
                &&& canonical(parts@)
                &&& parts@.to_multiset() == self@.received.to_multiset()
            },
            finish matches Finish::Abort { upload_id, bucket, key, kind } ==> {
                &&& upload_id@ == self@.upload_id
                &&& bucket@ == self@.bucket
                &&& key@ == self@.key
                &&& kind == self@.failure_kind()
            },
    {
        let ghost view = self@;
        let MultipartSession {
            upload_id,
            bucket,
            key,
            expected_part_count,
            received_parts,
            failed_parts,
            seen,
        } = self;
        let mut parts = received_parts;
        if failed_parts.len() > 0 {
            let kind = failed_parts[0].kind;
            Finish::Abort { upload_id, bucket, key, kind }
        } else if parts.len() != expected_part_count as usize {
            Finish::Abort { upload_id, bucket, key, kind: ErrorKind::InternalError }
        } else {
            sort_completed_parts(&mut parts);
            proof {
                lemma_rearranged(view.received, parts@, view.expected as int);
                lemma_ascending_is_canonical(parts@);
            }
            Finish::Complete { upload_id, bucket, key, parts }
        }
    }
}

proof fn lemma_reported_after_upload(before: SessionView, part: CompletedPart, n: int)
    ensures
        (SessionView { received: before.received.push(part), ..before }).reported(n) <==> (
        before.reported(n) || n == part.part_number),
{
    let after = SessionView { received: before.received.push(part), ..before };
    let last = before.received.len() as int;
    if before.has_received(n) {
        let i = choose|i: int|
            0 <= i < before.received.len() && (#[trigger] before.received[i]).part_number == n;
        assert(after.received[i].part_number == n);
    }
    if n == part.part_number {
        assert(after.received[last].part_number == n);
    }
    if after.has_received(n) {
        let i = choose|i: int|
            0 <= i < after.received.len() && (#[trigger] after.received[i]).part_number == n;
        if i < last {
            assert(before.received[i].part_number == n);
            assert(before.has_received(n));
        } else {
            assert(n == part.part_number);
        }
    }
    assert(after.failed == before.failed);
    if after.has_failed(n) {
        let i = choose|i: int|
            0 <= i < after.failed.len() && (#[trigger] after.failed[i]).part_number == n;
        assert(before.failed[i].part_number == n);
    }
    if before.has_failed(n) {
        let i = choose|i: int|
            0 <= i < before.failed.len() && (#[trigger] before.failed[i]).part_number == n;
        assert(after.failed[i].part_number == n);
    }
}

proof fn lemma_reported_after_failure(before: SessionView, failure: PartFailure, n: int)
    ensures
        (SessionView { failed: before.failed.push(failure), ..before }).reported(n) <==> (
        before.reported(n) || n == failure.part_number),
{
    let after = SessionView { failed: before.failed.push(failure), ..before };
    let last = before.failed.len() as int;
    if before.has_failed(n) {
        let i = choose|i: int|
            0 <= i < before.failed.len() && (#[trigger] before.failed[i]).part_number == n;
        assert(after.failed[i].part_number == n);
    }
    if n == failure.part_number {
        assert(after.failed[last].part_number == n);
    }
    if after.has_failed(n) {
        let i = choose|i: int|
            0 <= i < after.failed.len() && (#[trigger] after.failed[i]).part_number == n;
        if i < last {
            assert(before.failed[i].part_number == n);
            assert(before.has_failed(n));
        } else {
            assert(n == failure.part_number);
        }
    }
    assert(after.received == before.received);
    if after.has_received(n) {
        let i = choose|i: int|
            0 <= i < after.received.len() && (#[trigger] after.received[i]).part_number == n;
        assert(before.received[i].part_number == n);
    }
    if before.has_received(n) {
        let i = choose|i: int|
            0 <= i < before.received.len() && (#[trigger] before.received[i]).part_number == n;
        assert(after.received[i].part_number == n);
    }
}

} // verus!
