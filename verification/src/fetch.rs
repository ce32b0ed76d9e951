//! The blob fetcher's bookkeeping: how a failed retrieval is classified, and
//! which of the requested keys still owe their outcome.

use crate::error::ErrorKind;
use vstd::multiset::Multiset;
use vstd::prelude::*;

verus! {

/// How a call to the store went wrong, as the client reports it.
#[derive(Clone, Copy, Debug, PartialEq, Eq, Structural)]
pub enum StoreFault {
    /// The store answered and refused. `no_such_key` tells whether its
    /// reason was that the object does not exist.
    Service { no_such_key: bool },
    /// The request could not be built.
    Construction,
    /// The request could not be sent.
    Dispatch,
    /// No answer came in time.
    Timeout,
    /// An answer came and could not be read.
    Response,
    /// The body of an object broke off while it was read.
    Body,
}

/// The class of a fault.
pub open spec fn class_of(fault: StoreFault) -> ErrorKind {
    match fault {
        StoreFault::Service { no_such_key } => if no_such_key {
            ErrorKind::NotFound
        } else {
            ErrorKind::ServiceError
        },
        StoreFault::Construction => ErrorKind::InternalError,
        StoreFault::Dispatch => ErrorKind::TransportError,
        StoreFault::Timeout => ErrorKind::TransportError,
        StoreFault::Response => ErrorKind::TransportError,
        StoreFault::Body => ErrorKind::TransportError,
    }
}

/// Classifies a fault: a missing object, another refusal by the store, a
/// failure of the connection, or a failure on this side.
pub fn classify(fault: StoreFault) -> (kind: ErrorKind)
    ensures
        kind == class_of(fault),
        kind == ErrorKind::NotFound <==> fault == (StoreFault::Service { no_such_key: true }),
{
    match fault {
        StoreFault::Service { no_such_key } => if no_such_key {
            ErrorKind::NotFound
        } else {
            ErrorKind::ServiceError
        },
        StoreFault::Construction => ErrorKind::InternalError,
        StoreFault::Dispatch => ErrorKind::TransportError,
        StoreFault::Timeout => ErrorKind::TransportError,
        StoreFault::Response => ErrorKind::TransportError,
        StoreFault::Body => ErrorKind::TransportError,
    }
}

/// The keys as plain values.
pub open spec fn key_views(keys: Seq<String>) -> Seq<Seq<char>> {
    keys.map_values(|k: String| k@)
}

/// A copy of the keys.
pub fn clone_keys(keys: &Vec<String>) -> (out: Vec<String>)
    ensures
        key_views(out@) == key_views(keys@),
{
    let mut out: Vec<String> = Vec::new();
    let mut i: usize = 0;
    while i < keys.len()
        invariant
            i <= keys@.len(),
            out@.len() == i,
            forall|k: int| 0 <= k < i ==> (#[trigger] out@[k])@ == keys@[k]@,
        decreases keys@.len() - i,
    {
        out.push(keys[i].clone());
        i = i + 1;
    }
    assert(key_views(out@) =~= key_views(keys@));
    out
}

/// The requested keys whose outcome has not arrived. A key that was
/// requested twice owes two outcomes.
pub struct FetchLedger {
    pending: Vec<String>,
}

impl FetchLedger {
    /// The keys that still owe an outcome, each as often as it is owed.
    pub closed spec fn pending(&self) -> Multiset<Seq<char>> {
        key_views(self.pending@).to_multiset()
    }

    /// A ledger in which every requested key owes its outcome.
    pub fn new(keys: Vec<String>) -> (ledger: FetchLedger)
        ensures
            ledger.pending() == key_views(keys@).to_multiset(),
    {
        FetchLedger { pending: keys }
    }

    /// Takes note that the outcome for `key` has arrived. Tells whether
    /// one was owed; if none was, nothing changes.
    pub fn settle(&mut self, key: &String) -> (owed: bool)
        ensures
            owed == old(self).pending().contains(key@),
            owed ==> final(self).pending() == old(self).pending().remove(key@),
            !owed ==> final(self).pending() == old(self).pending(),
    {
        broadcast use vstd::seq_lib::group_to_multiset_ensures;

        let ghost views = key_views(self.pending@);
        let mut i: usize = 0;
        while i < self.pending.len()
            invariant
                self.pending@ == old(self).pending@,
                views == key_views(old(self).pending@),
                views.len() == self.pending@.len(),
                i <= self.pending@.len(),
                forall|k: int| 0 <= k < i ==> (#[trigger] self.pending@[k])@ != key@,
            decreases self.pending@.len() - i,
        {
            if self.pending[i] == *key {
                let _ = self.pending.remove(i);
                proof {
                    broadcast use vstd::seq_lib::group_to_multiset_ensures;

                    assert(key_views(self.pending@) =~= views.remove(i as int));
                    assert(views[i as int] == key@);
                    assert(views.contains(key@));
                    assert(views.to_multiset().count(key@) > 0);
                    assert(views.remove(i as int).to_multiset() == views.to_multiset().remove(
                        key@,
                    ));
                }
                return true;
            }
            i = i + 1;
        }
        proof {
            if views.contains(key@) {
                let k = choose|k: int| 0 <= k < views.len() && views[k] == key@;
                assert(self.pending@[k]@ == key@);
            }
            assert(views.to_multiset().count(key@) == 0);
        }
        false
    }

    /// Whether every requested key has had its outcome.
    pub fn is_settled(&self) -> (settled: bool)
        ensures
            settled == (self.pending().len() == 0),
    {
        broadcast use vstd::seq_lib::group_to_multiset_ensures;

        assert(key_views(self.pending@).len() == self.pending@.len());
        self.pending.len() == 0
    }

    /// The number of outcomes that are still owed.
    pub fn outstanding(&self) -> (count: usize)
        ensures
            count == self.pending().len(),
    {
        broadcast use vstd::seq_lib::group_to_multiset_ensures;

        assert(key_views(self.pending@).len() == self.pending@.len());
        self.pending.len()
    }
}

} // verus!
