use crate::bytes::bytes_eq;
use crate::bytes::copy_bytes;
use crate::errors::WatcherError;
use vstd::prelude::*;

verus! {

/// Remembers, for the life of the process, which transactions were reported
/// to the submission service and with how many confirmations, so that each
/// detection is submitted once and confirmation updates are pushed only on
/// jumps of more than one block.
pub struct ConfirmationTracker {
    entries: Vec<(Vec<u8>, u32)>,
}

impl View for ConfirmationTracker {
    type V = Seq<(Seq<u8>, u32)>;

    /// The recorded (txid, last-reported confirmations) pairs, in the order
    /// they were recorded.
    closed spec fn view(&self) -> Seq<(Seq<u8>, u32)> {
        self.entries@.map(|i: int, e: (Vec<u8>, u32)| (e.0@, e.1))
    }
}

/// The recorded count for a txid: that of its first matching entry.
pub open spec fn spec_lookup(entries: Seq<(Seq<u8>, u32)>, txid: Seq<u8>) -> Option<u32>
    decreases entries.len(),
{
    if entries.len() == 0 {
        None
    } else if entries[0].0 == txid {
        Some(entries[0].1)
    } else {
        spec_lookup(entries.drop_first(), txid)
    }
}

/// Every txid occurs in at most one entry.
pub open spec fn distinct_keys(entries: Seq<(Seq<u8>, u32)>) -> bool {
    forall|i: int, j: int| 0 <= i < j < entries.len() ==> entries[i].0 != entries[j].0
}

/// When no entry among the first `i` matches, the lookup is decided by the
/// remaining entries.
proof fn lemma_lookup_skip(entries: Seq<(Seq<u8>, u32)>, txid: Seq<u8>, i: int)
    requires
        0 <= i <= entries.len(),
        forall|j: int| 0 <= j < i ==> entries[j].0 != txid,
    ensures
        spec_lookup(entries, txid) == spec_lookup(entries.skip(i), txid),
    decreases i,
{
    if i == 0 {
        assert(entries.skip(0) =~= entries);
    } else {
        assert(entries.drop_first() =~= entries.skip(1));
        lemma_lookup_skip(entries.drop_first(), txid, i - 1);
        assert(entries.drop_first().skip(i - 1) =~= entries.skip(i));
    }
}

/// When a lookup misses, no entry carries the txid.
pub proof fn lemma_lookup_none(entries: Seq<(Seq<u8>, u32)>, txid: Seq<u8>)
    requires
        spec_lookup(entries, txid) is None,
    ensures
        forall|j: int| 0 <= j < entries.len() ==> entries[j].0 != txid,
    decreases entries.len(),
{
    if entries.len() > 0 {
        lemma_lookup_none(entries.drop_first(), txid);
        assert forall|j: int| 0 <= j < entries.len() implies entries[j].0 != txid by {
            if j > 0 {
                assert(entries.drop_first()[j - 1].0 != txid);
            }
        }
    }
}

/// Overwriting the count at the first entry of a txid changes that txid's
/// lookup to the new count and no other txid's lookup at all.
proof fn lemma_lookup_update(entries: Seq<(Seq<u8>, u32)>, txid: Seq<u8>, i: int, c: u32)
    requires
        0 <= i < entries.len(),
        entries[i].0 == txid,
        forall|j: int| 0 <= j < i ==> entries[j].0 != txid,
    ensures
        spec_lookup(entries.update(i, (txid, c)), txid) == Some(c),
        forall|t: Seq<u8>|
            t != txid ==> #[trigger] spec_lookup(entries.update(i, (txid, c)), t) == spec_lookup(
                entries,
                t,
            ),
    decreases i,
{
    let up = entries.update(i, (txid, c));
    if i == 0 {
        assert(up.drop_first() =~= entries.drop_first());
    } else {
        assert(up[0] == entries[0]);
        assert(up.drop_first() =~= entries.drop_first().update(i - 1, (txid, c)));
        lemma_lookup_update(entries.drop_first(), txid, i - 1, c);
        assert forall|t: Seq<u8>| t != txid implies #[trigger] spec_lookup(up, t) == spec_lookup(
            entries,
            t,
        ) by {
            if entries[0].0 != t {
                assert(spec_lookup(up.drop_first(), t) == spec_lookup(entries.drop_first(), t));
            }
        }
    }
}

impl ConfirmationTracker {
    /// Every txid recorded at most once.
    pub open spec fn wf(&self) -> bool {
        distinct_keys(self@)
    }

    /// An empty tracker: nothing submitted yet.
    pub fn new() -> (t: ConfirmationTracker)
        ensures
            t.wf(),
            t@ == Seq::<(Seq<u8>, u32)>::empty(),
    {
        let t = ConfirmationTracker { entries: Vec::new() };
        proof {
            assert(t@ =~= Seq::<(Seq<u8>, u32)>::empty());
        }
        t
    }

    /// The last-reported confirmation count for a txid, if it was ever
    /// recorded.
    pub fn lookup(&self, txid: &Vec<u8>) -> (r: Option<u32>)
        ensures
            r == spec_lookup(self@, txid@),
    {
        let mut i: usize = 0;
        while i < self.entries.len()
            invariant
                i <= self@.len(),
                self@.len() == self.entries@.len(),
                forall|j: int| 0 <= j < i ==> #[trigger] self@[j].0 != txid@,
            decreases self@.len() - i,
        {
            if bytes_eq(&self.entries[i].0, txid) {
                proof {
                    lemma_lookup_skip(self@, txid@, i as int);
                    assert(self@.skip(i as int)[0] == self@[i as int]);
                }
                return Some(self.entries[i].1);
            }
            i = i + 1;
        }
        proof {
            lemma_lookup_skip(self@, txid@, self@.len() as int);
            assert(self@.skip(self@.len() as int) =~= Seq::<(Seq<u8>, u32)>::empty());
        }
        None
    }

    /// Records a transaction reported for the first time; a txid already
    /// present is refused as `DuplicateTxid` and nothing changes.
    pub fn record_new(&mut self, txid: &Vec<u8>, confirmations: u32) -> (r: Result<
        (),
        WatcherError,
    >)
        requires
            old(self).wf(),
        ensures
            final(self).wf(),
            spec_lookup(old(self)@, txid@) is Some ==> r == Err::<(), WatcherError>(
                WatcherError::DuplicateTxid,
            ) && final(self)@ == old(self)@,
            spec_lookup(old(self)@, txid@) is None ==> r == Ok::<(), WatcherError>(())
                && final(self)@ == old(self)@.push((txid@, confirmations)),
    {
        match self.lookup(txid) {
            Some(_) => Err(WatcherError::DuplicateTxid),
            None => {
                proof {
                    lemma_lookup_none(self@, txid@);
                }
                let key = copy_bytes(txid);
                self.entries.push((key, confirmations));
                proof {
                    assert(self@ =~= old(self)@.push((txid@, confirmations)));
                }
                Ok(())
            },
        }
    }

    /// True exactly when the txid is recorded and the fresh confirmation
    /// count exceeds the recorded one by more than one: the one-block
    /// increase every new block brings is not worth an update, larger jumps
    /// (a reorg reconfirming at another depth) are.
    pub fn should_update(&self, txid: &Vec<u8>, current: u32) -> (r: bool)
        ensures
            r == (spec_lookup(self@, txid@) matches Some(prev) && current > prev + 1),
    {
        match self.lookup(txid) {
            Some(prev) => (current as u64) > (prev as u64) + 1,
            None => false,
        }
    }

    /// Overwrites the recorded count for a known txid; a txid never recorded
    /// is refused as `UnknownTxid` and nothing changes.
    pub fn record_update(&mut self, txid: &Vec<u8>, confirmations: u32) -> (r: Result<
        (),
        WatcherError,
    >)
        requires
            old(self).wf(),
        ensures
            final(self).wf(),
            spec_lookup(old(self)@, txid@) is None ==> r == Err::<(), WatcherError>(
                WatcherError::UnknownTxid,
            ) && final(self)@ == old(self)@,
            spec_lookup(old(self)@, txid@) is Some ==> r == Ok::<(), WatcherError>(())
                && final(self)@.len() == old(self)@.len()
                && spec_lookup(final(self)@, txid@) == Some(confirmations)
                && (forall|t: Seq<u8>|
                t != txid@ ==> #[trigger] spec_lookup(final(self)@, t) == spec_lookup(
                    old(self)@,
                    t,
                )),
    {
        let mut i: usize = 0;
        while i < self.entries.len()
            invariant
                old(self).wf(),
                *self == *old(self),
                i <= self@.len(),
                self@.len() == self.entries@.len(),
                forall|j: int| 0 <= j < i ==> #[trigger] self@[j].0 != txid@,
            decreases self@.len() - i,
        {
            if bytes_eq(&self.entries[i].0, txid) {
                proof {
                    lemma_lookup_skip(self@, txid@, i as int);
                    assert(self@.skip(i as int)[0] == self@[i as int]);
                    lemma_lookup_update(self@, txid@, i as int, confirmations);
                }
                let key = copy_bytes(txid);
                self.entries[i] = (key, confirmations);
                proof {
                    assert(self@ =~= old(self)@.update(i as int, (txid@, confirmations)));
                    assert forall|a: int, b: int|
                        0 <= a < b < self@.len() implies self@[a].0 != self@[b].0 by {
                        assert(old(self)@[a].0 != old(self)@[b].0);
                        assert(old(self)@[i as int].0 == txid@);
                    }
                }
                return Ok(());
            }
            i = i + 1;
        }
        proof {
            lemma_lookup_skip(self@, txid@, self@.len() as int);
            assert(self@.skip(self@.len() as int) =~= Seq::<(Seq<u8>, u32)>::empty());
        }
        Err(WatcherError::UnknownTxid)
    }
}

} // verus!
