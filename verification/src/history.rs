//! Solve records and the history that holds them in the order in which the
//! solves were made.

use crate::stats::average;
use crate::stats::average_of;
use crate::stats::best;
use crate::stats::best_of;
use crate::stats::best_present;
use crate::stats::best_present_of;
use crate::stats::compute_stats;
use crate::stats::lemma_average_of_tail;
use crate::stats::mean;
use crate::stats::mean_of;
use crate::stats::no_worse;
use crate::stats::lemma_best_never_worse;
use crate::stats::lemma_best_present_never_worse;
use crate::stats::recent;
use crate::stats::stats_for;
use crate::stats::LONG_WINDOW;
use crate::stats::SHORT_WINDOW;
use vstd::prelude::*;

verus! {

/// Window of the average of a hundred.
pub const HUNDRED_WINDOW: usize = 100;

/// Window of the average of a thousand.
pub const THOUSAND_WINDOW: usize = 1000;

/// One finished solve: its time in nanoseconds, and the averages of 5 and of
/// 12 as they stood when the solve was made.
#[derive(Clone, Copy, Debug, PartialEq, Eq, Structural)]
pub struct SolveRecord {
    pub time: u64,
    pub ao5: Option<u64>,
    pub ao12: Option<u64>,
}

/// The record of a solve of `time` that follows the solves `prior`.
pub open spec fn record_for(prior: Seq<u64>, time: u64) -> SolveRecord {
    SolveRecord { time, ao5: stats_for(prior, time).0, ao12: stats_for(prior, time).1 }
}

/// The times of the records, in order.
pub open spec fn times_of(records: Seq<SolveRecord>) -> Seq<u64> {
    records.map_values(|r: SolveRecord| r.time)
}

/// The averages of 5 of the records, in order.
pub open spec fn ao5s_of(records: Seq<SolveRecord>) -> Seq<Option<u64>> {
    records.map_values(|r: SolveRecord| r.ao5)
}

/// The averages of 12 of the records, in order.
pub open spec fn ao12s_of(records: Seq<SolveRecord>) -> Seq<Option<u64>> {
    records.map_values(|r: SolveRecord| r.ao12)
}

/// Every record carries the averages that belong to its time after the
/// times before it.
pub open spec fn consistent(records: Seq<SolveRecord>) -> bool {
    forall|i: int|
        0 <= i < records.len() ==> #[trigger] records[i] == record_for(
            times_of(records).take(i),
            records[i].time,
        )
}

impl SolveRecord {
    /// The record of a solve of `time` with no average yet.
    pub fn new(time: u64) -> (r: Self)
        ensures
            r == (SolveRecord { time, ao5: None, ao12: None }),
    {
        SolveRecord { time, ao5: None, ao12: None }
    }

    /// Fills in the averages that this solve has after the solves of
    /// `history`. The time stays.
    pub fn gen_stats(&mut self, history: &History)
        ensures
            *final(self) == record_for(times_of(history@), old(self).time),
    {
        let prior = history.recent_times(LONG_WINDOW - 1);
        let (ao5, ao12) = compute_stats(&prior, self.time);
        proof {
            let all = times_of(history@);
            let k = prior@.len();
            let joined = all.push(self.time);
            assert(prior@.push(self.time) == recent(joined, k + 1));
            lemma_average_of_tail(joined, k + 1, SHORT_WINDOW as nat);
            lemma_average_of_tail(joined, k + 1, LONG_WINDOW as nat);
        }
        self.ao5 = ao5;
        self.ao12 = ao12;
    }
}

/// The solves of a session, oldest first. Records are added at the end and
/// never changed or taken out.
pub struct History {
    records: Vec<SolveRecord>,
}

impl View for History {
    type V = Seq<SolveRecord>;

    closed spec fn view(&self) -> Seq<SolveRecord> {
        self.records@
    }
}

impl History {
    /// Every record is the one that was due when its solve was made.
    pub open spec fn wf(&self) -> bool {
        consistent(self@)
    }

    /// The record that a solve of `time` gets when it comes next.
    pub open spec fn next_record(&self, time: u64) -> SolveRecord {
        record_for(times_of(self@), time)
    }

    /// An empty history.
    pub fn new() -> (r: Self)
        ensures
            r@ == Seq::<SolveRecord>::empty(),
            r.wf(),
    {
        History { records: Vec::new() }
    }

    /// Number of solves.
    pub fn len(&self) -> (r: usize)
        ensures
            r == self@.len(),
    {
        self.records.len()
    }

    /// The record of solve number `i`, counted from zero, if there is one.
    pub fn get(&self, i: usize) -> (r: Option<SolveRecord>)
        ensures
            r == if i < self@.len() {
                Some(self@[i as int])
            } else {
                None::<SolveRecord>
            },
    {
        if i < self.records.len() {
            Some(self.records[i])
        } else {
            None
        }
    }

    /// All records, oldest first.
    pub fn records(&self) -> (r: &Vec<SolveRecord>)
        ensures
            r@ == self@,
    {
        &self.records
    }

    /// The times of the `k` most recent solves, oldest first; all of them
    /// where the history holds fewer.
    pub fn recent_times(&self, k: usize) -> (r: Vec<u64>)
        ensures
            r@ == recent(
                times_of(self@),
                if k < self@.len() {
                    k as nat
                } else {
                    self@.len()
                },
            ),
    {
        let n = self.records.len();
        let from: usize = if k < n {
            n - k
        } else {
            0
        };
        let mut out: Vec<u64> = Vec::new();
        let mut i: usize = from;
        while i < n
            invariant
                from <= i <= n,
                n == self.records@.len(),
                out@ == times_of(self@).subrange(from as int, i as int),
            decreases n - i,
        {
            out.push(self.records[i].time);
            i = i + 1;
        }
        out
    }

    /// The times of all solves, oldest first.
    pub fn times(&self) -> (r: Vec<u64>)
        ensures
            r@ == times_of(self@),
    {
        let out = self.recent_times(self.records.len());
        assert(recent(times_of(self@), self@.len()) == times_of(self@));
        out
    }

    /// Adds `record` at the end. The records before it stay as they are.
    pub fn append(&mut self, record: SolveRecord)
        requires
            old(self).wf(),
            record == old(self).next_record(record.time),
        ensures
            final(self)@ == old(self)@.push(record),
            final(self).wf(),
            forall|i: int| 0 <= i < old(self)@.len() ==> final(self)@[i] == old(self)@[i],
            no_worse(best(times_of(final(self)@)), best(times_of(old(self)@))),
            no_worse(best_present(ao5s_of(final(self)@)), best_present(ao5s_of(old(self)@))),
            no_worse(best_present(ao12s_of(final(self)@)), best_present(ao12s_of(old(self)@))),
    {
        proof {
            lemma_append_keeps_earlier_records(self@, record.time);
            lemma_bests_never_worse(self@, record);
        }
        self.records.push(record);
    }

    /// Personal best single: the smallest time of all solves.
    pub fn best_single(&self) -> (r: Option<u64>)
        ensures
            r == best(times_of(self@)),
    {
        let times = self.times();
        best_of(&times)
    }

    /// Personal best average of 5: the smallest of the averages of 5 that
    /// exist.
    pub fn best_ao5(&self) -> (r: Option<u64>)
        ensures
            r == best_present(ao5s_of(self@)),
    {
        let mut values: Vec<Option<u64>> = Vec::new();
        let mut i: usize = 0;
        while i < self.records.len()
            invariant
                i <= self.records@.len(),
                values@ == ao5s_of(self@).take(i as int),
            decreases self.records.len() - i,
        {
            values.push(self.records[i].ao5);
            i = i + 1;
        }
        assert(ao5s_of(self@).take(i as int) == ao5s_of(self@));
        best_present_of(&values)
    }

    /// Personal best average of 12: the smallest of the averages of 12 that
    /// exist.
    pub fn best_ao12(&self) -> (r: Option<u64>)
        ensures
            r == best_present(ao12s_of(self@)),
    {
        let mut values: Vec<Option<u64>> = Vec::new();
        let mut i: usize = 0;
        while i < self.records.len()
            invariant
                i <= self.records@.len(),
                values@ == ao12s_of(self@).take(i as int),
            decreases self.records.len() - i,
        {
            values.push(self.records[i].ao12);
            i = i + 1;
        }
        assert(ao12s_of(self@).take(i as int) == ao12s_of(self@));
        best_present_of(&values)
    }

    /// Average of the 100 most recent solves, once there are that many.
    pub fn ao100(&self) -> (r: Option<u64>)
        ensures
            r == average(times_of(self@), HUNDRED_WINDOW as nat),
    {
        self.average_of_recent(HUNDRED_WINDOW)
    }

    /// Average of the 1000 most recent solves, once there are that many.
    pub fn ao1k(&self) -> (r: Option<u64>)
        ensures
            r == average(times_of(self@), THOUSAND_WINDOW as nat),
    {
        self.average_of_recent(THOUSAND_WINDOW)
    }

    /// Average of the `n` most recent solves, read from the tail of the
    /// history alone.
    pub fn average_of_recent(&self, n: usize) -> (r: Option<u64>)
        ensures
            r == average(times_of(self@), n as nat),
    {
        let tail = self.recent_times(n);
        proof {
            lemma_average_of_tail(times_of(self@), tail@.len(), n as nat);
        }
        average_of(&tail, n)
    }

    /// Mean of all solves so far.
    pub fn rolling_average(&self) -> (r: Option<u64>)
        ensures
            r == mean(times_of(self@)),
    {
        let times = self.times();
        mean_of(&times)
    }
}

/// Adding the record that is due for a new solve leaves every earlier record
/// as it was, and each of them is still the record that was due for its own
/// solve: no average is ever computed again.
pub proof fn lemma_append_keeps_earlier_records(records: Seq<SolveRecord>, time: u64)
    requires
        consistent(records),
    ensures
        consistent(records.push(record_for(times_of(records), time))),
        forall|i: int|
            0 <= i < records.len() ==> records.push(record_for(times_of(records), time))[i]
                == records[i],
{
    let longer = records.push(record_for(times_of(records), time));
    assert forall|i: int| 0 <= i < longer.len() implies #[trigger] longer[i] == record_for(
        times_of(longer).take(i),
        longer[i].time,
    ) by {
        assert(times_of(longer).take(i) == times_of(records).take(i));
        if i == records.len() {
            assert(times_of(records).take(i) == times_of(records));
        }
    }
}

/// In a history, the solve at index `i` has an average of 5 exactly when it
/// is the fifth solve or a later one, and an average of 12 exactly when it is
/// the twelfth or a later one.
pub proof fn lemma_average_present_from_full_window(records: Seq<SolveRecord>, i: int)
    requires
        consistent(records),
        0 <= i < records.len(),
    ensures
        records[i].ao5 is Some <==> i + 1 >= SHORT_WINDOW,
        records[i].ao12 is Some <==> i + 1 >= LONG_WINDOW,
{
    assert(records[i] == record_for(times_of(records).take(i), records[i].time));
}

/// Personal bests never get worse: with one more record at the end, the best
/// single, the best average of 5 and the best average of 12 each stay or get
/// smaller, and one that existed still exists.
pub proof fn lemma_bests_never_worse(records: Seq<SolveRecord>, record: SolveRecord)
    ensures
        no_worse(best(times_of(records.push(record))), best(times_of(records))),
        no_worse(
            best_present(ao5s_of(records.push(record))),
            best_present(ao5s_of(records)),
        ),
        no_worse(
            best_present(ao12s_of(records.push(record))),
            best_present(ao12s_of(records)),
        ),
{
    assert(times_of(records.push(record)) == times_of(records).push(record.time));
    assert(ao5s_of(records.push(record)) == ao5s_of(records).push(record.ao5));
    assert(ao12s_of(records.push(record)) == ao12s_of(records).push(record.ao12));
    lemma_best_never_worse(times_of(records), record.time);
    lemma_best_present_never_worse(ao5s_of(records), record.ao5);
    lemma_best_present_never_worse(ao12s_of(records), record.ao12);
}

} // verus!
