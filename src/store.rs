use vstd::prelude::*;

use crate::sampler::IntervalEntry;
use crate::timestamp::Timestamp;

verus! {

/// Number of interval records folded into one average record.
pub const ROLLUP_BATCH: usize = 20;

/// An interval record as stored, under the id that the store gave it.
#[derive(Clone, Copy, Debug, PartialEq, Eq, Structural)]
pub struct IntervalRow {
    pub id: u64,
    pub entry: IntervalEntry,
}

/// An average record: the mean blink count of one batch of interval records,
/// from the start of the oldest to the end of the newest.
#[derive(Clone, Copy, Debug, PartialEq, Eq, Structural)]
pub struct AvgEntry {
    pub start_time: Timestamp,
    pub end_time: Timestamp,
    pub avg_value: u32,
}

/// What a rollup writes: one average record, and the ids of exactly the
/// interval records that it folds in, to be deleted with it.
#[derive(Debug)]
pub struct RollupPlan {
    pub average: AvgEntry,
    pub row_ids: Vec<u64>,
}

/// The sum of the blink counts of `rows`.
pub open spec fn blink_sum(rows: Seq<IntervalRow>) -> int
    decreases rows.len(),
{
    if rows.len() == 0 {
        0
    } else {
        blink_sum(rows.drop_last()) + rows.last().entry.blink_count
    }
}

/// The ids of `rows`, in the same order.
pub open spec fn ids_of(rows: Seq<IntervalRow>) -> Seq<u64> {
    rows.map_values(|r: IntervalRow| r.id)
}

/// The set of the ids of `rows`.
pub open spec fn id_set(rows: Seq<IntervalRow>) -> Set<u64> {
    Set::new(|x: u64| exists|i: int| 0 <= i < rows.len() && #[trigger] rows[i].id == x)
}

/// The average record of a batch given newest first: the truncated mean of
/// its blink counts, from the start of its last (oldest) row to the end of
/// its first (newest) row.
pub open spec fn batch_average(batch: Seq<IntervalRow>) -> AvgEntry {
    AvgEntry {
        start_time: batch.last().entry.start_time,
        end_time: batch[0].entry.end_time,
        avg_value: (blink_sum(batch) / (ROLLUP_BATCH as int)) as u32,
    }
}

proof fn lemma_blink_sum_bounds(rows: Seq<IntervalRow>)
    ensures
        0 <= blink_sum(rows) <= rows.len() * (u32::MAX as int),
    decreases rows.len(),
{
    if rows.len() > 0 {
        lemma_blink_sum_bounds(rows.drop_last());
    }
}

/// Plans the rollup of the rows read newest first (as `ORDER BY id DESC`):
/// nothing while fewer than a batch are there; otherwise the average of the
/// first batch of them, and their ids.
pub fn plan_rollup(newest_first: &Vec<IntervalRow>) -> (r: Option<RollupPlan>)
    ensures
        r is None <==> newest_first@.len() < ROLLUP_BATCH,
        r matches Some(p) ==> {
            &&& p.average == batch_average(newest_first@.take(ROLLUP_BATCH as int))
            &&& p.row_ids@ == ids_of(newest_first@.take(ROLLUP_BATCH as int))
        },
{
    if newest_first.len() < ROLLUP_BATCH {
        return None;
    }
    let mut sum: u64 = 0;
    let mut ids: Vec<u64> = Vec::new();
    let mut i: usize = 0;
    while i < ROLLUP_BATCH
        invariant
            i <= ROLLUP_BATCH <= newest_first@.len(),
            sum == blink_sum(newest_first@.take(i as int)),
            sum <= i * (u32::MAX as int),
            ids@ == ids_of(newest_first@.take(i as int)),
        decreases ROLLUP_BATCH - i,
    {
        let row = newest_first[i];
        proof {
            assert(newest_first@.take(i + 1).drop_last() =~= newest_first@.take(i as int));
            assert(ids_of(newest_first@.take(i + 1)) =~= ids_of(newest_first@.take(i as int)).push(
                row.id,
            ));
        }
        sum = sum + row.entry.blink_count as u64;
        ids.push(row.id);
        i = i + 1;
    }
    let batch = Ghost(newest_first@.take(ROLLUP_BATCH as int));
    proof {
        lemma_blink_sum_bounds(batch@);
    }
    let average = AvgEntry {
        start_time: newest_first[ROLLUP_BATCH - 1].entry.start_time,
        end_time: newest_first[0].entry.end_time,
        avg_value: (sum / (ROLLUP_BATCH as u64)) as u32,
    };
    Some(RollupPlan { average, row_ids: ids })
}

/// The content of the interval and average tables.
pub struct LogState {
    /// The interval records, oldest first.
    pub rows: Seq<IntervalRow>,
    /// The average records, in the order written.
    pub averages: Seq<AvgEntry>,
    /// The id that the next interval record gets.
    pub next_id: int,
    /// For each average record, the ids of the interval records folded into it.
    pub consumed: Seq<Set<u64>>,
}

impl LogState {
    pub open spec fn inv(self) -> bool {
        &&& 1 <= self.next_id <= u64::MAX
        &&& self.averages.len() == self.consumed.len()
        &&& forall|i: int, j: int|
            0 <= i < j < self.rows.len() ==> #[trigger] self.rows[i].id < #[trigger] self.rows[j].id
        &&& forall|i: int| 0 <= i < self.rows.len() ==> 1 <= #[trigger] self.rows[i].id < self.next_id
        &&& forall|k: int, x: u64|
            0 <= k < self.consumed.len() && #[trigger] self.consumed[k].contains(x) ==> 1 <= x
                < self.next_id
        &&& forall|k: int, l: int|
            0 <= k < l < self.consumed.len() ==> #[trigger] self.consumed[k].disjoint(
                #[trigger] self.consumed[l],
            )
        &&& forall|k: int|
            0 <= k < self.consumed.len() ==> #[trigger] self.consumed[k].disjoint(
                id_set(self.rows),
            )
        &&& forall|x: u64|
            1 <= x < self.next_id ==> #[trigger] id_set(self.rows).contains(x) || exists|k: int|
                0 <= k < self.consumed.len() && #[trigger] self.consumed[k].contains(x)
    }

    /// The log after an interval record is appended under the next id.
    pub open spec fn inserted(self, entry: IntervalEntry) -> LogState {
        LogState {
            rows: self.rows.push(IntervalRow { id: self.next_id as u64, entry }),
            averages: self.averages,
            next_id: self.next_id + 1,
            consumed: self.consumed,
        }
    }

    /// The newest batch of interval records, newest first.
    pub open spec fn newest_batch(self) -> Seq<IntervalRow> {
        self.rows.subrange(self.rows.len() - ROLLUP_BATCH, self.rows.len() as int).reverse()
    }

    /// The log after a rollup check: unchanged while fewer than a batch of
    /// interval records are there; otherwise the newest batch is deleted and
    /// its average appended.
    pub open spec fn checked(self) -> LogState {
        if self.rows.len() < ROLLUP_BATCH {
            self
        } else {
            LogState {
                rows: self.rows.take(self.rows.len() - ROLLUP_BATCH),
                averages: self.averages.push(batch_average(self.newest_batch())),
                next_id: self.next_id,
                consumed: self.consumed.push(id_set(self.newest_batch())),
            }
        }
    }

    /// The average record that a rollup check writes, if any.
    pub open spec fn check_result(self) -> Option<AvgEntry> {
        if self.rows.len() < ROLLUP_BATCH {
            None
        } else {
            Some(batch_average(self.newest_batch()))
        }
    }
}

/// The interval and average tables, held in memory: interval records are
/// appended one at a time, and each rollup check folds the newest batch of
/// them into one average record and deletes exactly that batch. A persistent
/// store does the same by writing what `plan_rollup` returns for the rows it
/// reads, in one transaction.
pub struct IntervalLog {
    rows: Vec<IntervalRow>,
    averages: Vec<AvgEntry>,
    next_id: u64,
    consumed: Ghost<Seq<Set<u64>>>,
}

impl View for IntervalLog {
    type V = LogState;

    closed spec fn view(&self) -> LogState {
        LogState {
            rows: self.rows@,
            averages: self.averages@,
            next_id: self.next_id as int,
            consumed: self.consumed@,
        }
    }
}

impl IntervalLog {
    pub open spec fn wf(&self) -> bool {
        self@.inv()
    }

    /// Empty tables; the first interval record gets id 1.
    pub fn new() -> (r: IntervalLog)
        ensures
            r.wf(),
            r@.rows == Seq::<IntervalRow>::empty(),
            r@.averages == Seq::<AvgEntry>::empty(),
            r@.next_id == 1,
    {
        let r = IntervalLog {
            rows: Vec::new(),
            averages: Vec::new(),
            next_id: 1,
            consumed: Ghost(Seq::empty()),
        };
        assert forall|x: u64| 1 <= x < r@.next_id implies #[trigger] id_set(r@.rows).contains(x)
            || exists|k: int| 0 <= k < r@.consumed.len() && #[trigger] r@.consumed[k].contains(x) by {}
        r
    }

    /// Appends `entry` under the next id, and returns that id.
    pub fn append(&mut self, entry: IntervalEntry) -> (id: u64)
        requires
            old(self).wf(),
            old(self)@.next_id < u64::MAX,
        ensures
            final(self).wf(),
            final(self)@ == old(self)@.inserted(entry),
            id == old(self)@.next_id,
    {
        let ghost pre = self@;
        let id = self.next_id;
        self.rows.push(IntervalRow { id, entry });
        self.next_id = id + 1;
        let ghost post = self@;
        assert(post == pre.inserted(entry));
        assert forall|k: int| 0 <= k < post.consumed.len() implies #[trigger] post.consumed[k].disjoint(
            id_set(post.rows),
        ) by {
            assert forall|x: u64| post.consumed[k].contains(x) implies !id_set(post.rows).contains(
                x,
            ) by {
                assert(pre.consumed[k].disjoint(id_set(pre.rows)));
                assert(!id_set(pre.rows).contains(x));
                assert(x < pre.next_id);
                if id_set(post.rows).contains(x) {
                    let i = choose|i: int| 0 <= i < post.rows.len() && #[trigger] post.rows[i].id == x;
                    if i < pre.rows.len() {
                        assert(pre.rows[i].id == x);
                    }
                }
            }
        }
        assert forall|x: u64| 1 <= x < post.next_id implies #[trigger] id_set(post.rows).contains(x)
            || exists|k: int| 0 <= k < post.consumed.len() && #[trigger] post.consumed[k].contains(x) by {
            if x == id {
                assert(post.rows[pre.rows.len() as int].id == x);
                assert(id_set(post.rows).contains(x));
            } else if id_set(pre.rows).contains(x) {
                let i = choose|i: int| 0 <= i < pre.rows.len() && #[trigger] pre.rows[i].id == x;
                assert(post.rows[i].id == x);
                assert(id_set(post.rows).contains(x));
            } else {
                let k = choose|k: int| 0 <= k < pre.consumed.len() && #[trigger] pre.consumed[k].contains(x);
                assert(post.consumed[k].contains(x));
            }
        }
        id
    }

    /// Folds the newest batch of interval records into one average record
    /// and deletes exactly that batch, as one step; does nothing while fewer
    /// than a batch are there. Returns the average record written, if any.
    pub fn rollup_check(&mut self) -> (r: Option<AvgEntry>)
        requires
            old(self).wf(),
        ensures
            final(self).wf(),
            final(self)@ == old(self)@.checked(),
            r == old(self)@.check_result(),
            old(self)@.rows.len() < ROLLUP_BATCH ==> final(self)@ == old(self)@ && r is None,
    {
        let len = self.rows.len();
        if len < ROLLUP_BATCH {
            return None;
        }
        let ghost pre = self@;
        let mut batch: Vec<IntervalRow> = Vec::new();
        let mut i: usize = len;
        while i > len - ROLLUP_BATCH
            invariant
                self@ == pre,
                len == pre.rows.len(),
                len >= ROLLUP_BATCH,
                len - ROLLUP_BATCH <= i <= len,
                batch@ == pre.rows.subrange(i as int, len as int).reverse(),
            decreases i,
        {
            i = i - 1;
            batch.push(self.rows[i]);
            assert(pre.rows.subrange(i as int, len as int).reverse() =~= pre.rows.subrange(
                i + 1,
                len as int,
            ).reverse().push(pre.rows[i as int]));
        }
        assert(batch@ == pre.newest_batch());
        assert(batch@.take(ROLLUP_BATCH as int) =~= batch@);
        match plan_rollup(&batch) {
            Some(plan) => {
                self.averages.push(plan.average);
                self.rows.truncate(len - ROLLUP_BATCH);
                self.consumed = Ghost(self.consumed@.push(id_set(batch@)));
                proof {
                    self.lemma_rollup_keeps_inv(pre);
                }
                Some(plan.average)
            },
            None => None,
        }
    }

    proof fn lemma_rollup_keeps_inv(&self, pre: LogState)
        requires
            pre.inv(),
            pre.rows.len() >= ROLLUP_BATCH,
            self@ == pre.checked(),
        ensures
            self@.inv(),
    {
        let post = self@;
        let n = pre.rows.len() - ROLLUP_BATCH;
        let batch = pre.newest_batch();
        let c = id_set(batch);
        assert forall|x: u64| c.contains(x) implies exists|i: int|
            n <= i < pre.rows.len() && #[trigger] pre.rows[i].id == x by {
            let j = choose|j: int| 0 <= j < batch.len() && #[trigger] batch[j].id == x;
            assert(pre.rows[pre.rows.len() - 1 - j].id == x);
        }
        assert forall|k: int, l: int| 0 <= k < l < post.consumed.len() implies #[trigger] post.consumed[k].disjoint(
            #[trigger] post.consumed[l],
        ) by {
            if l == post.consumed.len() - 1 {
                assert forall|x: u64| post.consumed[k].contains(x) implies !post.consumed[l].contains(
                    x,
                ) by {
                    assert(pre.consumed[k].disjoint(id_set(pre.rows)));
                    if c.contains(x) {
                        let i = choose|i: int| n <= i < pre.rows.len() && #[trigger] pre.rows[i].id == x;
                        assert(id_set(pre.rows).contains(x));
                    }
                }
            } else {
                assert(pre.consumed[k].disjoint(pre.consumed[l]));
            }
        }
        assert forall|k: int| 0 <= k < post.consumed.len() implies #[trigger] post.consumed[k].disjoint(
            id_set(post.rows),
        ) by {
            assert forall|x: u64| post.consumed[k].contains(x) implies !id_set(post.rows).contains(
                x,
            ) by {
                if id_set(post.rows).contains(x) {
                    let i = choose|i: int| 0 <= i < post.rows.len() && #[trigger] post.rows[i].id == x;
                    assert(pre.rows[i].id == x);
                    if k == post.consumed.len() - 1 {
                        let i2 = choose|i2: int| n <= i2 < pre.rows.len() && #[trigger] pre.rows[i2].id == x;
                        assert(pre.rows[i].id < pre.rows[i2].id);
                    } else {
                        assert(pre.consumed[k].disjoint(id_set(pre.rows)));
                        assert(id_set(pre.rows).contains(x));
                    }
                }
            }
        }
        assert forall|k: int, x: u64| 0 <= k < post.consumed.len() && #[trigger] post.consumed[k].contains(x)
            implies 1 <= x < post.next_id by {
            if k == post.consumed.len() - 1 {
                let i = choose|i: int| n <= i < pre.rows.len() && #[trigger] pre.rows[i].id == x;
            } else {
                assert(pre.consumed[k].contains(x));
            }
        }
        assert forall|x: u64| 1 <= x < post.next_id implies #[trigger] id_set(post.rows).contains(x)
            || exists|k: int| 0 <= k < post.consumed.len() && #[trigger] post.consumed[k].contains(x) by {
            if id_set(pre.rows).contains(x) {
                let i = choose|i: int| 0 <= i < pre.rows.len() && #[trigger] pre.rows[i].id == x;
                if i < n {
                    assert(post.rows[i].id == x);
                } else {
                    let j = pre.rows.len() - 1 - i;
                    assert(batch[j].id == x);
                    assert(post.consumed[post.consumed.len() - 1].contains(x));
                }
            } else {
                let k = choose|k: int| 0 <= k < pre.consumed.len() && #[trigger] pre.consumed[k].contains(x);
                assert(post.consumed[k].contains(x));
            }
        }
    }

    /// Appends `entry`, then runs the rollup check that every insert brings
    /// about; returns the average record that the check wrote, if any.
    pub fn insert_interval(&mut self, entry: IntervalEntry) -> (r: Option<AvgEntry>)
        requires
            old(self).wf(),
            old(self)@.next_id < u64::MAX,
        ensures
            final(self).wf(),
            final(self)@ == old(self)@.inserted(entry).checked(),
            r == old(self)@.inserted(entry).check_result(),
    {
        self.append(entry);
        self.rollup_check()
    }

    /// All average records, in the order written.
    pub fn calculate_avg(&self) -> (r: Vec<AvgEntry>)
        ensures
            r@ == self@.averages,
    {
        let mut out: Vec<AvgEntry> = Vec::new();
        let mut i: usize = 0;
        while i < self.averages.len()
            invariant
                i <= self.averages@.len(),
                out@ == self.averages@.take(i as int),
            decreases self.averages@.len() - i,
        {
            out.push(self.averages[i]);
            i = i + 1;
            assert(out@ =~= self.averages@.take(i as int));
        }
        assert(out@ =~= self.averages@);
        out
    }

    /// The interval records, oldest first.
    pub fn interval_rows(&self) -> (r: Vec<IntervalRow>)
        ensures
            r@ == self@.rows,
    {
        let mut out: Vec<IntervalRow> = Vec::new();
        let mut i: usize = 0;
        while i < self.rows.len()
            invariant
                i <= self.rows@.len(),
                out@ == self.rows@.take(i as int),
            decreases self.rows@.len() - i,
        {
            out.push(self.rows[i]);
            i = i + 1;
            assert(out@ =~= self.rows@.take(i as int));
        }
        assert(out@ =~= self.rows@);
        out
    }

    /// The id that the next interval record gets.
    pub fn next_id(&self) -> (r: u64)
        ensures
            r == self@.next_id,
    {
        self.next_id
    }
}

/// The sum of the blink counts of `entries`.
pub open spec fn entry_blink_sum(entries: Seq<IntervalEntry>) -> int
    decreases entries.len(),
{
    if entries.len() == 0 {
        0
    } else {
        entry_blink_sum(entries.drop_last()) + entries.last().blink_count
    }
}

/// The log after each of `entries` is inserted in turn, each insert followed
/// by its rollup check.
pub open spec fn record_all(l: LogState, entries: Seq<IntervalEntry>) -> LogState
    decreases entries.len(),
{
    if entries.len() == 0 {
        l
    } else {
        record_all(l, entries.drop_last()).inserted(entries.last()).checked()
    }
}

/// The rows that `entries` become under consecutive ids from `first_id`.
pub open spec fn rows_from(first_id: int, entries: Seq<IntervalEntry>) -> Seq<IntervalRow> {
    Seq::new(entries.len(), |i: int| IntervalRow { id: (first_id + i) as u64, entry: entries[i] })
}

proof fn lemma_blink_sum_prepend(x: IntervalRow, t: Seq<IntervalRow>)
    ensures
        blink_sum(seq![x] + t) == x.entry.blink_count + blink_sum(t),
    decreases t.len(),
{
    if t.len() > 0 {
        assert((seq![x] + t).drop_last() =~= seq![x] + t.drop_last());
        assert((seq![x] + t).last() == t.last());
        lemma_blink_sum_prepend(x, t.drop_last());
    } else {
        assert(seq![x] + t =~= seq![x]);
        assert(seq![x].drop_last() =~= Seq::<IntervalRow>::empty());
        assert(blink_sum(seq![x]) == blink_sum(seq![x].drop_last()) + x.entry.blink_count);
    }
}

proof fn lemma_blink_sum_reverse(s: Seq<IntervalRow>)
    ensures
        blink_sum(s.reverse()) == blink_sum(s),
    decreases s.len(),
{
    if s.len() > 0 {
        assert(s.reverse() =~= seq![s.last()] + s.drop_last().reverse());
        lemma_blink_sum_prepend(s.last(), s.drop_last().reverse());
        lemma_blink_sum_reverse(s.drop_last());
    }
}

proof fn lemma_rows_blink_sum(first_id: int, entries: Seq<IntervalEntry>)
    ensures
        blink_sum(rows_from(first_id, entries)) == entry_blink_sum(entries),
    decreases entries.len(),
{
    if entries.len() > 0 {
        assert(rows_from(first_id, entries).drop_last() =~= rows_from(first_id, entries.drop_last()));
        lemma_rows_blink_sum(first_id, entries.drop_last());
    }
}

proof fn lemma_record_below_batch(l: LogState, entries: Seq<IntervalEntry>)
    requires
        l.rows.len() == 0,
        entries.len() < ROLLUP_BATCH,
    ensures
        record_all(l, entries) == (LogState {
            rows: rows_from(l.next_id, entries),
            averages: l.averages,
            next_id: l.next_id + entries.len(),
            consumed: l.consumed,
        }),
    decreases entries.len(),
{
    if entries.len() > 0 {
        lemma_record_below_batch(l, entries.drop_last());
        let ins = record_all(l, entries.drop_last()).inserted(entries.last());
        assert(ins.rows =~= rows_from(l.next_id, entries));
    } else {
        assert(rows_from(l.next_id, entries) =~= l.rows);
    }
}

/// A batch of interval records inserted into a log that holds none, each
/// insert followed by its rollup check, gives exactly one new average record:
/// the truncated mean of their blink counts, from the start of the first to
/// the end of the last. Afterwards none of them is stored, and the new average
/// record is the one that folded in exactly their ids.
pub proof fn lemma_batch_round_trip(l: LogState, entries: Seq<IntervalEntry>)
    requires
        l.inv(),
        l.rows.len() == 0,
        entries.len() == ROLLUP_BATCH,
        l.next_id + ROLLUP_BATCH <= u64::MAX,
    ensures
        record_all(l, entries).rows.len() == 0,
        record_all(l, entries).averages == l.averages.push(
            AvgEntry {
                start_time: entries[0].start_time,
                end_time: entries[ROLLUP_BATCH - 1].end_time,
                avg_value: (entry_blink_sum(entries) / (ROLLUP_BATCH as int)) as u32,
            },
        ),
        record_all(l, entries).consumed == l.consumed.push(
            Set::new(|x: u64| l.next_id <= x < l.next_id + ROLLUP_BATCH),
        ),
{
    let first = l.next_id;
    lemma_record_below_batch(l, entries.drop_last());
    let ins = record_all(l, entries.drop_last()).inserted(entries.last());
    let rows = rows_from(first, entries);
    assert(ins.rows =~= rows);
    assert(rows.subrange(0, ROLLUP_BATCH as int) =~= rows);
    assert(ins.newest_batch() == rows.reverse());
    lemma_blink_sum_reverse(rows);
    lemma_rows_blink_sum(first, entries);
    let ids = Set::new(|x: u64| first <= x < first + ROLLUP_BATCH);
    assert forall|x: u64| id_set(rows.reverse()).contains(x) <==> ids.contains(x) by {
        if ids.contains(x) {
            let i = x - first;
            assert(rows.reverse()[ROLLUP_BATCH - 1 - i].id == x);
        }
        if id_set(rows.reverse()).contains(x) {
            let i = choose|i: int| 0 <= i < ROLLUP_BATCH && #[trigger] rows.reverse()[i].id == x;
            assert(rows[ROLLUP_BATCH - 1 - i].id == x);
        }
    }
    assert(id_set(rows.reverse()) =~= ids);
}

/// No interval record is folded into two average records, none that is still
/// stored is folded into any, and every record ever inserted is still stored
/// or folded into an average record: a rollup deletes only what it read.
pub proof fn lemma_rollups_disjoint(l: LogState)
    requires
        l.inv(),
    ensures
        forall|k: int, j: int|
            0 <= k < j < l.consumed.len() ==> #[trigger] l.consumed[k].disjoint(
                #[trigger] l.consumed[j],
            ),
        forall|k: int|
            0 <= k < l.consumed.len() ==> #[trigger] l.consumed[k].disjoint(id_set(l.rows)),
        forall|x: u64|
            1 <= x < l.next_id ==> #[trigger] id_set(l.rows).contains(x) || exists|k: int|
                0 <= k < l.consumed.len() && #[trigger] l.consumed[k].contains(x),
{
}

} // verus!
