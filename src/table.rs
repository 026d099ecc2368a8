use vstd::prelude::*;

use crate::candles::{
    insert_time, is_chosen, lemma_chosen_prefix, lemma_sorted_times, newer_than, offered,
    sorted_times, strictly_increasing, CandleMeta,
};

verus! {

/// The most rows a table keeps at rest.
pub const MAX_CANDLES: usize = 2000;

/// The resume point of a table whose times are `rows`, in increasing order: its latest
/// time, or `None` where it is empty.
pub open spec fn resume_of(rows: Seq<i64>) -> Option<i64> {
    if rows.len() == 0 {
        None
    } else {
        Some(rows.last())
    }
}

/// The most recent `MAX_CANDLES` of the increasing times `s`.
pub open spec fn retained(s: Seq<i64>) -> Seq<i64> {
    if s.len() <= MAX_CANDLES {
        s
    } else {
        s.subrange(s.len() - MAX_CANDLES, s.len() as int)
    }
}

/// The times a table holds after a batch is appended to a table holding `rows`: the
/// times held, then the times of the complete candles later than all of them in
/// increasing order, of which the most recent `MAX_CANDLES` are kept.
pub open spec fn after_append(rows: Seq<i64>, batch: Seq<CandleMeta>) -> Seq<i64> {
    retained(rows + sorted_times(batch, resume_of(rows)))
}

/// One table of candles, for one instrument and granularity, as the times it holds in
/// increasing order.
pub struct CandleTable {
    rows: Vec<i64>,
}

impl View for CandleTable {
    type V = Seq<i64>;

    closed spec fn view(&self) -> Seq<i64> {
        self.rows@
    }
}

impl CandleTable {
    /// No time is held twice, the times increase, and at most `MAX_CANDLES` are held.
    pub open spec fn wf(&self) -> bool {
        strictly_increasing(self@) && self@.len() <= MAX_CANDLES
    }

    /// A new, empty table.
    pub fn new() -> (r: CandleTable)
        ensures
            r@ == Seq::<i64>::empty(),
            r.wf(),
    {
        CandleTable { rows: Vec::new() }
    }

    /// The number of rows held.
    pub fn len(&self) -> (r: usize)
        ensures
            r == self@.len(),
    {
        self.rows.len()
    }

    /// The times held, oldest first.
    pub fn times(&self) -> (r: Vec<i64>)
        ensures
            r@ == self@,
    {
        let mut out: Vec<i64> = Vec::new();
        let mut i: usize = 0;
        while i < self.rows.len()
            invariant
                i <= self.rows@.len(),
                out@ == self.rows@.take(i as int),
            decreases self.rows@.len() - i,
        {
            out.push(self.rows[i]);
            i = i + 1;
            assert(out@ =~= self.rows@.take(i as int));
        }
        assert(self.rows@.take(i as int) =~= self.rows@);
        out
    }

    /// The latest time held, which is the greatest, or `None` for an empty table.
    pub fn resume_point(&self) -> (r: Option<i64>)
        requires
            self.wf(),
        ensures
            r == resume_of(self@),
            forall|i: int| 0 <= i < self@.len() ==> newer_than(r, self@[i]) == false,
    {
        let n = self.rows.len();
        if n == 0 {
            None
        } else {
            Some(self.rows[n - 1])
        }
    }

    /// Stores the complete candles of `batch` that are later than every row held, one row
    /// per time, then drops the oldest rows beyond `MAX_CANDLES`. Returns how many
    /// candles were stored.
    pub fn append(&mut self, batch: &Vec<CandleMeta>) -> (added: usize)
        requires
            old(self).wf(),
        ensures
            final(self).wf(),
            final(self)@ == after_append(old(self)@, batch@),
            added == sorted_times(batch@, resume_of(old(self)@)).len(),
    {
        let ghost start = self.rows@;
        let since = self.resume_point();
        let mut fresh: Vec<i64> = Vec::new();
        let mut i: usize = 0;
        while i < batch.len()
            invariant
                i <= batch@.len(),
                fresh@ == sorted_times(batch@.take(i as int), since),
                strictly_increasing(fresh@),
            decreases batch@.len() - i,
        {
            proof {
                assert(batch@.take(i + 1).drop_last() =~= batch@.take(i as int));
                lemma_chosen_prefix(batch@, since, i + 1, i as int);
                lemma_sorted_times(batch@.take(i + 1), since);
            }
            if is_chosen(batch, since, i) {
                insert_time(&mut fresh, batch[i].time);
            }
            i = i + 1;
        }
        assert(batch@.take(batch@.len() as int) =~= batch@);
        proof {
            lemma_resume_no_duplicates(start, batch@);
        }
        let added = fresh.len();
        let mut all = Vec::new();
        std::mem::swap(&mut all, &mut self.rows);
        let mut j: usize = 0;
        while j < fresh.len()
            invariant
                j <= fresh@.len(),
                all@ == start + fresh@.take(j as int),
            decreases fresh@.len() - j,
        {
            all.push(fresh[j]);
            j = j + 1;
            assert(all@ =~= start + fresh@.take(j as int));
        }
        assert(fresh@.take(j as int) =~= fresh@);
        let n = all.len();
        if n > MAX_CANDLES {
            let first = n - MAX_CANDLES;
            let mut kept: Vec<i64> = Vec::new();
            let mut k: usize = first;
            while k < n
                invariant
                    first <= k <= n,
                    n == all@.len(),
                    kept@ == all@.subrange(first as int, k as int),
                decreases n - k,
            {
                kept.push(all[k]);
                k = k + 1;
                assert(kept@ =~= all@.subrange(first as int, k as int));
            }
            self.rows = kept;
        } else {
            self.rows = all;
        }
        added
    }
}

} // verus!

verus! {

/// Every row an append stores is later than the resume point it was read from, and the
/// table it leaves has no time twice.
pub proof fn lemma_resume_no_duplicates(rows: Seq<i64>, batch: Seq<CandleMeta>)
    requires
        strictly_increasing(rows),
    ensures
        forall|j: int|
            0 <= j < sorted_times(batch, resume_of(rows)).len() ==> newer_than(
                resume_of(rows),
                #[trigger] sorted_times(batch, resume_of(rows))[j],
            ),
        strictly_increasing(rows + sorted_times(batch, resume_of(rows))),
        strictly_increasing(after_append(rows, batch)),
{
    let since = resume_of(rows);
    let fresh = sorted_times(batch, since);
    lemma_sorted_times(batch, since);
    assert forall|j: int| 0 <= j < fresh.len() implies newer_than(since, #[trigger] fresh[j]) by {
        assert(fresh.contains(fresh[j]));
        let t = fresh[j];
        assert(offered(batch, since, t));
        let i = choose|i: int| 0 <= i < batch.len() && #[trigger] batch[i].complete
            && batch[i].time == t && newer_than(since, t);
    }
    let whole = rows + fresh;
    assert forall|a: int, b: int| 0 <= a < b < whole.len() implies whole[a] < whole[b] by {
        if b >= rows.len() && a < rows.len() {
            assert(newer_than(since, fresh[b - rows.len()]));
        }
    }
}

/// The rows an append leaves before trimming are those held and the times of the
/// complete candles later than all of them, whatever their order in the batch; where
/// these fit in `MAX_CANDLES`, none is dropped.
pub proof fn lemma_stored_contents(rows: Seq<i64>, batch: Seq<CandleMeta>)
    requires
        strictly_increasing(rows),
    ensures
        forall|x: i64|
            (rows + sorted_times(batch, resume_of(rows))).contains(x) <==> (rows.contains(x)
                || offered(batch, resume_of(rows), x)),
        (rows + sorted_times(batch, resume_of(rows))).len() <= MAX_CANDLES ==> after_append(
            rows,
            batch,
        ) == rows + sorted_times(batch, resume_of(rows)),
{
    let fresh = sorted_times(batch, resume_of(rows));
    lemma_sorted_times(batch, resume_of(rows));
    let whole = rows + fresh;
    assert forall|x: i64| whole.contains(x) <==> (rows.contains(x) || fresh.contains(x)) by {
        if whole.contains(x) {
            let k = choose|k: int| 0 <= k < whole.len() && whole[k] == x;
            if k >= rows.len() {
                assert(fresh[k - rows.len()] == x);
            }
        }
        if rows.contains(x) {
            let k = choose|k: int| 0 <= k < rows.len() && rows[k] == x;
            assert(whole[k] == x);
        }
        if fresh.contains(x) {
            let k = choose|k: int| 0 <= k < fresh.len() && fresh[k] == x;
            assert(whole[k + rows.len()] == x);
        }
    }
}

/// Appending the same batch twice leaves the table as appending it once does: a sync
/// that finds no new upstream data changes nothing.
pub proof fn lemma_append_idempotent(rows: Seq<i64>, batch: Seq<CandleMeta>)
    requires
        strictly_increasing(rows),
        rows.len() <= MAX_CANDLES,
    ensures
        after_append(after_append(rows, batch), batch) == after_append(rows, batch),
{
    let since = resume_of(rows);
    let fresh = sorted_times(batch, since);
    let whole = rows + fresh;
    let once = after_append(rows, batch);
    lemma_resume_no_duplicates(rows, batch);
    lemma_sorted_times(batch, since);
    let h = resume_of(once);
    if whole.len() > 0 {
        assert(once.last() == whole.last());
    }
    assert forall|t: i64| !offered(batch, h, t) by {
        if offered(batch, h, t) {
            let i = choose|i: int| 0 <= i < batch.len() && #[trigger] batch[i].complete
                && batch[i].time == t && newer_than(h, t);
            if newer_than(since, t) {
                assert(offered(batch, since, t));
                assert(fresh.contains(t));
                let k = choose|k: int| 0 <= k < fresh.len() && fresh[k] == t;
                assert(whole[rows.len() + k] == t);
            } else {
                if fresh.len() > 0 {
                    assert(newer_than(since, fresh[fresh.len() - 1]));
                }
            }
        }
    }
    lemma_sorted_times(batch, h);
    let again = sorted_times(batch, h);
    assert(again.len() == 0) by {
        if again.len() > 0 {
            assert(again.contains(again[0]));
            assert(offered(batch, h, again[0]));
            assert(!offered(batch, h, again[0]));
        }
    }
    assert(once + again =~= once);
}

/// After an append at most `MAX_CANDLES` rows are left, and they are the most recent of
/// the rows held and stored: a suffix of them, each later than every row dropped.
pub proof fn lemma_retention(rows: Seq<i64>, batch: Seq<CandleMeta>)
    requires
        strictly_increasing(rows),
    ensures
        ({
            let whole = rows + sorted_times(batch, resume_of(rows));
            let kept = after_append(rows, batch);
            &&& kept.len() <= MAX_CANDLES
            &&& kept.len() as int == if whole.len() <= MAX_CANDLES {
                whole.len() as int
            } else {
                MAX_CANDLES as int
            }
            &&& kept == whole.subrange(whole.len() - kept.len(), whole.len() as int)
            &&& forall|i: int, k: int|
                0 <= i < whole.len() - kept.len() && 0 <= k < kept.len() ==> whole[i] < kept[k]
        }),
{
    lemma_resume_no_duplicates(rows, batch);
    let whole = rows + sorted_times(batch, resume_of(rows));
    let kept = after_append(rows, batch);
    if whole.len() <= MAX_CANDLES {
        assert(kept =~= whole.subrange(0, whole.len() as int));
    } else {
        assert forall|i: int, k: int|
            0 <= i < whole.len() - kept.len() && 0 <= k < kept.len() implies whole[i] < kept[k] by {
            assert(kept[k] == whole[whole.len() - MAX_CANDLES + k]);
        }
    }
}

} // verus!

verus! {

/// Two increasing sequences with the same times are equal.
proof fn lemma_increasing_unique(a: Seq<i64>, b: Seq<i64>)
    requires
        strictly_increasing(a),
        strictly_increasing(b),
        forall|x: i64| a.contains(x) <==> b.contains(x),
    ensures
        a == b,
    decreases a.len() + b.len(),
{
    if a.len() == 0 || b.len() == 0 {
        if a.len() > 0 {
            assert(a.contains(a[0]));
        }
        if b.len() > 0 {
            assert(b.contains(b[0]));
        }
        assert(a =~= b);
    } else {
        assert(a.contains(a[0]));
        assert(b.contains(b[0]));
        let k = choose|k: int| 0 <= k < b.len() && b[k] == a[0];
        let m = choose|m: int| 0 <= m < a.len() && a[m] == b[0];
        assert(a[0] <= a[m]);
        assert(b[0] <= b[k]);
        let ra = a.drop_first();
        let rb = b.drop_first();
        assert forall|x: i64| ra.contains(x) <==> rb.contains(x) by {
            if ra.contains(x) {
                let i = choose|i: int| 0 <= i < ra.len() && ra[i] == x;
                assert(a[i + 1] == x);
                assert(b.contains(x));
                let j = choose|j: int| 0 <= j < b.len() && b[j] == x;
                assert(j != 0);
                assert(rb[j - 1] == x);
            }
            if rb.contains(x) {
                let i = choose|i: int| 0 <= i < rb.len() && rb[i] == x;
                assert(b[i + 1] == x);
                assert(a.contains(x));
                let j = choose|j: int| 0 <= j < a.len() && a[j] == x;
                assert(j != 0);
                assert(ra[j - 1] == x);
            }
        }
        lemma_increasing_unique(ra, rb);
        assert(a =~= seq![a[0]] + ra);
        assert(b =~= seq![b[0]] + rb);
    }
}

/// The order of the candles in a page does not change what an append stores: two pages
/// holding the same candles leave the same table.
pub proof fn lemma_page_order(rows: Seq<i64>, first: Seq<CandleMeta>, second: Seq<CandleMeta>)
    requires
        strictly_increasing(rows),
        forall|i: int| 0 <= i < first.len() ==> second.contains(#[trigger] first[i]),
        forall|j: int| 0 <= j < second.len() ==> first.contains(#[trigger] second[j]),
    ensures
        after_append(rows, first) == after_append(rows, second),
{
    let since = resume_of(rows);
    lemma_sorted_times(first, since);
    lemma_sorted_times(second, since);
    assert forall|x: i64| offered(first, since, x) <==> offered(second, since, x) by {
        if offered(first, since, x) {
            let i = choose|i: int| 0 <= i < first.len() && #[trigger] first[i].complete
                && first[i].time == x && newer_than(since, x);
            assert(second.contains(first[i]));
            let j = choose|j: int| 0 <= j < second.len() && second[j] == first[i];
            assert(second[j].complete);
        }
        if offered(second, since, x) {
            let j = choose|j: int| 0 <= j < second.len() && #[trigger] second[j].complete
                && second[j].time == x && newer_than(since, x);
            assert(first.contains(second[j]));
            let i = choose|i: int| 0 <= i < first.len() && first[i] == second[j];
            assert(first[i].complete);
        }
    }
    let a = sorted_times(first, since);
    let b = sorted_times(second, since);
    assert forall|x: i64| a.contains(x) <==> b.contains(x) by {
        assert(a.contains(x) <==> offered(first, since, x));
        assert(b.contains(x) <==> offered(second, since, x));
        assert(offered(first, since, x) <==> offered(second, since, x));
    }
    lemma_increasing_unique(a, b);
}

} // verus!
