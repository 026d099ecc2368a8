use vstd::prelude::*;

verus! {

/// What the synchronisation logic reads of one upstream candle: its opening time in
/// seconds since the epoch and whether the interval has closed.
#[derive(Clone, Copy, Debug, PartialEq, Eq, Structural)]
pub struct CandleMeta {
    pub time: i64,
    pub complete: bool,
}

/// The seconds since the epoch that the timestamp text `s` denotes, or `None` where it
/// is not a timestamp.
pub uninterp spec fn time_of(s: Seq<char>) -> Option<i64>;

/// Relies on chrono's `FromStr` for `DateTime<Utc>` (relaxed RFC 3339, the parse its
/// serde support uses) and `DateTime::timestamp`; the result depends on the text alone.
#[verifier::external_body]
fn parse_time(s: &str) -> (r: Option<i64>)
    ensures
        r == time_of(s@),
{
    match s.parse::<chrono::DateTime<chrono::Utc>>() {
        Ok(t) => Some(t.timestamp()),
        Err(_) => None,
    }
}

/// A candle of the given upstream time text, or `None` where the text is no timestamp.
pub fn candle_meta(time: &str, complete: bool) -> (r: Option<CandleMeta>)
    ensures
        r == (match time_of(time@) {
            Some(t) => Some(CandleMeta { time: t, complete }),
            None => None,
        }),
{
    match parse_time(time) {
        Some(t) => Some(CandleMeta { time: t, complete }),
        None => None,
    }
}

/// Whether `t` lies strictly after the bound; no bound admits every time.
pub open spec fn newer_than(bound: Option<i64>, t: i64) -> bool {
    match bound {
        Some(b) => t > b,
        None => true,
    }
}

/// Whether the candle at position `i` of `batch` is stored after a table whose latest
/// time is `since`: it is complete, later than `since`, and no complete candle before it
/// in the batch has the same time.
pub open spec fn chosen(batch: Seq<CandleMeta>, since: Option<i64>, i: int) -> bool {
    &&& batch[i].complete
    &&& newer_than(since, batch[i].time)
    &&& forall|k: int| 0 <= k < i ==> !(#[trigger] batch[k].complete && batch[k].time == batch[i].time)
}

/// Whether some complete candle of `batch` later than `since` has time `t`.
pub open spec fn offered(batch: Seq<CandleMeta>, since: Option<i64>, t: i64) -> bool {
    exists|i: int| 0 <= i < batch.len() && #[trigger] batch[i].complete && batch[i].time == t
        && newer_than(since, t)
}

/// The positions `i` of `batch`, in increasing order, for which `chosen` holds.
pub open spec fn selection(batch: Seq<CandleMeta>, since: Option<i64>) -> Seq<usize>
    decreases batch.len(),
{
    if batch.len() == 0 {
        Seq::empty()
    } else {
        let s = selection(batch.drop_last(), since);
        if chosen(batch, since, batch.len() - 1) {
            s.push((batch.len() - 1) as usize)
        } else {
            s
        }
    }
}

/// Each time is strictly later than the one before it.
pub open spec fn strictly_increasing(s: Seq<i64>) -> bool {
    forall|i: int, j: int| 0 <= i < j < s.len() ==> s[i] < s[j]
}

/// The increasing sequence `s` with `t` added where it is missing.
pub open spec fn insert_sorted(s: Seq<i64>, t: i64) -> Seq<i64>
    decreases s.len(),
{
    if s.len() == 0 {
        seq![t]
    } else if t < s[0] {
        seq![t] + s
    } else if t == s[0] {
        s
    } else {
        seq![s[0]] + insert_sorted(s.drop_first(), t)
    }
}

/// The times of the chosen candles of `batch`, in increasing order.
pub open spec fn sorted_times(batch: Seq<CandleMeta>, since: Option<i64>) -> Seq<i64>
    decreases batch.len(),
{
    if batch.len() == 0 {
        Seq::empty()
    } else {
        let s = sorted_times(batch.drop_last(), since);
        if chosen(batch, since, batch.len() - 1) {
            insert_sorted(s, batch.last().time)
        } else {
            s
        }
    }
}

/// Whether the candle at position `i` is chosen after a table whose latest time is `since`.
pub fn is_chosen(batch: &Vec<CandleMeta>, since: Option<i64>, i: usize) -> (r: bool)
    requires
        i < batch@.len(),
    ensures
        r == chosen(batch@, since, i as int),
{
    let c = batch[i];
    if !c.complete {
        return false;
    }
    let newer = match since {
        Some(b) => c.time > b,
        None => true,
    };
    if !newer {
        return false;
    }
    let mut k: usize = 0;
    while k < i
        invariant
            i < batch@.len(),
            k <= i,
            c == batch@[i as int],
            forall|m: int| 0 <= m < k ==> !(#[trigger] batch@[m].complete && batch@[m].time == c.time),
        decreases i - k,
    {
        if batch[k].complete && batch[k].time == c.time {
            return false;
        }
        k = k + 1;
    }
    true
}

/// Choosing a position reads only the candles up to it.
pub proof fn lemma_chosen_prefix(batch: Seq<CandleMeta>, since: Option<i64>, n: int, i: int)
    requires
        0 <= i < n <= batch.len(),
    ensures
        chosen(batch.take(n), since, i) == chosen(batch, since, i),
{
    let p = batch.take(n);
    assert forall|k: int| 0 <= k <= i implies p[k] == batch[k] by {}
}

/// The candles of `batch` to store after a table whose latest time is `since`, as
/// positions in `batch`.
pub fn select_new(batch: &Vec<CandleMeta>, since: Option<i64>) -> (r: Vec<usize>)
    ensures
        r@ == selection(batch@, since),
{
    let mut out: Vec<usize> = Vec::new();
    let mut i: usize = 0;
    while i < batch.len()
        invariant
            i <= batch@.len(),
            out@ == selection(batch@.take(i as int), since),
        decreases batch@.len() - i,
    {
        proof {
            assert(batch@.take(i + 1).drop_last() =~= batch@.take(i as int));
            lemma_chosen_prefix(batch@, since, i + 1, i as int);
        }
        if is_chosen(batch, since, i) {
            out.push(i);
        }
        i = i + 1;
    }
    assert(batch@.take(batch@.len() as int) =~= batch@);
    out
}

/// Adds `t` to the increasing times `v` where it is missing, keeping them increasing.
pub fn insert_time(v: &mut Vec<i64>, t: i64)
    requires
        strictly_increasing(old(v)@),
    ensures
        final(v)@ == insert_sorted(old(v)@, t),
{
    let mut p: usize = 0;
    while p < v.len() && v[p] < t
        invariant
            p <= v@.len(),
            forall|k: int| 0 <= k < p ==> v@[k] < t,
        decreases v@.len() - p,
    {
        p = p + 1;
    }
    proof {
        lemma_insert_at(v@, t, p as int);
    }
    if p < v.len() && v[p] == t {
        return;
    }
    v.insert(p, t);
}

} // verus!

verus! {

/// Inserting at the first position not below `t` is `insert_sorted`.
proof fn lemma_insert_at(s: Seq<i64>, t: i64, p: int)
    requires
        strictly_increasing(s),
        0 <= p <= s.len(),
        forall|k: int| 0 <= k < p ==> s[k] < t,
        p < s.len() ==> s[p] >= t,
    ensures
        (p < s.len() && s[p] == t) ==> insert_sorted(s, t) == s,
        !(p < s.len() && s[p] == t) ==> insert_sorted(s, t) == s.insert(p, t),
    decreases s.len(),
{
    if s.len() > 0 && p > 0 {
        let r = s.drop_first();
        lemma_insert_at(r, t, p - 1);
        if !(p < s.len() && s[p] == t) {
            assert(seq![s[0]] + r.insert(p - 1, t) =~= s.insert(p, t));
        }
        assert(seq![s[0]] + r =~= s);
    } else if s.len() > 0 {
        if s[0] != t {
            assert(seq![t] + s =~= s.insert(0, t));
        }
    } else {
        assert(seq![t] =~= s.insert(0, t));
    }
}

/// `insert_sorted` keeps the times increasing, adds `t` and nothing else, and lengthens
/// the sequence by one exactly where `t` was missing.
pub proof fn lemma_insert_sorted(s: Seq<i64>, t: i64)
    requires
        strictly_increasing(s),
    ensures
        strictly_increasing(insert_sorted(s, t)),
        forall|x: i64| insert_sorted(s, t).contains(x) <==> (s.contains(x) || x == t),
        insert_sorted(s, t).len() == if s.contains(t) { s.len() } else { s.len() + 1 },
    decreases s.len(),
{
    if s.len() > 0 {
        let r = s.drop_first();
        lemma_insert_sorted(r, t);
        let q = insert_sorted(r, t);
        assert(seq![s[0]] + r =~= s);
        assert forall|x: i64| s.contains(x) <==> (x == s[0] || r.contains(x)) by {
            if s.contains(x) {
                let k = choose|k: int| 0 <= k < s.len() && s[k] == x;
                if k > 0 {
                    assert(r[k - 1] == x);
                }
            }
            if r.contains(x) {
                let k = choose|k: int| 0 <= k < r.len() && r[k] == x;
                assert(s[k + 1] == x);
            }
        }
        if t < s[0] {
            let w = seq![t] + s;
            assert forall|x: i64| w.contains(x) <==> (s.contains(x) || x == t) by {
                if w.contains(x) {
                    let k = choose|k: int| 0 <= k < w.len() && w[k] == x;
                    if k > 0 {
                        assert(s[k - 1] == x);
                    }
                }
                if s.contains(x) {
                    let k = choose|k: int| 0 <= k < s.len() && s[k] == x;
                    assert(w[k + 1] == x);
                }
                if x == t {
                    assert(w[0] == x);
                }
            }
            assert(insert_sorted(s, t) == w);
            assert(!s.contains(t)) by {
                if s.contains(t) {
                    let k = choose|k: int| 0 <= k < s.len() && s[k] == t;
                    assert(s[0] <= s[k]);
                }
            }
        } else if t == s[0] {
            assert(s.contains(t)) by {
                assert(s[0] == t);
            }
            assert(insert_sorted(s, t) == s);
        } else {
            let w = seq![s[0]] + q;
            assert forall|x: i64| w.contains(x) <==> (s.contains(x) || x == t) by {
                if w.contains(x) {
                    let k = choose|k: int| 0 <= k < w.len() && w[k] == x;
                    if k > 0 {
                        assert(q[k - 1] == x);
                    }
                }
                if q.contains(x) {
                    let k = choose|k: int| 0 <= k < q.len() && q[k] == x;
                    assert(w[k + 1] == x);
                }
                if x == s[0] {
                    assert(w[0] == x);
                }
            }
            assert forall|i: int, j: int| 0 <= i < j < w.len() implies w[i] < w[j] by {
                if i == 0 {
                    assert(q.contains(w[j])) by {
                        assert(q[j - 1] == w[j]);
                    }
                    if r.contains(w[j]) {
                        let k = choose|k: int| 0 <= k < r.len() && r[k] == w[j];
                        assert(s[k + 1] == w[j]);
                    }
                }
            }
            assert(s.contains(t) <==> r.contains(t));
            assert(insert_sorted(s, t) == w);
        }
    } else {
        assert forall|x: i64| insert_sorted(s, t).contains(x) <==> (s.contains(x) || x == t) by {
            if x == t {
                assert(insert_sorted(s, t)[0] == t);
            }
        }
    }
}

} // verus!

verus! {

/// The chosen times increase, and they are exactly the times of the complete candles
/// later than `since`, wherever those stand in the batch.
pub proof fn lemma_sorted_times(batch: Seq<CandleMeta>, since: Option<i64>)
    ensures
        strictly_increasing(sorted_times(batch, since)),
        forall|x: i64| sorted_times(batch, since).contains(x) <==> offered(batch, since, x),
    decreases batch.len(),
{
    if batch.len() > 0 {
        let p = batch.drop_last();
        let n = batch.len() - 1;
        let c = batch.last();
        lemma_sorted_times(p, since);
        let sp = sorted_times(p, since);
        assert forall|i: int| 0 <= i < p.len() implies p[i] == batch[i] by {}
        assert forall|x: i64| offered(p, since, x) implies offered(batch, since, x) by {
            let i = choose|i: int| 0 <= i < p.len() && #[trigger] p[i].complete && p[i].time == x
                && newer_than(since, x);
            assert(batch[i] == p[i]);
        }
        if chosen(batch, since, n) {
            lemma_insert_sorted(sp, c.time);
            assert forall|x: i64| offered(batch, since, x) implies offered(p, since, x) || x == c.time by {
                let i = choose|i: int| 0 <= i < batch.len() && #[trigger] batch[i].complete
                    && batch[i].time == x && newer_than(since, x);
                if i < n {
                    assert(p[i] == batch[i]);
                }
            }
            assert(batch[n].complete);
        } else {
            assert forall|x: i64| offered(batch, since, x) implies offered(p, since, x) by {
                let i = choose|i: int| 0 <= i < batch.len() && #[trigger] batch[i].complete
                    && batch[i].time == x && newer_than(since, x);
                if i < n {
                    assert(p[i] == batch[i]);
                } else {
                    let k = choose|k: int| 0 <= k < n && #[trigger] batch[k].complete && batch[k].time == batch[n].time;
                    assert(p[k] == batch[k]);
                }
            }
        }
    }
}

} // verus!

verus! {

/// The number of complete candles in `batch`.
pub open spec fn complete_count(batch: Seq<CandleMeta>) -> nat
    decreases batch.len(),
{
    if batch.len() == 0 {
        0
    } else {
        complete_count(batch.drop_last()) + if batch.last().complete {
            1nat
        } else {
            0nat
        }
    }
}

/// The number of candles of `batch` whose interval has not closed yet.
pub open spec fn incomplete_count(batch: Seq<CandleMeta>) -> nat
    decreases batch.len(),
{
    if batch.len() == 0 {
        0
    } else {
        incomplete_count(batch.drop_last()) + if batch.last().complete {
            0nat
        } else {
            1nat
        }
    }
}

/// How many candles of `batch` are complete.
pub fn count_complete(batch: &Vec<CandleMeta>) -> (r: usize)
    ensures
        r == complete_count(batch@),
{
    let mut n: usize = 0;
    let mut i: usize = 0;
    while i < batch.len()
        invariant
            i <= batch@.len(),
            n == complete_count(batch@.take(i as int)),
            n <= i,
        decreases batch@.len() - i,
    {
        assert(batch@.take(i + 1).drop_last() =~= batch@.take(i as int));
        if batch[i].complete {
            n = n + 1;
        }
        i = i + 1;
    }
    assert(batch@.take(batch@.len() as int) =~= batch@);
    n
}

/// A batch whose complete candles have distinct times, all later than `since`, gives one
/// new row for each of them: a batch of N candles of which K are incomplete gives exactly
/// N - K new rows, whatever the order of the batch.
pub proof fn lemma_complete_filter(batch: Seq<CandleMeta>, since: Option<i64>)
    requires
        forall|i: int, j: int|
            0 <= i < j < batch.len() && batch[i].complete && batch[j].complete ==> batch[i].time
                != batch[j].time,
        forall|i: int| 0 <= i < batch.len() && batch[i].complete ==> newer_than(since, batch[i].time),
    ensures
        sorted_times(batch, since).len() == complete_count(batch),
        complete_count(batch) + incomplete_count(batch) == batch.len(),
        sorted_times(batch, since).len() == batch.len() - incomplete_count(batch),
    decreases batch.len(),
{
    if batch.len() > 0 {
        let p = batch.drop_last();
        let n = batch.len() - 1;
        assert forall|i: int| 0 <= i < p.len() implies p[i] == batch[i] by {}
        lemma_complete_filter(p, since);
        lemma_sorted_times(p, since);
        let c = batch.last();
        if c.complete {
            let sp = sorted_times(p, since);
            assert(chosen(batch, since, n));
            lemma_insert_sorted(sp, c.time);
            assert(!sp.contains(c.time)) by {
                if sp.contains(c.time) {
                    assert(offered(p, since, c.time));
                    let i = choose|i: int| 0 <= i < p.len() && #[trigger] p[i].complete
                        && p[i].time == c.time && newer_than(since, c.time);
                    assert(batch[i] == p[i]);
                }
            }
        }
    }
}

} // verus!

verus! {

/// `selection` holds exactly the chosen positions: each complete candle later than
/// `since` whose time no earlier complete candle has is written once.
pub proof fn lemma_selection(batch: Seq<CandleMeta>, since: Option<i64>)
    requires
        batch.len() <= usize::MAX,
    ensures
        forall|j: int|
            0 <= j < selection(batch, since).len() ==> (#[trigger] selection(batch, since)[j] as int)
                < batch.len() && chosen(batch, since, selection(batch, since)[j] as int),
        forall|i: int|
            0 <= i < batch.len() && chosen(batch, since, i) ==> selection(batch, since).contains(
                i as usize,
            ),
    decreases batch.len(),
{
    if batch.len() > 0 {
        let p = batch.drop_last();
        let n = batch.len() - 1;
        lemma_selection(p, since);
        let sp = selection(p, since);
        let s = selection(batch, since);
        assert forall|i: int| 0 <= i < n implies chosen(p, since, i) == chosen(batch, since, i) by {
            assert(p =~= batch.take(n));
            lemma_chosen_prefix(batch, since, n, i);
        }
        assert forall|j: int| 0 <= j < sp.len() implies s[j] == sp[j] by {}
        assert forall|i: int| 0 <= i < batch.len() && chosen(batch, since, i) implies s.contains(
            i as usize,
        ) by {
            if i < n {
                assert(sp.contains(i as usize));
                let k = choose|k: int| 0 <= k < sp.len() && sp[k] == i as usize;
                assert(s[k] == i as usize);
            } else {
                assert(s[s.len() - 1] == i as usize);
            }
        }
    }
}

} // verus!
