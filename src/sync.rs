use vstd::prelude::*;

use crate::granularity::Granularity;

verus! {

/// Why the sync of one instrument and granularity, or of the whole run, failed.
#[derive(Clone, Copy, Debug, PartialEq, Eq, Structural)]
pub enum SyncError {
    /// The credentials are missing.
    Config,
    /// The broker's API could not be reached, refused the request, or sent a body that
    /// could not be read.
    Upstream,
    /// A candle held a field that is not a number or a timestamp.
    DataFormat,
    /// The table could not be created, read or written.
    Storage,
    /// The instrument's identifier gives no bare SQL identifier.
    InvalidName,
}

/// The most candles asked for in one request.
pub const PAGE_SIZE: usize = 500;

/// One request for candles: at most `count` candles of `instrument` at `granularity`,
/// only those after `since` where it is given.
#[derive(Debug)]
pub struct FetchRequest {
    pub instrument: String,
    pub granularity: Granularity,
    pub count: usize,
    pub since: Option<i64>,
}

/// The request that resumes a table whose resume point is `since`: one page, starting
/// after `since`, or from the beginning where the table is empty.
pub fn fetch_request(instrument: &str, granularity: Granularity, since: Option<i64>) -> (r:
    FetchRequest)
    ensures
        r.instrument@ == instrument@,
        r.granularity == granularity,
        r.count == PAGE_SIZE,
        r.since == since,
{
    FetchRequest { instrument: String::from_str(instrument), granularity, count: PAGE_SIZE, since }
}

/// What became of one table in a run: the number of candles fetched and stored, or why
/// it failed.
#[derive(Debug)]
pub struct PairOutcome {
    pub table: String,
    pub result: Result<(usize, usize), SyncError>,
}

/// The outcomes of a run, one per table, in the order they were synced.
pub struct RunSummary {
    outcomes: Vec<PairOutcome>,
}

impl View for RunSummary {
    type V = Seq<PairOutcome>;

    closed spec fn view(&self) -> Seq<PairOutcome> {
        self.outcomes@
    }
}

/// The number of failed outcomes in `s`.
pub open spec fn failures(s: Seq<PairOutcome>) -> nat
    decreases s.len(),
{
    if s.len() == 0 {
        0
    } else {
        failures(s.drop_last()) + if s.last().result is Err {
            1nat
        } else {
            0nat
        }
    }
}

impl RunSummary {
    /// A summary of no tables.
    pub fn new() -> (r: RunSummary)
        ensures
            r@ == Seq::<PairOutcome>::empty(),
    {
        RunSummary { outcomes: Vec::new() }
    }

    /// Adds the outcome of one table.
    pub fn record(&mut self, outcome: PairOutcome)
        ensures
            final(self)@ == old(self)@.push(outcome),
    {
        self.outcomes.push(outcome);
    }

    /// The outcomes recorded, in order.
    pub fn outcomes(&self) -> (r: &Vec<PairOutcome>)
        ensures
            r@ == self@,
    {
        &self.outcomes
    }

    /// How many tables failed.
    pub fn failure_count(&self) -> (r: usize)
        ensures
            r == failures(self@),
    {
        let mut n: usize = 0;
        let mut i: usize = 0;
        while i < self.outcomes.len()
            invariant
                i <= self@.len(),
                n == failures(self@.take(i as int)),
                n <= i,
            decreases self@.len() - i,
        {
            assert(self@.take(i + 1).drop_last() =~= self@.take(i as int));
            if self.outcomes[i].result.is_err() {
                n = n + 1;
            }
            i = i + 1;
        }
        assert(self@.take(i as int) =~= self@);
        n
    }

    /// Whether every table synced.
    pub fn all_synced(&self) -> (r: bool)
        ensures
            r == (failures(self@) == 0),
    {
        self.failure_count() == 0
    }
}

} // verus!
