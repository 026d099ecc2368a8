use vstd::prelude::*;

use crate::candles::{select_new, selection, CandleMeta};
use crate::granularity::Granularity;
use crate::naming::{
    create_text, insert_text, latest_text, name_of, table_name, trim_text, valid_ident, TableName,
};
use crate::sync::{fetch_request, FetchRequest, SyncError, PAGE_SIZE};
use crate::table::MAX_CANDLES;
use crate::text::lower_of;

verus! {

/// Where the sync of one instrument and granularity stands.
#[derive(Clone, Copy, Debug, PartialEq, Eq, Structural)]
pub enum Phase {
    /// Waiting for the table to be created.
    Ensure,
    /// Waiting for the table's latest time.
    Resume,
    /// Waiting for one page of candles.
    Fetch,
    /// Waiting for the chosen candles to be stored and the table trimmed.
    Store,
    /// Done; the outcome has been reported.
    Finished,
}

/// What the caller reports after performing an action.
#[derive(Debug)]
pub enum Event {
    /// The statement ran.
    Done,
    /// The table's latest time; a failed lookup is reported as `None`.
    Latest(Option<i64>),
    /// The candles of the page, in upstream order.
    Fetched(Vec<CandleMeta>),
    /// The action failed.
    Failed(SyncError),
}

/// What the caller is to do next.
#[derive(Debug)]
pub enum Action {
    /// Run this statement, which takes no parameters.
    Execute(String),
    /// Run this query for the latest time.
    QueryLatest(String),
    /// Fetch one page of candles.
    Request(FetchRequest),
    /// In one transaction, store the candles of the fetched page at these positions with
    /// `insert`, then run `trim` with `keep` as its parameter.
    Write { rows: Vec<usize>, insert: String, trim: String, keep: usize },
    /// The sync of this pair is over: candles fetched and stored, or why it failed.
    Report(Result<(usize, usize), SyncError>),
}

/// Whether `e` answers the action issued in phase `p`.
pub open spec fn fits(p: Phase, e: Event) -> bool {
    match e {
        Event::Failed(_) => p != Phase::Finished,
        Event::Done => p == Phase::Ensure || p == Phase::Store,
        Event::Latest(_) => p == Phase::Resume,
        Event::Fetched(_) => p == Phase::Fetch,
    }
}

/// The sync of one instrument and granularity: create the table, read its latest time,
/// fetch one page after it, store the new complete candles with retention, report.
pub struct PairSync {
    instrument: String,
    granularity: Granularity,
    table: Option<TableName>,
    phase: Phase,
    since: Option<i64>,
    fetched: usize,
    stored: usize,
}

impl PairSync {
    pub closed spec fn spec_phase(&self) -> Phase {
        self.phase
    }

    pub closed spec fn spec_instrument(&self) -> Seq<char> {
        self.instrument@
    }

    pub closed spec fn spec_granularity(&self) -> Granularity {
        self.granularity
    }

    /// The name of the pair's table.
    pub closed spec fn spec_table(&self) -> Seq<char> {
        match self.table {
            Some(t) => t@,
            None => Seq::empty(),
        }
    }

    /// The latest time the table held when it was read.
    pub closed spec fn spec_since(&self) -> Option<i64> {
        self.since
    }

    /// How many candles were fetched and chosen for storing.
    pub closed spec fn spec_counts(&self) -> (usize, usize) {
        (self.fetched, self.stored)
    }

    /// Until the pair is finished it has a valid table name, that of its instrument.
    pub closed spec fn wf(&self) -> bool {
        self.phase != Phase::Finished ==> (self.table is Some && self.table.unwrap().wf()
            && self.table.unwrap()@ == name_of(lower_of(self.instrument@), self.granularity))
    }

    /// Begins the sync of `instrument` at `granularity`: the first action creates its
    /// table, or reports `InvalidName` where the instrument gives no valid table name.
    pub fn start(instrument: &str, granularity: Granularity) -> (r: (PairSync, Action))
        ensures
            r.0.wf(),
            r.0.spec_instrument() == instrument@,
            r.0.spec_granularity() == granularity,
            r.0.spec_named() == valid_ident(lower_of(instrument@)),
            valid_ident(lower_of(instrument@)) ==> {
                &&& r.0.spec_phase() == Phase::Ensure
                &&& r.0.spec_table() == name_of(lower_of(instrument@), granularity)
                &&& r.1 matches Action::Execute(s) && s@ == create_text(r.0.spec_table())
            },
            !valid_ident(lower_of(instrument@)) ==> {
                &&& r.0.spec_phase() == Phase::Finished
                &&& r.1 matches Action::Report(Err(e)) && e == SyncError::InvalidName
            },
    {
        match table_name(instrument, granularity) {
            Ok(t) => {
                let sql = t.create_sql();
                let p = PairSync {
                    instrument: String::from_str(instrument),
                    granularity,
                    table: Some(t),
                    phase: Phase::Ensure,
                    since: None,
                    fetched: 0,
                    stored: 0,
                };
                (p, Action::Execute(sql))
            },
            Err(e) => {
                let p = PairSync {
                    instrument: String::from_str(instrument),
                    granularity,
                    table: None,
                    phase: Phase::Finished,
                    since: None,
                    fetched: 0,
                    stored: 0,
                };
                (p, Action::Report(Err(e)))
            },
        }
    }

    /// Whether the instrument gave a valid table name.
    pub closed spec fn spec_named(&self) -> bool {
        self.table is Some
    }

    /// The table name, or the instrument's identifier where it gave no valid name.
    pub fn label(&self) -> (r: String)
        ensures
            self.spec_named() ==> r@ == self.spec_table(),
            !self.spec_named() ==> r@ == self.spec_instrument(),
    {
        match &self.table {
            Some(t) => String::from_str(t.as_str()),
            None => self.instrument.clone(),
        }
    }

    /// The phase the sync is in.
    pub fn phase(&self) -> (r: Phase)
        ensures
            r == self.spec_phase(),
    {
        self.phase
    }

    /// Whether `e` answers the last action issued.
    pub fn expects(&self, e: &Event) -> (r: bool)
        ensures
            r == fits(self.spec_phase(), *e),
    {
        match e {
            Event::Failed(_) => self.phase != Phase::Finished,
            Event::Done => self.phase == Phase::Ensure || self.phase == Phase::Store,
            Event::Latest(_) => self.phase == Phase::Resume,
            Event::Fetched(_) => self.phase == Phase::Fetch,
        }
    }

    /// Takes the outcome of the last action and returns the next one. A failure ends the
    /// pair with that error; otherwise the steps follow in order, the request resumes
    /// after the latest time read, and the rows to write are those `select_new` keeps.
    pub fn step(&mut self, e: Event) -> (a: Action)
        requires
            old(self).wf(),
            fits(old(self).spec_phase(), e),
        ensures
            final(self).wf(),
            final(self).spec_instrument() == old(self).spec_instrument(),
            final(self).spec_granularity() == old(self).spec_granularity(),
            final(self).spec_table() == old(self).spec_table(),
            final(self).spec_named() == old(self).spec_named(),
            e is Failed ==> {
                &&& final(self).spec_phase() == Phase::Finished
                &&& a matches Action::Report(Err(x)) && x == e->Failed_0
            },
            (old(self).spec_phase() == Phase::Ensure && e is Done) ==> {
                &&& final(self).spec_phase() == Phase::Resume
                &&& a matches Action::QueryLatest(q) && q@ == latest_text(old(self).spec_table())
            },
            (old(self).spec_phase() == Phase::Resume && e is Latest) ==> {
                &&& final(self).spec_phase() == Phase::Fetch
                &&& final(self).spec_since() == e->Latest_0
                &&& a matches Action::Request(req) && req.instrument@ == old(self).spec_instrument()
                    && req.granularity == old(self).spec_granularity() && req.count == PAGE_SIZE
                    && req.since == e->Latest_0
            },
            (old(self).spec_phase() == Phase::Fetch && e is Fetched) ==> {
                &&& final(self).spec_phase() == Phase::Store
                &&& final(self).spec_since() == old(self).spec_since()
                &&& final(self).spec_counts() == (
                    e->Fetched_0@.len() as usize,
                    selection(e->Fetched_0@, old(self).spec_since()).len() as usize,
                )
                &&& a matches Action::Write { rows, insert, trim, keep } && rows@ == selection(
                    e->Fetched_0@,
                    old(self).spec_since(),
                ) && insert@ == insert_text(old(self).spec_table()) && trim@ == trim_text(
                    old(self).spec_table(),
                ) && keep == MAX_CANDLES
            },
            (old(self).spec_phase() == Phase::Store && e is Done) ==> {
                &&& final(self).spec_phase() == Phase::Finished
                &&& a matches Action::Report(Ok(c)) && c == old(self).spec_counts()
            },
    {
        match e {
            Event::Failed(err) => {
                self.phase = Phase::Finished;
                Action::Report(Err(err))
            },
            Event::Done => {
                if self.phase == Phase::Ensure {
                    self.phase = Phase::Resume;
                    match &self.table {
                        Some(t) => Action::QueryLatest(t.latest_sql()),
                        None => Action::Report(Err(SyncError::InvalidName)),
                    }
                } else {
                    self.phase = Phase::Finished;
                    Action::Report(Ok((self.fetched, self.stored)))
                }
            },
            Event::Latest(since) => {
                self.since = since;
                self.phase = Phase::Fetch;
                Action::Request(fetch_request(self.instrument.as_str(), self.granularity, since))
            },
            Event::Fetched(batch) => {
                let rows = select_new(&batch, self.since);
                self.fetched = batch.len();
                self.stored = rows.len();
                self.phase = Phase::Store;
                match &self.table {
                    Some(t) => Action::Write {
                        rows,
                        insert: t.insert_sql(),
                        trim: t.trim_sql(),
                        keep: MAX_CANDLES,
                    },
                    None => Action::Report(Err(SyncError::InvalidName)),
                }
            },
        }
    }
}

} // verus!
