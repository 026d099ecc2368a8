use vstd::prelude::*;

use crate::granularity::Granularity;
use crate::sync::SyncError;
use crate::text::{lower_of, lowercase, push_char};

verus! {

/// An ASCII letter.
pub open spec fn ident_letter(c: char) -> bool {
    ('a' <= c && c <= 'z') || ('A' <= c && c <= 'Z')
}

/// An ASCII letter, an ASCII digit or an underscore.
pub open spec fn ident_char(c: char) -> bool {
    ident_letter(c) || ('0' <= c && c <= '9') || c == '_'
}

/// A bare SQL identifier: a letter, then letters, digits and underscores.
pub open spec fn valid_ident(s: Seq<char>) -> bool {
    s.len() > 0 && ident_letter(s[0]) && forall|i: int| 0 <= i < s.len() ==> ident_char(#[trigger] s[i])
}

/// The table name of an instrument, given its lowercased identifier.
pub open spec fn name_of(lowered: Seq<char>, g: Granularity) -> Seq<char> {
    lowered.push('_').push(g.spec_code())
}

/// The statement that creates table `t` where it does not exist.
pub open spec fn create_text(t: Seq<char>) -> Seq<char> {
    "CREATE TABLE IF NOT EXISTS "@ + t
        + " (timestamp INTEGER, open REAL, high REAL, low REAL, close REAL, volume REAL)"@
}

/// The query for the latest time stored in table `t`.
pub open spec fn latest_text(t: Seq<char>) -> Seq<char> {
    "SELECT timestamp FROM "@ + t + " ORDER BY timestamp DESC LIMIT 1"@
}

/// The statement that stores one row in table `t`.
pub open spec fn insert_text(t: Seq<char>) -> Seq<char> {
    "INSERT INTO "@ + t
        + " (timestamp, open, high, low, close, volume) VALUES (?1, ?2, ?3, ?4, ?5, ?6)"@
}

/// The statement that deletes all rows of table `t` but the most recent `?1`.
pub open spec fn trim_text(t: Seq<char>) -> Seq<char> {
    "DELETE FROM "@ + t + " WHERE rowid IN (SELECT rowid FROM "@ + t
        + " ORDER BY timestamp DESC LIMIT -1 OFFSET ?1)"@
}

/// The name of the table of one instrument and granularity, checked to be a bare SQL
/// identifier before any statement is built on it.
pub struct TableName {
    name: String,
}

impl View for TableName {
    type V = Seq<char>;

    closed spec fn view(&self) -> Seq<char> {
        self.name@
    }
}

/// Whether every character of `s` may stand in a bare SQL identifier, and the first is a
/// letter.
pub fn is_valid_ident(s: &str) -> (r: bool)
    ensures
        r == valid_ident(s@),
{
    let n = s.unicode_len();
    if n == 0 {
        return false;
    }
    let first = s.get_char(0);
    if !(('a' <= first && first <= 'z') || ('A' <= first && first <= 'Z')) {
        return false;
    }
    let mut i: usize = 0;
    while i < n
        invariant
            n == s@.len(),
            i <= n,
            forall|k: int| 0 <= k < i ==> ident_char(#[trigger] s@[k]),
        decreases n - i,
    {
        let c = s.get_char(i);
        if !(('a' <= c && c <= 'z') || ('A' <= c && c <= 'Z') || ('0' <= c && c <= '9') || c
            == '_') {
            assert(!ident_char(s@[i as int]));
            return false;
        }
        i = i + 1;
    }
    true
}

/// The table name of an instrument whose identifier, lowercased, is `lowered`; an
/// error where `lowered` is no bare SQL identifier.
pub fn table_name_for(lowered: &str, g: Granularity) -> (r: Result<TableName, SyncError>)
    ensures
        valid_ident(lowered@) <==> r is Ok,
        r matches Ok(t) ==> t@ == name_of(lowered@, g) && t.wf(),
        r matches Err(e) ==> e == SyncError::InvalidName,
{
    if !is_valid_ident(lowered) {
        return Err(SyncError::InvalidName);
    }
    let mut name = String::from_str(lowered);
    push_char(&mut name, '_');
    push_char(&mut name, g.code());
    let t = TableName { name };
    assert(t.wf()) by {
        assert forall|i: int| 0 <= i < t@.len() implies ident_char(#[trigger] t@[i]) by {
            if i < lowered@.len() {
                assert(t@[i] == lowered@[i]);
            }
        }
    }
    Ok(t)
}

/// The table name of an instrument and granularity: the lowercased identifier, an
/// underscore, and the granularity's code.
pub fn table_name(instrument: &str, g: Granularity) -> (r: Result<TableName, SyncError>)
    ensures
        valid_ident(lower_of(instrument@)) <==> r is Ok,
        r matches Ok(t) ==> t@ == name_of(lower_of(instrument@), g) && t.wf(),
        r matches Err(e) ==> e == SyncError::InvalidName,
{
    let lowered = lowercase(instrument);
    table_name_for(lowered.as_str(), g)
}

impl TableName {
    /// The name is a bare SQL identifier.
    pub open spec fn wf(&self) -> bool {
        valid_ident(self@)
    }

    /// The name.
    pub fn as_str(&self) -> (r: &str)
        ensures
            r@ == self@,
    {
        self.name.as_str()
    }

    /// The statement that creates the table where it does not exist.
    pub fn create_sql(&self) -> (r: String)
        ensures
            r@ == create_text(self@),
    {
        let mut s = String::from_str("CREATE TABLE IF NOT EXISTS ");
        s.append(self.name.as_str());
        s.append(" (timestamp INTEGER, open REAL, high REAL, low REAL, close REAL, volume REAL)");
        s
    }

    /// The query for the latest stored time.
    pub fn latest_sql(&self) -> (r: String)
        ensures
            r@ == latest_text(self@),
    {
        let mut s = String::from_str("SELECT timestamp FROM ");
        s.append(self.name.as_str());
        s.append(" ORDER BY timestamp DESC LIMIT 1");
        s
    }

    /// The statement that stores one row; its six parameters are the time and the open,
    /// high, low, close and volume.
    pub fn insert_sql(&self) -> (r: String)
        ensures
            r@ == insert_text(self@),
    {
        let mut s = String::from_str("INSERT INTO ");
        s.append(self.name.as_str());
        s.append(" (timestamp, open, high, low, close, volume) VALUES (?1, ?2, ?3, ?4, ?5, ?6)");
        s
    }

    /// The statement that deletes all rows but the most recent; its parameter is how
    /// many to keep.
    pub fn trim_sql(&self) -> (r: String)
        ensures
            r@ == trim_text(self@),
    {
        let mut s = String::from_str("DELETE FROM ");
        s.append(self.name.as_str());
        s.append(" WHERE rowid IN (SELECT rowid FROM ");
        s.append(self.name.as_str());
        s.append(" ORDER BY timestamp DESC LIMIT -1 OFFSET ?1)");
        s
    }
}

} // verus!
