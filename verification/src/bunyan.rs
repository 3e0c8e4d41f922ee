//! Checks on Bunyan-format log records.
//!
//! A record's time is held as seconds since the epoch.  The checks say
//! whether every record carries the expected field values, and whether a
//! run of records is chronologically ordered within optional bounds.

use vstd::prelude::*;

use crate::util::str_eq;

verus! {

/// A Bunyan log record.  This form does not support any non-standard
/// fields.
#[derive(Debug, Clone, PartialEq, Eq)]
pub struct BunyanLogRecord {
    /// seconds since the epoch
    pub time: i64,
    pub name: String,
    pub hostname: String,
    pub pid: u32,
    pub msg: String,
    pub v: usize,
}

/// Analogous to a [`BunyanLogRecord`], but where all fields are optional.
#[derive(Debug, Clone, PartialEq, Eq)]
pub struct BunyanLogRecordSpec {
    pub name: Option<String>,
    pub hostname: Option<String>,
    pub pid: Option<u32>,
    pub v: Option<usize>,
}

/// Whether a record carries every value the expectation pins down.
pub open spec fn record_matches(rec: BunyanLogRecord, expected: BunyanLogRecordSpec) -> bool {
    &&& (expected.name matches Some(n) ==> rec.name@ == n@)
    &&& (expected.hostname matches Some(h) ==> rec.hostname@ == h@)
    &&& (expected.pid matches Some(p) ==> rec.pid == p)
    &&& (expected.v matches Some(v) ==> rec.v == v)
}

/// Whether the key fields of every record match the corresponding values
/// in `expected`.  Fields that are `None` in `expected` are not checked.
pub fn verify_bunyan_records(records: &Vec<BunyanLogRecord>, expected: &BunyanLogRecordSpec) -> (r:
    bool)
    ensures
        r == forall|i: int|
            0 <= i < records@.len() ==> record_matches(#[trigger] records@[i], *expected),
{
    let mut i: usize = 0;
    while i < records.len()
        invariant
            i <= records@.len(),
            forall|j: int| 0 <= j < i ==> record_matches(#[trigger] records@[j], *expected),
        decreases records@.len() - i,
    {
        let rec = &records[i];
        let name_ok = match &expected.name {
            Some(n) => str_eq(rec.name.as_str(), n.as_str()),
            None => true,
        };
        let hostname_ok = match &expected.hostname {
            Some(h) => str_eq(rec.hostname.as_str(), h.as_str()),
            None => true,
        };
        let pid_ok = match &expected.pid {
            Some(p) => rec.pid == *p,
            None => true,
        };
        let v_ok = match &expected.v {
            Some(v) => rec.v == *v,
            None => true,
        };
        if !(name_ok && hostname_ok && pid_ok && v_ok) {
            proof {
                assert(!record_matches(records@[i as int], *expected));
            }
            return false;
        }
        i = i + 1;
    }
    true
}

/// Whether the records run in chronological order, after
/// `maybe_time_before` and before `maybe_time_after` where those bounds
/// are given.
pub open spec fn records_sequential(
    times: Seq<i64>,
    before: Option<i64>,
    after: Option<i64>,
) -> bool {
    &&& (times.len() > 0 ==> (before matches Some(b) ==> b <= times[0]))
    &&& forall|i: int| 0 <= i < times.len() - 1 ==> #[trigger] times[i] <= times[i + 1]
    &&& ({
        let lastv = if times.len() > 0 {
            Some(times.last())
        } else {
            before
        };
        match (lastv, after) {
            (Some(l), Some(a)) => l <= a,
            _ => true,
        }
    })
}

/// The times of a run of records.
pub open spec fn record_times(records: Seq<BunyanLogRecord>) -> Seq<i64> {
    records.map_values(|r: BunyanLogRecord| r.time)
}

/// Whether the records are chronologically sequential, and within the
/// optional bounds `maybe_time_before` and `maybe_time_after`.
pub fn verify_bunyan_records_sequential(
    records: &Vec<BunyanLogRecord>,
    maybe_time_before: Option<i64>,
    maybe_time_after: Option<i64>,
) -> (r: bool)
    ensures
        r == records_sequential(record_times(records@), maybe_time_before, maybe_time_after),
{
    let ghost times = record_times(records@);
    let mut prev: Option<i64> = maybe_time_before;
    let mut i: usize = 0;
    while i < records.len()
        invariant
            i <= records@.len(),
            times == record_times(records@),
            times.len() == records@.len(),
            prev == if i > 0 {
                Some(times[i - 1])
            } else {
                maybe_time_before
            },
            i > 0 ==> (maybe_time_before matches Some(b) ==> b <= times[0]),
            forall|j: int| 0 <= j < i - 1 ==> #[trigger] times[j] <= times[j + 1],
        decreases records@.len() - i,
    {
        let t = records[i].time;
        match prev {
            Some(p) => {
                if p > t {
                    proof {
                        if i == 0 {
                        } else {
                            assert(times[i - 1] > times[i as int]);
                        }
                    }
                    return false;
                }
            },
            None => {},
        }
        prev = Some(t);
        i = i + 1;
    }
    match (prev, maybe_time_after) {
        (Some(l), Some(a)) => {
            if l > a {
                return false;
            }
        },
        _ => {},
    }
    true
}

} // verus!
