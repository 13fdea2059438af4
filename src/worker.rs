use vstd::prelude::*;

use crate::error::ChumError;

verus! {

/// The kind of a completed request; the key of every statistics bucket.
#[derive(Debug, Clone, Copy, PartialEq, Eq, Hash, Structural)]
pub enum Operation {
    Read,
    Write,
    Error,
}

/// The operation named by a distribution token: `r` reads, `w` writes.
pub open spec fn operation_of(s: Seq<char>) -> Option<Operation> {
    if s == seq!['r'] {
        Some(Operation::Read)
    } else if s == seq!['w'] {
        Some(Operation::Write)
    } else {
        None
    }
}

impl Operation {
    /// Reads an operation from its token (`r` or `w`).
    pub fn parse(s: &str) -> (r: Result<Operation, ChumError>)
        ensures
            match operation_of(s@) {
                Some(op) => r == Ok::<Operation, ChumError>(op),
                None => r is Err && r->Err_0@ == "invalid operation requested"@,
            },
    {
        let n = s.unicode_len();
        if n == 1 {
            let c = s.get_char(0);
            if c == 'r' {
                assert(s@ =~= seq!['r']);
                return Ok(Operation::Read);
            } else if c == 'w' {
                assert(s@ =~= seq!['w']);
                return Ok(Operation::Write);
            }
        }
        assert(s@ != seq!['r'] && s@ != seq!['w']) by {
            if n == 1 {
                assert(s@[0] == s@[0]);
            }
        }
        Err(ChumError::new("invalid operation requested"))
    }

    /// The name of the operation as reports print it.
    pub fn name(&self) -> (r: String)
        ensures
            *self == Operation::Read ==> r@ == "read"@,
            *self == Operation::Write ==> r@ == "write"@,
            *self == Operation::Error ==> r@ == "error"@,
    {
        match self {
            Operation::Read => "read".to_owned(),
            Operation::Write => "write".to_owned(),
            Operation::Error => "error".to_owned(),
        }
    }
}

impl std::str::FromStr for Operation {
    type Err = ChumError;

    fn from_str(s: &str) -> (r: Result<Operation, ChumError>)
        ensures
            match operation_of(s@) {
                Some(op) => r == Ok::<Operation, ChumError>(op),
                None => r is Err && r->Err_0@ == "invalid operation requested"@,
            },
    {
        Operation::parse(s)
    }
}

/// One measurement: the thread that made the request, its operation, the
/// payload size in bytes, time to first byte and round-trip time.
#[derive(Debug, Clone, Copy, PartialEq, Eq, Structural)]
pub struct WorkerInfo {
    pub id: u64,
    pub op: Operation,
    pub size: u64,
    pub ttfb: u64,
    pub rtt: u64,
}

impl WorkerInfo {
    /// The zero-size record that stands for a failed request of thread `id`.
    pub fn error_record(id: u64) -> (r: WorkerInfo)
        ensures
            r == (WorkerInfo { id, op: Operation::Error, size: 0, ttfb: 0, rtt: 0 }),
    {
        WorkerInfo { id, op: Operation::Error, size: 0, ttfb: 0, rtt: 0 }
    }
}

/// `a + b`, held at `u64::MAX`.
pub open spec fn sat_add(a: u64, b: u64) -> u64 {
    if a + b > u64::MAX {
        u64::MAX
    } else {
        (a + b) as u64
    }
}

/// Running totals of one bucket: completed operations, bytes, and the sums of
/// time to first byte and of round-trip time. Each total stops at `u64::MAX`.
#[derive(Debug, Clone, Copy, PartialEq, Eq, Structural)]
pub struct WorkerStat {
    pub objs: u64,
    pub data: u64,
    pub ttfb: u64,
    pub rtt: u64,
}

/// The bucket `s` after folding in the measurement `wi`.
pub open spec fn folded(s: WorkerStat, wi: WorkerInfo) -> WorkerStat {
    WorkerStat {
        objs: sat_add(s.objs, 1),
        data: sat_add(s.data, wi.size),
        ttfb: sat_add(s.ttfb, wi.ttfb),
        rtt: sat_add(s.rtt, wi.rtt),
    }
}

pub open spec fn zero_stat() -> WorkerStat {
    WorkerStat { objs: 0, data: 0, ttfb: 0, rtt: 0 }
}

impl WorkerStat {
    pub fn new() -> (r: WorkerStat)
        ensures
            r == zero_stat(),
    {
        WorkerStat { objs: 0, data: 0, ttfb: 0, rtt: 0 }
    }

    /// Folds one measurement into the totals.
    pub fn add_result(&mut self, wi: &WorkerInfo)
        ensures
            *final(self) == folded(*old(self), *wi),
    {
        self.objs = self.objs.saturating_add(1);
        self.data = self.data.saturating_add(wi.size);
        self.ttfb = self.ttfb.saturating_add(wi.ttfb);
        self.rtt = self.rtt.saturating_add(wi.rtt);
    }

    /// Resets every total to zero.
    pub fn clear(&mut self)
        ensures
            *final(self) == zero_stat(),
    {
        self.objs = 0;
        self.data = 0;
        self.ttfb = 0;
        self.rtt = 0;
    }
}

} // verus!
