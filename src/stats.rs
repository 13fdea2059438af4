use vstd::prelude::*;

use crate::distribution::{lemma_split_nonempty, split_on, string_views};
use crate::error::ChumError;
use crate::text::{decimal, decimal_string, is_digit, lemma_decimal_digits};
use crate::worker::{folded, sat_add, zero_stat, Operation, WorkerInfo, WorkerStat};

verus! {

/// How reports are rendered.
#[derive(Debug, Clone, Copy, PartialEq, Eq, Structural)]
pub enum OutputFormat {
    /// Prose, for people watching the console.
    Human,
    /// Prose, with one line per thread.
    HumanVerbose,
    /// One space-separated line per tick, for plotting tools.
    Tabular,
}

impl OutputFormat {
    /// Reads a format from its flag: `h`, `v` or `t`.
    pub fn parse(s: &str) -> (r: Result<OutputFormat, ChumError>)
        ensures
            s@ == seq!['h'] ==> r == Ok::<OutputFormat, ChumError>(OutputFormat::Human),
            s@ == seq!['v'] ==> r == Ok::<OutputFormat, ChumError>(OutputFormat::HumanVerbose),
            s@ == seq!['t'] ==> r == Ok::<OutputFormat, ChumError>(OutputFormat::Tabular),
            s@ != seq!['h'] && s@ != seq!['v'] && s@ != seq!['t'] ==> r is Err && r->Err_0@
                == "invalid operation requested"@,
    {
        if s.unicode_len() == 1 {
            let c = s.get_char(0);
            if c == 'h' {
                assert(s@ =~= seq!['h']);
                return Ok(OutputFormat::Human);
            } else if c == 'v' {
                assert(s@ =~= seq!['v']);
                return Ok(OutputFormat::HumanVerbose);
            } else if c == 't' {
                assert(s@ =~= seq!['t']);
                return Ok(OutputFormat::Tabular);
            }
            assert(s@[0] == c);
        }
        Err(ChumError::new("invalid operation requested"))
    }
}

impl std::str::FromStr for OutputFormat {
    type Err = ChumError;

    fn from_str(s: &str) -> (r: Result<OutputFormat, ChumError>)
        ensures
            s@ == seq!['h'] ==> r == Ok::<OutputFormat, ChumError>(OutputFormat::Human),
            s@ == seq!['v'] ==> r == Ok::<OutputFormat, ChumError>(OutputFormat::HumanVerbose),
            s@ == seq!['t'] ==> r == Ok::<OutputFormat, ChumError>(OutputFormat::Tabular),
            s@ != seq!['h'] && s@ != seq!['v'] && s@ != seq!['t'] ==> r is Err && r->Err_0@
                == "invalid operation requested"@,
    {
        OutputFormat::parse(s)
    }
}

/// The condition that ends a run: a number of bytes written, or a percentage
/// of the file system in use (honoured by the `fs` protocol only).
#[derive(Debug, Clone, Copy, PartialEq, Eq, Structural)]
pub enum DataCap {
    LogicalData(u64),
    Percentage(u32),
}

/// What the collector does at the end of a tick.
#[derive(Debug, Clone, Copy, PartialEq, Eq, Structural)]
pub enum CapAction {
    /// Keep running.
    Continue,
    /// The cap is met: the run ends.
    Stop,
    /// Query the file system's usage and call `percent_cap_reached` with this cap.
    QueryUsage(u32),
}

/// Whether `protocol` names the file-system backend.
pub open spec fn is_fs(protocol: Seq<char>) -> bool {
    protocol == seq!['f', 's']
}

/// Decides what the cap asks for, given the bytes written so far.
pub fn cap_action(cap: Option<DataCap>, written: u64, protocol: &str) -> (r: CapAction)
    ensures
        r == match cap {
            None => CapAction::Continue,
            Some(DataCap::LogicalData(c)) => if written >= c {
                CapAction::Stop
            } else {
                CapAction::Continue
            },
            Some(DataCap::Percentage(p)) => if is_fs(protocol@) {
                CapAction::QueryUsage(p)
            } else {
                CapAction::Continue
            },
        },
{
    match cap {
        None => CapAction::Continue,
        Some(DataCap::LogicalData(c)) => {
            if written >= c {
                CapAction::Stop
            } else {
                CapAction::Continue
            }
        },
        Some(DataCap::Percentage(p)) => {
            let fs = protocol.unicode_len() == 2 && protocol.get_char(0) == 'f' && protocol.get_char(
                1,
            ) == 's';
            assert(fs ==> protocol@ =~= seq!['f', 's']);
            if fs {
                CapAction::QueryUsage(p)
            } else {
                CapAction::Continue
            }
        },
    }
}

/// The percentage of a file system in use: `(total - available) * 100 / total`
/// (zero for an empty file system, and no space counted as used when more is
/// available than there is in total).
pub open spec fn percent_used(total: u64, available: u64) -> nat {
    if total == 0 {
        0
    } else if available >= total {
        0
    } else {
        (((total - available) as nat) * 100) / (total as nat)
    }
}

/// Whether a percentage cap is met by the usage that a query reported.
pub fn percent_cap_reached(total: u64, available: u64, cap: u32) -> (r: bool)
    ensures
        r == (percent_used(total, available) >= cap),
{
    if total == 0 || available >= total {
        return 0 >= cap;
    }
    let used: u128 = (total - available) as u128;
    let perc: u128 = used * 100 / (total as u128);
    perc >= cap as u128
}

/// Totals for each operation.
#[derive(Debug, Clone, Copy, PartialEq, Eq, Structural)]
pub struct OpTotals {
    pub read: WorkerStat,
    pub write: WorkerStat,
    pub error: WorkerStat,
}

impl OpTotals {
    pub open spec fn of(self, op: Operation) -> WorkerStat {
        match op {
            Operation::Read => self.read,
            Operation::Write => self.write,
            Operation::Error => self.error,
        }
    }

    pub open spec fn is_zero(self) -> bool {
        self.read == zero_stat() && self.write == zero_stat() && self.error == zero_stat()
    }

    pub fn new() -> (r: OpTotals)
        ensures
            r.is_zero(),
    {
        OpTotals { read: WorkerStat::new(), write: WorkerStat::new(), error: WorkerStat::new() }
    }

    /// The totals of one operation.
    pub fn get(&self, op: Operation) -> (r: WorkerStat)
        ensures
            r == self.of(op),
    {
        match op {
            Operation::Read => self.read,
            Operation::Write => self.write,
            Operation::Error => self.error,
        }
    }

    /// Folds a measurement into the bucket of its operation.
    pub fn add(&mut self, wi: &WorkerInfo)
        ensures
            forall|op: Operation|
                #[trigger] final(self).of(op) == if op == wi.op {
                    folded(old(self).of(op), *wi)
                } else {
                    old(self).of(op)
                },
    {
        match wi.op {
            Operation::Read => self.read.add_result(wi),
            Operation::Write => self.write.add_result(wi),
            Operation::Error => self.error.add_result(wi),
        }
    }
}

/// The totals of one thread for one operation during the current tick.
#[derive(Debug, Clone, Copy, PartialEq, Eq, Structural)]
pub struct ThreadStat {
    pub op: Operation,
    pub id: u64,
    pub stat: WorkerStat,
}

/// The thread buckets after folding in `wi`: the bucket of its operation and
/// thread grows, or a new one is appended in encounter order.
pub open spec fn thread_folded(ts: Seq<ThreadStat>, wi: WorkerInfo) -> Seq<ThreadStat> {
    if exists|i: int| 0 <= i < ts.len() && ts[i].op == wi.op && ts[i].id == wi.id {
        let i = choose|i: int| 0 <= i < ts.len() && ts[i].op == wi.op && ts[i].id == wi.id;
        ts.update(i, ThreadStat { op: wi.op, id: wi.id, stat: folded(ts[i].stat, wi) })
    } else {
        ts.push(ThreadStat { op: wi.op, id: wi.id, stat: folded(zero_stat(), wi) })
    }
}

/// Each operation and thread has at most one bucket.
pub open spec fn keys_unique(ts: Seq<ThreadStat>) -> bool {
    forall|i: int, j: int|
        0 <= i < ts.len() && 0 <= j < ts.len() && i != j ==> !(ts[i].op == ts[j].op && ts[i].id
            == ts[j].id)
}

/// The aggregator's state: bytes written since the start, the run totals,
/// the current tick's totals and the current tick's per-thread buckets.
pub struct StatsCollector {
    written: u64,
    agg: OpTotals,
    tick: OpTotals,
    threads: Vec<ThreadStat>,
}

impl StatsCollector {
    pub closed spec fn spec_written(&self) -> u64 {
        self.written
    }

    pub closed spec fn spec_agg(&self) -> OpTotals {
        self.agg
    }

    pub closed spec fn spec_tick(&self) -> OpTotals {
        self.tick
    }

    pub closed spec fn spec_threads(&self) -> Seq<ThreadStat> {
        self.threads@
    }

    pub open spec fn wf(&self) -> bool {
        keys_unique(self.spec_threads())
    }

    pub fn new() -> (r: StatsCollector)
        ensures
            r.wf(),
            r.spec_written() == 0,
            r.spec_agg().is_zero(),
            r.spec_tick().is_zero(),
            r.spec_threads().len() == 0,
    {
        StatsCollector {
            written: 0,
            agg: OpTotals::new(),
            tick: OpTotals::new(),
            threads: Vec::new(),
        }
    }

    /// Bytes written since the start, held at `u64::MAX`.
    pub fn written(&self) -> (r: u64)
        ensures
            r == self.spec_written(),
    {
        self.written
    }

    /// The run totals of one operation.
    pub fn total(&self, op: Operation) -> (r: WorkerStat)
        ensures
            r == self.spec_agg().of(op),
    {
        self.agg.get(op)
    }

    /// The current tick's totals of one operation.
    pub fn tick_total(&self, op: Operation) -> (r: WorkerStat)
        ensures
            r == self.spec_tick().of(op),
    {
        self.tick.get(op)
    }

    /// The current tick's per-thread buckets, in encounter order.
    pub fn thread_totals(&self) -> (r: Vec<ThreadStat>)
        ensures
            r@ == self.spec_threads(),
    {
        self.threads.clone()
    }

    /// Folds one measurement into the thread, tick and run buckets, and
    /// counts the bytes of a write.
    pub fn absorb(&mut self, wi: WorkerInfo)
        requires
            old(self).wf(),
        ensures
            final(self).wf(),
            final(self).spec_written() == if wi.op == Operation::Write {
                sat_add(old(self).spec_written(), wi.size)
            } else {
                old(self).spec_written()
            },
            final(self).spec_threads() == thread_folded(old(self).spec_threads(), wi),
            forall|op: Operation|
                #[trigger] final(self).spec_tick().of(op) == if op == wi.op {
                    folded(old(self).spec_tick().of(op), wi)
                } else {
                    old(self).spec_tick().of(op)
                },
            forall|op: Operation|
                #[trigger] final(self).spec_agg().of(op) == if op == wi.op {
                    folded(old(self).spec_agg().of(op), wi)
                } else {
                    old(self).spec_agg().of(op)
                },
    {
        if wi.op == Operation::Write {
            self.written = self.written.saturating_add(wi.size);
        }
        let ghost ts = self.threads@;
        let ghost w0 = self.written;
        let ghost t0 = self.tick;
        let ghost a0 = self.agg;
        let mut i: usize = 0;
        while i < self.threads.len()
            invariant
                self.threads@ == ts,
                ts == old(self).threads@,
                t0 == old(self).tick,
                a0 == old(self).agg,
                w0 == if wi.op == Operation::Write {
                    sat_add(old(self).written, wi.size)
                } else {
                    old(self).written
                },
                keys_unique(ts),
                self.written == w0,
                self.tick == t0,
                self.agg == a0,
                i <= ts.len(),
                forall|j: int| 0 <= j < i ==> !(ts[j].op == wi.op && ts[j].id == wi.id),
            decreases ts.len() - i,
        {
            let t = self.threads[i];
            if t.op == wi.op && t.id == wi.id {
                let mut stat = t.stat;
                stat.add_result(&wi);
                self.threads.set(i, ThreadStat { op: wi.op, id: wi.id, stat });
                proof {
                    let k = choose|k: int|
                        0 <= k < ts.len() && ts[k].op == wi.op && ts[k].id == wi.id;
                    assert(k == i as int);
                    assert(self.threads@ == thread_folded(ts, wi));
                    assert(keys_unique(self.threads@)) by {
                        assert forall|a: int, b: int|
                            0 <= a < self.threads@.len() && 0 <= b < self.threads@.len() && a
                                != b implies !(self.threads@[a].op == self.threads@[b].op
                            && self.threads@[a].id == self.threads@[b].id) by {
                            assert(self.threads@[a].op == ts[a].op && self.threads@[a].id
                                == ts[a].id);
                            assert(self.threads@[b].op == ts[b].op && self.threads@[b].id
                                == ts[b].id);
                        }
                    }
                }
                self.tick.add(&wi);
                self.agg.add(&wi);
                return;
            }
            i += 1;
        }
        let mut stat = WorkerStat::new();
        stat.add_result(&wi);
        self.threads.push(ThreadStat { op: wi.op, id: wi.id, stat });
        assert(keys_unique(self.threads@)) by {
            assert forall|a: int, b: int|
                0 <= a < self.threads@.len() && 0 <= b < self.threads@.len() && a
                    != b implies !(self.threads@[a].op == self.threads@[b].op
                && self.threads@[a].id == self.threads@[b].id) by {
                if a < ts.len() && b < ts.len() {
                    assert(self.threads@[a] == ts[a]);
                    assert(self.threads@[b] == ts[b]);
                }
            }
        }
        self.tick.add(&wi);
        self.agg.add(&wi);
    }

    /// Folds in one event of the channel: a failed request of thread `id`
    /// counts as a zero-size error record.
    pub fn record(&mut self, ev: Result<WorkerInfo, ChumError>, id: u64)
        requires
            old(self).wf(),
        ensures
            final(self).wf(),
            ({
                let wi = match ev {
                    Ok(wi) => wi,
                    Err(_) => WorkerInfo { id, op: Operation::Error, size: 0, ttfb: 0, rtt: 0 },
                };
                &&& final(self).spec_written() == if wi.op == Operation::Write {
                    sat_add(old(self).spec_written(), wi.size)
                } else {
                    old(self).spec_written()
                }
                &&& final(self).spec_threads() == thread_folded(old(self).spec_threads(), wi)
                &&& forall|op: Operation|
                    #[trigger] final(self).spec_tick().of(op) == if op == wi.op {
                        folded(old(self).spec_tick().of(op), wi)
                    } else {
                        old(self).spec_tick().of(op)
                    }
                &&& forall|op: Operation|
                    #[trigger] final(self).spec_agg().of(op) == if op == wi.op {
                        folded(old(self).spec_agg().of(op), wi)
                    } else {
                        old(self).spec_agg().of(op)
                    }
            }),
    {
        let wi = match ev {
            Ok(wi) => wi,
            Err(_) => WorkerInfo::error_record(id),
        };
        self.absorb(wi);
    }

    /// Starts a new tick: the tick and thread buckets are emptied; the run
    /// totals and the bytes written are kept.
    pub fn start_tick(&mut self)
        ensures
            final(self).wf(),
            final(self).spec_written() == old(self).spec_written(),
            final(self).spec_agg() == old(self).spec_agg(),
            final(self).spec_tick().is_zero(),
            final(self).spec_threads().len() == 0,
    {
        self.tick = OpTotals::new();
        self.threads = Vec::new();
    }

    /// What the cap asks for at the end of this tick.
    pub fn evaluate_cap(&self, cap: Option<DataCap>, protocol: &str) -> (r: CapAction)
        ensures
            r == match cap {
                None => CapAction::Continue,
                Some(DataCap::LogicalData(c)) => if self.spec_written() >= c {
                    CapAction::Stop
                } else {
                    CapAction::Continue
                },
                Some(DataCap::Percentage(p)) => if is_fs(protocol@) {
                    CapAction::QueryUsage(p)
                } else {
                    CapAction::Continue
                },
            },
    {
        cap_action(cap, self.written, protocol)
    }

    /// The tabular report of this tick.
    pub fn tabular_line(&self, timestamp: u64) -> (r: String)
        ensures
            r@ == tabular_text(timestamp, self.spec_tick(), self.spec_agg()),
    {
        let mut fs: Vec<u64> = Vec::new();
        fs.push(timestamp);
        fs.push(self.tick.read.objs);
        fs.push(self.tick.write.objs);
        fs.push(self.tick.read.data);
        fs.push(self.tick.write.data);
        fs.push(self.tick.read.ttfb);
        fs.push(self.tick.write.ttfb);
        fs.push(self.tick.read.rtt);
        fs.push(self.tick.write.rtt);
        fs.push(self.tick.error.objs);
        fs.push(self.agg.read.data);
        fs.push(self.agg.write.data);
        assert(fs@ =~= tabular_fields(timestamp, self.tick, self.agg));
        joined_decimals(&fs)
    }
}

/// The twelve numbers of a tabular line: timestamp; tick read and write
/// counts, bytes, ttfb and rtt; tick errors; run bytes read and written.
pub open spec fn tabular_fields(timestamp: u64, tick: OpTotals, agg: OpTotals) -> Seq<u64> {
    seq![
        timestamp,
        tick.read.objs,
        tick.write.objs,
        tick.read.data,
        tick.write.data,
        tick.read.ttfb,
        tick.write.ttfb,
        tick.read.rtt,
        tick.write.rtt,
        tick.error.objs,
        agg.read.data,
        agg.write.data,
    ]
}

/// `fs` joined by single spaces.
pub open spec fn joined(fs: Seq<Seq<char>>) -> Seq<char>
    decreases fs.len(),
{
    if fs.len() == 0 {
        Seq::empty()
    } else if fs.len() == 1 {
        fs[0]
    } else {
        joined(fs.drop_last()).push(' ') + fs.last()
    }
}

pub open spec fn decimals(ns: Seq<u64>) -> Seq<Seq<char>> {
    ns.map_values(|n: u64| decimal(n as nat))
}

pub open spec fn tabular_text(timestamp: u64, tick: OpTotals, agg: OpTotals) -> Seq<char> {
    joined(decimals(tabular_fields(timestamp, tick, agg)))
}

/// The decimal notations of `ns` joined by single spaces.
fn joined_decimals(ns: &Vec<u64>) -> (r: String)
    ensures
        r@ == joined(decimals(ns@)),
{
    let mut s = String::new();
    let mut i: usize = 0;
    while i < ns.len()
        invariant
            i <= ns.len(),
            s@ == joined(decimals(ns@.subrange(0, i as int))),
        decreases ns.len() - i,
    {
        let ghost pre = ns@.subrange(0, i as int);
        let ghost next = ns@.subrange(0, i as int + 1);
        assert(decimals(next).drop_last() =~= decimals(pre));
        if i > 0 {
            s.append(" ");
        }
        let d = decimal_string(ns[i]);
        s.append(d.as_str());
        proof {
            reveal_strlit(" ");
            assert(s@ =~= joined(decimals(next)));
        }
        i += 1;
    }
    assert(ns@.subrange(0, ns.len() as int) =~= ns@);
    s
}

/// Appending text without a separator extends the last piece.
proof fn lemma_split_append(a: Seq<char>, b: Seq<char>, sep: char)
    requires
        !b.contains(sep),
    ensures
        split_on(a + b, sep) == split_on(a, sep).update(
            split_on(a, sep).len() - 1,
            split_on(a, sep).last() + b,
        ),
    decreases b.len(),
{
    lemma_split_nonempty(a, sep);
    if b.len() == 0 {
        assert(a + b =~= a);
        assert(split_on(a, sep).last() + b =~= split_on(a, sep).last());
        assert(split_on(a, sep).update(split_on(a, sep).len() - 1, split_on(a, sep).last())
            =~= split_on(a, sep));
    } else {
        let b0 = b.drop_last();
        assert(!b0.contains(sep)) by {
            if b0.contains(sep) {
                let k = choose|k: int| 0 <= k < b0.len() && b0[k] == sep;
                assert(b[k] == sep);
            }
        }
        lemma_split_append(a, b0, sep);
        assert((a + b).drop_last() =~= a + b0);
        assert((a + b).last() == b.last());
        assert(b.last() != sep) by {
            assert(b[b.len() - 1] == b.last());
        }
        assert(split_on(a, sep).last() + b0 + seq![b.last()] =~= split_on(a, sep).last() + b);
        let sa = split_on(a, sep);
        let init = split_on(a + b0, sep);
        assert(init.len() == sa.len());
        assert(init.last() == sa.last() + b0);
        assert(split_on(a + b, sep) == init.update(init.len() - 1, init.last().push(b.last())));
        assert((sa.last() + b0).push(b.last()) =~= sa.last() + b);
        assert(split_on(a + b, sep) =~= split_on(a, sep).update(
            split_on(a, sep).len() - 1,
            split_on(a, sep).last() + b,
        ));
    }
}

/// Joining pieces that hold no space and splitting at spaces gives the pieces back.
pub proof fn lemma_split_joined(fs: Seq<Seq<char>>)
    requires
        fs.len() >= 1,
        forall|i: int| 0 <= i < fs.len() ==> !(#[trigger] fs[i]).contains(' '),
    ensures
        split_on(joined(fs), ' ') == fs,
    decreases fs.len(),
{
    if fs.len() == 1 {
        let e = Seq::<char>::empty();
        lemma_split_append(e, fs[0], ' ');
        assert(e + fs[0] =~= fs[0]);
        assert(split_on(e, ' ') == seq![e]);
        assert(seq![e].update(0, e + fs[0]) =~= fs);
    } else {
        let init = fs.drop_last();
        assert forall|i: int| 0 <= i < init.len() implies !(#[trigger] init[i]).contains(' ') by {
            assert(init[i] == fs[i]);
        }
        lemma_split_joined(init);
        let j = joined(init).push(' ');
        assert(j.drop_last() =~= joined(init));
        assert(split_on(j, ' ') == init.push(Seq::empty()));
        assert(!fs.last().contains(' ')) by {
            assert(fs[fs.len() - 1] == fs.last());
        }
        lemma_split_append(j, fs.last(), ' ');
        assert(Seq::<char>::empty() + fs.last() =~= fs.last());
        assert(init.push(Seq::empty()).update(init.len() as int, Seq::empty() + fs.last()) =~= fs);
    }
}

/// A tabular line always splits at spaces into exactly twelve fields, each the
/// decimal notation of its number, whichever operations the tick saw.
pub proof fn lemma_tabular_twelve_fields(timestamp: u64, tick: OpTotals, agg: OpTotals)
    ensures
        split_on(tabular_text(timestamp, tick, agg), ' ') == decimals(
            tabular_fields(timestamp, tick, agg),
        ),
        split_on(tabular_text(timestamp, tick, agg), ' ').len() == 12,
{
    let fs = decimals(tabular_fields(timestamp, tick, agg));
    assert forall|i: int| 0 <= i < fs.len() implies !(#[trigger] fs[i]).contains(' ') by {
        let n = tabular_fields(timestamp, tick, agg)[i];
        lemma_decimal_digits(n as nat);
        if fs[i].contains(' ') {
            let k = choose|k: int| 0 <= k < fs[i].len() && fs[i][k] == ' ';
            assert(is_digit(decimal(n as nat)[k]));
        }
    }
    lemma_split_joined(fs);
}

/// The bytes written after the events `evs`, as the collector counts them
/// (each write adds its size, held at `u64::MAX`).
pub open spec fn written_after(start: u64, evs: Seq<WorkerInfo>) -> u64
    decreases evs.len(),
{
    if evs.len() == 0 {
        start
    } else {
        let w = written_after(start, evs.drop_last());
        if evs.last().op == Operation::Write {
            sat_add(w, evs.last().size)
        } else {
            w
        }
    }
}

/// The exact sum of the sizes of the write events of `evs`.
pub open spec fn write_bytes(evs: Seq<WorkerInfo>) -> nat
    decreases evs.len(),
{
    if evs.len() == 0 {
        0
    } else {
        write_bytes(evs.drop_last()) + if evs.last().op == Operation::Write {
            evs.last().size as nat
        } else {
            0
        }
    }
}

/// The counted bytes are the exact sum, held at `u64::MAX`.
pub proof fn lemma_written_is_sum(evs: Seq<WorkerInfo>)
    ensures
        written_after(0, evs) == if write_bytes(evs) <= u64::MAX {
            write_bytes(evs)
        } else {
            u64::MAX as nat
        },
    decreases evs.len(),
{
    if evs.len() > 0 {
        lemma_written_is_sum(evs.drop_last());
    }
}

/// A `LogicalData(cap)` cap stops the run after the events `evs` exactly when
/// the bytes of their writes reach or exceed `cap`; since that sum only
/// grows, the first tick at which it does is the one that ends the run.
pub proof fn lemma_logical_cap_exact(evs: Seq<WorkerInfo>, more: Seq<WorkerInfo>, cap: u64)
    ensures
        (written_after(0, evs) >= cap) <==> (write_bytes(evs) >= cap),
        write_bytes(evs) <= write_bytes(evs + more),
    decreases more.len(),
{
    lemma_written_is_sum(evs);
    if more.len() > 0 {
        lemma_logical_cap_exact(evs, more.drop_last(), cap);
        assert((evs + more).drop_last() =~= evs + more.drop_last());
    } else {
        assert(evs + more =~= evs);
    }
}

/// The totals after folding the events `evs` into `s` in order.
pub open spec fn stat_after(s: WorkerStat, evs: Seq<WorkerInfo>) -> WorkerStat
    decreases evs.len(),
{
    if evs.len() == 0 {
        s
    } else {
        folded(stat_after(s, evs.drop_last()), evs.last())
    }
}

/// After `n` write events of `size` bytes folded into an empty bucket, it
/// counts `n` operations and `n * size` bytes.
pub proof fn lemma_tick_counts(evs: Seq<WorkerInfo>, size: u64)
    requires
        evs.len() <= u64::MAX,
        evs.len() * size <= u64::MAX,
        forall|i: int| 0 <= i < evs.len() ==> (#[trigger] evs[i]).op == Operation::Write
            && evs[i].size == size,
    ensures
        stat_after(zero_stat(), evs).objs == evs.len(),
        stat_after(zero_stat(), evs).data == evs.len() * size,
    decreases evs.len(),
{
    if evs.len() > 0 {
        let init = evs.drop_last();
        assert forall|i: int| 0 <= i < init.len() implies (#[trigger] init[i]).op == Operation::Write
            && init[i].size == size by {
            assert(init[i] == evs[i]);
        }
        assert(init.len() * size <= evs.len() * size) by (nonlinear_arith)
            requires
                init.len() <= evs.len(),
        ;
        lemma_tick_counts(init, size);
        assert(evs.last() == evs[evs.len() - 1]);
        assert(init.len() * size + size == evs.len() * size) by (nonlinear_arith)
            requires
                init.len() + 1 == evs.len(),
        ;
    }
}

/// The name of an operation in reports.
pub open spec fn op_name(op: Operation) -> Seq<char> {
    match op {
        Operation::Read => "read"@,
        Operation::Write => "write"@,
        Operation::Error => "error"@,
    }
}

/// Counts, bytes and mean latencies of a bucket with at least one operation.
pub open spec fn relative_text(s: WorkerStat) -> Seq<char> {
    decimal(s.objs as nat) + " ops, "@ + decimal(s.data as nat) + " bytes, "@ + decimal(
        (s.ttfb / s.objs) as nat,
    ) + " ms avg ttfb, "@ + decimal((s.rtt / s.objs) as nat) + " ms avg rtt"@
}

/// Rates per second over `elapsed` seconds (at least one) and mean latencies.
pub open spec fn absolute_text(s: WorkerStat, elapsed: u64) -> Seq<char> {
    let e = if elapsed == 0 {
        1
    } else {
        elapsed
    };
    decimal((s.objs / e) as nat) + " ops/s, "@ + decimal((s.data / e) as nat) + " bytes/s, "@
        + decimal((s.ttfb / s.objs) as nat) + " ms avg ttfb, "@ + decimal((s.rtt / s.objs) as nat)
        + " ms avg rtt"@
}

/// The body of a report line for a bucket with at least one operation:
/// errors are counted, other operations described.
pub open spec fn body_text(op: Operation, s: WorkerStat, absolute: bool, elapsed: u64) -> Seq<char> {
    if op == Operation::Error {
        decimal(s.objs as nat) + " errors"@
    } else if absolute {
        absolute_text(s, elapsed)
    } else {
        relative_text(s)
    }
}

/// One line of the tick or run section.
pub open spec fn bucket_line(label: Seq<char>, op: Operation, s: WorkerStat, absolute: bool, elapsed: u64) -> Seq<char> {
    label + " ("@ + op_name(op) + ")"@ + if s.objs == 0 {
        " no activity this tick"@
    } else {
        "\t"@ + body_text(op, s, absolute, elapsed)
    }
}

/// The lines of the thread section for `op`: one per bucket of that
/// operation with activity, numbered in encounter order from zero.
pub open spec fn thread_lines(ts: Seq<ThreadStat>, op: Operation) -> Seq<Seq<char>>
    decreases ts.len(),
{
    if ts.len() == 0 {
        Seq::empty()
    } else {
        let prev = thread_lines(ts.drop_last(), op);
        let t = ts.last();
        if t.op == op && t.stat.objs > 0 {
            prev.push(
                "\t"@ + decimal(prev.len()) + ": "@ + body_text(op, t.stat, false, 0),
            )
        } else {
            prev
        }
    }
}

/// The thread section for `op`: a heading and its lines, or nothing.
pub open spec fn thread_section(ts: Seq<ThreadStat>, op: Operation) -> Seq<Seq<char>> {
    if thread_lines(ts, op).len() == 0 {
        Seq::empty()
    } else {
        seq!["Thread ("@ + op_name(op) + ")"@] + thread_lines(ts, op)
    }
}

pub open spec fn all_ops() -> Seq<Operation> {
    seq![Operation::Read, Operation::Write, Operation::Error]
}

/// The human report: a separator; with `verbose` the thread sections; then
/// one tick line and one run line per operation.
pub open spec fn human_text(
    verbose: bool,
    elapsed: u64,
    tick: OpTotals,
    agg: OpTotals,
    ts: Seq<ThreadStat>,
) -> Seq<Seq<char>> {
    seq!["---"@] + (if verbose {
        thread_section(ts, Operation::Read) + thread_section(ts, Operation::Write) + thread_section(
            ts,
            Operation::Error,
        )
    } else {
        Seq::empty()
    }) + Seq::new(3, |i: int| bucket_line("Tick"@, all_ops()[i], tick.of(all_ops()[i]), false, 0))
        + Seq::new(3, |i: int| bucket_line("Total"@, all_ops()[i], agg.of(all_ops()[i]), true, elapsed))
}

fn op_label(op: Operation) -> (r: &'static str)
    ensures
        r@ == op_name(op),
{
    match op {
        Operation::Read => "read",
        Operation::Write => "write",
        Operation::Error => "error",
    }
}

fn append_decimal(s: &mut String, n: u64)
    ensures
        final(s)@ == old(s)@ + decimal(n as nat),
{
    let d = decimal_string(n);
    s.append(d.as_str());
}

fn body_string(op: Operation, st: WorkerStat, absolute: bool, elapsed: u64) -> (r: String)
    requires
        st.objs > 0,
    ensures
        r@ == body_text(op, st, absolute, elapsed),
{
    let mut s = String::new();
    if op == Operation::Error {
        append_decimal(&mut s, st.objs);
        s.append(" errors");
        assert(s@ =~= body_text(op, st, absolute, elapsed));
        return s;
    }
    if absolute {
        let e: u64 = if elapsed == 0 {
            1
        } else {
            elapsed
        };
        append_decimal(&mut s, st.objs / e);
        s.append(" ops/s, ");
        append_decimal(&mut s, st.data / e);
        s.append(" bytes/s, ");
    } else {
        append_decimal(&mut s, st.objs);
        s.append(" ops, ");
        append_decimal(&mut s, st.data);
        s.append(" bytes, ");
    }
    append_decimal(&mut s, st.ttfb / st.objs);
    s.append(" ms avg ttfb, ");
    append_decimal(&mut s, st.rtt / st.objs);
    s.append(" ms avg rtt");
    assert(s@ =~= body_text(op, st, absolute, elapsed));
    s
}

fn bucket_string(label: &str, op: Operation, st: WorkerStat, absolute: bool, elapsed: u64) -> (r: String)
    ensures
        r@ == bucket_line(label@, op, st, absolute, elapsed),
{
    let mut s = String::from_str(label);
    s.append(" (");
    s.append(op_label(op));
    s.append(")");
    if st.objs == 0 {
        s.append(" no activity this tick");
    } else {
        s.append("\t");
        let b = body_string(op, st, absolute, elapsed);
        s.append(b.as_str());
    }
    assert(s@ =~= bucket_line(label@, op, st, absolute, elapsed));
    s
}

/// Appends the thread section for `op` to `out`.
fn push_thread_section(ts: &Vec<ThreadStat>, op: Operation, out: &mut Vec<String>)
    ensures
        string_views(final(out)@) == string_views(old(out)@) + thread_section(ts@, op),
{
    let mut lines: Vec<String> = Vec::new();
    let mut i: usize = 0;
    while i < ts.len()
        invariant
            i <= ts.len(),
            string_views(lines@) == thread_lines(ts@.subrange(0, i as int), op),
        decreases ts.len() - i,
    {
        let ghost pre = ts@.subrange(0, i as int);
        let ghost next = ts@.subrange(0, i as int + 1);
        assert(next.drop_last() =~= pre);
        let t = ts[i];
        if t.op == op && t.stat.objs > 0 {
            let ghost prev = string_views(lines@);
            let mut s = String::from_str("\t");
            append_decimal(&mut s, lines.len() as u64);
            s.append(": ");
            let b = body_string(op, t.stat, false, 0);
            s.append(b.as_str());
            lines.push(s);
            assert(string_views(lines@) =~= thread_lines(next, op));
        } else {
            assert(string_views(lines@) =~= thread_lines(next, op));
        }
        i += 1;
    }
    assert(ts@.subrange(0, ts.len() as int) =~= ts@);
    if lines.len() == 0 {
        assert(string_views(out@) =~= string_views(old(out)@) + thread_section(ts@, op));
        return;
    }
    let mut h = String::from_str("Thread (");
    h.append(op_label(op));
    h.append(")");
    out.push(h);
    let mut j: usize = 0;
    let ghost base = string_views(out@);
    while j < lines.len()
        invariant
            j <= lines.len(),
            string_views(lines@) == thread_lines(ts@, op),
            string_views(out@) == base + string_views(lines@).subrange(0, j as int),
        decreases lines.len() - j,
    {
        let ghost prev = string_views(out@);
        let l = lines[j].clone();
        assert(l@ == string_views(lines@)[j as int]);
        out.push(l);
        assert(string_views(out@) =~= prev.push(l@));
        j += 1;
        assert(string_views(out@) =~= base + string_views(lines@).subrange(0, j as int));
    }
    assert(string_views(lines@).subrange(0, j as int) =~= string_views(lines@));
    assert(string_views(out@) =~= string_views(old(out)@) + thread_section(ts@, op));
}

impl StatsCollector {
    /// The human report of this tick; with `verbose`, the thread buckets are
    /// reported and then emptied.
    pub fn human_report(&mut self, verbose: bool, elapsed: u64) -> (r: Vec<String>)
        requires
            old(self).wf(),
        ensures
            string_views(r@) == human_text(
                verbose,
                elapsed,
                old(self).spec_tick(),
                old(self).spec_agg(),
                old(self).spec_threads(),
            ),
            final(self).wf(),
            final(self).spec_written() == old(self).spec_written(),
            final(self).spec_tick() == old(self).spec_tick(),
            final(self).spec_agg() == old(self).spec_agg(),
            verbose ==> final(self).spec_threads().len() == 0,
            !verbose ==> final(self).spec_threads() == old(self).spec_threads(),
    {
        let ghost ts = self.threads@;
        let ghost tick = self.tick;
        let ghost agg = self.agg;
        let mut out: Vec<String> = Vec::new();
        out.push(String::from_str("---"));
        assert(string_views(out@) =~= seq!["---"@]);
        if verbose {
            push_thread_section(&self.threads, Operation::Read, &mut out);
            push_thread_section(&self.threads, Operation::Write, &mut out);
            push_thread_section(&self.threads, Operation::Error, &mut out);
            self.threads = Vec::new();
        }
        let ghost head = string_views(out@);
        assert(head =~= seq!["---"@] + (if verbose {
            thread_section(ts, Operation::Read) + thread_section(ts, Operation::Write)
                + thread_section(ts, Operation::Error)
        } else {
            Seq::empty()
        }));
        let l0 = bucket_string("Tick", Operation::Read, self.tick.read, false, 0);
        let l1 = bucket_string("Tick", Operation::Write, self.tick.write, false, 0);
        let l2 = bucket_string("Tick", Operation::Error, self.tick.error, false, 0);
        let l3 = bucket_string("Total", Operation::Read, self.agg.read, true, elapsed);
        let l4 = bucket_string("Total", Operation::Write, self.agg.write, true, elapsed);
        let l5 = bucket_string("Total", Operation::Error, self.agg.error, true, elapsed);
        let ghost tl = Seq::new(
            3,
            |i: int| bucket_line("Tick"@, all_ops()[i], tick.of(all_ops()[i]), false, 0),
        );
        let ghost gl = Seq::new(
            3,
            |i: int| bucket_line("Total"@, all_ops()[i], agg.of(all_ops()[i]), true, elapsed),
        );
        assert(tl =~= seq![l0@, l1@, l2@]);
        assert(gl =~= seq![l3@, l4@, l5@]);
        out.push(l0);
        out.push(l1);
        out.push(l2);
        out.push(l3);
        out.push(l4);
        out.push(l5);
        assert(string_views(out@) =~= head + seq![l0@, l1@, l2@] + seq![l3@, l4@, l5@]);
        assert(string_views(out@) =~= human_text(
            verbose,
            elapsed,
            old(self).spec_tick(),
            old(self).spec_agg(),
            old(self).spec_threads(),
        ));
        out
    }
}

} // verus!
