//! Per-process accounting.
//!
//! A process is sampled as four cumulative tick counters (own user and
//! system time, plus the accumulated times of reaped children), always
//! together with the system-wide aggregate snapshot captured at the same
//! instant. The engine converts two such sample pairs into the process's
//! share of one logical core: the tick delta of the process over the tick
//! delta of the whole system, scaled by the core count.

use vstd::prelude::*;

use vstd::arithmetic::mul::lemma_mul_inequality;
use vstd::arithmetic::mul::lemma_mul_upper_bound;

use crate::processor;
use crate::text::colon_parts_of;
use crate::text::fields_of;
use crate::text::kb_stripped;
use crate::text::lines_of;
use crate::text::parse_u64_of;
use crate::text::trim_of;
use crate::text::fields;
use crate::text::parse_u64;
use crate::text::split_colon;
use crate::text::split_lines;
use crate::text::str_eq;
use crate::text::strip_suffix;
use crate::text::trim;
use crate::CORE_LIMIT;
use crate::FIELD_LIMIT;
use crate::SysError;
use crate::Usage;

verus! {

/// Cumulative tick counters of one process since it started: own user and
/// system time, and the user and system time of its reaped children.
#[derive(Debug, Clone, Copy, PartialEq, Eq, Structural)]
pub struct ProcessStat {
    pub utime: u64,
    pub stime: u64,
    pub cutime: u64,
    pub cstime: u64,
}

impl ProcessStat {
    /// Validity of a snapshot: every counter is at most [`FIELD_LIMIT`], so
    /// sums, deltas and core-count multiples fit in `u64`.
    pub open spec fn wf(self) -> bool {
        &&& self.utime <= FIELD_LIMIT
        &&& self.stime <= FIELD_LIMIT
        &&& self.cutime <= FIELD_LIMIT
        &&& self.cstime <= FIELD_LIMIT
    }

    /// Ticks the process itself has used.
    pub open spec fn total(self) -> int {
        self.utime as int + self.stime as int
    }

    /// Ticks the process and its reaped children have used together. Never
    /// below [`ProcessStat::total`]: the children's contribution is
    /// additive.
    pub open spec fn total_with_children(self) -> int {
        self.utime as int + self.stime as int + self.cutime as int + self.cstime as int
    }

    /// Counter monotonicity between two snapshots of the same process. A
    /// violation means the counters restarted (for example the identifier
    /// was reused by an unrelated process).
    pub open spec fn le(self, other: ProcessStat) -> bool {
        &&& self.utime <= other.utime
        &&& self.stime <= other.stime
        &&& self.cutime <= other.cutime
        &&& self.cstime <= other.cstime
    }

    /// Runtime check of [`ProcessStat::le`].
    pub fn le_check(&self, other: &ProcessStat) -> (r: bool)
        ensures
            r == self.le(*other),
    {
        self.utime <= other.utime && self.stime <= other.stime && self.cutime <= other.cutime
            && self.cstime <= other.cstime
    }

    /// The ticks the process itself has used.
    pub fn get_total(&self) -> (r: u64)
        requires
            self.wf(),
        ensures
            r as int == self.total(),
    {
        self.utime + self.stime
    }

    /// The ticks the process and its reaped children have used together.
    pub fn get_total_with_children(&self) -> (r: u64)
        requires
            self.wf(),
        ensures
            r as int == self.total_with_children(),
    {
        self.utime + self.stime + self.cutime + self.cstime
    }
}

/// One sample of a tracked process: its own counters, the system-wide
/// aggregate snapshot captured at (as nearly as possible) the same instant,
/// and the core count read along with that snapshot.
#[derive(Debug, Clone, Copy)]
pub struct ProcessSample {
    pub stat: ProcessStat,
    pub processor_stat: processor::ProcessStat,
    pub core_count: usize,
}

impl ProcessSample {
    /// Validity of the sample: both snapshots are valid and the core count
    /// is at most [`CORE_LIMIT`].
    pub open spec fn wf(self) -> bool {
        self.stat.wf() && self.processor_stat.wf() && self.core_count <= CORE_LIMIT
    }

    /// Monotonicity of both snapshots between two samples.
    pub open spec fn le(self, other: ProcessSample) -> bool {
        self.stat.le(other.stat) && self.processor_stat.le(other.processor_stat)
    }

    /// Runtime check of [`ProcessSample::le`].
    pub fn le_check(&self, other: &ProcessSample) -> (r: bool)
        ensures
            r == self.le(*other),
    {
        self.stat.le_check(&other.stat) && self.processor_stat.le_check(&other.processor_stat)
    }
}

/// The pair of ratios (own, with children) between two samples of one
/// process, normalized so that a process saturating one logical core scores
/// one: `core_count * (process tick delta) / (system tick delta)`.
///
/// An empty system window (equal aggregate totals) yields the exact zero
/// ratio for both, with no division.
pub open spec fn usage_pair_between(prev: ProcessSample, latest: ProcessSample) -> (Usage, Usage) {
    let core_count = latest.core_count as int;
    let total_diff = latest.processor_stat.total() - prev.processor_stat.total();
    if total_diff == 0 {
        (Usage::spec_zero(), Usage::spec_zero())
    } else {
        (
            Usage {
                num: (core_count * (latest.stat.total() - prev.stat.total())) as u64,
                den: total_diff as u64,
            },
            Usage {
                num: (core_count * (latest.stat.total_with_children()
                    - prev.stat.total_with_children())) as u64,
                den: total_diff as u64,
            },
        )
    }
}

/// Between monotone samples the children's contribution is additive and
/// never negative, so the with-children ratio is never below the own ratio:
/// both share one denominator and the with-children numerator is at least
/// the own numerator.
pub proof fn lemma_children_usage_dominates(prev: ProcessSample, latest: ProcessSample)
    requires
        prev.wf(),
        latest.wf(),
        prev.le(latest),
    ensures
        usage_pair_between(prev, latest).1.den == usage_pair_between(prev, latest).0.den,
        usage_pair_between(prev, latest).1.num >= usage_pair_between(prev, latest).0.num,
{
    let core_count = latest.core_count as int;
    let own = latest.stat.total() - prev.stat.total();
    let with_children = latest.stat.total_with_children() - prev.stat.total_with_children();
    lemma_mul_upper_bound(core_count, CORE_LIMIT as int, own, 2 * FIELD_LIMIT);
    lemma_mul_upper_bound(core_count, CORE_LIMIT as int, with_children, 4 * FIELD_LIMIT);
    lemma_mul_inequality(own, with_children, core_count);
}

/// Computes the ratio pair (own, with children) of one process from its
/// previous and latest samples.
///
/// The with-children ratio is never below the own ratio: between monotone
/// samples the children accumulate a non-negative extra delta on top of the
/// process's own delta, over the same denominator.
pub fn process_usage(prev: &ProcessSample, latest: &ProcessSample) -> (r: (Usage, Usage))
    requires
        prev.wf(),
        latest.wf(),
        prev.le(*latest),
    ensures
        r == usage_pair_between(*prev, *latest),
        r.0.wf(),
        r.1.wf(),
        r.1.den == r.0.den,
        r.1.num >= r.0.num,
        latest.processor_stat.total() == prev.processor_stat.total() ==> r.0
            == Usage::spec_zero() && r.1 == Usage::spec_zero(),
{
    let core_count = latest.core_count;
    let prev_total = prev.processor_stat.get_total();
    let latest_total = latest.processor_stat.get_total();
    if latest_total == prev_total {
        (Usage::zero(), Usage::zero())
    } else {
        let self_diff = latest.stat.get_total() - prev.stat.get_total();
        let children_diff = latest.stat.get_total_with_children()
            - prev.stat.get_total_with_children();
        proof {
            lemma_mul_upper_bound(
                core_count as int,
                CORE_LIMIT as int,
                self_diff as int,
                2 * FIELD_LIMIT,
            );
            lemma_mul_upper_bound(
                core_count as int,
                CORE_LIMIT as int,
                children_diff as int,
                4 * FIELD_LIMIT,
            );
            lemma_mul_inequality(self_diff as int, children_diff as int, core_count as int);
        }
        let num = (core_count as u64) * self_diff;
        let num_with_children = (core_count as u64) * children_diff;
        let den = (latest_total - prev_total) as u64;
        (Usage { num, den }, Usage { num: num_with_children, den })
    }
}

/// One tracked process: its resolved identity, resident-set size as last
/// reported, the previous and latest sample pairs, and the ratios computed
/// from them.
#[derive(Debug, Clone)]
pub struct Process {
    pub processor_usage_with_children: Usage,
    pub processor_usage: Usage,
    pub rss: String,
    pub pid: String,
    pub last_sample: Option<ProcessSample>,
    pub latest_sample: ProcessSample,
}

impl Process {
    /// Validity of a tracked process: the samples (where present) and the
    /// stored ratios are valid.
    pub open spec fn wf(self) -> bool {
        &&& self.latest_sample.wf()
        &&& match self.last_sample {
            Some(s) => s.wf(),
            None => true,
        }
        &&& self.processor_usage.wf()
        &&& self.processor_usage_with_children.wf()
    }

    /// How one refresh changes a tracked process: the old latest sample
    /// becomes the previous one, `sample` becomes the latest, both ratios
    /// are recomputed from the pair, and the identity fields take the
    /// freshly read values.
    pub open spec fn refreshed(
        pre: Process,
        post: Process,
        sample: ProcessSample,
        rss: Seq<char>,
        pid: Seq<char>,
    ) -> bool {
        &&& post.last_sample == Some(pre.latest_sample)
        &&& post.latest_sample == sample
        &&& post.processor_usage == usage_pair_between(pre.latest_sample, sample).0
        &&& post.processor_usage_with_children == usage_pair_between(pre.latest_sample, sample).1
        &&& post.rss@ == rss
        &&& post.pid@ == pid
    }

    /// Refreshes a tracked process from a freshly read sample, core count
    /// and identity record.
    ///
    /// A core count that differs from the one read with the previous sample
    /// invalidates the ratio: the call fails with `CountMismatch`. A sample
    /// that is not monotone over the stored one (counter reset, or an
    /// identifier reused by an unrelated process) fails with
    /// `MalformedData`. On failure the process is left unchanged.
    pub fn refresh(
        &mut self,
        stat: ProcessStat,
        processor_stat: processor::ProcessStat,
        core_count: usize,
        rss: String,
        pid: String,
    ) -> (r: Result<(), SysError>)
        requires
            old(self).wf(),
            stat.wf(),
            processor_stat.wf(),
            core_count <= CORE_LIMIT,
        ensures
            final(self).wf(),
            r is Ok <==> core_count == old(self).latest_sample.core_count && old(
                self,
            ).latest_sample.le(ProcessSample { stat, processor_stat, core_count }),
            r is Ok ==> Process::refreshed(
                *old(self),
                *final(self),
                (ProcessSample { stat, processor_stat, core_count }),
                rss@,
                pid@,
            ),
            r is Ok ==> final(self).processor_usage_with_children.num
                >= final(self).processor_usage.num
                && final(self).processor_usage_with_children.den == final(self).processor_usage.den,
            r is Err ==> *final(self) == *old(self),
            r == Err::<(), SysError>(SysError::CountMismatch) <==> core_count != old(
                self,
            ).latest_sample.core_count,
            r == Err::<(), SysError>(SysError::MalformedData) <==> core_count == old(
                self,
            ).latest_sample.core_count && !old(self).latest_sample.le(
                ProcessSample { stat, processor_stat, core_count },
            ),
    {
        let sample = ProcessSample { stat, processor_stat, core_count };
        if core_count != self.latest_sample.core_count {
            return Err(SysError::CountMismatch);
        }
        if !self.latest_sample.le_check(&sample) {
            return Err(SysError::MalformedData);
        }
        let (usage, usage_with_children) = process_usage(&self.latest_sample, &sample);
        self.last_sample = Some(self.latest_sample);
        self.latest_sample = sample;
        self.processor_usage = usage;
        self.processor_usage_with_children = usage_with_children;
        self.rss = rss;
        self.pid = pid;
        Ok(())
    }
}

/// Creates a tracked process from its first sample and identity record.
///
/// No previous sample exists yet, so both ratios are exactly zero.
pub fn new(
    stat: ProcessStat,
    processor_stat: processor::ProcessStat,
    core_count: usize,
    rss: String,
    pid: String,
) -> (p: Process)
    requires
        stat.wf(),
        processor_stat.wf(),
        core_count <= CORE_LIMIT,
    ensures
        p.wf(),
        p.processor_usage == Usage::spec_zero(),
        p.processor_usage_with_children == Usage::spec_zero(),
        p.last_sample is None,
        p.latest_sample == (ProcessSample { stat, processor_stat, core_count }),
        p.rss == rss,
        p.pid == pid,
{
    Process {
        processor_usage_with_children: Usage::zero(),
        processor_usage: Usage::zero(),
        rss,
        pid,
        last_sample: None,
        latest_sample: ProcessSample { stat, processor_stat, core_count },
    }
}

/// One raw tick field of the per-process counter record: a digit string
/// whose value is at most [`FIELD_LIMIT`].
pub open spec fn ptick_of(t: Seq<char>) -> Option<u64> {
    match parse_u64_of(t) {
        Some(v) => if v <= FIELD_LIMIT {
            Some(v)
        } else {
            None
        },
        None => None,
    }
}

/// Runtime check of [`ptick_of`].
fn parse_ptick(t: &str) -> (r: Option<u64>)
    ensures
        r == ptick_of(t@),
{
    match parse_u64(t) {
        Some(v) => if v <= FIELD_LIMIT {
            Some(v)
        } else {
            None
        },
        None => None,
    }
}

/// What the per-process counter record encodes: its whitespace-delimited
/// fields carry the four cumulative tick counters at fixed positions.
pub open spec fn spec_parse_process_stat(content: Seq<char>) -> Result<ProcessStat, SysError> {
    let f = fields_of(content);
    if f.len() >= 17 {
        match (ptick_of(f[13]), ptick_of(f[14]), ptick_of(f[15]), ptick_of(f[16])) {
            (Some(utime), Some(stime), Some(cutime), Some(cstime)) => Ok(
                ProcessStat { utime, stime, cutime, cstime },
            ),
            _ => Err(SysError::MalformedData),
        }
    } else {
        Err(SysError::MalformedData)
    }
}

/// Parses the per-process counter record.
///
/// Fails with `MalformedData` when the record has too few fields or a tick
/// field is not a number within [`FIELD_LIMIT`].
pub fn parse_process_stat(content: &str) -> (r: Result<ProcessStat, SysError>)
    ensures
        r == spec_parse_process_stat(content@),
        r matches Ok(st) ==> st.wf(),
{
    let f = fields(content);
    if f.len() < 17 {
        return Err(SysError::MalformedData);
    }
    proof {
        assert(f[13]@ == f.deep_view()[13]);
        assert(f[14]@ == f.deep_view()[14]);
        assert(f[15]@ == f.deep_view()[15]);
        assert(f[16]@ == f.deep_view()[16]);
    }
    let utime = parse_ptick(f[13]);
    let stime = parse_ptick(f[14]);
    let cutime = parse_ptick(f[15]);
    let cstime = parse_ptick(f[16]);
    match (utime, stime, cutime, cstime) {
        (Some(utime), Some(stime), Some(cutime), Some(cstime)) => Ok(
            ProcessStat { utime, stime, cutime, cstime },
        ),
        _ => Err(SysError::MalformedData),
    }
}

/// How one identity-record line changes the pair (resident-set size,
/// resolved process id): the key before the first colon decides, the
/// trimmed value after it is taken, and every other line is ignored.
pub open spec fn rss_pid_step(acc: (Seq<char>, Seq<char>), line: Seq<char>) -> (Seq<char>, Seq<
    char,
>) {
    let parts = colon_parts_of(line);
    let k = trim_of(parts[0]);
    let v = if parts.len() >= 2 {
        trim_of(parts[1])
    } else {
        Seq::<char>::empty()
    };
    if k == "VmRSS"@ {
        (kb_stripped(v), acc.1)
    } else if k == "Pid"@ {
        (acc.0, v)
    } else {
        acc
    }
}

/// The pair (resident-set size, resolved process id) encoded by the lines
/// of an identity record; absent keys leave empty values.
pub open spec fn rss_pid_of_lines(ls: Seq<Seq<char>>) -> (Seq<char>, Seq<char>)
    decreases ls.len(),
{
    if ls.len() == 0 {
        (Seq::<char>::empty(), Seq::<char>::empty())
    } else {
        rss_pid_step(rss_pid_of_lines(ls.drop_last()), ls.last())
    }
}

/// What parsing a whole identity record yields.
pub open spec fn spec_parse_rss_pid(content: Seq<char>) -> (Seq<char>, Seq<char>) {
    rss_pid_of_lines(lines_of(content))
}

/// Parses the process identity record into the resident-set size (in
/// kilobytes, unit suffix removed) and the resolved numeric process id,
/// both as reported text. A key that never occurs leaves its value empty.
pub fn parse_rss_pid(content: &str) -> (r: (String, String))
    ensures
        (r.0@, r.1@) == spec_parse_rss_pid(content@),
{
    let lines = split_lines(content);
    let ghost ls = lines.deep_view();
    let mut rss = String::new();
    let mut pid = String::new();
    let mut i: usize = 0;
    proof {
        assert(ls.take(0) =~= Seq::<Seq<char>>::empty());
    }
    while i < lines.len()
        invariant
            i <= lines@.len(),
            ls == lines.deep_view(),
            ls == lines_of(content@),
            ls.len() == lines@.len(),
            (rss@, pid@) == rss_pid_of_lines(ls.take(i as int)),
        decreases lines@.len() - i,
    {
        let line = lines[i];
        proof {
            assert(line@ == ls[i as int]);
            assert(ls.take(i + 1).drop_last() =~= ls.take(i as int));
            assert(ls.take(i + 1).last() == ls[i as int]);
        }
        let parts = split_colon(line);
        proof {
            crate::text::lemma_split_if_len(line@, |c: char| c == ':');
            assert(parts[0]@ == parts.deep_view()[0]);
        }
        let k = trim(parts[0]);
        if str_eq(k, "VmRSS") {
            if parts.len() >= 2 {
                proof {
                    assert(parts[1]@ == parts.deep_view()[1]);
                }
                let v = trim(parts[1]);
                rss = strip_suffix(v, " kB").to_owned();
            } else {
                rss = String::new();
            }
        } else if str_eq(k, "Pid") {
            if parts.len() >= 2 {
                proof {
                    assert(parts[1]@ == parts.deep_view()[1]);
                }
                let v = trim(parts[1]);
                pid = v.to_owned();
            } else {
                pid = String::new();
            }
        }
        i = i + 1;
    }
    proof {
        assert(ls.take(lines@.len() as int) =~= ls);
    }
    (rss, pid)
}

} // verus!
