//! Per-core and aggregate processor accounting.
//!
//! A [`ProcessStat`] is one cumulative counter snapshot taken from the
//! kernel's accounting line for a core (or for the whole system). The engine
//! turns two snapshots of the same core into a normalized utilization ratio:
//! the share of elapsed counter time that was spent working, kept exact as a
//! rational number.

use vstd::prelude::*;

use crate::text::colon_parts_of;
use crate::text::fields_of;
use crate::text::has_prefix;
use crate::text::lines_of;
use crate::text::parse_u64_of;
use crate::text::trim_of;
use crate::text::fields;
use crate::text::parse_u64;
use crate::text::split_colon;
use crate::text::split_lines;
use crate::text::starts_with;
use crate::text::str_eq;
use crate::text::trim;
use crate::FIELD_LIMIT;
use crate::SysError;
use crate::Usage;

verus! {

/// One cumulative counter snapshot for a core or for the system aggregate:
/// scheduler ticks spent in each category since boot.
#[derive(Debug, Clone, Copy, PartialEq, Eq, Structural)]
pub struct ProcessStat {
    pub user: i64,
    pub nice: i64,
    pub system: i64,
    pub idle: i64,
    pub iowait: i64,
    pub irq: i64,
    pub softirq: i64,
}

impl ProcessStat {
    /// Validity of a snapshot: every category is a non-negative counter no
    /// larger than [`FIELD_LIMIT`], so that sums and deltas of snapshots fit
    /// comfortably in `i64`.
    pub open spec fn wf(self) -> bool {
        &&& 0 <= self.user && self.user <= FIELD_LIMIT as i64
        &&& 0 <= self.nice && self.nice <= FIELD_LIMIT as i64
        &&& 0 <= self.system && self.system <= FIELD_LIMIT as i64
        &&& 0 <= self.idle && self.idle <= FIELD_LIMIT as i64
        &&& 0 <= self.iowait && self.iowait <= FIELD_LIMIT as i64
        &&& 0 <= self.irq && self.irq <= FIELD_LIMIT as i64
        &&& 0 <= self.softirq && self.softirq <= FIELD_LIMIT as i64
    }

    /// Total elapsed counter time: the sum of all seven categories.
    pub open spec fn total(self) -> int {
        self.user as int + self.nice as int + self.system as int + self.idle as int
            + self.iowait as int + self.irq as int + self.softirq as int
    }

    /// Busy counter time: the total excluding idle and io-wait.
    pub open spec fn work(self) -> int {
        self.user as int + self.nice as int + self.system as int + self.irq as int
            + self.softirq as int
    }

    /// Counter monotonicity between two snapshots of the same core: every
    /// category of `self` is at most the matching category of `other`. This
    /// is the model invariant of cumulative counters read at increasing
    /// times; a violation means the counter was reset.
    pub open spec fn le(self, other: ProcessStat) -> bool {
        &&& self.user <= other.user
        &&& self.nice <= other.nice
        &&& self.system <= other.system
        &&& self.idle <= other.idle
        &&& self.iowait <= other.iowait
        &&& self.irq <= other.irq
        &&& self.softirq <= other.softirq
    }

    /// Runtime check of [`ProcessStat::le`].
    pub fn le_check(&self, other: &ProcessStat) -> (r: bool)
        ensures
            r == self.le(*other),
    {
        self.user <= other.user && self.nice <= other.nice && self.system <= other.system
            && self.idle <= other.idle && self.iowait <= other.iowait && self.irq <= other.irq
            && self.softirq <= other.softirq
    }

    /// Runtime check of [`ProcessStat::wf`].
    pub fn wf_check(&self) -> (r: bool)
        ensures
            r == self.wf(),
    {
        let lim = FIELD_LIMIT as i64;
        0 <= self.user && self.user <= lim && 0 <= self.nice && self.nice <= lim
            && 0 <= self.system && self.system <= lim && 0 <= self.idle && self.idle <= lim
            && 0 <= self.iowait && self.iowait <= lim && 0 <= self.irq && self.irq <= lim
            && 0 <= self.softirq && self.softirq <= lim
    }

    /// The total elapsed counter time of this snapshot.
    pub fn get_total(&self) -> (r: i64)
        requires
            self.wf(),
        ensures
            r as int == self.total(),
    {
        self.user + self.nice + self.system + self.idle + self.iowait + self.irq + self.softirq
    }

    /// The busy counter time of this snapshot (total excluding idle and
    /// io-wait).
    pub fn get_work(&self) -> (r: i64)
        requires
            self.wf(),
        ensures
            r as int == self.work(),
    {
        self.user + self.nice + self.system + self.irq + self.softirq
    }
}

/// The ratio of busy time to elapsed time between two snapshots of one core.
///
/// An empty window (equal totals) is the exact zero ratio; otherwise the
/// ratio is `(work delta) / (total delta)`. For monotone snapshots the ratio
/// always lies between zero and one.
pub open spec fn usage_between(prev: ProcessStat, latest: ProcessStat) -> Usage {
    if latest.total() == prev.total() {
        Usage::spec_zero()
    } else {
        Usage {
            num: (latest.work() - prev.work()) as u64,
            den: (latest.total() - prev.total()) as u64,
        }
    }
}

/// The ratio reported for a core whose previous snapshot may be absent:
/// the very first sample of an entity always reports exactly zero.
pub open spec fn usage_after(prev: Option<ProcessStat>, latest: ProcessStat) -> Usage {
    match prev {
        None => Usage::spec_zero(),
        Some(p) => usage_between(p, latest),
    }
}

/// Computes the self-normalized utilization of one core from its previous
/// and latest snapshots.
///
/// The result is exact: an empty window yields the zero ratio with no
/// division, and a non-empty window yields `(work delta) / (total delta)`,
/// which never exceeds one.
pub fn core_usage(prev: &ProcessStat, latest: &ProcessStat) -> (u: Usage)
    requires
        prev.wf(),
        latest.wf(),
        prev.le(*latest),
    ensures
        u == usage_between(*prev, *latest),
        u.wf(),
        u.num <= u.den,
        latest.total() == prev.total() ==> u == Usage::spec_zero(),
        latest.total() > prev.total() ==> u.num as int == latest.work() - prev.work()
            && u.den as int == latest.total() - prev.total(),
{
    let prev_total = prev.get_total();
    let latest_total = latest.get_total();
    if latest_total == prev_total {
        Usage::zero()
    } else {
        let num = latest.get_work() - prev.get_work();
        let den = latest_total - prev_total;
        Usage { num: num as u64, den: den as u64 }
    }
}

/// A first sample has no previous snapshot to diff against, so it always
/// yields exactly the zero ratio.
pub proof fn lemma_first_sample_zero(latest: ProcessStat)
    ensures
        usage_after(None, latest) == Usage::spec_zero(),
{
}

/// The ratio between two valid, monotone snapshots of one core is always
/// defined and never exceeds one, and an empty window is exactly zero.
pub proof fn lemma_usage_between_bounds(prev: ProcessStat, latest: ProcessStat)
    requires
        prev.wf(),
        latest.wf(),
        prev.le(latest),
    ensures
        usage_between(prev, latest).wf(),
        usage_between(prev, latest).num <= usage_between(prev, latest).den,
        latest.total() == prev.total() ==> usage_between(prev, latest) == Usage::spec_zero(),
{
}

/// One tracked logical core: its static identity as the kernel reports it,
/// plus the previous and latest counter snapshots and the utilization ratio
/// computed from them.
///
/// `freq` and `cache_size` are kept as the textual fields of the static
/// per-core info record; callers that want a number parse them.
#[derive(Debug, Clone)]
pub struct Processor {
    pub index: i32,
    pub vendor_id: String,
    pub name: String,
    pub freq: String,
    pub cache_size: String,
    pub usage: Usage,
    pub last_stat: Option<ProcessStat>,
    pub latest_stat: ProcessStat,
}

/// Marker for a whole tracked processor set.
pub struct Processors {}

impl Processor {
    /// Validity of a tracked core: the index is a real core index, both
    /// snapshots (where present) are valid, and the stored ratio is defined.
    pub open spec fn wf(self) -> bool {
        &&& 0 <= self.index
        &&& self.latest_stat.wf()
        &&& match self.last_stat {
            Some(p) => p.wf(),
            None => true,
        }
        &&& self.usage.wf()
    }

    /// How one refresh changes a tracked core: the old latest snapshot
    /// becomes the previous one, `stat` becomes the latest, the ratio is
    /// recomputed from the pair, and the static identity is untouched.
    pub open spec fn refreshed(pre: Processor, post: Processor, stat: ProcessStat) -> bool {
        &&& post.last_stat == Some(pre.latest_stat)
        &&& post.latest_stat == stat
        &&& post.usage == usage_between(pre.latest_stat, stat)
        &&& post.index == pre.index
        &&& post.vendor_id == pre.vendor_id
        &&& post.name == pre.name
        &&& post.freq == pre.freq
        &&& post.cache_size == pre.cache_size
    }

    /// Refreshes one tracked core from a freshly parsed per-core snapshot
    /// list.
    ///
    /// Fails with `CountMismatch` when the list no longer has an entry for
    /// this core's index (the core count changed; the caller must
    /// re-enumerate), and with `MalformedData` when the new snapshot is not
    /// monotone over the stored one (the counters were reset). On failure
    /// the core is left unchanged.
    pub fn refresh(&mut self, stats: &Vec<ProcessStat>) -> (r: Result<(), SysError>)
        requires
            old(self).wf(),
            forall|i: int| 0 <= i < stats@.len() ==> (#[trigger] stats@[i]).wf(),
        ensures
            final(self).wf(),
            r is Ok <==> (old(self).index as int) < stats@.len() && old(self).latest_stat.le(
                stats@[old(self).index as int],
            ),
            r is Ok ==> Processor::refreshed(*old(self), *final(self), stats@[old(self).index as int]),
            r is Err ==> *final(self) == *old(self),
            r == Err::<(), SysError>(SysError::CountMismatch) <==> stats@.len()
                <= old(self).index as int,
            r == Err::<(), SysError>(SysError::MalformedData) <==> (old(self).index as int)
                < stats@.len() && !old(self).latest_stat.le(stats@[old(self).index as int]),
    {
        let idx = self.index as usize;
        if idx >= stats.len() {
            return Err(SysError::CountMismatch);
        }
        let stat = stats[idx];
        if !self.latest_stat.le_check(&stat) {
            return Err(SysError::MalformedData);
        }
        let u = core_usage(&self.latest_stat, &stat);
        self.last_stat = Some(self.latest_stat);
        self.latest_stat = stat;
        self.usage = u;
        Ok(())
    }
}

/// Refreshes a whole processor set from a freshly parsed per-core snapshot
/// list, shifting each core's latest snapshot to previous and recomputing
/// every ratio.
///
/// When the list length differs from the set's length the call fails with
/// `CountMismatch` and no core is touched, so a count change can never yield
/// a misaligned per-core result. A non-monotone snapshot fails the whole
/// call with `MalformedData`, again leaving every core unchanged.
pub fn refresh_all(processors: &mut Vec<Processor>, stats: &Vec<ProcessStat>) -> (r: Result<
    (),
    SysError,
>)
    requires
        forall|i: int| 0 <= i < old(processors)@.len() ==> (#[trigger] old(processors)@[i]).wf(),
        forall|i: int| 0 <= i < stats@.len() ==> (#[trigger] stats@[i]).wf(),
    ensures
        final(processors)@.len() == old(processors)@.len(),
        r is Ok <==> stats@.len() == old(processors)@.len() && (forall|i: int|
            0 <= i < old(processors)@.len() ==> (#[trigger] old(processors)@[i]).latest_stat.le(
                stats@[i],
            )),
        r is Ok ==> forall|i: int|
            0 <= i < old(processors)@.len() ==> Processor::refreshed(
                old(processors)@[i],
                #[trigger] final(processors)@[i],
                stats@[i],
            ) && final(processors)@[i].wf(),
        r is Err ==> *final(processors) == *old(processors),
        r == Err::<(), SysError>(SysError::CountMismatch) <==> stats@.len()
            != old(processors)@.len(),
        r == Err::<(), SysError>(SysError::MalformedData) <==> stats@.len()
            == old(processors)@.len() && !(forall|i: int|
            0 <= i < old(processors)@.len() ==> (#[trigger] old(processors)@[i]).latest_stat.le(
                stats@[i],
            )),
{
    let n = processors.len();
    if stats.len() != n {
        return Err(SysError::CountMismatch);
    }
    let mut i: usize = 0;
    while i < n
        invariant
            i <= n,
            n == processors@.len(),
            n == stats@.len(),
            *processors == *old(processors),
            forall|j: int| 0 <= j < stats@.len() ==> (#[trigger] stats@[j]).wf(),
            forall|j: int|
                0 <= j < i ==> (#[trigger] processors@[j]).latest_stat.le(stats@[j]),
            forall|j: int| 0 <= j < n ==> (#[trigger] processors@[j]).wf(),
        decreases n - i,
    {
        if !processors[i].latest_stat.le_check(&stats[i]) {
            return Err(SysError::MalformedData);
        }
        i += 1;
    }
    let ghost orig = processors@;
    let mut k: usize = 0;
    while k < n
        invariant
            k <= n,
            n == processors@.len(),
            n == stats@.len(),
            n == orig.len(),
            forall|j: int| 0 <= j < stats@.len() ==> (#[trigger] stats@[j]).wf(),
            forall|j: int| 0 <= j < n ==> (#[trigger] orig[j]).wf(),
            forall|j: int| 0 <= j < n ==> (#[trigger] orig[j]).latest_stat.le(stats@[j]),
            forall|j: int| k <= j < n ==> #[trigger] processors@[j] == orig[j],
            forall|j: int|
                0 <= j < k ==> Processor::refreshed(orig[j], #[trigger] processors@[j], stats@[j])
                    && processors@[j].wf(),
        decreases n - k,
    {
        let stat = stats[k];
        let u = core_usage(&processors[k].latest_stat, &stat);
        let p = &mut processors[k];
        p.last_stat = Some(p.latest_stat);
        p.latest_stat = stat;
        p.usage = u;
        k += 1;
    }
    Ok(())
}

/// One raw counter field: a digit string whose value is at most
/// [`FIELD_LIMIT`]. Anything else is malformed.
pub open spec fn tick_of(t: Seq<char>) -> Option<i64> {
    match parse_u64_of(t) {
        Some(v) => if v <= FIELD_LIMIT {
            Some(v as i64)
        } else {
            None
        },
        None => None,
    }
}

/// Runtime check of [`tick_of`].
fn parse_tick(t: &str) -> (r: Option<i64>)
    ensures
        r == tick_of(t@),
{
    match parse_u64(t) {
        Some(v) => if v <= FIELD_LIMIT {
            Some(v as i64)
        } else {
            None
        },
        None => None,
    }
}

/// Whether a counter line describes one core: its first field starts with
/// the aggregate tag but carries a core index after it.
pub open spec fn is_core_line(f: Seq<Seq<char>>) -> bool {
    f.len() > 0 && has_prefix(f[0], "cpu"@) && f[0] != "cpu"@
}

/// Whether a counter line is the system-wide aggregate: its first field is
/// the bare aggregate tag.
pub open spec fn is_total_line(f: Seq<Seq<char>>) -> bool {
    f.len() > 0 && f[0] == "cpu"@
}

/// The snapshot encoded by one counter line's fields: the seven categories
/// follow the tag. `None` when fields are missing or a field is malformed.
pub open spec fn stat_of_fields(f: Seq<Seq<char>>) -> Option<ProcessStat> {
    if f.len() >= 8 {
        match (tick_of(f[1]), tick_of(f[2]), tick_of(f[3]), tick_of(f[4]), tick_of(f[5]), tick_of(
            f[6],
        ), tick_of(f[7])) {
            (
                Some(user),
                Some(nice),
                Some(system),
                Some(idle),
                Some(iowait),
                Some(irq),
                Some(softirq),
            ) => Some(ProcessStat { user, nice, system, idle, iowait, irq, softirq }),
            _ => None,
        }
    } else {
        None
    }
}

/// Parses the seven counter fields of one core line.
fn parse_stat_fields(f: &Vec<&str>) -> (r: Option<ProcessStat>)
    ensures
        r == stat_of_fields(f.deep_view()),
        r matches Some(st) ==> st.wf(),
{
    if f.len() < 8 {
        return None;
    }
    let user = parse_tick(f[1]);
    let nice = parse_tick(f[2]);
    let system = parse_tick(f[3]);
    let idle = parse_tick(f[4]);
    let iowait = parse_tick(f[5]);
    let irq = parse_tick(f[6]);
    let softirq = parse_tick(f[7]);
    match (user, nice, system, idle, iowait, irq, softirq) {
        (
            Some(user),
            Some(nice),
            Some(system),
            Some(idle),
            Some(iowait),
            Some(irq),
            Some(softirq),
        ) => Some(ProcessStat { user, nice, system, idle, iowait, irq, softirq }),
        _ => None,
    }
}

/// The per-core snapshots encoded by a sequence of counter lines, in order:
/// every core line must parse, and lines of any other kind are ignored.
pub open spec fn core_stats_of_lines(ls: Seq<Seq<char>>) -> Result<Seq<ProcessStat>, SysError>
    decreases ls.len(),
{
    if ls.len() == 0 {
        Ok(Seq::<ProcessStat>::empty())
    } else {
        match core_stats_of_lines(ls.drop_last()) {
            Err(e) => Err(e),
            Ok(acc) => {
                let f = fields_of(ls.last());
                if is_core_line(f) {
                    match stat_of_fields(f) {
                        Some(st) => Ok(acc.push(st)),
                        None => Err(SysError::MalformedData),
                    }
                } else {
                    Ok(acc)
                }
            },
        }
    }
}

/// What parsing a whole system counter text yields: one snapshot per core
/// line of the trimmed text.
pub open spec fn spec_parse_processor_stats(content: Seq<char>) -> Result<
    Seq<ProcessStat>,
    SysError,
> {
    core_stats_of_lines(lines_of(trim_of(content)))
}

/// A malformed line poisons the whole parse.
proof fn lemma_core_stats_err_prefix(ls: Seq<Seq<char>>, i: int)
    requires
        0 <= i <= ls.len(),
        core_stats_of_lines(ls.take(i)) is Err,
    ensures
        core_stats_of_lines(ls) == core_stats_of_lines(ls.take(i)),
    decreases ls.len() - i,
{
    if i == ls.len() {
        assert(ls.take(i) =~= ls);
    } else {
        assert(ls.take(i + 1).drop_last() =~= ls.take(i));
        assert(ls.take(i + 1).last() == ls[i]);
        lemma_core_stats_err_prefix(ls, i + 1);
    }
}

/// Parses the system counter text into one snapshot per core line, in the
/// order the kernel reports them (the aggregate line is excluded).
///
/// Fails with `MalformedData` when a core line has fewer than seven counter
/// fields after its tag, or a field is not a number within [`FIELD_LIMIT`].
pub fn parse_processor_stats(content: &str) -> (r: Result<Vec<ProcessStat>, SysError>)
    ensures
        (match (r, spec_parse_processor_stats(content@)) {
            (Ok(v), Ok(s)) => v@ == s,
            (Err(e), Err(se)) => e == se,
            _ => false,
        }),
        r matches Ok(v) ==> forall|i: int| 0 <= i < v@.len() ==> (#[trigger] v@[i]).wf(),
{
    let trimmed = trim(content);
    let lines = split_lines(trimmed);
    let ghost ls = lines.deep_view();
    let mut out: Vec<ProcessStat> = Vec::new();
    let mut i: usize = 0;
    proof {
        assert(ls.take(0) =~= Seq::<Seq<char>>::empty());
    }
    while i < lines.len()
        invariant
            i <= lines@.len(),
            ls == lines.deep_view(),
            ls == lines_of(trim_of(content@)),
            ls.len() == lines@.len(),
            core_stats_of_lines(ls.take(i as int)) == Ok::<Seq<ProcessStat>, SysError>(out@),
            forall|j: int| 0 <= j < out@.len() ==> (#[trigger] out@[j]).wf(),
        decreases lines@.len() - i,
    {
        let line = lines[i];
        let f = fields(line);
        proof {
            assert(line@ == ls[i as int]);
            assert(ls.take(i + 1).drop_last() =~= ls.take(i as int));
            assert(ls.take(i + 1).last() == ls[i as int]);
        }
        if f.len() > 0 && starts_with(f[0], "cpu") && !str_eq(f[0], "cpu") {
            proof {
                assert(f[0]@ == f.deep_view()[0]);
                assert(is_core_line(fields_of(ls[i as int])));
            }
            match parse_stat_fields(&f) {
                Some(st) => {
                    out.push(st);
                },
                None => {
                    proof {
                        lemma_core_stats_err_prefix(ls, i + 1);
                    }
                    return Err(SysError::MalformedData);
                },
            }
        } else {
            proof {
                if f.deep_view().len() > 0 {
                    assert(f[0]@ == f.deep_view()[0]);
                }
                assert(!is_core_line(fields_of(ls[i as int])));
            }
        }
        i = i + 1;
    }
    proof {
        assert(ls.take(lines@.len() as int) =~= ls);
    }
    Ok(out)
}

/// The system-wide aggregate snapshot encoded by a sequence of counter
/// lines: the first line whose tag is the bare aggregate tag decides, and
/// `NotFound` is reported when no such line exists.
pub open spec fn total_stat_of_lines(ls: Seq<Seq<char>>) -> Result<ProcessStat, SysError>
    decreases ls.len(),
{
    if ls.len() == 0 {
        Err(SysError::NotFound)
    } else {
        let f = fields_of(ls[0]);
        if is_total_line(f) {
            match stat_of_fields(f) {
                Some(st) => Ok(st),
                None => Err(SysError::MalformedData),
            }
        } else {
            total_stat_of_lines(ls.drop_first())
        }
    }
}

/// What parsing a whole system counter text yields for the aggregate line.
pub open spec fn spec_parse_total_processor_stat(content: Seq<char>) -> Result<
    ProcessStat,
    SysError,
> {
    total_stat_of_lines(lines_of(trim_of(content)))
}

/// Parses the system counter text into the system-wide aggregate snapshot.
///
/// Fails with `NotFound` when no aggregate line exists, and with
/// `MalformedData` when the aggregate line itself does not parse.
pub fn parse_total_processor_stat(content: &str) -> (r: Result<ProcessStat, SysError>)
    ensures
        r == spec_parse_total_processor_stat(content@),
        r matches Ok(st) ==> st.wf(),
{
    let trimmed = trim(content);
    let lines = split_lines(trimmed);
    let ghost ls = lines.deep_view();
    let mut i: usize = 0;
    proof {
        assert(ls.skip(0) =~= ls);
    }
    while i < lines.len()
        invariant
            i <= lines@.len(),
            ls == lines.deep_view(),
            ls == lines_of(trim_of(content@)),
            ls.len() == lines@.len(),
            total_stat_of_lines(ls) == total_stat_of_lines(ls.skip(i as int)),
        decreases lines@.len() - i,
    {
        let line = lines[i];
        let f = fields(line);
        proof {
            assert(line@ == ls[i as int]);
            assert(ls.skip(i as int)[0] == ls[i as int]);
            assert(ls.skip(i as int).drop_first() =~= ls.skip(i + 1));
        }
        if f.len() > 0 && str_eq(f[0], "cpu") {
            proof {
                assert(f[0]@ == f.deep_view()[0]);
                assert(is_total_line(fields_of(ls[i as int])));
            }
            return match parse_stat_fields(&f) {
                Some(st) => Ok(st),
                None => Err(SysError::MalformedData),
            };
        }
        proof {
            if f.deep_view().len() > 0 {
                assert(f[0]@ == f.deep_view()[0]);
            }
            assert(!is_total_line(fields_of(ls[i as int])));
        }
        i = i + 1;
    }
    proof {
        assert(ls.skip(i as int) =~= Seq::<Seq<char>>::empty());
    }
    Err(SysError::NotFound)
}

/// The static identity of one core, as the kernel's per-core info text
/// reports it. `freq` and `cache_size` keep the textual field values.
#[derive(Debug, Clone)]
pub struct CpuInfo {
    pub index: i32,
    pub vendor_id: String,
    pub name: String,
    pub freq: String,
    pub cache_size: String,
}

/// The mathematical image of a [`CpuInfo`].
pub ghost struct CpuInfoV {
    pub index: int,
    pub vendor_id: Seq<char>,
    pub name: Seq<char>,
    pub freq: Seq<char>,
    pub cache_size: Seq<char>,
}

impl View for CpuInfo {
    type V = CpuInfoV;

    open spec fn view(&self) -> CpuInfoV {
        CpuInfoV {
            index: self.index as int,
            vendor_id: self.vendor_id@,
            name: self.name@,
            freq: self.freq@,
            cache_size: self.cache_size@,
        }
    }
}

impl DeepView for CpuInfo {
    type V = CpuInfoV;

    open spec fn deep_view(&self) -> CpuInfoV {
        self.view()
    }
}

/// A core record in the middle of being read: the fields seen so far, and
/// whether a core index line has been seen at all.
pub ghost struct CpuAcc {
    pub index: Option<int>,
    pub vendor_id: Seq<char>,
    pub name: Seq<char>,
    pub freq: Seq<char>,
    pub cache_size: Seq<char>,
}

/// The accumulator at the start of a paragraph: nothing seen.
pub open spec fn cpu_acc_empty() -> CpuAcc {
    CpuAcc {
        index: None,
        vendor_id: Seq::<char>::empty(),
        name: Seq::<char>::empty(),
        freq: Seq::<char>::empty(),
        cache_size: Seq::<char>::empty(),
    }
}

/// The matching of runtime accumulator fields to the ghost accumulator.
pub open spec fn cpu_acc_of(
    index: Option<i32>,
    vendor_id: Seq<char>,
    name: Seq<char>,
    freq: Seq<char>,
    cache_size: Seq<char>,
) -> CpuAcc {
    CpuAcc {
        index: match index {
            Some(x) => Some(x as int),
            None => None,
        },
        vendor_id,
        name,
        freq,
        cache_size,
    }
}

/// Ends a paragraph: a record is emitted only when a core index line was
/// seen, as paragraphs without one describe no core.
pub open spec fn cpu_flush(done: Seq<CpuInfoV>, acc: CpuAcc) -> Seq<CpuInfoV> {
    match acc.index {
        Some(ix) => done.push(
            CpuInfoV {
                index: ix,
                vendor_id: acc.vendor_id,
                name: acc.name,
                freq: acc.freq,
                cache_size: acc.cache_size,
            },
        ),
        None => done,
    }
}

/// How one info line changes the accumulator. Only lines of exactly one
/// colon count; the key decides the field, the trimmed value is stored, and
/// unknown keys are ignored. A core index that is not a number within
/// `i32` is malformed.
pub open spec fn cpuinfo_line_step(acc: CpuAcc, line: Seq<char>) -> Result<CpuAcc, SysError> {
    let parts = colon_parts_of(line);
    if parts.len() != 2 {
        Ok(acc)
    } else {
        let k = trim_of(parts[0]);
        let v = trim_of(parts[1]);
        if k == "processor"@ {
            match parse_u64_of(v) {
                Some(n) => if n <= i32::MAX {
                    Ok(CpuAcc { index: Some(n as int), ..acc })
                } else {
                    Err(SysError::MalformedData)
                },
                None => Err(SysError::MalformedData),
            }
        } else if k == "vendor_id"@ {
            Ok(CpuAcc { vendor_id: v, ..acc })
        } else if k == "model name"@ {
            Ok(CpuAcc { name: v, ..acc })
        } else if k == "cpu MHz"@ {
            Ok(CpuAcc { freq: v, ..acc })
        } else if k == "cache size"@ {
            Ok(CpuAcc { cache_size: v, ..acc })
        } else {
            Ok(acc)
        }
    }
}

/// Folds the info lines: blank lines end a paragraph, every other line
/// feeds the accumulator of the current paragraph.
pub open spec fn cpuinfo_fold(ls: Seq<Seq<char>>) -> Result<(Seq<CpuInfoV>, CpuAcc), SysError>
    decreases ls.len(),
{
    if ls.len() == 0 {
        Ok((Seq::<CpuInfoV>::empty(), cpu_acc_empty()))
    } else {
        match cpuinfo_fold(ls.drop_last()) {
            Err(e) => Err(e),
            Ok((done, acc)) => {
                let line = ls.last();
                if line.len() == 0 {
                    Ok((cpu_flush(done, acc), cpu_acc_empty()))
                } else {
                    match cpuinfo_line_step(acc, line) {
                        Ok(a) => Ok((done, a)),
                        Err(e) => Err(e),
                    }
                }
            },
        }
    }
}

/// What parsing a whole per-core info text yields: the core records of its
/// paragraphs, in order.
pub open spec fn spec_parse_cpuinfo(content: Seq<char>) -> Result<Seq<CpuInfoV>, SysError> {
    match cpuinfo_fold(lines_of(content)) {
        Ok((done, acc)) => Ok(cpu_flush(done, acc)),
        Err(e) => Err(e),
    }
}

/// A malformed line poisons the whole fold.
proof fn lemma_cpuinfo_err_prefix(ls: Seq<Seq<char>>, i: int)
    requires
        0 <= i <= ls.len(),
        cpuinfo_fold(ls.take(i)) is Err,
    ensures
        cpuinfo_fold(ls) == cpuinfo_fold(ls.take(i)),
    decreases ls.len() - i,
{
    if i == ls.len() {
        assert(ls.take(i) =~= ls);
    } else {
        assert(ls.take(i + 1).drop_last() =~= ls.take(i));
        lemma_cpuinfo_err_prefix(ls, i + 1);
    }
}

/// Parses the per-core info text into one record per described core, in
/// text order.
///
/// Fails with `MalformedData` when a core index field is not a number that
/// fits the index type.
pub fn parse_cpuinfo(content: &str) -> (r: Result<Vec<CpuInfo>, SysError>)
    ensures
        (match (r, spec_parse_cpuinfo(content@)) {
            (Ok(v), Ok(s)) => v.deep_view() == s,
            (Err(e), Err(se)) => e == se,
            _ => false,
        }),
        r matches Ok(v) ==> forall|i: int| 0 <= i < v@.len() ==> 0 <= (#[trigger] v@[i]).index,
{
    let lines = split_lines(content);
    let ghost ls = lines.deep_view();
    let mut out: Vec<CpuInfo> = Vec::new();
    let mut idx: Option<i32> = None;
    let mut vendor = String::new();
    let mut model = String::new();
    let mut freq = String::new();
    let mut cache = String::new();
    let mut i: usize = 0;
    proof {
        assert(ls.take(0) =~= Seq::<Seq<char>>::empty());
        assert(out.deep_view() =~= Seq::<CpuInfoV>::empty());
    }
    while i < lines.len()
        invariant
            i <= lines@.len(),
            ls == lines.deep_view(),
            ls == lines_of(content@),
            ls.len() == lines@.len(),
            cpuinfo_fold(ls.take(i as int)) == Ok::<(Seq<CpuInfoV>, CpuAcc), SysError>(
                (out.deep_view(), cpu_acc_of(idx, vendor@, model@, freq@, cache@)),
            ),
            idx matches Some(x) ==> 0 <= x,
            forall|j: int| 0 <= j < out@.len() ==> 0 <= (#[trigger] out@[j]).index,
        decreases lines@.len() - i,
    {
        let line = lines[i];
        proof {
            assert(line@ == ls[i as int]);
            assert(ls.take(i + 1).drop_last() =~= ls.take(i as int));
            assert(ls.take(i + 1).last() == ls[i as int]);
        }
        if line.is_empty() {
            let ghost pre = out.deep_view();
            if let Some(ix) = idx {
                out.push(
                    CpuInfo { index: ix, vendor_id: vendor, name: model, freq, cache_size: cache },
                );
                proof {
                    assert(out.deep_view() =~= pre.push(out@.last().deep_view()));
                }
            }
            idx = None;
            vendor = String::new();
            model = String::new();
            freq = String::new();
            cache = String::new();
        } else {
            let parts = split_colon(line);
            if parts.len() == 2 {
                proof {
                    assert(parts[0]@ == parts.deep_view()[0]);
                    assert(parts[1]@ == parts.deep_view()[1]);
                }
                let k = trim(parts[0]);
                let v = trim(parts[1]);
                if str_eq(k, "processor") {
                    match parse_u64(v) {
                        Some(n) => {
                            if n <= i32::MAX as u64 {
                                idx = Some(n as i32);
                            } else {
                                proof {
                                    lemma_cpuinfo_err_prefix(ls, i + 1);
                                }
                                return Err(SysError::MalformedData);
                            }
                        },
                        None => {
                            proof {
                                lemma_cpuinfo_err_prefix(ls, i + 1);
                            }
                            return Err(SysError::MalformedData);
                        },
                    }
                } else if str_eq(k, "vendor_id") {
                    vendor = v.to_owned();
                } else if str_eq(k, "model name") {
                    model = v.to_owned();
                } else if str_eq(k, "cpu MHz") {
                    freq = v.to_owned();
                } else if str_eq(k, "cache size") {
                    cache = v.to_owned();
                }
            }
        }
        i = i + 1;
    }
    proof {
        assert(ls.take(lines@.len() as int) =~= ls);
    }
    let ghost pre = out.deep_view();
    if let Some(ix) = idx {
        out.push(CpuInfo { index: ix, vendor_id: vendor, name: model, freq, cache_size: cache });
        proof {
            assert(out.deep_view() =~= pre.push(out@.last().deep_view()));
        }
    }
    Ok(out)
}

/// How a freshly enumerated core is initialized from its identity record
/// and first snapshot: no previous snapshot, and a ratio of exactly zero.
pub open spec fn initialized(info: CpuInfo, stat: ProcessStat, p: Processor) -> bool {
    &&& p.index == info.index
    &&& p.vendor_id == info.vendor_id
    &&& p.name == info.name
    &&& p.freq == info.freq
    &&& p.cache_size == info.cache_size
    &&& p.usage == Usage::spec_zero()
    &&& p.last_stat is None
    &&& p.latest_stat == stat
}

/// Builds a tracked processor set from the enumerated core records and the
/// first per-core snapshot list, pairing them by position.
///
/// Fails with `CountMismatch` when the two enumerations disagree on the
/// core count.
pub fn new(infos: Vec<CpuInfo>, stats: Vec<ProcessStat>) -> (r: Result<Vec<Processor>, SysError>)
    requires
        forall|i: int| 0 <= i < stats@.len() ==> (#[trigger] stats@[i]).wf(),
        forall|i: int| 0 <= i < infos@.len() ==> 0 <= (#[trigger] infos@[i]).index,
    ensures
        r is Ok <==> infos@.len() == stats@.len(),
        r is Err ==> r == Err::<Vec<Processor>, SysError>(SysError::CountMismatch),
        r matches Ok(v) ==> v@.len() == infos@.len() && (forall|i: int|
            0 <= i < v@.len() ==> initialized(infos@[i], stats@[i], #[trigger] v@[i])
                && v@[i].wf()),
{
    if infos.len() != stats.len() {
        return Err(SysError::CountMismatch);
    }
    let ghost orig = infos@;
    let mut rest = infos;
    let mut v: Vec<Processor> = Vec::new();
    proof {
        assert(rest@ =~= orig.skip(0));
    }
    while rest.len() > 0
        invariant
            v@.len() + rest@.len() == orig.len(),
            orig.len() == stats@.len(),
            rest@ == orig.skip(v@.len() as int),
            forall|i: int| 0 <= i < stats@.len() ==> (#[trigger] stats@[i]).wf(),
            forall|i: int| 0 <= i < orig.len() ==> 0 <= (#[trigger] orig[i]).index,
            forall|i: int|
                0 <= i < v@.len() ==> initialized(orig[i], stats@[i], #[trigger] v@[i])
                    && v@[i].wf(),
        decreases rest@.len(),
    {
        let k = v.len();
        let info = rest.remove(0);
        proof {
            assert(info == orig[k as int]);
            assert(rest@ =~= orig.skip(k as int + 1));
        }
        let stat = stats[k];
        v.push(
            Processor {
                index: info.index,
                vendor_id: info.vendor_id,
                name: info.name,
                freq: info.freq,
                cache_size: info.cache_size,
                usage: Usage::zero(),
                last_stat: None,
                latest_stat: stat,
            },
        );
    }
    Ok(v)
}

} // verus!
