//! Processor-time samples and the stateful utilization delta computation.
//!
//! A raw sample holds nine cumulative counters and their sum. The tracker
//! keeps the previous sample across sampling ticks; two consecutive samples
//! are consumed to produce one utilization breakdown, held as the nine
//! counter deltas together with the total delta (the percentage of a counter
//! is one hundred times its delta divided by the total delta).

use vstd::prelude::*;

use crate::text::parse_u64;
use crate::text::spec_lines;
use crate::text::spec_parse_u64;
use crate::text::split_ws;
use crate::text::str_eq;
use crate::text::str_lines;
use crate::text::ws_tokens;

verus! {

/// One cumulative processor-time sample: nine counters plus their sum.
#[derive(Clone, Copy, PartialEq, Eq, Structural, Debug)]
pub struct CpuRaw {
    pub user: u64,
    pub nice: u64,
    pub system: u64,
    pub idle: u64,
    pub iowait: u64,
    pub irq: u64,
    pub soft_irq: u64,
    pub steal: u64,
    pub guest: u64,
    pub total: u64,
}

/// A utilization breakdown: the nine counter deltas of one tick plus the
/// total delta. The percentage of a counter is `100 * delta / total`; before
/// any total delta exists all fields are zero.
#[derive(Clone, Copy, PartialEq, Eq, Structural, Debug)]
pub struct CpuInfo {
    pub user: u64,
    pub nice: u64,
    pub system: u64,
    pub idle: u64,
    pub iowait: u64,
    pub irq: u64,
    pub soft_irq: u64,
    pub steal: u64,
    pub guest: u64,
    pub total: u64,
}

impl CpuRaw {
    /// The all-zero sample.
    pub open spec fn zero() -> CpuRaw {
        CpuRaw {
            user: 0,
            nice: 0,
            system: 0,
            idle: 0,
            iowait: 0,
            irq: 0,
            soft_irq: 0,
            steal: 0,
            guest: 0,
            total: 0,
        }
    }

    /// The sample's total is the sum of its nine counters.
    pub open spec fn wf(self) -> bool {
        self.total == self.user + self.nice + self.system + self.idle + self.iowait + self.irq
            + self.soft_irq + self.steal + self.guest
    }

    /// A fresh all-zero sample.
    pub fn new() -> (r: CpuRaw)
        ensures
            r == CpuRaw::zero(),
    {
        CpuRaw {
            user: 0,
            nice: 0,
            system: 0,
            idle: 0,
            iowait: 0,
            irq: 0,
            soft_irq: 0,
            steal: 0,
            guest: 0,
            total: 0,
        }
    }
}

impl Default for CpuRaw {
    fn default() -> (r: CpuRaw)
        ensures
            r == CpuRaw::zero(),
    {
        CpuRaw::new()
    }
}

impl CpuInfo {
    /// The all-zero breakdown.
    pub open spec fn zero() -> CpuInfo {
        CpuInfo {
            user: 0,
            nice: 0,
            system: 0,
            idle: 0,
            iowait: 0,
            irq: 0,
            soft_irq: 0,
            steal: 0,
            guest: 0,
            total: 0,
        }
    }

    /// A fresh all-zero breakdown.
    pub fn new() -> (r: CpuInfo)
        ensures
            r == CpuInfo::zero(),
    {
        CpuInfo {
            user: 0,
            nice: 0,
            system: 0,
            idle: 0,
            iowait: 0,
            irq: 0,
            soft_irq: 0,
            steal: 0,
            guest: 0,
            total: 0,
        }
    }
}

impl Default for CpuInfo {
    fn default() -> (r: CpuInfo)
        ensures
            r == CpuInfo::zero(),
    {
        CpuInfo::new()
    }
}

/// The percentage that `part` makes of `total`, in hundredths of a percent;
/// zero when no total exists.
pub fn pct_hundredths(part: u64, total: u64) -> (r: u64)
    requires
        part <= total,
    ensures
        total > 0 ==> r == part as int * 10000 / total as int,
        total == 0 ==> r == 0,
{
    if total == 0 {
        0
    } else {
        let x: u128 = (part as u128) * 10000 / (total as u128);
        proof {
            vstd::arithmetic::div_mod::lemma_div_is_ordered(
                part as int * 10000,
                total as int * 10000,
                total as int,
            );
            vstd::arithmetic::div_mod::lemma_div_multiples_vanish(10000, total as int);
        }
        x as u64
    }
}

// ------------------------------------------------------------------
// parsing one processor-accounting line
// ------------------------------------------------------------------

/// The numeric value of token `i`, or `prev` when the token is absent or not
/// numeric.
pub open spec fn field_or(fields: Seq<Seq<char>>, i: int, prev: u64) -> u64 {
    if 0 <= i < fields.len() && spec_parse_u64(fields[i]) is Some {
        spec_parse_u64(fields[i]).unwrap()
    } else {
        prev
    }
}

/// Sum of the numeric values among tokens `1` through `upto - 1`.
pub open spec fn parsed_sum(fields: Seq<Seq<char>>, upto: int) -> int
    decreases upto,
{
    if upto <= 1 {
        0
    } else {
        parsed_sum(fields, upto - 1) + (if upto - 1 < fields.len() && spec_parse_u64(
            fields[upto - 1],
        ) is Some {
            spec_parse_u64(fields[upto - 1]).unwrap() as int
        } else {
            0
        })
    }
}

pub proof fn lemma_parsed_sum_monotone(fields: Seq<Seq<char>>, i: int, j: int)
    requires
        i <= j,
    ensures
        parsed_sum(fields, i) <= parsed_sum(fields, j),
    decreases j - i,
{
    if i < j {
        lemma_parsed_sum_monotone(fields, i, j - 1);
    }
}

/// Fills `cpu` from the whitespace tokens of a processor-accounting line:
/// tokens one through nine set the nine counters positionally, a non-numeric
/// token leaving its counter unchanged, and the sum of the numeric values is
/// added to the running total.
pub fn parse_cpu(fields: &Vec<&str>, cpu: &mut CpuRaw)
    requires
        old(cpu).total + parsed_sum(fields.deep_view(), 10) <= u64::MAX,
    ensures
        final(cpu).user == field_or(fields.deep_view(), 1, old(cpu).user),
        final(cpu).nice == field_or(fields.deep_view(), 2, old(cpu).nice),
        final(cpu).system == field_or(fields.deep_view(), 3, old(cpu).system),
        final(cpu).idle == field_or(fields.deep_view(), 4, old(cpu).idle),
        final(cpu).iowait == field_or(fields.deep_view(), 5, old(cpu).iowait),
        final(cpu).irq == field_or(fields.deep_view(), 6, old(cpu).irq),
        final(cpu).soft_irq == field_or(fields.deep_view(), 7, old(cpu).soft_irq),
        final(cpu).steal == field_or(fields.deep_view(), 8, old(cpu).steal),
        final(cpu).guest == field_or(fields.deep_view(), 9, old(cpu).guest),
        final(cpu).total == old(cpu).total + parsed_sum(fields.deep_view(), 10),
{
    let ghost f = fields.deep_view();
    let ghost cpu0 = *cpu;
    let n = fields.len();
    let mut i: usize = 1;
    while i < 10
        invariant
            1 <= i <= 10,
            n == fields@.len(),
            f == fields.deep_view(),
            cpu0.total + parsed_sum(f, 10) <= u64::MAX,
            cpu.user == (if i > 1 { field_or(f, 1, cpu0.user) } else { cpu0.user }),
            cpu.nice == (if i > 2 { field_or(f, 2, cpu0.nice) } else { cpu0.nice }),
            cpu.system == (if i > 3 { field_or(f, 3, cpu0.system) } else { cpu0.system }),
            cpu.idle == (if i > 4 { field_or(f, 4, cpu0.idle) } else { cpu0.idle }),
            cpu.iowait == (if i > 5 { field_or(f, 5, cpu0.iowait) } else { cpu0.iowait }),
            cpu.irq == (if i > 6 { field_or(f, 6, cpu0.irq) } else { cpu0.irq }),
            cpu.soft_irq == (if i > 7 { field_or(f, 7, cpu0.soft_irq) } else { cpu0.soft_irq }),
            cpu.steal == (if i > 8 { field_or(f, 8, cpu0.steal) } else { cpu0.steal }),
            cpu.guest == (if i > 9 { field_or(f, 9, cpu0.guest) } else { cpu0.guest }),
            cpu.total == cpu0.total + parsed_sum(f, i as int),
        decreases 10 - i,
    {
        proof {
            lemma_parsed_sum_monotone(f, i as int + 1, 10);
        }
        if i < n {
            let tok = fields[i];
            proof {
                assert(f[i as int] == tok@);
            }
            match parse_u64(tok) {
                Some(val) => {
                    cpu.total = cpu.total + val;
                    if i == 1 {
                        cpu.user = val;
                    } else if i == 2 {
                        cpu.nice = val;
                    } else if i == 3 {
                        cpu.system = val;
                    } else if i == 4 {
                        cpu.idle = val;
                    } else if i == 5 {
                        cpu.iowait = val;
                    } else if i == 6 {
                        cpu.irq = val;
                    } else if i == 7 {
                        cpu.soft_irq = val;
                    } else if i == 8 {
                        cpu.steal = val;
                    } else {
                        cpu.guest = val;
                    }
                },
                None => {},
            }
        }
        i = i + 1;
    }
}

/// The raw sample read from the whitespace tokens of an aggregate
/// processor-accounting line, starting from a zero sample.
pub open spec fn spec_cpu_sample(fields: Seq<Seq<char>>) -> CpuRaw {
    CpuRaw {
        user: field_or(fields, 1, 0),
        nice: field_or(fields, 2, 0),
        system: field_or(fields, 3, 0),
        idle: field_or(fields, 4, 0),
        iowait: field_or(fields, 5, 0),
        irq: field_or(fields, 6, 0),
        soft_irq: field_or(fields, 7, 0),
        steal: field_or(fields, 8, 0),
        guest: field_or(fields, 9, 0),
        total: parsed_sum(fields, 10) as u64,
    }
}

/// Builds the raw sample of a tokenized processor line, rejecting a line
/// whose numeric tokens sum beyond the counter width.
pub fn cpu_sample(fields: &Vec<&str>) -> (r: Option<CpuRaw>)
    ensures
        parsed_sum(fields.deep_view(), 10) <= u64::MAX ==> r == Some(
            spec_cpu_sample(fields.deep_view()),
        ),
        parsed_sum(fields.deep_view(), 10) > u64::MAX ==> r is None,
{
    let ghost f = fields.deep_view();
    let n = fields.len();
    let mut total: u128 = 0;
    let mut i: usize = 1;
    while i < 10
        invariant
            1 <= i <= 10,
            n == fields@.len(),
            f == fields.deep_view(),
            total == parsed_sum(f, i as int),
            total <= (i as u128 - 1) * 18446744073709551615u128,
        decreases 10 - i,
    {
        if i < n {
            let tok = fields[i];
            proof {
                assert(f[i as int] == tok@);
            }
            match parse_u64(tok) {
                Some(val) => {
                    total = total + val as u128;
                },
                None => {},
            }
        }
        i = i + 1;
    }
    if total > u64::MAX as u128 {
        return None;
    }
    let mut cpu = CpuRaw::new();
    parse_cpu(fields, &mut cpu);
    Some(cpu)
}

/// The tokens of the first line from `i` on whose first whitespace token is
/// exactly `cpu` (the aggregate line, not a per-core line).
pub open spec fn find_cpu_fields(ls: Seq<Seq<char>>, i: int) -> Option<Seq<Seq<char>>>
    decreases ls.len() - i,
{
    if i < 0 || i >= ls.len() {
        None
    } else if split_ws(ls[i]).len() > 0 && split_ws(ls[i])[0] == "cpu"@ {
        Some(split_ws(ls[i]))
    } else {
        find_cpu_fields(ls, i + 1)
    }
}

/// The raw sample the whole processor report yields: the first aggregate
/// line, parsed, when there is one and its numeric tokens' sum fits.
pub open spec fn spec_report_sample(text: Seq<char>) -> Option<CpuRaw> {
    match find_cpu_fields(spec_lines(text), 0) {
        Some(t) => if parsed_sum(t, 10) <= u64::MAX {
            Some(spec_cpu_sample(t))
        } else {
            None
        },
        None => None,
    }
}

/// Scans a processor report for the aggregate line and builds its raw sample.
pub fn extract_cpu_sample(text: &str) -> (r: Option<CpuRaw>)
    ensures
        r == spec_report_sample(text@),
{
    let ghost ls = spec_lines(text@);
    let lines = str_lines(text);
    let mut li: usize = 0;
    while li < lines.len()
        invariant
            ls == spec_lines(text@),
            lines.deep_view() == ls,
            li <= lines@.len(),
            find_cpu_fields(ls, li as int) == find_cpu_fields(ls, 0),
        decreases lines@.len() - li,
    {
        let line = lines[li];
        proof {
            assert(ls[li as int] == line@);
        }
        let toks = ws_tokens(line);
        let ghost t = split_ws(line@);
        proof {
            assert(toks.deep_view() == t);
            if toks@.len() > 0 {
                assert(t[0] == toks@[0]@);
            }
        }
        if toks.len() > 0 && str_eq(toks[0], "cpu") {
            proof {
                assert(find_cpu_fields(ls, li as int) == Some(t));
            }
            return cpu_sample(&toks);
        }
        li = li + 1;
    }
    None
}

// ------------------------------------------------------------------
// the delta tracker
// ------------------------------------------------------------------

/// Each counter of `c`, and the total, is at least that of `p`.
pub open spec fn ge_fieldwise(c: CpuRaw, p: CpuRaw) -> bool {
    &&& c.user >= p.user
    &&& c.nice >= p.nice
    &&& c.system >= p.system
    &&& c.idle >= p.idle
    &&& c.iowait >= p.iowait
    &&& c.irq >= p.irq
    &&& c.soft_irq >= p.soft_irq
    &&& c.steal >= p.steal
    &&& c.guest >= p.guest
    &&& c.total >= p.total
}

/// The utilization breakdown of two consecutive samples: counter deltas over
/// the total delta, or all zero when the total did not advance or a counter
/// regressed.
pub open spec fn spec_delta(p: CpuRaw, c: CpuRaw) -> CpuInfo {
    if c.total > p.total && ge_fieldwise(c, p) {
        CpuInfo {
            user: (c.user - p.user) as u64,
            nice: (c.nice - p.nice) as u64,
            system: (c.system - p.system) as u64,
            idle: (c.idle - p.idle) as u64,
            iowait: (c.iowait - p.iowait) as u64,
            irq: (c.irq - p.irq) as u64,
            soft_irq: (c.soft_irq - p.soft_irq) as u64,
            steal: (c.steal - p.steal) as u64,
            guest: (c.guest - p.guest) as u64,
            total: (c.total - p.total) as u64,
        }
    } else {
        CpuInfo::zero()
    }
}

/// Executable mirror of `spec_delta`.
fn delta_info(p: &CpuRaw, c: &CpuRaw) -> (r: CpuInfo)
    ensures
        r == spec_delta(*p, *c),
{
    if c.total > p.total && c.user >= p.user && c.nice >= p.nice && c.system >= p.system
        && c.idle >= p.idle && c.iowait >= p.iowait && c.irq >= p.irq && c.soft_irq >= p.soft_irq
        && c.steal >= p.steal && c.guest >= p.guest {
        CpuInfo {
            user: c.user - p.user,
            nice: c.nice - p.nice,
            system: c.system - p.system,
            idle: c.idle - p.idle,
            iowait: c.iowait - p.iowait,
            irq: c.irq - p.irq,
            soft_irq: c.soft_irq - p.soft_irq,
            steal: c.steal - p.steal,
            guest: c.guest - p.guest,
            total: c.total - p.total,
        }
    } else {
        CpuInfo::new()
    }
}

/// Two-state machine carrying the previous raw sample across sampling ticks:
/// uninitialized while no sample was ever seen, then primed with exactly the
/// last sample.
pub struct CpuDeltaTracker {
    pub prev: Option<CpuRaw>,
}

impl CpuDeltaTracker {
    /// A tracker that has seen no sample.
    pub fn new() -> (r: CpuDeltaTracker)
        ensures
            r.prev is None,
    {
        CpuDeltaTracker { prev: None }
    }

    /// Feeds one raw sample. The first sample ever primes the tracker and
    /// yields no breakdown; afterwards each sample replaces the held one and
    /// yields the breakdown of the two.
    pub fn observe(&mut self, sample: CpuRaw) -> (r: Option<CpuInfo>)
        ensures
            final(self).prev == Some(sample),
            old(self).prev is None ==> r is None,
            old(self).prev matches Some(p) ==> r == Some(spec_delta(p, sample)),
    {
        let r = match &self.prev {
            None => None,
            Some(p) => Some(delta_info(p, &sample)),
        };
        self.prev = Some(sample);
        r
    }
}

impl Default for CpuDeltaTracker {
    fn default() -> (r: CpuDeltaTracker)
        ensures
            r.prev is None,
    {
        CpuDeltaTracker::new()
    }
}

// ------------------------------------------------------------------
// laws
// ------------------------------------------------------------------

/// For two well-formed samples whose counters did not regress and whose total
/// advanced, the nine counter deltas sum exactly to the total delta: the nine
/// derived percentages `100 * delta / total_delta` sum to exactly one
/// hundred.
pub proof fn lemma_cpu_percentages_sum(p: CpuRaw, c: CpuRaw)
    requires
        p.wf(),
        c.wf(),
        ge_fieldwise(c, p),
        c.total > p.total,
    ensures
        ({
            let d = spec_delta(p, c);
            d.total > 0 && d.user + d.nice + d.system + d.idle + d.iowait + d.irq + d.soft_irq
                + d.steal + d.guest == d.total
        }),
{
}

/// Two identical raw samples yield the all-zero utilization breakdown rather
/// than a division failure.
pub proof fn lemma_identical_samples_zero(s: CpuRaw)
    ensures
        spec_delta(s, s) == CpuInfo::zero(),
{
}

} // verus!
