//! The snapshot carried between sampling ticks and the extractors that apply
//! one command's output to it.
//!
//! Every extractor is best-effort: output whose shape is not the expected one
//! updates nothing and leaves the previous value standing, so one malformed
//! or missing report never disturbs the other metrics.

use vstd::prelude::*;

use crate::cpu::extract_cpu_sample;
use crate::cpu::spec_delta;
use crate::cpu::spec_report_sample;
use crate::cpu::CpuDeltaTracker;
use crate::cpu::CpuInfo;
use crate::format::format_uptime_parts;
use crate::format::spec_format_uptime;
use crate::fs::extract_fs;
use crate::fs::fs_scan;
use crate::fs::FileSystemInfo;
use crate::fs::FsView;
use crate::net::apply_addr_lines;
use crate::net::apply_counter_lines;
use crate::net::InterfaceRegistry;
use crate::net::NetIntfView;
use crate::text::all_digits;
use crate::text::char_fields;
use crate::text::digit_val;
use crate::text::is_digit;
use crate::text::is_digit_char;
use crate::text::parse_u64;
use crate::text::spec_lines;
use crate::text::spec_parse_u64;
use crate::text::spec_trim_end;
use crate::text::split_at_char;
use crate::text::split_ws;
use crate::text::str_eq;
use crate::text::str_lines;
use crate::text::trim_end;
use crate::text::ws_tokens;

verus! {

/// Uptime as whole seconds plus hundredths of a second.
#[derive(Clone, Copy, PartialEq, Eq, Structural, Debug)]
pub struct Uptime {
    pub secs: u64,
    pub centis: u64,
}

impl Uptime {
    /// The fractional part holds fewer than one hundred hundredths.
    pub open spec fn wf(self) -> bool {
        self.centis < 100
    }
}

/// Hundredths read from the leading fraction digits: the first two digits,
/// the sole digit scaled by ten, or zero for an empty fraction.
pub open spec fn frac_centis(f: Seq<char>) -> u64 {
    if f.len() == 0 {
        0
    } else if f.len() == 1 {
        (digit_val(f[0]) * 10) as u64
    } else {
        (digit_val(f[0]) * 10 + digit_val(f[1])) as u64
    }
}

/// What parsing an uptime token yields: one or more digits, optionally
/// followed by a point and further digits; whole seconds plus the leading
/// fraction digits as hundredths. Any other shape is rejected.
pub open spec fn spec_parse_uptime(tok: Seq<char>) -> Option<Uptime> {
    let parts = split_at_char(tok, '.');
    if parts.len() == 1 && spec_parse_u64(parts[0]) is Some {
        Some(Uptime { secs: spec_parse_u64(parts[0]).unwrap(), centis: 0 })
    } else if parts.len() == 2 && all_digits(parts[1]) && spec_parse_u64(parts[0]) is Some {
        Some(Uptime { secs: spec_parse_u64(parts[0]).unwrap(), centis: frac_centis(parts[1]) })
    } else {
        None
    }
}

/// Parses one decimal-seconds token.
pub fn parse_uptime_token(tok: &str) -> (r: Option<Uptime>)
    ensures
        r == spec_parse_uptime(tok@),
        r matches Some(u) ==> u.wf(),
{
    let ghost sparts = split_at_char(tok@, '.');
    let parts = char_fields(tok, '.');
    if parts.len() == 1 {
        proof {
            assert(sparts[0] == parts@[0]@);
        }
        match parse_u64(parts[0]) {
            Some(s) => Some(Uptime { secs: s, centis: 0 }),
            None => None,
        }
    } else if parts.len() == 2 {
        proof {
            assert(sparts[0] == parts@[0]@);
            assert(sparts[1] == parts@[1]@);
        }
        let frac = parts[1];
        let m = frac.unicode_len();
        let mut i: usize = 0;
        while i < m
            invariant
                m == frac@.len(),
                i <= m,
                sparts == split_at_char(tok@, '.'),
                sparts.len() == 2,
                sparts[1] == frac@,
                forall|k: int| 0 <= k < i ==> is_digit(#[trigger] frac@[k]),
            decreases m - i,
        {
            if !is_digit_char(frac.get_char(i)) {
                proof {
                    assert(!all_digits(frac@));
                }
                return None;
            }
            i = i + 1;
        }
        proof {
            assert(all_digits(frac@));
        }
        match parse_u64(parts[0]) {
            Some(s) => {
                let centis: u64 = if m == 0 {
                    0
                } else if m == 1 {
                    (frac.get_char(0) as u32 - '0' as u32) as u64 * 10
                } else {
                    (frac.get_char(0) as u32 - '0' as u32) as u64 * 10 + (frac.get_char(1) as u32
                        - '0' as u32) as u64
                };
                proof {
                    assert(centis == frac_centis(frac@));
                }
                Some(Uptime { secs: s, centis })
            },
            None => None,
        }
    } else {
        None
    }
}

/// The six memory byte counts of a snapshot.
pub struct MemCounts {
    pub total: u64,
    pub free: u64,
    pub buffers: u64,
    pub cached: u64,
    pub swap_total: u64,
    pub swap_free: u64,
}

/// One tokenized memory-report line applied to the counts: exactly three
/// tokens whose second is numeric and small enough to scale from kibibytes to
/// bytes, the first token selecting the receiving field by exact match; an
/// unrecognized key or a malformed number changes nothing.
pub open spec fn mem_step(m: MemCounts, t: Seq<Seq<char>>) -> MemCounts {
    if t.len() == 3 && spec_parse_u64(t[1]) is Some && spec_parse_u64(t[1]).unwrap() * 1024
        <= u64::MAX {
        let v = (spec_parse_u64(t[1]).unwrap() * 1024) as u64;
        if t[0] == "MemTotal:"@ {
            MemCounts { total: v, ..m }
        } else if t[0] == "MemFree:"@ {
            MemCounts { free: v, ..m }
        } else if t[0] == "Buffers:"@ {
            MemCounts { buffers: v, ..m }
        } else if t[0] == "Cached:"@ {
            MemCounts { cached: v, ..m }
        } else if t[0] == "SwapTotal:"@ {
            MemCounts { swap_total: v, ..m }
        } else if t[0] == "SwapFree:"@ {
            MemCounts { swap_free: v, ..m }
        } else {
            m
        }
    } else {
        m
    }
}

/// The memory-report lines from `i` on, applied in order.
pub open spec fn mem_scan(m: MemCounts, ls: Seq<Seq<char>>, i: int) -> MemCounts
    decreases ls.len() - i,
{
    if i < 0 || i >= ls.len() {
        m
    } else {
        mem_scan(mem_step(m, split_ws(ls[i])), ls, i + 1)
    }
}

/// The complete set of currently-known metrics for the remote host, carried
/// across sampling ticks. Fields a tick fails to refresh keep their previous
/// value.
pub struct Stats {
    pub uptime: Uptime,
    pub hostname: String,
    pub load1: String,
    pub load5: String,
    pub load10: String,
    pub running_procs: String,
    pub total_procs: String,
    pub mem_total: u64,
    pub mem_free: u64,
    pub mem_buffers: u64,
    pub mem_cached: u64,
    pub swap_total: u64,
    pub swap_free: u64,
    pub fs_infos: Vec<FileSystemInfo>,
    pub net_intf: InterfaceRegistry,
    pub tracker: CpuDeltaTracker,
    pub cpu: CpuInfo,
}

impl Stats {
    /// The snapshot's internal invariants: a sane uptime fraction and unique
    /// interface names.
    pub open spec fn wf(self) -> bool {
        self.uptime.wf() && self.net_intf.wf()
    }

    /// The snapshot's memory counts.
    pub open spec fn mem(self) -> MemCounts {
        MemCounts {
            total: self.mem_total,
            free: self.mem_free,
            buffers: self.mem_buffers,
            cached: self.mem_cached,
            swap_total: self.swap_total,
            swap_free: self.swap_free,
        }
    }

    /// A snapshot with nothing known yet.
    pub fn new() -> (r: Stats)
        ensures
            r.wf(),
            r.uptime == (Uptime { secs: 0, centis: 0 }),
            r.hostname@ == Seq::<char>::empty(),
            r.load1@ == Seq::<char>::empty(),
            r.load5@ == Seq::<char>::empty(),
            r.load10@ == Seq::<char>::empty(),
            r.running_procs@ == Seq::<char>::empty(),
            r.total_procs@ == Seq::<char>::empty(),
            r.mem_total == 0 && r.mem_free == 0 && r.mem_buffers == 0 && r.mem_cached == 0,
            r.swap_total == 0 && r.swap_free == 0,
            r.fs_infos@.len() == 0,
            r.net_intf@ == Map::<Seq<char>, NetIntfView>::empty(),
            r.net_intf.count() == 0,
            r.tracker.prev is None,
            r.cpu == CpuInfo::zero(),
    {
        Stats {
            uptime: Uptime { secs: 0, centis: 0 },
            hostname: String::new(),
            load1: String::new(),
            load5: String::new(),
            load10: String::new(),
            running_procs: String::new(),
            total_procs: String::new(),
            mem_total: 0,
            mem_free: 0,
            mem_buffers: 0,
            mem_cached: 0,
            swap_total: 0,
            swap_free: 0,
            fs_infos: Vec::new(),
            net_intf: InterfaceRegistry::new(),
            tracker: CpuDeltaTracker::new(),
            cpu: CpuInfo::new(),
        }
    }

    /// Applies the uptime report: exactly two whitespace tokens whose first
    /// is a well-formed decimal-seconds value update the uptime; any other
    /// shape leaves the previous value unchanged.
    pub fn update_uptime(&mut self, text: &str)
        ensures
            ({
                let toks = split_ws(text@);
                if toks.len() == 2 && spec_parse_uptime(toks[0]) is Some {
                    final(self).uptime == spec_parse_uptime(toks[0]).unwrap() && final(self).uptime.wf()
                } else {
                    final(self).uptime == old(self).uptime
                }
            }),
            *final(self) == (Stats { uptime: final(self).uptime, ..*old(self) }),
    {
        let toks = ws_tokens(text);
        if toks.len() == 2 {
            proof {
                assert(split_ws(text@)[0] == toks@[0]@);
            }
            match parse_uptime_token(toks[0]) {
                Some(u) => {
                    self.uptime = u;
                },
                None => {},
            }
        }
    }

    /// Applies the hostname report: the raw output, trailing whitespace
    /// trimmed, taken verbatim.
    pub fn update_hostname(&mut self, text: &str)
        ensures
            final(self).hostname@ == spec_trim_end(text@),
            *final(self) == (Stats { hostname: final(self).hostname, ..*old(self) }),
    {
        self.hostname = String::from_str(trim_end(text));
    }

    /// Applies the load report: exactly five space-separated tokens, the
    /// fourth containing a slash, update the three load figures and the
    /// running and total process counts (the fifth token is discarded); any
    /// other shape updates nothing.
    pub fn update_load(&mut self, text: &str)
        ensures
            ({
                let parts = split_at_char(text@, ' ');
                if parts.len() == 5 && split_at_char(parts[3], '/').len() >= 2 {
                    let procs = split_at_char(parts[3], '/');
                    final(self).load1@ == parts[0] && final(self).load5@ == parts[1]
                        && final(self).load10@ == parts[2]
                        && final(self).running_procs@ == procs[0]
                        && final(self).total_procs@ == procs[1] && *final(self) == (Stats {
                        load1: final(self).load1,
                        load5: final(self).load5,
                        load10: final(self).load10,
                        running_procs: final(self).running_procs,
                        total_procs: final(self).total_procs,
                        ..*old(self)
                    })
                } else {
                    *final(self) == *old(self)
                }
            }),
    {
        let ghost sparts = split_at_char(text@, ' ');
        let parts = char_fields(text, ' ');
        if parts.len() == 5 {
            proof {
                assert(sparts[3] == parts@[3]@);
            }
            let procs = char_fields(parts[3], '/');
            if procs.len() >= 2 {
                proof {
                    assert(sparts[0] == parts@[0]@);
                    assert(sparts[1] == parts@[1]@);
                    assert(sparts[2] == parts@[2]@);
                    let sprocs = split_at_char(sparts[3], '/');
                    assert(sprocs[0] == procs@[0]@);
                    assert(sprocs[1] == procs@[1]@);
                }
                self.load1 = String::from_str(parts[0]);
                self.load5 = String::from_str(parts[1]);
                self.load10 = String::from_str(parts[2]);
                self.running_procs = String::from_str(procs[0]);
                self.total_procs = String::from_str(procs[1]);
            }
        }
    }

    /// Applies the memory report line by line: each recognized key stores its
    /// value scaled from kibibytes to bytes; unrecognized keys and malformed
    /// numbers are skipped silently.
    pub fn update_mem_info(&mut self, text: &str)
        ensures
            final(self).mem() == mem_scan(old(self).mem(), spec_lines(text@), 0),
            *final(self) == (Stats {
                mem_total: final(self).mem_total,
                mem_free: final(self).mem_free,
                mem_buffers: final(self).mem_buffers,
                mem_cached: final(self).mem_cached,
                swap_total: final(self).swap_total,
                swap_free: final(self).swap_free,
                ..*old(self)
            }),
    {
        let ghost m0 = self.mem();
        let ghost ls = spec_lines(text@);
        let lines = str_lines(text);
        let mut li: usize = 0;
        while li < lines.len()
            invariant
                lines.deep_view() == ls,
                li <= lines@.len(),
                mem_scan(self.mem(), ls, li as int) == mem_scan(m0, ls, 0),
                *self == (Stats {
                    mem_total: self.mem_total,
                    mem_free: self.mem_free,
                    mem_buffers: self.mem_buffers,
                    mem_cached: self.mem_cached,
                    swap_total: self.swap_total,
                    swap_free: self.swap_free,
                    ..*old(self)
                }),
            decreases lines@.len() - li,
        {
            let line = lines[li];
            proof {
                assert(ls[li as int] == line@);
            }
            let toks = ws_tokens(line);
            let ghost t = split_ws(line@);
            proof {
                assert(toks.deep_view() == t);
            }
            if toks.len() == 3 {
                proof {
                    assert(t[0] == toks@[0]@);
                    assert(t[1] == toks@[1]@);
                }
                match parse_u64(toks[1]) {
                    Some(v) => {
                        if v <= u64::MAX / 1024 {
                            let val = v * 1024;
                            let key = toks[0];
                            if str_eq(key, "MemTotal:") {
                                self.mem_total = val;
                            } else if str_eq(key, "MemFree:") {
                                self.mem_free = val;
                            } else if str_eq(key, "Buffers:") {
                                self.mem_buffers = val;
                            } else if str_eq(key, "Cached:") {
                                self.mem_cached = val;
                            } else if str_eq(key, "SwapTotal:") {
                                self.swap_total = val;
                            } else if str_eq(key, "SwapFree:") {
                                self.swap_free = val;
                            }
                        }
                    },
                    None => {},
                }
            }
            li = li + 1;
        }
    }

    /// Applies the filesystem listing: the most recent successfully parsed
    /// line replaces the whole list; a pass in which no line parses leaves
    /// the previous list standing.
    pub fn update_fs(&mut self, text: &str)
        ensures
            ({
                let res = fs_scan((false, Option::<FsView>::None), spec_lines(text@), 0).1;
                match res {
                    Some(v) => final(self).fs_infos@.len() == 1 && final(self).fs_infos@[0]@ == v
                        && *final(self) == (Stats { fs_infos: final(self).fs_infos, ..*old(self) }),
                    None => *final(self) == *old(self),
                }
            }),
    {
        match extract_fs(text) {
            Some(f) => {
                let mut v: Vec<FileSystemInfo> = Vec::new();
                v.push(f);
                self.fs_infos = v;
            },
            None => {},
        }
    }

    /// Applies the address listing to the interface registry.
    pub fn update_interfaces(&mut self, text: &str)
        requires
            old(self).net_intf.wf(),
        ensures
            final(self).net_intf.wf(),
            final(self).net_intf@ == apply_addr_lines(old(self).net_intf@, spec_lines(text@), 0),
            *final(self) == (Stats { net_intf: final(self).net_intf, ..*old(self) }),
    {
        self.net_intf.update_from_addr_listing(text);
    }

    /// Applies the counter report to the interface registry; the set of
    /// registered interfaces is unchanged, so counters never create a record.
    pub fn update_interface_info(&mut self, text: &str)
        requires
            old(self).net_intf.wf(),
        ensures
            final(self).net_intf.wf(),
            final(self).net_intf@ == apply_counter_lines(
                old(self).net_intf@,
                spec_lines(text@),
                0,
            ),
            final(self).net_intf@.dom() == old(self).net_intf@.dom(),
            *final(self) == (Stats { net_intf: final(self).net_intf, ..*old(self) }),
    {
        self.net_intf.update_from_counters(text);
    }

    /// Applies the processor report: the first aggregate line becomes the raw
    /// sample fed to the delta tracker. The first sample ever only primes the
    /// tracker; afterwards each sample also refreshes the utilization
    /// breakdown. A report without an aggregate line, or one whose counters
    /// overflow, updates nothing.
    pub fn update_cpu(&mut self, text: &str)
        ensures
            ({
                match spec_report_sample(text@) {
                    Some(sample) => final(self).tracker.prev == Some(sample)
                        && (old(self).tracker.prev is None ==> final(self).cpu == old(self).cpu)
                        && (old(self).tracker.prev matches Some(p) ==> final(self).cpu
                        == spec_delta(p, sample)) && *final(self) == (Stats {
                        tracker: final(self).tracker,
                        cpu: final(self).cpu,
                        ..*old(self)
                    }),
                    None => *final(self) == *old(self),
                }
            }),
    {
        match extract_cpu_sample(text) {
            Some(sample) => {
                match self.tracker.observe(sample) {
                    Some(info) => {
                        self.cpu = info;
                    },
                    None => {},
                }
            },
            None => {},
        }
    }

    /// Renders the uptime compactly: days, hours and minutes, each omitted
    /// while it and all larger units are zero, then seconds with two decimal
    /// places.
    pub fn format_uptime(&self) -> (r: String)
        requires
            self.uptime.wf(),
        ensures
            r@ == spec_format_uptime(self.uptime.secs, self.uptime.centis),
    {
        format_uptime_parts(self.uptime.secs, self.uptime.centis)
    }
}

impl Default for Stats {
    fn default() -> (r: Stats)
        ensures
            r.wf(),
            r.uptime == (Uptime { secs: 0, centis: 0 }),
            r.tracker.prev is None,
            r.net_intf.count() == 0,
            r.cpu == CpuInfo::zero(),
    {
        Stats::new()
    }
}

} // verus!
