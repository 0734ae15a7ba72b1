use remstats::cpu::cpu_sample;
use remstats::cpu::parse_cpu;
use remstats::cpu::pct_hundredths;
use remstats::cpu::CpuDeltaTracker;
use remstats::cpu::CpuInfo;
use remstats::cpu::CpuRaw;
use remstats::stats::Stats;

fn sample(vals: [u64; 9]) -> CpuRaw {
    CpuRaw {
        user: vals[0],
        nice: vals[1],
        system: vals[2],
        idle: vals[3],
        iowait: vals[4],
        irq: vals[5],
        soft_irq: vals[6],
        steal: vals[7],
        guest: vals[8],
        total: vals.iter().sum(),
    }
}

#[test]
fn tracker_first_sample_primes_and_yields_nothing() {
    let mut tr = CpuDeltaTracker::new();
    let s = sample([10, 0, 5, 100, 1, 0, 2, 0, 0]);
    let r = tr.observe(s);
    assert!(r.is_none());
    assert_eq!(tr.prev, Some(s));
}

#[test]
fn tracker_identical_samples_yield_all_zero() {
    let mut tr = CpuDeltaTracker::new();
    let s = sample([10, 0, 5, 100, 1, 0, 2, 0, 0]);
    tr.observe(s);
    let r = tr.observe(s);
    assert_eq!(r, Some(CpuInfo::new()));
}

#[test]
fn tracker_deltas_sum_to_total_delta() {
    let mut tr = CpuDeltaTracker::new();
    tr.observe(sample([10, 1, 5, 100, 2, 0, 2, 0, 0]));
    let r = tr.observe(sample([20, 1, 9, 180, 2, 1, 4, 0, 3])).unwrap();
    assert_eq!(r.user, 10);
    assert_eq!(r.nice, 0);
    assert_eq!(r.system, 4);
    assert_eq!(r.idle, 80);
    assert_eq!(r.iowait, 0);
    assert_eq!(r.irq, 1);
    assert_eq!(r.soft_irq, 2);
    assert_eq!(r.steal, 0);
    assert_eq!(r.guest, 3);
    let total = r.user + r.nice + r.system + r.idle + r.iowait + r.irq + r.soft_irq + r.steal
        + r.guest;
    assert_eq!(r.total, total);
}

#[test]
fn parse_cpu_assigns_positionally_and_sums() {
    let fields: Vec<&str> = vec!["cpu", "10", "20", "30", "40", "50", "60", "70", "80", "90"];
    let mut raw = CpuRaw::new();
    parse_cpu(&fields, &mut raw);
    assert_eq!(raw.user, 10);
    assert_eq!(raw.nice, 20);
    assert_eq!(raw.system, 30);
    assert_eq!(raw.idle, 40);
    assert_eq!(raw.iowait, 50);
    assert_eq!(raw.irq, 60);
    assert_eq!(raw.soft_irq, 70);
    assert_eq!(raw.steal, 80);
    assert_eq!(raw.guest, 90);
    assert_eq!(raw.total, 450);
}

#[test]
fn parse_cpu_skips_non_numeric_tokens() {
    let fields: Vec<&str> = vec!["cpu", "10", "x", "30"];
    let mut raw = CpuRaw::new();
    parse_cpu(&fields, &mut raw);
    assert_eq!(raw.user, 10);
    assert_eq!(raw.nice, 0);
    assert_eq!(raw.system, 30);
    assert_eq!(raw.total, 40);
}

#[test]
fn cpu_sample_ignores_tokens_beyond_nine() {
    let fields: Vec<&str> =
        vec!["cpu", "1", "2", "3", "4", "5", "6", "7", "8", "9", "99999"];
    let r = cpu_sample(&fields).unwrap();
    assert_eq!(r.total, 45);
    assert_eq!(r.guest, 9);
}

#[test]
fn snapshot_cpu_two_ticks() {
    let mut st = Stats::new();
    st.update_cpu("cpu  100 0 50 800 10 0 5 0 0\ncpu0 50 0 25 400 5 0 2 0 0\n");
    assert_eq!(st.cpu, CpuInfo::new());
    assert!(st.tracker.prev.is_some());
    st.update_cpu("cpu  150 0 70 900 10 0 5 0 0\n");
    assert_eq!(st.cpu.user, 50);
    assert_eq!(st.cpu.system, 20);
    assert_eq!(st.cpu.idle, 100);
    assert_eq!(st.cpu.total, 170);
}

#[test]
fn snapshot_cpu_report_without_aggregate_line_updates_nothing() {
    let mut st = Stats::new();
    st.update_cpu("cpu0 50 0 25 400 5 0 2 0 0\nintr 12345\n");
    assert!(st.tracker.prev.is_none());
}

#[test]
fn percent_hundredths_exact() {
    assert_eq!(pct_hundredths(50, 200), 2500);
    assert_eq!(pct_hundredths(0, 200), 0);
    assert_eq!(pct_hundredths(200, 200), 10000);
    assert_eq!(pct_hundredths(0, 0), 0);
    assert_eq!(pct_hundredths(1, 3), 3333);
}
