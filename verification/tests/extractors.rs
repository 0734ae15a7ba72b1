use remstats::stats::Stats;
use remstats::stats::Uptime;

#[test]
fn uptime_two_tokens_updates() {
    let mut st = Stats::new();
    st.update_uptime("3600.50 7200.00\n");
    assert_eq!(st.uptime, Uptime { secs: 3600, centis: 50 });
}

#[test]
fn uptime_malformed_input_leaves_previous_value() {
    let mut st = Stats::new();
    st.update_uptime("12345.67 89.01");
    assert_eq!(st.uptime, Uptime { secs: 12345, centis: 67 });
    st.update_uptime("12345.67");
    assert_eq!(st.uptime, Uptime { secs: 12345, centis: 67 });
    st.update_uptime("not numbers here");
    assert_eq!(st.uptime, Uptime { secs: 12345, centis: 67 });
    st.update_uptime("");
    assert_eq!(st.uptime, Uptime { secs: 12345, centis: 67 });
}

#[test]
fn uptime_whole_seconds_token() {
    let mut st = Stats::new();
    st.update_uptime("500 100");
    assert_eq!(st.uptime, Uptime { secs: 500, centis: 0 });
}

#[test]
fn hostname_trimmed_verbatim() {
    let mut st = Stats::new();
    st.update_hostname("myhost.example.net\n");
    assert_eq!(st.hostname, "myhost.example.net");
    st.update_hostname("plain");
    assert_eq!(st.hostname, "plain");
}

#[test]
fn load_five_tokens_update_all_fields() {
    let mut st = Stats::new();
    st.update_load("0.10 0.20 0.30 3/50 1234\n");
    assert_eq!(st.load1, "0.10");
    assert_eq!(st.load5, "0.20");
    assert_eq!(st.load10, "0.30");
    assert_eq!(st.running_procs, "3");
    assert_eq!(st.total_procs, "50");
}

#[test]
fn load_wrong_shape_updates_nothing() {
    let mut st = Stats::new();
    st.update_load("0.10 0.20 0.30 3/50 1234\n");
    st.update_load("0.99 0.98 0.97 extra junk here now");
    assert_eq!(st.load1, "0.10");
    st.update_load("0.99 0.98 0.97 nosplit 1234");
    assert_eq!(st.load1, "0.10");
    assert_eq!(st.running_procs, "3");
}

#[test]
fn memory_extractor_scales_kibibytes() {
    let mut st = Stats::new();
    st.update_mem_info("MemTotal:     1024 kB\nMemFree:      512 kB\n");
    assert_eq!(st.mem_total, 1_048_576);
    assert_eq!(st.mem_free, 524_288);
}

#[test]
fn memory_extractor_all_keys() {
    let mut st = Stats::new();
    st.update_mem_info(
        "MemTotal: 10 kB\nMemFree: 20 kB\nBuffers: 30 kB\nCached: 40 kB\nSwapTotal: 50 kB\nSwapFree: 60 kB\n",
    );
    assert_eq!(st.mem_total, 10 * 1024);
    assert_eq!(st.mem_free, 20 * 1024);
    assert_eq!(st.mem_buffers, 30 * 1024);
    assert_eq!(st.mem_cached, 40 * 1024);
    assert_eq!(st.swap_total, 50 * 1024);
    assert_eq!(st.swap_free, 60 * 1024);
}

#[test]
fn memory_extractor_skips_unknown_and_malformed() {
    let mut st = Stats::new();
    st.update_mem_info("MemTotal: 100 kB\n");
    st.update_mem_info("Shmem: 999 kB\nMemTotal: notanumber kB\nMemFree: 7 kB extra\n");
    assert_eq!(st.mem_total, 100 * 1024);
    assert_eq!(st.mem_free, 0);
}

#[test]
fn filesystem_single_line_shape() {
    let mut st = Stats::new();
    st.update_fs(
        "Filesystem 1B-blocks Used Available Use% Mounted on\n/dev/sda1 1000000 300000 700000 30% /\n",
    );
    assert_eq!(st.fs_infos.len(), 1);
    assert_eq!(st.fs_infos[0].mount_point, "/");
    assert_eq!(st.fs_infos[0].used, 300000);
    assert_eq!(st.fs_infos[0].free, 700000);
}

#[test]
fn filesystem_wrapped_device_shape() {
    let mut st = Stats::new();
    st.update_fs("/dev/mapper/very-long-device-name\n 2000000 500000 1500000 25% /data\n");
    assert_eq!(st.fs_infos.len(), 1);
    assert_eq!(st.fs_infos[0].mount_point, "/data");
    assert_eq!(st.fs_infos[0].used, 500000);
    assert_eq!(st.fs_infos[0].free, 1500000);
}

#[test]
fn filesystem_last_parsed_line_wins() {
    let mut st = Stats::new();
    st.update_fs("/dev/sda1 1000 100 900 10% /\n/dev/sdb1 2000 200 1800 10% /home\n");
    assert_eq!(st.fs_infos.len(), 1);
    assert_eq!(st.fs_infos[0].mount_point, "/home");
}

#[test]
fn filesystem_unparsable_pass_keeps_previous_list() {
    let mut st = Stats::new();
    st.update_fs("/dev/sda1 1000 100 900 10% /\n");
    st.update_fs("tmpfs 100 10 90 10% /tmp\nno device lines here\n");
    assert_eq!(st.fs_infos.len(), 1);
    assert_eq!(st.fs_infos[0].mount_point, "/");
}

#[test]
fn addresses_merge_both_families_into_one_entry() {
    let mut st = Stats::new();
    st.update_interfaces(
        "2: eth0    inet 10.0.0.5/24 brd 10.0.0.255 scope global eth0\n2: eth0    inet6 fe80::1/64 scope link\n",
    );
    assert_eq!(st.net_intf.len(), 1);
    assert!(st.net_intf.contains("eth0"));
    let (name, info) = st.net_intf.entry_at(0);
    assert_eq!(name, "eth0");
    assert_eq!(info.ipv4, "10.0.0.5/24");
    assert_eq!(info.ipv6, "fe80::1/64");
    assert_eq!(info.rx, 0);
    assert_eq!(info.tx, 0);
}

#[test]
fn addresses_update_does_not_clobber_counters() {
    let mut st = Stats::new();
    st.update_interfaces("2: eth0 inet 10.0.0.5/24 more\n");
    st.update_interface_info(
        "eth0: 1000 0 0 0 0 0 0 0 2000 0 0 0 0 0 0 0\n",
    );
    st.update_interfaces("2: eth0 inet 10.0.0.9/24 more\n");
    let (_, info) = st.net_intf.entry_at(0);
    assert_eq!(info.ipv4, "10.0.0.9/24");
    assert_eq!(info.rx, 1000);
    assert_eq!(info.tx, 2000);
}

#[test]
fn counters_never_create_an_entry() {
    let mut st = Stats::new();
    st.update_interface_info(
        "eth0: 1000 0 0 0 0 0 0 0 2000 0 0 0 0 0 0 0\n",
    );
    assert_eq!(st.net_intf.len(), 0);
    assert!(!st.net_intf.contains("eth0"));
}

#[test]
fn counters_update_registered_entry_only() {
    let mut st = Stats::new();
    st.update_interfaces("2: eth0 inet 10.0.0.5/24 more\n3: wlan0 inet 10.0.1.5/24 more\n");
    st.update_interface_info(
        "eth0: 123 0 0 0 0 0 0 0 456 0 0 0 0 0 0 0\nlo: 9 0 0 0 0 0 0 0 9 0 0 0 0 0 0 0\n",
    );
    assert_eq!(st.net_intf.len(), 2);
    let (name, info) = st.net_intf.entry_at(0);
    assert_eq!(name, "eth0");
    assert_eq!(info.rx, 123);
    assert_eq!(info.tx, 456);
    let (name2, info2) = st.net_intf.entry_at(1);
    assert_eq!(name2, "wlan0");
    assert_eq!(info2.rx, 0);
    assert_eq!(info2.tx, 0);
    assert!(!st.net_intf.contains("lo"));
}

#[test]
fn counters_wrong_column_count_ignored() {
    let mut st = Stats::new();
    st.update_interfaces("2: eth0 inet 10.0.0.5/24 more\n");
    st.update_interface_info("eth0: 1000 2000\n");
    let (_, info) = st.net_intf.entry_at(0);
    assert_eq!(info.rx, 0);
    assert_eq!(info.tx, 0);
}
