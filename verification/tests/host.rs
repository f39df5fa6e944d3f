use ggok::host::{
    cpu_percent_between, cpu_used_hundredths, disk_list, mem_status_from_meminfo,
    mem_status_from_sysctl, parse_df, parse_kb, proc_stat_checked, proc_stat_fits_text, proc_stat_totals, scale_kib, sysctl_value,
    DiskStatus,
};

#[test]
fn meminfo_total_and_available() {
    let text = "MemTotal:       16000 kB\nMemFree:         1000 kB\nMemAvailable:    4000 kB\n";
    let m = mem_status_from_meminfo(text);
    assert_eq!(m.total_bytes, 16000 * 1024);
    assert_eq!(m.used_bytes, 12000 * 1024);
}

#[test]
fn meminfo_missing_keys_read_zero() {
    let m = mem_status_from_meminfo("Buffers: 12 kB\n");
    assert_eq!(m.total_bytes, 0);
    assert_eq!(m.used_bytes, 0);
    let m = mem_status_from_meminfo("MemTotal: 10 kB\nMemAvailable: 20 kB\n");
    assert_eq!(m.total_bytes, 10240);
    assert_eq!(m.used_bytes, 0);
}

#[test]
fn kb_reads_first_word() {
    let v: Vec<char> = "   123 kB".chars().collect();
    assert_eq!(parse_kb(&v), 123);
    let v: Vec<char> = " x 12".chars().collect();
    assert_eq!(parse_kb(&v), 0);
}

#[test]
fn proc_stat_idle_and_total() {
    let text = "cpu  10 20 30 40 50 60 70\ncpu0 1 2 3 4\n";
    assert_eq!(proc_stat_totals(text), Some((90, 280)));
    assert_eq!(proc_stat_totals("cpu  1 2 3 4\n"), Some((4, 10)));
    assert_eq!(proc_stat_totals("cpu  1 2 3\n"), None);
    assert_eq!(proc_stat_totals("intr 1 2 3 4 5\n"), None);
    assert_eq!(proc_stat_totals(""), None);
}

#[test]
fn cpu_share_in_hundredths() {
    assert_eq!(cpu_used_hundredths(25, 100), Some(7500));
    assert_eq!(cpu_used_hundredths(0, 3), Some(10000));
    assert_eq!(cpu_used_hundredths(200, 100), Some(0));
    assert_eq!(cpu_used_hundredths(5, 0), None);
    assert_eq!(cpu_used_hundredths(1, 3), Some(6666));
}

#[test]
fn cpu_share_between_samples() {
    assert_eq!(cpu_percent_between(None, true, 10, 20), None);
    assert_eq!(cpu_percent_between(Some((10, 20)), false, 20, 40), None);
    assert_eq!(cpu_percent_between(Some((10, 20)), true, 15, 40), Some(7500));
}

#[test]
fn df_second_line() {
    let out = "Filesystem 1-blocks Used Available Capacity Mounted on\n/dev/sda1 1000 400 600 40% /\n";
    let d = parse_df(out).unwrap();
    assert_eq!(d.path, "/");
    assert_eq!(d.used_bytes, 400);
    assert_eq!(d.total_bytes, 1000);
    assert!(parse_df("Filesystem\n").is_none());
    assert!(parse_df("h\n/dev/sda1 x 400 600 40% /\n").is_none());
    let k = scale_kib(d);
    assert_eq!(k.used_bytes, 409600);
    assert_eq!(k.total_bytes, 1024000);
}

#[test]
fn home_disk_listed_when_it_differs() {
    let root = DiskStatus { path: "/".into(), used_bytes: 1, total_bytes: 10 };
    let same = DiskStatus { path: "/".into(), used_bytes: 1, total_bytes: 10 };
    let v = disk_list(Some(root), Some(same), "/home/u/.grok".into());
    assert_eq!(v.len(), 1);
    let root = DiskStatus { path: "/".into(), used_bytes: 1, total_bytes: 10 };
    let other = DiskStatus { path: "/home".into(), used_bytes: 2, total_bytes: 10 };
    let v = disk_list(Some(root), Some(other), "/home/u/.grok".into());
    assert_eq!(v.len(), 2);
    assert_eq!(v[1].path, "/home/u/.grok");
    assert_eq!(v[1].used_bytes, 2);
    let other = DiskStatus { path: "/home".into(), used_bytes: 2, total_bytes: 10 };
    let v = disk_list(None, Some(other), "/g".into());
    assert_eq!(v.len(), 1);
    assert_eq!(v[0].path, "/g");
}

#[test]
fn sysctl_memory() {
    let m = mem_status_from_sysctl(Some(8192), None, Some(1), None, None, None);
    assert_eq!(m.total_bytes, 8192);
    assert_eq!(m.used_bytes, 4096);
    let m = mem_status_from_sysctl(Some(100), Some(4096), Some(1), Some(1), None, None);
    assert_eq!(m.used_bytes, 0);
    assert_eq!(sysctl_value(" 42\n"), Some(42));
    assert_eq!(sysctl_value("x"), None);
}

#[test]
fn proc_stat_sums_checked() {
    assert!(proc_stat_fits_text("cpu  1 2 3 4\n"));
    assert!(proc_stat_fits_text("intr 1 2\n"));
    assert!(proc_stat_fits_text(""));
    let big = format!("cpu  {} 1 0 0\n", u64::MAX);
    assert!(!proc_stat_fits_text(&big));
    assert_eq!(proc_stat_checked(&big), None);
    let edge = format!("cpu  {} 0 0 0\n", u64::MAX);
    assert!(proc_stat_fits_text(&edge));
    assert_eq!(proc_stat_checked(&edge), Some((0, u64::MAX)));
    assert_eq!(proc_stat_checked("cpu  1 2 3 4 5\n"), Some((9, 15)));
    assert_eq!(proc_stat_checked("cpu 1 2\n"), None);
}
