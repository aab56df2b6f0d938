use telemetry_core::sched::period_ns;
use telemetry_core::sysinfo::{parse_centi, parse_u64, tokenize, SysInformer};

#[test]
fn tokenize_splits_on_whitespace() {
    let toks = tokenize(b"  cpu 100\t200\n300 ");
    let toks: Vec<&[u8]> = toks.iter().map(|t| t.as_slice()).collect();
    assert_eq!(toks, vec![&b"cpu"[..], b"100", b"200", b"300"]);
    assert!(tokenize(b"   \n\t ").is_empty());
    assert!(tokenize(b"").is_empty());
}

#[test]
fn parse_u64_values() {
    assert_eq!(parse_u64(b"0"), Some(0));
    assert_eq!(parse_u64(b"43210"), Some(43210));
    assert_eq!(parse_u64(b"18446744073709551615"), Some(u64::MAX));
    assert_eq!(parse_u64(b"18446744073709551616"), None);
    assert_eq!(parse_u64(b""), None);
    assert_eq!(parse_u64(b"12a"), None);
    assert_eq!(parse_u64(b"-3"), None);
}

#[test]
fn parse_centi_values() {
    assert_eq!(parse_centi(b"0.52"), Some(52));
    assert_eq!(parse_centi(b"1.05"), Some(105));
    assert_eq!(parse_centi(b"2"), Some(200));
    assert_eq!(parse_centi(b"0.5"), Some(50));
    assert_eq!(parse_centi(b"0.529"), Some(52));
    assert_eq!(parse_centi(b"99"), Some(255));
    assert_eq!(parse_centi(b"12345678901234567890123"), Some(255));
    assert_eq!(parse_centi(b"x.1"), None);
    assert_eq!(parse_centi(b""), None);
}

#[test]
fn loadavg_reading() {
    let informer = SysInformer::new();
    let r = informer.get_loadavg(b"0.52 0.48 1.52 1/123 456\n");
    assert_eq!(r, Some((52, 48, 152)));
    assert_eq!(informer.get_loadavg(b"0.52 0.48\n"), None);
    assert_eq!(informer.get_loadavg(b"a b c\n"), None);
}

#[test]
fn mem_reading_learns_the_total_once() {
    let mut informer = SysInformer::new();
    let meminfo = b"MemTotal: 1000 kB\nMemFree: 250 kB\nMemAvailable: 500 kB\n";
    assert_eq!(informer.get_mem(meminfo), Some((63, 127))); // 250*255/1000, 500*255/1000

    // The total is kept from the first reading even if the file changes.
    let later = b"MemTotal: 2000 kB\nMemFree: 500 kB\nMemAvailable: 1000 kB\n";
    assert_eq!(informer.get_mem(later), Some((127, 255)));
}

#[test]
fn mem_reading_rejects_malformed_file() {
    let mut informer = SysInformer::new();
    assert_eq!(informer.get_mem(b"nonsense"), None);
    assert_eq!(informer.get_mem(b"MemTotal: zero kB MemFree: 1 kB MemAvailable: 2 kB"), None);
}

#[test]
fn cpu_reading_uses_counter_deltas() {
    let mut informer = SysInformer::new();
    // user nice system idle iowait irq softirq steal
    let first = b"cpu 100 0 100 500 100 0 0 0\n";
    // Baseline sample: deltas are measured from zero.
    assert_eq!(informer.get_cpu(first), Some(63)); // (800-600)*255/800

    let second = b"cpu 200 0 200 600 100 0 0 0\n";
    // d_total = 300, d_idle = 100: (300-100)*255/300 = 170.
    assert_eq!(informer.get_cpu(second), Some(170));

    // Counters going backwards yield nothing rather than a wild value.
    let backwards = b"cpu 0 0 0 0 0 0 0 0\n";
    assert_eq!(informer.get_cpu(backwards), None);
}

#[test]
fn temp_reading_rounds_millidegrees() {
    let informer = SysInformer::new();
    assert_eq!(informer.get_temp(b"43210\n"), Some(43));
    assert_eq!(informer.get_temp(b"43600\n"), Some(44));
    assert_eq!(informer.get_temp(b"-5500\n"), Some(-6));
    assert_eq!(informer.get_temp(b"500\n"), Some(1));
    assert_eq!(informer.get_temp(b"499\n"), Some(0));
    assert_eq!(informer.get_temp(b"300000\n"), Some(127));
    assert_eq!(informer.get_temp(b"-300000\n"), Some(-128));
    assert_eq!(informer.get_temp(b"warm\n"), None);
    assert_eq!(informer.get_temp(b"43 210\n"), None);
}

#[test]
fn sample_combines_all_four_files() {
    let mut informer = SysInformer::new();
    let snapshot = informer.sample(
        b"MemTotal: 1000 kB\nMemFree: 250 kB\nMemAvailable: 500 kB\n",
        b"cpu 100 0 100 500 100 0 0 0\n",
        b"0.52 0.48 1.52 1/123 456\n",
        b"43210\n",
    );
    let s = snapshot.expect("all four files are well-formed");
    assert_eq!(s.free_mem, 63);
    assert_eq!(s.avail_mem, 127);
    assert_eq!(s.cpu, 63);
    assert_eq!((s.load1, s.load5, s.load15), (52, 48, 152));
    assert_eq!(s.temp, 43);
}

#[test]
fn sample_fails_on_any_bad_file() {
    let mut informer = SysInformer::new();
    let r = informer.sample(
        b"MemTotal: 1000 kB\nMemFree: 250 kB\nMemAvailable: 500 kB\n",
        b"cpu what\n",
        b"0.52 0.48 1.52\n",
        b"43210\n",
    );
    assert_eq!(r, None);
}

#[test]
fn period_from_rate() {
    assert_eq!(period_ns(25), 40_000_000);
    assert_eq!(period_ns(2), 500_000_000);
    assert_eq!(period_ns(3), 333_333_334); // the ceiling, so the rate is not exceeded
    assert_eq!(period_ns(1), 1_000_000_000);
}
