use sysmetrics::process;
use sysmetrics::processor;
use sysmetrics::SysError;
use sysmetrics::Usage;

fn core_stat(user: i64, nice: i64, system: i64, idle: i64, iowait: i64, irq: i64, softirq: i64) -> processor::ProcessStat {
    processor::ProcessStat { user, nice, system, idle, iowait, irq, softirq }
}

fn proc_stat(utime: u64, stime: u64, cutime: u64, cstime: u64) -> process::ProcessStat {
    process::ProcessStat { utime, stime, cutime, cstime }
}

#[test]
fn core_usage_stays_within_one() {
    let prev = core_stat(0, 0, 0, 0, 0, 0, 0);
    let latest = core_stat(30, 0, 0, 60, 10, 0, 0);
    let u = processor::core_usage(&prev, &latest);
    assert_eq!(u, Usage { num: 30, den: 100 });
    assert!(u.num <= u.den);
    let ratio = u.num as f64 / u.den as f64;
    assert!(0.0 <= ratio && ratio <= 1.0);
    assert_eq!(ratio, 0.3);
}

#[test]
fn core_usage_equal_totals_is_exact_zero() {
    let snap = core_stat(5, 1, 4, 100, 2, 0, 3);
    let u = processor::core_usage(&snap, &snap);
    assert_eq!(u, Usage { num: 0, den: 1 });
    assert_eq!(u.num as f64 / u.den as f64, 0.0);
}

#[test]
fn first_sample_reports_zero() {
    let infos = vec![processor::CpuInfo {
        index: 0,
        vendor_id: String::from("GenuineIntel"),
        name: String::from("model x"),
        freq: String::from("1800.000"),
        cache_size: String::from("512 KB"),
    }];
    let stats = vec![core_stat(10, 0, 5, 80, 5, 0, 0)];
    let cores = processor::new(infos, stats).unwrap();
    assert_eq!(cores.len(), 1);
    assert_eq!(cores[0].usage, Usage { num: 0, den: 1 });
    assert!(cores[0].last_stat.is_none());

    let p = process::new(
        proc_stat(3, 4, 0, 0),
        core_stat(10, 0, 5, 80, 5, 0, 0),
        4,
        String::from("100"),
        String::from("1"),
    );
    assert_eq!(p.processor_usage, Usage { num: 0, den: 1 });
    assert_eq!(p.processor_usage_with_children, Usage { num: 0, den: 1 });
}

#[test]
fn process_usage_scenario_matches_formula() {
    // The system aggregate moves from total 1000 to total 1200 while the
    // process accumulates 20 ticks of its own; on four cores the share is
    // 4 * 20 / 200 = 0.4.
    let mut p = process::new(
        proc_stat(50, 0, 0, 0),
        core_stat(1000, 0, 0, 0, 0, 0, 0),
        4,
        String::from("0"),
        String::from("42"),
    );
    let r = p.refresh(
        proc_stat(70, 0, 0, 0),
        core_stat(1200, 0, 0, 0, 0, 0, 0),
        4,
        String::from("0"),
        String::from("42"),
    );
    assert!(r.is_ok());
    assert_eq!(p.processor_usage, Usage { num: 80, den: 200 });
    assert_eq!(p.processor_usage.num as f64 / p.processor_usage.den as f64, 0.4);
}

#[test]
fn children_usage_is_never_below_own_usage() {
    let mut p = process::new(
        proc_stat(10, 10, 5, 5),
        core_stat(100, 0, 0, 100, 0, 0, 0),
        2,
        String::from("0"),
        String::from("7"),
    );
    let r = p.refresh(
        proc_stat(15, 12, 9, 6),
        core_stat(150, 0, 0, 150, 0, 0, 0),
        2,
        String::from("0"),
        String::from("7"),
    );
    assert!(r.is_ok());
    // own delta 7, children delta 7 + 5 = 12, system delta 100.
    assert_eq!(p.processor_usage, Usage { num: 14, den: 100 });
    assert_eq!(p.processor_usage_with_children, Usage { num: 24, den: 100 });
    assert!(p.processor_usage_with_children.num >= p.processor_usage.num);
    assert_eq!(p.processor_usage_with_children.den, p.processor_usage.den);
}

#[test]
fn process_zero_window_reports_zero_without_failing() {
    let sys = core_stat(500, 1, 2, 300, 4, 5, 6);
    let mut p = process::new(proc_stat(1, 2, 3, 4), sys, 8, String::from("0"), String::from("9"));
    let r = p.refresh(proc_stat(1, 2, 3, 4), sys, 8, String::from("0"), String::from("9"));
    assert!(r.is_ok());
    assert_eq!(p.processor_usage, Usage { num: 0, den: 1 });
    assert_eq!(p.processor_usage_with_children, Usage { num: 0, den: 1 });
}

#[test]
fn count_mismatch_leaves_the_set_untouched() {
    let infos = vec![
        processor::CpuInfo {
            index: 0,
            vendor_id: String::new(),
            name: String::new(),
            freq: String::new(),
            cache_size: String::new(),
        },
        processor::CpuInfo {
            index: 1,
            vendor_id: String::new(),
            name: String::new(),
            freq: String::new(),
            cache_size: String::new(),
        },
    ];
    let stats = vec![core_stat(1, 0, 0, 1, 0, 0, 0), core_stat(2, 0, 0, 2, 0, 0, 0)];
    let mut cores = processor::new(infos, stats).unwrap();

    let three = vec![
        core_stat(5, 0, 0, 5, 0, 0, 0),
        core_stat(6, 0, 0, 6, 0, 0, 0),
        core_stat(7, 0, 0, 7, 0, 0, 0),
    ];
    let r = processor::refresh_all(&mut cores, &three);
    assert_eq!(r, Err(SysError::CountMismatch));
    assert_eq!(cores.len(), 2);
    assert_eq!(cores[0].usage, Usage { num: 0, den: 1 });
    assert_eq!(cores[0].latest_stat, core_stat(1, 0, 0, 1, 0, 0, 0));
    assert!(cores[0].last_stat.is_none());
    assert_eq!(cores[1].latest_stat, core_stat(2, 0, 0, 2, 0, 0, 0));
}

#[test]
fn refresh_all_computes_every_ratio() {
    let infos = vec![
        processor::CpuInfo {
            index: 0,
            vendor_id: String::new(),
            name: String::new(),
            freq: String::new(),
            cache_size: String::new(),
        },
        processor::CpuInfo {
            index: 1,
            vendor_id: String::new(),
            name: String::new(),
            freq: String::new(),
            cache_size: String::new(),
        },
    ];
    let stats = vec![core_stat(10, 0, 10, 80, 0, 0, 0), core_stat(0, 0, 0, 100, 0, 0, 0)];
    let mut cores = processor::new(infos, stats).unwrap();

    let next = vec![core_stat(40, 0, 30, 130, 0, 0, 0), core_stat(0, 0, 0, 150, 0, 0, 0)];
    processor::refresh_all(&mut cores, &next).unwrap();
    // core 0: work delta 50, total delta 100; core 1: idle only.
    assert_eq!(cores[0].usage, Usage { num: 50, den: 100 });
    assert_eq!(cores[1].usage, Usage { num: 0, den: 50 });
    assert_eq!(cores[0].last_stat, Some(core_stat(10, 0, 10, 80, 0, 0, 0)));
    assert_eq!(cores[0].latest_stat, core_stat(40, 0, 30, 130, 0, 0, 0));
}

#[test]
fn counter_reset_is_malformed_and_leaves_state() {
    let mut p = process::new(
        proc_stat(50, 0, 0, 0),
        core_stat(1000, 0, 0, 0, 0, 0, 0),
        1,
        String::from("0"),
        String::from("3"),
    );
    // The process counter went backwards: the identifier was reused.
    let r = p.refresh(
        proc_stat(10, 0, 0, 0),
        core_stat(1100, 0, 0, 0, 0, 0, 0),
        1,
        String::from("0"),
        String::from("3"),
    );
    assert_eq!(r, Err(SysError::MalformedData));
    assert_eq!(p.latest_sample.stat, proc_stat(50, 0, 0, 0));
    assert_eq!(p.processor_usage, Usage { num: 0, den: 1 });
}

#[test]
fn core_count_change_between_process_samples_is_a_mismatch() {
    let mut p = process::new(
        proc_stat(10, 0, 0, 0),
        core_stat(100, 0, 0, 0, 0, 0, 0),
        4,
        String::from("0"),
        String::from("11"),
    );
    let r = p.refresh(
        proc_stat(20, 0, 0, 0),
        core_stat(200, 0, 0, 0, 0, 0, 0),
        8,
        String::from("0"),
        String::from("11"),
    );
    assert_eq!(r, Err(SysError::CountMismatch));
    assert_eq!(p.latest_sample.core_count, 4);
    assert_eq!(p.processor_usage, Usage { num: 0, den: 1 });
}

#[test]
fn single_core_refresh_checks_index() {
    let infos = vec![processor::CpuInfo {
        index: 5,
        vendor_id: String::new(),
        name: String::new(),
        freq: String::new(),
        cache_size: String::new(),
    }];
    let stats = vec![core_stat(1, 0, 0, 1, 0, 0, 0)];
    // Pairing is positional; the recorded index may still point past a
    // shrunken snapshot list.
    let mut cores = processor::new(infos, stats).unwrap();
    let next = vec![core_stat(2, 0, 0, 2, 0, 0, 0)];
    let r = cores[0].refresh(&next);
    assert_eq!(r, Err(SysError::CountMismatch));
}
