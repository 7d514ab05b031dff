use sysmetrics::process;
use sysmetrics::processor;
use sysmetrics::SysError;

#[test]
fn processor_stats_take_every_core_line() {
    let content = "cpu  100 2 30 400 5 6 7 0 0 0\n\
                   cpu0 50 1 15 200 2 3 4 0 0 0\n\
                   cpu1 50 1 15 200 3 3 3 0 0 0\n\
                   intr 12345 0 0\n\
                   ctxt 999\n";
    let stats = processor::parse_processor_stats(content).unwrap();
    assert_eq!(stats.len(), 2);
    assert_eq!(
        stats[0],
        processor::ProcessStat { user: 50, nice: 1, system: 15, idle: 200, iowait: 2, irq: 3, softirq: 4 }
    );
    assert_eq!(stats[1].iowait, 3);
    let total: i64 = stats[0].get_total();
    assert_eq!(total, 50 + 1 + 15 + 200 + 2 + 3 + 4);
    let work: i64 = stats[0].get_work();
    assert_eq!(work, 50 + 1 + 15 + 3 + 4);
}

#[test]
fn processor_stats_reject_short_core_lines() {
    let content = "cpu0 50 1 15\n";
    assert_eq!(processor::parse_processor_stats(content), Err(SysError::MalformedData));
}

#[test]
fn processor_stats_reject_non_numeric_fields() {
    let content = "cpu0 50 1 15 x 2 3 4\n";
    assert_eq!(processor::parse_processor_stats(content), Err(SysError::MalformedData));
}

#[test]
fn total_stat_takes_the_aggregate_line() {
    let content = "cpu  100 2 30 400 5 6 7 0 0 0\ncpu0 50 1 15 200 2 3 4 0 0 0\n";
    let st = processor::parse_total_processor_stat(content).unwrap();
    assert_eq!(
        st,
        processor::ProcessStat { user: 100, nice: 2, system: 30, idle: 400, iowait: 5, irq: 6, softirq: 7 }
    );
}

#[test]
fn total_stat_missing_is_not_found() {
    let content = "cpu0 50 1 15 200 2 3 4 0 0 0\nintr 1\n";
    assert_eq!(processor::parse_total_processor_stat(content), Err(SysError::NotFound));
}

#[test]
fn total_stat_malformed_aggregate_line() {
    let content = "cpu 100 2 30\n";
    assert_eq!(processor::parse_total_processor_stat(content), Err(SysError::MalformedData));
}

#[test]
fn process_stat_reads_the_four_tick_fields() {
    let content = "42 (some-tool) S 1 42 42 0 -1 4194560 100 0 0 0 7 8 9 10 20 0 1 0 100 0 0";
    let st = process::parse_process_stat(content).unwrap();
    assert_eq!(st, process::ProcessStat { utime: 7, stime: 8, cutime: 9, cstime: 10 });
    assert_eq!(st.get_total(), 15);
    assert_eq!(st.get_total_with_children(), 34);
}

#[test]
fn process_stat_with_too_few_fields_is_malformed() {
    let content = "42 (name) S 1 42";
    assert_eq!(process::parse_process_stat(content), Err(SysError::MalformedData));
}

#[test]
fn rss_pid_come_from_the_identity_record() {
    let content = "Name:\tsome-tool\nPid:\t1234\nVmSize:\t  5000 kB\nVmRSS:\t  2048 kB\nThreads:\t2\n";
    let (rss, pid) = process::parse_rss_pid(content);
    assert_eq!(rss, "2048");
    assert_eq!(pid, "1234");
}

#[test]
fn rss_pid_missing_keys_stay_empty() {
    let content = "Name:\tsome-tool\nThreads:\t2\n";
    let (rss, pid) = process::parse_rss_pid(content);
    assert_eq!(rss, "");
    assert_eq!(pid, "");
}

#[test]
fn cpuinfo_paragraphs_become_core_records() {
    let content = "processor\t: 0\n\
                   vendor_id\t: GenuineIntel\n\
                   model name\t: model x\n\
                   cpu MHz\t\t: 1800.000\n\
                   cache size\t: 512 KB\n\
                   \n\
                   processor\t: 1\n\
                   vendor_id\t: GenuineIntel\n\
                   model name\t: model x\n\
                   cpu MHz\t\t: 2400.000\n\
                   cache size\t: 512 KB\n";
    let infos = processor::parse_cpuinfo(content).unwrap();
    assert_eq!(infos.len(), 2);
    assert_eq!(infos[0].index, 0);
    assert_eq!(infos[0].vendor_id, "GenuineIntel");
    assert_eq!(infos[0].name, "model x");
    assert_eq!(infos[0].freq, "1800.000");
    assert_eq!(infos[0].cache_size, "512 KB");
    assert_eq!(infos[1].index, 1);
    assert_eq!(infos[1].freq, "2400.000");
}

#[test]
fn cpuinfo_paragraph_without_index_is_dropped() {
    let content = "vendor_id\t: GenuineIntel\n\nprocessor\t: 0\n";
    let infos = processor::parse_cpuinfo(content).unwrap();
    assert_eq!(infos.len(), 1);
    assert_eq!(infos[0].index, 0);
    assert_eq!(infos[0].vendor_id, "");
}

#[test]
fn cpuinfo_bad_index_is_malformed() {
    let content = "processor\t: x\n";
    assert!(matches!(processor::parse_cpuinfo(content), Err(SysError::MalformedData)));
}

#[test]
fn enumeration_counts_must_agree() {
    let infos = vec![processor::CpuInfo {
        index: 0,
        vendor_id: String::new(),
        name: String::new(),
        freq: String::new(),
        cache_size: String::new(),
    }];
    let stats = vec![
        processor::ProcessStat { user: 1, nice: 0, system: 0, idle: 1, iowait: 0, irq: 0, softirq: 0 },
        processor::ProcessStat { user: 2, nice: 0, system: 0, idle: 2, iowait: 0, irq: 0, softirq: 0 },
    ];
    assert!(matches!(processor::new(infos, stats), Err(SysError::CountMismatch)));
}

#[test]
fn oversized_counter_fields_are_malformed() {
    // A counter beyond the model bound cannot be a real tick count.
    let content = "cpu0 99999999999999999999 1 2 3 4 5 6\n";
    assert_eq!(processor::parse_processor_stats(content), Err(SysError::MalformedData));
}

#[test]
fn signed_counter_fields_are_malformed() {
    // Cumulative counters are non-negative; a sign is not a digit.
    let content = "cpu0 -1 1 2 3 4 5 6\n";
    assert_eq!(processor::parse_processor_stats(content), Err(SysError::MalformedData));
    let plus = "cpu0 +1 1 2 3 4 5 6\n";
    assert_eq!(processor::parse_processor_stats(plus), Err(SysError::MalformedData));
}

#[test]
fn empty_text_has_no_cores_and_no_aggregate() {
    assert_eq!(processor::parse_processor_stats(""), Ok(vec![]));
    assert_eq!(processor::parse_total_processor_stat(""), Err(SysError::NotFound));
    assert_eq!(processor::parse_cpuinfo("").unwrap().len(), 0);
}
