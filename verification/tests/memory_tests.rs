use sysmetrics::memory;
use sysmetrics::SysError;

#[test]
fn memory_accounting_derives_used_from_buffers_and_cache() {
    let content = "MemTotal: 1000 kB\nMemFree: 200 kB\nBuffers: 50 kB\nCached: 50 kB\n";
    let m = memory::get_memory(content).unwrap();
    assert_eq!(m.total, 1000);
    assert_eq!(m.free, 200);
    assert_eq!(m.buffer_or_cached, 100);
    assert_eq!(m.used, 700);
}

#[test]
fn memory_takes_every_kept_field() {
    let content = "MemTotal:       16000000 kB\n\
                   MemFree:         4000000 kB\n\
                   MemAvailable:    9000000 kB\n\
                   Buffers:          500000 kB\n\
                   Cached:          3000000 kB\n\
                   SReclaimable:     500000 kB\n\
                   SwapTotal:       2000000 kB\n\
                   SwapFree:        1500000 kB\n\
                   Dirty:               100 kB\n";
    let m = memory::get_memory(content).unwrap();
    assert_eq!(m.total, 16000000);
    assert_eq!(m.free, 4000000);
    assert_eq!(m.avaliable, 9000000);
    assert_eq!(m.buffer_or_cached, 4000000);
    assert_eq!(m.used, 16000000 - 4000000 - 4000000);
    assert_eq!(m.swap_total, 2000000);
    assert_eq!(m.swap_free, 1500000);
    assert_eq!(m.swap_used, 500000);
}

#[test]
fn memory_fields_default_to_zero() {
    let m = memory::get_memory("").unwrap();
    assert_eq!(m.total, 0);
    assert_eq!(m.used, 0);
    assert_eq!(m.swap_used, 0);
}

#[test]
fn memory_value_that_is_not_a_number_is_malformed() {
    let content = "MemTotal: lots kB\n";
    assert_eq!(memory::get_memory(content), Err(SysError::MalformedData));
}

#[test]
fn memory_key_without_value_is_malformed() {
    let content = "MemTotal\n";
    assert_eq!(memory::get_memory(content), Err(SysError::MalformedData));
}

#[test]
fn memory_unknown_keys_are_ignored() {
    let content = "HugePages_Total: abc\nMemTotal: 10 kB\n";
    let m = memory::get_memory(content).unwrap();
    assert_eq!(m.total, 10);
}

#[test]
fn memory_negative_value_is_malformed() {
    let content = "MemFree: -5 kB\n";
    assert_eq!(memory::get_memory(content), Err(SysError::MalformedData));
}
