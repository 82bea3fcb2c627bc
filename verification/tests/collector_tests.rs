use monitor::diskstats::{parse_diskstats_line, total_io_sectors};
use monitor::procinfo::{format_memory, format_runtime, runtime_seconds, ThreadData};

#[test]
fn diskstats_whole_device_line() {
    let line = "   8       0 sda 100 200 300 400 500 600 700 800 900 1000 1100";
    assert_eq!(parse_diskstats_line(line), Some((300, 700)));
}

#[test]
fn diskstats_partition_is_skipped() {
    let line = "   8       1 sda1 100 200 300 400 500 600 700 800 900 1000 1100";
    assert_eq!(parse_diskstats_line(line), None);
}

#[test]
fn diskstats_short_line_is_skipped() {
    assert_eq!(parse_diskstats_line("8 0 sda 100 200 300"), None);
    assert_eq!(parse_diskstats_line(""), None);
}

#[test]
fn diskstats_counter_spans_the_whole_u64_range() {
    let big = "8 0 sda 1 2 18446744073709551615 4 5 6 7 8 9 10 11";
    assert_eq!(parse_diskstats_line(big), Some((18446744073709551615, 7)));
    let too_big = "8 0 sda 1 2 18446744073709551616 4 5 6 7 8 9 10 11";
    assert_eq!(parse_diskstats_line(too_big), None);
    let zero_padded = "8 0 sda 1 2 000000000000000000000042 4 5 6 7 8 9 10 11";
    assert_eq!(parse_diskstats_line(zero_padded), Some((42, 7)));
}

#[test]
fn diskstats_non_numeric_counter_is_skipped() {
    let line = "8 0 sda 100 200 x 400 500 600 700 800 900 1000 1100";
    assert_eq!(parse_diskstats_line(line), None);
}

#[test]
fn diskstats_totals_sum_whole_devices() {
    let text = "8 0 sda 100 200 300 400 500 600 700 800 900 1000 1100\n\
                8 1 sda1 100 200 999 400 500 600 999 800 900 1000 1100\n\
                8 16 sdb 100 200 50 400 500 600 20 800 900 1000 1100\n";
    assert_eq!(total_io_sectors(text), (350, 720));
}

#[test]
fn memory_formatting_picks_the_unit() {
    assert_eq!(format_memory(0), "0K");
    assert_eq!(format_memory(500), "500K");
    assert_eq!(format_memory(1023), "1023K");
    assert_eq!(format_memory(1024), "1M");
    assert_eq!(format_memory(2048), "2M");
    assert_eq!(format_memory(1048575), "1023M");
    assert_eq!(format_memory(1048576), "1G");
    assert_eq!(format_memory(3 * 1048576 + 5), "3G");
}

#[test]
fn runtime_formatting_pads_minutes_and_seconds() {
    assert_eq!(format_runtime(0), "0:00:00");
    assert_eq!(format_runtime(59), "0:00:59");
    assert_eq!(format_runtime(3661), "1:01:01");
    assert_eq!(format_runtime(7322), "2:02:02");
    assert_eq!(format_runtime(36000 + 59 * 60 + 59), "10:59:59");
}

#[test]
fn runtime_seconds_floors_at_zero() {
    assert_eq!(runtime_seconds(100, 40), 60);
    assert_eq!(runtime_seconds(40, 100), 0);
}

#[test]
fn thread_record_holds_formatted_fields() {
    let t = ThreadData {
        thread_id: 42,
        user_name: "root".to_string(),
        priority: 20,
        nice_value: -5,
        virtual_memory: format_memory(2048),
        resident_memory: format_memory(500),
        shared_memory: format_memory(0),
        status: "Running".to_string(),
        cpu_usage: "0.0".to_string(),
        memory_usage: "0.0".to_string(),
        runtime: format_runtime(3661),
        command: "daemon".to_string(),
    };
    assert_eq!(t.virtual_memory, "2M");
    assert_eq!(t.runtime, "1:01:01");
}
