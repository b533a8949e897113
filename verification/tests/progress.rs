use xpm::float::{percent, seconds, units_text, Float, DOUBLE, SINGLE};
use xpm::operation::{OperationProgress, OperationStatus};
use xpm::progress::{format_bytes, format_duration, format_size, ProgressTracker};

fn float_of(x: f64) -> Float {
    let bits = x.to_bits();
    let exp = ((bits >> 52) & 0x7ff) as i32;
    let mant = bits & ((1 << 52) - 1);
    if exp == 0 {
        Float { mant, exp: -1074 }
    } else {
        Float { mant: mant | (1 << 52), exp: exp - 1075 }
    }
}

fn value(x: Float) -> f64 {
    (x.mant as f64) * 2f64.powi(x.exp)
}

#[test]
fn test_format_bytes() {
    assert_eq!(format_bytes(500), "500 B");
    assert_eq!(format_bytes(1024), "1.00 KB");
    assert_eq!(format_bytes(1536), "1.50 KB");
    assert_eq!(format_bytes(1048576), "1.00 MB");
    assert_eq!(format_bytes(1073741824), "1.00 GB");
}

#[test]
fn test_format_duration() {
    assert_eq!(format_duration(float_of(30.0)), "30s");
    assert_eq!(format_duration(float_of(90.0)), "1m 30s");
    assert_eq!(format_duration(float_of(3661.0)), "1h 1m");
}

#[test]
fn durations_are_rounded_to_whole_units() {
    let cases = [0.0f64, 0.5, 1.5, 2.5, 59.25, 59.75, 60.0, 61.5, 3599.5, 3600.0, 7325.25, 90061.0, 1e-300, f64::MIN_POSITIVE / 8.0, 1e17, 1.8e19, 3.2e19];
    for x in cases {
        let want = if x < 60.0 {
            format!("{:.0}s", x)
        } else if x < 3600.0 {
            let mins = (x / 60.0).floor();
            let secs = x % 60.0;
            format!("{}m {:.0}s", mins, secs)
        } else {
            let hours = (x / 3600.0).floor();
            let mins = ((x % 3600.0) / 60.0).floor();
            format!("{}h {}m", hours, mins)
        };
        assert_eq!(format_duration(float_of(x)), want, "{}", x);
    }
}

#[test]
fn bytes_are_formatted_as_floating_point_numbers_are() {
    let cases = [
        0u64,
        1,
        1023,
        1025,
        1029,
        1030,
        5_000,
        10_235,
        123_456_789,
        999_999_999,
        1_073_741_823,
        5_000_000_000,
        1_234_567_890_123,
        u64::MAX,
    ];
    for n in cases {
        let want = if n >= 1 << 30 {
            format!("{:.2} GB", n as f64 / (1u64 << 30) as f64)
        } else if n >= 1 << 20 {
            format!("{:.2} MB", n as f64 / (1u64 << 20) as f64)
        } else if n >= 1 << 10 {
            format!("{:.2} KB", n as f64 / 1024.0)
        } else {
            format!("{} B", n)
        };
        assert_eq!(format_bytes(n), want, "{}", n);
    }
}

#[test]
fn sizes_are_formatted_as_floating_point_numbers_are() {
    for n in [0u64, 1023, 1024, 1100, 1_500_000, 1_073_741_824, 7_777_777_777] {
        let want = if n >= 1 << 30 {
            format!("{:.1} GB", n as f64 / (1u64 << 30) as f64)
        } else if n >= 1 << 20 {
            format!("{:.1} MB", n as f64 / (1u64 << 20) as f64)
        } else if n >= 1 << 10 {
            format!("{:.1} KB", n as f64 / 1024.0)
        } else {
            format!("{} B", n)
        };
        assert_eq!(format_size(n), want, "{}", n);
    }
}

#[test]
fn units_are_written_with_places() {
    let text: String = units_text(1536, 1024, 2).into_iter().collect();
    assert_eq!(text, "1.50");
}

#[test]
fn percentages_are_those_of_double_precision() {
    for (part, whole) in [(0u64, 7u64), (1, 3), (2, 3), (7, 7), (50, 99), (999, 1000), (123_456_789, 987_654_321)] {
        assert_eq!(percent(part, whole), ((part as f64 / whole as f64) * 100.0) as u8);
    }
}

#[test]
fn complete_is_a_hundred() {
    for n in [1u64, 3, 7, 49, 1 << 53, (1 << 53) + 1, u64::MAX] {
        assert_eq!(percent(n, n), 100);
    }
}

#[test]
fn seconds_are_those_of_the_standard_library() {
    for n in [0u64, 1, 999_999_999, 1_000_000_000, 1_500_000_000, 123_456_789_012_345] {
        let d = std::time::Duration::from_nanos(n);
        assert_eq!(value(seconds(n, DOUBLE)), d.as_secs_f64());
        assert_eq!(value(seconds(n, SINGLE)), d.as_secs_f32() as f64);
    }
}

#[test]
fn arithmetic_is_rounded_as_the_machine_rounds() {
    for (a, b) in [(1u64, 3u64), (7, 9), (1 << 60, 3), (12_345_678_901, 97), (u64::MAX, 10)] {
        let x = Float::from_u64(a, DOUBLE);
        let y = Float::from_u64(b, DOUBLE);
        assert_eq!(value(x), a as f64);
        assert_eq!(value(x.div(y, DOUBLE)), a as f64 / b as f64);
        assert_eq!(value(x.times(y, DOUBLE)), a as f64 * b as f64);
        assert_eq!(value(x.plus(y, DOUBLE)), a as f64 + b as f64);
    }
}

fn progress_at(downloaded: u64, total: u64) -> OperationProgress {
    OperationProgress {
        status: OperationStatus::Downloading,
        current_package: None,
        total_packages: 2,
        completed_packages: 1,
        total_bytes: total,
        downloaded_bytes: downloaded,
        message: String::new(),
    }
}

const SECOND: u64 = 1_000_000_000;

#[test]
fn a_tracker_measures_speed_and_time() {
    let mut t = ProgressTracker::new();
    assert!(!t.is_active());
    assert!(t.download_speed().is_none());
    t.start(2, 4_000, 0);
    assert!(t.is_active());
    t.update(progress_at(0, 4_000), SECOND);
    t.update(progress_at(1_000, 4_000), 2 * SECOND);
    assert_eq!(t.download_speed(), Some(1_000));
    assert_eq!(t.current().unwrap().downloaded_bytes, 1_000);
    assert_eq!(value(t.elapsed_secs(3 * SECOND).unwrap()), 3.0);
    assert_eq!(value(t.estimated_remaining().unwrap()), 3.0);
    t.clear();
    assert!(t.current().is_none());
}

#[test]
fn one_sample_gives_no_speed() {
    let mut t = ProgressTracker::new();
    t.start(1, 100, 0);
    t.update(progress_at(10, 100), SECOND);
    assert!(t.download_speed().is_none());
    assert!(t.estimated_remaining().is_none());
}

#[test]
fn progress_in_percent() {
    assert_eq!(progress_at(1_000, 4_000).download_percent(), 25);
    assert_eq!(progress_at(1_000, 0).download_percent(), 100);
    assert_eq!(progress_at(0, 0).package_percent(), 50);
    assert_eq!(OperationProgress::new(0, 0).package_percent(), 100);
}

#[test]
fn parts_never_exceed_a_hundred() {
    for (a, b) in [(1u64, 1u64), ((1 << 53) + 1, (1 << 53) + 2), (u64::MAX - 1, u64::MAX), (99, 100), (0, 5)] {
        assert!(percent(a, b) <= 100, "{} {}", a, b);
    }
    assert_eq!(percent(u64::MAX, 1), 255);
}

#[test]
fn percentages_follow_the_exact_share() {
    for whole in [1u64, 3, 7, 100, 999, (1 << 53) + 1, u64::MAX] {
        let mut last = 0u8;
        for i in 0..=200u128 {
            let part = (whole as u128 * i / 200) as u64;
            let p = percent(part, whole);
            let share = (100 * part as u128 / whole as u128) as i32;
            assert!((p as i32 - share).abs() <= 1, "{} of {}", part, whole);
            assert!(p >= last);
            last = p;
        }
        assert_eq!(percent(0, whole), 0);
        assert_eq!(last, 100);
    }
}
