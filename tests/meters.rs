use bar_status::memory::{kilobytes_in_line, parse_meminfo};
use bar_status::threshold::{Decoration, Severity, Thresholds};

fn thresholds() -> Thresholds {
    Thresholds {
        warn_threshold: 70,
        error_threshold: 90,
        warn_decoration: Decoration { open: "<w>".to_string(), close: "</w>".to_string() },
        error_decoration: Decoration { open: "<e>".to_string(), close: "</e>".to_string() },
    }
}

#[test]
fn severity_bands() {
    let t = thresholds();
    assert_eq!(t.severity(0), Severity::Normal);
    assert_eq!(t.severity(69), Severity::Normal);
    assert_eq!(t.severity(70), Severity::Warning);
    assert_eq!(t.severity(89), Severity::Warning);
    assert_eq!(t.severity(90), Severity::Critical);
    assert_eq!(t.severity(100), Severity::Critical);
    assert_eq!(t.severity(101), Severity::Normal);
}

#[test]
fn decoration_wraps_value() {
    let t = thresholds();
    assert_eq!(t.decorate(10, "x"), "x");
    assert_eq!(t.decorate(75, "x"), "<w>x</w>");
    assert_eq!(t.decorate(95, "x"), "<e>x</e>");
    assert_eq!(t.percent_display(5), "  5%");
    assert_eq!(t.percent_display(72), "<w> 72%</w>");
    assert_eq!(t.percent_display(100), "<e>100%</e>");
}

#[test]
fn kilobytes_from_meminfo_line() {
    assert_eq!(kilobytes_in_line("MemTotal:       16314164 kB"), Some(16314164));
    assert_eq!(kilobytes_in_line("MemAvailable: 0 kB"), Some(0));
    assert_eq!(kilobytes_in_line("a1b2c3"), Some(123));
    assert_eq!(kilobytes_in_line("MemTotal: kB"), None);
    assert_eq!(kilobytes_in_line(""), None);
    assert_eq!(kilobytes_in_line("MemTotal: 99999999999 kB"), None);
    assert_eq!(kilobytes_in_line("MemTotal: 2147483647 kB"), Some(2147483647));
    assert_eq!(kilobytes_in_line("MemTotal: 2147483648 kB"), None);
}

#[test]
fn kilobytes_non_ascii_numeric_fails() {
    assert_eq!(kilobytes_in_line("MemTotal: 12\u{0663} kB"), None);
    assert_eq!(kilobytes_in_line("MemTotal: 5\u{00bd} kB"), None);
    assert_eq!(kilobytes_in_line("MemTotal: \u{00e9}5 kB"), Some(5));
}

#[test]
fn meminfo_figures() {
    let text = "MemTotal:       16000 kB\nMemFree:        100 kB\nMemAvailable:   4000 kB\n";
    let m = parse_meminfo(text);
    assert_eq!(m.total_kb, Some(16000));
    assert_eq!(m.available_kb, Some(4000));
    let m = parse_meminfo("MemAvailable: 12 kB\n");
    assert_eq!(m.total_kb, None);
    assert_eq!(m.available_kb, Some(12));
}
