use portscan::render::{decimal_string, port_line, render_report};

#[test]
fn decimal_strings() {
    assert_eq!(decimal_string(0).as_str(), "0");
    assert_eq!(decimal_string(7).as_str(), "7");
    assert_eq!(decimal_string(10).as_str(), "10");
    assert_eq!(decimal_string(443).as_str(), "443");
    assert_eq!(decimal_string(8080).as_str(), "8080");
    assert_eq!(decimal_string(65535).as_str(), "65535");
}

#[test]
fn port_lines() {
    assert_eq!(port_line(22).as_str(), "Port 22 is open");
    assert_eq!(port_line(1).as_str(), "Port 1 is open");
    assert_eq!(port_line(65535).as_str(), "Port 65535 is open");
}

#[test]
fn report_has_one_line_per_port() {
    let ports = vec![22u16, 80, 443, 8080];
    let lines = render_report(&ports);
    assert_eq!(lines.len(), 4);
    assert_eq!(lines[0].as_str(), "Port 22 is open");
    assert_eq!(lines[1].as_str(), "Port 80 is open");
    assert_eq!(lines[2].as_str(), "Port 443 is open");
    assert_eq!(lines[3].as_str(), "Port 8080 is open");
}

#[test]
fn report_of_nothing_is_empty() {
    let ports: Vec<u16> = Vec::new();
    assert!(render_report(&ports).is_empty());
}
