use rate_gate::cpuinfo::{hardware_value, parse_cpuinfo};

#[test]
fn hardware_value_extracts_and_trims() {
    assert_eq!(
        hardware_value("Hardware\t: Qualcomm Technologies, Inc SM8250"),
        Some("Qualcomm Technologies, Inc SM8250".to_string())
    );
    assert_eq!(hardware_value("Hardware:x"), Some("x".to_string()));
}

#[test]
fn hardware_value_rejects_other_lines() {
    // Not a Hardware line, no colon, or nothing after the colon.
    assert_eq!(hardware_value("processor : 0"), None);
    assert_eq!(hardware_value("Hardware"), None);
    assert_eq!(hardware_value("Hardware :   \t "), None);
    assert_eq!(hardware_value("hardware : lowercase does not count"), None);
}

#[test]
fn parse_cpuinfo_counts_and_names() {
    let lines: Vec<String> = [
        "processor : 0",
        "vendor_id : GenuineIntel",
        "processor : 1",
        "Hardware : ",
        "Hardware : Kirin 970",
        "Hardware : second entry is ignored",
        "processor : 2",
    ]
    .iter()
    .map(|l| l.to_string())
    .collect();
    let (count, brand) = parse_cpuinfo(&lines);
    assert_eq!(count, 3);
    assert_eq!(brand, Some("Kirin 970".to_string()));
}

#[test]
fn parse_cpuinfo_empty_input() {
    let (count, brand) = parse_cpuinfo(&Vec::new());
    assert_eq!(count, 0);
    assert_eq!(brand, None);
}
