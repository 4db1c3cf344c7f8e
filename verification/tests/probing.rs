use sleepbench::probe::{
    cpufreq_available, eq_ignore_ascii_case_bytes, frequency_available, frequency_decision,
    scaling_driver_is_supported, trim_ascii, FreqDecision,
};

#[test]
fn smallest_entry_is_always_accepted() {
    // the head of the list is usable whatever follows it
    let freqs = vec![800000u32, 1000000, 1200000];
    assert_eq!(frequency_decision(&freqs, 800000), FreqDecision::Accepted);
    assert!(frequency_available(&freqs, 800000));
    // even when the successor sits exactly 1000 kHz above it
    let freqs = vec![800000u32, 801000];
    assert_eq!(frequency_decision(&freqs, 800000), FreqDecision::Accepted);
}

#[test]
fn rounding_alias_is_rejected_with_the_predecessor() {
    let freqs = vec![800000u32, 801000, 1000000];
    assert_eq!(
        frequency_decision(&freqs, 801000),
        FreqDecision::RoundedDown(800000)
    );
    assert!(!frequency_available(&freqs, 801000));
}

#[test]
fn missing_frequency_is_absent() {
    let freqs = vec![800000u32, 1000000];
    assert_eq!(frequency_decision(&freqs, 900000), FreqDecision::Absent);
    assert!(!frequency_available(&freqs, 900000));
}

#[test]
fn entry_spaced_more_than_1000_khz_is_accepted() {
    let freqs = vec![800000u32, 1000000, 1200000];
    assert_eq!(frequency_decision(&freqs, 1000000), FreqDecision::Accepted);
    assert_eq!(frequency_decision(&freqs, 1200000), FreqDecision::Accepted);
}

#[test]
fn cpufreq_available_works_on_raw_file_text() {
    assert_eq!(
        cpufreq_available(b"800000 1000000 1200000\n", 800000),
        Ok(FreqDecision::Accepted)
    );
    assert_eq!(
        cpufreq_available(b"800000 1000000 1200000\n", 900000),
        Ok(FreqDecision::Absent)
    );
    assert_eq!(
        cpufreq_available(b"800000 801000\n", 801000),
        Ok(FreqDecision::RoundedDown(800000))
    );
    assert_eq!(
        cpufreq_available(b"800000 oops\n", 800000),
        Err(b"oops".to_vec())
    );
}

#[test]
fn driver_check_is_trimmed_and_case_insensitive() {
    assert!(scaling_driver_is_supported(b"acpi-cpufreq\n"));
    assert!(scaling_driver_is_supported(b"  ACPI-CPUFREQ \t"));
    assert!(scaling_driver_is_supported(b"Acpi-CpuFreq"));
    assert!(!scaling_driver_is_supported(b"intel_pstate\n"));
    assert!(!scaling_driver_is_supported(b"acpi-cpufreq extra"));
    assert!(!scaling_driver_is_supported(b""));
}

#[test]
fn trim_ascii_drops_surrounding_whitespace_only() {
    assert_eq!(trim_ascii(b"  userspace\n"), b"userspace".to_vec());
    assert_eq!(trim_ascii(b"a b"), b"a b".to_vec());
    assert_eq!(trim_ascii(b" \t\r\n"), Vec::<u8>::new());
    assert_eq!(trim_ascii(b"x"), b"x".to_vec());
}

#[test]
fn core_probe_agrees_with_the_filesystem() {
    let expected = std::path::Path::new("/sys/devices/system/cpu/cpu0/topology").is_dir();
    assert_eq!(sleepbench::probe::core_available(0), expected);
    let expected = std::path::Path::new("/sys/devices/system/cpu/cpu99999/topology").is_dir();
    assert_eq!(sleepbench::probe::core_available(99999), expected);
}

#[test]
fn ascii_case_comparison() {
    assert!(eq_ignore_ascii_case_bytes(b"UserSpace", b"userspace"));
    assert!(!eq_ignore_ascii_case_bytes(b"userspace", b"userspac"));
    assert!(!eq_ignore_ascii_case_bytes(b"userspace", b"userspacf"));
}
