use sleepbench::driver::{run_experiment, step, EnvModel, RunFailure, RunState};
use sleepbench::power::{restore, swap_frequency, swap_governor, PowerSettings};

fn env_ok() -> EnvModel {
    EnvModel {
        core_present: true,
        driver: b"acpi-cpufreq\n".to_vec(),
        available: b"800000 1000000 1200000\n".to_vec(),
        settings: PowerSettings {
            governor: b"ondemand".to_vec(),
            freq_khz: 1200000,
        },
        governor_writable: true,
        freq_writable: true,
        bind_ok: true,
    }
}

#[test]
fn state_machine_transitions() {
    assert_eq!(step(RunState::Init, true), RunState::Validating);
    assert_eq!(step(RunState::Validating, true), RunState::Isolating);
    assert_eq!(step(RunState::Validating, false), RunState::Restoring);
    assert_eq!(step(RunState::Isolating, true), RunState::Binding);
    assert_eq!(step(RunState::Isolating, false), RunState::Restoring);
    assert_eq!(step(RunState::Binding, true), RunState::Benchmarking);
    assert_eq!(step(RunState::Binding, false), RunState::Restoring);
    assert_eq!(step(RunState::Benchmarking, true), RunState::Restoring);
    assert_eq!(step(RunState::Restoring, true), RunState::Done);
    assert_eq!(step(RunState::Done, false), RunState::Done);
}

#[test]
fn swap_and_restore_return_to_the_prior_state() {
    // acquire governor then frequency, restore frequency then governor
    let s0 = PowerSettings {
        governor: b"ondemand".to_vec(),
        freq_khz: 2000000,
    };
    let (s1, old_gov) = swap_governor(s0, b"userspace".to_vec());
    assert_eq!(old_gov, b"ondemand".to_vec());
    assert_eq!(s1.governor, b"userspace".to_vec());
    let (s2, old_freq) = swap_frequency(s1, 800000);
    assert_eq!(old_freq, 2000000);
    assert_eq!(s2.freq_khz, 800000);
    let back = restore(s2, Some(old_freq), Some(old_gov));
    assert_eq!(back.governor, b"ondemand".to_vec());
    assert_eq!(back.freq_khz, 2000000);
}

#[test]
fn restore_without_captures_is_a_no_op() {
    let s = PowerSettings {
        governor: b"ondemand".to_vec(),
        freq_khz: 1500000,
    };
    let r = restore(s, None, None);
    assert_eq!(r.governor, b"ondemand".to_vec());
    assert_eq!(r.freq_khz, 1500000);
}

#[test]
fn full_run_succeeds_and_restores_exactly() {
    // smallest advertised frequency requested: setup succeeds, the run
    // benchmarks, and the prior governor and frequency come back exactly
    let (report, after) = run_experiment(env_ok(), 800000);
    assert!(report.setup_succeeded);
    assert!(report.benchmarked);
    assert!(report.captured_governor);
    assert!(report.captured_freq);
    assert_eq!(report.state, RunState::Done);
    assert!(report.failure.is_none());
    assert_eq!(after.settings.governor, b"ondemand".to_vec());
    assert_eq!(after.settings.freq_khz, 1200000);
}

#[test]
fn absent_frequency_fails_before_any_change() {
    let (report, after) = run_experiment(env_ok(), 900000);
    assert!(!report.setup_succeeded);
    assert!(!report.benchmarked);
    assert!(!report.captured_governor);
    assert!(!report.captured_freq);
    assert!(matches!(report.failure, Some(RunFailure::FreqAbsent)));
    assert_eq!(after.settings.governor, b"ondemand".to_vec());
    assert_eq!(after.settings.freq_khz, 1200000);
}

#[test]
fn rounded_alias_fails_and_names_the_lower_value() {
    let mut env = env_ok();
    env.available = b"800000 801000\n".to_vec();
    let (report, after) = run_experiment(env, 801000);
    assert!(!report.setup_succeeded);
    assert!(matches!(
        report.failure,
        Some(RunFailure::FreqRounded(800000))
    ));
    assert_eq!(after.settings.freq_khz, 1200000);
}

#[test]
fn governor_write_failure_leaves_the_frequency_untouched() {
    // the governor swap fails: nothing is captured, the frequency is
    // never modified, and teardown has nothing to restore yet crashes
    // nowhere
    let mut env = env_ok();
    env.governor_writable = false;
    let (report, after) = run_experiment(env, 800000);
    assert!(!report.setup_succeeded);
    assert!(!report.benchmarked);
    assert!(!report.captured_governor);
    assert!(!report.captured_freq);
    assert!(matches!(report.failure, Some(RunFailure::GovernorSwapFailed)));
    assert_eq!(after.settings.governor, b"ondemand".to_vec());
    assert_eq!(after.settings.freq_khz, 1200000);
}

#[test]
fn frequency_write_failure_restores_the_governor() {
    let mut env = env_ok();
    env.freq_writable = false;
    let (report, after) = run_experiment(env, 800000);
    assert!(!report.setup_succeeded);
    assert!(report.captured_governor);
    assert!(!report.captured_freq);
    assert!(matches!(
        report.failure,
        Some(RunFailure::FrequencySwapFailed)
    ));
    assert_eq!(after.settings.governor, b"ondemand".to_vec());
    assert_eq!(after.settings.freq_khz, 1200000);
}

#[test]
fn bind_failure_skips_benchmarking_but_still_restores() {
    let mut env = env_ok();
    env.bind_ok = false;
    let (report, after) = run_experiment(env, 800000);
    assert!(report.setup_succeeded);
    assert!(!report.benchmarked);
    assert!(matches!(report.failure, Some(RunFailure::BindFailed)));
    assert_eq!(after.settings.governor, b"ondemand".to_vec());
    assert_eq!(after.settings.freq_khz, 1200000);
}

#[test]
fn missing_core_and_wrong_driver_are_reported() {
    let mut env = env_ok();
    env.core_present = false;
    let (report, _) = run_experiment(env, 800000);
    assert!(matches!(report.failure, Some(RunFailure::CoreMissing)));

    let mut env = env_ok();
    env.driver = b"intel_pstate\n".to_vec();
    let (report, _) = run_experiment(env, 800000);
    assert!(matches!(report.failure, Some(RunFailure::WrongDriver)));
}

#[test]
fn malformed_frequency_entry_is_the_fatal_fault() {
    let mut env = env_ok();
    env.available = b"800000 bogus 1200000\n".to_vec();
    let (report, after) = run_experiment(env, 800000);
    assert!(!report.setup_succeeded);
    match report.failure {
        Some(RunFailure::BadFreqEntry(t)) => assert_eq!(t, b"bogus".to_vec()),
        other => panic!("unexpected outcome: {:?}", other),
    }
    assert_eq!(after.settings.freq_khz, 1200000);
}
