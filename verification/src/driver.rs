//! The experiment driver: the run state machine of the benchmark and its
//! full sequencing over a modelled environment, with unconditional
//! restoration of whatever was captured.

use vstd::prelude::*;
use crate::parse::{all_numerals, is_u32_numeral, tokens_of};
use crate::power::{restore, swap_frequency, swap_governor, PowerSettings};
use crate::probe::{
    cpufreq_available, scaling_driver_is_supported, spec_driver_matches, spec_freq_list,
    spec_frequency_decision, FreqDecision,
};

verus! {

/// The run states of one experiment, in the order a fully successful run
/// passes through them.
#[derive(Clone, Copy, PartialEq, Eq, Structural, Debug)]
pub enum RunState {
    Init,
    Validating,
    Isolating,
    Binding,
    Benchmarking,
    Restoring,
    Done,
}

/// The transition function of the run: each gated stage advances on
/// success and jumps straight to restoration on failure; benchmarking and
/// restoration always move on; `Done` is terminal either way.
pub open spec fn spec_step(s: RunState, ok: bool) -> RunState {
    match s {
        RunState::Init => RunState::Validating,
        RunState::Validating => if ok {
            RunState::Isolating
        } else {
            RunState::Restoring
        },
        RunState::Isolating => if ok {
            RunState::Binding
        } else {
            RunState::Restoring
        },
        RunState::Binding => if ok {
            RunState::Benchmarking
        } else {
            RunState::Restoring
        },
        RunState::Benchmarking => RunState::Restoring,
        RunState::Restoring => RunState::Done,
        RunState::Done => RunState::Done,
    }
}

/// Advances the run state machine by one stage outcome.
pub fn step(s: RunState, ok: bool) -> (r: RunState)
    ensures
        r == spec_step(s, ok),
{
    match s {
        RunState::Init => RunState::Validating,
        RunState::Validating => if ok {
            RunState::Isolating
        } else {
            RunState::Restoring
        },
        RunState::Isolating => if ok {
            RunState::Binding
        } else {
            RunState::Restoring
        },
        RunState::Binding => if ok {
            RunState::Benchmarking
        } else {
            RunState::Restoring
        },
        RunState::Benchmarking => RunState::Restoring,
        RunState::Restoring => RunState::Done,
        RunState::Done => RunState::Done,
    }
}

/// What one run reads and writes, as plain values: the sysfs surfaces of
/// the chosen core and the outcomes of the two writes and of the bind.
pub struct EnvModel {
    /// A topology descriptor exists for the core.
    pub core_present: bool,
    /// Contents of the scaling-driver file.
    pub driver: Vec<u8>,
    /// Contents of the available-frequencies file.
    pub available: Vec<u8>,
    /// The core's current power settings.
    pub settings: PowerSettings,
    /// A swap of the governor succeeds.
    pub governor_writable: bool,
    /// A swap of the fixed frequency succeeds.
    pub freq_writable: bool,
    /// Pinning the thread to the core succeeds.
    pub bind_ok: bool,
}

/// Why a run performed no benchmarking.
#[derive(Debug)]
pub enum RunFailure {
    /// No topology descriptor for the core.
    CoreMissing,
    /// The scaling driver is not the required one.
    WrongDriver,
    /// A token of the available-frequency list is not a numeral: the
    /// fatal environment fault; the offending token comes along.
    BadFreqEntry(Vec<u8>),
    /// The requested frequency is not advertised at all.
    FreqAbsent,
    /// The requested frequency is the rounded alias of the carried lower
    /// advertised value.
    FreqRounded(u32),
    /// The governor swap failed; nothing was captured.
    GovernorSwapFailed,
    /// The frequency swap failed after the governor swap succeeded.
    FrequencySwapFailed,
    /// Thread pinning failed after setup had succeeded.
    BindFailed,
}

/// The outcome of one run over the model.
pub struct RunReport {
    /// Every setup stage succeeded.
    pub setup_succeeded: bool,
    /// The benchmarking stage was reached.
    pub benchmarked: bool,
    /// The prior governor was captured during isolation.
    pub captured_governor: bool,
    /// The prior frequency was captured during isolation.
    pub captured_freq: bool,
    /// The terminal state of the run.
    pub state: RunState,
    /// Why no benchmarking happened, if it did not.
    pub failure: Option<RunFailure>,
}

/// The prober stage succeeds on this environment for this frequency.
pub open spec fn spec_validation_ok(env: EnvModel, freq_khz: u32) -> bool {
    &&& env.core_present
    &&& spec_driver_matches(env.driver@)
    &&& all_numerals(tokens_of(env.available@))
    &&& spec_frequency_decision(spec_freq_list(env.available@), freq_khz) is Accepted
}

/// Every setup stage succeeds on this environment for this frequency.
pub open spec fn spec_setup_ok(env: EnvModel, freq_khz: u32) -> bool {
    spec_validation_ok(env, freq_khz) && env.governor_writable && env.freq_writable
}

/// The governor token the experiment isolates with: "userspace".
pub open spec fn userspace_token() -> Seq<u8> {
    seq![117u8, 115u8, 101u8, 114u8, 115u8, 112u8, 97u8, 99u8, 101u8]
}

fn userspace_governor() -> (r: Vec<u8>)
    ensures
        r@ == userspace_token(),
{
    let mut r: Vec<u8> = Vec::new();
    r.push(117);
    r.push(115);
    r.push(101);
    r.push(114);
    r.push(115);
    r.push(112);
    r.push(97);
    r.push(99);
    r.push(101);
    proof {
        assert(r@ =~= userspace_token());
    }
    r
}

/// Runs one whole experiment over the modelled environment: validation,
/// isolation, binding, benchmarking, restoration — each failure skips the
/// remaining setup stages but never the teardown.
///
/// Whatever path the run takes, the environment comes back with the
/// settings it started with: restoration is unconditional and exact.
pub fn run_experiment(env: EnvModel, freq_khz: u32) -> (r: (RunReport, EnvModel))
    ensures
        r.0.state == RunState::Done,
        r.0.setup_succeeded == spec_setup_ok(env, freq_khz),
        r.0.benchmarked == (spec_setup_ok(env, freq_khz) && env.bind_ok),
        r.0.captured_governor == (spec_validation_ok(env, freq_khz) && env.governor_writable),
        r.0.captured_freq == spec_setup_ok(env, freq_khz),
        r.0.failure is None <==> (spec_setup_ok(env, freq_khz) && env.bind_ok),
        // the headline: the settings always come back exactly
        r.1.settings@ == env.settings@,
        r.1.core_present == env.core_present,
        r.1.driver@ == env.driver@,
        r.1.available@ == env.available@,
        r.1.governor_writable == env.governor_writable,
        r.1.freq_writable == env.freq_writable,
        r.1.bind_ok == env.bind_ok,
        // which failure is reported, stage by stage
        !env.core_present ==> (r.0.failure matches Some(f) && f is CoreMissing),
        env.core_present && !spec_driver_matches(env.driver@) ==> (r.0.failure matches Some(f)
            && f is WrongDriver),
        env.core_present && spec_driver_matches(env.driver@) && !all_numerals(
            tokens_of(env.available@),
        ) ==> (r.0.failure matches Some(RunFailure::BadFreqEntry(t)) && (exists|k: int|
            0 <= k < tokens_of(env.available@).len() && t@ == #[trigger] tokens_of(
                env.available@,
            )[k] && !is_u32_numeral(tokens_of(env.available@)[k]))),
        env.core_present && spec_driver_matches(env.driver@) && all_numerals(
            tokens_of(env.available@),
        ) && spec_frequency_decision(spec_freq_list(env.available@), freq_khz) is Absent ==> (
        r.0.failure matches Some(f) && f is FreqAbsent),
        env.core_present && spec_driver_matches(env.driver@) && all_numerals(
            tokens_of(env.available@),
        ) ==> (spec_frequency_decision(spec_freq_list(env.available@), freq_khz) matches
            FreqDecision::RoundedDown(p) ==> r.0.failure == Some(RunFailure::FreqRounded(p))),
        spec_validation_ok(env, freq_khz) && !env.governor_writable ==> (r.0.failure matches Some(
            f,
        ) && f is GovernorSwapFailed),
        spec_validation_ok(env, freq_khz) && env.governor_writable && !env.freq_writable ==> (
        r.0.failure matches Some(f) && f is FrequencySwapFailed),
        spec_setup_ok(env, freq_khz) && !env.bind_ok ==> (r.0.failure matches Some(f)
            && f is BindFailed),
{
    let EnvModel {
        core_present,
        driver,
        available,
        settings,
        governor_writable,
        freq_writable,
        bind_ok,
    } = env;
    let ghost initial_settings = settings@;

    let mut state = step(RunState::Init, true);
    assert(state is Validating);

    // Validating: the prober checks, each failure remembered, later
    // stages short-circuited.
    let mut failure: Option<RunFailure> = None;
    if !core_present {
        failure = Some(RunFailure::CoreMissing);
    }
    if failure.is_none() && !scaling_driver_is_supported(driver.as_slice()) {
        failure = Some(RunFailure::WrongDriver);
    }
    if failure.is_none() {
        match cpufreq_available(available.as_slice(), freq_khz) {
            Ok(FreqDecision::Accepted) => {},
            Ok(FreqDecision::Absent) => {
                failure = Some(RunFailure::FreqAbsent);
            },
            Ok(FreqDecision::RoundedDown(p)) => {
                failure = Some(RunFailure::FreqRounded(p));
            },
            Err(t) => {
                failure = Some(RunFailure::BadFreqEntry(t));
            },
        }
    }
    let validated = failure.is_none();
    state = step(state, validated);

    // Isolating: swap governor, then frequency, capturing prior values.
    let mut cur = settings;
    let mut saved_governor: Option<Vec<u8>> = None;
    let mut saved_freq: Option<u32> = None;
    if validated {
        if governor_writable {
            let (next, old_gov) = swap_governor(cur, userspace_governor());
            cur = next;
            saved_governor = Some(old_gov);
            if freq_writable {
                let (next2, old_freq) = swap_frequency(cur, freq_khz);
                cur = next2;
                saved_freq = Some(old_freq);
            } else {
                failure = Some(RunFailure::FrequencySwapFailed);
            }
        } else {
            failure = Some(RunFailure::GovernorSwapFailed);
        }
    }
    let isolated = validated && failure.is_none();
    if validated {
        state = step(state, isolated);
    }

    // Binding, then benchmarking: the samples themselves are taken by the
    // caller's sleep mechanisms; the model only records that the stage ran.
    let mut benchmarked = false;
    if isolated {
        if bind_ok {
            state = step(state, true);
            assert(state is Benchmarking);
            benchmarked = true;
            state = step(state, true);
        } else {
            failure = Some(RunFailure::BindFailed);
            state = step(state, false);
        }
    }
    assert(state is Restoring);

    // Restoring: unconditionally, in reverse order of acquisition.
    let captured_governor = saved_governor.is_some();
    let captured_freq = saved_freq.is_some();
    cur = restore(cur, saved_freq, saved_governor);
    state = step(state, true);

    proof {
        assert(cur@ =~= initial_settings);
    }
    let report = RunReport {
        setup_succeeded: isolated,
        benchmarked,
        captured_governor,
        captured_freq,
        state,
        failure,
    };
    (
        report,
        EnvModel {
            core_present,
            driver,
            available,
            settings: cur,
            governor_writable,
            freq_writable,
            bind_ok,
        },
    )
}

} // verus!
