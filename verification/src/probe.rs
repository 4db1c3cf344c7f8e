//! Core capability probing: deciding from the sysfs file contents whether a
//! core's scaling driver is the required one and whether a requested
//! frequency is usable.

use vstd::prelude::*;
use crate::parse::{
    all_numerals, decimal_value, is_space, is_u32_numeral, parse_freq_list, tokens_of,
};

verus! {

/// The outcome of checking a requested frequency against the advertised
/// available-frequency list.
#[derive(Clone, Copy, PartialEq, Eq, Structural, Debug)]
pub enum FreqDecision {
    /// The frequency is advertised and usable.
    Accepted,
    /// The frequency is advertised but sits exactly 1000 kHz above its
    /// immediate predecessor, which marks it as the kernel's rounded alias
    /// of that lower usable value; the field is the predecessor.
    RoundedDown(u32),
    /// The frequency is not in the list at all.
    Absent,
}

/// Index of the first occurrence of `f` in `freqs`, or -1 if absent.
pub open spec fn first_match(freqs: Seq<u32>, f: u32) -> int
    decreases freqs.len(),
{
    if freqs.len() == 0 {
        -1
    } else if freqs[0] == f {
        0
    } else {
        let r = first_match(freqs.drop_first(), f);
        if r < 0 {
            -1
        } else {
            r + 1
        }
    }
}

/// The frequency rule: the first occurrence of `f` decides; the head of the
/// list is always usable; elsewhere an entry exactly 1000 kHz above its
/// immediate predecessor is rejected as that predecessor's rounded alias.
pub open spec fn spec_frequency_decision(freqs: Seq<u32>, f: u32) -> FreqDecision {
    let k = first_match(freqs, f);
    if k < 0 {
        FreqDecision::Absent
    } else if k == 0 {
        FreqDecision::Accepted
    } else if freqs[k - 1] + 1000 == f {
        FreqDecision::RoundedDown(freqs[k - 1])
    } else {
        FreqDecision::Accepted
    }
}

proof fn lemma_first_match_found(freqs: Seq<u32>, f: u32, k: int)
    requires
        0 <= k < freqs.len(),
        freqs[k] == f,
        forall|j: int| 0 <= j < k ==> freqs[j] != f,
    ensures
        first_match(freqs, f) == k,
    decreases k,
{
    if k > 0 {
        assert(freqs.drop_first()[k - 1] == freqs[k]);
        assert forall|j: int| 0 <= j < k - 1 implies freqs.drop_first()[j] != f by {
            assert(freqs.drop_first()[j] == freqs[j + 1]);
        }
        lemma_first_match_found(freqs.drop_first(), f, k - 1);
    }
}

proof fn lemma_first_match_absent(freqs: Seq<u32>, f: u32)
    requires
        forall|j: int| 0 <= j < freqs.len() ==> freqs[j] != f,
    ensures
        first_match(freqs, f) == -1,
    decreases freqs.len(),
{
    if freqs.len() > 0 {
        assert forall|j: int| 0 <= j < freqs.drop_first().len() implies freqs.drop_first()[j]
            != f by {
            assert(freqs.drop_first()[j] == freqs[j + 1]);
        }
        lemma_first_match_absent(freqs.drop_first(), f);
    }
}

/// What a non-negative `first_match` result means.
pub proof fn lemma_first_match_props(freqs: Seq<u32>, f: u32)
    ensures
        first_match(freqs, f) >= 0 ==> 0 <= first_match(freqs, f) < freqs.len() && freqs[first_match(
            freqs,
            f,
        )] == f && (forall|j: int| 0 <= j < first_match(freqs, f) ==> freqs[j] != f),
        first_match(freqs, f) >= 0 <==> freqs.contains(f),
    decreases freqs.len(),
{
    if freqs.len() > 0 {
        lemma_first_match_props(freqs.drop_first(), f);
        if freqs[0] != f {
            let r = first_match(freqs.drop_first(), f);
            if r >= 0 {
                assert(freqs.drop_first()[r] == freqs[r + 1]);
                assert forall|j: int| 0 <= j < r + 1 implies freqs[j] != f by {
                    if j > 0 {
                        assert(freqs.drop_first()[j - 1] == freqs[j]);
                    }
                }
                assert(freqs.contains(f)) by {
                    assert(freqs[r + 1] == f);
                }
            } else {
                assert forall|j: int| 0 <= j < freqs.len() implies freqs[j] != f by {
                    if j > 0 {
                        assert(freqs.drop_first()[j - 1] == freqs[j]);
                    }
                }
                assert(!freqs.contains(f));
            }
        } else {
            assert(freqs.contains(f)) by {
                assert(freqs[0] == f);
            }
        }
    }
}

/// Decides whether the requested frequency `f` is usable, given the parsed
/// available-frequency list.
pub fn frequency_decision(freqs: &Vec<u32>, f: u32) -> (r: FreqDecision)
    ensures
        r == spec_frequency_decision(freqs@, f),
{
    let mut i: usize = 0;
    while i < freqs.len()
        invariant
            0 <= i <= freqs@.len(),
            forall|j: int| 0 <= j < i ==> freqs@[j] != f,
        decreases freqs@.len() - i,
    {
        if freqs[i] == f {
            proof {
                lemma_first_match_found(freqs@, f, i as int);
            }
            if i == 0 {
                return FreqDecision::Accepted;
            }
            let prev: u32 = freqs[i - 1];
            if f >= 1000 && f - 1000 == prev {
                return FreqDecision::RoundedDown(prev);
            } else {
                return FreqDecision::Accepted;
            }
        }
        i = i + 1;
    }
    proof {
        lemma_first_match_absent(freqs@, f);
    }
    FreqDecision::Absent
}

/// True exactly when the requested frequency is usable.
pub fn frequency_available(freqs: &Vec<u32>, f: u32) -> (r: bool)
    ensures
        r == (spec_frequency_decision(freqs@, f) is Accepted),
{
    let d = frequency_decision(freqs, f);
    matches!(d, FreqDecision::Accepted)
}

/// The advertised frequencies a well-formed available-frequencies file
/// denotes, in file order.
pub open spec fn spec_freq_list(s: Seq<u8>) -> Seq<u32> {
    tokens_of(s).map_values(|t: Seq<u8>| decimal_value(t) as u32)
}

/// The full check the original performs on the raw file text: parse the
/// whitespace-separated list, then decide on `f`.
///
/// A token that is not a numeral is the fatal environment fault; it comes
/// back in `Err` for the caller's diagnostic.
pub fn cpufreq_available(raw: &[u8], freq: u32) -> (r: Result<FreqDecision, Vec<u8>>)
    ensures
        r is Ok <==> all_numerals(tokens_of(raw@)),
        r matches Ok(d) ==> d == spec_frequency_decision(spec_freq_list(raw@), freq),
        r matches Err(t) ==> exists|k: int|
            0 <= k < tokens_of(raw@).len() && t@ == #[trigger] tokens_of(raw@)[k]
                && !is_u32_numeral(tokens_of(raw@)[k]) && (forall|j: int|
                0 <= j < k ==> is_u32_numeral(#[trigger] tokens_of(raw@)[j])),
{
    match parse_freq_list(raw) {
        Ok(vals) => {
            proof {
                assert forall|k: int| 0 <= k < vals@.len() implies vals@[k] == spec_freq_list(
                    raw@,
                )[k] by {
                    crate::parse::lemma_decimal_value_nonneg(tokens_of(raw@)[k]);
                }
                assert(vals@ =~= spec_freq_list(raw@));
            }
            Ok(frequency_decision(&vals, freq))
        },
        Err(t) => Err(t),
    }
}

/// The smallest advertised frequency is always usable, whatever its
/// neighbours look like: no advertised entry can lie exactly 1000 kHz
/// below it.
pub proof fn lemma_min_frequency_accepted(freqs: Seq<u32>, f: u32)
    requires
        freqs.contains(f),
        forall|i: int| 0 <= i < freqs.len() ==> f <= #[trigger] freqs[i],
    ensures
        spec_frequency_decision(freqs, f) is Accepted,
{
    lemma_first_match_props(freqs, f);
    let k = first_match(freqs, f);
    if k > 0 {
        assert(f <= freqs[k - 1]);
    }
}

/// A requested frequency whose first occurrence stands exactly 1000 kHz
/// above its immediate predecessor is rejected, naming that predecessor.
pub proof fn lemma_rounding_alias_rejected(freqs: Seq<u32>, f: u32, k: int)
    requires
        0 < k < freqs.len(),
        freqs[k] == f,
        forall|j: int| 0 <= j < k ==> freqs[j] != f,
        freqs[k - 1] + 1000 == f,
    ensures
        spec_frequency_decision(freqs, f) == FreqDecision::RoundedDown(freqs[k - 1]),
{
    lemma_first_match_found(freqs, f, k);
}

/// `s` without its leading ASCII whitespace.
pub open spec fn trim_front(s: Seq<u8>) -> Seq<u8>
    decreases s.len(),
{
    if s.len() > 0 && is_space(s[0]) {
        trim_front(s.drop_first())
    } else {
        s
    }
}

/// `s` without its trailing ASCII whitespace.
pub open spec fn trim_back(s: Seq<u8>) -> Seq<u8>
    decreases s.len(),
{
    if s.len() > 0 && is_space(s.last()) {
        trim_back(s.drop_last())
    } else {
        s
    }
}

/// `s` without surrounding ASCII whitespace.
pub open spec fn spec_trim(s: Seq<u8>) -> Seq<u8> {
    trim_back(trim_front(s))
}

/// The ASCII-lowercase image of a byte.
pub open spec fn lower(b: u8) -> u8 {
    if 65 <= b <= 90 {
        (b + 32) as u8
    } else {
        b
    }
}

/// Byte strings equal up to ASCII case.
pub open spec fn eq_ignore_case(a: Seq<u8>, b: Seq<u8>) -> bool {
    a.len() == b.len() && forall|i: int| 0 <= i < a.len() ==> lower(#[trigger] a[i]) == lower(b[i])
}

/// The required scaling driver token, byte for byte: "acpi-cpufreq".
pub open spec fn driver_name() -> Seq<u8> {
    seq![97u8, 99u8, 112u8, 105u8, 45u8, 99u8, 112u8, 117u8, 102u8, 114u8, 101u8, 113u8]
}

/// The driver file contents name the required driver once surrounding
/// whitespace is dropped, compared without regard to ASCII case.
pub open spec fn spec_driver_matches(s: Seq<u8>) -> bool {
    eq_ignore_case(spec_trim(s), driver_name())
}

/// Drops surrounding ASCII whitespace from `s`.
pub fn trim_ascii(s: &[u8]) -> (r: Vec<u8>)
    ensures
        r@ == spec_trim(s@),
{
    let mut lo: usize = 0;
    proof {
        assert(s@.skip(0) =~= s@);
    }
    while lo < s.len() && (s[lo] == 32 || s[lo] == 9 || s[lo] == 10 || s[lo] == 13)
        invariant
            0 <= lo <= s@.len(),
            trim_front(s@) == trim_front(s@.skip(lo as int)),
        decreases s@.len() - lo,
    {
        proof {
            assert(s@.skip(lo as int)[0] == s@[lo as int]);
            assert(s@.skip(lo as int).drop_first() =~= s@.skip(lo as int + 1));
        }
        lo = lo + 1;
    }
    proof {
        if lo < s@.len() {
            assert(s@.skip(lo as int)[0] == s@[lo as int]);
        }
        assert(trim_front(s@) == s@.skip(lo as int));
    }
    let ghost t = s@.skip(lo as int);
    let mut hi: usize = s.len();
    proof {
        assert(t.len() == s@.len() - lo);
        assert(forall|j: int| 0 <= j < t.len() ==> #[trigger] t[j] == s@[lo + j]);
        assert(t.take(s@.len() - lo) =~= t);
    }
    while hi > lo && (s[hi - 1] == 32 || s[hi - 1] == 9 || s[hi - 1] == 10 || s[hi - 1] == 13)
        invariant
            lo <= hi <= s@.len(),
            t == s@.skip(lo as int),
            t.len() == s@.len() - lo,
            forall|j: int| 0 <= j < t.len() ==> #[trigger] t[j] == s@[lo + j],
            trim_back(t) == trim_back(t.take(hi - lo)),
        decreases hi,
    {
        proof {
            assert(t.take(hi - lo).last() == s@[hi - 1]);
            assert(t.take(hi - lo).drop_last() =~= t.take(hi - 1 - lo));
        }
        hi = hi - 1;
    }
    proof {
        if hi > lo {
            assert(t.take(hi - lo).last() == s@[hi - 1]);
        }
        assert(trim_back(t.take(hi - lo)) == t.take(hi - lo));
    }
    let mut r: Vec<u8> = Vec::new();
    let mut i: usize = lo;
    while i < hi
        invariant
            lo <= i <= hi <= s@.len(),
            t.len() == s@.len() - lo,
            forall|j: int| 0 <= j < t.len() ==> #[trigger] t[j] == s@[lo + j],
            r@ == t.take(i - lo),
        decreases hi - i,
    {
        r.push(s[i]);
        proof {
            assert(t.take(i - lo).push(s@[i as int]) =~= t.take(i + 1 - lo));
        }
        i = i + 1;
    }
    r
}

/// Compares two byte strings for equality up to ASCII case.
pub fn eq_ignore_ascii_case_bytes(a: &[u8], b: &[u8]) -> (r: bool)
    ensures
        r == eq_ignore_case(a@, b@),
{
    if a.len() != b.len() {
        return false;
    }
    let mut i: usize = 0;
    while i < a.len()
        invariant
            0 <= i <= a@.len(),
            a@.len() == b@.len(),
            forall|j: int| 0 <= j < i ==> lower(#[trigger] a@[j]) == lower(b@[j]),
        decreases a@.len() - i,
    {
        let mut x: u8 = a[i];
        let mut y: u8 = b[i];
        if 65 <= x && x <= 90 {
            x = x + 32;
        }
        if 65 <= y && y <= 90 {
            y = y + 32;
        }
        if x != y {
            assert(lower(a@[i as int]) != lower(b@[i as int]));
            return false;
        }
        i = i + 1;
    }
    true
}

/// The required scaling driver token as bytes.
fn required_driver() -> (r: Vec<u8>)
    ensures
        r@ == driver_name(),
{
    let mut r: Vec<u8> = Vec::new();
    r.push(97);
    r.push(99);
    r.push(112);
    r.push(105);
    r.push(45);
    r.push(99);
    r.push(112);
    r.push(117);
    r.push(102);
    r.push(114);
    r.push(101);
    r.push(113);
    proof {
        assert(r@ =~= driver_name());
    }
    r
}

/// True exactly when the driver file contents, trimmed of surrounding
/// whitespace, name the required scaling driver up to ASCII case.
pub fn scaling_driver_is_supported(contents: &[u8]) -> (r: bool)
    ensures
        r == spec_driver_matches(contents@),
{
    let t = trim_ascii(contents);
    let d = required_driver();
    eq_ignore_ascii_case_bytes(t.as_slice(), d.as_slice())
}

/// Relies on std::path::Path::is_dir: true exactly when the path names a
/// directory that exists on disk — the topology probe for a core.
#[verifier::external_body]
fn topology_dir_exists(core: u32) -> bool {
    std::path::Path::new(&format!("/sys/devices/system/cpu/cpu{}/topology", core)).is_dir()
}

/// True when a topology descriptor exists for `core`.  The answer depends
/// on the machine the probe runs on, so nothing more can be promised of it.
pub fn core_available(core: u32) -> bool {
    topology_dir_exists(core)
}

} // verus!
