//! Byte-level parsing of the sysfs text surfaces: ASCII classification,
//! decimal numerals, and whitespace-separated token lists.

use vstd::prelude::*;

verus! {

/// ASCII whitespace as it occurs in the sysfs files: space, tab, LF, CR.
pub open spec fn is_space(b: u8) -> bool {
    b == 32 || b == 9 || b == 10 || b == 13
}

/// ASCII decimal digit.
pub open spec fn is_digit(b: u8) -> bool {
    48 <= b <= 57
}

/// Numeric value of an ASCII digit byte.
pub open spec fn digit_val(b: u8) -> int {
    b - 48
}

/// Every byte of `s` is an ASCII digit.
pub open spec fn all_digits(s: Seq<u8>) -> bool {
    forall|i: int| 0 <= i < s.len() ==> is_digit(#[trigger] s[i])
}

/// The number an all-digit byte string denotes in decimal.
pub open spec fn decimal_value(s: Seq<u8>) -> int
    decreases s.len(),
{
    if s.len() == 0 {
        0
    } else {
        decimal_value(s.drop_last()) * 10 + digit_val(s.last())
    }
}

/// `s` is a numeral this library accepts: nonempty, all digits, and its
/// value fits in a `u32`.
pub open spec fn is_u32_numeral(s: Seq<u8>) -> bool {
    s.len() > 0 && all_digits(s) && decimal_value(s) <= u32::MAX
}

/// An all-digit numeral denotes a non-negative number.
pub proof fn lemma_decimal_value_nonneg(s: Seq<u8>)
    requires
        all_digits(s),
    ensures
        decimal_value(s) >= 0,
    decreases s.len(),
{
    if s.len() > 0 {
        assert forall|i: int| 0 <= i < s.drop_last().len() implies is_digit(
            #[trigger] s.drop_last()[i],
        ) by {
            assert(s.drop_last()[i] == s[i]);
        }
        lemma_decimal_value_nonneg(s.drop_last());
    }
}

/// Reading more digits can only make the denoted number larger.
proof fn lemma_prefix_value_le(s: Seq<u8>, i: int)
    requires
        all_digits(s),
        0 <= i <= s.len(),
    ensures
        decimal_value(s.take(i)) <= decimal_value(s),
    decreases s.len() - i,
{
    if i == s.len() {
        assert(s.take(i) =~= s);
    } else {
        assert(s.take(i + 1).drop_last() =~= s.take(i));
        assert(s.take(i + 1).last() == s[i]);
        assert forall|j: int| 0 <= j < s.take(i).len() implies is_digit(
            #[trigger] s.take(i)[j],
        ) by {
            assert(s.take(i)[j] == s[j]);
        }
        lemma_decimal_value_nonneg(s.take(i));
        assert(decimal_value(s.take(i + 1)) == decimal_value(s.take(i)) * 10 + digit_val(s[i]));
        lemma_prefix_value_le(s, i + 1);
    }
}

/// Parses an all-digit byte string as a decimal `u32`.
///
/// Returns `Some` exactly on nonempty all-digit input whose value fits in a
/// `u32`; anything else (empty, a stray byte, overflow) is `None`.
pub fn parse_u32(s: &[u8]) -> (r: Option<u32>)
    ensures
        r is Some <==> is_u32_numeral(s@),
        r matches Some(v) ==> v == decimal_value(s@),
{
    if s.len() == 0 {
        return None;
    }
    let mut acc: u64 = 0;
    let mut i: usize = 0;
    while i < s.len()
        invariant
            0 <= i <= s@.len(),
            s@.len() > 0,
            all_digits(s@.take(i as int)),
            acc == decimal_value(s@.take(i as int)),
            acc <= u32::MAX,
        decreases s@.len() - i,
    {
        let b: u8 = s[i];
        if !(48 <= b && b <= 57) {
            assert(!is_digit(s@[i as int]));
            return None;
        }
        let d: u64 = (b - 48) as u64;
        let next: u64 = acc * 10 + d;
        proof {
            assert(s@.take(i + 1).drop_last() =~= s@.take(i as int));
            assert(s@.take(i + 1).last() == s@[i as int]);
            assert forall|j: int| 0 <= j < i + 1 implies is_digit(
                #[trigger] s@.take(i + 1)[j],
            ) by {
                assert(s@.take(i + 1)[j] == s@[j]);
            }
        }
        if next > 0xFFFF_FFFF {
            proof {
                if all_digits(s@) {
                    lemma_prefix_value_le(s@, i + 1);
                }
            }
            return None;
        }
        acc = next;
        i = i + 1;
    }
    proof {
        assert(s@.take(i as int) =~= s@);
    }
    Some(acc as u32)
}

/// The whitespace-separated tokens of `s` that follow a partial token `cur`
/// already read: `cur` is extended by leading non-space bytes and emitted
/// (if nonempty) at the first space or at the end of the input.
pub open spec fn tokens_from(s: Seq<u8>, cur: Seq<u8>) -> Seq<Seq<u8>>
    decreases s.len(),
{
    if s.len() == 0 {
        if cur.len() == 0 {
            Seq::empty()
        } else {
            seq![cur]
        }
    } else if is_space(s[0]) {
        if cur.len() == 0 {
            tokens_from(s.drop_first(), Seq::empty())
        } else {
            seq![cur] + tokens_from(s.drop_first(), Seq::empty())
        }
    } else {
        tokens_from(s.drop_first(), cur.push(s[0]))
    }
}

/// The whitespace-separated tokens of `s`, in order of appearance.
pub open spec fn tokens_of(s: Seq<u8>) -> Seq<Seq<u8>> {
    tokens_from(s, Seq::empty())
}

/// The views of the vectors in `ts`.
pub open spec fn views_of(ts: Seq<Vec<u8>>) -> Seq<Seq<u8>> {
    ts.map_values(|t: Vec<u8>| t@)
}

/// Splits `s` at runs of ASCII whitespace into its maximal non-space tokens.
pub fn tokenize(s: &[u8]) -> (r: Vec<Vec<u8>>)
    ensures
        views_of(r@) == tokens_of(s@),
{
    let mut out: Vec<Vec<u8>> = Vec::new();
    let mut cur: Vec<u8> = Vec::new();
    let mut i: usize = 0;
    proof {
        assert(s@.skip(0) =~= s@);
        assert(views_of(out@) + tokens_from(s@, cur@) =~~= tokens_of(s@));
    }
    while i < s.len()
        invariant
            0 <= i <= s@.len(),
            tokens_of(s@) == views_of(out@) + tokens_from(s@.skip(i as int), cur@),
        decreases s@.len() - i,
    {
        proof {
            assert(s@.skip(i as int).drop_first() =~= s@.skip(i as int + 1));
            assert(s@.skip(i as int)[0] == s@[i as int]);
        }
        let ghost prev_out = out@;
        let ghost prev_cur = cur@;
        let b: u8 = s[i];
        if b == 32 || b == 9 || b == 10 || b == 13 {
            if cur.len() > 0 {
                out.push(cur);
                cur = Vec::new();
                proof {
                    assert(views_of(out@) =~~= views_of(prev_out) + seq![prev_cur]);
                    assert(tokens_from(s@.skip(i as int), prev_cur) == seq![prev_cur]
                        + tokens_from(s@.skip(i as int + 1), cur@));
                    assert(views_of(out@) + tokens_from(s@.skip(i as int + 1), cur@)
                        =~~= views_of(prev_out) + tokens_from(s@.skip(i as int), prev_cur));
                }
            } else {
                proof {
                    assert(tokens_from(s@.skip(i as int), prev_cur) == tokens_from(
                        s@.skip(i as int + 1),
                        Seq::<u8>::empty(),
                    ));
                    assert(cur@ =~= Seq::<u8>::empty());
                }
            }
        } else {
            cur.push(b);
            proof {
                assert(cur@ =~= prev_cur.push(s@[i as int]));
                assert(tokens_from(s@.skip(i as int), prev_cur) == tokens_from(
                    s@.skip(i as int + 1),
                    prev_cur.push(s@[i as int]),
                ));
            }
        }
        i = i + 1;
    }
    proof {
        assert(s@.skip(i as int) =~= Seq::<u8>::empty());
    }
    if cur.len() > 0 {
        let ghost prev_out = out@;
        let ghost prev_cur = cur@;
        out.push(cur);
        proof {
            assert(views_of(out@) =~~= views_of(prev_out) + seq![prev_cur]);
            assert(tokens_of(s@) =~~= views_of(out@));
        }
    } else {
        proof {
            assert(tokens_of(s@) =~~= views_of(out@));
        }
    }
    out
}

/// Every token of `toks` is an acceptable `u32` numeral.
pub open spec fn all_numerals(toks: Seq<Seq<u8>>) -> bool {
    forall|k: int| 0 <= k < toks.len() ==> is_u32_numeral(#[trigger] toks[k])
}

fn copy_bytes(v: &Vec<u8>) -> (r: Vec<u8>)
    ensures
        r@ == v@,
{
    let mut r: Vec<u8> = Vec::new();
    let mut i: usize = 0;
    while i < v.len()
        invariant
            0 <= i <= v@.len(),
            r@ == v@.take(i as int),
        decreases v@.len() - i,
    {
        r.push(v[i]);
        proof {
            assert(v@.take(i as int).push(v@[i as int]) =~= v@.take(i as int + 1));
        }
        i = i + 1;
    }
    proof {
        assert(v@.take(i as int) =~= v@);
    }
    r
}

/// Parses a whitespace-separated list of decimal numerals, as the
/// available-frequencies file holds it.
///
/// `Ok` exactly when every token is an acceptable numeral; the values come
/// back in file order.  Otherwise the first offending token comes back in
/// `Err`, for the caller's diagnostic.
pub fn parse_freq_list(s: &[u8]) -> (r: Result<Vec<u32>, Vec<u8>>)
    ensures
        r is Ok <==> all_numerals(tokens_of(s@)),
        r matches Ok(v) ==> v@.len() == tokens_of(s@).len() && (forall|k: int|
            0 <= k < v@.len() ==> v@[k] == decimal_value(#[trigger] tokens_of(s@)[k])),
        r matches Err(t) ==> exists|k: int|
            0 <= k < tokens_of(s@).len() && t@ == #[trigger] tokens_of(s@)[k]
                && !is_u32_numeral(tokens_of(s@)[k]) && (forall|j: int|
                0 <= j < k ==> is_u32_numeral(#[trigger] tokens_of(s@)[j])),
{
    let toks = tokenize(s);
    let mut vals: Vec<u32> = Vec::new();
    let mut k: usize = 0;
    while k < toks.len()
        invariant
            0 <= k <= toks@.len(),
            views_of(toks@) == tokens_of(s@),
            vals@.len() == k,
            forall|j: int| 0 <= j < k ==> is_u32_numeral(#[trigger] tokens_of(s@)[j]),
            forall|j: int| 0 <= j < k ==> vals@[j] == decimal_value(#[trigger] tokens_of(s@)[j]),
        decreases toks@.len() - k,
    {
        proof {
            assert(tokens_of(s@)[k as int] == toks@[k as int]@);
        }
        match parse_u32(toks[k].as_slice()) {
            Some(v) => {
                vals.push(v);
            },
            None => {
                return Err(copy_bytes(&toks[k]));
            },
        }
        k = k + 1;
    }
    Ok(vals)
}

} // verus!
