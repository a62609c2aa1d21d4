use vstd::prelude::*;

verus! {

/// ASCII code of the digit `0`.
pub const DIGIT_ZERO: u8 = 0x30;

/// ASCII code of the digit `9`.
pub const DIGIT_NINE: u8 = 0x39;

/// Holds when `s` is a non-empty run of ASCII decimal digits.
pub open spec fn is_dec_digits(s: Seq<u8>) -> bool {
    s.len() > 0 && forall|i: int| 0 <= i < s.len() ==> DIGIT_ZERO <= #[trigger] s[i] <= DIGIT_NINE
}

/// The value of `s` read as a decimal numeral, most significant digit first.
/// On non-digit bytes the value is unspecified but well-defined.
pub open spec fn dec_val(s: Seq<u8>) -> int
    decreases s.len(),
{
    if s.len() == 0 {
        0
    } else {
        dec_val(s.drop_last()) * 10 + (s.last() - DIGIT_ZERO)
    }
}

/// A run of digits has a non-negative value.
pub proof fn lemma_dec_val_nonneg(s: Seq<u8>)
    requires
        forall|i: int| 0 <= i < s.len() ==> DIGIT_ZERO <= #[trigger] s[i] <= DIGIT_NINE,
    ensures
        dec_val(s) >= 0,
    decreases s.len(),
{
    if s.len() > 0 {
        lemma_dec_val_nonneg(s.drop_last());
    }
}

/// Reading more digits never shrinks the value: a prefix's value is a lower
/// bound for the whole numeral's value.
pub proof fn lemma_dec_val_prefix_le(s: Seq<u8>, k: int)
    requires
        forall|i: int| 0 <= i < s.len() ==> DIGIT_ZERO <= #[trigger] s[i] <= DIGIT_NINE,
        0 <= k <= s.len(),
    ensures
        dec_val(s.subrange(0, k)) <= dec_val(s),
    decreases s.len() - k,
{
    if k == s.len() {
        assert(s.subrange(0, k) =~= s);
    } else {
        lemma_dec_val_prefix_le(s, k + 1);
        let p = s.subrange(0, k);
        let q = s.subrange(0, k + 1);
        assert(q.drop_last() =~= p);
        assert(dec_val(q) == dec_val(p) * 10 + (s[k] - DIGIT_ZERO));
        lemma_dec_val_nonneg(p);
    }
}

/// Parses `s[from..to]` as a decimal numeral.
///
/// Returns the value exactly when that range is a non-empty run of digits
/// whose value fits an unsigned 64-bit integer; returns nothing otherwise.
pub fn parse_dec_range(s: &Vec<u8>, from: usize, to: usize) -> (r: Option<u64>)
    requires
        from <= to <= s@.len(),
    ensures
        (r is Some) <==> is_dec_digits(s@.subrange(from as int, to as int)) && dec_val(
            s@.subrange(from as int, to as int),
        ) <= u64::MAX,
        r matches Some(v) ==> v == dec_val(s@.subrange(from as int, to as int)),
{
    let ghost whole = s@.subrange(from as int, to as int);
    if from >= to {
        return None;
    }
    let mut i: usize = from;
    let mut acc: u64 = 0;
    while i < to
        invariant
            from <= i <= to <= s@.len(),
            whole == s@.subrange(from as int, to as int),
            from < to,
            forall|k: int| from <= k < i ==> DIGIT_ZERO <= #[trigger] s@[k] <= DIGIT_NINE,
            acc == dec_val(s@.subrange(from as int, i as int)),
        decreases to - i,
    {
        let b = s[i];
        if b < DIGIT_ZERO || b > DIGIT_NINE {
            assert(!is_dec_digits(whole)) by {
                assert(whole[i - from] == s@[i as int]);
            }
            return None;
        }
        let d = (b - DIGIT_ZERO) as u64;
        proof {
            let p = s@.subrange(from as int, i as int);
            let q = s@.subrange(from as int, i + 1);
            assert(q.drop_last() =~= p);
            assert(dec_val(q) == acc * 10 + d);
            lemma_dec_val_nonneg(p);
        }
        if acc > (u64::MAX - d) / 10 {
            proof {
                let q = s@.subrange(from as int, i + 1);
                vstd::arithmetic::div_mod::lemma_fundamental_div_mod(
                    (u64::MAX - d) as int,
                    10,
                );
                assert(dec_val(q) > u64::MAX);
                if is_dec_digits(whole) {
                    assert(whole.subrange(0, i + 1 - from) =~= q);
                    lemma_dec_val_prefix_le(whole, i + 1 - from);
                }
            }
            return None;
        }
        proof {
            vstd::arithmetic::div_mod::lemma_fundamental_div_mod((u64::MAX - d) as int, 10);
        }
        acc = acc * 10 + d;
        i = i + 1;
    }
    assert(whole =~= s@.subrange(from as int, to as int));
    Some(acc)
}

} // verus!
