//! Byte-level helpers shared by the diff reader and path matching.
use vstd::prelude::*;

verus! {

pub const DIGIT_0: u8 = 48;

pub const DIGIT_9: u8 = 57;

/// `lit` occurs in `s` starting at position `i`.
pub open spec fn lit_at(s: Seq<u8>, i: int, lit: Seq<u8>) -> bool {
    0 <= i && i + lit.len() <= s.len() && s.subrange(i, i + lit.len()) == lit
}

pub open spec fn is_digit(b: u8) -> bool {
    DIGIT_0 <= b && b <= DIGIT_9
}

/// Length of the run of ASCII digits in `s` that starts at `i`.
pub open spec fn digit_run(s: Seq<u8>, i: int) -> nat
    decreases s.len() - i,
{
    if 0 <= i < s.len() && is_digit(s[i]) {
        1 + digit_run(s, i + 1)
    } else {
        0
    }
}

/// Decimal value of a string of ASCII digits.
pub open spec fn decimal(s: Seq<u8>) -> nat
    decreases s.len(),
{
    if s.len() == 0 {
        0
    } else {
        decimal(s.drop_last()) * 10 + (s.last() - DIGIT_0) as nat
    }
}

/// The unsigned number written at `i` and the position just past it; none where no
/// digit stands at `i` or the value does not fit in 64 bits.
pub open spec fn number_at(s: Seq<u8>, i: int) -> Option<(u64, int)> {
    let n = digit_run(s, i);
    let v = decimal(s.subrange(i, i + n));
    if n > 0 && v <= u64::MAX {
        Some((v as u64, i + n))
    } else {
        None
    }
}

proof fn lemma_digit_run_bound(s: Seq<u8>, i: int)
    requires
        0 <= i <= s.len(),
    ensures
        i + digit_run(s, i) <= s.len(),
        forall|k: int| i <= k < i + digit_run(s, i) ==> is_digit(#[trigger] s[k]),
        i + digit_run(s, i) < s.len() ==> !is_digit(s[i + digit_run(s, i)]),
    decreases s.len() - i,
{
    if i < s.len() && is_digit(s[i]) {
        lemma_digit_run_bound(s, i + 1);
    }
}

proof fn lemma_digit_run_from(s: Seq<u8>, i: int, j: int)
    requires
        0 <= i <= j <= s.len(),
        forall|k: int| i <= k < j ==> is_digit(#[trigger] s[k]),
    ensures
        digit_run(s, i) == (j - i) + digit_run(s, j),
    decreases j - i,
{
    if i < j {
        lemma_digit_run_from(s, i + 1, j);
    }
}

proof fn lemma_decimal_grows(s: Seq<u8>, i: int, j: int, k: int)
    requires
        0 <= i <= j <= k <= s.len(),
        forall|m: int| i <= m < k ==> is_digit(#[trigger] s[m]),
    ensures
        decimal(s.subrange(i, j)) <= decimal(s.subrange(i, k)),
    decreases k - j,
{
    if j < k {
        lemma_decimal_grows(s, i, j, k - 1);
        assert(s.subrange(i, k).drop_last() =~= s.subrange(i, k - 1));
    }
}

/// Reads the unsigned decimal number that starts at `i`.
pub fn parse_number(s: &[u8], i: usize) -> (r: Option<(u64, usize)>)
    requires
        i <= s@.len(),
    ensures
        match r {
            Some((v, e)) => number_at(s@, i as int) == Some((v, e as int)) && e <= s@.len(),
            None => number_at(s@, i as int) is None,
        },
{
    proof {
        lemma_digit_run_bound(s@, i as int);
    }
    let mut j: usize = i;
    let mut value: u64 = 0;
    while j < s.len() && DIGIT_0 <= s[j] && s[j] <= DIGIT_9
        invariant
            i <= j <= s@.len(),
            forall|k: int| i <= k < j ==> is_digit(#[trigger] s@[k]),
            value as nat == decimal(s@.subrange(i as int, j as int)),
        decreases s@.len() - j,
    {
        let d: u64 = (s[j] - DIGIT_0) as u64;
        proof {
            assert(s@.subrange(i as int, j + 1).drop_last() =~= s@.subrange(i as int, j as int));
        }
        if value > (u64::MAX - d) / 10 {
            proof {
                lemma_digit_run_from(s@, i as int, j + 1);
                lemma_digit_run_bound(s@, j + 1);
                lemma_decimal_grows(
                    s@,
                    i as int,
                    j + 1,
                    i + digit_run(s@, i as int),
                );
            }
            return None;
        }
        value = value * 10 + d;
        j = j + 1;
    }
    proof {
        lemma_digit_run_from(s@, i as int, j as int);
        if j < s@.len() {
            assert(digit_run(s@, j as int) == 0);
        }
    }
    if j == i {
        None
    } else {
        Some((value, j))
    }
}

/// Whether `lit` occurs in `s` starting at `i`.
pub fn has_lit_at(s: &[u8], i: usize, lit: &[u8]) -> (r: bool)
    ensures
        r == lit_at(s@, i as int, lit@),
{
    if i > s.len() || lit.len() > s.len() - i {
        return false;
    }
    let mut k: usize = 0;
    while k < lit.len()
        invariant
            i + lit@.len() <= s@.len() <= usize::MAX,
            k <= lit@.len(),
            forall|m: int| 0 <= m < k ==> s@[i + m] == lit@[m],
        decreases lit@.len() - k,
    {
        if s[i + k] != lit[k] {
            proof {
                assert(s@.subrange(i as int, i + lit@.len())[k as int] != lit@[k as int]);
            }
            return false;
        }
        k = k + 1;
    }
    proof {
        assert(s@.subrange(i as int, i + lit@.len()) =~= lit@);
    }
    true
}

} // verus!

verus! {

/// Whether two byte strings are equal.
pub fn same_bytes(a: &[u8], b: &[u8]) -> (r: bool)
    ensures
        r == (a@ == b@),
{
    if a.len() != b.len() {
        return false;
    }
    let r = has_lit_at(a, 0, b);
    proof {
        assert(a@.subrange(0, b@.len() as int) =~= a@);
    }
    r
}

} // verus!
