//! Byte-string helpers: ASCII literals, decimal rendering of integers, and
//! comparisons.  Localized text is handled as UTF-8 bytes throughout.

use vstd::prelude::*;
use vstd::string::StringSliceAdditionalSpecFns;

verus! {

/// The decimal digits of `n`, most significant first.
pub open spec fn dec_nat(n: nat) -> Seq<u8>
    decreases n,
{
    if n < 10 {
        seq![(48 + n) as u8]
    } else {
        dec_nat(n / 10) + seq![(48 + n % 10) as u8]
    }
}

/// The decimal rendering of a signed value, with a leading minus sign when
/// negative.
pub open spec fn dec_int(n: int) -> Seq<u8> {
    if n >= 0 {
        dec_nat(n as nat)
    } else {
        "-".spec_bytes() + dec_nat((-n) as nat)
    }
}

/// Appends the UTF-8 bytes of a literal.
pub fn append_lit(out: &mut Vec<u8>, s: &str)
    ensures
        final(out)@ == old(out)@ + s.spec_bytes(),
{
    let b = s.as_bytes();
    let mut i: usize = 0;
    while i < b.len()
        invariant
            i <= b@.len(),
            b@ == s.spec_bytes(),
            out@ == old(out)@ + b@.take(i as int),
        decreases b@.len() - i,
    {
        let x = *vstd::slice::slice_index_get(b, i);
        out.push(x);
        assert(b@.take(i + 1) =~= b@.take(i as int) + seq![b@[i as int]]);
        i = i + 1;
    }
    assert(b@.take(b@.len() as int) =~= b@);
}

/// Appends a copy of the given bytes.
pub fn append_bytes(out: &mut Vec<u8>, s: &Vec<u8>)
    ensures
        final(out)@ == old(out)@ + s@,
{
    let mut i: usize = 0;
    while i < s.len()
        invariant
            i <= s@.len(),
            out@ == old(out)@ + s@.take(i as int),
        decreases s@.len() - i,
    {
        out.push(s[i]);
        assert(s@.take(i + 1) =~= s@.take(i as int) + seq![s@[i as int]]);
        i = i + 1;
    }
    assert(s@.take(s@.len() as int) =~= s@);
}

/// Appends the decimal digits of `n`.
pub fn append_u64(out: &mut Vec<u8>, n: u64)
    ensures
        final(out)@ == old(out)@ + dec_nat(n as nat),
    decreases n,
{
    if n < 10 {
        out.push(48 + n as u8);
        assert(final(out)@ =~= old(out)@ + dec_nat(n as nat));
    } else {
        append_u64(out, n / 10);
        out.push(48 + (n % 10) as u8);
        assert(final(out)@ =~= old(out)@ + dec_nat(n as nat));
    }
}

/// Appends the decimal rendering of a signed value.
pub fn append_i64(out: &mut Vec<u8>, n: i64)
    ensures
        final(out)@ == old(out)@ + dec_int(n as int),
{
    if n >= 0 {
        append_u64(out, n as u64);
    } else {
        append_lit(out, "-");
        let m: u64 = (-(n + 1)) as u64 + 1;
        assert(m == -(n as int));
        append_u64(out, m);
        assert(final(out)@ =~= old(out)@ + dec_int(n as int));
    }
}

/// The bytes of an ASCII literal as a fresh vector.
pub fn lit_bytes(s: &str) -> (r: Vec<u8>)
    ensures
        r@ == s.spec_bytes(),
{
    let mut out: Vec<u8> = Vec::new();
    append_lit(&mut out, s);
    out
}

/// Byte-for-byte equality.
pub fn bytes_eq(a: &Vec<u8>, b: &Vec<u8>) -> (r: bool)
    ensures
        r == (a@ == b@),
{
    if a.len() != b.len() {
        return false;
    }
    let mut i: usize = 0;
    while i < a.len()
        invariant
            i <= a@.len(),
            a@.len() == b@.len(),
            forall|j: int| 0 <= j < i ==> a@[j] == b@[j],
        decreases a@.len() - i,
    {
        if a[i] != b[i] {
            return false;
        }
        i = i + 1;
    }
    proof {
        assert(a@ =~= b@);
    }
    true
}

/// A digit-only string of at most eighteen digits (so its value fits `i64`).
pub open spec fn dec_ok(s: Seq<u8>) -> bool {
    1 <= s.len() <= 18 && forall|j: int| 0 <= j < s.len() ==> 48 <= #[trigger] s[j] <= 57
}

/// The value of a digit string, most significant digit first.
pub open spec fn dec_value(s: Seq<u8>) -> int
    decreases s.len(),
{
    if s.len() == 0 {
        0
    } else {
        dec_value(s.take(s.len() - 1)) * 10 + (s.last() - 48)
    }
}

pub open spec fn pow10(n: nat) -> int
    decreases n,
{
    if n == 0 {
        1
    } else {
        10 * pow10((n - 1) as nat)
    }
}

proof fn lemma_dec_value_bound(s: Seq<u8>)
    requires
        forall|j: int| 0 <= j < s.len() ==> 48 <= #[trigger] s[j] <= 57,
    ensures
        0 <= dec_value(s) < pow10(s.len() as nat),
    decreases s.len(),
{
    if s.len() > 0 {
        let p = s.take(s.len() - 1);
        assert(forall|j: int| 0 <= j < p.len() ==> 48 <= #[trigger] p[j] <= 57);
        lemma_dec_value_bound(p);
        assert(dec_value(p) <= pow10((s.len() - 1) as nat) - 1);
        assert(dec_value(p) * 10 <= (pow10((s.len() - 1) as nat) - 1) * 10) by (nonlinear_arith)
            requires
                dec_value(p) <= pow10((s.len() - 1) as nat) - 1,
        ;
    }
}

proof fn lemma_pow10_18()
    ensures
        pow10(18) == 1000000000000000000,
        pow10(17) * 10 == pow10(18),
{
    assert(pow10(0) == 1);
    assert(pow10(1) == 10);
    assert(pow10(2) == 100);
    assert(pow10(3) == 1000);
    assert(pow10(4) == 10000);
    assert(pow10(5) == 100000);
    assert(pow10(6) == 1000000);
    assert(pow10(7) == 10000000);
    assert(pow10(8) == 100000000);
    assert(pow10(9) == 1000000000);
    assert(pow10(10) == 10000000000);
    assert(pow10(11) == 100000000000);
    assert(pow10(12) == 1000000000000);
    assert(pow10(13) == 10000000000000);
    assert(pow10(14) == 100000000000000);
    assert(pow10(15) == 1000000000000000);
    assert(pow10(16) == 10000000000000000);
    assert(pow10(17) == 100000000000000000);
    assert(pow10(18) == 1000000000000000000);
}

/// Parses a decimal integer: accepted exactly when the input is one to
/// eighteen digits, yielding its value.
pub fn parse_dec(s: &Vec<u8>) -> (r: Option<i64>)
    ensures
        dec_ok(s@) ==> (r matches Some(n) && n == dec_value(s@)),
        !dec_ok(s@) ==> r is None,
{
    if s.len() == 0 || s.len() > 18 {
        return None;
    }
    let mut i: usize = 0;
    let mut acc: i64 = 0;
    while i < s.len()
        invariant
            i <= s@.len(),
            1 <= s@.len() <= 18,
            forall|j: int| 0 <= j < i ==> 48 <= #[trigger] s@[j] <= 57,
            acc == dec_value(s@.take(i as int)),
            0 <= acc < pow10(i as nat),
        decreases s@.len() - i,
    {
        let c = s[i];
        if c < 48 || c > 57 {
            return None;
        }
        proof {
            lemma_pow10_18();
            assert(pow10(i as nat) <= pow10(17)) by {
                lemma_pow10_monotone(i as nat, 17);
            }
            assert(acc * 10 + 9 < pow10(18)) by (nonlinear_arith)
                requires
                    acc < pow10(17),
                    pow10(17) * 10 == pow10(18),
                    acc >= 0,
            ;
        }
        acc = acc * 10 + (c - 48) as i64;
        proof {
            assert(s@.take(i + 1).take(i as int) =~= s@.take(i as int));
            assert(s@.take(i + 1).last() == s@[i as int]);
            assert(pow10((i + 1) as nat) == 10 * pow10(i as nat));
            assert(acc < pow10((i + 1) as nat)) by (nonlinear_arith)
                requires
                    acc == dec_value(s@.take(i as int)) * 10 + (s@[i as int] - 48),
                    dec_value(s@.take(i as int)) < pow10(i as nat),
                    s@[i as int] <= 57,
                    pow10((i + 1) as nat) == 10 * pow10(i as nat),
                    dec_value(s@.take(i as int)) >= 0,
            ;
        }
        i = i + 1;
    }
    assert(s@.take(s@.len() as int) =~= s@);
    Some(acc)
}

proof fn lemma_pow10_monotone(a: nat, b: nat)
    requires
        a <= b,
    ensures
        pow10(a) <= pow10(b),
    decreases b,
{
    if a < b {
        lemma_pow10_monotone(a, (b - 1) as nat);
        assert(pow10(b) == 10 * pow10((b - 1) as nat));
        assert(pow10((b - 1) as nat) >= 1) by {
            lemma_pow10_pos((b - 1) as nat);
        }
    }
}

proof fn lemma_pow10_pos(n: nat)
    ensures
        pow10(n) >= 1,
    decreases n,
{
    if n > 0 {
        lemma_pow10_pos((n - 1) as nat);
    }
}

} // verus!
