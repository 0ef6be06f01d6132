//! Small helpers: rounding and text building.

use vstd::prelude::*;

verus! {

/// The least multiple of `at` that is not below `x`.
pub open spec fn spec_ceil_at(x: int, at: int) -> int
    recommends
        at > 0,
{
    (x + (at - 1)) / at * at
}

/// Rounds `x` up to the next multiple of `at`.
pub fn ceil_at(x: u32, at: u32) -> (r: u32)
    requires
        at > 0,
        x + (at - 1) <= u32::MAX,
    ensures
        r == spec_ceil_at(x as int, at as int),
        r % at == 0,
        x <= r < x + at,
{
    let q: u32 = (x + (at - 1)) / at;
    proof {
        lemma_ceil_at(x as int, at as int);
    }
    q * at
}

/// Rounding up lands on a multiple of `at` in `x .. x + at`.
pub proof fn lemma_ceil_at(x: int, at: int)
    requires
        x >= 0,
        at > 0,
    ensures
        spec_ceil_at(x, at) % at == 0,
        x <= spec_ceil_at(x, at) < x + at,
        spec_ceil_at(x, at) == ((x + (at - 1)) / at) * at,
{
    let y = x + (at - 1);
    let q = y / at;
    assert(y == at * q + y % at && 0 <= y % at < at) by {
        vstd::arithmetic::div_mod::lemma_fundamental_div_mod(y, at);
    }
    assert(q * at == at * q) by (nonlinear_arith);
    assert((q * at) % at == 0) by {
        vstd::arithmetic::div_mod::lemma_mod_multiples_basic(q, at);
    }
}

/// Two to the power `n`.
pub open spec fn two_to(n: nat) -> int
    decreases n,
{
    if n == 0 {
        1
    } else {
        2 * two_to((n - 1) as nat)
    }
}

/// The text of one decimal digit.
pub open spec fn digit_text(d: int) -> Seq<char> {
    if d == 0 {
        "0"@
    } else if d == 1 {
        "1"@
    } else if d == 2 {
        "2"@
    } else if d == 3 {
        "3"@
    } else if d == 4 {
        "4"@
    } else if d == 5 {
        "5"@
    } else if d == 6 {
        "6"@
    } else if d == 7 {
        "7"@
    } else if d == 8 {
        "8"@
    } else {
        "9"@
    }
}

/// The decimal text of a number, without leading zeros.
pub open spec fn decimal_text(n: nat) -> Seq<char>
    decreases n,
{
    if n < 10 {
        digit_text(n as int)
    } else {
        decimal_text(n / 10) + digit_text((n % 10) as int)
    }
}

/// The text of one decimal digit.
pub fn digit_str(d: u32) -> (r: &'static str)
    requires
        d < 10,
    ensures
        r@ == digit_text(d as int),
{
    if d == 0 {
        "0"
    } else if d == 1 {
        "1"
    } else if d == 2 {
        "2"
    } else if d == 3 {
        "3"
    } else if d == 4 {
        "4"
    } else if d == 5 {
        "5"
    } else if d == 6 {
        "6"
    } else if d == 7 {
        "7"
    } else if d == 8 {
        "8"
    } else {
        "9"
    }
}

/// Appends the decimal text of `n` to `s`.
pub fn push_decimal(s: &mut String, n: u64)
    ensures
        final(s)@ == old(s)@ + decimal_text(n as nat),
    decreases n,
{
    if n >= 10 {
        push_decimal(s, n / 10);
    }
    s.append(digit_str((n % 10) as u32));
    proof {
        assert(final(s)@ =~= old(s)@ + decimal_text(n as nat));
    }
}

/// The characters of a string, in order.
pub fn chars_of(s: &str) -> (v: Vec<char>)
    ensures
        v@ == s@,
{
    let n = s.unicode_len();
    let mut v: Vec<char> = Vec::new();
    let mut i: usize = 0;
    while i < n
        invariant
            n == s@.len(),
            i <= n,
            v@ == s@.take(i as int),
        decreases n - i,
    {
        v.push(s.get_char(i));
        i += 1;
        proof {
            assert(v@ =~= s@.take(i as int));
        }
    }
    proof {
        assert(s@.take(n as int) =~= s@);
    }
    v
}

/// Whether two strings hold the same characters.
pub fn same_text(a: &str, b: &str) -> (r: bool)
    ensures
        r == (a@ == b@),
{
    let x = chars_of(a);
    let y = chars_of(b);
    if x.len() != y.len() {
        return false;
    }
    let mut i: usize = 0;
    while i < x.len()
        invariant
            x@ == a@,
            y@ == b@,
            x.len() == y.len(),
            i <= x.len(),
            forall|j: int| 0 <= j < i ==> x@[j] == y@[j],
        decreases x.len() - i,
    {
        if x[i] != y[i] {
            proof {
                assert(a@[i as int] != b@[i as int]);
            }
            return false;
        }
        i += 1;
    }
    proof {
        assert(x@ =~= y@);
    }
    true
}

/// Whether the characters are those of the string.
pub fn chars_are(v: &Vec<char>, s: &str) -> (r: bool)
    ensures
        r == (v@ == s@),
{
    let y = chars_of(s);
    if v.len() != y.len() {
        return false;
    }
    let mut i: usize = 0;
    while i < v.len()
        invariant
            y@ == s@,
            v.len() == y.len(),
            i <= v.len(),
            forall|j: int| 0 <= j < i ==> v@[j] == y@[j],
        decreases v.len() - i,
    {
        if v[i] != y[i] {
            proof {
                assert(v@[i as int] != s@[i as int]);
            }
            return false;
        }
        i += 1;
    }
    proof {
        assert(v@ =~= y@);
    }
    true
}

} // verus!
