//! Reading characters of names: literal matches, separators and decimal numbers.
use vstd::prelude::*;
use vstd::string::StrSliceExecFns;

verus! {

/// Whether the characters `lo..hi` of `s` are exactly those of `lit`.
pub fn substr_is(s: &str, lo: usize, hi: usize, lit: &str) -> (r: bool)
    requires
        lo <= hi <= s@.len(),
    ensures
        r == (s@.subrange(lo as int, hi as int) == lit@),
{
    let n = lit.unicode_len();
    if hi - lo != n {
        return false;
    }
    let mut i: usize = 0;
    while i < n
        invariant
            n == lit@.len(),
            hi - lo == n,
            lo <= hi <= s@.len(),
            i <= n,
            forall|j: int| 0 <= j < i ==> s@[lo + j] == lit@[j],
        decreases n - i,
    {
        if s.get_char(lo + i) != lit.get_char(i) {
            assert(s@.subrange(lo as int, hi as int)[i as int] != lit@[i as int]);
            return false;
        }
        i = i + 1;
    }
    assert(s@.subrange(lo as int, hi as int) =~= lit@);
    true
}

/// The first position at or after `from` and before `to` that holds `c`, or `to`.
pub fn find_char(s: &str, from: usize, to: usize, c: char) -> (r: usize)
    requires
        from <= to <= s@.len(),
    ensures
        from <= r <= to,
        r < to ==> s@[r as int] == c,
        forall|j: int| from <= j < r ==> s@[j] != c,
        r == first_of(s@, from as int, to as int, c),
{
    let mut i: usize = from;
    while i < to
        invariant
            from <= i <= to <= s@.len(),
            forall|j: int| from <= j < i ==> s@[j] != c,
        decreases to - i,
    {
        if s.get_char(i) == c {
            proof { lemma_first_of(s@, from as int, to as int, c, i as int); }
            return i;
        }
        i = i + 1;
    }
    proof { lemma_first_of(s@, from as int, to as int, c, i as int); }
    i
}

/// The first position from `from` on, and before `to`, that holds `c`; `to`
/// where there is none.
pub open spec fn first_of(v: Seq<char>, from: int, to: int, c: char) -> int
    decreases to - from,
{
    if from >= to {
        to
    } else if v[from] == c {
        from
    } else {
        first_of(v, from + 1, to, c)
    }
}

/// A position with `c` there (or the end) and none before is the first one.
pub proof fn lemma_first_of(v: Seq<char>, from: int, to: int, c: char, r: int)
    requires
        0 <= from <= r <= to <= v.len(),
        r < to ==> v[r] == c,
        forall|j: int| from <= j < r ==> v[j] != c,
    ensures
        first_of(v, from, to, c) == r,
    decreases r - from,
{
    if from < r {
        lemma_first_of(v, from + 1, to, c, r);
    }
}

/// The decimal digit `d` as a character.
pub open spec fn digit_char(d: nat) -> char {
    if d == 0 { '0' }
    else if d == 1 { '1' }
    else if d == 2 { '2' }
    else if d == 3 { '3' }
    else if d == 4 { '4' }
    else if d == 5 { '5' }
    else if d == 6 { '6' }
    else if d == 7 { '7' }
    else if d == 8 { '8' }
    else { '9' }
}

/// The decimal notation of `n`, without leading zeros.
pub open spec fn decimal(n: nat) -> Seq<char>
    decreases n,
{
    if n < 10 {
        seq![digit_char(n)]
    } else {
        decimal(n / 10).push(digit_char(n % 10))
    }
}

/// Decimal notation has no leading zero.
pub proof fn lemma_decimal_first(n: nat)
    ensures
        decimal(n).len() >= 1,
        n > 0 ==> decimal(n)[0] != '0',
        n < 10 ==> decimal(n).len() == 1,
        10 <= n < 100 ==> decimal(n).len() == 2,
        100 <= n < 1000 ==> decimal(n).len() == 3,
        n >= 1000 ==> decimal(n).len() > 3,
    decreases n,
{
    if n >= 10 {
        lemma_decimal_first(n / 10);
    }
}

/// Every character of decimal notation is a digit.
pub proof fn lemma_decimal_digits(n: nat)
    ensures
        forall|i: int| 0 <= i < decimal(n).len() ==> exists|d: nat| d < 10 && digit_char(d) == #[trigger] decimal(n)[i],
    decreases n,
{
    if n >= 10 {
        lemma_decimal_digits(n / 10);
        assert forall|i: int| 0 <= i < decimal(n).len() implies exists|d: nat| d < 10 && digit_char(d) == #[trigger] decimal(n)[i] by {
            if i < decimal(n / 10).len() {
                assert(decimal(n)[i] == decimal(n / 10)[i]);
            } else {
                assert(decimal(n)[i] == digit_char(n % 10));
            }
        }
    } else {
        assert(decimal(n)[0] == digit_char(n));
    }
}

/// Different digits are different characters.
pub proof fn lemma_digit_char_injective(a: nat, b: nat)
    requires
        a < 10,
        b < 10,
        digit_char(a) == digit_char(b),
    ensures
        a == b,
{
}

/// Different numbers are written differently.
pub proof fn lemma_decimal_injective(a: nat, b: nat)
    requires
        decimal(a) == decimal(b),
    ensures
        a == b,
    decreases a + b,
{
    lemma_decimal_first(a);
    lemma_decimal_first(b);
    if a >= 10 && b >= 10 {
        let da = decimal(a);
        assert(da.drop_last() == decimal(a / 10));
        assert(decimal(b).drop_last() == decimal(b / 10));
        lemma_decimal_injective(a / 10, b / 10);
        assert(da.last() == digit_char(a % 10));
        assert(decimal(b).last() == digit_char(b % 10));
        lemma_digit_char_injective(a % 10, b % 10);
    } else if a < 10 && b < 10 {
        assert(decimal(a)[0] == digit_char(a));
        assert(decimal(b)[0] == digit_char(b));
        lemma_digit_char_injective(a, b);
    } else if a < 10 {
        assert(decimal(b).len() >= 2) by { lemma_decimal_first(b / 10); }
    } else {
        assert(decimal(a).len() >= 2) by { lemma_decimal_first(a / 10); }
    }
}

/// The value of a decimal digit character.
fn digit_value(c: char) -> (r: Option<u8>)
    ensures
        r matches Some(d) ==> d < 10 && digit_char(d as nat) == c,
        r is None ==> forall|d: nat| d < 10 ==> digit_char(d) != c,
{
    if c == '0' { Some(0) }
    else if c == '1' { Some(1) }
    else if c == '2' { Some(2) }
    else if c == '3' { Some(3) }
    else if c == '4' { Some(4) }
    else if c == '5' { Some(5) }
    else if c == '6' { Some(6) }
    else if c == '7' { Some(7) }
    else if c == '8' { Some(8) }
    else if c == '9' { Some(9) }
    else { None }
}

/// Reads the characters `lo..hi` of `s` as a byte written in decimal without
/// leading zeros; exactly such notation is read.
pub fn parse_u8(s: &str, lo: usize, hi: usize) -> (r: Option<u8>)
    requires
        lo <= hi <= s@.len(),
    ensures
        r matches Some(v) ==> decimal(v as nat) == s@.subrange(lo as int, hi as int),
        forall|v: u8| decimal(v as nat) == s@.subrange(lo as int, hi as int) ==> r == Some(v),
{
    let ghost sub = s@.subrange(lo as int, hi as int);
    if lo == hi || hi - lo > 3 {
        proof {
            assert forall|v: u8| decimal(v as nat) != sub by {
                lemma_decimal_first(v as nat);
            }
        }
        return None;
    }
    let d0 = match digit_value(s.get_char(lo)) {
        Some(d) => d,
        None => {
            proof {
                assert forall|v: u8| decimal(v as nat) != sub by {
                    lemma_decimal_digits(v as nat);
                    lemma_decimal_first(v as nat);
                    if decimal(v as nat) == sub {
                        assert(sub[0] == s@[lo as int]);
                    }
                }
            }
            return None;
        },
    };
    if hi - lo == 1 {
        assert(sub =~= decimal(d0 as nat));
        proof {
            assert forall|v: u8| decimal(v as nat) == sub implies v == d0 by {
                lemma_decimal_injective(v as nat, d0 as nat);
            }
        }
        return Some(d0);
    }
    if d0 == 0 {
        proof {
            assert forall|v: u8| decimal(v as nat) != sub by {
                lemma_decimal_first(v as nat);
                if decimal(v as nat) == sub {
                    assert(sub[0] == s@[lo as int]);
                    if v == 0 {
                        assert(decimal(0).len() == 1);
                    }
                }
            }
        }
        return None;
    }
    let d1 = match digit_value(s.get_char(lo + 1)) {
        Some(d) => d,
        None => {
            proof {
                assert forall|v: u8| decimal(v as nat) != sub by {
                    lemma_decimal_digits(v as nat);
                    if decimal(v as nat) == sub {
                        assert(sub[1] == s@[lo + 1]);
                    }
                }
            }
            return None;
        },
    };
    let two: u8 = d0 * 10 + d1;
    assert(two as nat / 10 == d0 as nat && two as nat % 10 == d1 as nat);
    assert(decimal(two as nat) =~= seq![digit_char(d0 as nat), digit_char(d1 as nat)]) by {
        reveal_with_fuel(decimal, 2);
    }
    if hi - lo == 2 {
        assert(sub =~= decimal(two as nat));
        proof {
            assert forall|v: u8| decimal(v as nat) == sub implies v == two by {
                lemma_decimal_injective(v as nat, two as nat);
            }
        }
        return Some(two);
    }
    let d2 = match digit_value(s.get_char(lo + 2)) {
        Some(d) => d,
        None => {
            proof {
                assert forall|v: u8| decimal(v as nat) != sub by {
                    lemma_decimal_digits(v as nat);
                    if decimal(v as nat) == sub {
                        assert(sub[2] == s@[lo + 2]);
                    }
                }
            }
            return None;
        },
    };
    let three: u32 = two as u32 * 10 + d2 as u32;
    assert(three as nat / 10 == two as nat && three as nat % 10 == d2 as nat);
    assert(decimal(three as nat) == decimal(two as nat).push(digit_char(d2 as nat)));
    assert(sub =~= decimal(three as nat));
    proof {
        assert forall|v: u8| decimal(v as nat) == sub implies v as nat == three as nat by {
            lemma_decimal_injective(v as nat, three as nat);
        }
    }
    if three > 255 {
        return None;
    }
    Some(three as u8)
}

} // verus!
