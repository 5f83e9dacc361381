//! Decimal text for the unsigned counters that appear in the statistics
//! body: writing a `u64` out and reading one back, with exact contracts.

use vstd::prelude::*;

verus! {

/// A decimal digit character.
pub open spec fn is_digit(c: char) -> bool {
    48 <= (c as u32) <= 57
}

/// The numeric value of a digit character.
pub open spec fn digit_val(c: char) -> nat {
    ((c as u32) - 48) as nat
}

/// The digit character for `d` (`d < 10`).
pub open spec fn digit_char(d: nat) -> char {
    if d == 0 {
        '0'
    } else if d == 1 {
        '1'
    } else if d == 2 {
        '2'
    } else if d == 3 {
        '3'
    } else if d == 4 {
        '4'
    } else if d == 5 {
        '5'
    } else if d == 6 {
        '6'
    } else if d == 7 {
        '7'
    } else if d == 8 {
        '8'
    } else {
        '9'
    }
}

/// The decimal text of `n`, most significant digit first, no leading zeros
/// except for zero itself.
pub open spec fn u64_digits(n: nat) -> Seq<char>
    decreases n,
{
    if n < 10 {
        seq![digit_char(n)]
    } else {
        u64_digits(n / 10) + seq![digit_char(n % 10)]
    }
}

/// The value a digit string denotes.
pub open spec fn digits_val(ds: Seq<char>) -> nat
    decreases ds.len(),
{
    if ds.len() == 0 {
        0
    } else {
        digits_val(ds.drop_last()) * 10 + digit_val(ds.last())
    }
}

/// Powers of ten.
pub open spec fn pow10(k: nat) -> nat
    decreases k,
{
    if k == 0 {
        1nat
    } else {
        10 * pow10((k - 1) as nat)
    }
}

pub proof fn lemma_pow10_mono(a: nat, b: nat)
    requires
        a <= b,
    ensures
        pow10(a) <= pow10(b),
    decreases b,
{
    if a < b {
        lemma_pow10_mono(a, (b - 1) as nat);
        assert(pow10(b) == 10 * pow10((b - 1) as nat));
    }
}

/// A digit string's value is below ten to its length.
pub proof fn lemma_digits_val_bound(ds: Seq<char>)
    requires
        forall|i: int| 0 <= i < ds.len() ==> is_digit(#[trigger] ds[i]),
    ensures
        digits_val(ds) < pow10(ds.len()),
    decreases ds.len(),
{
    if ds.len() > 0 {
        lemma_digits_val_bound(ds.drop_last());
        assert(is_digit(ds.last()));
        assert(digit_val(ds.last()) <= 9);
    }
}

/// Every character the writer emits is a digit.
pub proof fn lemma_u64_digits_are_digits(n: nat)
    ensures
        forall|i: int| 0 <= i < u64_digits(n).len() ==> is_digit(#[trigger] u64_digits(n)[i]),
    decreases n,
{
    if n < 10 {
        assert(is_digit(u64_digits(n)[0]));
    } else {
        lemma_u64_digits_are_digits(n / 10);
        assert forall|i: int| 0 <= i < u64_digits(n).len() implies is_digit(
            #[trigger] u64_digits(n)[i],
        ) by {
            if i < u64_digits(n / 10).len() {
                assert(u64_digits(n)[i] == u64_digits(n / 10)[i]);
            } else {
                assert(u64_digits(n)[i] == digit_char(n % 10));
            }
        }
    }
}

/// Reading the decimal text of `n` gives `n` back.
pub proof fn lemma_digits_val_of_u64(n: nat)
    ensures
        digits_val(u64_digits(n)) == n,
    decreases n,
{
    if n < 10 {
        let ds = u64_digits(n);
        assert(ds.drop_last() =~= Seq::<char>::empty());
        assert(digit_val(digit_char(n)) == n);
        assert(digits_val(ds) == digits_val(ds.drop_last()) * 10 + digit_val(ds.last()));
        assert(digits_val(Seq::<char>::empty()) == 0);
        assert(ds.last() == digit_char(n));
    } else {
        lemma_digits_val_of_u64(n / 10);
        let ds = u64_digits(n);
        assert(ds.drop_last() =~= u64_digits(n / 10));
        assert(ds.last() == digit_char(n % 10));
        assert(digit_val(digit_char(n % 10)) == n % 10);
        assert(digits_val(ds) == digits_val(u64_digits(n / 10)) * 10 + digit_val(
            digit_char(n % 10),
        ));
        assert(n == (n / 10) * 10 + n % 10);
    }
}

/// The decimal text of a `u64` never exceeds twenty characters.
pub proof fn lemma_u64_digits_len(n: nat, k: nat)
    requires
        n < pow10(k),
        k >= 1,
    ensures
        u64_digits(n).len() <= k,
    decreases k,
{
    if n < 10 {
    } else {
        assert(k >= 2) by {
            if k == 1 {
                assert(pow10(0nat) == 1);
                assert(pow10(1nat) == 10);
            }
        }
        assert(pow10(k) == 10 * pow10((k - 1) as nat));
        assert(n / 10 < pow10((k - 1) as nat)) by {
            if n / 10 >= pow10((k - 1) as nat) {
                assert(n >= 10 * (n / 10)) by {
                    assert(n == 10 * (n / 10) + n % 10);
                }
                assert(10 * (n / 10) >= 10 * pow10((k - 1) as nat)) by (nonlinear_arith)
                    requires
                        n / 10 >= pow10((k - 1) as nat),
                ;
            }
        }
        lemma_u64_digits_len(n / 10, (k - 1) as nat);
    }
}

/// The exec counterpart of `digit_char`.
fn digit_str(d: u64) -> (r: &'static str)
    requires
        d < 10,
    ensures
        r@ == seq![digit_char(d as nat)],
{
    let r: &'static str = if d == 0 {
        "0"
    } else if d == 1 {
        "1"
    } else if d == 2 {
        "2"
    } else if d == 3 {
        "3"
    } else if d == 4 {
        "4"
    } else if d == 5 {
        "5"
    } else if d == 6 {
        "6"
    } else if d == 7 {
        "7"
    } else if d == 8 {
        "8"
    } else {
        "9"
    };
    proof {
        reveal_strlit("0");
        reveal_strlit("1");
        reveal_strlit("2");
        reveal_strlit("3");
        reveal_strlit("4");
        reveal_strlit("5");
        reveal_strlit("6");
        reveal_strlit("7");
        reveal_strlit("8");
        reveal_strlit("9");
        assert(r@ =~= seq![digit_char(d as nat)]);
    }
    r
}

/// The decimal text of `n`.
pub fn u64_string(n: u64) -> (r: String)
    ensures
        r@ == u64_digits(n as nat),
    decreases n,
{
    if n < 10 {
        String::from_str(digit_str(n))
    } else {
        let mut s = u64_string(n / 10);
        s.append(digit_str(n % 10));
        proof {
            assert(s@ =~= u64_digits(n as nat));
        }
        s
    }
}

/// Where the run of digits beginning at `i` ends.
pub open spec fn digits_end(s: Seq<char>, i: int) -> int
    decreases s.len() - i,
{
    if i < 0 || i >= s.len() {
        i
    } else if is_digit(s[i]) {
        digits_end(s, i + 1)
    } else {
        i
    }
}

/// Reads a run of digits as a `u64`: the value and the index just past the
/// run. There must be at least one digit, at most twenty, and the value
/// must fit.
pub open spec fn spec_parse_u64(s: Seq<char>, i: int) -> Option<(u64, int)> {
    let j = digits_end(s, i);
    let ds = s.subrange(i, j);
    if 1 <= ds.len() <= 20 && digits_val(ds) <= u64::MAX {
        Some((digits_val(ds) as u64, j))
    } else {
        None
    }
}

/// A digit run bounded on the right by a non-digit (or the end) ends there.
pub proof fn lemma_digits_end_at(s: Seq<char>, i: int, j: int)
    requires
        0 <= i <= j <= s.len(),
        forall|t: int| i <= t < j ==> is_digit(#[trigger] s[t]),
        j == s.len() || !is_digit(s[j]),
    ensures
        digits_end(s, i) == j,
    decreases j - i,
{
    if i < j {
        assert(is_digit(s[i]));
        lemma_digits_end_at(s, i + 1, j);
    }
}

/// Walks to the end of the digit run beginning at `i`.
fn digits_run_end(s: &str, n: usize, i: usize) -> (j: usize)
    requires
        n == s@.len(),
        i <= n,
    ensures
        i <= j <= n,
        digits_end(s@, i as int) == j as int,
        forall|t: int| i <= t < j ==> is_digit(#[trigger] s@[t]),
{
    let mut j: usize = i;
    loop
        invariant
            n == s@.len(),
            i <= j <= n,
            forall|t: int| i <= t < j ==> is_digit(#[trigger] s@[t]),
        decreases n - j,
    {
        if j >= n {
            proof {
                lemma_digits_end_at(s@, i as int, j as int);
            }
            return j;
        }
        let c = s.get_char(j);
        if !(48 <= (c as u32) && (c as u32) <= 57) {
            proof {
                assert(!is_digit(s@[j as int]));
                lemma_digits_end_at(s@, i as int, j as int);
            }
            return j;
        }
        j = j + 1;
    }
}

/// The exec counterpart of `spec_parse_u64`.
pub fn parse_u64_at(s: &str, n: usize, i: usize) -> (r: Option<(u64, usize)>)
    requires
        n == s@.len(),
        i <= n,
    ensures
        match r {
            Some(pair) => spec_parse_u64(s@, i as int) == Some((pair.0, pair.1 as int)) && i
                < pair.1 <= n,
            None => spec_parse_u64(s@, i as int) is None,
        },
{
    let j = digits_run_end(s, n, i);
    let m = j - i;
    if m == 0 || m > 20 {
        return None;
    }
    let ghost ds = s@.subrange(i as int, j as int);
    proof {
        lemma_digits_val_bound(ds);
        lemma_pow10_mono(ds.len(), 20);
        reveal_with_fuel(pow10, 21);
        assert(pow10(20) == 100000000000000000000);
    }
    let mut val: u128 = 0;
    let mut t: usize = i;
    proof {
        assert(s@.subrange(i as int, i as int) =~= Seq::<char>::empty());
    }
    while t < j
        invariant
            n == s@.len(),
            i <= t <= j <= n,
            forall|q: int| i <= q < j ==> is_digit(#[trigger] s@[q]),
            val == digits_val(s@.subrange(i as int, t as int)),
            j - i <= 20,
        decreases j - t,
    {
        let c = s.get_char(t);
        proof {
            let pre = s@.subrange(i as int, t as int);
            let cur = s@.subrange(i as int, t as int + 1);
            assert(cur.drop_last() =~= pre);
            assert(cur.last() == s@[t as int]);
            lemma_digits_val_bound(cur);
            lemma_pow10_mono(cur.len(), 20);
            reveal_with_fuel(pow10, 21);
            assert(pow10(20) == 100000000000000000000);
        }
        val = val * 10 + ((c as u32 - 48) as u128);
        t = t + 1;
    }
    proof {
        assert(s@.subrange(i as int, j as int) =~= ds);
    }
    if val > 0xFFFF_FFFF_FFFF_FFFFu128 {
        return None;
    }
    Some((val as u64, j))
}

} // verus!
