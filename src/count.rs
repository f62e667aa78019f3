use vstd::prelude::*;

verus! {

/// Whether `c` is an ASCII decimal digit.
pub open spec fn is_digit(c: char) -> bool {
    '0' <= c <= '9'
}

/// Whether `d` is a non-empty run of decimal digits.
pub open spec fn all_digits(d: Seq<char>) -> bool {
    d.len() > 0 && forall|i: int| 0 <= i < d.len() ==> is_digit(#[trigger] d[i])
}

/// The number that the decimal digits `d` spell.
pub open spec fn digits_value(d: Seq<char>) -> int
    decreases d.len(),
{
    if d.len() == 0 {
        0
    } else {
        10 * digits_value(d.drop_last()) + (d.last() as int - '0' as int)
    }
}

/// The integer that `t` spells: an optional `+` or `-`, then decimal digits.
pub open spec fn integer_value(t: Seq<char>) -> Option<int> {
    if t.len() > 0 && (t[0] == '+' || t[0] == '-') {
        if all_digits(t.drop_first()) {
            if t[0] == '-' {
                Some(-digits_value(t.drop_first()))
            } else {
                Some(digits_value(t.drop_first()))
            }
        } else {
            None
        }
    } else if all_digits(t) {
        Some(digits_value(t))
    } else {
        None
    }
}

/// The key count that `t` spells, where it is an integer that fits in `i64`.
pub open spec fn key_count(t: Seq<char>) -> Option<i64> {
    match integer_value(t) {
        Some(v) => if i64::MIN <= v <= i64::MAX {
            Some(v as i64)
        } else {
            None
        },
        None => None,
    }
}

/// A prefix of a run of digits spells a number no larger than the whole run.
proof fn lemma_prefix_value(d: Seq<char>, j: int)
    requires
        forall|i: int| 0 <= i < d.len() ==> is_digit(#[trigger] d[i]),
        0 <= j <= d.len(),
    ensures
        0 <= digits_value(d.subrange(0, j)) <= digits_value(d),
    decreases d.len(),
{
    if j < d.len() {
        let e = d.drop_last();
        assert forall|i: int| 0 <= i < e.len() implies is_digit(#[trigger] e[i]) by {
            assert(e[i] == d[i]);
        }
        lemma_prefix_value(e, j);
        assert(e.subrange(0, j) =~= d.subrange(0, j));
        lemma_prefix_value(e, e.len() as int);
        assert(e.subrange(0, e.len() as int) =~= e);
        assert(is_digit(d[d.len() - 1]));
    } else {
        assert(d.subrange(0, j) =~= d);
        if d.len() > 0 {
            let e = d.drop_last();
            assert forall|i: int| 0 <= i < e.len() implies is_digit(#[trigger] e[i]) by {
                assert(e[i] == d[i]);
            }
            lemma_prefix_value(e, e.len() as int);
            assert(e.subrange(0, e.len() as int) =~= e);
            assert(is_digit(d[d.len() - 1]));
        }
    }
}

/// Reads a key count: an optional sign, then decimal digits, in the range of `i64`.
pub fn parse_key_count(t: &Vec<char>) -> (r: Option<i64>)
    ensures
        r == key_count(t@),
{
    let n = t.len();
    if n == 0 {
        return None;
    }
    let negative = t[0] == '-';
    let start: usize = if t[0] == '+' || t[0] == '-' { 1 } else { 0 };
    let ghost d = t@.subrange(start as int, n as int);
    assert(start == 1 ==> d =~= t@.drop_first());
    assert(start == 0 ==> d =~= t@);
    if start == n {
        return None;
    }
    let bound: u128 = 9223372036854775808;
    let mut acc: u128 = 0;
    let mut j: usize = start;
    while j < n
        invariant
            n == t.len(),
            d == t@.subrange(start as int, n as int),
            start < n,
            start <= 1,
            start <= j <= n,
            start == 1 ==> d == t@.drop_first(),
            start == 0 ==> d == t@,
            (start == 1) == (t@[0] == '+' || t@[0] == '-'),
            negative == (t@[0] == '-'),
            forall|i: int| 0 <= i < j - start ==> is_digit(#[trigger] d[i]),
            acc == digits_value(d.subrange(0, j - start)),
            bound == 9223372036854775808,
            acc <= bound,
        decreases n - j,
    {
        let c = t[j];
        if !('0' <= c && c <= '9') {
            assert(d[j - start] == c);
            assert(!is_digit(d[j - start]));
            assert(!all_digits(d));
            return None;
        }
        let digit = (c as u32 - '0' as u32) as u128;
        assert(digit <= 9);
        assert(d.subrange(0, j + 1 - start).drop_last() =~= d.subrange(0, j - start));
        assert(acc * 10 <= bound * 10) by (nonlinear_arith)
            requires acc <= bound;
        acc = acc * 10 + digit;
        assert(acc == digits_value(d.subrange(0, j + 1 - start))) by {
            let p = d.subrange(0, j + 1 - start);
            assert(p.last() == c);
            assert(digits_value(p) == 10 * digits_value(p.drop_last()) + (p.last() as int - '0' as int));
        }
        if acc > bound {
            proof {
                if all_digits(d) {
                    lemma_prefix_value(d, j + 1 - start);
                }
            }
            return None;
        }
        j = j + 1;
    }
    assert(d.subrange(0, n - start) =~= d);
    if negative {
        Some((0 - (acc as i128)) as i64)
    } else if acc <= 9223372036854775807 {
        Some(acc as i64)
    } else {
        None
    }
}

} // verus!
