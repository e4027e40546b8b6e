//! Decimal rendering and parsing of `u64` values, with the fixed-point
//! "tenths of a percent" notation used for utilization readings.

use vstd::prelude::*;

verus! {

/// The character for one decimal digit.
pub open spec fn spec_digit_char(d: int) -> char {
    if d == 0 {
        '0'
    } else if d == 1 {
        '1'
    } else if d == 2 {
        '2'
    } else if d == 3 {
        '3'
    } else if d == 4 {
        '4'
    } else if d == 5 {
        '5'
    } else if d == 6 {
        '6'
    } else if d == 7 {
        '7'
    } else if d == 8 {
        '8'
    } else {
        '9'
    }
}

pub open spec fn is_digit_char(c: char) -> bool {
    '0' <= c && c <= '9'
}

/// The numeric value of one decimal digit character; -1 when not a digit.
pub open spec fn spec_digit_val(c: char) -> int {
    if c == '0' {
        0
    } else if c == '1' {
        1
    } else if c == '2' {
        2
    } else if c == '3' {
        3
    } else if c == '4' {
        4
    } else if c == '5' {
        5
    } else if c == '6' {
        6
    } else if c == '7' {
        7
    } else if c == '8' {
        8
    } else if c == '9' {
        9
    } else {
        -1
    }
}

/// The canonical decimal rendering of a natural number: no leading zeros,
/// a single `'0'` for zero.
pub open spec fn spec_u64_digits(n: nat) -> Seq<char>
    decreases n,
{
    if n < 10 {
        seq![spec_digit_char(n as int)]
    } else {
        spec_u64_digits(n / 10).push(spec_digit_char((n % 10) as int))
    }
}

/// The value of a digit string, most significant digit first.
pub open spec fn digits_value(s: Seq<char>) -> nat
    decreases s.len(),
{
    if s.len() == 0 {
        0
    } else {
        digits_value(s.drop_last()) * 10 + (if is_digit_char(s.last()) {
            spec_digit_val(s.last()) as nat
        } else {
            0
        })
    }
}

pub open spec fn all_digit_chars(s: Seq<char>) -> bool {
    forall|i: int| 0 <= i < s.len() ==> is_digit_char(#[trigger] s[i])
}

/// A digit string that a `u64` parse accepts: nonempty, all digits, and
/// a value that fits in 64 bits.
pub open spec fn valid_u64_digits(s: Seq<char>) -> bool {
    s.len() > 0 && all_digit_chars(s) && digits_value(s) <= u64::MAX
}

pub proof fn lemma_digit_char_val(d: int)
    requires
        0 <= d <= 9,
    ensures
        is_digit_char(spec_digit_char(d)),
        spec_digit_val(spec_digit_char(d)) == d,
{
}

/// The canonical rendering of `n` consists of digit characters and reads
/// back as `n`.
pub proof fn lemma_u64_digits_value(n: nat)
    ensures
        spec_u64_digits(n).len() > 0,
        all_digit_chars(spec_u64_digits(n)),
        digits_value(spec_u64_digits(n)) == n,
    decreases n,
{
    if n < 10 {
        lemma_digit_char_val(n as int);
        let s = spec_u64_digits(n);
        assert(s =~= seq![spec_digit_char(n as int)]);
        assert(s.drop_last() =~= Seq::<char>::empty());
        assert(digits_value(s) == digits_value(s.drop_last()) * 10 + spec_digit_val(s.last()));
        assert(digits_value(s.drop_last()) == 0);
        assert(digits_value(s) == n);
    } else {
        lemma_u64_digits_value(n / 10);
        lemma_digit_char_val((n % 10) as int);
        let s = spec_u64_digits(n);
        assert(s =~= spec_u64_digits(n / 10).push(spec_digit_char((n % 10) as int)));
        assert(s.drop_last() =~= spec_u64_digits(n / 10));
        assert(s.last() == spec_digit_char((n % 10) as int));
        assert(digits_value(s) == digits_value(s.drop_last()) * 10 + spec_digit_val(s.last()));
        assert(digits_value(s) == (n / 10) * 10 + n % 10);
        assert((n / 10) * 10 + n % 10 == n) by (nonlinear_arith);
    }
}

/// Appending digits never shrinks the value.
pub proof fn lemma_digits_value_prefix(s: Seq<char>, k: int)
    requires
        0 <= k <= s.len(),
    ensures
        digits_value(s.take(k)) <= digits_value(s),
    decreases s.len() - k,
{
    if k < s.len() {
        lemma_digits_value_prefix(s, k + 1);
        let t = s.take(k + 1);
        assert(t.drop_last() =~= s.take(k));
        assert(digits_value(s.take(k)) * 10 >= digits_value(s.take(k)) * 1) by (nonlinear_arith)
            requires
                digits_value(s.take(k)) >= 0,
        ;
    } else {
        assert(s.take(k) =~= s);
    }
}

/// Digit test matching `is_digit_char`.
pub fn is_digit_exec(c: char) -> (r: bool)
    ensures
        r == is_digit_char(c),
{
    '0' <= c && c <= '9'
}

/// The numeric value of a digit character.
pub fn digit_val_exec(c: char) -> (r: u64)
    requires
        is_digit_char(c),
    ensures
        r == spec_digit_val(c),
        r < 10,
{
    match c {
        '0' => 0,
        '1' => 1,
        '2' => 2,
        '3' => 3,
        '4' => 4,
        '5' => 5,
        '6' => 6,
        '7' => 7,
        '8' => 8,
        _ => 9,
    }
}

/// One decimal digit character, as a string slice.
pub fn digit_str(d: u64) -> (r: &'static str)
    requires
        d < 10,
    ensures
        r@ =~= seq![spec_digit_char(d as int)],
{
    proof {
        reveal_strlit("0");
        reveal_strlit("1");
        reveal_strlit("2");
        reveal_strlit("3");
        reveal_strlit("4");
        reveal_strlit("5");
        reveal_strlit("6");
        reveal_strlit("7");
        reveal_strlit("8");
        reveal_strlit("9");
    }
    match d {
        0 => "0",
        1 => "1",
        2 => "2",
        3 => "3",
        4 => "4",
        5 => "5",
        6 => "6",
        7 => "7",
        8 => "8",
        _ => "9",
    }
}

/// The low-to-high digit stack `ds`, rendered most significant digit first.
pub open spec fn rev_digit_chars(ds: Seq<u64>) -> Seq<char> {
    Seq::new(ds.len(), |i: int| spec_digit_char(ds[ds.len() - 1 - i] as int))
}

/// Renders `n` in decimal.
pub fn format_u64(n: u64) -> (r: String)
    ensures
        r@ =~= spec_u64_digits(n as nat),
{
    let mut ds: Vec<u64> = Vec::new();
    let mut m: u64 = n;
    while m >= 10
        invariant
            spec_u64_digits(n as nat) =~= spec_u64_digits(m as nat) + rev_digit_chars(ds@),
            forall|i: int| 0 <= i < ds@.len() ==> #[trigger] ds@[i] < 10,
        decreases m,
    {
        let d: u64 = m % 10;
        proof {
            let ds1 = ds@.push(d);
            assert(rev_digit_chars(ds1) =~= seq![spec_digit_char(d as int)] + rev_digit_chars(
                ds@,
            ));
            assert(spec_u64_digits(m as nat) =~= spec_u64_digits((m / 10) as nat) + seq![
                spec_digit_char(d as int),
            ]);
        }
        ds.push(d);
        m = m / 10;
    }
    ds.push(m);
    proof {
        assert(rev_digit_chars(ds@) =~= seq![spec_digit_char(m as int)] + rev_digit_chars(
            ds@.drop_last(),
        ));
        assert(spec_u64_digits(n as nat) =~= rev_digit_chars(ds@));
    }
    let mut r = String::new();
    let mut j: usize = ds.len();
    while j > 0
        invariant
            j <= ds@.len(),
            forall|i: int| 0 <= i < ds@.len() ==> #[trigger] ds@[i] < 10,
            spec_u64_digits(n as nat) =~= rev_digit_chars(ds@),
            r@ =~= rev_digit_chars(ds@).take(ds@.len() - j),
        decreases j,
    {
        j = j - 1;
        let s = digit_str(ds[j]);
        r.append(s);
        proof {
            assert(r@ =~= rev_digit_chars(ds@).take(ds@.len() - j));
        }
    }
    proof {
        assert(rev_digit_chars(ds@).take(ds@.len() as int) =~= rev_digit_chars(ds@));
    }
    r
}

/// Parses the character range `[from, to)` of `s` as a decimal `u64`.
/// Returns the value exactly when the range is a nonempty run of digits
/// whose value fits.
pub fn parse_u64_range(s: &str, from: usize, to: usize) -> (r: Option<u64>)
    requires
        from <= to <= s@.len(),
    ensures
        valid_u64_digits(s@.subrange(from as int, to as int)) ==> r == Some(
            digits_value(s@.subrange(from as int, to as int)) as u64,
        ),
        !valid_u64_digits(s@.subrange(from as int, to as int)) ==> r is None,
{
    let ghost seg = s@.subrange(from as int, to as int);
    if from == to {
        return None;
    }
    let mut acc: u64 = 0;
    let mut i: usize = from;
    while i < to
        invariant
            from <= i <= to <= s@.len(),
            seg =~= s@.subrange(from as int, to as int),
            to > from,
            all_digit_chars(seg.take(i - from)),
            acc == digits_value(seg.take(i - from)),
        decreases to - i,
    {
        let c = s.get_char(i);
        proof {
            assert(seg[i - from] == s@[i as int]);
        }
        let d: u64 = match c {
            '0' => 0,
            '1' => 1,
            '2' => 2,
            '3' => 3,
            '4' => 4,
            '5' => 5,
            '6' => 6,
            '7' => 7,
            '8' => 8,
            '9' => 9,
            _ => {
                proof {
                    assert(!is_digit_char(seg[i - from]));
                    assert(!all_digit_chars(seg));
                }
                return None;
            },
        };
        proof {
            assert(is_digit_char(seg[i - from]) && spec_digit_val(seg[i - from]) == d);
        }
        if acc > (u64::MAX - d) / 10 {
            proof {
                let p = seg.take(i - from + 1);
                assert(p.drop_last() =~= seg.take(i - from));
                assert(digits_value(p) == acc * 10 + d);
                assert(acc * 10 + d > u64::MAX) by (nonlinear_arith)
                    requires
                        acc > (u64::MAX - d) / 10,
                        d < 10,
                ;
                lemma_digits_value_prefix(seg, i - from + 1);
                assert(digits_value(seg) > u64::MAX);
            }
            return None;
        }
        proof {
            let p = seg.take(i - from + 1);
            assert(p.drop_last() =~= seg.take(i - from));
            assert(acc * 10 + d <= u64::MAX) by (nonlinear_arith)
                requires
                    acc <= (u64::MAX - d) / 10,
                    d < 10,
            ;
        }
        acc = acc * 10 + d;
        i = i + 1;
        proof {
            assert(all_digit_chars(seg.take(i - from))) by {
                assert(forall|k: int|
                    0 <= k < i - from ==> #[trigger] seg.take(i - from)[k] == seg.take(
                        i - from,
                    )[k] && seg.take(i - from)[k] == seg[k]);
            }
        }
    }
    proof {
        assert(seg.take(to - from) =~= seg);
    }
    Some(acc)
}

/// The fixed-point rendering of a tenths-of-a-percent value: the integer
/// part, a decimal point, and one fractional digit.
pub open spec fn spec_tenths_chars(v: nat) -> Seq<char> {
    spec_u64_digits(v / 10) + seq!['.'] + seq![spec_digit_char((v % 10) as int)]
}

/// Renders a tenths-of-a-percent value, e.g. 950 as `95.0`.
pub fn format_tenths(v: u64) -> (r: String)
    ensures
        r@ =~= spec_tenths_chars(v as nat),
{
    let mut r = format_u64(v / 10);
    proof {
        reveal_strlit(".");
    }
    r.append(".");
    let frac = digit_str(v % 10);
    r.append(frac);
    r
}

} // verus!
