//! Whole numbers in decimal.

use vstd::prelude::*;

use crate::text::chars_of;

verus! {

broadcast use vstd::string::group_string_axioms;

/// The character for a single digit.
pub open spec fn digit(d: nat) -> char {
    if d == 0 {
        '0'
    } else if d == 1 {
        '1'
    } else if d == 2 {
        '2'
    } else if d == 3 {
        '3'
    } else if d == 4 {
        '4'
    } else if d == 5 {
        '5'
    } else if d == 6 {
        '6'
    } else if d == 7 {
        '7'
    } else if d == 8 {
        '8'
    } else {
        '9'
    }
}

/// `n` written in decimal, without leading zeros.
pub open spec fn decimal(n: nat) -> Seq<char>
    decreases n,
{
    if n < 10 {
        seq![digit(n)]
    } else {
        decimal(n / 10).push(digit(n % 10))
    }
}

/// What a digit counts for.
pub open spec fn digit_value(c: char) -> Option<nat> {
    if '0' <= c && c <= '9' {
        Some((c as int - '0' as int) as nat)
    } else {
        None
    }
}

/// What a run of digits adds up to; nothing if it is empty or holds another
/// character.
pub open spec fn digits_value(s: Seq<char>) -> Option<nat>
    decreases s.len(),
{
    if s.len() == 0 {
        None
    } else {
        let before = s.drop_last();
        match digit_value(s.last()) {
            None => None,
            Some(d) => if s.len() == 1 {
                Some(d)
            } else {
                match digits_value(before) {
                    Some(v) => Some(v * 10 + d),
                    None => None,
                }
            },
        }
    }
}

/// What a text stands for as an unsigned number of at most `max`: digits after
/// an optional plus sign.
pub open spec fn unsigned_value(s: Seq<char>, max: nat) -> Option<nat> {
    let digits = if s.len() > 0 && s[0] == '+' {
        s.skip(1)
    } else {
        s
    };
    match digits_value(digits) {
        Some(v) => if v <= max {
            Some(v)
        } else {
            None
        },
        None => None,
    }
}

fn digit_char(d: u64) -> (r: char)
    requires
        d < 10,
    ensures
        r == digit(d as nat),
{
    if d == 0 {
        '0'
    } else if d == 1 {
        '1'
    } else if d == 2 {
        '2'
    } else if d == 3 {
        '3'
    } else if d == 4 {
        '4'
    } else if d == 5 {
        '5'
    } else if d == 6 {
        '6'
    } else if d == 7 {
        '7'
    } else if d == 8 {
        '8'
    } else {
        '9'
    }
}

/// Write a number in decimal.
pub fn decimal_of(n: u64) -> (r: String)
    ensures
        r@ == decimal(n as nat),
    decreases n,
{
    if n < 10 {
        let mut r = String::new();
        r.push(digit_char(n));
        assert(r@ =~= seq![digit(n as nat)]);
        r
    } else {
        let mut r = decimal_of(n / 10);
        r.push(digit_char(n % 10));
        r
    }
}

fn value_of_digit(c: char) -> (r: Option<u64>)
    ensures
        match r {
            Some(d) => d < 10 && digit_value(c) == Some(d as nat),
            None => digit_value(c) is None,
        },
{
    if '0' <= c && c <= '9' {
        Some(c as u64 - '0' as u64)
    } else {
        None
    }
}

/// A number too large stays too large however many digits follow.
proof fn lemma_prefix_value(s: Seq<char>, k: int)
    requires
        0 < k <= s.len(),
        digits_value(s) is Some,
    ensures
        digits_value(s.take(k)) is Some,
        digits_value(s.take(k))->0 <= digits_value(s)->0,
    decreases s.len(),
{
    if k == s.len() {
        assert(s.take(k) =~= s);
    } else {
        lemma_prefix_value(s.drop_last(), k);
        assert(s.drop_last().take(k) =~= s.take(k));
    }
}

/// Read an unsigned number of at most `max` from the characters starting at `from`.
fn digits_from(s: &Vec<char>, from: usize, max: u64) -> (r: Option<u64>)
    requires
        from <= s@.len(),
    ensures
        match r {
            Some(v) => v <= max && digits_value(s@.skip(from as int)) == Some(v as nat),
            None => match digits_value(s@.skip(from as int)) {
                Some(v) => v > max,
                None => true,
            },
        },
{
    let n: usize = s.len();
    let ghost all = s@.skip(from as int);
    if from == n {
        return None;
    }
    let mut total: u64 = 0;
    let mut i: usize = from;
    while i < n
        invariant
            from <= i <= n,
            n == s@.len(),
            all == s@.skip(from as int),
            total <= max,
            i == from ==> total == 0,
            i > from ==> digits_value(all.take(i - from)) == Some(total as nat),
        decreases n - i,
    {
        let ghost next = all.take(i + 1 - from);
        assert(next.drop_last() =~= all.take(i - from));
        assert(next.last() == s@[i as int]);
        match value_of_digit(s[i]) {
            None => {
                proof {
                    if digits_value(all) is Some {
                        lemma_prefix_value(all, i + 1 - from);
                    }
                }
                return None;
            },
            Some(d) => {
                let wide: u128 = total as u128 * 10 + d as u128;
                assert(digits_value(next) == Some(wide as nat));
                if wide > max as u128 {
                    proof {
                        if digits_value(all) is Some {
                            lemma_prefix_value(all, i + 1 - from);
                        }
                    }
                    return None;
                }
                total = wide as u64;
            },
        }
        i = i + 1;
    }
    assert(all.take(i - from) =~= all);
    Some(total)
}

/// Read an unsigned number of at most `max`.
pub fn unsigned_of(text: &str, max: u64) -> (r: Option<u64>)
    ensures
        match r {
            Some(v) => unsigned_value(text@, max as nat) == Some(v as nat),
            None => unsigned_value(text@, max as nat) is None,
        },
{
    let s = chars_of(text);
    assert(s@.skip(0) =~= s@);
    if s.len() > 0 && s[0] == '+' {
        digits_from(&s, 1, max)
    } else {
        digits_from(&s, 0, max)
    }
}

proof fn lemma_decimal_value(n: nat)
    ensures
        decimal(n).len() > 0,
        decimal(n)[0] != '+',
        digits_value(decimal(n)) == Some(n),
    decreases n,
{
    if n < 10 {
        assert(decimal(n).last() == digit(n));
    } else {
        lemma_decimal_value(n / 10);
        let s = decimal(n);
        assert(s.drop_last() =~= decimal(n / 10));
        assert(digit_value(digit(n % 10)) == Some(n % 10));
    }
}

/// A number reads back from its decimal form.
pub proof fn law_decimal_reads_back(n: nat, max: nat)
    requires
        n <= max,
    ensures
        unsigned_value(decimal(n), max) == Some(n),
{
    lemma_decimal_value(n);
}

/// A number is written digit by digit, the most significant first and without
/// leading zeros.
pub proof fn law_decimal_is_written_digit_by_digit(n: nat, d: nat)
    requires
        d < 10,
    ensures
        decimal(d).len() == 1 && decimal(d)[0] as int == '0' as int + d,
        n > 0 ==> decimal(10 * n + d) == decimal(n).push(decimal(d)[0]),
{
    if n > 0 {
        assert((10 * n + d) / 10 == n && (10 * n + d) % 10 == d) by (nonlinear_arith)
            requires
                d < 10,
        ;
        assert(decimal(10 * n + d) =~= decimal(n).push(decimal(d)[0]));
    }
}

/// A text is a number if it is digits, with a plus sign before them or not, and
/// stands for what they count for in tens; unless that is more than is allowed.
pub proof fn law_numbers_are_read_in_tens(s: Seq<char>, c: char, max: nat)
    ensures
        unsigned_value(Seq::empty(), max) is None,
        unsigned_value(seq!['+'], max) is None,
        !('0' <= c && c <= '9') && c != '+' ==> unsigned_value(seq![c], max) is None,
        '0' <= c && c <= '9' ==> unsigned_value(seq![c], max) == (if c as int - '0' as int <= max {
            Some((c as int - '0' as int) as nat)
        } else {
            None
        }),
        digits_value(s) is Some && '0' <= c && c <= '9' ==> digits_value(s.push(c)) == Some(
            (digits_value(s)->0 * 10 + (c as int - '0' as int)) as nat,
        ),
        s.len() > 0 && (digits_value(s) is None || !('0' <= c && c <= '9')) ==> digits_value(s.push(c)) is None,
        digits_value(s) is Some && digits_value(s)->0 <= max ==> unsigned_value(seq!['+'] + s, max) == digits_value(s),
        digits_value(s) is None || digits_value(s)->0 > max ==> unsigned_value(seq!['+'] + s, max) is None,
        s.len() > 0 && s[0] != '+' ==> unsigned_value(s, max) == (if digits_value(s) is Some && digits_value(s)->0
            <= max {
            digits_value(s)
        } else {
            None
        }),
{
    assert(seq!['+'].skip(1) =~= Seq::<char>::empty());
    assert((seq!['+'] + s).skip(1) =~= s);
    assert(s.push(c).drop_last() =~= s);
    assert(seq![c].last() == c);
}

} // verus!
