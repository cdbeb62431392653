//! Decimal text of integers: rendering (as `{}` formats them) and parsing
//! (as `str::parse` accepts them), with the round trip between the two.
use vstd::prelude::*;

verus! {

pub open spec fn is_digit(c: char) -> bool {
    '0' <= c && c <= '9'
}

pub open spec fn digit_val(c: char) -> nat {
    ((c as u32) - 48) as nat
}

pub open spec fn digit_char(d: nat) -> char {
    (d + 48) as char
}

pub open spec fn all_digits(s: Seq<char>) -> bool {
    forall|i: int| 0 <= i < s.len() ==> is_digit(#[trigger] s[i])
}

/// The value of a string of decimal digits, most significant first.
pub open spec fn digits_value(s: Seq<char>) -> nat
    decreases s.len(),
{
    if s.len() == 0 {
        0
    } else {
        digits_value(s.drop_last()) * 10 + digit_val(s.last())
    }
}

/// The decimal text of `n`, without leading zeros.
pub open spec fn dec(n: nat) -> Seq<char>
    decreases n,
{
    if n < 10 {
        seq![digit_char(n)]
    } else {
        dec(n / 10).push(digit_char(n % 10))
    }
}

/// The decimal text of a signed integer, with a leading '-' when negative.
pub open spec fn dec_int(n: int) -> Seq<char> {
    if n < 0 {
        seq!['-'] + dec((-n) as nat)
    } else {
        dec(n as nat)
    }
}

/// What `str::parse` gives for an unsigned type whose maximum is `max`:
/// an optional '+', then one or more ASCII digits whose value is at most `max`.
pub open spec fn parse_unsigned(s: Seq<char>, max: nat) -> Option<nat> {
    let body = if s.len() > 0 && s[0] == '+' {
        s.drop_first()
    } else {
        s
    };
    if body.len() > 0 && all_digits(body) && digits_value(body) <= max {
        Some(digits_value(body))
    } else {
        None
    }
}

/// What `str::parse::<i64>` gives: an optional sign, then one or more ASCII
/// digits whose signed value fits in an `i64`.
pub open spec fn parse_i64_spec(s: Seq<char>) -> Option<int> {
    if s.len() > 0 && s[0] == '-' {
        let body = s.drop_first();
        if body.len() > 0 && all_digits(body) && digits_value(body) <= 0x8000_0000_0000_0000 {
            Some(-(digits_value(body) as int))
        } else {
            None
        }
    } else {
        match parse_unsigned(s, 0x7FFF_FFFF_FFFF_FFFF) {
            Some(v) => Some(v as int),
            None => None,
        }
    }
}

pub proof fn lemma_digits_value_prefix(s: Seq<char>, k: int)
    requires
        0 <= k <= s.len(),
    ensures
        digits_value(s.take(k)) <= digits_value(s),
    decreases s.len(),
{
    if k < s.len() {
        assert(s.drop_last().take(k) =~= s.take(k));
        lemma_digits_value_prefix(s.drop_last(), k);
    } else {
        assert(s.take(k) =~= s);
    }
}

pub proof fn lemma_digit_char(d: nat)
    requires
        d < 10,
    ensures
        is_digit(digit_char(d)),
        digit_val(digit_char(d)) == d,
        digit_char(d) != '+' && digit_char(d) != '-',
{
    let c = digit_char(d);
    assert(c as u32 == d + 48);
}

pub proof fn lemma_dec_digits(n: nat)
    ensures
        dec(n).len() > 0,
        all_digits(dec(n)),
        digits_value(dec(n)) == n,
        dec(n)[0] != '+' && dec(n)[0] != '-',
    decreases n,
{
    if n >= 10 {
        lemma_dec_digits(n / 10);
        lemma_digit_char(n % 10);
        let d = dec(n / 10).push(digit_char(n % 10));
        assert(d.drop_last() =~= dec(n / 10));
        assert(d[0] == dec(n / 10)[0]);
        assert(d.last() == digit_char(n % 10));
        assert(digits_value(d) == digits_value(dec(n / 10)) * 10 + digit_val(digit_char(n % 10)));
        assert(n == (n / 10) * 10 + n % 10);
        assert(dec(n) == d);
    } else {
        lemma_digit_char(n);
        let d = dec(n);
        assert(d.drop_last() =~= Seq::<char>::empty());
        assert(digits_value(d) == digits_value(d.drop_last()) * 10 + digit_val(d.last()));
    }
}

/// Parsing the decimal text of a value within range gives the value back.
pub proof fn lemma_parse_dec(n: nat, max: nat)
    requires
        n <= max,
    ensures
        parse_unsigned(dec(n), max) == Some(n),
{
    lemma_dec_digits(n);
}

/// Appends the decimal text of `n` to `out`.
pub fn push_dec(out: &mut Vec<char>, n: u64)
    ensures
        final(out)@ == old(out)@ + dec(n as nat),
    decreases n,
{
    if n >= 10 {
        push_dec(out, n / 10);
    }
    let d: u8 = (n % 10) as u8;
    let c: char = (48u8 + d) as char;
    out.push(c);
    proof {
        if n >= 10 {
            assert(dec(n as nat) == dec((n / 10) as nat).push(digit_char((n % 10) as nat)));
        }
    }
    assert(final(out)@ =~= old(out)@ + dec(n as nat));
}

/// Appends the decimal text of a signed `n` to `out`.
pub fn push_dec_i64(out: &mut Vec<char>, n: i64)
    ensures
        final(out)@ == old(out)@ + dec_int(n as int),
{
    if n < 0 {
        out.push('-');
        let m: u64 = if n == i64::MIN {
            0x8000_0000_0000_0000
        } else {
            (-n) as u64
        };
        push_dec(out, m);
        assert(final(out)@ =~= old(out)@ + dec_int(n as int));
    } else {
        push_dec(out, n as u64);
    }
}

/// Parses the digits of `v[start..]` as an unsigned value of at most `max`.
fn parse_digits(v: &[char], start: usize, max: u64) -> (r: Option<u64>)
    requires
        start <= v@.len(),
    ensures
        ({
            let body = v@.subrange(start as int, v@.len() as int);
            match r {
                Some(x) => body.len() > 0 && all_digits(body) && digits_value(body) <= max
                    && x == digits_value(body),
                None => !(body.len() > 0 && all_digits(body) && digits_value(body) <= max),
            }
        }),
{
    let ghost body = v@.subrange(start as int, v@.len() as int);
    if start == v.len() {
        return None;
    }
    let mut acc: u64 = 0;
    let mut i: usize = start;
    while i < v.len()
        invariant
            start <= i <= v@.len(),
            body == v@.subrange(start as int, v@.len() as int),
            all_digits(body.take(i - start)),
            acc as nat == digits_value(body.take(i - start)),
            acc <= max,
        decreases v@.len() - i,
    {
        let c = v[i];
        if !('0' <= c && c <= '9') {
            proof {
                assert(body[i - start] == c);
            }
            return None;
        }
        let d: u64 = (c as u32 - 48) as u64;
        proof {
            assert(body.take(i - start + 1).drop_last() =~= body.take(i - start));
            assert(body.take(i - start + 1).last() == c);
        }
        if d > max || acc > (max - d) / 10 {
            proof {
                assert(acc * 10 + d > max) by (nonlinear_arith)
                    requires
                        d > max || acc > (max - d) / 10,
                        d <= 9,
                ;
                if all_digits(body) {
                    lemma_digits_value_prefix(body, i - start + 1);
                }
            }
            return None;
        }
        proof {
            assert(acc * 10 + d <= max) by (nonlinear_arith)
                requires
                    acc <= (max - d) / 10,
                    d <= max,
            ;
        }
        acc = acc * 10 + d;
        i = i + 1;
    }
    proof {
        assert(body.take(i - start) =~= body);
    }
    Some(acc)
}

/// Parses an unsigned decimal value of at most `max`, as `str::parse` does.
pub fn parse_unsigned_exec(v: &[char], max: u64) -> (r: Option<u64>)
    ensures
        match r {
            Some(x) => parse_unsigned(v@, max as nat) == Some(x as nat),
            None => parse_unsigned(v@, max as nat) is None,
        },
{
    let start: usize = if v.len() > 0 && v[0] == '+' {
        1
    } else {
        0
    };
    proof {
        if start == 1 {
            assert(v@.subrange(1, v@.len() as int) =~= v@.drop_first());
        } else {
            assert(v@.subrange(0, v@.len() as int) =~= v@);
        }
    }
    parse_digits(v, start, max)
}

/// `str::parse::<u32>`.
pub fn parse_u32_chars(v: &[char]) -> (r: Option<u32>)
    ensures
        match r {
            Some(x) => parse_unsigned(v@, u32::MAX as nat) == Some(x as nat),
            None => parse_unsigned(v@, u32::MAX as nat) is None,
        },
{
    match parse_unsigned_exec(v, u32::MAX as u64) {
        Some(x) => Some(x as u32),
        None => None,
    }
}

/// `str::parse::<u64>`.
pub fn parse_u64_chars(v: &[char]) -> (r: Option<u64>)
    ensures
        match r {
            Some(x) => parse_unsigned(v@, u64::MAX as nat) == Some(x as nat),
            None => parse_unsigned(v@, u64::MAX as nat) is None,
        },
{
    parse_unsigned_exec(v, u64::MAX)
}

/// `str::parse::<i64>`.
pub fn parse_i64_chars(v: &[char]) -> (r: Option<i64>)
    ensures
        match r {
            Some(x) => parse_i64_spec(v@) == Some(x as int),
            None => parse_i64_spec(v@) is None,
        },
{
    if v.len() > 0 && v[0] == '-' {
        proof {
            assert(v@.subrange(1, v@.len() as int) =~= v@.drop_first());
        }
        match parse_digits(v, 1, 0x8000_0000_0000_0000) {
            Some(m) => {
                if m == 0x8000_0000_0000_0000 {
                    Some(i64::MIN)
                } else {
                    Some(-(m as i64))
                }
            },
            None => None,
        }
    } else {
        match parse_unsigned_exec(v, 0x7FFF_FFFF_FFFF_FFFF) {
            Some(x) => Some(x as i64),
            None => None,
        }
    }
}

} // verus!
