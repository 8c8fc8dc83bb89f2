//! Decimal rendering and parsing of unsigned 64-bit values, shared by the
//! sheet and text converters.

use vstd::prelude::*;

verus! {

/// Whether `c` is an ASCII decimal digit.
pub open spec fn is_digit_char(c: char) -> bool {
    0x30 <= (c as u32) <= 0x39
}

/// The numeric value of the digit `c`.
pub open spec fn digit_val(c: char) -> int
    recommends
        is_digit_char(c),
{
    (c as u32) - 0x30
}

/// The digit character for the value `d`.
pub open spec fn char_of_digit(d: int) -> char
    recommends
        0 <= d <= 9,
{
    if d == 0 {
        '0'
    } else if d == 1 {
        '1'
    } else if d == 2 {
        '2'
    } else if d == 3 {
        '3'
    } else if d == 4 {
        '4'
    } else if d == 5 {
        '5'
    } else if d == 6 {
        '6'
    } else if d == 7 {
        '7'
    } else if d == 8 {
        '8'
    } else {
        '9'
    }
}

/// Whether `s` is one or more ASCII decimal digits and nothing else.
pub open spec fn spec_is_digits(s: Seq<char>) -> bool {
    s.len() > 0 && forall|i: int| 0 <= i < s.len() ==> is_digit_char(#[trigger] s[i])
}

/// The number the digit string `s` denotes, most significant digit first.
pub open spec fn spec_digits_val(s: Seq<char>) -> int
    decreases s.len(),
{
    if s.len() == 0 {
        0
    } else {
        spec_digits_val(s.drop_last()) * 10 + digit_val(s.last())
    }
}

/// What `str::parse::<u64>` accepts: an optional leading plus sign, then
/// digits only, denoting a value that fits in 64 bits.
pub open spec fn spec_parse_u64(s: Seq<char>) -> Option<u64> {
    let body = if s.len() > 0 && s[0] == '+' {
        s.drop_first()
    } else {
        s
    };
    if spec_is_digits(body) && spec_digits_val(body) <= u64::MAX {
        Some(spec_digits_val(body) as u64)
    } else {
        None
    }
}

/// The decimal rendering of `n`, without sign or leading zeros.
pub open spec fn spec_u64_str(n: u64) -> Seq<char>
    decreases n,
{
    if n < 10 {
        seq![char_of_digit(n as int)]
    } else {
        spec_u64_str(n / 10).push(char_of_digit((n % 10) as int))
    }
}

/// A digit string denotes a non-negative number.
pub proof fn lemma_digits_val_nonneg(s: Seq<char>)
    requires
        forall|i: int| 0 <= i < s.len() ==> is_digit_char(#[trigger] s[i]),
    ensures
        spec_digits_val(s) >= 0,
    decreases s.len(),
{
    if s.len() > 0 {
        lemma_digits_val_nonneg(s.drop_last());
    }
}

/// Extending a digit string on the right never shrinks its value.
pub proof fn lemma_digits_val_prefix_le(s: Seq<char>, i: int)
    requires
        0 <= i <= s.len(),
        forall|j: int| 0 <= j < s.len() ==> is_digit_char(#[trigger] s[j]),
    ensures
        spec_digits_val(s.take(i)) <= spec_digits_val(s),
    decreases s.len() - i,
{
    if i == s.len() {
        assert(s.take(i) =~= s);
    } else {
        let a = s.take(i);
        let b = s.take(i + 1);
        assert(b.drop_last() =~= a);
        assert(b.last() == s[i]);
        lemma_digits_val_nonneg(a);
        assert(spec_digits_val(b) == spec_digits_val(a) * 10 + digit_val(s[i]));
        lemma_digits_val_prefix_le(s, i + 1);
    }
}

/// The decimal rendering of `n` consists of digits alone.
pub proof fn lemma_u64_str_digits(n: u64)
    ensures
        spec_is_digits(spec_u64_str(n)),
    decreases n,
{
    if n < 10 {
    } else {
        lemma_u64_str_digits(n / 10);
        let a = spec_u64_str(n / 10);
        let b = spec_u64_str(n);
        assert(b == a.push(char_of_digit((n % 10) as int)));
        assert(forall|i: int| 0 <= i < a.len() ==> b[i] == a[i]);
        assert(is_digit_char(b[b.len() - 1]));
    }
}

/// Parsing the decimal rendering of `n` gives back `n`.
pub proof fn lemma_u64_str_val(n: u64)
    ensures
        spec_digits_val(spec_u64_str(n)) == n,
    decreases n,
{
    if n < 10 {
        let s = spec_u64_str(n);
        assert(s.drop_last() =~= Seq::<char>::empty());
        assert(spec_digits_val(Seq::<char>::empty()) == 0);
        assert(s.last() == char_of_digit(n as int));
        assert(digit_val(char_of_digit(n as int)) == n);
    } else {
        lemma_u64_str_val(n / 10);
        let a = spec_u64_str(n / 10);
        let s = spec_u64_str(n);
        assert(s.drop_last() =~= a);
        assert(s.last() == char_of_digit((n % 10) as int));
        assert(digit_val(s.last()) == n % 10);
        assert(spec_digits_val(s) == spec_digits_val(a) * 10 + (n % 10));
        vstd::arithmetic::div_mod::lemma_fundamental_div_mod(n as int, 10);
    }
}

/// `str::parse::<u64>` accepts exactly what the rendering produced.
pub proof fn lemma_parse_u64_str(n: u64)
    ensures
        spec_parse_u64(spec_u64_str(n)) == Some(n),
{
    lemma_u64_str_digits(n);
    lemma_u64_str_val(n);
    let s = spec_u64_str(n);
    assert(is_digit_char(s[0]));
    assert(s[0] != '+');
}

/// The digit character for the value `d`.
pub fn digit_char(d: u64) -> (c: char)
    requires
        d <= 9,
    ensures
        c == char_of_digit(d as int),
{
    match d {
        0 => '0',
        1 => '1',
        2 => '2',
        3 => '3',
        4 => '4',
        5 => '5',
        6 => '6',
        7 => '7',
        8 => '8',
        _ => '9',
    }
}

/// Renders `n` in decimal, as `u64`'s display implementation does.
pub fn u64_to_chars(n: u64) -> (out: Vec<char>)
    ensures
        out@ == spec_u64_str(n),
{
    let mut tmp: Vec<char> = Vec::new();
    let mut m: u64 = n;
    if n == 0 {
        let mut out: Vec<char> = Vec::new();
        out.push('0');
        proof {
            assert(out@ =~= spec_u64_str(0));
        }
        return out;
    }
    proof {
        assert(tmp@.reverse() =~= Seq::<char>::empty());
        assert(spec_u64_str(n) == spec_u64_str(n) + tmp@.reverse());
    }
    while m > 0
        invariant
            m > 0 ==> spec_u64_str(n) == spec_u64_str(m) + tmp@.reverse(),
            m == 0 ==> spec_u64_str(n) == tmp@.reverse(),
            m <= n,
            n > 0,
        decreases m,
    {
        let ghost old_tmp = tmp@;
        let ghost old_m = m;
        let d = m % 10;
        tmp.push(digit_char(d));
        m = m / 10;
        proof {
            let c = char_of_digit(d as int);
            assert(tmp@.reverse() =~= seq![c] + old_tmp.reverse());
            if old_m < 10 {
                assert(m == 0);
                assert(spec_u64_str(old_m) =~= seq![c]);
                assert(spec_u64_str(n) =~= tmp@.reverse());
            } else {
                assert(spec_u64_str(old_m) =~= spec_u64_str(old_m / 10).push(c));
                assert(spec_u64_str(old_m / 10).push(c) + old_tmp.reverse() =~= spec_u64_str(m) + (
                seq![c] + old_tmp.reverse()));
            }
        }
    }
    let mut out: Vec<char> = Vec::new();
    let mut k: usize = tmp.len();
    while k > 0
        invariant
            k <= tmp@.len(),
            out@ == tmp@.reverse().take(tmp@.len() - k),
        decreases k,
    {
        out.push(tmp[k - 1]);
        proof {
            assert(out@ =~= tmp@.reverse().take(tmp@.len() - (k - 1)));
        }
        k = k - 1;
    }
    proof {
        assert(tmp@.reverse().take(tmp@.len() as int) =~= tmp@.reverse());
    }
    out
}

/// Parses `v` as `str::parse::<u64>` would: an optional leading plus sign,
/// then decimal digits denoting a value that fits in 64 bits.
pub fn parse_u64(v: &Vec<char>) -> (out: Option<u64>)
    ensures
        out == spec_parse_u64(v@),
{
    let start: usize = if v.len() > 0 && v[0] == '+' {
        1
    } else {
        0
    };
    let ghost body = if v@.len() > 0 && v@[0] == '+' {
        v@.drop_first()
    } else {
        v@
    };
    proof {
        assert(body =~= v@.skip(start as int));
    }
    if v.len() == start {
        return None;
    }
    let mut acc: u64 = 0;
    let mut i: usize = start;
    while i < v.len()
        invariant
            start <= i <= v@.len(),
            v@.len() > start,
            body == v@.skip(start as int),
            body == (if v@.len() > 0 && v@[0] == '+' {
                v@.drop_first()
            } else {
                v@
            }),
            forall|j: int| start <= j < i ==> is_digit_char(#[trigger] v@[j]),
            acc == spec_digits_val(body.take(i - start)),
        decreases v@.len() - i,
    {
        let c = v[i];
        let x = c as u32;
        if x < 0x30 || x > 0x39 {
            proof {
                assert(forall|j: int| 0 <= j < body.len() ==> body[j] == v@[j + start]);
                assert(body[i - start] == v@[i as int]);
                assert(!is_digit_char(body[i - start]));
                assert(!spec_is_digits(body));
                let sbody = if v@.len() > 0 && v@[0] == '+' {
                    v@.drop_first()
                } else {
                    v@
                };
                assert(sbody == body);
                assert(!spec_is_digits(sbody));
                assert(spec_parse_u64(v@) is None);
            }
            return None;
        }
        let d: u64 = (x - 0x30) as u64;
        proof {
            assert(forall|j: int| 0 <= j < body.len() ==> body[j] == v@[j + start]);
            let t = body.take(i - start + 1);
            assert(t.drop_last() =~= body.take(i - start));
            assert(t.last() == body[i - start]);
            assert(t.last() == v@[i as int]);
            lemma_digits_val_nonneg(body.take(i - start));
        }
        if acc > (u64::MAX - d) / 10 {
            proof {
                assert(forall|j: int|
                    0 <= j < body.len() ==> body[j] == v@[j + start]);
                vstd::arithmetic::div_mod::lemma_fundamental_div_mod((u64::MAX - d) as int, 10);
                let q = ((u64::MAX - d) / 10) as int;
                let w = ((u64::MAX - d) % 10) as int;
                let a = acc as int;
                let dd = d as int;
                assert(a * 10 + dd > u64::MAX) by (nonlinear_arith)
                    requires
                        a > q,
                        (u64::MAX - dd) == q * 10 + w,
                        0 <= w,
                        w < 10,
                        0 <= dd,
                        dd <= 9;
                if spec_is_digits(body) {
                    let t = body.take(i - start + 1);
                    assert(spec_digits_val(t) == acc * 10 + d);
                    assert(spec_digits_val(t) > u64::MAX);
                    lemma_digits_val_prefix_le(body, i - start + 1);
                }
            }
            return None;
        }
        acc = acc * 10 + d;
        i = i + 1;
    }
    proof {
        assert(forall|j: int| 0 <= j < body.len() ==> body[j] == v@[j + start]);
        assert(spec_is_digits(body));
        assert(body.take(v@.len() - start) =~= body);
    }
    Some(acc)
}

} // verus!
