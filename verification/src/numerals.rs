//! Numbers written in decimal and hexadecimal, and read back.
use vstd::arithmetic::power::{lemma_pow0, lemma_pow1, lemma_pow_adds, pow};
use vstd::prelude::*;
use crate::text::chars_of;

verus! {

/// The value of the digit `c` in the given base (10 or 16).
pub open spec fn digit_of(c: char, base: int) -> Option<int> {
    let n = c as u32 as int;
    let d = if 48 <= n <= 57 {
        n - 48
    } else if 97 <= n <= 102 {
        n - 87
    } else if 65 <= n <= 70 {
        n - 55
    } else {
        99
    };
    if d < base {
        Some(d)
    } else {
        None
    }
}

/// The value of a row of digits; none when some character is no digit.
pub open spec fn digits_value(s: Seq<char>, base: int) -> Option<int>
    decreases s.len(),
{
    if s.len() == 0 {
        Some(0)
    } else {
        match (digits_value(s.drop_last(), base), digit_of(s.last(), base)) {
            (Some(v), Some(d)) => Some(v * base + d),
            _ => None,
        }
    }
}

/// `s` without one leading plus sign.
pub open spec fn without_plus(s: Seq<char>) -> Seq<char> {
    if s.len() > 0 && s[0] == '+' {
        s.drop_first()
    } else {
        s
    }
}

/// The number that `s` writes, at most `max`: an optional plus sign and at
/// least one digit.
pub open spec fn number(s: Seq<char>, base: int, max: int) -> Option<int> {
    let body = without_plus(s);
    if body.len() == 0 {
        None
    } else {
        match digits_value(body, base) {
            Some(v) => if v <= max {
                Some(v)
            } else {
                None
            },
            None => None,
        }
    }
}

fn digit(c: char, base: u64) -> (r: Option<u64>)
    requires
        base == 10 || base == 16,
    ensures
        match r {
            Some(d) => digit_of(c, base as int) == Some(d as int),
            None => digit_of(c, base as int) is None,
        },
        r matches Some(d) ==> d < base,
{
    let n: u64 = c as u64;
    let d: u64 = if 48 <= n && n <= 57 {
        n - 48
    } else if 97 <= n && n <= 102 {
        n - 87
    } else if 65 <= n && n <= 70 {
        n - 55
    } else {
        99
    };
    if d < base {
        Some(d)
    } else {
        None
    }
}

/// The value of the digits of `v` from position `lo` on, if it is at most
/// `max`.
fn read_digits(v: &Vec<char>, lo: usize, base: u64, max: u64) -> (r: Option<u64>)
    requires
        base == 10 || base == 16,
        lo <= v.len(),
    ensures
        match r {
            Some(n) => digits_value(v@.skip(lo as int), base as int) == Some(n as int) && n <= max,
            None => digits_value(v@.skip(lo as int), base as int) matches Some(n) ==> n > max,
        },
{
    let ghost body = v@.skip(lo as int);
    let mut acc: u128 = 0;
    let mut over: bool = false;
    let mut i: usize = lo;
    while i < v.len()
        invariant
            lo <= i <= v.len(),
            body == v@.skip(lo as int),
            base == 10 || base == 16,
            acc <= max,
            digits_value(body.take(i - lo), base as int) matches Some(n) && (if over {
                n > max
            } else {
                n == acc
            }),
        decreases v.len() - i,
    {
        proof {
            assert(body.take(i + 1 - lo).drop_last() =~= body.take(i - lo));
            assert(body.take(i + 1 - lo).last() == v@[i as int]);
        }
        match digit(v[i], base) {
            Some(d) => {
                if !over {
                    let ghost before = acc as int;
                    proof {
                        assert(before * base <= max * 16) by (nonlinear_arith)
                            requires
                                0 <= before <= max,
                                base == 10 || base == 16,
                        ;
                    }
                    let next: u128 = acc * (base as u128) + d as u128;
                    if next > max as u128 {
                        over = true;
                    } else {
                        acc = next;
                    }
                } else {
                    proof {
                        let n = digits_value(body.take(i - lo), base as int)->0;
                        assert(n * base + d > max) by (nonlinear_arith)
                            requires
                                n > max,
                                max >= 0,
                                base == 10 || base == 16,
                                d >= 0,
                        ;
                    }
                }
            },
            None => {
                proof {
                    lemma_bad_digit(body, base as int, i - lo);
                }
                return None;
            },
        }
        i = i + 1;
    }
    proof {
        assert(body.take(i - lo) =~= body);
    }
    if over {
        None
    } else {
        Some(acc as u64)
    }
}

/// One character that is no digit spoils the whole row.
proof fn lemma_bad_digit(s: Seq<char>, base: int, i: int)
    requires
        0 <= i < s.len(),
        digit_of(s[i], base) is None,
    ensures
        digits_value(s, base) is None,
    decreases s.len(),
{
    if i < s.len() - 1 {
        lemma_bad_digit(s.drop_last(), base, i);
    }
}

/// Reads an unsigned number no larger than `max`.
pub fn read_number(s: &str, base: u64, max: u64) -> (r: Option<u64>)
    requires
        base == 10 || base == 16,
    ensures
        match r {
            Some(n) => number(s@, base as int, max as int) == Some(n as int) && n <= max,
            None => number(s@, base as int, max as int) is None,
        },
{
    let v = chars_of(s);
    let lo: usize = if v.len() > 0 && v[0] == '+' {
        1
    } else {
        0
    };
    proof {
        assert(v@.skip(lo as int) =~= without_plus(s@));
    }
    if lo == v.len() {
        return None;
    }
    read_digits(&v, lo, base, max)
}

/// Reads a row of digits of at most that value, without any sign.
pub fn read_plain(s: &str, base: u64, max: u64) -> (r: Option<u64>)
    requires
        base == 10 || base == 16,
    ensures
        match r {
            Some(n) => digits_value(s@, base as int) == Some(n as int) && n <= max,
            None => digits_value(s@, base as int) matches Some(n) ==> n > max,
        },
{
    let v = chars_of(s);
    proof {
        assert(v@.skip(0) =~= s@);
    }
    read_digits(&v, 0, base, max)
}

/// Hexadecimal digits write a number below that power of sixteen.
pub proof fn lemma_hex_below(s: Seq<char>)
    ensures
        digits_value(s, 16) matches Some(v) ==> 0 <= v < pow(16, s.len()),
    decreases s.len(),
{
    lemma_pow0(16);
    if s.len() > 0 {
        lemma_hex_below(s.drop_last());
        let n = (s.len() - 1) as nat;
        lemma_pow_adds(16, n, 1);
        lemma_pow1(16);
    }
}

/// The signed number that `s` writes in decimal, within the range of
/// window handles: an optional sign and at least one digit.
pub open spec fn signed_number(s: Seq<char>) -> Option<int> {
    if s.len() > 0 && s[0] == '-' {
        if s.len() == 1 {
            None
        } else {
            match digits_value(s.drop_first(), 10) {
                Some(v) => if -v >= isize::MIN {
                    Some(-v)
                } else {
                    None
                },
                None => None,
            }
        }
    } else {
        number(s, 10, isize::MAX as int)
    }
}

/// Reads a signed decimal number.
pub fn read_signed(s: &str) -> (r: Option<isize>)
    ensures
        match r {
            Some(n) => signed_number(s@) == Some(n as int),
            None => signed_number(s@) is None,
        },
{
    let v = chars_of(s);
    if v.len() > 0 && v[0] == '-' {
        if v.len() == 1 {
            return None;
        }
        proof {
            assert(v@.skip(1) =~= s@.drop_first());
        }
        match read_digits(&v, 1, 10, isize::MAX as u64 + 1) {
            Some(n) => {
                if n == isize::MAX as u64 + 1 {
                    Some(isize::MIN)
                } else {
                    Some(-(n as isize))
                }
            },
            None => None,
        }
    } else {
        match read_number(s, 10, isize::MAX as u64) {
            Some(n) => Some(n as isize),
            None => None,
        }
    }
}

/// The character of a decimal digit.
pub open spec fn digit_char(d: int) -> char {
    (48 + d) as u8 as char
}

/// `n` written in decimal.
pub open spec fn decimal(n: nat) -> Seq<char>
    decreases n,
{
    if n < 10 {
        seq![digit_char(n as int)]
    } else {
        decimal(n / 10).push(digit_char((n % 10) as int))
    }
}

/// `n` written in decimal, with a minus sign when it is negative.
pub open spec fn signed_decimal(n: int) -> Seq<char> {
    if n < 0 {
        seq!['-'] + decimal((-n) as nat)
    } else {
        decimal(n as nat)
    }
}

/// Writes `n` in decimal.
pub fn show(n: u64) -> (r: String)
    ensures
        r@ == decimal(n as nat),
    decreases n,
{
    let d: u64 = n % 10;
    let c: char = (48 + d) as u8 as char;
    if n < 10 {
        let mut out = String::new();
        out.push(c);
        proof {
            assert(out@ =~= decimal(n as nat));
        }
        out
    } else {
        let mut out = show(n / 10);
        out.push(c);
        out
    }
}

/// Writes a signed number in decimal.
pub fn show_signed(n: i64) -> (r: String)
    ensures
        r@ == signed_decimal(n as int),
{
    if n < 0 {
        let m: u64 = if n == i64::MIN {
            0x8000_0000_0000_0000
        } else {
            (-n) as u64
        };
        let digits = show(m);
        let mut out = String::new();
        out.push('-');
        out.append(digits.as_str());
        proof {
            assert(out@ =~= signed_decimal(n as int));
        }
        out
    } else {
        show(n as u64)
    }
}

/// At least two decimal digits.
pub open spec fn two_digits(n: nat) -> Seq<char> {
    if n < 10 {
        seq!['0'] + decimal(n)
    } else {
        decimal(n)
    }
}

/// Writes `n` with at least two digits.
pub fn show_two(n: u64) -> (r: String)
    ensures
        r@ == two_digits(n as nat),
{
    let digits = show(n);
    if n < 10 {
        let mut out = String::new();
        out.push('0');
        out.append(digits.as_str());
        proof {
            assert(out@ =~= two_digits(n as nat));
        }
        out
    } else {
        digits
    }
}

/// The character of a hexadecimal digit.
pub open spec fn hex_char(d: int) -> char {
    if d < 10 {
        (48 + d) as u8 as char
    } else {
        (87 + d) as u8 as char
    }
}

/// A byte as two small hexadecimal digits.
pub open spec fn hex_byte(n: int) -> Seq<char> {
    seq![hex_char(n / 16), hex_char(n % 16)]
}

/// Appends a byte as two small hexadecimal digits.
pub fn push_hex_byte(out: &mut String, n: u32)
    requires
        n < 256,
    ensures
        final(out)@ == old(out)@ + hex_byte(n as int),
{
    let hi: u32 = n / 16;
    let lo: u32 = n % 16;
    let a: char = if hi < 10 {
        (48 + hi) as u8 as char
    } else {
        (87 + hi) as u8 as char
    };
    let b: char = if lo < 10 {
        (48 + lo) as u8 as char
    } else {
        (87 + lo) as u8 as char
    };
    out.push(a);
    out.push(b);
    proof {
        assert(out@ =~= old(out)@ + hex_byte(n as int));
    }
}

// -------------------------------------------------------------------- laws

/// A number written in decimal reads back as itself.
pub proof fn law_decimal_reads_back(n: nat)
    ensures
        digits_value(decimal(n), 10) == Some(n as int),
        decimal(n).len() > 0,
        forall|i: int|
            0 <= i < decimal(n).len() ==> 48 <= (#[trigger] decimal(n)[i]) as u32 && decimal(
                n,
            )[i] as u32 <= 57,
        forall|max: int| n <= max ==> #[trigger] number(decimal(n), 10, max) == Some(n as int),
    decreases n,
{
    let s = decimal(n);
    if n < 10 {
        assert(s.drop_last() =~= Seq::<char>::empty());
        assert(digits_value(s.drop_last(), 10) == Some(0int));
        assert(s.last() as u32 == 48 + n);
    } else {
        law_decimal_reads_back(n / 10);
        assert(s.drop_last() =~= decimal(n / 10));
        assert(s.last() as u32 == 48 + n % 10);
    }
    assert(s[0] as u32 != '+' as u32);
    assert(without_plus(s) == s);
}

/// A signed number written in decimal reads back as itself.
pub proof fn law_signed_decimal_reads_back(n: isize)
    ensures
        signed_number(signed_decimal(n as int)) == Some(n as int),
{
    let s = signed_decimal(n as int);
    if n < 0 {
        law_decimal_reads_back((-n) as nat);
        assert(s.drop_first() =~= decimal((-n) as nat));
    } else {
        law_decimal_reads_back(n as nat);
        assert(s[0] as u32 != '-' as u32);
    }
}

} // verus!
