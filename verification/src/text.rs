//! Numbers as text: decimal and hexadecimal, written and read.

use vstd::prelude::*;
use vstd::string::*;

verus! {

// --------------------------------- writing ----------------------------------

/// The character for the digit `d`, in bases up to 16.
pub open spec fn digit_char(d: int) -> char {
    if d < 10 {
        (0x30 + d) as char
    } else {
        (0x57 + d) as char
    }
}

/// `n` in decimal.
pub open spec fn decimal(n: nat) -> Seq<char>
    decreases n,
{
    if n < 10 {
        seq![digit_char(n as int)]
    } else {
        decimal(n / 10).push(digit_char((n % 10) as int))
    }
}

/// `i` in decimal, with a minus sign where it is negative.
pub open spec fn signed_decimal(i: int) -> Seq<char> {
    if i < 0 {
        seq!['-'] + decimal((-i) as nat)
    } else {
        decimal(i as nat)
    }
}

/// A byte as two hexadecimal digits.
pub open spec fn hex2(b: u8) -> Seq<char> {
    seq![digit_char(b as int / 16), digit_char(b as int % 16)]
}

/// A 16-bit number as four hexadecimal digits.
pub open spec fn hex4(w: u16) -> Seq<char> {
    hex2((w / 256) as u8) + hex2((w % 256) as u8)
}

/// Appends the digit `d`.
pub fn push_digit(out: &mut String, d: u8)
    requires
        d < 16,
    ensures
        final(out)@ == old(out)@.push(digit_char(d as int)),
{
    let digits: &str = "0123456789abcdef";
    proof {
        reveal_strlit("0123456789abcdef");
        vstd::utf8::is_ascii_chars_encode_utf8(digits@);
    }
    let one: &str = digits.substring_ascii(d as usize, d as usize + 1);
    assert(one@ =~= seq![digit_char(d as int)]);
    out.append(one);
    assert(out@ =~= old(out)@.push(digit_char(d as int)));
}

/// Appends `n` in decimal.
pub fn push_decimal(out: &mut String, n: u64)
    ensures
        final(out)@ == old(out)@ + decimal(n as nat),
    decreases n,
{
    let ghost before = out@;
    if n >= 10 {
        push_decimal(out, n / 10);
    }
    push_digit(out, (n % 10) as u8);
    assert(out@ =~= before + decimal(n as nat));
}

/// Appends `i` in decimal.
pub fn push_signed(out: &mut String, i: i32)
    ensures
        final(out)@ == old(out)@ + signed_decimal(i as int),
{
    if i < 0 {
        proof {
            reveal_strlit("-");
        }
        out.append("-");
        let ghost mid = out@;
        push_decimal(out, (-(i as i64)) as u64);
        assert(out@ =~= old(out)@ + signed_decimal(i as int));
    } else {
        push_decimal(out, i as u64);
    }
}

/// Appends `b` as two hexadecimal digits.
pub fn push_hex2(out: &mut String, b: u8)
    ensures
        final(out)@ == old(out)@ + hex2(b),
{
    push_digit(out, b / 16);
    push_digit(out, b % 16);
    assert(out@ =~= old(out)@ + hex2(b));
}

/// Appends `w` as four hexadecimal digits.
pub fn push_hex4(out: &mut String, w: u16)
    ensures
        final(out)@ == old(out)@ + hex4(w),
{
    push_hex2(out, (w / 256) as u8);
    push_hex2(out, (w % 256) as u8);
    assert(out@ =~= old(out)@ + hex4(w));
}

// --------------------------------- reading ----------------------------------

/// The value of the digit `c`: a decimal digit, or a letter for ten and above.
pub open spec fn digit_of(c: char) -> int {
    if '0' <= c && c <= '9' {
        c as int - 0x30
    } else if 'a' <= c && c <= 'f' {
        c as int - 0x57
    } else if 'A' <= c && c <= 'F' {
        c as int - 0x37
    } else {
        16
    }
}

/// The number whose digits in base `radix` are `s`, or `None` where one is no such digit.
pub open spec fn digits_value(s: Seq<char>, radix: int) -> Option<int>
    decreases s.len(),
{
    if s.len() == 0 {
        Some(0)
    } else {
        match digits_value(s.drop_last(), radix) {
            Some(v) if digit_of(s.last()) < radix => Some(v * radix + digit_of(s.last())),
            _ => None,
        }
    }
}

/// The number up to `max` that `s` stands for: digits, after a plus sign or not.
pub open spec fn parsed(s: Seq<char>, radix: int, max: int) -> Option<int> {
    let digits = if s.len() > 0 && s[0] == '+' {
        s.skip(1)
    } else {
        s
    };
    match digits_value(digits, radix) {
        Some(v) if digits.len() > 0 && v <= max => Some(v),
        _ => None,
    }
}

/// Digits that follow only make a number larger, or no number.
proof fn lemma_more_digits(s: Seq<char>, k: int, radix: int)
    requires
        0 <= k <= s.len(),
        radix >= 1,
    ensures
        digits_value(s, radix) is Some ==> {
            &&& digits_value(s.take(k), radix) is Some
            &&& 0 <= digits_value(s.take(k), radix)->0 <= digits_value(s, radix)->0
        },
    decreases s.len(),
{
    if k == s.len() {
        assert(s.take(k) =~= s);
        lemma_value_nonnegative(s, radix);
    } else {
        lemma_more_digits(s.drop_last(), k, radix);
        assert(s.drop_last().take(k) =~= s.take(k));
        lemma_value_nonnegative(s.drop_last(), radix);
        if digits_value(s, radix) is Some {
            let v = digits_value(s.drop_last(), radix)->0;
            assert(v * radix >= v) by (nonlinear_arith)
                requires
                    v >= 0,
                    radix >= 1,
            ;
        }
    }
}

/// The value of digits is not negative.
pub proof fn lemma_value_nonnegative(s: Seq<char>, radix: int)
    requires
        radix >= 1,
    ensures
        digits_value(s, radix) is Some ==> digits_value(s, radix)->0 >= 0,
    decreases s.len(),
{
    if s.len() > 0 {
        lemma_value_nonnegative(s.drop_last(), radix);
        if digits_value(s, radix) is Some {
            let v = digits_value(s.drop_last(), radix)->0;
            assert(v * radix >= 0) by (nonlinear_arith)
                requires
                    v >= 0,
                    radix >= 1,
            ;
        }
    }
}

/// The value of a digit, 16 where `c` is none.
fn digit_value(c: char) -> (d: u64)
    ensures
        d == digit_of(c),
        d <= 16,
{
    if '0' <= c && c <= '9' {
        c as u64 - 0x30
    } else if 'a' <= c && c <= 'f' {
        c as u64 - 0x57
    } else if 'A' <= c && c <= 'F' {
        c as u64 - 0x37
    } else {
        16
    }
}

/// Reads the number up to `max` in base `radix` that `s` holds from character `from` on.
pub fn parse_number(s: &str, from: usize, radix: u64, max: u64) -> (r: Option<u64>)
    requires
        from <= s@.len(),
        radix == 10 || radix == 16,
    ensures
        match parsed(s@.skip(from as int), radix as int, max as int) {
            Some(v) => r is Some && r->0 == v,
            None => r is None,
        },
{
    let n: usize = s.unicode_len();
    let ghost all = s@.skip(from as int);
    let mut start: usize = from;
    if from < n && s.get_char(from) == '+' {
        start = from + 1;
    }
    let ghost digits = s@.skip(start as int);
    assert(digits =~= if all.len() > 0 && all[0] == '+' {
        all.skip(1)
    } else {
        all
    });
    if start == n {
        return None;
    }
    let mut v: u64 = 0;
    let mut i: usize = start;
    assert(digits.take(0) =~= Seq::empty());
    while i < n
        invariant
            start <= i <= n,
            n == s@.len(),
            all == s@.skip(from as int),
            digits == s@.skip(start as int),
            radix == 10 || radix == 16,
            v <= max,
            digits_value(digits.take(i - start), radix as int) == Some(v as int),
            parsed(all, radix as int, max as int) == match digits_value(digits, radix as int) {
                Some(w) if w <= max => Some(w),
                _ => None,
            },
        decreases n - i,
    {
        let d: u64 = digit_value(s.get_char(i));
        proof {
            lemma_more_digits(digits, i - start + 1, radix as int);
            assert(digits.take(i - start + 1).drop_last() =~= digits.take(i - start));
            assert(digits.take(i - start + 1).last() == s@[i as int]);
            assert(v * radix == v * 10 || v * radix == v * 16) by (nonlinear_arith)
                requires
                    radix == 10 || radix == 16,
            ;
        }
        if d >= radix {
            return None;
        }
        let wide: u128 = if radix == 10 {
            v as u128 * 10 + d as u128
        } else {
            v as u128 * 16 + d as u128
        };
        assert(digits_value(digits.take(i - start + 1), radix as int) == Some(wide as int)) by {
            assert(v * radix == if radix == 10 {
                v * 10
            } else {
                v * 16
            });
        }
        if wide > max as u128 {
            return None;
        }
        v = wide as u64;
        i = i + 1;
    }
    assert(digits.take(n - start) =~= digits);
    Some(v)
}

/// Reads a 32-bit number in decimal.
pub fn parse_u32(s: &str) -> (r: Option<u32>)
    ensures
        match parsed(s@, 10, u32::MAX as int) {
            Some(v) => r is Some && r->0 == v,
            None => r is None,
        },
{
    assert(s@.skip(0) =~= s@);
    match parse_number(s, 0, 10, u32::MAX as u64) {
        Some(v) => Some(v as u32),
        None => None,
    }
}

/// Reads a number of pointer size in decimal.
pub fn parse_usize(s: &str) -> (r: Option<usize>)
    ensures
        match parsed(s@, 10, usize::MAX as int) {
            Some(v) => r is Some && r->0 == v,
            None => r is None,
        },
{
    assert(s@.skip(0) =~= s@);
    match parse_number(s, 0, 10, usize::MAX as u64) {
        Some(v) => Some(v as usize),
        None => None,
    }
}

/// The byte that `s` stands for: hexadecimal after `0x`, else decimal; 0 where it is none.
pub open spec fn byte_of(s: Seq<char>) -> u8 {
    let v = if s.len() >= 2 && s[0] == '0' && s[1] == 'x' {
        parsed(s.skip(2), 16, 255)
    } else {
        parsed(s, 10, 255)
    };
    match v {
        Some(b) => b as u8,
        None => 0,
    }
}

/// Reads a byte: hexadecimal after `0x`, else decimal; 0 where `s` is none.
pub fn parse_u8(s: &str) -> (b: u8)
    ensures
        b == byte_of(s@),
{
    assert(s@.skip(0) =~= s@);
    let v: Option<u64> = if s.unicode_len() >= 2 && s.get_char(0) == '0' && s.get_char(1) == 'x' {
        parse_number(s, 2, 16, 255)
    } else {
        parse_number(s, 0, 10, 255)
    };
    match v {
        Some(b) => b as u8,
        None => 0,
    }
}

// ----------------------------------- laws -----------------------------------

/// A number that was written in decimal is read back, where it is not too large.
pub proof fn law_decimal_round_trip(n: nat, max: int)
    ensures
        digits_value(decimal(n), 10) == Some(n as int),
        parsed(decimal(n), 10, max) == if n <= max {
            Some(n as int)
        } else {
            None::<int>
        },
    decreases n,
{
    lemma_decimal_starts(n);
    if n >= 10 {
        law_decimal_round_trip(n / 10, max);
        assert(decimal(n).drop_last() =~= decimal(n / 10));
    } else {
        assert(decimal(n).drop_last() =~= Seq::empty());
        assert(digits_value(decimal(n).drop_last(), 10) == Some(0int));
    }
}

/// A byte that was written in hexadecimal is read back, also after `0x`.
pub proof fn law_hex_round_trip(b: u8)
    ensures
        parsed(hex2(b), 16, 255) == Some(b as int),
        byte_of(seq!['0', 'x'] + hex2(b)) == b,
{
    let s = hex2(b);
    assert(s.drop_last().drop_last() =~= Seq::empty());
    assert(digits_value(s.drop_last().drop_last(), 16) == Some(0int));
    assert(digits_value(s.drop_last(), 16) == Some(b as int / 16));
    assert(digits_value(s, 16) == Some(b as int));
    assert((seq!['0', 'x'] + s).skip(2) =~= s);
}

/// A number in decimal starts with a digit.
proof fn lemma_decimal_starts(n: nat)
    ensures
        decimal(n).len() > 0,
        decimal(n)[0] != '+',
    decreases n,
{
    if n >= 10 {
        lemma_decimal_starts(n / 10);
    }
}

/// A digit below ten is written as the character of that number behind `0`, one from ten on as
/// the letter of that number behind `a`; it is put at the end of what stands there.
pub proof fn law_digit_written(d: u8)
    requires
        d < 16,
    ensures
        forall|out: &mut String| #[trigger]
            call_ensures(push_digit, (out, d), ()) ==> {
                &&& (*final(out))@.len() == (*out)@.len() + 1
                &&& (*final(out))@.drop_last() == (*out)@
                &&& (*final(out))@.last() as int == if d < 10 {
                    '0' as int + d
                } else {
                    'a' as int + (d - 10)
                }
            },
{
    assert forall|out: &mut String| #[trigger] call_ensures(push_digit, (out, d), ()) implies {
        &&& (*final(out))@.len() == (*out)@.len() + 1
        &&& (*final(out))@.drop_last() == (*out)@
        &&& (*final(out))@.last() as int == if d < 10 {
            '0' as int + d
        } else {
            'a' as int + (d - 10)
        }
    } by {
        assert((*final(out))@.drop_last() =~= (*out)@);
    }
}

/// Decimal numbers are written digit by digit: a digit is its character, and a number with one
/// more digit at its end is that number, multiplied by ten, and the digit.
pub proof fn law_decimal_digits(n: nat, d: nat)
    requires
        d < 10,
    ensures
        decimal(d).len() == 1,
        decimal(d)[0] as int == '0' as int + d,
        n > 0 ==> decimal(10 * n + d).drop_last() == decimal(n),
        n > 0 ==> decimal(10 * n + d).last() as int == '0' as int + d,
{
    if n > 0 {
        let m = (10 * n + d) as nat;
        assert(m / 10 == n);
        assert(m % 10 == d);
        assert(decimal(m).drop_last() =~= decimal(n));
    }
}

/// What the writers append: the decimal digits of the number, with a minus sign before them
/// where it is negative; two or four hexadecimal digits, the most significant first.
pub proof fn law_numbers_written(n: u64, i: i32, b: u8, w: u16)
    ensures
        forall|out: &mut String| #[trigger]
            call_ensures(push_decimal, (out, n), ()) ==> (*final(out))@ == (*out)@ + decimal(
                n as nat,
            ),
        forall|out: &mut String| #[trigger]
            call_ensures(push_signed, (out, i), ()) ==> (*final(out))@ == (*out)@ + if i >= 0 {
                decimal(i as nat)
            } else {
                seq!['-'] + decimal((0 - i) as nat)
            },
        forall|out: &mut String| #[trigger]
            call_ensures(push_hex2, (out, b), ()) ==> {
                let s = (*final(out))@.skip((*out)@.len() as int);
                &&& (*final(out))@.take((*out)@.len() as int) == (*out)@
                &&& s.len() == 2
                &&& s[0] as int == (if b < 160 {
                    48 + b / 16
                } else {
                    87 + b / 16
                })
                &&& s[1] as int == (if b % 16 < 10 {
                    48 + b % 16
                } else {
                    87 + b % 16
                })
            },
        forall|out: &mut String| #[trigger]
            call_ensures(push_hex4, (out, w), ()) ==> {
                let s = (*final(out))@.skip((*out)@.len() as int);
                &&& (*final(out))@.take((*out)@.len() as int) == (*out)@
                &&& s.len() == 4
                &&& s.take(2) == hex2((w / 256) as u8)
                &&& s.skip(2) == hex2((w % 256) as u8)
            },
{
    assert forall|out: &mut String| #[trigger] call_ensures(push_hex2, (out, b), ()) implies {
        let s = (*final(out))@.skip((*out)@.len() as int);
        &&& (*final(out))@.take((*out)@.len() as int) == (*out)@
        &&& s.len() == 2
        &&& s[0] as int == (if b < 160 {
            48 + b / 16
        } else {
            87 + b / 16
        })
        &&& s[1] as int == (if b % 16 < 10 {
            48 + b % 16
        } else {
            87 + b % 16
        })
    } by {
        let s = (*final(out))@.skip((*out)@.len() as int);
        assert((*final(out))@.take((*out)@.len() as int) =~= (*out)@);
        assert(s =~= hex2(b));
    }
    assert forall|out: &mut String| #[trigger] call_ensures(push_hex4, (out, w), ()) implies {
        let s = (*final(out))@.skip((*out)@.len() as int);
        &&& (*final(out))@.take((*out)@.len() as int) == (*out)@
        &&& s.len() == 4
        &&& s.take(2) == hex2((w / 256) as u8)
        &&& s.skip(2) == hex2((w % 256) as u8)
    } by {
        let s = (*final(out))@.skip((*out)@.len() as int);
        assert((*final(out))@.take((*out)@.len() as int) =~= (*out)@);
        assert(s =~= hex4(w));
        assert(s.take(2) =~= hex2((w / 256) as u8));
        assert(s.skip(2) =~= hex2((w % 256) as u8));
    }
}

/// A byte is written in hexadecimal as two digits, the first of which counts sixteens.
pub proof fn law_hex_digits(b: u8)
    ensures
        hex2(b).len() == 2,
        hex2(b)[0] as int == if b < 160 {
            48 + b / 16
        } else {
            87 + b / 16
        },
        hex2(b)[1] as int == if b % 16 < 10 {
            48 + b % 16
        } else {
            87 + b % 16
        },
{
}

/// How decimal numbers are read, digit by digit: one digit is its value; one more digit behind a
/// number multiplies it by ten and adds the digit, unless that is too large; anything that is no
/// digit makes it no number. A plus sign may stand before the digits, and nothing stands for no
/// number.
pub proof fn law_decimal_read(s: Seq<char>, c: char, max: int)
    requires
        max >= 9,
    ensures
        parsed(Seq::empty(), 10, max) is None,
        '0' <= c <= '9' ==> parsed(seq![c], 10, max) == Some(c as int - 48),
        s.len() > 0 && s != seq!['+'] ==> parsed(s.push(c), 10, max) == match parsed(s, 10, max) {
            Some(v) if '0' <= c <= '9' && 10 * v + (c as int - 48) <= max => Some(
                10 * v + (c as int - 48),
            ),
            _ => None,
        },
        !('0' <= c <= '9') ==> parsed(s.push(c), 10, max) is None,
        s.len() > 0 && s[0] != '+' ==> parsed(seq!['+'] + s, 10, max) == parsed(s, 10, max),
{
    lemma_read_step(s, c, 10, max);
}

/// How hexadecimal numbers are read: as decimal ones, with sixteen for ten, and with the letters
/// up to `f`, of either case, for the digits from ten on.
pub proof fn law_hex_read(s: Seq<char>, c: char, max: int)
    requires
        max >= 15,
    ensures
        ({
            let d = if '0' <= c <= '9' {
                c as int - 48
            } else if 'a' <= c <= 'f' {
                c as int - 87
            } else {
                c as int - 55
            };
            let digit = '0' <= c <= '9' || 'a' <= c <= 'f' || 'A' <= c <= 'F';
            &&& parsed(Seq::empty(), 16, max) is None
            &&& digit ==> parsed(seq![c], 16, max) == Some(d)
            &&& s.len() > 0 && s != seq!['+'] ==> parsed(s.push(c), 16, max) == match parsed(
                s,
                16,
                max,
            ) {
                Some(v) if digit && 16 * v + d <= max => Some(16 * v + d),
                _ => None,
            }
            &&& !digit ==> parsed(s.push(c), 16, max) is None
            &&& s.len() > 0 && s[0] != '+' ==> parsed(seq!['+'] + s, 16, max) == parsed(s, 16, max)
        }),
{
    lemma_read_step(s, c, 16, max);
}

/// One more digit, in either base.
proof fn lemma_read_step(s: Seq<char>, c: char, radix: int, max: int)
    requires
        radix == 10 || radix == 16,
        max >= radix - 1,
    ensures
        ({
            let d = digit_of(c);
            &&& parsed(Seq::empty(), radix, max) is None
            &&& d < radix ==> parsed(seq![c], radix, max) == Some(d)
            &&& s.len() > 0 && s != seq!['+'] ==> parsed(s.push(c), radix, max) == match parsed(
                s,
                radix,
                max,
            ) {
                Some(v) if d < radix && radix * v + d <= max => Some(radix * v + d),
                _ => None,
            }
            &&& d >= radix ==> parsed(s.push(c), radix, max) is None
            &&& s.len() > 0 && s[0] != '+' ==> parsed(seq!['+'] + s, radix, max) == parsed(
                s,
                radix,
                max,
            )
        }),
{
    let empty = Seq::<char>::empty();
    let plus = seq!['+'];
    assert(plus.skip(1) =~= empty);
    assert(seq![c].drop_last() =~= empty);
    assert(digits_value(empty, radix) == Some(0int));
    assert(0 * radix == 0);
    let t = s.push(c);
    assert(t.drop_last() =~= s);
    if s.len() > 0 {
        assert(t[0] == s[0]);
        if s[0] == '+' {
            let d = s.skip(1);
            assert(t.skip(1) =~= d.push(c));
            assert(d.push(c).drop_last() =~= d);
            if d.len() == 0 {
                assert(s =~= plus);
            }
            lemma_value_nonnegative(d, radix);
        } else {
            lemma_value_nonnegative(s, radix);
        }
    } else {
        assert(s =~= empty);
        assert(t =~= seq![c]);
    }
    if s.len() > 0 && s[0] != '+' {
        assert((plus + s).skip(1) =~= s);
    }
}

/// What the readers read: 32-bit numbers and numbers of pointer size in decimal; bytes in
/// hexadecimal where `0x` stands before them, else in decimal, and 0 where there is none.
pub proof fn law_numbers_read(
    s: &str,
    word: Option<u32>,
    size: Option<usize>,
    byte: u8,
)
    requires
        call_ensures(parse_u32, (s,), word),
        call_ensures(parse_usize, (s,), size),
        call_ensures(parse_u8, (s,), byte),
    ensures
        word is Some <==> parsed(s@, 10, 4294967295) is Some,
        word is Some ==> word->0 == parsed(s@, 10, 4294967295)->0,
        size is Some <==> parsed(s@, 10, usize::MAX as int) is Some,
        size is Some ==> size->0 == parsed(s@, 10, usize::MAX as int)->0,
        ({
            let hex = s@.len() >= 2 && s@[0] == '0' && s@[1] == 'x';
            let b = if hex {
                parsed(s@.skip(2), 16, 255)
            } else {
                parsed(s@, 10, 255)
            };
            &&& b is Some ==> byte == b->0
            &&& b is None ==> byte == 0
        }),
{
    lemma_value_nonnegative(s@, 10);
    lemma_value_nonnegative(s@.skip(1), 10);
    lemma_value_nonnegative(s@.skip(2), 16);
    lemma_value_nonnegative(s@.skip(2).skip(1), 16);
}

/// What `parse_number` reads begins at the character that it is told.
pub proof fn law_number_read_from(s: &str, from: usize, radix: u64, max: u64, r: Option<u64>)
    requires
        from <= s@.len(),
        radix == 10 || radix == 16,
        call_ensures(parse_number, (s, from, radix, max), r),
    ensures
        r is Some <==> parsed(s@.skip(from as int), radix as int, max as int) is Some,
        r is Some ==> r->0 == parsed(s@.skip(from as int), radix as int, max as int)->0,
        r is Some ==> r->0 <= max,
{
}

} // verus!
