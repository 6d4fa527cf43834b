//! Decimal text for the configuration codec: rendering integers and
//! thousandth-fixed-point values, and parsing them back. A value in
//! thousandths renders with at most three fractional digits and no
//! trailing zeros, the way `1500` renders as `1.5`.

use vstd::prelude::*;
use vstd::string::StringExecFns;

use crate::text::find_char;
use crate::text::lemma_find_char_props;
use crate::text::spec_find_char;

verus! {

/// Whether `c` is a decimal digit.
pub open spec fn spec_is_digit(c: char) -> bool {
    48 <= c as int <= 57
}

/// The numeric value of a digit character.
pub open spec fn spec_digit_val(c: char) -> int {
    c as int - 48
}

/// The digit character for a value in 0..=9 (and '0' otherwise).
pub open spec fn spec_digit_char(d: int) -> char {
    if d == 1 {
        '1'
    } else if d == 2 {
        '2'
    } else if d == 3 {
        '3'
    } else if d == 4 {
        '4'
    } else if d == 5 {
        '5'
    } else if d == 6 {
        '6'
    } else if d == 7 {
        '7'
    } else if d == 8 {
        '8'
    } else if d == 9 {
        '9'
    } else {
        '0'
    }
}

/// The decimal rendering of a natural number, most significant digit
/// first, with no leading zeros (zero renders as "0").
pub open spec fn spec_dec_digits(n: nat) -> Seq<char>
    decreases n,
{
    if n < 10 {
        seq![spec_digit_char(n as int)]
    } else {
        spec_dec_digits(n / 10).push(spec_digit_char((n % 10) as int))
    }
}

/// The decimal rendering of a signed integer.
pub open spec fn spec_int_digits(v: int) -> Seq<char> {
    if v < 0 {
        seq!['-'] + spec_dec_digits((-v) as nat)
    } else {
        spec_dec_digits(v as nat)
    }
}

/// The rendering of a value in thousandths: the whole part, then a
/// fractional part of up to three digits with trailing zeros dropped,
/// omitted entirely when the value is whole.
pub open spec fn spec_milli_digits(v: nat) -> Seq<char> {
    let whole = v / 1000;
    let frac = v % 1000;
    if frac == 0 {
        spec_dec_digits(whole)
    } else if frac % 100 == 0 {
        spec_dec_digits(whole) + seq!['.', spec_digit_char((frac / 100) as int)]
    } else if frac % 10 == 0 {
        spec_dec_digits(whole) + seq![
            '.',
            spec_digit_char((frac / 100) as int),
            spec_digit_char(((frac / 10) % 10) as int),
        ]
    } else {
        spec_dec_digits(whole) + seq![
            '.',
            spec_digit_char((frac / 100) as int),
            spec_digit_char(((frac / 10) % 10) as int),
            spec_digit_char((frac % 10) as int),
        ]
    }
}

/// Appends the digit character of `d` to `s`.
pub fn push_digit(s: &mut String, d: u8)
    requires
        d < 10,
    ensures
        final(s)@ == old(s)@ + seq![spec_digit_char(d as int)],
{
    if d == 0 {
        proof {
            reveal_strlit("0");
        }
        s.append("0");
        proof {
            assert(old(s)@ + "0"@ =~= old(s)@ + seq![spec_digit_char(0)]);
        }
    } else if d == 1 {
        proof {
            reveal_strlit("1");
        }
        s.append("1");
        proof {
            assert(old(s)@ + "1"@ =~= old(s)@ + seq![spec_digit_char(1)]);
        }
    } else if d == 2 {
        proof {
            reveal_strlit("2");
        }
        s.append("2");
        proof {
            assert(old(s)@ + "2"@ =~= old(s)@ + seq![spec_digit_char(2)]);
        }
    } else if d == 3 {
        proof {
            reveal_strlit("3");
        }
        s.append("3");
        proof {
            assert(old(s)@ + "3"@ =~= old(s)@ + seq![spec_digit_char(3)]);
        }
    } else if d == 4 {
        proof {
            reveal_strlit("4");
        }
        s.append("4");
        proof {
            assert(old(s)@ + "4"@ =~= old(s)@ + seq![spec_digit_char(4)]);
        }
    } else if d == 5 {
        proof {
            reveal_strlit("5");
        }
        s.append("5");
        proof {
            assert(old(s)@ + "5"@ =~= old(s)@ + seq![spec_digit_char(5)]);
        }
    } else if d == 6 {
        proof {
            reveal_strlit("6");
        }
        s.append("6");
        proof {
            assert(old(s)@ + "6"@ =~= old(s)@ + seq![spec_digit_char(6)]);
        }
    } else if d == 7 {
        proof {
            reveal_strlit("7");
        }
        s.append("7");
        proof {
            assert(old(s)@ + "7"@ =~= old(s)@ + seq![spec_digit_char(7)]);
        }
    } else if d == 8 {
        proof {
            reveal_strlit("8");
        }
        s.append("8");
        proof {
            assert(old(s)@ + "8"@ =~= old(s)@ + seq![spec_digit_char(8)]);
        }
    } else {
        proof {
            reveal_strlit("9");
        }
        s.append("9");
        proof {
            assert(old(s)@ + "9"@ =~= old(s)@ + seq![spec_digit_char(9)]);
        }
    }
}

/// Appends the decimal rendering of `n` to `s`.
pub fn push_uint(s: &mut String, n: u64)
    ensures
        final(s)@ == old(s)@ + spec_dec_digits(n as nat),
    decreases n,
{
    if n < 10 {
        push_digit(s, n as u8);
    } else {
        push_uint(s, n / 10);
        push_digit(s, (n % 10) as u8);
        proof {
            assert(old(s)@ + spec_dec_digits(n as nat) =~= (old(s)@ + spec_dec_digits(
                (n / 10) as nat,
            )).push(spec_digit_char((n % 10) as int)));
        }
    }
}

/// Appends the decimal rendering of `v`, with a leading minus sign for
/// negative values, to `s`.
pub fn push_int(s: &mut String, v: i32)
    ensures
        final(s)@ == old(s)@ + spec_int_digits(v as int),
{
    if v >= 0 {
        push_uint(s, v as u64);
    } else {
        proof {
            reveal_strlit("-");
        }
        s.append("-");
        let m: i64 = -(v as i64);
        push_uint(s, m as u64);
        proof {
            assert(old(s)@ + spec_int_digits(v as int) =~= (old(s)@ + "-"@) + spec_dec_digits(
                (-(v as int)) as nat,
            ));
        }
    }
}

/// Appends the rendering of a value in thousandths to `s`.
pub fn push_milli(s: &mut String, v: u32)
    ensures
        final(s)@ == old(s)@ + spec_milli_digits(v as nat),
{
    let whole: u32 = v / 1000;
    let frac: u32 = v % 1000;
    push_uint(s, whole as u64);
    if frac != 0 {
        proof {
            reveal_strlit(".");
        }
        s.append(".");
        let d1: u8 = (frac / 100) as u8;
        let d2: u8 = ((frac / 10) % 10) as u8;
        let d3: u8 = (frac % 10) as u8;
        if frac % 100 == 0 {
            push_digit(s, d1);
            proof {
                assert(old(s)@ + spec_milli_digits(v as nat) =~= ((old(s)@ + spec_dec_digits(
                    (v as nat) / 1000,
                )) + "."@) + seq![spec_digit_char(d1 as int)]);
            }
        } else if frac % 10 == 0 {
            push_digit(s, d1);
            push_digit(s, d2);
            proof {
                assert(old(s)@ + spec_milli_digits(v as nat) =~= (((old(s)@ + spec_dec_digits(
                    (v as nat) / 1000,
                )) + "."@) + seq![spec_digit_char(d1 as int)]) + seq![spec_digit_char(d2 as int)]);
            }
        } else {
            push_digit(s, d1);
            push_digit(s, d2);
            push_digit(s, d3);
            proof {
                assert(old(s)@ + spec_milli_digits(v as nat) =~= ((((old(s)@ + spec_dec_digits(
                    (v as nat) / 1000,
                )) + "."@) + seq![spec_digit_char(d1 as int)]) + seq![spec_digit_char(d2 as int)])
                    + seq![spec_digit_char(d3 as int)]);
            }
        }
    }
}


/// Whether every character of `s` is a decimal digit.
pub open spec fn spec_all_digits(s: Seq<char>) -> bool {
    forall|k: int| 0 <= k < s.len() ==> spec_is_digit(#[trigger] s[k])
}

/// The numeric value of a digit string, read most significant digit
/// first (non-digit characters count as zero).
pub open spec fn spec_digits_val(s: Seq<char>) -> nat
    decreases s.len(),
{
    if s.len() == 0 {
        0
    } else {
        spec_digits_val(s.drop_last()) * 10 + (if spec_is_digit(s.last()) {
            spec_digit_val(s.last())
        } else {
            0
        }) as nat
    }
}

proof fn lemma_digits_val_prefix(s: Seq<char>, i: int)
    requires
        0 <= i <= s.len(),
    ensures
        spec_digits_val(s.subrange(0, i)) <= spec_digits_val(s),
    decreases s.len() - i,
{
    if i == s.len() {
        assert(s.subrange(0, i) =~= s);
    } else {
        let t = s.drop_last();
        assert(t.subrange(0, i) =~= s.subrange(0, i));
        lemma_digits_val_prefix(t, i);
    }
}

/// Scans a pure digit string into its value, reporting failure on a
/// non-digit, an empty string, or a value above `cap`.
fn scan_digits(s: &str, cap: u64) -> (r: Option<u64>)
    requires
        cap <= 0x1_0000_0000_0000,
    ensures
        match r {
            Some(v) => s@.len() >= 1 && spec_all_digits(s@) && v == spec_digits_val(s@) && v
                <= cap,
            None => !(s@.len() >= 1 && spec_all_digits(s@) && spec_digits_val(s@) <= cap),
        },
{
    let len = s.unicode_len();
    if len == 0 {
        return None;
    }
    let mut acc: u64 = 0;
    let mut i: usize = 0;
    proof {
        assert(s@.subrange(0, 0) =~= Seq::<char>::empty());
    }
    while i < len
        invariant
            len == s@.len(),
            i <= len,
            cap <= 0x1_0000_0000_0000,
            acc <= cap,
            acc == spec_digits_val(s@.subrange(0, i as int)),
            forall|k: int| 0 <= k < i ==> spec_is_digit(#[trigger] s@[k]),
        decreases len - i,
    {
        let c = s.get_char(i);
        let u = c as u32;
        if u < 48 || u > 57 {
            return None;
        }
        let d = (u - 48) as u64;
        acc = acc * 10 + d;
        proof {
            assert(s@.subrange(0, i + 1).drop_last() =~= s@.subrange(0, i as int));
            assert(s@.subrange(0, i + 1).last() == s@[i as int]);
        }
        if acc > cap {
            proof {
                lemma_digits_val_prefix(s@, i + 1);
            }
            return None;
        }
        i += 1;
    }
    proof {
        assert(s@.subrange(0, len as int) =~= s@);
    }
    Some(acc)
}

/// The signed integer a field denotes: an optional sign, then one or
/// more digits, with a value that fits in `i32`; anything else is no
/// integer.
pub open spec fn spec_parse_i32(s: Seq<char>) -> Option<i32> {
    let neg = s.len() >= 1 && s[0] == '-';
    let signed = s.len() >= 1 && (s[0] == '-' || s[0] == '+');
    let body = if signed {
        s.drop_first()
    } else {
        s
    };
    if body.len() >= 1 && spec_all_digits(body) {
        let v = spec_digits_val(body);
        if neg {
            if v <= 0x8000_0000 {
                Some((-(v as int)) as i32)
            } else {
                None
            }
        } else {
            if v <= 0x7FFF_FFFF {
                Some(v as i32)
            } else {
                None
            }
        }
    } else {
        None
    }
}

/// Parses a field as a signed integer, if it is one.
pub fn parse_int_str(s: &str) -> (r: Option<i32>)
    ensures
        r == spec_parse_i32(s@),
{
    let len = s.unicode_len();
    if len == 0 {
        return None;
    }
    let c0 = s.get_char(0);
    let neg = c0 == '-';
    let signed = c0 == '-' || c0 == '+';
    let body: &str = if signed {
        s.substring_char(1, len)
    } else {
        s
    };
    proof {
        if signed {
            assert(body@ =~= s@.drop_first());
        }
    }
    match scan_digits(body, 0x8000_0000u64) {
        None => None,
        Some(v) => {
            if neg {
                let m: i64 = -(v as i64);
                Some(m as i32)
            } else if v <= 0x7FFF_FFFF {
                Some(v as i32)
            } else {
                None
            }
        },
    }
}

/// The fractional part of a scale or refresh field, in thousandths:
/// the first three fractional digits, scaled; further digits are
/// ignored.
pub open spec fn spec_frac_milli(fs: Seq<char>) -> nat {
    ((if fs.len() >= 1 {
        spec_digit_val(fs[0]) * 100
    } else {
        0
    }) + (if fs.len() >= 2 {
        spec_digit_val(fs[1]) * 10
    } else {
        0
    }) + (if fs.len() >= 3 {
        spec_digit_val(fs[2])
    } else {
        0
    })) as nat
}

/// The value, in thousandths, a decimal field denotes: an optional
/// leading plus sign, digits with an optional fractional part, at
/// least one digit in all, positive and representable; anything else
/// is no value.
pub open spec fn spec_parse_milli(s: Seq<char>) -> Option<u32> {
    let body = if s.len() >= 1 && s[0] == '+' {
        s.drop_first()
    } else {
        s
    };
    let dot = spec_find_char(body, '.');
    let ip = if dot < 0 {
        body
    } else {
        body.subrange(0, dot)
    };
    let fp = if dot < 0 {
        Seq::<char>::empty()
    } else {
        body.subrange(dot + 1, body.len() as int)
    };
    if ip.len() + fp.len() >= 1 && spec_all_digits(ip) && spec_all_digits(fp) {
        let v = spec_digits_val(ip) * 1000 + spec_frac_milli(fp);
        if 1 <= v <= 0xFFFF_FFFF {
            Some(v as u32)
        } else {
            None
        }
    } else {
        None
    }
}

/// Scans a fractional-digits string: all characters must be digits;
/// the value of the first three, in thousandths, is returned.
fn scan_frac(s: &str) -> (r: Option<u64>)
    ensures
        match r {
            Some(v) => spec_all_digits(s@) && v == spec_frac_milli(s@) && v <= 999,
            None => !spec_all_digits(s@),
        },
{
    let len = s.unicode_len();
    let mut f: u64 = 0;
    let mut i: usize = 0;
    while i < len
        invariant
            len == s@.len(),
            i <= len,
            forall|k: int| 0 <= k < i ==> spec_is_digit(#[trigger] s@[k]),
            f <= 999,
            f == ((if i >= 1 {
                spec_digit_val(s@[0]) * 100
            } else {
                0
            }) + (if i >= 2 {
                spec_digit_val(s@[1]) * 10
            } else {
                0
            }) + (if i >= 3 {
                spec_digit_val(s@[2])
            } else {
                0
            })),
        decreases len - i,
    {
        let c = s.get_char(i);
        let u = c as u32;
        if u < 48 || u > 57 {
            return None;
        }
        let d = (u - 48) as u64;
        if i == 0 {
            f = f + d * 100;
        } else if i == 1 {
            f = f + d * 10;
        } else if i == 2 {
            f = f + d;
        }
        i += 1;
    }
    Some(f)
}

/// Parses a field as a decimal value in thousandths, if it is one.
pub fn parse_milli_str(s: &str) -> (r: Option<u32>)
    ensures
        r == spec_parse_milli(s@),
{
    let s_len = s.unicode_len();
    let body: &str = if s_len >= 1 && s.get_char(0) == '+' {
        s.substring_char(1, s_len)
    } else {
        s
    };
    proof {
        if s@.len() >= 1 && s@[0] == '+' {
            assert(body@ =~= s@.drop_first());
        }
    }
    let len = body.unicode_len();
    let dot = find_char(body, '.');
    proof {
        lemma_find_char_props(body@, '.');
    }
    let (ip, fp): (&str, &str) = match dot {
        Some(i) => (body.substring_char(0, i), body.substring_char(i + 1, len)),
        None => (body, body.substring_char(len, len)),
    };
    proof {
        if dot is None {
            assert(fp@ =~= Seq::<char>::empty());
        }
    }
    if ip.unicode_len() == 0 && fp.unicode_len() == 0 {
        return None;
    }
    let ip_val: u64 = if ip.unicode_len() == 0 {
        proof {
            assert(ip@ =~= Seq::<char>::empty());
        }
        0u64
    } else {
        match scan_digits(ip, 0xFFFF_FFFFu64) {
            None => {
                return None;
            },
            Some(v) => v,
        }
    };
    let frac: u64 = match scan_frac(fp) {
        None => {
            return None;
        },
        Some(v) => v,
    };
    let v: u64 = ip_val * 1000 + frac;
    if 1 <= v && v <= 0xFFFF_FFFFu64 {
        Some(v as u32)
    } else {
        None
    }
}

} // verus!
