//! The runtime's side of the value representation: reading the input value and the text
//! printed for a value or a runtime error.
use vstd::prelude::*;
use crate::instr::decimal;
use crate::parser::{in_value_range, is_digit};

verus! {

/// The value of a decimal digit character.
pub open spec fn digit_value(c: char) -> int {
    (c as u32) as int - ('0' as u32) as int
}

/// The value of a sequence of decimal digits.
pub open spec fn digits_value(s: Seq<char>) -> int
    decreases s.len(),
{
    if s.len() == 0 {
        0
    } else {
        digits_value(s.drop_last()) * 10 + digit_value(s.last())
    }
}

/// Whether every character of a text is a decimal digit.
pub open spec fn all_digits(s: Seq<char>) -> bool {
    forall|i: int| 0 <= i < s.len() ==> is_digit(#[trigger] s[i])
}

/// The integer that a text writes as an optional `+` or `-` followed by one or more decimal
/// digits, if it is one.
pub open spec fn decimal_of(s: Seq<char>) -> Option<int> {
    let signed = s.len() > 0 && (s[0] == '-' || s[0] == '+');
    let ds = if signed {
        s.drop_first()
    } else {
        s
    };
    if ds.len() > 0 && all_digits(ds) {
        Some(
            if signed && s[0] == '-' {
                -digits_value(ds)
            } else {
                digits_value(ds)
            },
        )
    } else {
        None
    }
}

/// The `i64` that a text writes as an optional sign followed by decimal digits, if it is one
/// and the value fits.
fn parse_i64(s: &str) -> (r: Option<i64>)
    ensures
        r == (match decimal_of(s@) {
            Some(n) => if i64::MIN <= n <= i64::MAX {
                Some(n as i64)
            } else {
                None
            },
            None => None,
        }),
{
    let n = s.unicode_len();
    if n == 0 {
        return None;
    }
    let c0 = s.get_char(0);
    let signed = c0 == '-' || c0 == '+';
    let neg = c0 == '-';
    let start: usize = if signed {
        1
    } else {
        0
    };
    let ghost ds = if signed {
        s@.drop_first()
    } else {
        s@
    };
    assert(ds =~= s@.subrange(start as int, n as int));
    if start >= n {
        return None;
    }
    let mut acc: u128 = 0;
    let mut big = false;
    let mut i: usize = start;
    assert(ds.take(0) =~= Seq::<char>::empty());
    while i < n
        invariant
            start <= i <= n,
            n == s@.len(),
            ds == s@.subrange(start as int, n as int),
            ds == (if signed {
                s@.drop_first()
            } else {
                s@
            }),
            signed == (s@[0] == '-' || s@[0] == '+'),
            neg == (s@[0] == '-'),
            forall|q: int| start <= q < i ==> is_digit(#[trigger] s@[q]),
            !big ==> acc == digits_value(ds.take(i - start)) && acc <= 0x8000_0000_0000_0000,
            big ==> digits_value(ds.take(i - start)) > 0x8000_0000_0000_0000,
        decreases n - i,
    {
        let c = s.get_char(i);
        assert(ds[i - start] == c);
        if !('0' <= c && c <= '9') {
            assert(!is_digit(ds[i - start]));
            assert(!all_digits(ds));
            assert(decimal_of(s@) is None);
            return None;
        }
        let ghost k = (i - start) as int;
        assert(ds.take(k + 1).drop_last() =~= ds.take(k));
        assert(digits_value(ds.take(k + 1)) == digits_value(ds.take(k)) * 10 + digit_value(c));
        if !big {
            let d = (c as u32 - '0' as u32) as u128;
            let v = acc * 10 + d;
            if v > 0x8000_0000_0000_0000 {
                big = true;
            } else {
                acc = v;
            }
        } else {
            assert(digits_value(ds.take(k)) * 10 + digit_value(c) > 0x8000_0000_0000_0000) by (nonlinear_arith)
                requires
                    digits_value(ds.take(k)) > 0x8000_0000_0000_0000,
                    digit_value(c) >= 0,
            ;
        }
        i += 1;
    }
    assert(forall|q: int| 0 <= q < ds.len() ==> ds[q] == s@[q + start]);
    assert(ds.take(i - start) =~= ds);
    if big {
        return None;
    }
    if neg {
        if acc == 0x8000_0000_0000_0000 {
            Some(i64::MIN)
        } else {
            Some(-(acc as i64))
        }
    } else if acc <= 0x7fff_ffff_ffff_ffff {
        Some(acc as i64)
    } else {
        None
    }
}

/// The tagged word of an integer: twice its value, in two's complement.
pub open spec fn tagged(n: int) -> u64 {
    if n >= 0 {
        (2 * n) as u64
    } else {
        (0x1_0000_0000_0000_0000 + 2 * n) as u64
    }
}

/// The tagged word that an input text stands for: `true`, `false`, or a decimal integer in
/// `[-2^62, 2^62)`; `None` for anything else.
pub open spec fn input_value(s: Seq<char>) -> Option<u64> {
    if s == "true"@ {
        Some(3)
    } else if s == "false"@ {
        Some(1)
    } else {
        match decimal_of(s) {
            Some(n) => if in_value_range(n) {
                Some(tagged(n))
            } else {
                None
            },
            None => None,
        }
    }
}

fn str_is(s: &str, w: &str) -> (r: bool)
    ensures
        r == (s@ == w@),
{
    let a = String::from_str(s);
    let b = String::from_str(w);
    a == b
}

/// Reads the input value of a run: the tagged word of `true`, `false` or an integer in range.
pub fn parse_input(input: &str) -> (r: Option<u64>)
    ensures
        r == input_value(input@),
{
    if str_is(input, "true") {
        Some(3)
    } else if str_is(input, "false") {
        Some(1)
    } else {
        match parse_i64(input) {
            Some(n) => {
                if -0x4000_0000_0000_0000i64 <= n && n < 0x4000_0000_0000_0000i64 {
                    let w: i64 = n * 2;
                    let r = if w >= 0 {
                        w as u64
                    } else {
                        (0xffff_ffff_ffff_ffffu64 - ((-(w + 1)) as u64))
                    };
                    Some(r)
                } else {
                    None
                }
            },
            None => None,
        }
    }
}

/// What `snek_print` prints for a tagged word (without the line break).
pub open spec fn printed(v: int) -> Seq<char> {
    if v == 3 {
        "true"@
    } else if v == 1 {
        "false"@
    } else if v % 2 == 0 {
        decimal(v / 2)
    } else {
        "NaN, with value "@ + decimal(v)
    }
}

/// The text printed for a tagged word.
pub fn print_value(val: i64) -> (r: String)
    ensures
        r@ == printed(val as int),
{
    if val == 3 {
        String::from_str("true")
    } else if val == 1 {
        String::from_str("false")
    } else if val % 2 == 0 {
        crate::instr::decimal_str((val / 2) as i128)
    } else {
        let mut s = String::from_str("NaN, with value ");
        let d = crate::instr::decimal_str(val as i128);
        s.append(d.as_str());
        s
    }
}

/// What `snek_error` reports for an error code.
pub open spec fn error_report(code: int) -> Seq<char> {
    if code == 1 {
        "Runtime: invalid argument error"@
    } else if code == 2 {
        "Runtime: overflow error"@
    } else {
        "Runtime: unknown error with code "@ + decimal(code)
    }
}

/// The text reported for a runtime error code.
pub fn error_text(code: i64) -> (r: String)
    ensures
        r@ == error_report(code as int),
{
    if code == 1 {
        String::from_str("Runtime: invalid argument error")
    } else if code == 2 {
        String::from_str("Runtime: overflow error")
    } else {
        let mut s = String::from_str("Runtime: unknown error with code ");
        let d = crate::instr::decimal_str(code as i128);
        s.append(d.as_str());
        s
    }
}

} // verus!
