//! Percent-decoding of URL-encoded text.

use crate::language::value::is_digit;
use crate::text::{chars_to_string, str_chars};
use vstd::prelude::*;

verus! {

/// Whether a character is a hexadecimal digit.
pub open spec fn is_hex_digit(c: char) -> bool {
    is_digit(c) || (97 <= c as u32 <= 102) || (65 <= c as u32 <= 70)
}

/// The value of one hexadecimal digit.
pub open spec fn hex_digit_value(c: char) -> int {
    if is_digit(c) {
        c as u32 - 48
    } else if 97 <= c as u32 <= 102 {
        c as u32 - 87
    } else {
        c as u32 - 55
    }
}

/// The number written by a hexadecimal digit sequence.
pub open spec fn hex_value(s: Seq<char>) -> int
    decreases s.len(),
{
    if s.len() == 0 {
        0
    } else {
        hex_value(s.drop_last()) * 16 + hex_digit_value(s[s.len() - 1])
    }
}

/// The first position at or after `pos` that does not hold a hexadecimal
/// digit.
pub open spec fn hex_end(s: Seq<char>, pos: int) -> int
    decreases s.len() - pos,
{
    if pos < 0 || pos >= s.len() || !is_hex_digit(s[pos]) {
        pos
    } else {
        hex_end(s, pos + 1)
    }
}

/// The percent-decoding of the text from `pos` on. A percent sign starts
/// a run of hexadecimal digits: when the run is nonempty and its value
/// fits one byte, that byte's character replaces the whole run; otherwise
/// the percent sign and the run decode to nothing. Every other character
/// stands for itself.
pub open spec fn urldecode_from(s: Seq<char>, pos: int) -> Seq<char>
    decreases s.len() - pos,
{
    if pos < 0 || pos >= s.len() {
        Seq::empty()
    } else if s[pos] == '%' {
        let e = {
            let raw = hex_end(s, pos + 1);
            if pos + 1 <= raw <= s.len() {
                raw
            } else {
                pos + 1
            }
        };
        let run = s.subrange(pos + 1, e);
        let decoded: Seq<char> = if run.len() > 0 && hex_value(run) <= 255 {
            seq![((hex_value(run)) as u8) as char]
        } else {
            Seq::empty()
        };
        decoded + urldecode_from(s, e)
    } else {
        seq![s[pos]] + urldecode_from(s, pos + 1)
    }
}

/// A hexadecimal run's value is no smaller than zero.
proof fn lemma_hex_value_nonneg(s: Seq<char>)
    requires
        forall|i: int| 0 <= i < s.len() ==> is_hex_digit(#[trigger] s[i]),
    ensures
        hex_value(s) >= 0,
    decreases s.len(),
{
    if s.len() > 0 {
        lemma_hex_value_nonneg(s.drop_last());
        assert(hex_value(s.drop_last()) * 16 >= 0) by (nonlinear_arith)
            requires
                hex_value(s.drop_last()) >= 0,
        ;
    }
}

/// A hexadecimal scan neither moves backward nor runs past the end.
proof fn lemma_hex_end_bounds(s: Seq<char>, pos: int)
    requires
        0 <= pos <= s.len(),
    ensures
        pos <= hex_end(s, pos) <= s.len(),
    decreases s.len() - pos,
{
    if pos < s.len() && is_hex_digit(s[pos]) {
        lemma_hex_end_bounds(s, pos + 1);
    }
}

/// Whether a character is a hexadecimal digit.
fn hex_digit_exec(c: char) -> (r: bool)
    ensures
        r == is_hex_digit(c),
{
    let u = c as u32;
    (48 <= u && u <= 57) || (97 <= u && u <= 102) || (65 <= u && u <= 70)
}

/// Scans a run of hexadecimal digits, reporting where it ends and its
/// value, saturated one above the byte range.
fn scan_hex(chars: &Vec<char>, pos: usize) -> (r: (usize, u32))
    requires
        pos <= chars@.len(),
    ensures
        r.0 as int == hex_end(chars@, pos as int),
        pos <= r.0 <= chars@.len(),
        forall|j: int| pos <= j < r.0 ==> is_hex_digit(#[trigger] chars@[j]),
        hex_value(chars@.subrange(pos as int, r.0 as int)) >= 0,
        hex_value(chars@.subrange(pos as int, r.0 as int)) <= 255 ==> r.1 as int == hex_value(
            chars@.subrange(pos as int, r.0 as int),
        ),
        hex_value(chars@.subrange(pos as int, r.0 as int)) > 255 ==> r.1 == 256,
{
    let n = chars.len();
    let mut i: usize = pos;
    let mut acc: u32 = 0;
    proof {
        assert(chars@.subrange(pos as int, pos as int) =~= Seq::<char>::empty());
    }
    while i < n && hex_digit_exec(chars[i])
        invariant
            n == chars@.len(),
            pos <= i <= n,
            hex_end(chars@, pos as int) == hex_end(chars@, i as int),
            forall|j: int| pos <= j < i ==> is_hex_digit(#[trigger] chars@[j]),
            hex_value(chars@.subrange(pos as int, i as int)) >= 0,
            hex_value(chars@.subrange(pos as int, i as int)) <= 255 ==> acc as int == hex_value(
                chars@.subrange(pos as int, i as int),
            ),
            hex_value(chars@.subrange(pos as int, i as int)) > 255 ==> acc == 256,
            acc <= 256,
        decreases n - i,
    {
        let c = chars[i];
        let u = c as u32;
        let d: u32 = if 48 <= u && u <= 57 {
            u - 48
        } else if 97 <= u && u <= 102 {
            u - 87
        } else {
            u - 55
        };
        let ghost before = chars@.subrange(pos as int, i as int);
        let ghost after = chars@.subrange(pos as int, i as int + 1);
        proof {
            assert(after.drop_last() =~= before);
            assert(after[after.len() - 1] == chars@[i as int]);
            if hex_value(before) > 255 {
                assert(hex_value(before) * 16 >= hex_value(before)) by (nonlinear_arith)
                    requires
                        hex_value(before) >= 0,
                ;
            }
        }
        let v = acc * 16 + d;
        if v > 255 {
            acc = 256;
        } else {
            acc = v;
        }
        i = i + 1;
    }
    proof {
        if i < n {
            assert(!is_hex_digit(chars@[i as int]));
        }
    }
    (i, acc)
}

/// Decodes a percent-encoded string: `%` followed by a run of hexadecimal
/// digits becomes the byte the run names, when it names one.
pub fn urldecode(s: &str) -> (r: String)
    ensures
        r@ == urldecode_from(s@, 0),
{
    let chars = str_chars(s);
    let n = chars.len();
    let mut out: Vec<char> = Vec::new();
    let mut i: usize = 0;
    while i < n
        invariant
            chars@ == s@,
            n == chars@.len(),
            i <= n,
            urldecode_from(s@, 0) == out@ + urldecode_from(s@, i as int),
        decreases n - i,
    {
        let c = chars[i];
        if c == '%' {
            let (e, v) = scan_hex(&chars, i + 1);
            proof {
                lemma_hex_end_bounds(s@, i as int + 1);
            }
            let ghost run = s@.subrange(i as int + 1, e as int);
            if e > i + 1 && v <= 255 {
                out.push((v as u8) as char);
                proof {
                    assert(out@.drop_last() + (seq![((hex_value(run)) as u8) as char]
                        + urldecode_from(s@, e as int)) =~= out@ + urldecode_from(
                        s@,
                        e as int,
                    ));
                }
            } else {
                proof {
                    assert(out@ + (Seq::<char>::empty() + urldecode_from(s@, e as int))
                        =~= out@ + urldecode_from(s@, e as int));
                }
            }
            i = e;
        } else {
            out.push(c);
            proof {
                assert(out@.drop_last() + (seq![s@[i as int]] + urldecode_from(
                    s@,
                    i as int + 1,
                )) =~= out@ + urldecode_from(s@, i as int + 1));
            }
            i = i + 1;
        }
    }
    proof {
        assert(out@ + Seq::<char>::empty() =~= out@);
    }
    chars_to_string(&out)
}

} // verus!
