//! Bidirectional text/scalar coercion.
//!
//! `from_str_*` classifies its input, in order, as text or as the native
//! scalar shape: native values pass through, text is parsed under the
//! decimal grammar (an optional `+` sign followed by ASCII digits), and any
//! other shape silently yields the scalar's default. A text that fails to
//! parse is the catalog's one hard error, [`TextParseFailure`].
//!
//! `into_str` renders any recognized scalar canonically; blank renderings
//! and unrecognized shapes yield the empty text.

use vstd::arithmetic::div_mod::lemma_fundamental_div_mod;
use vstd::prelude::*;
use vstd::string::StrSliceExecFns;
use vstd::string::StringExecFns;
use crate::text::{blank_str, is_blank, push_char};
use crate::value::{vm, Value, ValueModel};

verus! {

/// The parser's diagnostic for a text that is not a decimal numeral in range:
/// the text was empty, held a character outside the grammar, or denoted a
/// value above the target's maximum.
#[derive(Clone, Copy, Debug, PartialEq, Eq, Structural)]
pub enum TextParseFailure {
    Empty,
    InvalidDigit,
    Overflow,
}

pub open spec fn is_digit_char(c: char) -> bool {
    0x30 <= (c as u32) && (c as u32) <= 0x39
}

pub open spec fn digit_val(c: char) -> nat {
    (((c as u32) - 0x30) as nat)
}

/// The numeric value of a digit string, most significant digit first.
pub open spec fn dec_val(s: Seq<char>) -> nat
    decreases s.len(),
{
    if s.len() == 0 {
        0
    } else {
        dec_val(s.drop_last()) * 10 + digit_val(s.last())
    }
}

/// The length of the longest all-digit prefix.
pub open spec fn digit_prefix_len(s: Seq<char>) -> nat
    decreases s.len(),
{
    if s.len() == 0 || !is_digit_char(s[0]) {
        0
    } else {
        1 + digit_prefix_len(s.drop_first())
    }
}

/// The numeral with an optional leading `+` sign removed.
pub open spec fn sign_body(s: Seq<char>) -> Seq<char> {
    if s.len() > 0 && s[0] == '+' {
        s.drop_first()
    } else {
        s
    }
}

/// What parsing a text as an unsigned decimal numeral bounded by `max`
/// returns: the scan accepts an optional `+` sign and then digits, and stops
/// at the first failure — an overflow inside the digit run is reported even
/// when a foreign character follows it.
pub open spec fn spec_parse_uint(s: Seq<char>, max: nat) -> Result<nat, TextParseFailure> {
    let b = sign_body(s);
    if s.len() == 0 {
        Err(TextParseFailure::Empty)
    } else if b.len() == 0 {
        Err(TextParseFailure::InvalidDigit)
    } else if dec_val(b.subrange(0, digit_prefix_len(b) as int)) > max {
        Err(TextParseFailure::Overflow)
    } else if digit_prefix_len(b) < b.len() {
        Err(TextParseFailure::InvalidDigit)
    } else {
        Ok(dec_val(b))
    }
}

proof fn lemma_digit_prefix_exact(s: Seq<char>, j: int)
    requires
        0 <= j <= s.len(),
        forall|k: int| 0 <= k < j ==> is_digit_char(#[trigger] s[k]),
        j == s.len() || !is_digit_char(s[j]),
    ensures
        digit_prefix_len(s) == j,
    decreases j,
{
    if j > 0 {
        lemma_digit_prefix_exact(s.drop_first(), j - 1);
    }
}

proof fn lemma_digit_prefix_lb(s: Seq<char>, j: int)
    requires
        0 <= j <= s.len(),
        forall|k: int| 0 <= k < j ==> is_digit_char(#[trigger] s[k]),
    ensures
        digit_prefix_len(s) >= j,
    decreases j,
{
    if j > 0 {
        lemma_digit_prefix_lb(s.drop_first(), j - 1);
    }
}

proof fn lemma_digit_prefix_le_len(s: Seq<char>)
    ensures
        digit_prefix_len(s) <= s.len(),
    decreases s.len(),
{
    if s.len() > 0 && is_digit_char(s[0]) {
        lemma_digit_prefix_le_len(s.drop_first());
    }
}

proof fn lemma_dec_val_prefix_le(s: Seq<char>, k: int, j: int)
    requires
        0 <= k <= j <= s.len(),
    ensures
        dec_val(s.subrange(0, k)) <= dec_val(s.subrange(0, j)),
    decreases j - k,
{
    if k < j {
        lemma_dec_val_prefix_le(s, k, j - 1);
        assert(s.subrange(0, j).drop_last() =~= s.subrange(0, j - 1));
    }
}

/// Parses an unsigned decimal numeral no greater than `max`, exactly as the
/// grammar of [`spec_parse_uint`] says.
#[verifier::loop_isolation(false)]
pub(crate) fn parse_uint_str(s: &str, max: u64) -> (r: Result<u64, TextParseFailure>)
    ensures
        (match (r, spec_parse_uint(s@, max as nat)) {
            (Ok(n), Ok(m)) => n as nat == m,
            (Err(e1), Err(e2)) => e1 == e2,
            _ => false,
        }),
{
    let n = s.unicode_len();
    if n == 0 {
        return Err(TextParseFailure::Empty);
    }
    let start: usize = if s.get_char(0) == '+' {
        1
    } else {
        0
    };
    let ghost b = sign_body(s@);
    proof {
        assert(b =~= s@.subrange(start as int, n as int));
    }
    if n == start {
        return Err(TextParseFailure::InvalidDigit);
    }
    let mut acc: u64 = 0;
    let mut i: usize = start;
    while i < n
        invariant
            start <= i <= n,
            forall|k: int| 0 <= k < i - start ==> is_digit_char(#[trigger] b[k]),
            acc as nat == dec_val(b.subrange(0, i - start)),
            acc <= max,
        decreases n - i,
    {
        let c = s.get_char(i);
        let ghost p = i - start;
        proof {
            assert(b[p] == s@[i as int]);
        }
        let u = c as u32;
        if u < 0x30 || u > 0x39 {
            proof {
                lemma_digit_prefix_exact(b, p);
            }
            return Err(TextParseFailure::InvalidDigit);
        }
        let d: u64 = ((u - 0x30) as u8) as u64;
        proof {
            assert(b.subrange(0, p + 1).drop_last() =~= b.subrange(0, p));
            assert(b.subrange(0, p + 1).last() == b[p]);
            assert(dec_val(b.subrange(0, p + 1)) == acc * 10 + d);
            lemma_fundamental_div_mod(max as int, 10);
        }
        if acc > max / 10 || (acc == max / 10 && d > max % 10) {
            proof {
                assert(acc * 10 + d > max);
                lemma_digit_prefix_le_len(b);
                lemma_digit_prefix_lb(b, p + 1);
                lemma_dec_val_prefix_le(b, p + 1, digit_prefix_len(b) as int);
            }
            return Err(TextParseFailure::Overflow);
        }
        proof {
            assert(acc * 10 + d <= max);
        }
        acc = acc * 10 + d;
        i += 1;
    }
    proof {
        lemma_digit_prefix_exact(b, b.len() as int);
        assert(b.subrange(0, b.len() as int) =~= b);
    }
    Ok(acc)
}

pub open spec fn digit_char(d: int) -> char {
    if d == 0 {
        '0'
    } else if d == 1 {
        '1'
    } else if d == 2 {
        '2'
    } else if d == 3 {
        '3'
    } else if d == 4 {
        '4'
    } else if d == 5 {
        '5'
    } else if d == 6 {
        '6'
    } else if d == 7 {
        '7'
    } else if d == 8 {
        '8'
    } else {
        '9'
    }
}

/// The canonical decimal rendering of an unsigned integer: no sign, no
/// leading zero except for zero itself.
pub open spec fn spec_u64_str(n: nat) -> Seq<char>
    decreases n,
{
    if n < 10 {
        seq![digit_char(n as int)]
    } else {
        spec_u64_str(n / 10) + seq![digit_char((n % 10) as int)]
    }
}

/// The canonical decimal rendering of a signed integer: a `-` sign before
/// the magnitude when negative.
pub open spec fn spec_i64_str(i: int) -> Seq<char> {
    if i >= 0 {
        spec_u64_str(i as nat)
    } else {
        seq!['-'] + spec_u64_str((-i) as nat)
    }
}

fn digit_str(d: u64) -> (s: &'static str)
    requires
        d < 10,
    ensures
        s@ == seq![digit_char(d as int)],
{
    proof {
        reveal_strlit("0");
        reveal_strlit("1");
        reveal_strlit("2");
        reveal_strlit("3");
        reveal_strlit("4");
        reveal_strlit("5");
        reveal_strlit("6");
        reveal_strlit("7");
        reveal_strlit("8");
        reveal_strlit("9");
    }
    if d == 0 {
        proof {
            assert("0"@ =~= seq![digit_char(0)]);
        }
        "0"
    } else if d == 1 {
        proof {
            assert("1"@ =~= seq![digit_char(1)]);
        }
        "1"
    } else if d == 2 {
        proof {
            assert("2"@ =~= seq![digit_char(2)]);
        }
        "2"
    } else if d == 3 {
        proof {
            assert("3"@ =~= seq![digit_char(3)]);
        }
        "3"
    } else if d == 4 {
        proof {
            assert("4"@ =~= seq![digit_char(4)]);
        }
        "4"
    } else if d == 5 {
        proof {
            assert("5"@ =~= seq![digit_char(5)]);
        }
        "5"
    } else if d == 6 {
        proof {
            assert("6"@ =~= seq![digit_char(6)]);
        }
        "6"
    } else if d == 7 {
        proof {
            assert("7"@ =~= seq![digit_char(7)]);
        }
        "7"
    } else if d == 8 {
        proof {
            assert("8"@ =~= seq![digit_char(8)]);
        }
        "8"
    } else {
        proof {
            assert("9"@ =~= seq![digit_char(9)]);
        }
        "9"
    }
}

pub fn u64_to_text(n: u64) -> (r: String)
    ensures
        r@ == spec_u64_str(n as nat),
    decreases n,
{
    if n < 10 {
        digit_str(n).to_owned()
    } else {
        let mut r = u64_to_text(n / 10);
        r.append(digit_str(n % 10));
        r
    }
}

pub fn i64_to_text(i: i64) -> (r: String)
    ensures
        r@ == spec_i64_str(i as int),
{
    if i >= 0 {
        u64_to_text(i as u64)
    } else {
        let mag: u64 = if i == i64::MIN {
            9223372036854775808u64
        } else {
            (-i) as u64
        };
        let mut r = "-".to_owned();
        proof {
            reveal_strlit("-");
            assert("-"@ =~= seq!['-']);
        }
        let digits = u64_to_text(mag);
        r.append(digits.as_str());
        r
    }
}

/// The canonical rendering of each scalar shape; unrecognized shapes render
/// as the empty text.
pub open spec fn spec_render(m: ValueModel) -> Seq<char> {
    match m {
        ValueModel::Text(t) => t,
        ValueModel::Int64(i) => spec_i64_str(i),
        ValueModel::UInt64(n) => spec_u64_str(n as nat),
        ValueModel::Float64(t) => t,
        ValueModel::Bool(b) => (if b {
            seq!['t', 'r', 'u', 'e']
        } else {
            seq!['f', 'a', 'l', 's', 'e']
        }),
        ValueModel::Char(c) => seq![c],
        _ => Seq::empty(),
    }
}

/// What `into_str` returns: the canonical rendering, or the empty text when
/// that rendering is blank or the shape is unrecognized.
pub open spec fn spec_into_str(m: ValueModel) -> Seq<char> {
    if is_blank(spec_render(m)) {
        Seq::empty()
    } else {
        spec_render(m)
    }
}

/// Renders a scalar value as text. Text passes through; integers, booleans
/// and characters render canonically; a floating-point value renders as the
/// decimal text it carries. A blank rendering, or a shape that is none of
/// the six scalars, yields the empty text — this direction has no error.
pub fn into_str(v: Value) -> (r: String)
    ensures
        r@ == spec_into_str(vm(v)),
{
    let ghost gm = vm(v);
    let rend: String = match v {
        Value::Text(s) => s,
        Value::Int64(i) => i64_to_text(i),
        Value::UInt64(n) => u64_to_text(n),
        Value::Float64(s) => s,
        Value::Bool(flag) => {
            if flag {
                proof {
                    reveal_strlit("true");
                    assert("true"@ =~= seq!['t', 'r', 'u', 'e']);
                }
                "true".to_owned()
            } else {
                proof {
                    reveal_strlit("false");
                    assert("false"@ =~= seq!['f', 'a', 'l', 's', 'e']);
                }
                "false".to_owned()
            }
        },
        Value::Char(c) => {
            let mut t = String::new();
            push_char(&mut t, c);
            proof {
                assert(t@ =~= seq![c]);
            }
            t
        },
        _ => String::new(),
    };
    assert(rend@ == spec_render(gm));
    if blank_str(rend.as_str()) {
        String::new()
    } else {
        rend
    }
}

/// Coerces a value to a `u32`. Text is parsed as a decimal numeral — the one
/// conversion that can fail; a native unsigned or signed integer in range
/// passes through; everything else (out-of-range integers included) silently
/// yields the default, zero.
pub fn from_str_u32(v: Value) -> (r: Result<u32, TextParseFailure>)
    ensures
        (match vm(v) {
            ValueModel::Text(t) => (match spec_parse_uint(t, u32::MAX as nat) {
                Ok(m) => r == Ok::<u32, TextParseFailure>(m as u32),
                Err(e) => r == Err::<u32, TextParseFailure>(e),
            }),
            ValueModel::UInt64(n) => r == Ok::<u32, TextParseFailure>(
                if n <= u32::MAX as int {
                    n as u32
                } else {
                    0u32
                },
            ),
            ValueModel::Int64(i) => r == Ok::<u32, TextParseFailure>(
                if 0 <= i <= u32::MAX as int {
                    i as u32
                } else {
                    0u32
                },
            ),
            _ => r == Ok::<u32, TextParseFailure>(0u32),
        }),
{
    match v {
        Value::Text(s) => match parse_uint_str(s.as_str(), u32::MAX as u64) {
            Ok(m) => Ok(m as u32),
            Err(e) => Err(e),
        },
        Value::UInt64(n) => if n <= u32::MAX as u64 {
            Ok(n as u32)
        } else {
            Ok(0)
        },
        Value::Int64(i) => if 0 <= i && i <= u32::MAX as i64 {
            Ok(i as u32)
        } else {
            Ok(0)
        },
        _ => Ok(0),
    }
}

/// Coerces a value to a `u64`; the same classification as [`from_str_u32`].
pub fn from_str_u64(v: Value) -> (r: Result<u64, TextParseFailure>)
    ensures
        (match vm(v) {
            ValueModel::Text(t) => (match spec_parse_uint(t, u64::MAX as nat) {
                Ok(m) => r == Ok::<u64, TextParseFailure>(m as u64),
                Err(e) => r == Err::<u64, TextParseFailure>(e),
            }),
            ValueModel::UInt64(n) => r == Ok::<u64, TextParseFailure>(n as u64),
            ValueModel::Int64(i) => r == Ok::<u64, TextParseFailure>(
                if 0 <= i {
                    i as u64
                } else {
                    0u64
                },
            ),
            _ => r == Ok::<u64, TextParseFailure>(0u64),
        }),
{
    match v {
        Value::Text(s) => parse_uint_str(s.as_str(), u64::MAX),
        Value::UInt64(n) => Ok(n),
        Value::Int64(i) => if 0 <= i {
            Ok(i as u64)
        } else {
            Ok(0)
        },
        _ => Ok(0),
    }
}

} // verus!
