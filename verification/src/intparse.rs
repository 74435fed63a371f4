//! Bounded-width integer parsing from text.
//!
//! Given text and a target width/signedness, parses a decimal integer
//! literal and range-checks it against the target, returning `None` on
//! malformed text or overflow.  No grouping separators or other locale
//! formatting is recognized; signed targets accept one leading `-`.

use vstd::prelude::*;

verus! {

/// A supported integer width and signedness.
#[derive(Debug, Clone, Copy, PartialEq, Eq, Structural)]
pub enum IntKind {
    U8,
    U16,
    U32,
    U64,
    I8,
    I16,
    I32,
    I64,
}

/// A decoded integer, tagged with its width and signedness.
#[derive(Debug, Clone, Copy, PartialEq, Eq, Structural)]
pub enum IntVal {
    U8(u8),
    U16(u16),
    U32(u32),
    U64(u64),
    I8(i8),
    I16(i16),
    I32(i32),
    I64(i64),
}

pub open spec fn kind_signed(k: IntKind) -> bool {
    match k {
        IntKind::U8 | IntKind::U16 | IntKind::U32 | IntKind::U64 => false,
        IntKind::I8 | IntKind::I16 | IntKind::I32 | IntKind::I64 => true,
    }
}

/// Smallest value representable in kind `k`.
pub open spec fn kind_min(k: IntKind) -> int {
    match k {
        IntKind::U8 | IntKind::U16 | IntKind::U32 | IntKind::U64 => 0,
        IntKind::I8 => i8::MIN as int,
        IntKind::I16 => i16::MIN as int,
        IntKind::I32 => i32::MIN as int,
        IntKind::I64 => i64::MIN as int,
    }
}

/// Largest value representable in kind `k`.
pub open spec fn kind_max(k: IntKind) -> int {
    match k {
        IntKind::U8 => u8::MAX as int,
        IntKind::U16 => u16::MAX as int,
        IntKind::U32 => u32::MAX as int,
        IntKind::U64 => u64::MAX as int,
        IntKind::I8 => i8::MAX as int,
        IntKind::I16 => i16::MAX as int,
        IntKind::I32 => i32::MAX as int,
        IntKind::I64 => i64::MAX as int,
    }
}

/// The width and signedness a decoded integer carries.
pub open spec fn int_val_kind(v: IntVal) -> IntKind {
    match v {
        IntVal::U8(_) => IntKind::U8,
        IntVal::U16(_) => IntKind::U16,
        IntVal::U32(_) => IntKind::U32,
        IntVal::U64(_) => IntKind::U64,
        IntVal::I8(_) => IntKind::I8,
        IntVal::I16(_) => IntKind::I16,
        IntVal::I32(_) => IntKind::I32,
        IntVal::I64(_) => IntKind::I64,
    }
}

/// The numeric value a decoded integer carries.
pub open spec fn int_val_value(v: IntVal) -> int {
    match v {
        IntVal::U8(x) => x as int,
        IntVal::U16(x) => x as int,
        IntVal::U32(x) => x as int,
        IntVal::U64(x) => x as int,
        IntVal::I8(x) => x as int,
        IntVal::I16(x) => x as int,
        IntVal::I32(x) => x as int,
        IntVal::I64(x) => x as int,
    }
}

pub open spec fn is_digit(c: char) -> bool {
    '0' <= c && c <= '9'
}

pub open spec fn digit_val(c: char) -> int {
    c as int - '0' as int
}

/// Non-empty text made only of decimal digits.
pub open spec fn all_digits(s: Seq<char>) -> bool {
    s.len() > 0 && forall|i: int| 0 <= i < s.len() ==> is_digit(s[i])
}

/// The number denoted by a digit string, most significant digit first.
pub open spec fn digits_val(s: Seq<char>) -> int
    decreases s.len(),
{
    if s.len() == 0 {
        0
    } else {
        digits_val(s.drop_last()) * 10 + digit_val(s.last())
    }
}

/// The unsigned number denoted by `s`: all digits, no sign.
pub open spec fn spec_unsigned(s: Seq<char>) -> Option<int> {
    if all_digits(s) {
        Some(digits_val(s))
    } else {
        None
    }
}

/// The signed number denoted by `s`: digits with at most one leading `-`.
pub open spec fn spec_signed(s: Seq<char>) -> Option<int> {
    if s.len() >= 1 && s[0] == '-' {
        match spec_unsigned(s.drop_first()) {
            Some(v) => Some(-v),
            None => None,
        }
    } else {
        spec_unsigned(s)
    }
}

/// The value kind `k` parses from `s`: the denoted number when it is a
/// well-formed literal for the kind's signedness and lies in its range.
pub open spec fn spec_parse(k: IntKind, s: Seq<char>) -> Option<int> {
    let denoted = if kind_signed(k) {
        spec_signed(s)
    } else {
        spec_unsigned(s)
    };
    match denoted {
        Some(v) => if kind_min(k) <= v && v <= kind_max(k) {
            Some(v)
        } else {
            None
        },
        None => None,
    }
}

/// Every successfully parsed value lies within its kind's range.
pub proof fn lemma_parse_in_range(k: IntKind, s: Seq<char>)
    ensures
        spec_parse(k, s) matches Some(v) ==> kind_min(k) <= v && v <= kind_max(k),
{
}

proof fn lemma_digits_val_nonneg(s: Seq<char>)
    requires
        forall|j: int| 0 <= j < s.len() ==> is_digit(s[j]),
    ensures
        digits_val(s) >= 0,
    decreases s.len(),
{
    if s.len() > 0 {
        lemma_digits_val_nonneg(s.drop_last());
    }
}

/// Extending a digit string never decreases the number it denotes.
proof fn lemma_digits_prefix_le(s: Seq<char>, i: int)
    requires
        0 <= i <= s.len(),
        forall|j: int| 0 <= j < s.len() ==> is_digit(s[j]),
    ensures
        digits_val(s.subrange(0, i)) <= digits_val(s),
    decreases s.len() - i,
{
    if i < s.len() {
        lemma_digits_val_nonneg(s.subrange(0, i));
        assert(s.subrange(0, i + 1).drop_last() =~= s.subrange(0, i));
        assert(digits_val(s.subrange(0, i)) <= digits_val(s.subrange(0, i + 1)));
        lemma_digits_prefix_le(s, i + 1);
    } else {
        assert(s.subrange(0, i) =~= s);
    }
}

/// Parses a non-empty run of decimal digits as a `u64`.  Returns `None`
/// when the text is not all digits or the number does not fit.
fn parse_u64_digits(s: &str) -> (r: Option<u64>)
    ensures
        match r {
            Some(x) => all_digits(s@) && digits_val(s@) == x,
            None => !all_digits(s@) || digits_val(s@) > u64::MAX,
        },
{
    let n = s.unicode_len();
    if n == 0 {
        return None;
    }
    let mut acc: u64 = 0;
    let mut i: usize = 0;
    while i < n
        invariant
            i <= n == s@.len(),
            forall|j: int| 0 <= j < i ==> is_digit(s@[j]),
            acc == digits_val(s@.subrange(0, i as int)),
        decreases n - i,
    {
        let c = s.get_char(i);
        if !('0' <= c && c <= '9') {
            return None;
        }
        let d: u64 = (c as u32 - '0' as u32) as u64;
        if acc > (u64::MAX - d) / 10 {
            proof {
                assert(acc * 10 + d > u64::MAX) by (nonlinear_arith)
                    requires
                        acc > (u64::MAX - d) / 10,
                        d <= u64::MAX,
                ;
                assert(s@.subrange(0, i as int + 1).drop_last() =~= s@.subrange(0, i as int));
                if all_digits(s@) {
                    lemma_digits_prefix_le(s@, i as int + 1);
                }
            }
            return None;
        }
        proof {
            assert(acc * 10 + d <= u64::MAX) by (nonlinear_arith)
                requires
                    acc <= (u64::MAX - d) / 10,
                    d <= u64::MAX,
            ;
            assert(s@.subrange(0, i as int + 1).drop_last() =~= s@.subrange(0, i as int));
        }
        acc = acc * 10 + d;
        i = i + 1;
    }
    proof {
        assert(s@.subrange(0, n as int) =~= s@);
    }
    Some(acc)
}

/// Parses text as an integer of the requested width and signedness.
/// Returns the typed value exactly when the text denotes a number in the
/// kind's range.
pub fn from_str(s: &str, kind: IntKind) -> (r: Option<IntVal>)
    ensures
        match spec_parse(kind, s@) {
            Some(v) => (r matches Some(iv) && int_val_kind(iv) == kind && int_val_value(iv)
                == v),
            None => r is None,
        },
{
    let signed = match kind {
        IntKind::U8 | IntKind::U16 | IntKind::U32 | IntKind::U64 => false,
        IntKind::I8 | IntKind::I16 | IntKind::I32 | IntKind::I64 => true,
    };
    let n = s.unicode_len();
    let negative = signed && n > 0 && s.get_char(0) == '-';
    let magnitude: Option<u64> = if negative {
        let rest = s.substring_char(1, n);
        proof {
            assert(rest@ =~= s@.drop_first());
        }
        parse_u64_digits(rest)
    } else {
        parse_u64_digits(s)
    };
    let m = match magnitude {
        Some(m) => m,
        None => {
            proof {
                if negative && all_digits(s@.drop_first()) {
                    lemma_digits_val_nonneg(s@.drop_first());
                }
            }
            return None;
        },
    };
    if negative {
        match kind {
            IntKind::I8 => if m <= 128 {
                Some(IntVal::I8((-(m as i64)) as i8))
            } else {
                None
            },
            IntKind::I16 => if m <= 32768 {
                Some(IntVal::I16((-(m as i64)) as i16))
            } else {
                None
            },
            IntKind::I32 => if m <= 2147483648 {
                Some(IntVal::I32((-(m as i64)) as i32))
            } else {
                None
            },
            IntKind::I64 => if m <= 9223372036854775807 {
                Some(IntVal::I64(-(m as i64)))
            } else if m == 9223372036854775808 {
                Some(IntVal::I64(i64::MIN))
            } else {
                None
            },
            _ => None,
        }
    } else {
        match kind {
            IntKind::U8 => if m <= u8::MAX as u64 {
                Some(IntVal::U8(m as u8))
            } else {
                None
            },
            IntKind::U16 => if m <= u16::MAX as u64 {
                Some(IntVal::U16(m as u16))
            } else {
                None
            },
            IntKind::U32 => if m <= u32::MAX as u64 {
                Some(IntVal::U32(m as u32))
            } else {
                None
            },
            IntKind::U64 => Some(IntVal::U64(m)),
            IntKind::I8 => if m <= i8::MAX as u64 {
                Some(IntVal::I8(m as i8))
            } else {
                None
            },
            IntKind::I16 => if m <= i16::MAX as u64 {
                Some(IntVal::I16(m as i16))
            } else {
                None
            },
            IntKind::I32 => if m <= i32::MAX as u64 {
                Some(IntVal::I32(m as i32))
            } else {
                None
            },
            IntKind::I64 => if m <= i64::MAX as u64 {
                Some(IntVal::I64(m as i64))
            } else {
                None
            },
        }
    }
}

} // verus!
