//! Small helpers: the identity of the target project, and the
//! evaluation of integer literals in any radix into sized values.

use vstd::prelude::*;
use vstd::arithmetic::div_mod::lemma_fundamental_div_mod;
use crate::ast::{IntLiteral, IntTypeSuffix};
use crate::error::CompilationError;
use crate::id::{IdPath, TypeId};
use crate::types::BuildinTypeId;
use crate::value::Int;

verus! {

/// The common prefix of all symbols inside the target project.
pub fn target_id() -> (r: IdPath)
    ensures
        r.deep_view() =~= seq!["self"@],
{
    let mut r: IdPath = Vec::new();
    r.push("self".to_owned());
    r
}

// ---------------------------------------------------------------------
// Integer literals

/// The numeric value of one digit byte: `0`-`9`, then letters of
/// either case counting from ten.
pub open spec fn spec_digit_val(b: u8) -> Option<u32> {
    if 48 <= b <= 57 {
        Some((b - 48) as u32)
    } else if 97 <= b <= 122 {
        Some((b - 87) as u32)
    } else if 65 <= b <= 90 {
        Some((b - 55) as u32)
    } else {
        None
    }
}

/// The digit value used when accumulating; zero for non-digits.
pub open spec fn digit_of(b: u8) -> nat {
    match spec_digit_val(b) {
        Some(d) => d as nat,
        None => 0,
    }
}

/// A non-empty run of digits that are all valid in the radix.
pub open spec fn digits_ok(s: Seq<u8>, radix: u32) -> bool {
    &&& s.len() > 0
    &&& forall|i: int|
        0 <= i < s.len() ==> ((#[trigger] spec_digit_val(s[i])) matches Some(d) && d < radix)
}

/// The number the digits denote, most significant first.
pub open spec fn digits_val(s: Seq<u8>, radix: u32) -> nat
    decreases s.len(),
{
    if s.len() == 0 {
        0
    } else {
        digits_val(s.drop_last(), radix) * (radix as nat) + digit_of(s.last())
    }
}

/// Whether the literal carries a leading minus sign.
pub open spec fn int_lit_neg(s: Seq<u8>) -> bool {
    s.len() > 0 && s[0] == 45
}

/// The digits of the literal, any sign stripped.
pub open spec fn int_lit_body(s: Seq<u8>) -> Seq<u8> {
    if s.len() > 0 && (s[0] == 43 || s[0] == 45) {
        s.drop_first()
    } else {
        s
    }
}

/// The width suffix in force: 64-bit signed when none is written.
pub open spec fn effective_suffix(o: Option<IntTypeSuffix>) -> IntTypeSuffix {
    match o {
        Some(s) => s,
        None => IntTypeSuffix::Int,
    }
}

/// Whether the width is a signed one; a minus sign is only admitted
/// on signed widths.
pub open spec fn suffix_signed(suf: IntTypeSuffix) -> bool {
    match suf {
        IntTypeSuffix::Int => true,
        IntTypeSuffix::Int32 => true,
        IntTypeSuffix::Int16 => true,
        IntTypeSuffix::Int8 => true,
        IntTypeSuffix::Uint => false,
        IntTypeSuffix::Uint32 => false,
        IntTypeSuffix::Uint16 => false,
        IntTypeSuffix::Uint8 => false,
    }
}

/// The largest magnitude the width admits, by sign.
pub open spec fn suffix_limit(suf: IntTypeSuffix, neg: bool) -> nat {
    match suf {
        IntTypeSuffix::Int => if neg {
            0x8000_0000_0000_0000
        } else {
            0x7FFF_FFFF_FFFF_FFFF
        },
        IntTypeSuffix::Int32 => if neg {
            0x8000_0000
        } else {
            0x7FFF_FFFF
        },
        IntTypeSuffix::Int16 => if neg {
            0x8000
        } else {
            0x7FFF
        },
        IntTypeSuffix::Int8 => if neg {
            0x80
        } else {
            0x7F
        },
        IntTypeSuffix::Uint => if neg {
            0
        } else {
            0xFFFF_FFFF_FFFF_FFFF
        },
        IntTypeSuffix::Uint32 => if neg {
            0
        } else {
            0xFFFF_FFFF
        },
        IntTypeSuffix::Uint16 => if neg {
            0
        } else {
            0xFFFF
        },
        IntTypeSuffix::Uint8 => if neg {
            0
        } else {
            0xFF
        },
    }
}

/// The built-in type id for the width.
pub open spec fn suffix_type_id(suf: IntTypeSuffix, t: BuildinTypeId) -> TypeId {
    match suf {
        IntTypeSuffix::Int => t.int_id,
        IntTypeSuffix::Int32 => t.int32_id,
        IntTypeSuffix::Int16 => t.int16_id,
        IntTypeSuffix::Int8 => t.int8_id,
        IntTypeSuffix::Uint => t.uint_id,
        IntTypeSuffix::Uint32 => t.uint32_id,
        IntTypeSuffix::Uint16 => t.uint16_id,
        IntTypeSuffix::Uint8 => t.uint8_id,
    }
}

/// Whether the carried value has the width the suffix asks for.
pub open spec fn int_variant_matches(i: Int, suf: IntTypeSuffix) -> bool {
    match suf {
        IntTypeSuffix::Int => i is Int64,
        IntTypeSuffix::Int32 => i is Int32,
        IntTypeSuffix::Int16 => i is Int16,
        IntTypeSuffix::Int8 => i is Int8,
        IntTypeSuffix::Uint => i is Uint64,
        IntTypeSuffix::Uint32 => i is Uint32,
        IntTypeSuffix::Uint16 => i is Uint16,
        IntTypeSuffix::Uint8 => i is Uint8,
    }
}

/// An integer literal evaluates when its radix is sensible, its
/// digits are valid, and its value fits the width.
pub open spec fn int_lit_ok(s: Seq<u8>, radix: u32, suf: IntTypeSuffix) -> bool {
    &&& 2 <= radix <= 36
    &&& (int_lit_neg(s) ==> suffix_signed(suf))
    &&& digits_ok(int_lit_body(s), radix)
    &&& digits_val(int_lit_body(s), radix) <= suffix_limit(suf, int_lit_neg(s))
}

/// The signed value of the literal.
pub open spec fn int_lit_value(s: Seq<u8>, radix: u32) -> int {
    if int_lit_neg(s) {
        -(digits_val(int_lit_body(s), radix) as int)
    } else {
        digits_val(int_lit_body(s), radix) as int
    }
}

/// The numeric value of one digit byte.
fn digit_val(b: u8) -> (r: Option<u32>)
    ensures
        r == spec_digit_val(b),
{
    if 48 <= b && b <= 57 {
        Some((b - 48) as u32)
    } else if 97 <= b && b <= 122 {
        Some((b - 87) as u32)
    } else if 65 <= b && b <= 90 {
        Some((b - 55) as u32)
    } else {
        None
    }
}

/// `x <= y / z` exactly when `x * z <= y`, for positive `z`.
proof fn lemma_div_bound(x: int, y: int, z: int)
    requires
        0 <= x,
        0 <= y,
        0 < z,
    ensures
        x <= y / z <==> x * z <= y,
{
    lemma_fundamental_div_mod(y, z);
    if x <= y / z {
        assert(x * z <= (y / z) * z) by (nonlinear_arith)
            requires
                0 < z,
                x <= y / z,
        ;
        assert((y / z) * z <= y) by (nonlinear_arith)
            requires
                y == z * (y / z) + y % z,
                0 <= y % z,
        ;
    }
    if x * z <= y {
        assert(x <= y / z) by (nonlinear_arith)
            requires
                x * z <= y,
                0 < z,
                y == z * (y / z) + y % z,
                0 <= y % z < z,
        ;
    }
}

/// Reading more digits can only grow the value.
proof fn lemma_digits_val_mono(s: Seq<u8>, radix: u32, k: int)
    requires
        1 <= radix,
        0 <= k <= s.len(),
    ensures
        digits_val(s.take(k), radix) <= digits_val(s, radix),
    decreases s.len() - k,
{
    if k == s.len() {
        assert(s.take(k) =~= s);
    } else {
        assert(s.take(k + 1).drop_last() =~= s.take(k));
        let a = digits_val(s.take(k), radix);
        assert(a <= a * radix) by (nonlinear_arith)
            requires
                1 <= radix,
                0 <= a,
        ;
        lemma_digits_val_mono(s, radix, k + 1);
    }
}

/// The byte encoding of a string's characters.
pub open spec fn str_bytes(s: Seq<char>) -> Seq<u8> {
    vstd::utf8::encode_utf8(s)
}

/// Evaluate an integer literal: parse the digits in the literal's
/// radix into the width its suffix selects, yielding the value and
/// the built-in type id of that width.
pub fn eval_int(lit: &IntLiteral, types: &BuildinTypeId) -> (r: Result<(Int, TypeId), CompilationError>)
    ensures
        ({
            let s = str_bytes(lit.digits@);
            let suf = effective_suffix(lit.type_suffix);
            match r {
                Ok(p) => {
                    &&& int_lit_ok(s, lit.radix, suf)
                    &&& int_variant_matches(p.0, suf)
                    &&& p.0.as_int() == int_lit_value(s, lit.radix)
                    &&& p.1 == suffix_type_id(suf, *types)
                },
                Err(e) => {
                    &&& !int_lit_ok(s, lit.radix, suf)
                    &&& e matches CompilationError::IntConversion { literal } && literal@
                        == lit.digits@
                },
            }
        }),
{
    let bytes: &[u8] = lit.digits.as_str().as_bytes();
    let ghost s = str_bytes(lit.digits@);
    proof {
        assert(bytes@ == s);
    }
    let n = bytes.len();
    let radix = lit.radix;
    if radix < 2 || radix > 36 {
        return Err(CompilationError::IntConversion { literal: lit.digits.clone() });
    }
    let mut start: usize = 0;
    let mut neg = false;
    if n > 0 && (bytes[0] == 43 || bytes[0] == 45) {
        neg = bytes[0] == 45;
        start = 1;
    }
    proof {
        assert(neg == int_lit_neg(s));
        assert(bytes@.subrange(start as int, n as int) =~= int_lit_body(s));
    }
    let suf = match lit.type_suffix {
        Some(x) => x,
        None => IntTypeSuffix::Int,
    };
    let limit: u64 = match suf {
        IntTypeSuffix::Int => if neg {
            0x8000_0000_0000_0000
        } else {
            0x7FFF_FFFF_FFFF_FFFF
        },
        IntTypeSuffix::Int32 => if neg {
            0x8000_0000
        } else {
            0x7FFF_FFFF
        },
        IntTypeSuffix::Int16 => if neg {
            0x8000
        } else {
            0x7FFF
        },
        IntTypeSuffix::Int8 => if neg {
            0x80
        } else {
            0x7F
        },
        IntTypeSuffix::Uint => if neg {
            0
        } else {
            0xFFFF_FFFF_FFFF_FFFF
        },
        IntTypeSuffix::Uint32 => if neg {
            0
        } else {
            0xFFFF_FFFF
        },
        IntTypeSuffix::Uint16 => if neg {
            0
        } else {
            0xFFFF
        },
        IntTypeSuffix::Uint8 => if neg {
            0
        } else {
            0xFF
        },
    };
    proof {
        assert(limit as nat == suffix_limit(suf, neg));
    }
    let signed = match suf {
        IntTypeSuffix::Int => true,
        IntTypeSuffix::Int32 => true,
        IntTypeSuffix::Int16 => true,
        IntTypeSuffix::Int8 => true,
        IntTypeSuffix::Uint => false,
        IntTypeSuffix::Uint32 => false,
        IntTypeSuffix::Uint16 => false,
        IntTypeSuffix::Uint8 => false,
    };
    if neg && !signed {
        return Err(CompilationError::IntConversion { literal: lit.digits.clone() });
    }
    if start >= n {
        proof {
            assert(int_lit_body(s).len() == 0);
        }
        return Err(CompilationError::IntConversion { literal: lit.digits.clone() });
    }
    let mut acc: u64 = 0;
    let mut i: usize = start;
    proof {
        assert(s.subrange(start as int, start as int) =~= Seq::<u8>::empty());
    }
    while i < n
        invariant
            bytes@ == s,
            s == str_bytes(lit.digits@),
            n == s.len(),
            start <= i <= n,
            start < n,
            start <= 1,
            2 <= radix <= 36,
            (start == 1) == (s.len() > 0 && (s[0] == 43 || s[0] == 45)),
            neg == int_lit_neg(s),
            limit as nat == suffix_limit(suf, neg),
            suf == effective_suffix(lit.type_suffix),
            radix == lit.radix,
            forall|j: int|
                start <= j < i ==> ((#[trigger] spec_digit_val(s[j])) matches Some(d) && d < radix),
            acc as nat == digits_val(s.subrange(start as int, i as int), radix),
            acc <= limit,
        decreases n - i,
    {
        let b = bytes[i];
        proof {
            assert(int_lit_body(s) =~= s.subrange(start as int, n as int));
        }
        match digit_val(b) {
            None => {
                proof {
                    assert(int_lit_body(s)[i - start] == s[i as int]);
                    assert(!((spec_digit_val(int_lit_body(s)[i - start])) matches Some(d) && d
                        < radix));
                    assert(!digits_ok(int_lit_body(s), radix));
                }
                return Err(CompilationError::IntConversion { literal: lit.digits.clone() });
            },
            Some(d) => {
                if d >= radix {
                    proof {
                        assert(int_lit_body(s)[i - start] == s[i as int]);
                        assert(!((spec_digit_val(int_lit_body(s)[i - start])) matches Some(d2)
                            && d2 < radix));
                        assert(!digits_ok(int_lit_body(s), radix));
                    }
                    return Err(CompilationError::IntConversion { literal: lit.digits.clone() });
                }
                let dl = d as u64;
                proof {
                    assert(s.subrange(start as int, i + 1).drop_last() =~= s.subrange(
                        start as int,
                        i as int,
                    ));
                    assert(s.subrange(start as int, i + 1).last() == s[i as int]);
                    assert(digits_val(s.subrange(start as int, i + 1), radix) == acc as nat
                        * radix + dl as nat);
                }
                if dl > limit || acc > (limit - dl) / (radix as u64) {
                    proof {
                        if dl > limit {
                            assert(acc as nat * radix + dl as nat > limit as nat)
                                by (nonlinear_arith)
                                requires
                                    dl > limit,
                                    0 <= acc,
                                    0 < radix,
                            ;
                        } else {
                            lemma_div_bound(acc as int, (limit - dl) as int, radix as int);
                            assert(acc as int * (radix as int) > limit as int - dl as int);
                        }
                        assert(digits_val(s.subrange(start as int, i + 1), radix)
                            > suffix_limit(suf, neg));
                        lemma_digits_val_mono(int_lit_body(s), radix, i + 1 - start);
                        assert(int_lit_body(s).take(i + 1 - start) =~= s.subrange(
                            start as int,
                            i + 1,
                        ));
                        assert(digits_val(int_lit_body(s), radix) > suffix_limit(suf, neg));
                    }
                    return Err(CompilationError::IntConversion { literal: lit.digits.clone() });
                }
                proof {
                    lemma_div_bound(acc as int, (limit - dl) as int, radix as int);
                    assert(acc as int * (radix as int) <= limit as int - dl as int);
                }
                acc = acc * (radix as u64) + dl;
            },
        }
        i += 1;
    }
    proof {
        assert(s.subrange(start as int, n as int) =~= int_lit_body(s));
        assert forall|j: int| 0 <= j < int_lit_body(s).len() implies (#[trigger] spec_digit_val(
            int_lit_body(s)[j],
        )) matches Some(d) && d < radix by {
            assert(int_lit_body(s)[j] == s[start + j]);
        }
        assert(digits_ok(int_lit_body(s), radix));
        assert(acc as nat == digits_val(int_lit_body(s), radix));
        assert(int_lit_ok(s, lit.radix, suf));
    }
    let iv = match suf {
        IntTypeSuffix::Int => Int::Int64(
            if neg {
                (-(acc as i128)) as i64
            } else {
                acc as i64
            },
        ),
        IntTypeSuffix::Int32 => Int::Int32(
            if neg {
                (-(acc as i64)) as i32
            } else {
                acc as i32
            },
        ),
        IntTypeSuffix::Int16 => Int::Int16(
            if neg {
                (-(acc as i32)) as i16
            } else {
                acc as i16
            },
        ),
        IntTypeSuffix::Int8 => Int::Int8(
            if neg {
                (-(acc as i32)) as i8
            } else {
                acc as i8
            },
        ),
        IntTypeSuffix::Uint => Int::Uint64(acc),
        IntTypeSuffix::Uint32 => Int::Uint32(acc as u32),
        IntTypeSuffix::Uint16 => Int::Uint16(acc as u16),
        IntTypeSuffix::Uint8 => Int::Uint8(acc as u8),
    };
    let tid = match suf {
        IntTypeSuffix::Int => types.int_id,
        IntTypeSuffix::Int32 => types.int32_id,
        IntTypeSuffix::Int16 => types.int16_id,
        IntTypeSuffix::Int8 => types.int8_id,
        IntTypeSuffix::Uint => types.uint_id,
        IntTypeSuffix::Uint32 => types.uint32_id,
        IntTypeSuffix::Uint16 => types.uint16_id,
        IntTypeSuffix::Uint8 => types.uint8_id,
    };
    Ok((iv, tid))
}

} // verus!
