//! The closed registry of built-in primitive types: fixed-width integers in
//! both byte orders, IEEE-754 values of 4 or 8 bytes, and single ASCII bytes.
//! Each type has a byte size, a class, and a decoder that renders the bytes
//! as text: decimal for integers, the exact decimal expansion for IEEE-754
//! values (`NaN`, `inf` and `-inf` for the non-finite patterns), and the
//! character itself for `ascii` (a byte at or above 0x80 becomes the code
//! point with that value).

use vstd::prelude::*;
use crate::decimal::{spec_dec, spec_mag_text, mag_chars, u64_dec_chars};
use crate::text::{chars_to_string, str_eq};

verus! {

/// The class of a built-in type.
#[derive(Debug, Clone, Copy, PartialEq, Eq, Structural)]
pub enum BuiltinTypeClass {
    Integer,
    Float,
    Text,
}

/// Whether `name` names a built-in type.
pub open spec fn spec_is_builtin(name: Seq<char>) -> bool {
    spec_size_class(name) is Some
}

/// The byte size and class of a built-in type.
pub open spec fn spec_size_class(name: Seq<char>) -> Option<(nat, BuiltinTypeClass)> {
    if name == "int8"@ || name == "uint8"@ {
        Some((1, BuiltinTypeClass::Integer))
    } else if name == "int16_be"@ || name == "int16_le"@ || name == "uint16_be"@ || name
        == "uint16_le"@ {
        Some((2, BuiltinTypeClass::Integer))
    } else if name == "int32_be"@ || name == "int32_le"@ || name == "uint32_be"@ || name
        == "uint32_le"@ {
        Some((4, BuiltinTypeClass::Integer))
    } else if name == "int64_be"@ || name == "int64_le"@ || name == "uint64_be"@ || name
        == "uint64_le"@ {
        Some((8, BuiltinTypeClass::Integer))
    } else if name == "f32_be"@ || name == "f32_le"@ {
        Some((4, BuiltinTypeClass::Float))
    } else if name == "f64_be"@ || name == "f64_le"@ {
        Some((8, BuiltinTypeClass::Float))
    } else if name == "ascii"@ {
        Some((1, BuiltinTypeClass::Text))
    } else {
        None
    }
}

pub open spec fn spec_builtin_size(name: Seq<char>) -> nat {
    spec_size_class(name)->Some_0.0
}

pub open spec fn spec_builtin_class(name: Seq<char>) -> BuiltinTypeClass {
    spec_size_class(name)->Some_0.1
}

/// The value of bytes read as a big-endian unsigned integer.
pub open spec fn be_val(s: Seq<u8>) -> nat
    decreases s.len(),
{
    if s.len() == 0 {
        0
    } else {
        (be_val(s.drop_last()) * 256 + s.last()) as nat
    }
}

/// The value of bytes read as a little-endian unsigned integer.
pub open spec fn le_val(s: Seq<u8>) -> nat {
    be_val(s.reverse())
}

/// 256 to the power `k`: the number of values of a `k`-byte integer.
pub open spec fn pow256(k: nat) -> nat
    decreases k,
{
    if k == 0 {
        1
    } else {
        256 * pow256((k - 1) as nat)
    }
}

/// The decimal text of a `w`-byte two's-complement value whose unsigned
/// reading is `u`.
pub open spec fn spec_int_text(u: nat, w: nat) -> Seq<char> {
    if 2 * u < pow256(w) {
        spec_dec(u)
    } else {
        seq!['-'] + spec_dec((pow256(w) - u) as nat)
    }
}

/// The text of the IEEE-754 value with 32-bit pattern `bits`: the exact
/// decimal expansion of finite values, `NaN`/`inf`/`-inf` otherwise.
pub open spec fn spec_f32_text(bits: u32) -> Seq<char> {
    let b = bits as nat;
    let sign = b >= 0x80000000;
    let ef = (b / 0x800000) % 256;
    let mf = b % 0x800000;
    if ef == 255 {
        if mf != 0 {
            seq!['N', 'a', 'N']
        } else if sign {
            seq!['-', 'i', 'n', 'f']
        } else {
            seq!['i', 'n', 'f']
        }
    } else {
        let m: nat = if ef == 0 {
            mf
        } else {
            mf + 0x800000
        };
        let e: int = if ef == 0 {
            -149
        } else {
            ef - 150
        };
        if m == 0 {
            if sign {
                seq!['-', '0']
            } else {
                seq!['0']
            }
        } else {
            if sign {
                seq!['-'] + spec_mag_text(m, e)
            } else {
                spec_mag_text(m, e)
            }
        }
    }
}

/// The text of the IEEE-754 value with 64-bit pattern `bits`.
pub open spec fn spec_f64_text(bits: u64) -> Seq<char> {
    let b = bits as nat;
    let sign = b >= 0x8000000000000000;
    let ef = (b / 0x10000000000000) % 2048;
    let mf = b % 0x10000000000000;
    if ef == 2047 {
        if mf != 0 {
            seq!['N', 'a', 'N']
        } else if sign {
            seq!['-', 'i', 'n', 'f']
        } else {
            seq!['i', 'n', 'f']
        }
    } else {
        let m: nat = if ef == 0 {
            mf
        } else {
            mf + 0x10000000000000
        };
        let e: int = if ef == 0 {
            -1074
        } else {
            ef - 1075
        };
        if m == 0 {
            if sign {
                seq!['-', '0']
            } else {
                seq!['0']
            }
        } else {
            if sign {
                seq!['-'] + spec_mag_text(m, e)
            } else {
                spec_mag_text(m, e)
            }
        }
    }
}

/// The text a built-in type decodes from the start of `data`.
pub open spec fn spec_value_text(name: Seq<char>, data: Seq<u8>) -> Seq<char> {
    let w = spec_builtin_size(name);
    let bytes = data.take(w as int);
    if name == "uint8"@ || name == "uint16_le"@ || name == "uint32_le"@ || name == "uint64_le"@ {
        spec_dec(le_val(bytes))
    } else if name == "uint16_be"@ || name == "uint32_be"@ || name == "uint64_be"@ {
        spec_dec(be_val(bytes))
    } else if name == "int8"@ || name == "int16_le"@ || name == "int32_le"@ || name
        == "int64_le"@ {
        spec_int_text(le_val(bytes), w)
    } else if name == "int16_be"@ || name == "int32_be"@ || name == "int64_be"@ {
        spec_int_text(be_val(bytes), w)
    } else if name == "f32_be"@ {
        spec_f32_text(be_val(bytes) as u32)
    } else if name == "f32_le"@ {
        spec_f32_text(le_val(bytes) as u32)
    } else if name == "f64_be"@ {
        spec_f64_text(be_val(bytes) as u64)
    } else if name == "f64_le"@ {
        spec_f64_text(le_val(bytes) as u64)
    } else {
        // ascii
        seq![bytes[0] as char]
    }
}

/// Whether `name` is one of the built-in primitive types.
pub fn is_builtin_type(name: &str) -> (r: bool)
    ensures
        r == spec_is_builtin(name@),
{
    size_class_of(name).is_some()
}

/// The byte size and class of a built-in type, or None.
pub fn size_class_of(name: &str) -> (r: Option<(usize, BuiltinTypeClass)>)
    ensures
        match r {
            Some((w, c)) => spec_size_class(name@) == Some((w as nat, c)),
            None => spec_size_class(name@) is None,
        },
{
    if str_eq(name, "int8") || str_eq(name, "uint8") {
        Some((1, BuiltinTypeClass::Integer))
    } else if str_eq(name, "int16_be") || str_eq(name, "int16_le") || str_eq(name, "uint16_be")
        || str_eq(name, "uint16_le") {
        Some((2, BuiltinTypeClass::Integer))
    } else if str_eq(name, "int32_be") || str_eq(name, "int32_le") || str_eq(name, "uint32_be")
        || str_eq(name, "uint32_le") {
        Some((4, BuiltinTypeClass::Integer))
    } else if str_eq(name, "int64_be") || str_eq(name, "int64_le") || str_eq(name, "uint64_be")
        || str_eq(name, "uint64_le") {
        Some((8, BuiltinTypeClass::Integer))
    } else if str_eq(name, "f32_be") || str_eq(name, "f32_le") {
        Some((4, BuiltinTypeClass::Float))
    } else if str_eq(name, "f64_be") || str_eq(name, "f64_le") {
        Some((8, BuiltinTypeClass::Float))
    } else if str_eq(name, "ascii") {
        Some((1, BuiltinTypeClass::Text))
    } else {
        None
    }
}

/// Whether `name` is a built-in type of the given class.
pub fn is_type_class(name: &str, class: BuiltinTypeClass) -> (r: bool)
    ensures
        r == (spec_is_builtin(name@) && spec_builtin_class(name@) == class),
{
    match size_class_of(name) {
        Some((_, c)) => c == class,
        None => false,
    }
}

/// Reads `size` bytes at the start of `data` as a big-endian integer.
fn read_be(data: &[u8], size: usize) -> (r: u64)
    requires
        size <= 8,
        size <= data@.len(),
    ensures
        r as nat == be_val(data@.take(size as int)),
{
    let mut r: u64 = 0;
    let mut i: usize = 0;
    proof {
        assert(data@.take(0int) =~= Seq::<u8>::empty());
        lemma_be_val_bound(data@.take(0int));
    }
    while i < size
        invariant
            size <= 8,
            size <= data@.len(),
            i <= size,
            r as nat == be_val(data@.take(i as int)),
            (r as nat) < pow256(i as nat),
        decreases size - i,
    {
        proof {
            lemma_pow256_bound(i as nat);
            assert(data@.take(i as int + 1).drop_last() =~= data@.take(i as int));
            assert(data@.take(i as int + 1).last() == data@[i as int]);
        }
        r = r * 256 + (data[i] as u64);
        proof {
            lemma_pow256_step(i as nat);
        }
        i += 1;
    }
    r
}

/// Reads `size` bytes at the start of `data` as a little-endian integer.
fn read_le(data: &[u8], size: usize) -> (r: u64)
    requires
        size <= 8,
        size <= data@.len(),
    ensures
        r as nat == le_val(data@.take(size as int)),
{
    let mut r: u64 = 0;
    let mut i: usize = 0;
    proof {
        assert(data@.take(size as int).reverse().take(0int) =~= Seq::<u8>::empty());
        lemma_be_val_bound(data@.take(size as int).reverse().take(0int));
    }
    while i < size
        invariant
            size <= 8,
            size <= data@.len(),
            i <= size,
            r as nat == be_val(data@.take(size as int).reverse().take(i as int)),
            (r as nat) < pow256(i as nat),
        decreases size - i,
    {
        proof {
            lemma_pow256_bound(i as nat);
            let rev = data@.take(size as int).reverse();
            assert(rev.take(i as int + 1).drop_last() =~= rev.take(i as int));
            assert(rev.take(i as int + 1).last() == rev[i as int]);
            assert(rev[i as int] == data@[size - 1 - i]);
        }
        r = r * 256 + (data[size - 1 - i] as u64);
        proof {
            lemma_pow256_step(i as nat);
        }
        i += 1;
    }
    proof {
        assert(data@.take(size as int).reverse().take(size as int) =~= data@.take(
            size as int,
        ).reverse());
    }
    r
}

proof fn lemma_pow256_step(k: nat)
    ensures
        pow256(k + 1) == 256 * pow256(k),
{
}

proof fn lemma_pow256_bound(k: nat)
    requires
        k <= 7,
    ensures
        pow256(k) <= 0x100000000000000,
    decreases k,
{
    reveal_with_fuel(pow256, 9);
    assert(pow256(7) == 0x100000000000000);
    if k < 7 {
        lemma_pow256_mono(k, 7);
    }
}

proof fn lemma_pow256_mono(a: nat, b: nat)
    requires
        a <= b,
    ensures
        pow256(a) <= pow256(b),
    decreases b,
{
    if a < b {
        lemma_pow256_mono(a, (b - 1) as nat);
        assert(pow256(b) == 256 * pow256((b - 1) as nat));
        assert(256 * pow256((b - 1) as nat) >= pow256((b - 1) as nat)) by (nonlinear_arith);
    }
}

/// A `k`-byte big-endian value is below `pow256(k)`.
proof fn lemma_be_val_bound(s: Seq<u8>)
    ensures
        be_val(s) < pow256(s.len()),
    decreases s.len(),
{
    if s.len() == 0 {
    } else {
        lemma_be_val_bound(s.drop_last());
        lemma_pow256_step((s.len() - 1) as nat);
        assert(be_val(s.drop_last()) * 256 + 255 < 256 * pow256((s.len() - 1) as nat))
            by (nonlinear_arith)
            requires
                be_val(s.drop_last()) < pow256((s.len() - 1) as nat),
        ;
    }
}

/// Renders the `w`-byte two's-complement value whose unsigned reading is `u`.
fn int_chars(u: u64, w: usize) -> (r: Vec<char>)
    requires
        w == 1 || w == 2 || w == 4 || w == 8,
        (u as nat) < pow256(w as nat),
    ensures
        r@ == spec_int_text(u as nat, w as nat),
{
    proof {
        reveal_with_fuel(pow256, 9);
    }
    let half: u64 = if w == 1 {
        128
    } else if w == 2 {
        32768
    } else if w == 4 {
        2147483648
    } else {
        9223372036854775808
    };
    if u < half {
        proof {
            assert(2 * (u as nat) < pow256(w as nat));
        }
        u64_dec_chars(u)
    } else {
        let mag: u64 = if w == 8 {
            (u64::MAX - u) + 1
        } else {
            let full: u64 = if w == 1 {
                256
            } else if w == 2 {
                65536
            } else {
                4294967296
            };
            full - u
        };
        proof {
            assert(mag as nat == pow256(w as nat) - u as nat);
            assert(2 * (u as nat) >= pow256(w as nat));
        }
        let ds = u64_dec_chars(mag);
        let mut r: Vec<char> = Vec::new();
        r.push('-');
        let mut i: usize = 0;
        while i < ds.len()
            invariant
                i <= ds@.len(),
                r@ =~= seq!['-'] + ds@.take(i as int),
            decreases ds@.len() - i,
        {
            r.push(ds[i]);
            proof {
                assert(seq!['-'] + ds@.take(i as int + 1) =~= (seq!['-'] + ds@.take(
                    i as int,
                )).push(ds@[i as int]));
            }
            i += 1;
        }
        proof {
            assert(ds@.take(ds@.len() as int) =~= ds@);
        }
        r
    }
}

/// Renders the IEEE-754 value with 32-bit pattern `bits`.
fn f32_chars(bits: u64) -> (r: Vec<char>)
    requires
        bits <= u32::MAX,
    ensures
        r@ == spec_f32_text(bits as u32),
{
    let sign: bool = bits >= 0x80000000;
    let ef: u64 = (bits / 0x800000) % 256;
    let mf: u64 = bits % 0x800000;
    proof {
        assert(bits as u32 as nat == bits as nat);
    }
    if ef == 255 {
        nonfinite_chars(sign, mf)
    } else {
        let m: u64 = if ef == 0 {
            mf
        } else {
            mf + 0x800000
        };
        let e: i32 = if ef == 0 {
            -149
        } else {
            (ef as i32) - 150
        };
        finite_chars(sign, m, e)
    }
}

/// Renders the IEEE-754 value with 64-bit pattern `bits`.
fn f64_chars(bits: u64) -> (r: Vec<char>)
    ensures
        r@ == spec_f64_text(bits),
{
    let sign: bool = bits >= 0x8000000000000000;
    let ef: u64 = (bits / 0x10000000000000) % 2048;
    let mf: u64 = bits % 0x10000000000000;
    if ef == 2047 {
        nonfinite_chars(sign, mf)
    } else {
        let m: u64 = if ef == 0 {
            mf
        } else {
            mf + 0x10000000000000
        };
        let e: i32 = if ef == 0 {
            -1074
        } else {
            (ef as i32) - 1075
        };
        finite_chars(sign, m, e)
    }
}

/// The text of a NaN or infinity.
fn nonfinite_chars(sign: bool, mf: u64) -> (r: Vec<char>)
    ensures
        mf != 0 ==> r@ == seq!['N', 'a', 'N'],
        mf == 0 && sign ==> r@ == seq!['-', 'i', 'n', 'f'],
        mf == 0 && !sign ==> r@ == seq!['i', 'n', 'f'],
{
    let mut r: Vec<char> = Vec::new();
    if mf != 0 {
        r.push('N');
        r.push('a');
        r.push('N');
        proof {
            assert(r@ =~= seq!['N', 'a', 'N']);
        }
    } else if sign {
        r.push('-');
        r.push('i');
        r.push('n');
        r.push('f');
        proof {
            assert(r@ =~= seq!['-', 'i', 'n', 'f']);
        }
    } else {
        r.push('i');
        r.push('n');
        r.push('f');
        proof {
            assert(r@ =~= seq!['i', 'n', 'f']);
        }
    }
    r
}

/// The text of a finite value `(-1)^sign * m * 2^e`.
fn finite_chars(sign: bool, m: u64, e: i32) -> (r: Vec<char>)
    requires
        -1100 <= e <= 1100,
    ensures
        m == 0 && sign ==> r@ == seq!['-', '0'],
        m == 0 && !sign ==> r@ == seq!['0'],
        m != 0 && sign ==> r@ == seq!['-'] + spec_mag_text(m as nat, e as int),
        m != 0 && !sign ==> r@ == spec_mag_text(m as nat, e as int),
{
    let mut r: Vec<char> = Vec::new();
    if m == 0 {
        if sign {
            r.push('-');
        }
        r.push('0');
        proof {
            if sign {
                assert(r@ =~= seq!['-', '0']);
            } else {
                assert(r@ =~= seq!['0']);
            }
        }
        r
    } else {
        let mag = mag_chars(m, e);
        if sign {
            r.push('-');
        }
        let ghost pre = r@;
        let mut i: usize = 0;
        while i < mag.len()
            invariant
                i <= mag@.len(),
                r@ =~= pre + mag@.take(i as int),
            decreases mag@.len() - i,
        {
            r.push(mag[i]);
            proof {
                assert(pre + mag@.take(i as int + 1) =~= (pre + mag@.take(i as int)).push(
                    mag@[i as int],
                ));
            }
            i += 1;
        }
        proof {
            assert(mag@.take(mag@.len() as int) =~= mag@);
            if !sign {
                assert(pre =~= Seq::<char>::empty());
                assert(r@ =~= mag@);
            }
        }
        r
    }
}

/// Decodes the built-in type `name` from the start of `data`: its byte size
/// and the rendered text.  `None` exactly when `name` is not built-in.
pub fn get_value(data: &[u8], name: &str) -> (r: Option<(usize, String)>)
    requires
        spec_is_builtin(name@) ==> data@.len() >= spec_builtin_size(name@),
    ensures
        match r {
            Some((w, text)) => spec_is_builtin(name@) && w as nat == spec_builtin_size(name@)
                && text@ == spec_value_text(name@, data@),
            None => !spec_is_builtin(name@),
        },
{
    let sc = size_class_of(name);
    if sc.is_none() {
        return None;
    }
    let (w, _) = sc.unwrap();
    let chars: Vec<char> = if str_eq(name, "uint8") || str_eq(name, "uint16_le") || str_eq(
        name,
        "uint32_le",
    ) || str_eq(name, "uint64_le") {
        u64_dec_chars(read_le(data, w))
    } else if str_eq(name, "uint16_be") || str_eq(name, "uint32_be") || str_eq(name, "uint64_be") {
        u64_dec_chars(read_be(data, w))
    } else if str_eq(name, "int8") || str_eq(name, "int16_le") || str_eq(name, "int32_le")
        || str_eq(name, "int64_le") {
        let u = read_le(data, w);
        proof {
            lemma_be_val_bound(data@.take(w as int).reverse());
        }
        int_chars(u, w)
    } else if str_eq(name, "int16_be") || str_eq(name, "int32_be") || str_eq(name, "int64_be") {
        let u = read_be(data, w);
        proof {
            lemma_be_val_bound(data@.take(w as int));
        }
        int_chars(u, w)
    } else if str_eq(name, "f32_be") {
        let u = read_be(data, w);
        proof {
            lemma_be_val_bound(data@.take(w as int));
            reveal_with_fuel(pow256, 5);
        }
        f32_chars(u)
    } else if str_eq(name, "f32_le") {
        let u = read_le(data, w);
        proof {
            lemma_be_val_bound(data@.take(w as int).reverse());
            reveal_with_fuel(pow256, 5);
        }
        f32_chars(u)
    } else if str_eq(name, "f64_be") {
        f64_chars(read_be(data, w))
    } else if str_eq(name, "f64_le") {
        f64_chars(read_le(data, w))
    } else {
        // ascii
        let b = data[0];
        let mut v: Vec<char> = Vec::new();
        v.push(crate::text::byte_char(b));
        proof {
            assert(v@ =~= seq![data@.take(1int)[0] as char]);
        }
        v
    };
    Some((w, chars_to_string(&chars)))
}

} // verus!
