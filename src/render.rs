use vstd::prelude::*;
use crate::parser::{BasicType, PrintMode};

verus! {

pub open spec fn pow256(k: nat) -> nat
    decreases k,
{
    if k == 0 {
        1
    } else {
        256 * pow256((k - 1) as nat)
    }
}

/// The unsigned value of little-endian bytes.
pub open spec fn le_value(b: Seq<u8>) -> nat
    decreases b.len(),
{
    if b.len() == 0 {
        0
    } else {
        b[0] as nat + 256 * le_value(b.skip(1))
    }
}

/// The value that little-endian bytes hold, read as unsigned or as two's complement.
pub open spec fn read_value(b: Seq<u8>, signed: bool) -> int {
    let u = le_value(b);
    let p = pow256(b.len());
    if signed && 2 * u >= p {
        u - p
    } else {
        u as int
    }
}

/// The digit for `d` (below 16), lower case.
pub open spec fn digit_byte(d: nat) -> u8 {
    if d < 10 {
        (48 + d) as u8
    } else {
        (87 + d) as u8
    }
}

/// The digits of `n` in `base`, most significant first, without leading zeros.
pub open spec fn digits_of(n: nat, base: nat) -> Seq<u8>
    decreases n,
    via digits_of_decreases
{
    if base < 2 || n < base {
        seq![digit_byte(n)]
    } else {
        digits_of(n / base, base).push(digit_byte(n % base))
    }
}

#[via_fn]
proof fn digits_of_decreases(n: nat, base: nat) {
    if !(base < 2 || n < base) {
        assert(n / base < n) by (nonlinear_arith)
            requires
                base >= 2,
                n >= base,
        ;
    }
}

pub open spec fn pow2_128() -> nat {
    pow256(16)
}

/// How a value is shown: decimal with a leading minus sign where negative, or
/// `0x` and hexadecimal digits, a negative value as its 128-bit two's complement.
pub open spec fn value_text(v: int, print: PrintMode) -> Seq<u8> {
    match print {
        PrintMode::Decimal => if v < 0 {
            seq![45u8] + digits_of((-v) as nat, 10)
        } else {
            digits_of(v as nat, 10)
        },
        PrintMode::Hex => seq![48u8, 120u8] + digits_of(
            (if v < 0 {
                v + pow2_128()
            } else {
                v
            }) as nat,
            16,
        ),
    }
}

/// The number that digits in `base` spell, most significant first.
pub open spec fn digits_number(d: Seq<u8>, base: nat) -> nat
    decreases d.len(),
{
    if d.len() == 0 {
        0
    } else {
        digits_number(d.drop_last(), base) * base + digit_of_byte(d.last())
    }
}

/// The value of a lower-case digit.
pub open spec fn digit_of_byte(c: u8) -> nat {
    if c <= 57 {
        (c - 48) as nat
    } else {
        (c - 87) as nat
    }
}

proof fn lemma_digits_read_back(n: nat, base: nat)
    requires
        base == 10 || base == 16,
    ensures
        digits_number(digits_of(n, base), base) == n,
    decreases n,
{
    if n >= base {
        lemma_digits_read_back(n / base, base);
        let d = digits_of(n, base);
        assert(d.drop_last() == digits_of(n / base, base));
        vstd::arithmetic::div_mod::lemma_fundamental_div_mod(n as int, base as int);
        lemma_digit_byte_read_back(n % base);
        assert(digits_number(d, base) == (n / base) * base + n % base);
        assert((n / base) * base == base * (n / base)) by (nonlinear_arith);
    } else {
        lemma_digit_byte_read_back(n);
        let d = digits_of(n, base);
        assert(d.drop_last() =~= Seq::<u8>::empty());
        assert(digits_number(d.drop_last(), base) == 0);
        assert(0 * base == 0);
        assert(digits_number(d, base) == digit_of_byte(digit_byte(n)));
    }
}

proof fn lemma_digit_byte_read_back(k: nat)
    requires
        k < 16,
    ensures
        digit_of_byte(digit_byte(k)) == k,
{
}

pub open spec fn width_ok(width: u8) -> bool {
    width == 8 || width == 16 || width == 32 || width == 64 || width == 128
}

proof fn lemma_le_value_bound(b: Seq<u8>)
    ensures
        le_value(b) < pow256(b.len()),
    decreases b.len(),
{
    if b.len() > 0 {
        lemma_le_value_bound(b.skip(1));
        let r = le_value(b.skip(1));
        let p = pow256(b.skip(1).len());
        assert(b[0] as nat + 256 * r < 256 * p) by (nonlinear_arith)
            requires
                r < p,
                b[0] < 256,
        ;
    }
}

proof fn lemma_pow256_values()
    ensures
        pow256(1) == 0x100,
        pow256(2) == 0x1_0000,
        pow256(4) == 0x1_0000_0000,
        pow256(8) == 0x1_0000_0000_0000_0000,
        pow256(16) == 0x1_0000_0000_0000_0000_0000_0000_0000_0000,
{
    reveal_with_fuel(pow256, 17);
}

/// What is shown for a value held in `bytes` reads back as that value: its
/// decimal digits spell the value's magnitude, after a minus sign exactly when
/// it is negative; its hexadecimal digits after `0x` spell the value, or for a
/// negative value its 128-bit two's complement. The value is the bytes' unsigned
/// number, or for a signed type that number less 2^width when its top bit is set.
pub proof fn lemma_shown_value_reads_back(bytes: Seq<u8>, signed: bool)
    requires
        bytes.len() == 1 || bytes.len() == 2 || bytes.len() == 4 || bytes.len() == 8
            || bytes.len() == 16,
    ensures
        ({
            let v = read_value(bytes, signed);
            let dec = value_text(v, PrintMode::Decimal);
            let hex = value_text(v, PrintMode::Hex);
            &&& !signed ==> v == le_value(bytes)
            &&& signed ==> -pow256(bytes.len()) / 2 <= v < pow256(bytes.len()) / 2
            &&& v >= 0 ==> digits_number(dec, 10) == v
            &&& v < 0 ==> dec[0] == 45u8 && digits_number(dec.skip(1), 10) == -v
            &&& hex.subrange(0, 2) == seq![48u8, 120u8]
            &&& v >= 0 ==> digits_number(hex.skip(2), 16) == v
            &&& v < 0 ==> digits_number(hex.skip(2), 16) == v + pow2_128()
        }),
{
    let v = read_value(bytes, signed);
    let p = pow256(bytes.len());
    lemma_le_value_bound(bytes);
    lemma_pow256_values();
    lemma_pow256_mono(bytes.len(), 16);
    assert(p % 2 == 0);
    if v >= 0 {
        lemma_digits_read_back(v as nat, 10);
        lemma_digits_read_back(v as nat, 16);
        assert(value_text(v, PrintMode::Hex).skip(2) =~= digits_of(v as nat, 16));
    } else {
        lemma_digits_read_back((-v) as nat, 10);
        lemma_digits_read_back((v + pow2_128()) as nat, 16);
        assert(value_text(v, PrintMode::Decimal).skip(1) =~= digits_of((-v) as nat, 10));
        assert(value_text(v, PrintMode::Hex).skip(2) =~= digits_of((v + pow2_128()) as nat, 16));
    }
    assert(value_text(v, PrintMode::Hex).subrange(0, 2) =~= seq![48u8, 120u8]);
}

/// The digits of `n` in base 10 or 16.
fn digits(n: u128, base: u128) -> (r: Vec<u8>)
    requires
        base == 10 || base == 16,
    ensures
        r@ == digits_of(n as nat, base as nat),
{
    let mut out: Vec<u8> = Vec::new();
    let mut cur: u128 = n;
    loop
        invariant
            base == 10 || base == 16,
            digits_of(n as nat, base as nat) == digits_of(cur as nat, base as nat) + out@,
        decreases cur,
    {
        let d = cur % base;
        let c: u8 = if d < 10 {
            (48 + d) as u8
        } else {
            (87 + d) as u8
        };
        proof {
            assert(c == digit_byte(d as nat));
        }
        let ghost before = out@;
        out.insert(0, c);
        if cur < base {
            proof {
                assert(digits_of(cur as nat, base as nat) == seq![c]);
                assert(out@ =~= seq![c] + before);
            }
            return out;
        }
        proof {
            assert(digits_of(cur as nat, base as nat) == digits_of((cur / base) as nat, base as nat).push(c));
            assert(digits_of((cur / base) as nat, base as nat).push(c) + before =~= digits_of((cur / base) as nat, base as nat) + out@);
        }
        cur = cur / base;
    }
}

/// The unsigned value of the little-endian bytes (at most 16 of them).
fn le_u128(bytes: &Vec<u8>) -> (r: u128)
    requires
        bytes@.len() <= 16,
    ensures
        r as nat == le_value(bytes@),
{
    let mut acc: u128 = 0;
    let mut i: usize = bytes.len();
    proof {
        assert(bytes@.skip(i as int) =~= Seq::<u8>::empty());
    }
    while i > 0
        invariant
            i <= bytes@.len() <= 16,
            acc as nat == le_value(bytes@.skip(i as int)),
        decreases i,
    {
        proof {
            lemma_le_value_bound(bytes@.skip(i as int));
            lemma_pow256_values();
            lemma_pow256_mono((bytes@.len() - i) as nat, 15);
            assert(bytes@.skip(i - 1).skip(1) =~= bytes@.skip(i as int));
            assert(bytes@.skip(i - 1)[0] == bytes@[i - 1]);
        }
        let b = bytes[i - 1];
        assert(acc * 256 + b < 0x1_0000_0000_0000_0000_0000_0000_0000_0000) by (nonlinear_arith)
            requires
                acc < pow256(15),
                pow256(15) * 256 == 0x1_0000_0000_0000_0000_0000_0000_0000_0000,
                b < 256,
        ;
        acc = acc * 256 + b as u128;
        i = i - 1;
    }
    proof {
        assert(bytes@.skip(0) =~= bytes@);
    }
    acc
}

proof fn lemma_pow256_mono(a: nat, b: nat)
    requires
        a <= b,
    ensures
        pow256(a) <= pow256(b),
        pow256(16) == 256 * pow256(15),
    decreases b,
{
    reveal_with_fuel(pow256, 2);
    if a < b {
        lemma_pow256_mono(a, (b - 1) as nat);
    }
}

/// The text shown for a value of type `basic` held in `bytes`, least
/// significant byte first.
pub fn value_text_of(bytes: &Vec<u8>, basic: BasicType, print: PrintMode) -> (r: Vec<u8>)
    requires
        width_ok(basic.width),
        bytes@.len() * 8 == basic.width,
    ensures
        r@ == value_text(read_value(bytes@, basic.signed), print),
{
    let u = le_u128(bytes);
    let top: u128 = if basic.width == 8 {
        0xff
    } else if basic.width == 16 {
        0xffff
    } else if basic.width == 32 {
        0xffff_ffff
    } else if basic.width == 64 {
        0xffff_ffff_ffff_ffff
    } else {
        0xffff_ffff_ffff_ffff_ffff_ffff_ffff_ffff
    };
    proof {
        lemma_pow256_values();
        lemma_le_value_bound(bytes@);
        assert(top as nat + 1 == pow256(bytes@.len()));
    }
    let negative = basic.signed && u > top / 2;
    proof {
        let p = pow256(bytes@.len());
        assert(negative == (basic.signed && 2 * le_value(bytes@) >= p)) by (nonlinear_arith)
            requires
                top + 1 == p,
                p % 2 == 0,
                u == le_value(bytes@),
                negative == (basic.signed && u > top / 2),
        ;
    }
    match print {
        PrintMode::Decimal => {
            if negative {
                let magnitude = top - u + 1;
                let mut out: Vec<u8> = Vec::new();
                out.push(45u8);
                let mut d = digits(magnitude, 10);
                out.append(&mut d);
                proof {
                    assert(out@ =~= value_text(read_value(bytes@, basic.signed), print));
                }
                out
            } else {
                digits(u, 10)
            }
        },
        PrintMode::Hex => {
            let shown = if negative {
                u + (0xffff_ffff_ffff_ffff_ffff_ffff_ffff_ffff - top)
            } else {
                u
            };
            let mut out: Vec<u8> = Vec::new();
            out.push(48u8);
            out.push(120u8);
            let mut d = digits(shown, 16);
            out.append(&mut d);
            proof {
                assert(out@ =~= value_text(read_value(bytes@, basic.signed), print));
            }
            out
        },
    }
}

/// `0x` and the hexadecimal digits of an address.
pub fn hex_text(n: usize) -> (r: Vec<u8>)
    ensures
        r@ == value_text(n as int, PrintMode::Hex),
{
    let mut out: Vec<u8> = Vec::new();
    out.push(48u8);
    out.push(120u8);
    let mut d = digits(n as u128, 16);
    out.append(&mut d);
    proof {
        assert(out@ =~= value_text(n as int, PrintMode::Hex));
    }
    out
}

} // verus!
