//! Scalars of the Pallas base field, held by their canonical bytes.

use ff::Field;
use ff::PrimeField;
use halo2_proofs::pasta::Fp;
use vstd::prelude::*;
use vstd::string::*;

verus! {

/// The prime `p` of the field: scalars are the integers modulo `p`.
pub open spec fn modulus() -> nat {
    0x40000000000000000000000000000000224698fc094cf91b992d30ed00000001nat
}

/// The number that a little-endian byte string stands for.
pub open spec fn le_value(bytes: Seq<u8>) -> nat
    decreases bytes.len(),
{
    if bytes.len() == 0 {
        0
    } else {
        bytes[0] as nat + 256 * le_value(bytes.skip(1))
    }
}

/// The sum of two scalars.
pub open spec fn add_mod(a: nat, b: nat) -> nat {
    (a + b) % modulus()
}

/// The additive inverse of a scalar.
pub open spec fn neg_mod(a: nat) -> nat {
    ((modulus() - a % modulus()) % (modulus() as int)) as nat
}

/// The product of two scalars.
pub open spec fn mul_mod(a: nat, b: nat) -> nat {
    (a * b) % modulus()
}

/// The hexadecimal digit for a number below sixteen.
pub open spec fn hex_char(d: nat) -> char {
    if d == 0 { '0' } else if d == 1 { '1' } else if d == 2 { '2' } else if d == 3 { '3' }
    else if d == 4 { '4' } else if d == 5 { '5' } else if d == 6 { '6' } else if d == 7 { '7' }
    else if d == 8 { '8' } else if d == 9 { '9' } else if d == 10 { 'a' } else if d == 11 { 'b' }
    else if d == 12 { 'c' } else if d == 13 { 'd' } else if d == 14 { 'e' } else { 'f' }
}

/// The hexadecimal digits of `n`, most significant first; none for zero.
pub open spec fn hex_digits(n: nat) -> Seq<char>
    decreases n,
{
    if n == 0 {
        Seq::empty()
    } else {
        hex_digits(n / 16).push(hex_char(n % 16))
    }
}

/// The text of a scalar: `0x`, then its digits without leading zeros
/// (a single `0` for zero).
pub open spec fn hex_text(n: nat) -> Seq<char> {
    seq!['0', 'x'] + (if n == 0 { seq!['0'] } else { hex_digits(n) })
}

/// A scalar of the field.
#[derive(Clone, Copy, Debug, PartialEq, Eq)]
pub struct Fe {
    repr: [u8; 32],
}

/// Builds the scalar of a small integer with `Fp::from`, and takes its
/// canonical bytes with `PrimeField::to_repr`: little-endian, below `p`.
#[verifier::external_body]
fn fp_from_u64(x: u64) -> (r: Fe)
    ensures
        r@ == x as nat,
        r.wf(),
{
    Fe { repr: Fp::from(x).to_repr() }
}

/// Adds two scalars with `Fp`'s `+`, between `PrimeField::from_repr` and
/// `PrimeField::to_repr`: the sum modulo `p`.
#[verifier::external_body]
fn fp_add(a: &Fe, b: &Fe) -> (r: Fe)
    requires
        a.wf(),
        b.wf(),
    ensures
        r@ == add_mod(a@, b@),
        r.wf(),
{
    let x = Fp::from_repr(a.repr).unwrap();
    let y = Fp::from_repr(b.repr).unwrap();
    Fe { repr: (x + y).to_repr() }
}

/// Negates a scalar with `Fp`'s unary `-`: the additive inverse modulo `p`.
#[verifier::external_body]
fn fp_neg(a: &Fe) -> (r: Fe)
    requires
        a.wf(),
    ensures
        r@ == neg_mod(a@),
        r.wf(),
{
    let x = Fp::from_repr(a.repr).unwrap();
    Fe { repr: (-x).to_repr() }
}

/// Multiplies two scalars with `Fp`'s `*`: the product modulo `p`.
#[verifier::external_body]
fn fp_mul(a: &Fe, b: &Fe) -> (r: Fe)
    requires
        a.wf(),
        b.wf(),
    ensures
        r@ == mul_mod(a@, b@),
        r.wf(),
{
    let x = Fp::from_repr(a.repr).unwrap();
    let y = Fp::from_repr(b.repr).unwrap();
    Fe { repr: (x * y).to_repr() }
}

/// Asks `Field::is_zero_vartime` whether a scalar is the zero of the field.
#[verifier::external_body]
fn fp_is_zero(a: &Fe) -> (r: bool)
    requires
        a.wf(),
    ensures
        r == (a@ == 0),
{
    Fp::from_repr(a.repr).unwrap().is_zero_vartime()
}

fn hex_digit_str(d: u8) -> (s: &'static str)
    requires
        d < 16,
    ensures
        s@ == seq![hex_char(d as nat)],
{
    proof {
        reveal_strlit("0"); reveal_strlit("1"); reveal_strlit("2"); reveal_strlit("3");
        reveal_strlit("4"); reveal_strlit("5"); reveal_strlit("6"); reveal_strlit("7");
        reveal_strlit("8"); reveal_strlit("9"); reveal_strlit("a"); reveal_strlit("b");
        reveal_strlit("c"); reveal_strlit("d"); reveal_strlit("e"); reveal_strlit("f");
    }
    let s = if d == 0 { "0" } else if d == 1 { "1" } else if d == 2 { "2" } else if d == 3 { "3" }
        else if d == 4 { "4" } else if d == 5 { "5" } else if d == 6 { "6" } else if d == 7 { "7" }
        else if d == 8 { "8" } else if d == 9 { "9" } else if d == 10 { "a" } else if d == 11 { "b" }
        else if d == 12 { "c" } else if d == 13 { "d" } else if d == 14 { "e" } else { "f" };
    assert(s@ =~= seq![hex_char(d as nat)]);
    s
}

impl View for Fe {
    type V = nat;

    /// The integer in `[0, p)` that the scalar is.
    closed spec fn view(&self) -> nat {
        le_value(self.repr@)
    }
}

impl Fe {
    /// The bytes are canonical: they stand for a number below `p`.
    pub open spec fn wf(&self) -> bool {
        self@ < modulus()
    }

    /// The scalar of a small integer.
    pub fn from_u64(x: u64) -> (r: Fe)
        ensures
            r@ == x as nat,
            r.wf(),
    {
        fp_from_u64(x)
    }

    /// `self + other` in the field.
    pub fn add(&self, other: &Fe) -> (r: Fe)
        requires
            self.wf(),
            other.wf(),
        ensures
            r@ == add_mod(self@, other@),
            r.wf(),
    {
        fp_add(self, other)
    }

    /// `-self` in the field.
    pub fn neg(&self) -> (r: Fe)
        requires
            self.wf(),
        ensures
            r@ == neg_mod(self@),
            r.wf(),
    {
        fp_neg(self)
    }

    /// `self * other` in the field.
    pub fn mul(&self, other: &Fe) -> (r: Fe)
        requires
            self.wf(),
            other.wf(),
        ensures
            r@ == mul_mod(self@, other@),
            r.wf(),
    {
        fp_mul(self, other)
    }

    /// The canonical bytes of the scalar: little-endian, 32 of them.
    pub fn to_bytes(&self) -> (bytes: [u8; 32])
        ensures
            le_value(bytes@) == self@,
    {
        self.repr
    }

    /// Whether the scalar is zero.
    pub fn is_zero(&self) -> (r: bool)
        requires
            self.wf(),
        ensures
            r == (self@ == 0),
    {
        fp_is_zero(self)
    }

    /// The scalar in hexadecimal, as `hex_text` spells it.
    pub fn to_hex(&self) -> (out: String)
        ensures
            out@ == hex_text(self@),
    {
        proof {
            reveal_strlit("0x");
            reveal_strlit("0");
        }
        let mut out = String::from_str("0x");
        assert(out@ =~= seq!['0', 'x']);
        let mut started = false;
        let mut i: usize = 32;
        assert(self.repr@.skip(32) =~= Seq::<u8>::empty());
        while i > 0
            invariant
                i <= 32,
                self.repr@.len() == 32,
                out@ == seq!['0', 'x'] + hex_digits(le_value(self.repr@.skip(i as int))),
                started == (le_value(self.repr@.skip(i as int)) != 0),
            decreases i,
        {
            i -= 1;
            let b = self.repr[i];
            let hi: u8 = b / 16;
            let lo: u8 = b % 16;
            let ghost high = le_value(self.repr@.skip(i + 1));
            let ghost n = le_value(self.repr@.skip(i as int));
            let ghost before = out@;
            proof {
                assert(self.repr@.skip(i as int).skip(1) =~= self.repr@.skip(i + 1));
                assert(n == b as nat + 256 * high);
                assert(n % 16 == lo as nat);
                assert(n / 16 == hi as nat + 16 * high);
                assert((n / 16) % 16 == hi as nat);
                assert((n / 16) / 16 == high);
            }
            if started || hi != 0 {
                out.append(hex_digit_str(hi));
                started = true;
            }
            if started || lo != 0 {
                out.append(hex_digit_str(lo));
                started = true;
            }
            proof {
                if n != 0 {
                    if n / 16 != 0 {
                        let m = n / 16;
                        assert(hex_digits(m) == hex_digits(m / 16).push(hex_char(m % 16)));
                        assert(hex_digits(n) == hex_digits(m).push(hex_char(n % 16)));
                        assert(hex_digits(n) == hex_digits(high).push(hex_char(hi as nat)).push(
                            hex_char(lo as nat),
                        ));
                        assert(out@ =~= before + seq![hex_char(hi as nat)] + seq![
                            hex_char(lo as nat),
                        ]);
                    } else {
                        assert(hex_digits(n / 16) =~= Seq::<char>::empty());
                        assert(hex_digits(n) =~= seq![hex_char(lo as nat)]);
                    }
                }
                assert(out@ =~= seq!['0', 'x'] + hex_digits(n));
            }
        }
        assert(self.repr@.skip(0) =~= self.repr@);
        if !started {
            out.append("0");
        }
        assert(out@ =~= hex_text(self@));
        out
    }
}

} // verus!
