//! Commit object ids.
//!
//! A commit is identified by an opaque, non-zero, fixed-width hash. The
//! library holds the hash as a 64-bit value; the distinguished value zero
//! stands outside the non-zero type and denotes absence (for example the old
//! side of a reference creation).

use vstd::prelude::*;
use vstd::arithmetic::div_mod::{lemma_breakdown, lemma_div_denominator, lemma_small_mod};
use vstd::arithmetic::power::{pow, lemma_pow_adds, lemma_pow_positive, lemma_pow0, lemma_pow1};

verus! {

/// A non-zero commit object id. Equality and total order are those of the
/// underlying value.
#[derive(Clone, Copy, Debug, PartialEq, Eq, Structural, Hash)]
pub struct NonZeroOid {
    pub num: u64,
}

impl NonZeroOid {
    /// Well-formedness: the id is non-zero.
    pub open spec fn wf(self) -> bool {
        self.num != 0
    }

    /// The fixed-width hexadecimal rendering of this id.
    pub open spec fn text(self) -> Seq<char> {
        hex_text(self.num)
    }

    /// Render the id as its fixed-width hexadecimal form.
    pub fn to_text(&self) -> (s: String)
        ensures
            s@ == self.text(),
    {
        u64_to_hex_text(self.num)
    }
}

/// The character for one hexadecimal digit.
pub open spec fn hex_digit_char(d: int) -> char {
    if d < 10 {
        ((d + 48) as u8) as char
    } else {
        ((d + 87) as u8) as char
    }
}

/// Fixed-width (16 digit) hexadecimal rendering of a 64-bit value, most
/// significant digit first.
pub open spec fn hex_text(v: u64) -> Seq<char> {
    Seq::new(16, |i: int| hex_digit_char(((v as int) / pow(16, (15 - i) as nat)) % 16))
}

fn hex_digit_str(d: u64) -> (r: &'static str)
    requires
        d < 16,
    ensures
        r@ =~= seq![hex_digit_char(d as int)],
{
    if d == 0 { proof { reveal_strlit("0"); } "0" }
    else if d == 1 { proof { reveal_strlit("1"); } "1" }
    else if d == 2 { proof { reveal_strlit("2"); } "2" }
    else if d == 3 { proof { reveal_strlit("3"); } "3" }
    else if d == 4 { proof { reveal_strlit("4"); } "4" }
    else if d == 5 { proof { reveal_strlit("5"); } "5" }
    else if d == 6 { proof { reveal_strlit("6"); } "6" }
    else if d == 7 { proof { reveal_strlit("7"); } "7" }
    else if d == 8 { proof { reveal_strlit("8"); } "8" }
    else if d == 9 { proof { reveal_strlit("9"); } "9" }
    else if d == 10 { proof { reveal_strlit("a"); } "a" }
    else if d == 11 { proof { reveal_strlit("b"); } "b" }
    else if d == 12 { proof { reveal_strlit("c"); } "c" }
    else if d == 13 { proof { reveal_strlit("d"); } "d" }
    else if d == 14 { proof { reveal_strlit("e"); } "e" }
    else { proof { reveal_strlit("f"); } "f" }
}

/// Render a 64-bit value as 16 hexadecimal digits, most significant first.
pub fn u64_to_hex_text(v: u64) -> (s: String)
    ensures
        s@ == hex_text(v),
{
    let mut digits: Vec<u64> = Vec::new();
    let mut w = v;
    let mut j: usize = 0;
    proof {
        lemma_pow0(16);
    }
    while j < 16
        invariant
            j <= 16,
            digits.len() == j,
            w as int == (v as int) / pow(16, j as nat),
            forall|k: int|
                0 <= k < j ==> #[trigger] digits[k] as int == ((v as int) / pow(
                    16,
                    k as nat,
                )) % 16,
        decreases 16 - j,
    {
        digits.push(w % 16);
        proof {
            lemma_pow_positive(16, j as nat);
            lemma_div_denominator(v as int, pow(16, j as nat), 16);
            lemma_pow_adds(16, j as nat, 1);
            lemma_pow1(16);
            assert((w as int) / 16 == (v as int) / pow(16, (j + 1) as nat));
        }
        w = w / 16;
        j += 1;
    }
    let mut s = String::new();
    let mut i: usize = 0;
    while i < 16
        invariant
            i <= 16,
            digits.len() == 16,
            forall|k: int|
                0 <= k < 16 ==> #[trigger] digits[k] as int == ((v as int) / pow(
                    16,
                    k as nat,
                )) % 16,
            s@ =~= hex_text(v).take(i as int),
        decreases 16 - i,
    {
        let d = digits[15 - i];
        assert(d < 16) by {
            assert(digits[15 - i as int] as int == ((v as int) / pow(16, (15 - i) as nat)) % 16);
        };
        s.append(hex_digit_str(d));
        assert(s@ =~= hex_text(v).take(i + 1));
        i += 1;
    }
    assert(s@ =~= hex_text(v));
    s
}

/// Two values with the same hexadecimal rendering are the same value.
pub proof fn lemma_hex_text_injective(a: u64, b: u64)
    requires
        hex_text(a) == hex_text(b),
    ensures
        a == b,
{
    assert forall|d1: int, d2: int|
        0 <= d1 < 16 && 0 <= d2 < 16 && hex_digit_char(d1) == hex_digit_char(d2) implies d1
        == d2 by {}
    assert forall|j: nat|
        j < 16 implies ((a as int) / #[trigger] pow(16, j)) % 16 == ((b as int) / pow(16, j)) % 16 by {
        lemma_pow_positive(16, j);
        assert(hex_text(a)[15 - j as int] == hex_text(b)[15 - j as int]);
        assert(hex_text(a)[15 - j as int] == hex_digit_char(((a as int) / pow(16, j)) % 16));
        assert(hex_text(b)[15 - j as int] == hex_digit_char(((b as int) / pow(16, j)) % 16));
    }
    // rebuild both values digit by digit from the least significant end
    let ghost ai = a as int;
    let ghost bi = b as int;
    assert forall|kk: nat| kk <= 16 implies ai % pow(16, kk) == bi % pow(16, kk) by {
        lemma_mod_by_pow_agree(a, b, kk);
    }
    lemma_pow16_16();
    assert(ai % pow(16, 16) == bi % pow(16, 16));
    lemma_small_mod(a as nat, pow(16, 16) as nat);
    lemma_small_mod(b as nat, pow(16, 16) as nat);
}

/// The two renderings agreeing on every digit agree modulo any power.
proof fn lemma_mod_by_pow_agree(a: u64, b: u64, k: nat)
    requires
        forall|j: nat|
            j < 16 ==> ((a as int) / pow(16, j)) % 16 == ((b as int) / #[trigger] pow(16, j)) % 16,
        k <= 16,
    ensures
        (a as int) % pow(16, k) == (b as int) % pow(16, k),
    decreases k,
{
    lemma_pow0(16);
    if k == 0 {
        assert(pow(16, 0) == 1);
    } else {
        lemma_mod_by_pow_agree(a, b, (k - 1) as nat);
        lemma_pow_positive(16, (k - 1) as nat);
        lemma_breakdown(a as int, pow(16, (k - 1) as nat), 16);
        lemma_breakdown(b as int, pow(16, (k - 1) as nat), 16);
        lemma_pow_adds(16, (k - 1) as nat, 1);
        lemma_pow1(16);
        assert(pow(16, (k - 1) as nat) * 16 == pow(16, k));
        assert(((a as int) / pow(16, (k - 1) as nat)) % 16 == ((b as int) / pow(
            16,
            (k - 1) as nat,
        )) % 16);
    }
}

/// The sixteenth power of sixteen covers every 64-bit value.
proof fn lemma_pow16_16()
    ensures
        pow(16, 16) == 0x1_0000_0000_0000_0000,
{
    lemma_pow0(16);
    lemma_pow1(16);
    lemma_pow_adds(16, 1, 1);
    assert(pow(16, 2) == 256);
    lemma_pow_adds(16, 2, 2);
    assert(pow(16, 4) == 65536);
    lemma_pow_adds(16, 4, 4);
    assert(pow(16, 8) == 4294967296);
    lemma_pow_adds(16, 8, 8);
    assert(pow(16, 16) == 0x1_0000_0000_0000_0000);
}

} // verus!
