//! Identifiers for profiles and sites: sortable 128-bit tokens with a
//! canonical 26-character base-32 text form, plus the reserved nil value
//! that names the permanent default profile.

use vstd::prelude::*;
use vstd::arithmetic::div_mod::{
    lemma_basic_div, lemma_div_denominator, lemma_fundamental_div_mod, lemma_multiply_divide_lt,
};

verus! {

/// A sortable, unique 128-bit token identifying a profile or a site.
#[derive(Clone, Copy, PartialEq, Eq, Structural, Debug, Hash)]
pub struct Identifier {
    pub value: u128,
}

impl Identifier {
    /// The reserved identifier of the permanent default profile.
    pub open spec fn spec_nil() -> Identifier {
        Identifier { value: 0 }
    }

    pub open spec fn spec_is_nil(&self) -> bool {
        self.value == 0
    }

    pub fn nil() -> (r: Identifier)
        ensures
            r == Identifier::spec_nil(),
    {
        Identifier { value: 0 }
    }

    #[verifier::when_used_as_spec(spec_is_nil)]
    pub fn is_nil(&self) -> (r: bool)
        ensures
            r == self.spec_is_nil(),
    {
        self.value == 0
    }
}

/// Relies on `ulid::Ulid::generate`: a fresh token drawn from the clock and a
/// random source.  Nothing is promised of its value.
#[verifier::external_body]
pub fn fresh_identifier() -> Identifier {
    Identifier { value: ulid::Ulid::generate().0 }
}

/// 32 to the power `k`.
pub open spec fn p32(k: nat) -> int
    decreases k,
{
    if k == 0 {
        1
    } else {
        32 * p32((k - 1) as nat)
    }
}

pub proof fn lemma_p32_pos(k: nat)
    ensures
        p32(k) >= 1,
    decreases k,
{
    if k > 0 {
        lemma_p32_pos((k - 1) as nat);
    }
}

/// The weight of the leading digit, written out.
pub proof fn lemma_p32_top()
    ensures
        p32(25) == 0x2000_0000_0000_0000_0000_0000_0000_0000,
{
    reveal_with_fuel(p32, 27);
}

pub proof fn lemma_p32_ordered(a: nat, b: nat)
    requires
        a <= b,
    ensures
        p32(a) <= p32(b),
    decreases b,
{
    if a < b {
        lemma_p32_ordered(a, (b - 1) as nat);
        lemma_p32_pos((b - 1) as nat);
    }
}

/// The base-32 alphabet of the canonical form, digit value to character.
pub open spec fn digit_char(d: int) -> char {
    if d == 0 { '0' } else if d == 1 { '1' } else if d == 2 { '2' } else if d == 3 { '3' }
    else if d == 4 { '4' } else if d == 5 { '5' } else if d == 6 { '6' } else if d == 7 { '7' }
    else if d == 8 { '8' } else if d == 9 { '9' } else if d == 10 { 'A' } else if d == 11 { 'B' }
    else if d == 12 { 'C' } else if d == 13 { 'D' } else if d == 14 { 'E' } else if d == 15 { 'F' }
    else if d == 16 { 'G' } else if d == 17 { 'H' } else if d == 18 { 'J' } else if d == 19 { 'K' }
    else if d == 20 { 'M' } else if d == 21 { 'N' } else if d == 22 { 'P' } else if d == 23 { 'Q' }
    else if d == 24 { 'R' } else if d == 25 { 'S' } else if d == 26 { 'T' } else if d == 27 { 'V' }
    else if d == 28 { 'W' } else if d == 29 { 'X' } else if d == 30 { 'Y' } else { 'Z' }
}

/// The digit value of a character, `None` when the character is not in the
/// alphabet.
pub open spec fn char_digit(c: char) -> Option<int> {
    if c == '0' { Some(0int) } else if c == '1' { Some(1int) } else if c == '2' { Some(2int) }
    else if c == '3' { Some(3int) } else if c == '4' { Some(4int) } else if c == '5' { Some(5int) }
    else if c == '6' { Some(6int) } else if c == '7' { Some(7int) } else if c == '8' { Some(8int) }
    else if c == '9' { Some(9int) } else if c == 'A' { Some(10int) } else if c == 'B' { Some(11int) }
    else if c == 'C' { Some(12int) } else if c == 'D' { Some(13int) } else if c == 'E' { Some(14int) }
    else if c == 'F' { Some(15int) } else if c == 'G' { Some(16int) } else if c == 'H' { Some(17int) }
    else if c == 'J' { Some(18int) } else if c == 'K' { Some(19int) } else if c == 'M' { Some(20int) }
    else if c == 'N' { Some(21int) } else if c == 'P' { Some(22int) } else if c == 'Q' { Some(23int) }
    else if c == 'R' { Some(24int) } else if c == 'S' { Some(25int) } else if c == 'T' { Some(26int) }
    else if c == 'V' { Some(27int) } else if c == 'W' { Some(28int) } else if c == 'X' { Some(29int) }
    else if c == 'Y' { Some(30int) } else if c == 'Z' { Some(31int) } else { None }
}

pub proof fn lemma_alphabet_roundtrip(d: int)
    requires
        0 <= d < 32,
    ensures
        char_digit(digit_char(d)) == Some(d),
{
}

/// The canonical 26-character text form of an identifier value.
pub open spec fn spec_encode_id(v: u128) -> Seq<char> {
    Seq::new(26, |i: int| digit_char((v as int / p32((25 - i) as nat)) % 32))
}

/// Left-to-right accumulation of base-32 digits; `None` on a character
/// outside the alphabet.
pub open spec fn decode_acc(s: Seq<char>, acc: int) -> Option<int>
    decreases s.len(),
{
    if s.len() == 0 {
        Some(acc)
    } else {
        match char_digit(s[0]) {
            Some(d) => decode_acc(s.skip(1), acc * 32 + d),
            None => None,
        }
    }
}

/// The value of a canonical 26-character identifier text, `None` when the
/// text is not canonical (wrong length, a character outside the alphabet, or
/// a value that does not fit in 128 bits).
pub open spec fn spec_decode_id(s: Seq<char>) -> Option<u128> {
    if s.len() == 26 && (match char_digit(s[0]) {
        Some(d) => d < 8,
        None => false,
    }) {
        match decode_acc(s, 0) {
            Some(v) => Some(v as u128),
            None => None,
        }
    } else {
        None
    }
}

proof fn lemma_decode_encode_step(v: u128, k: int)
    requires
        0 <= k <= 26,
    ensures
        decode_acc(spec_encode_id(v).skip(k), v as int / p32((26 - k) as nat)) == Some(v as int),
    decreases 26 - k,
{
    let s = spec_encode_id(v);
    lemma_p32_pos((26 - k) as nat);
    if k == 26 {
        assert(s.skip(26) =~= Seq::<char>::empty());
        assert(p32(0) == 1);
    } else {
        lemma_p32_pos((25 - k) as nat);
        let q = v as int / p32((25 - k) as nat);
        let d = q % 32;
        assert(s.skip(k).len() == 26 - k);
        assert(s.skip(k)[0] == s[k]);
        assert(s[k] == digit_char(d));
        assert(0 <= d < 32);
        lemma_alphabet_roundtrip(d);
        assert(s.skip(k).skip(1) =~= s.skip(k + 1));
        // (v / 32^(25-k)) / 32 == v / 32^(26-k)
        lemma_div_denominator(v as int, p32((25 - k) as nat), 32);
        assert(p32((25 - k) as nat) * 32 == 32 * p32((25 - k) as nat));
        assert(p32((26 - k) as nat) == 32 * p32((25 - k) as nat));
        assert(q / 32 == v as int / p32((26 - k) as nat));
        // q == 32 * (q / 32) + q % 32
        lemma_fundamental_div_mod(q, 32);
        assert((v as int / p32((26 - k) as nat)) * 32 + d == q);
        lemma_decode_encode_step(v, k + 1);
        assert(decode_acc(s.skip(k + 1), q) == Some(v as int));
        assert(decode_acc(s.skip(k), v as int / p32((26 - k) as nat))
            == decode_acc(s.skip(k).skip(1), (v as int / p32((26 - k) as nat)) * 32 + d));
    }
}

/// The text form of an identifier decodes back to the same identifier.
pub proof fn lemma_id_roundtrip(v: u128)
    ensures
        spec_encode_id(v).len() == 26,
        spec_decode_id(spec_encode_id(v)) == Some(v),
{
    let s = spec_encode_id(v);
    lemma_p32_pos(25);
    lemma_p32_pos(26);
    lemma_p32_top();
    assert(p32(26) == 32 * p32(25));
    // the whole value fits below 32^26, so the seed accumulator is zero
    lemma_basic_div(v as int, p32(26));
    lemma_decode_encode_step(v, 0);
    assert(s.skip(0) =~= s);
    // the leading digit is below 8 because v < 8 * 32^25
    assert((v as int) < 8 * p32(25));
    lemma_multiply_divide_lt(v as int, p32(25), 8);
    let d0 = (v as int / p32(25)) % 32;
    assert(0 <= v as int / p32(25) < 8);
    assert(d0 == v as int / p32(25));
    assert(s[0] == digit_char(d0));
    lemma_alphabet_roundtrip(d0);
    assert(decode_acc(s, 0) == Some(v as int));
}

fn digit_to_char(d: u8) -> (c: char)
    requires
        d < 32,
    ensures
        c == digit_char(d as int),
{
    match d {
        0 => '0', 1 => '1', 2 => '2', 3 => '3', 4 => '4', 5 => '5', 6 => '6', 7 => '7',
        8 => '8', 9 => '9', 10 => 'A', 11 => 'B', 12 => 'C', 13 => 'D', 14 => 'E', 15 => 'F',
        16 => 'G', 17 => 'H', 18 => 'J', 19 => 'K', 20 => 'M', 21 => 'N', 22 => 'P', 23 => 'Q',
        24 => 'R', 25 => 'S', 26 => 'T', 27 => 'V', 28 => 'W', 29 => 'X', 30 => 'Y', _ => 'Z',
    }
}

fn char_to_digit(c: char) -> (r: Option<u8>)
    ensures
        match r {
            Some(d) => char_digit(c) == Some(d as int) && d < 32,
            None => char_digit(c) is None,
        },
{
    match c {
        '0' => Some(0), '1' => Some(1), '2' => Some(2), '3' => Some(3), '4' => Some(4),
        '5' => Some(5), '6' => Some(6), '7' => Some(7), '8' => Some(8), '9' => Some(9),
        'A' => Some(10), 'B' => Some(11), 'C' => Some(12), 'D' => Some(13), 'E' => Some(14),
        'F' => Some(15), 'G' => Some(16), 'H' => Some(17), 'J' => Some(18), 'K' => Some(19),
        'M' => Some(20), 'N' => Some(21), 'P' => Some(22), 'Q' => Some(23), 'R' => Some(24),
        'S' => Some(25), 'T' => Some(26), 'V' => Some(27), 'W' => Some(28), 'X' => Some(29),
        'Y' => Some(30), 'Z' => Some(31), _ => None,
    }
}

/// 32 to the power 25, the weight of the leading digit.
pub const P32_TOP: u128 = 0x2000_0000_0000_0000_0000_0000_0000_0000;

/// Appends the canonical 26-character text form of `id` to `out`.
pub fn encode_id_into(out: &mut Vec<char>, id: Identifier)
    ensures
        final(out)@ == old(out)@ + spec_encode_id(id.value),
{
    let v: u128 = id.value;
    let ghost base = out@;
    let mut p: u128 = P32_TOP;
    proof { lemma_p32_top(); }
    let mut i: usize = 0;
    while i < 26
        invariant
            i <= 26,
            i < 26 ==> p as int == p32((25 - i) as nat),
            out@.len() == base.len() + i,
            out@.subrange(0, base.len() as int) == base,
            forall|j: int| 0 <= j < i ==> out@[base.len() + j] == spec_encode_id(v)[j],
        decreases 26 - i,
    {
        proof {
            lemma_p32_pos((25 - i) as nat);
        }
        let d: u8 = ((v / p) % 32) as u8;
        let c = digit_to_char(d);
        assert(c == spec_encode_id(v)[i as int]);
        out.push(c);
        if i < 25 {
            proof {
                assert(p32((25 - i) as nat) == 32 * p32((24 - i) as nat));
                lemma_p32_pos((24 - i) as nat);
            }
            assert(p as int % 32 == 0) by {
                assert(p as int == 32 * p32((24 - i) as nat));
                vstd::arithmetic::div_mod::lemma_mod_multiples_basic(
                    p32((24 - i) as nat), 32);
            };
            p = p / 32;
            assert(p as int == p32((24 - i) as nat)) by {
                vstd::arithmetic::div_mod::lemma_div_multiples_vanish(
                    p32((24 - i) as nat), 32);
            };
        }
        i += 1;
    }
    assert(out@ =~= base + spec_encode_id(v));
}

/// Reads a canonical 26-character identifier at position `i` of `t`.
pub fn decode_id_at(t: &Vec<char>, i: usize) -> (r: Option<Identifier>)
    requires
        i + 26 <= t@.len(),
    ensures
        match r {
            Some(id) => spec_decode_id(t@.subrange(i as int, i + 26)) == Some(id.value),
            None => spec_decode_id(t@.subrange(i as int, i + 26)) is None,
        },
{
    let ghost s = t@.subrange(i as int, i + 26);
    let n = t.len();
    assert(s.skip(0) =~= s);
    let mut acc: u128 = 0;
    let mut j: usize = 0;
    while j < 26
        invariant
            j <= 26,
            n == t@.len(),
            i + 26 <= n,
            s == t@.subrange(i as int, i + 26),
            s.len() == 26,
            decode_acc(s, 0) == decode_acc(s.skip(j as int), acc as int),
            j == 0 ==> acc == 0,
            j >= 1 ==> (acc as int) < 8 * p32((j - 1) as nat),
            j >= 1 ==> (match char_digit(s[0]) {
                Some(d) => d < 8,
                None => false,
            }),
        decreases 26 - j,
    {
        let c = t[i + j];
        assert(c == s[j as int]);
        match char_to_digit(c) {
            None => {
                assert(decode_acc(s.skip(j as int), acc as int) is None);
                return None;
            },
            Some(d) => {
                if j == 0 {
                    if d >= 8 {
                        return None;
                    }
                    acc = d as u128;
                    assert(s.skip(0) =~= s);
                    assert(s.skip(0).skip(1) =~= s.skip(1));
                    assert(p32(0) == 1);
                } else {
                    proof {
                        lemma_p32_ordered((j - 1) as nat, 24);
                        assert(8 * p32(24) * 32 == 8 * p32(25)) by {
                            assert(p32(25) == 32 * p32(24));
                        };
                        lemma_p32_top();
                        vstd::arithmetic::mul::lemma_mul_inequality(
                            acc as int, 8 * p32((j - 1) as nat) - 1, 32);
                        assert(p32(j as nat) == 32 * p32((j - 1) as nat));
                    }
                    let new_acc: u128 = acc * 32 + (d as u128);
                    assert(s.skip(j as int).skip(1) =~= s.skip(j + 1));
                    assert(decode_acc(s.skip(j as int), acc as int)
                        == decode_acc(s.skip(j + 1), acc as int * 32 + d));
                    acc = new_acc;
                }
            },
        }
        j += 1;
    }
    assert(s.skip(26) =~= Seq::<char>::empty());
    Some(Identifier { value: acc })
}

} // verus!
