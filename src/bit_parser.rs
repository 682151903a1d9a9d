//! Conversion between 32-character strings of `'0'` / `'1'` and `u32` bit patterns.
use vstd::arithmetic::power2::{lemma2_to64, lemma_pow2_strictly_increases, lemma_pow2_unfold, pow2};
use vstd::prelude::*;

verus! {

/// Why a string was not accepted as a 32-bit pattern.
#[derive(Debug, Clone, Copy, PartialEq, Eq, Structural)]
pub enum ParseError {
    /// The string does not hold exactly 32 characters.
    WrongLength,
    /// The string holds a character other than `'0'` or `'1'`: the first such one.
    InvalidCharacter(char),
}

/// Number of characters in a bit pattern string.
pub const PATTERN_LEN: usize = 32;

/// A binary digit.
pub open spec fn is_bit_char(c: char) -> bool {
    c == '0' || c == '1'
}

pub open spec fn all_bit_chars(s: Seq<char>) -> bool {
    forall|i: int| 0 <= i < s.len() ==> is_bit_char(#[trigger] s[i])
}

/// The value of a binary digit.
pub open spec fn digit_value(c: char) -> nat {
    if c == '1' {
        1
    } else {
        0
    }
}

/// The number that a string of binary digits denotes, most significant digit first.
pub open spec fn binary_value(s: Seq<char>) -> nat
    decreases s.len(),
{
    if s.len() == 0 {
        0
    } else {
        2 * binary_value(s.drop_last()) + digit_value(s.last())
    }
}

/// Reads a string of exactly 32 binary digits, most significant first, as a bit pattern.
pub fn parse(binary_number: &str) -> (r: Result<u32, ParseError>)
    ensures
        binary_number@.len() != 32 ==> r == Err::<u32, ParseError>(ParseError::WrongLength),
        binary_number@.len() == 32 ==> (r is Ok <==> all_bit_chars(binary_number@)),
        binary_number@.len() == 32 ==> match r {
            Ok(v) => v as nat == binary_value(binary_number@),
            Err(ParseError::WrongLength) => false,
            Err(ParseError::InvalidCharacter(c)) => exists|i: int|
                0 <= i < 32 && binary_number@[i] == c && !is_bit_char(c) && all_bit_chars(
                    #[trigger] binary_number@.take(i),
                ),
        },
{
    if binary_number.unicode_len() != PATTERN_LEN {
        return Err(ParseError::WrongLength);
    }
    let mut value: u32 = 0;
    let mut idx: usize = 0;
    proof {
        lemma2_to64();
    }
    while idx < PATTERN_LEN
        invariant
            binary_number@.len() == 32,
            idx <= 32,
            all_bit_chars(binary_number@.take(idx as int)),
            value as nat == binary_value(binary_number@.take(idx as int)),
            value < pow2(idx as nat),
        decreases 32 - idx,
    {
        proof {
            lemma2_to64();
            if idx < 31 {
                lemma_pow2_strictly_increases(idx as nat, 31);
            }
        }
        let digit = binary_number.get_char(idx);
        let ghost prefix = binary_number@.take(idx as int);
        let ghost next = binary_number@.take(idx as int + 1);
        assert(next.drop_last() =~= prefix);
        if digit == '0' {
            value = value * 2;
        } else if digit == '1' {
            value = value * 2 + 1;
        } else {
            return Err(ParseError::InvalidCharacter(digit));
        }
        proof {
            lemma_pow2_unfold(idx as nat + 1);
        }
        idx = idx + 1;
    }
    assert(binary_number@.take(32) =~= binary_number@);
    Ok(value)
}

proof fn lemma_shift_step(b: u64, k: u64)
    requires
        b < 0x1_0000_0000,
        k < 32,
    ensures
        (b >> (k + 1)) * 2 + ((b >> k) & 1) == b >> k,
        (b >> k) & 1 == 0 || (b >> k) & 1 == 1,
{
    assert((b >> (k + 1)) * 2 + ((b >> k) & 1) == b >> k) by (bit_vector)
        requires
            b < 0x1_0000_0000,
            k < 32,
    ;
    assert((b >> k) & 1 == 0 || (b >> k) & 1 == 1) by (bit_vector);
}

/// Renders a bit pattern as its 32 binary digits, most significant first, zeros kept.
pub fn binary_string(bits: u32) -> (r: String)
    ensures
        r@.len() == 32,
        all_bit_chars(r@),
        binary_value(r@) == bits as nat,
{
    let wide: u64 = bits as u64;
    let mut r = String::new();
    let mut idx: u64 = 0;
    assert(wide >> 32u64 == 0) by (bit_vector)
        requires
            wide < 0x1_0000_0000,
    ;
    while idx < 32
        invariant
            wide == bits as u64,
            idx <= 32,
            r@.len() == idx,
            all_bit_chars(r@),
            binary_value(r@) == (wide >> (32 - idx) as u64) as nat,
        decreases 32 - idx,
    {
        let k: u64 = 31 - idx;
        proof {
            lemma_shift_step(wide, k);
            reveal_strlit("0");
            reveal_strlit("1");
        }
        let ghost before = r@;
        if (wide >> k) & 1 == 1 {
            r.append("1");
        } else {
            r.append("0");
        }
        assert(r@.drop_last() =~= before);
        idx = idx + 1;
    }
    assert(wide >> 0u64 == wide) by (bit_vector);
    r
}

/// A string with every space taken out, the other characters kept in order.
pub open spec fn without_spaces(s: Seq<char>) -> Seq<char> {
    s.filter(|c: char| c != ' ')
}

/// Removes the spaces from a string, as written between groups of digits.
pub fn strip_spaces(s: &str) -> (r: String)
    ensures
        r@ == without_spaces(s@),
{
    let len = s.unicode_len();
    let mut r = String::new();
    let mut idx: usize = 0;
    while idx < len
        invariant
            len == s@.len(),
            idx <= len,
            r@ == without_spaces(s@.take(idx as int)),
        decreases len - idx,
    {
        let ghost before = r@;
        let c = s.get_char(idx);
        if c != ' ' {
            r.append(s.substring_char(idx, idx + 1));
        }
        proof {
            let next = s@.take(idx as int + 1);
            assert(next.drop_last() =~= s@.take(idx as int));
            reveal(Seq::filter);
            assert(s@.subrange(idx as int, idx as int + 1) =~= seq![c]);
        }
        idx = idx + 1;
    }
    assert(s@.take(len as int) =~= s@);
    r
}

/// A string of binary digits is fixed by its length and the number it denotes,
/// so reading a rendered pattern gives the pattern back, and rendering a read
/// string gives the string back.
pub proof fn lemma_binary_digits_unique(s: Seq<char>, t: Seq<char>)
    requires
        s.len() == t.len(),
        all_bit_chars(s),
        all_bit_chars(t),
        binary_value(s) == binary_value(t),
    ensures
        s == t,
    decreases s.len(),
{
    if s.len() > 0 {
        let (a, b) = (s.drop_last(), t.drop_last());
        assert(is_bit_char(s[s.len() - 1]) && is_bit_char(t[t.len() - 1]));
        assert(all_bit_chars(a) && all_bit_chars(b)) by {
            assert forall|i: int| 0 <= i < a.len() implies is_bit_char(#[trigger] a[i]) by {
                assert(is_bit_char(s[i]));
            }
            assert forall|i: int| 0 <= i < b.len() implies is_bit_char(#[trigger] b[i]) by {
                assert(is_bit_char(t[i]));
            }
        }
        lemma_binary_digits_unique(a, b);
        assert(s =~= a.push(s.last()));
        assert(t =~= b.push(t.last()));
    } else {
        assert(s =~= t);
    }
}

} // verus!
