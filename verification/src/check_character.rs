//! Check character engine for identifiers.
//!
//! A check character is computed over the "betanumeric" alphabet: the digits
//! `0`-`9` followed by the lowercase consonants `bcdfghjkmnpqrstvwxz`
//! (29 symbols). Every character of the input contributes the product of its
//! 1-indexed position and its ordinal in the alphabet (0 for characters
//! outside the alphabet, with ASCII letter case folded); the check character
//! is the alphabet symbol at the sum modulo 29.

use vstd::prelude::*;
use vstd::arithmetic::div_mod::{lemma_add_mod_noop, lemma_mul_mod_noop_left, lemma_small_mod};

verus! {

/// Ordinal of a character in the betanumeric alphabet
/// `0123456789bcdfghjkmnpqrstvwxz`, with ASCII letter case folded.
/// Characters outside the alphabet have ordinal 0.
#[verifier::opaque]
pub open spec fn betanumeric_ordinal(c: char) -> nat {
    if c == '0' { 0 } else if c == '1' { 1 } else if c == '2' { 2 }
    else if c == '3' { 3 } else if c == '4' { 4 } else if c == '5' { 5 }
    else if c == '6' { 6 } else if c == '7' { 7 } else if c == '8' { 8 }
    else if c == '9' { 9 }
    else if c == 'b' || c == 'B' { 10 }
    else if c == 'c' || c == 'C' { 11 }
    else if c == 'd' || c == 'D' { 12 }
    else if c == 'f' || c == 'F' { 13 }
    else if c == 'g' || c == 'G' { 14 }
    else if c == 'h' || c == 'H' { 15 }
    else if c == 'j' || c == 'J' { 16 }
    else if c == 'k' || c == 'K' { 17 }
    else if c == 'm' || c == 'M' { 18 }
    else if c == 'n' || c == 'N' { 19 }
    else if c == 'p' || c == 'P' { 20 }
    else if c == 'q' || c == 'Q' { 21 }
    else if c == 'r' || c == 'R' { 22 }
    else if c == 's' || c == 'S' { 23 }
    else if c == 't' || c == 'T' { 24 }
    else if c == 'v' || c == 'V' { 25 }
    else if c == 'w' || c == 'W' { 26 }
    else if c == 'x' || c == 'X' { 27 }
    else if c == 'z' || c == 'Z' { 28 }
    else { 0 }
}

/// The betanumeric alphabet symbol at a given ordinal (0 to 28).
#[verifier::opaque]
pub open spec fn betanumeric_symbol(i: nat) -> char {
    if i == 0 { '0' } else if i == 1 { '1' } else if i == 2 { '2' }
    else if i == 3 { '3' } else if i == 4 { '4' } else if i == 5 { '5' }
    else if i == 6 { '6' } else if i == 7 { '7' } else if i == 8 { '8' }
    else if i == 9 { '9' }
    else if i == 10 { 'b' } else if i == 11 { 'c' } else if i == 12 { 'd' }
    else if i == 13 { 'f' } else if i == 14 { 'g' } else if i == 15 { 'h' }
    else if i == 16 { 'j' } else if i == 17 { 'k' } else if i == 18 { 'm' }
    else if i == 19 { 'n' } else if i == 20 { 'p' } else if i == 21 { 'q' }
    else if i == 22 { 'r' } else if i == 23 { 's' } else if i == 24 { 't' }
    else if i == 25 { 'v' } else if i == 26 { 'w' } else if i == 27 { 'x' }
    else { 'z' }
}

/// A character is a betanumeric symbol (lowercase form only).
pub open spec fn is_betanumeric_char(c: char) -> bool {
    ||| c == '0' || c == '1' || c == '2' || c == '3' || c == '4'
    ||| c == '5' || c == '6' || c == '7' || c == '8' || c == '9'
    ||| c == 'b' || c == 'c' || c == 'd' || c == 'f' || c == 'g'
    ||| c == 'h' || c == 'j' || c == 'k' || c == 'm' || c == 'n'
    ||| c == 'p' || c == 'q' || c == 'r' || c == 's' || c == 't'
    ||| c == 'v' || c == 'w' || c == 'x' || c == 'z'
}

/// Every betanumeric alphabet symbol is a betanumeric character.
pub proof fn lemma_symbol_is_betanumeric(i: nat)
    requires
        i < 29,
    ensures
        is_betanumeric_char(betanumeric_symbol(i)),
{
    reveal(betanumeric_symbol);
}

/// Betanumeric membership test, executable form.
pub fn is_betanumeric_char_of(c: char) -> (r: bool)
    ensures
        r == is_betanumeric_char(c),
{
    c == '0' || c == '1' || c == '2' || c == '3' || c == '4'
        || c == '5' || c == '6' || c == '7' || c == '8' || c == '9'
        || c == 'b' || c == 'c' || c == 'd' || c == 'f' || c == 'g'
        || c == 'h' || c == 'j' || c == 'k' || c == 'm' || c == 'n'
        || c == 'p' || c == 'q' || c == 'r' || c == 's' || c == 't'
        || c == 'v' || c == 'w' || c == 'x' || c == 'z'
}

/// The weighted sum over a string: each character contributes its 1-indexed
/// position times its betanumeric ordinal.
pub open spec fn checksum_total(s: Seq<char>) -> nat
    decreases s.len(),
{
    if s.len() == 0 {
        0
    } else {
        checksum_total(s.drop_last()) + s.len() * betanumeric_ordinal(s.last())
    }
}

/// The check character of a string: the alphabet symbol at the weighted sum
/// modulo 29.
pub open spec fn spec_check_character(s: Seq<char>) -> char {
    betanumeric_symbol(checksum_total(s) % 29)
}

/// ASCII-case-insensitive character equality.
pub open spec fn chars_eq_ignore_ascii_case(a: char, b: char) -> bool {
    ascii_fold(a) == ascii_fold(b)
}

/// The Unicode scalar value of a character, with ASCII uppercase letters
/// folded to their lowercase counterparts.
pub open spec fn ascii_fold(c: char) -> int {
    if 65 <= c as u32 <= 90 {
        c as u32 + 32
    } else {
        c as u32 as int
    }
}

/// A string has a valid trailing check character when its last character
/// equals, up to ASCII case, the check character computed over the rest.
/// Strings of fewer than two characters are never valid.
pub open spec fn spec_validate_check_character(s: Seq<char>) -> bool {
    if s.len() < 2 {
        false
    } else {
        chars_eq_ignore_ascii_case(s.last(), spec_check_character(s.drop_last()))
    }
}

/// Betanumeric ordinal lookup, executable form.
pub fn betanumeric_ordinal_of(c: char) -> (o: u64)
    ensures
        o == betanumeric_ordinal(c),
        o < 29,
{
    proof {
        reveal(betanumeric_ordinal);
    }
    if c == '0' { 0 } else if c == '1' { 1 } else if c == '2' { 2 }
    else if c == '3' { 3 } else if c == '4' { 4 } else if c == '5' { 5 }
    else if c == '6' { 6 } else if c == '7' { 7 } else if c == '8' { 8 }
    else if c == '9' { 9 }
    else if c == 'b' || c == 'B' { 10 }
    else if c == 'c' || c == 'C' { 11 }
    else if c == 'd' || c == 'D' { 12 }
    else if c == 'f' || c == 'F' { 13 }
    else if c == 'g' || c == 'G' { 14 }
    else if c == 'h' || c == 'H' { 15 }
    else if c == 'j' || c == 'J' { 16 }
    else if c == 'k' || c == 'K' { 17 }
    else if c == 'm' || c == 'M' { 18 }
    else if c == 'n' || c == 'N' { 19 }
    else if c == 'p' || c == 'P' { 20 }
    else if c == 'q' || c == 'Q' { 21 }
    else if c == 'r' || c == 'R' { 22 }
    else if c == 's' || c == 'S' { 23 }
    else if c == 't' || c == 'T' { 24 }
    else if c == 'v' || c == 'V' { 25 }
    else if c == 'w' || c == 'W' { 26 }
    else if c == 'x' || c == 'X' { 27 }
    else if c == 'z' || c == 'Z' { 28 }
    else { 0 }
}

/// Alphabet symbol lookup by ordinal, executable form.
pub fn betanumeric_symbol_of(i: u64) -> (c: char)
    requires
        i < 29,
    ensures
        c == betanumeric_symbol(i as nat),
{
    proof {
        reveal(betanumeric_symbol);
    }
    if i == 0 { '0' } else if i == 1 { '1' } else if i == 2 { '2' }
    else if i == 3 { '3' } else if i == 4 { '4' } else if i == 5 { '5' }
    else if i == 6 { '6' } else if i == 7 { '7' } else if i == 8 { '8' }
    else if i == 9 { '9' }
    else if i == 10 { 'b' } else if i == 11 { 'c' } else if i == 12 { 'd' }
    else if i == 13 { 'f' } else if i == 14 { 'g' } else if i == 15 { 'h' }
    else if i == 16 { 'j' } else if i == 17 { 'k' } else if i == 18 { 'm' }
    else if i == 19 { 'n' } else if i == 20 { 'p' } else if i == 21 { 'q' }
    else if i == 22 { 'r' } else if i == 23 { 's' } else if i == 24 { 't' }
    else if i == 25 { 'v' } else if i == 26 { 'w' } else if i == 27 { 'x' }
    else { 'z' }
}

/// Calculate the check character for an identifier string.
///
/// Each character contributes its 1-indexed position times its betanumeric
/// ordinal; the check character is the alphabet symbol at the total modulo
/// 29. The sum is accumulated modulo 29 throughout, so no input length can
/// overflow the accumulator.
pub fn calculate_check_character(identifier: &str) -> (c: char)
    ensures
        c == spec_check_character(identifier@),
{
    let ghost s = identifier@;
    let v = crate::text::to_char_vec(identifier);
    let n = v.len();
    let mut total: u64 = 0;
    let mut posm: u64 = 1;
    let mut i: usize = 0;
    while i < n
        invariant
            n == s.len(),
            v@ == s,
            i <= n,
            total < 29,
            total == checksum_total(s.take(i as int)) % 29,
            posm < 29,
            posm == (i + 1) % 29,
        decreases n - i,
    {
        let ch = v[i];
        let ord = betanumeric_ordinal_of(ch);
        proof {
            assert(posm * ord < 29 * 29) by (nonlinear_arith)
                requires
                    posm < 29,
                    ord < 29,
                    posm >= 0,
                    ord >= 0,
            ;
            lemma_step_mod(s, i as int, total as int, posm as int, ord as int);
        }
        total = (total + posm * ord) % 29;
        posm = if posm == 28 { 0 } else { posm + 1 };
        i = i + 1;
    }
    proof {
        assert(s.take(n as int) =~= s);
    }
    betanumeric_symbol_of(total)
}

/// One step of the modular accumulation: extending the prefix by one
/// character advances the weighted sum modulo 29 as the loop does.
proof fn lemma_step_mod(s: Seq<char>, i: int, total: int, posm: int, ord: int)
    requires
        0 <= i < s.len(),
        total == checksum_total(s.take(i)) % 29,
        posm == (i + 1) % 29,
        ord == betanumeric_ordinal(s[i]),
    ensures
        (total + posm * ord) % 29 == checksum_total(s.take(i + 1)) % 29,
{
    let t = s.take(i + 1);
    assert(t.drop_last() =~= s.take(i));
    assert(t.last() == s[i]);
    assert(t.len() == i + 1);
    assert(checksum_total(t) == checksum_total(s.take(i)) + (i + 1) * ord);
    let a = checksum_total(s.take(i)) as int;
    let b = (i + 1) * ord;
    lemma_add_mod_noop(a, b, 29);
    assert((a % 29 + b % 29) % 29 == (a + b) % 29);
    lemma_mul_mod_noop_left(i + 1, ord, 29);
    assert((posm * ord) % 29 == b % 29);
    lemma_add_mod_noop(total, posm * ord, 29);
    lemma_small_mod(total as nat, 29);
    assert((total + posm * ord) % 29 == (a % 29 + (posm * ord) % 29) % 29);
}

/// Case-insensitive ASCII comparison of two characters, executable form.
pub fn eq_ignore_ascii_case_char(a: char, b: char) -> (r: bool)
    ensures
        r == chars_eq_ignore_ascii_case(a, b),
{
    let ua = a as u32;
    let ub = b as u32;
    let fa = if 65 <= ua && ua <= 90 { ua + 32 } else { ua };
    let fb = if 65 <= ub && ub <= 90 { ub + 32 } else { ub };
    fa == fb
}

/// Validate that an identifier carries a correct trailing check character.
///
/// The last character is split off as the claimed check character and
/// compared, ASCII-case-insensitively, against the check character computed
/// over the preceding characters. Inputs of fewer than two characters are
/// reported invalid rather than rejected with an error.
pub fn validate_check_character(identifier: &str) -> (r: bool)
    ensures
        r == spec_validate_check_character(identifier@),
{
    let n = identifier.unicode_len();
    if n < 2 {
        return false;
    }
    let base = identifier.substring_char(0, n - 1);
    let provided = identifier.get_char(n - 1);
    let expected = calculate_check_character(base);
    proof {
        assert(base@ =~= identifier@.drop_last());
    }
    eq_ignore_ascii_case_char(provided, expected)
}

/// Characters equal up to ASCII case have the same betanumeric ordinal.
proof fn lemma_ordinal_case_insensitive(a: char, b: char)
    requires
        chars_eq_ignore_ascii_case(a, b),
    ensures
        betanumeric_ordinal(a) == betanumeric_ordinal(b),
{
    reveal(betanumeric_ordinal);
}

/// The weighted sum is insensitive to ASCII letter case.
proof fn lemma_checksum_total_case_insensitive(s1: Seq<char>, s2: Seq<char>)
    requires
        s1.len() == s2.len(),
        forall|i: int| 0 <= i < s1.len() ==> chars_eq_ignore_ascii_case(s1[i], s2[i]),
    ensures
        checksum_total(s1) == checksum_total(s2),
    decreases s1.len(),
{
    if s1.len() > 0 {
        lemma_ordinal_case_insensitive(s1.last(), s2.last());
        lemma_checksum_total_case_insensitive(s1.drop_last(), s2.drop_last());
    }
}

/// The check character is insensitive to ASCII letter case: two strings
/// whose characters agree up to ASCII case have the same check character.
pub proof fn lemma_check_character_case_insensitive(s1: Seq<char>, s2: Seq<char>)
    requires
        s1.len() == s2.len(),
        forall|i: int| 0 <= i < s1.len() ==> chars_eq_ignore_ascii_case(s1[i], s2[i]),
    ensures
        spec_check_character(s1) == spec_check_character(s2),
{
    lemma_checksum_total_case_insensitive(s1, s2);
}

/// Appending the computed check character to any non-empty string yields a
/// string that validates.
pub proof fn lemma_appended_check_character_validates(s: Seq<char>)
    requires
        s.len() >= 1,
    ensures
        spec_validate_check_character(s.push(spec_check_character(s))),
{
    let t = s.push(spec_check_character(s));
    assert(t.drop_last() =~= s);
    assert(t.last() == spec_check_character(s));
}

} // verus!
