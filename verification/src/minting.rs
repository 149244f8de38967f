//! Minting of new identifiers: random blades over the betanumeric alphabet,
//! single mints, and capped batch mints against the registry.

use vstd::prelude::*;

use crate::ark::{
    ark_prefix, has_ark_prefix, has_slash_prefix_form, query_free_len, spec_after_shoulder,
    spec_blade, spec_collapse_prefix, spec_naan, spec_naan_slash, spec_parse_ok, spec_qualifier,
    spec_rest, spec_shoulder, spec_shoulder_digit,
};
use crate::check_character::{
    betanumeric_symbol, betanumeric_symbol_of, calculate_check_character, checksum_total,
    is_betanumeric_char, lemma_symbol_is_betanumeric, spec_check_character,
};
use crate::text::{
    is_ascii_digit_char, lemma_find_char_absent, lemma_find_char_unique, lemma_find_digit_unique,
    lemma_find_separator_absent,
};
use crate::config::AppState;
use crate::error::AppError;
use crate::text::{chars_to_string, push_all, to_char_vec};

verus! {

/// Every character of the sequence is a betanumeric symbol.
pub open spec fn all_betanumeric(s: Seq<char>) -> bool {
    forall|i: int| 0 <= i < s.len() ==> is_betanumeric_char(s[i])
}

/// Relies on `rand::random_range` over `0..bound`: the sampled value lies in
/// the range. The function panics only on an empty range, which the
/// precondition rules out; the thread-local generator is safe for concurrent
/// independent use.
#[verifier::external_body]
fn random_below(bound: usize) -> (r: usize)
    requires
        bound > 0,
    ensures
        r < bound,
{
    rand::random_range(0..bound)
}

/// Generate a random blade: uniformly chosen betanumeric characters.
pub fn generate_random_blade(blade_length: usize) -> (r: String)
    ensures
        r@.len() == blade_length,
        all_betanumeric(r@),
{
    let mut v: Vec<char> = Vec::new();
    let mut i: usize = 0;
    while i < blade_length
        invariant
            i <= blade_length,
            v@.len() == i,
            all_betanumeric(v@),
        decreases blade_length - i,
    {
        let idx = random_below(29);
        let c = betanumeric_symbol_of(idx as u64);
        v.push(c);
        proof {
            crate::check_character::lemma_symbol_is_betanumeric(idx as nat);
        }
        i = i + 1;
    }
    chars_to_string(&v)
}

/// The minted identifier string for given components: `ark:naan/shoulder`
/// followed by the blade, with the check character over `shoulder + blade`
/// appended when the shoulder uses one.
pub open spec fn spec_mint(
    naan: Seq<char>,
    shoulder: Seq<char>,
    blade: Seq<char>,
    uses_check_character: bool,
) -> Seq<char> {
    let base = ark_prefix() + naan + seq!['/'] + shoulder + blade;
    if uses_check_character {
        base.push(spec_check_character(shoulder + blade))
    } else {
        base
    }
}

/// The string is a mint result for the given NAAN, shoulder and blade
/// length: some betanumeric blade of that length produces it.
pub open spec fn is_minted(
    s: Seq<char>,
    naan: Seq<char>,
    shoulder: Seq<char>,
    blade_length: int,
    uses_check_character: bool,
) -> bool {
    exists|b: Seq<char>|
        b.len() == blade_length && #[trigger] all_betanumeric(b) && s == spec_mint(
            naan,
            shoulder,
            b,
            uses_check_character,
        )
}

/// Mint a single new identifier with the given NAAN, shoulder, blade length
/// and check character option. The blade is drawn at random from the
/// betanumeric alphabet; when a check character is used, it is computed over
/// `shoulder + blade` and appended, making the final blade one character
/// longer than requested.
pub fn mint_ark(
    naan: &str,
    shoulder: &str,
    blade_length: usize,
    uses_check_character: bool,
) -> (r: String)
    ensures
        is_minted(r@, naan@, shoulder@, blade_length as int, uses_check_character),
{
    let blade = generate_random_blade(blade_length);
    let naan_v = to_char_vec(naan);
    let shoulder_v = to_char_vec(shoulder);
    let blade_v = to_char_vec(blade.as_str());
    let mut out: Vec<char> = vec!['a', 'r', 'k', ':'];
    proof {
        assert(out@ =~= ark_prefix());
    }
    push_all(&mut out, &naan_v);
    out.push('/');
    push_all(&mut out, &shoulder_v);
    push_all(&mut out, &blade_v);
    proof {
        assert(out@ =~= ark_prefix() + naan@ + seq!['/'] + shoulder@ + blade@);
    }
    if uses_check_character {
        let mut sb = shoulder_v;
        push_all(&mut sb, &blade_v);
        let sb_s = chars_to_string(&sb);
        proof {
            assert(sb_s@ == shoulder@ + blade@);
        }
        let check = calculate_check_character(sb_s.as_str());
        out.push(check);
        let r = chars_to_string(&out);
        proof {
            assert(r@ == spec_mint(naan@, shoulder@, blade@, true));
            assert(is_minted(r@, naan@, shoulder@, blade_length as int, true)) by {
                assert(all_betanumeric(blade@));
            }
        }
        r
    } else {
        let r = chars_to_string(&out);
        proof {
            assert(r@ == spec_mint(naan@, shoulder@, blade@, false));
            assert(is_minted(r@, naan@, shoulder@, blade_length as int, false)) by {
                assert(all_betanumeric(blade@));
            }
        }
        r
    }
}

/// Minted identifiers parse back into their own components: for any NAAN
/// without a `/`, any primordial shoulder (non-digits ending in its single
/// first digit, free of `?`), and any betanumeric blade, parsing the minted
/// string recovers the NAAN, the shoulder, and a blade of the requested
/// length — one character longer when a check character is appended — with
/// an empty qualifier.
pub proof fn lemma_mint_then_parse(
    naan: Seq<char>,
    shoulder: Seq<char>,
    blade: Seq<char>,
    uses_check_character: bool,
)
    requires
        naan.len() > 0,
        forall|i: int| 0 <= i < naan.len() ==> naan[i] != '/',
        shoulder.len() > 0,
        is_ascii_digit_char(shoulder.last()),
        forall|i: int| 0 <= i < shoulder.len() - 1 ==> !is_ascii_digit_char(shoulder[i]),
        forall|i: int| 0 <= i < shoulder.len() ==> shoulder[i] != '?',
        forall|i: int| 0 <= i < shoulder.len() ==> shoulder[i] != '/',
        all_betanumeric(blade),
    ensures
        ({
            let s = spec_mint(naan, shoulder, blade, uses_check_character);
            &&& spec_parse_ok(s)
            &&& spec_naan(s) == naan
            &&& spec_shoulder(s) == shoulder
            &&& spec_blade(s) == if uses_check_character {
                blade.push(spec_check_character(shoulder + blade))
            } else {
                blade
            }
            &&& spec_blade(s).len() == blade.len() + if uses_check_character {
                1int
            } else {
                0int
            }
            &&& spec_qualifier(s) == Seq::<char>::empty()
        }),
{
    let s = spec_mint(naan, shoulder, blade, uses_check_character);
    let check = spec_check_character(shoulder + blade);
    let tail = if uses_check_character {
        blade.push(check)
    } else {
        blade
    };
    assert(is_betanumeric_char(betanumeric_symbol(checksum_total(shoulder + blade) % 29))) by {
        lemma_symbol_is_betanumeric(checksum_total(shoulder + blade) % 29);
    }
    assert(all_betanumeric(tail));
    assert(s =~= ark_prefix() + naan + seq!['/'] + shoulder + tail);
    let nl = naan.len() as int;
    let sl = shoulder.len() as int;
    // The alternate prefix form is absent: the character after `ark:` is the
    // NAAN's first character, which is not a slash.
    assert(s[4] == naan[0]);
    assert(!has_slash_prefix_form(s)) by {
        if has_slash_prefix_form(s) {
            assert(s.subrange(0, 5)[4] == '/');
        }
    }
    let c = spec_collapse_prefix(s);
    assert(c == s);
    assert(has_ark_prefix(c)) by {
        assert(c.subrange(0, 4) =~= ark_prefix());
    }
    // The slash after the NAAN is the first one at or after the prefix.
    assert(s[4 + nl] == '/');
    assert(forall|k: int| 4 <= k < 4 + nl ==> s[k] == naan[k - 4] && s[k] != '/');
    lemma_find_char_unique(s, 4, '/', 4 + nl);
    assert(spec_naan_slash(s) == Some(4 + nl));
    assert(spec_naan(s) =~= naan);
    let rest = spec_rest(s);
    assert(rest =~= shoulder + tail);
    // Neither the shoulder nor the blade holds a query marker, so the whole
    // rest is scanned for the shoulder's digit.
    assert(forall|k: int| 0 <= k < rest.len() ==> rest[k] != '?') by {
        assert(forall|k: int|
            sl <= k < rest.len() ==> rest[k] == tail[k - sl] && is_betanumeric_char(tail[k - sl]));
    }
    lemma_find_char_absent(rest, 0, '?');
    assert(query_free_len(rest) == rest.len());
    let scan = rest.take(query_free_len(rest));
    assert(scan =~= rest);
    // The first digit of the rest is the shoulder's final character.
    assert(is_ascii_digit_char(scan[sl - 1]));
    assert(forall|k: int| 0 <= k < sl - 1 ==> !is_ascii_digit_char(scan[k]));
    lemma_find_digit_unique(scan, 0, sl - 1);
    assert(spec_shoulder_digit(s) == Some(sl - 1));
    assert(spec_parse_ok(s));
    assert(spec_shoulder(s) =~= shoulder);
    let after = spec_after_shoulder(s);
    assert(after =~= tail);
    // The blade (and any check character) is betanumeric, so no separator
    // follows the shoulder: the whole remainder is the blade.
    assert(forall|k: int| 0 <= k < after.len() ==> !(after[k] == '/' || after[k] == '?'));
    lemma_find_separator_absent(after, 0);
    assert(spec_blade(s) == after);
    assert(spec_qualifier(s) == Seq::<char>::empty());
}

/// The blade length that applies to a shoulder: its own override, or the
/// service default.
pub open spec fn spec_blade_length_for(config: crate::shoulder::Shoulder, default: usize) -> usize {
    match config.blade_length {
        Some(l) => l,
        None => default,
    }
}

/// Mint a batch of identifiers for a registered shoulder.
///
/// Fails only when the shoulder is not registered. The requested count is
/// capped at the configured maximum; every minted identifier uses the
/// shoulder's blade length (or the service default) and the shoulder's check
/// character setting.
pub fn mint_arks(state: &AppState, shoulder: &str, count: usize) -> (r: Result<
    Vec<String>,
    AppError,
>)
    ensures
        r is Ok <==> state.shoulders.spec_contains(shoulder@),
        r matches Err(e) ==> e == AppError::ShoulderNotFound,
        r matches Ok(v) ==> {
            let config = state.shoulders.spec_get(shoulder@)->0;
            let blade_length = spec_blade_length_for(config, state.default_blade_length);
            &&& v@.len() == if count <= state.max_mint_count {
                count as int
            } else {
                state.max_mint_count as int
            }
            &&& forall|k: int|
                0 <= k < v@.len() ==> is_minted(
                    v@[k]@,
                    state.naan@,
                    shoulder@,
                    blade_length as int,
                    config.uses_check_character,
                )
        },
{
    let config = match state.shoulders.get(shoulder) {
        Some(c) => c,
        None => {
            return Err(AppError::ShoulderNotFound);
        },
    };
    let capped = if count < state.max_mint_count {
        count
    } else {
        state.max_mint_count
    };
    let blade_length = match config.blade_length {
        Some(l) => l,
        None => state.default_blade_length,
    };
    let mut arks: Vec<String> = Vec::new();
    let mut i: usize = 0;
    while i < capped
        invariant
            i <= capped,
            arks@.len() == i,
            state.shoulders.spec_get(shoulder@) == Some(*config),
            blade_length == spec_blade_length_for(*config, state.default_blade_length),
            forall|k: int|
                0 <= k < i ==> is_minted(
                    arks@[k]@,
                    state.naan@,
                    shoulder@,
                    blade_length as int,
                    config.uses_check_character,
                ),
        decreases capped - i,
    {
        let ark = mint_ark(state.naan.as_str(), shoulder, blade_length, config.uses_check_character);
        arks.push(ark);
        i = i + 1;
    }
    Ok(arks)
}

} // verus!
