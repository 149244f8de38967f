//! Equivalence laws of the normalized comparison form: which edits to an
//! identifier string leave its normalized form — and therefore `Ark`
//! equality — unchanged.
//!
//! Appending a query string, inserting a hyphen-like or white space
//! character after the scheme prefix, lowercasing a character of the NAAN,
//! and appending a trailing `/` or `.` all normalize away. Since two `Ark`
//! values compare equal exactly when their normalized forms are equal,
//! strings differing only in these ways parse to equal identifiers.

use vstd::prelude::*;

use crate::ark::{
    ark_prefix, has_ark_prefix, has_slash_prefix_form, is_inert_char, lemma_ascii_lower_props,
    lower_seq, query_free_len, spec_after_shoulder, spec_blade, spec_collapse_prefix,
    spec_lower_naan, spec_naan, spec_naan_slash, spec_normalize, spec_parse_ok, spec_rest,
    spec_shoulder, spec_shoulder_digit, spec_strip_inert, spec_strip_query, spec_trim_trailing,
    Ark,
};
use crate::text::{
    ascii_lower_char, find_char_at_or_after, find_digit_at_or_after, find_separator_at_or_after,
    lemma_find_char_absent, lemma_find_char_at_or_after, lemma_find_char_unique,
    lemma_find_digit_absent, lemma_find_digit_at_or_after, lemma_find_digit_unique,
    lemma_find_separator_at_or_after, lemma_find_separator_unique,
};
use vstd::std_specs::cmp::PartialEqSpec;

verus! {

/// Removing identity-inert characters distributes over concatenation.
proof fn lemma_strip_inert_distributes(a: Seq<char>, b: Seq<char>)
    ensures
        spec_strip_inert(a + b) == spec_strip_inert(a) + spec_strip_inert(b),
    decreases b.len(),
{
    if b.len() == 0 {
        assert(a + b =~= a);
        assert(spec_strip_inert(a) + spec_strip_inert(b) =~= spec_strip_inert(a));
    } else {
        lemma_strip_inert_distributes(a, b.drop_last());
        assert((a + b).drop_last() =~= a + b.drop_last());
        assert((a + b).last() == b.last());
        if !is_inert_char(b.last()) {
            assert(spec_strip_inert(a) + spec_strip_inert(b.drop_last()).push(b.last()) =~= (
            spec_strip_inert(a) + spec_strip_inert(b.drop_last())).push(b.last()));
        }
    }
}

/// A sequence without identity-inert characters is unchanged by the strip.
proof fn lemma_strip_inert_clean(s: Seq<char>)
    requires
        forall|k: int| 0 <= k < s.len() ==> !is_inert_char(s[k]),
    ensures
        spec_strip_inert(s) == s,
    decreases s.len(),
{
    if s.len() > 0 {
        lemma_strip_inert_clean(s.drop_last());
        assert(spec_strip_inert(s.drop_last()).push(s.last()) =~= s);
    }
}

/// Appending a query string leaves the normalized form unchanged: the
/// normalization strips everything from the first `?` onward.
pub proof fn lemma_normalize_append_query(s: Seq<char>, q: Seq<char>)
    ensures
        spec_normalize(s + seq!['?'] + q) == spec_normalize(s),
{
    let s2 = s + seq!['?'] + q;
    lemma_find_char_at_or_after(s, 0, '?');
    match find_char_at_or_after(s, 0, '?') {
        Some(p) => {
            assert(s2[p] == '?');
            assert(forall|k: int| 0 <= k < p ==> s2[k] == s[k] && s2[k] != '?');
            lemma_find_char_unique(s2, 0, '?', p);
            assert(spec_strip_query(s2) =~= spec_strip_query(s));
        },
        None => {
            let n = s.len() as int;
            assert(s2[n] == '?');
            assert(forall|k: int| 0 <= k < n ==> s2[k] == s[k] && s2[k] != '?');
            lemma_find_char_unique(s2, 0, '?', n);
            assert(spec_strip_query(s2) =~= s);
            assert(spec_strip_query(s) =~= s);
        },
    }
}

/// Inserting a hyphen-like or white space character anywhere at or after
/// the scheme prefix leaves the normalized form unchanged: either it lands
/// in the stripped query part, or the inert-character strip removes it.
pub proof fn lemma_normalize_insert_inert(s: Seq<char>, i: int, c: char)
    requires
        is_inert_char(c),
        5 <= i <= s.len(),
    ensures
        spec_normalize(s.insert(i, c)) == spec_normalize(s),
{
    let s2 = s.insert(i, c);
    assert(c != '?');
    lemma_find_char_at_or_after(s, 0, '?');
    let f = find_char_at_or_after(s, 0, '?');
    if f is Some && f->0 < i {
        let p = f->0;
        assert(s2[p] == '?');
        assert(forall|k: int| 0 <= k < p ==> s2[k] == s[k] && s2[k] != '?');
        lemma_find_char_unique(s2, 0, '?', p);
        assert(spec_strip_query(s2) =~= spec_strip_query(s));
    } else {
        let t = spec_strip_query(s);
        let ql = if f is Some {
            f->0
        } else {
            s.len() as int
        };
        assert(i <= ql <= s.len());
        assert(t =~= s.take(ql));
        match f {
            Some(p) => {
                assert(s2[p + 1] == '?');
                assert(forall|k: int| 0 <= k < p + 1 ==> s2[k] != '?');
                lemma_find_char_unique(s2, 0, '?', p + 1);
                assert(spec_strip_query(s2) =~= t.insert(i, c));
            },
            None => {
                assert(forall|k: int| 0 <= k < s2.len() ==> s2[k] != '?');
                lemma_find_char_absent(s2, 0, '?');
                assert(spec_strip_query(s2) =~= t.insert(i, c));
            },
        }
        let t2 = t.insert(i, c);
        assert(t.len() >= 5);
        assert(t2.subrange(0, 5) =~= t.subrange(0, 5));
        let j: int = if has_slash_prefix_form(t) {
            i - 1
        } else {
            i
        };
        let u = spec_collapse_prefix(t);
        assert(spec_collapse_prefix(t2) =~= u.insert(j, c)) by {
            if has_slash_prefix_form(t) {
                assert(has_slash_prefix_form(t2));
                assert(t2.skip(5) =~= t.skip(5).insert(i - 5, c));
                assert(ark_prefix() + t.skip(5).insert(i - 5, c) =~= (ark_prefix() + t.skip(
                    5,
                )).insert(i - 1, c));
            } else {
                assert(!has_slash_prefix_form(t2));
            }
        }
        assert(0 <= j <= u.len());
        assert(u.insert(j, c) =~= u.take(j) + seq![c] + u.skip(j));
        lemma_strip_inert_distributes(u.take(j), seq![c]);
        assert(spec_strip_inert(seq![c]) == Seq::<char>::empty()) by {
            let one = seq![c];
            assert(one.len() == 1);
            assert(one.drop_last() =~= Seq::<char>::empty());
            assert(one.last() == c);
            assert(spec_strip_inert(Seq::<char>::empty()) == Seq::<char>::empty());
            assert(spec_strip_inert(one.drop_last()) == Seq::<char>::empty());
        }
        assert(spec_strip_inert(u.take(j) + seq![c]) =~= spec_strip_inert(u.take(j)));
        lemma_strip_inert_distributes(u.take(j) + seq![c], u.skip(j));
        lemma_strip_inert_distributes(u.take(j), u.skip(j));
        assert(u.take(j) + u.skip(j) =~= u);
        assert(spec_strip_inert(u.insert(j, c)) == spec_strip_inert(u));
    }
}

/// Two strings with their first slash at the same position, and none before
/// it, agree on the slash found at or after the scheme prefix.
proof fn lemma_find_char_unique_from4(s: Seq<char>, s2: Seq<char>, p: int)
    requires
        4 <= p < s.len(),
        p < s2.len(),
        s[p] == '/',
        s2[p] == '/',
        forall|k: int| 0 <= k < p ==> s[k] != '/',
        forall|k: int| 0 <= k < p ==> s2[k] != '/',
    ensures
        find_char_at_or_after(s, 4, '/') == Some(p),
        find_char_at_or_after(s2, 4, '/') == Some(p),
{
    lemma_find_char_unique(s, 4, '/', p);
    lemma_find_char_unique(s2, 4, '/', p);
}

/// Lowercasing a character of the NAAN segment leaves the normalized form
/// unchanged, for strings already free of query markers, inert characters
/// and the alternate prefix form.
pub proof fn lemma_normalize_naan_case(s: Seq<char>, i: int)
    requires
        forall|k: int| 0 <= k < s.len() ==> s[k] != '?',
        !has_slash_prefix_form(s),
        forall|k: int| 0 <= k < s.len() ==> !is_inert_char(s[k]),
        4 <= i < s.len(),
        ({
            let f = find_char_at_or_after(s, 0, '/');
            f is Some && f->0 > 4 && i < f->0
        }),
    ensures
        spec_normalize(s.update(i, ascii_lower_char(s[i]))) == spec_normalize(s),
        spec_parse_ok(s.update(i, ascii_lower_char(s[i]))) == spec_parse_ok(s),
        spec_rest(s.update(i, ascii_lower_char(s[i]))) == spec_rest(s),
{
    let lc = ascii_lower_char(s[i]);
    lemma_ascii_lower_props(s[i]);
    let s2 = s.update(i, lc);
    let p = find_char_at_or_after(s, 0, '/')->0;
    lemma_find_char_at_or_after(s, 0, '/');
    assert(s[i] != '/');
    // The query strip is the identity on both strings.
    assert(forall|k: int| 0 <= k < s2.len() ==> s2[k] != '?');
    lemma_find_char_absent(s, 0, '?');
    lemma_find_char_absent(s2, 0, '?');
    assert(spec_strip_query(s) =~= s);
    assert(spec_strip_query(s2) =~= s2);
    // So is the prefix collapse: the replaced character is never a slash.
    assert(!has_slash_prefix_form(s2)) by {
        if has_slash_prefix_form(s2) {
            if i >= 5 {
                assert(s2.subrange(0, 5) =~= s.subrange(0, 5));
            } else {
                assert(s2.subrange(0, 5)[4] == lc);
            }
        }
    }
    // And the inert-character strip.
    assert(forall|k: int| 0 <= k < s2.len() ==> !is_inert_char(s2[k]));
    lemma_strip_inert_clean(s);
    lemma_strip_inert_clean(s2);
    // The first slash is unchanged, so the lowercased region is the same,
    // and lowercasing is idempotent at the updated position.
    assert(s2[p] == '/');
    assert(forall|k: int| 0 <= k < p ==> s2[k] != '/');
    lemma_find_char_unique(s2, 0, '/', p);
    // Structurally the two strings agree: same collapse, same slash, and an
    // untouched remainder after it.
    assert(spec_collapse_prefix(s) == s && spec_collapse_prefix(s2) == s2);
    assert(has_ark_prefix(s2) == has_ark_prefix(s)) by {
        assert(s2.subrange(0, 4) =~= s.subrange(0, 4));
    }
    lemma_find_char_unique_from4(s, s2, p);
    assert(spec_rest(s2) =~= spec_rest(s));
    assert(spec_shoulder_digit(s2) == spec_shoulder_digit(s));
    assert(spec_lower_naan(s2) =~= spec_lower_naan(s)) by {
        assert(s2.take(4) =~= s.take(4));
        assert(s2.skip(p) =~= s.skip(p));
        assert(lower_seq(s2.subrange(4, p)) =~= lower_seq(s.subrange(4, p))) by {
            assert(forall|k: int|
                0 <= k < p - 4 && k != i - 4 ==> s2.subrange(4, p)[k] == s.subrange(4, p)[k]);
            assert(s2.subrange(4, p)[i - 4] == lc);
            assert(ascii_lower_char(lc) == ascii_lower_char(s[i]));
        }
    }
}

/// Appending a trailing `/` or `.` leaves the normalized form unchanged:
/// the trailing trim removes it. For a trailing slash the string must
/// already carry a slash (or be no longer than the scheme prefix once
/// stripped), so that the appended slash does not change which segment is
/// lowercased as the NAAN.
pub proof fn lemma_normalize_append_trailing(s: Seq<char>, c: char)
    requires
        c == '.' || c == '/',
        c == '/' ==> ({
            let u = spec_strip_inert(spec_collapse_prefix(spec_strip_query(s)));
            find_char_at_or_after(u, 0, '/') is Some || u.len() <= 4
        }),
    ensures
        spec_normalize(s.push(c)) == spec_normalize(s),
{
    let s2 = s.push(c);
    lemma_find_char_at_or_after(s, 0, '?');
    match find_char_at_or_after(s, 0, '?') {
        Some(p) => {
            assert(s2[p] == '?');
            assert(forall|k: int| 0 <= k < p ==> s2[k] == s[k] && s2[k] != '?');
            lemma_find_char_unique(s2, 0, '?', p);
            assert(spec_strip_query(s2) =~= spec_strip_query(s));
        },
        None => {
            let t = s;
            assert(forall|k: int| 0 <= k < s2.len() ==> s2[k] != '?');
            lemma_find_char_absent(s2, 0, '?');
            assert(spec_strip_query(s2) =~= s2);
            assert(spec_strip_query(s) =~= s);
            let u0 = spec_collapse_prefix(t);
            if has_slash_prefix_form(t.push(c)) && !has_slash_prefix_form(t) {
                // Only a bare scheme prefix gaining a slash: both collapse
                // to the prefix itself, and the normalized forms coincide.
                assert(t.len() == 4) by {
                    if t.len() >= 5 {
                        assert(t.push(c).subrange(0, 5) =~= t.subrange(0, 5));
                    }
                }
                assert(t =~= ark_prefix());
                assert((t.push(c)).skip(5) =~= Seq::<char>::empty());
                assert(ark_prefix() + Seq::<char>::empty() =~= ark_prefix());
                assert(spec_collapse_prefix(t.push(c)) == u0);
            } else {
                assert(spec_collapse_prefix(t.push(c)) =~= u0.push(c)) by {
                    if has_slash_prefix_form(t) {
                        assert(has_slash_prefix_form(t.push(c))) by {
                            assert(t.push(c).subrange(0, 5) =~= t.subrange(0, 5));
                        }
                        assert((t.push(c)).skip(5) =~= t.skip(5).push(c));
                        assert(ark_prefix() + t.skip(5).push(c) =~= (ark_prefix() + t.skip(
                            5,
                        )).push(c));
                    }
                }
                let u = spec_strip_inert(u0);
                assert(!is_inert_char(c));
                assert((u0.push(c)).drop_last() =~= u0);
                assert(spec_strip_inert(u0.push(c)) == u.push(c));
                lemma_find_char_at_or_after(u, 0, '/');
                match find_char_at_or_after(u, 0, '/') {
                    Some(p) => {
                        assert(u.push(c)[p] == '/');
                        assert(forall|k: int| 0 <= k < p ==> u.push(c)[k] != '/');
                        lemma_find_char_unique(u.push(c), 0, '/', p);
                        if p > 4 {
                            assert(spec_lower_naan(u.push(c)) =~= spec_lower_naan(u).push(c)) by {
                                assert((u.push(c)).take(4) =~= u.take(4));
                                assert((u.push(c)).subrange(4, p) =~= u.subrange(4, p));
                                assert((u.push(c)).skip(p) =~= u.skip(p).push(c));
                                assert(u.take(4) + lower_seq(u.subrange(4, p)) + u.skip(p).push(c)
                                    =~= (u.take(4) + lower_seq(u.subrange(4, p)) + u.skip(p)).push(
                                    c,
                                ));
                            }
                        } else {
                            assert(spec_lower_naan(u.push(c)) == u.push(c));
                            assert(spec_lower_naan(u) == u);
                        }
                        assert(spec_trim_trailing(spec_lower_naan(u).push(c)) == spec_trim_trailing(
                            spec_lower_naan(u),
                        )) by {
                            assert((spec_lower_naan(u).push(c)).drop_last() =~= spec_lower_naan(u));
                        }
                    },
                    None => {
                        if c == '.' {
                            assert(forall|k: int| 0 <= k < u.push(c).len() ==> u.push(c)[k] != '/');
                            lemma_find_char_absent(u.push(c), 0, '/');
                            assert(spec_lower_naan(u.push(c)) == u.push(c));
                            assert(spec_lower_naan(u) == u);
                        } else {
                            assert(u.len() <= 4);
                            assert(u.push(c)[u.len() as int] == '/');
                            assert(forall|k: int| 0 <= k < u.len() ==> u.push(c)[k] != '/');
                            lemma_find_char_unique(u.push(c), 0, '/', u.len() as int);
                            assert(spec_lower_naan(u.push(c)) == u.push(c));
                            assert(spec_lower_naan(u) == u);
                        }
                        assert(spec_trim_trailing(u.push(c)) == spec_trim_trailing(u)) by {
                            assert((u.push(c)).drop_last() =~= u);
                        }
                    },
                }
            }
        },
    }
}

/// An identity-inert character is structurally neutral: never a slash, a
/// query marker, or an ASCII digit.
proof fn lemma_inert_char_is_structural_noise(c: char)
    requires
        is_inert_char(c),
    ensures
        c != '/',
        c != '?',
        !crate::text::is_ascii_digit_char(c),
{
}

/// Inserting an identity-inert character at or after the scheme prefix
/// neither makes an unparseable string parseable nor the reverse, and
/// leaves the normalized form unchanged: the two strings parse to equal
/// identifiers or both fail.
#[verifier::rlimit(100)]
pub proof fn lemma_parse_insert_inert(s: Seq<char>, i: int, c: char)
    requires
        is_inert_char(c),
        5 <= i <= s.len(),
    ensures
        spec_parse_ok(s.insert(i, c)) == spec_parse_ok(s),
        spec_normalize(s.insert(i, c)) == spec_normalize(s),
{
    lemma_normalize_insert_inert(s, i, c);
    lemma_inert_char_is_structural_noise(c);
    let s2 = s.insert(i, c);
    // The prefix collapse fires on both strings or on neither, and the
    // collapsed strings relate by an insertion behind the prefix.
    assert(s2.subrange(0, 5) =~= s.subrange(0, 5));
    assert(has_slash_prefix_form(s2) == has_slash_prefix_form(s));
    let j: int = if has_slash_prefix_form(s) {
        i - 1
    } else {
        i
    };
    let c0 = spec_collapse_prefix(s);
    let c02 = spec_collapse_prefix(s2);
    assert(c02 =~= c0.insert(j, c)) by {
        if has_slash_prefix_form(s) {
            assert(s2.skip(5) =~= s.skip(5).insert(i - 5, c));
            assert(ark_prefix() + s.skip(5).insert(i - 5, c) =~= (ark_prefix() + s.skip(
                5,
            )).insert(i - 1, c));
        }
    }
    assert(4 <= j <= c0.len());
    assert(forall|k: int| 0 <= k < j ==> c02[k] == c0[k]);
    assert(c02[j] == c);
    assert(forall|k: int| j < k < c02.len() ==> c02[k] == c0[k - 1]);
    assert(has_ark_prefix(c02) == has_ark_prefix(c0)) by {
        assert(c02.subrange(0, 4) =~= c0.subrange(0, 4));
    }
    // The slash after the NAAN survives the insertion, shifted when the
    // inserted character lies before it.
    lemma_find_char_at_or_after(c0, 4, '/');
    match find_char_at_or_after(c0, 4, '/') {
        None => {
            assert(forall|k: int| 4 <= k < c02.len() ==> c02[k] != '/');
            lemma_find_char_absent(c02, 4, '/');
            assert(!spec_parse_ok(s) && !spec_parse_ok(s2));
        },
        Some(p) => {
            if j <= p {
                assert(c02[p + 1] == '/');
                assert(forall|k: int| 4 <= k < p + 1 ==> c02[k] != '/');
                lemma_find_char_unique(c02, 4, '/', p + 1);
                assert(spec_naan_slash(s2) == Some(p + 1));
                // The inserted character lands in the NAAN: everything after
                // the slash is untouched.
                assert(spec_rest(s2) =~= spec_rest(s));
                assert(spec_shoulder_digit(s2) == spec_shoulder_digit(s));
                assert(spec_parse_ok(s2) == spec_parse_ok(s));
            } else {
                assert(c02[p] == '/');
                assert(forall|k: int| 4 <= k < p ==> c02[k] != '/');
                lemma_find_char_unique(c02, 4, '/', p);
                assert(spec_naan_slash(s2) == Some(p));
                let rest = spec_rest(s);
                let m = j - p - 1;
                let rest2 = spec_rest(s2);
                assert(rest2 =~= rest.insert(m, c));
                assert(forall|k: int| 0 <= k < m ==> rest2[k] == rest[k]);
                assert(rest2[m] == c);
                assert(forall|k: int| m < k < rest2.len() ==> rest2[k] == rest[k - 1]);
                // The query-free scan region gains at most the inserted
                // character, which is not a digit, so the shoulder digit is
                // found on both sides or on neither.
                lemma_find_char_at_or_after(rest, 0, '?');
                let scan = rest.take(query_free_len(rest));
                let ghost scan2 = rest2.take(query_free_len(rest2));
                match find_char_at_or_after(rest, 0, '?') {
                    Some(q0) => {
                        if q0 < m {
                            assert(rest2[q0] == '?');
                            assert(forall|k: int| 0 <= k < q0 ==> rest2[k] != '?');
                            lemma_find_char_unique(rest2, 0, '?', q0);
                            assert(scan2 =~= scan);
                        } else {
                            assert(rest2[q0 + 1] == '?');
                            assert(forall|k: int| 0 <= k < q0 + 1 ==> rest2[k] != '?');
                            lemma_find_char_unique(rest2, 0, '?', q0 + 1);
                            assert(scan2 =~= scan.insert(m, c));
                        }
                    },
                    None => {
                        assert(forall|k: int| 0 <= k < rest2.len() ==> rest2[k] != '?');
                        lemma_find_char_absent(rest2, 0, '?');
                        assert(scan2 =~= scan.insert(m, c));
                    },
                }
                lemma_find_digit_at_or_after(scan, 0);
                if scan2 == scan {
                    assert(spec_shoulder_digit(s2) == spec_shoulder_digit(s));
                } else {
                    assert(scan2 == scan.insert(m, c));
                    assert(0 <= m <= scan.len());
                    assert(forall|k: int| 0 <= k < m ==> scan2[k] == scan[k]);
                    assert(scan2[m] == c);
                    assert(forall|k: int| m < k < scan2.len() ==> scan2[k] == scan[k - 1]);
                    match find_digit_at_or_after(scan, 0) {
                        Some(d) => {
                            if m <= d {
                                assert(crate::text::is_ascii_digit_char(scan2[d + 1]));
                                assert(forall|k: int|
                                    0 <= k < d + 1 ==> !crate::text::is_ascii_digit_char(
                                        scan2[k],
                                    ));
                                lemma_find_digit_unique(scan2, 0, d + 1);
                            } else {
                                assert(crate::text::is_ascii_digit_char(scan2[d]));
                                assert(forall|k: int|
                                    0 <= k < d ==> !crate::text::is_ascii_digit_char(scan2[k]));
                                lemma_find_digit_unique(scan2, 0, d);
                            }
                            assert(spec_shoulder_digit(s2) is Some);
                        },
                        None => {
                            assert(forall|k: int|
                                0 <= k < scan2.len() ==> !crate::text::is_ascii_digit_char(
                                    scan2[k],
                                ));
                            lemma_find_digit_absent(scan2, 0);
                            assert(spec_shoulder_digit(s2) is None);
                        },
                    }
                }
                assert(spec_parse_ok(s2) == spec_parse_ok(s));
            }
        },
    }
}

/// Appending a query string to a parseable identifier keeps it parseable
/// and leaves the NAAN, shoulder and blade unchanged, along with the
/// normalized form; only the qualifier may change.
pub proof fn lemma_parse_append_query(s: Seq<char>, q: Seq<char>)
    requires
        spec_parse_ok(s),
    ensures
        spec_parse_ok(s + seq!['?'] + q),
        spec_naan(s + seq!['?'] + q) == spec_naan(s),
        spec_shoulder(s + seq!['?'] + q) == spec_shoulder(s),
        spec_blade(s + seq!['?'] + q) == spec_blade(s),
        spec_normalize(s + seq!['?'] + q) == spec_normalize(s),
{
    let s2 = s + seq!['?'] + q;
    lemma_normalize_append_query(s, q);
    // The prefix collapse fires on both strings or on neither.
    assert(has_slash_prefix_form(s2) == has_slash_prefix_form(s)) by {
        if s.len() >= 5 {
            assert(s2.subrange(0, 5) =~= s.subrange(0, 5));
        } else {
            if has_slash_prefix_form(s2) {
                assert(s2.subrange(0, 5)[s.len() as int] == '?');
            }
        }
    }
    let c = spec_collapse_prefix(s);
    let c2 = spec_collapse_prefix(s2);
    assert(c2 =~= c + seq!['?'] + q) by {
        if has_slash_prefix_form(s) {
            assert(s2.skip(5) =~= s.skip(5) + seq!['?'] + q);
        }
    }
    assert(has_ark_prefix(c2)) by {
        assert(c2.subrange(0, 4) =~= c.subrange(0, 4));
    }
    // The slash after the NAAN is unchanged: the appended text lies after it.
    lemma_find_char_at_or_after(c, 4, '/');
    let p = spec_naan_slash(s)->0;
    assert(c2[p] == '/');
    assert(forall|k: int| 4 <= k < p ==> c2[k] == c[k] && c2[k] != '/');
    lemma_find_char_unique(c2, 4, '/', p);
    assert(spec_naan_slash(s2) == Some(p));
    assert(spec_naan(s2) =~= spec_naan(s));
    let rest = spec_rest(s);
    let rest2 = spec_rest(s2);
    assert(rest2 =~= rest + seq!['?'] + q);
    // The query-free scan region is unchanged: the appended `?` begins at or
    // after any `?` the rest already had.
    lemma_find_char_at_or_after(rest, 0, '?');
    let scan = rest.take(query_free_len(rest));
    match find_char_at_or_after(rest, 0, '?') {
        Some(q0) => {
            assert(rest2[q0] == '?');
            assert(forall|k: int| 0 <= k < q0 ==> rest2[k] == rest[k] && rest2[k] != '?');
            lemma_find_char_unique(rest2, 0, '?', q0);
            assert(rest2.take(query_free_len(rest2)) =~= scan);
        },
        None => {
            let n = rest.len() as int;
            assert(rest2[n] == '?');
            assert(forall|k: int| 0 <= k < n ==> rest2[k] == rest[k] && rest2[k] != '?');
            lemma_find_char_unique(rest2, 0, '?', n);
            assert(rest2.take(query_free_len(rest2)) =~= scan);
        },
    }
    assert(spec_shoulder_digit(s2) == spec_shoulder_digit(s));
    let d = spec_shoulder_digit(s)->0;
    lemma_find_digit_at_or_after(scan, 0);
    assert(0 <= d < scan.len());
    assert(spec_shoulder(s2) =~= spec_shoulder(s));
    // The blade ends at the same separator, or at the appended `?` when the
    // remainder had none; either way it is unchanged.
    let after = spec_after_shoulder(s);
    let after2 = spec_after_shoulder(s2);
    assert(after2 =~= after + seq!['?'] + q);
    lemma_find_separator_at_or_after(after, 0);
    match find_separator_at_or_after(after, 0) {
        Some(p1) => {
            assert(after2[p1] == after[p1]);
            assert(forall|k: int|
                0 <= k < p1 ==> after2[k] == after[k] && !(after2[k] == '/' || after2[k] == '?'));
            lemma_find_separator_unique(after2, 0, p1);
            assert(spec_blade(s2) =~= spec_blade(s));
        },
        None => {
            let m = after.len() as int;
            assert(after2[m] == '?');
            assert(forall|k: int|
                0 <= k < m ==> after2[k] == after[k] && !(after2[k] == '/' || after2[k] == '?'));
            lemma_find_separator_unique(after2, 0, m);
            assert(spec_blade(s2) =~= after2.take(m));
            assert(after2.take(m) =~= after);
        },
    }
}

/// Identifier equality is equality of the normalized forms: two parsed
/// identifiers whose normalized forms agree compare equal, whatever their
/// structural fields hold.
pub proof fn lemma_equal_normalized_arks(a1: Ark, a2: Ark)
    requires
        a1.normalized_ark@ == a2.normalized_ark@,
    ensures
        a1.eq_spec(&a2),
{
}

} // verus!
