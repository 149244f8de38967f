//! ARK identifier parsing and normalization.
//!
//! An ARK string is split into NAAN, shoulder, blade and qualifier, all kept
//! exactly as received (only the alternate `ark:/` prefix form is collapsed
//! to `ark:`). Alongside the structural fields, a fully normalized form is
//! computed and used for equality comparison only: the query string is
//! stripped, whitespace and hyphen-like characters are removed, the NAAN is
//! lowercased, and trailing `/` and `.` characters are trimmed.

use vstd::prelude::*;

use crate::text::{
    ascii_lower_char, ascii_lower_of, chars_to_string, find_char_at_or_after, find_char_from,
    find_digit_at_or_after, find_digit_from, find_separator_at_or_after, find_separator_from,
    matches_at, matches_at_of, push_all, subvec, to_char_vec,
};

verus! {

/// The identifier scheme prefix, `ark:`.
pub open spec fn ark_prefix() -> Seq<char> {
    seq!['a', 'r', 'k', ':']
}

/// The alternate prefix form, `ark:/`.
pub open spec fn ark_slash_prefix() -> Seq<char> {
    seq!['a', 'r', 'k', ':', '/']
}

/// The string begins with the alternate `ark:/` prefix form.
pub open spec fn has_slash_prefix_form(s: Seq<char>) -> bool {
    s.len() >= 5 && s.subrange(0, 5) == ark_slash_prefix()
}

/// Collapse the alternate `ark:/` prefix form to `ark:`; other strings are
/// unchanged.
pub open spec fn spec_collapse_prefix(s: Seq<char>) -> Seq<char> {
    if has_slash_prefix_form(s) {
        ark_prefix() + s.skip(5)
    } else {
        s
    }
}

/// The string begins with the scheme prefix `ark:`.
pub open spec fn has_ark_prefix(s: Seq<char>) -> bool {
    s.len() >= 4 && s.subrange(0, 4) == ark_prefix()
}

/// Position of the `/` separating the NAAN from the rest, in the collapsed
/// string.
pub open spec fn spec_naan_slash(s: Seq<char>) -> Option<int> {
    find_char_at_or_after(spec_collapse_prefix(s), 4, '/')
}

/// The NAAN component: between the scheme prefix and the first `/`.
pub open spec fn spec_naan(s: Seq<char>) -> Seq<char> {
    spec_collapse_prefix(s).subrange(4, spec_naan_slash(s)->0)
}

/// Everything after the `/` that follows the NAAN.
pub open spec fn spec_rest(s: Seq<char>) -> Seq<char> {
    spec_collapse_prefix(s).skip(spec_naan_slash(s)->0 + 1)
}

/// The length of the query-free prefix of a sequence: up to the first `?`.
pub open spec fn query_free_len(s: Seq<char>) -> int {
    match find_char_at_or_after(s, 0, '?') {
        Some(q) => q,
        None => s.len() as int,
    }
}

/// Position of the first ASCII digit in the query-free part of the rest:
/// the last character of the shoulder.
pub open spec fn spec_shoulder_digit(s: Seq<char>) -> Option<int> {
    find_digit_at_or_after(spec_rest(s).take(query_free_len(spec_rest(s))), 0)
}

/// The string parses as an ARK: it carries the scheme prefix, a `/` follows
/// the NAAN, and an ASCII digit ends the shoulder before any query string.
pub open spec fn spec_parse_ok(s: Seq<char>) -> bool {
    &&& has_ark_prefix(spec_collapse_prefix(s))
    &&& spec_naan_slash(s) is Some
    &&& spec_shoulder_digit(s) is Some
}

/// The shoulder component: the shortest leading run of the rest up to and
/// including its first ASCII digit.
pub open spec fn spec_shoulder(s: Seq<char>) -> Seq<char> {
    spec_rest(s).take(spec_shoulder_digit(s)->0 + 1)
}

/// Everything after the shoulder.
pub open spec fn spec_after_shoulder(s: Seq<char>) -> Seq<char> {
    spec_rest(s).skip(spec_shoulder_digit(s)->0 + 1)
}

/// The blade component: everything after the shoulder up to the first `/`
/// or `?`, or to the end when neither occurs.
pub open spec fn spec_blade(s: Seq<char>) -> Seq<char> {
    let after = spec_after_shoulder(s);
    match find_separator_at_or_after(after, 0) {
        Some(p) => after.take(p),
        None => after,
    }
}

/// The qualifier component: everything after the blade. A `/` separator is
/// consumed; a `?` separator is kept as the first qualifier character.
pub open spec fn spec_qualifier(s: Seq<char>) -> Seq<char> {
    let after = spec_after_shoulder(s);
    match find_separator_at_or_after(after, 0) {
        Some(p) => if after[p] == '/' {
            after.skip(p + 1)
        } else {
            after.skip(p)
        },
        None => Seq::empty(),
    }
}

/// The six hyphen-like code points that are removed during normalization,
/// together with the ASCII hyphen.
pub open spec fn is_removed_hyphen(c: char) -> bool {
    c == '-' || c == '\u{2010}' || c == '\u{2011}' || c == '\u{2012}' || c == '\u{2013}' || c
        == '\u{2014}' || c == '\u{2015}'
}

/// The Unicode white space characters, as removed during normalization.
pub open spec fn is_whitespace_char(c: char) -> bool {
    c == ' ' || c == '\t' || c == '\n' || c == '\r' || c == '\u{b}' || c == '\u{c}' || c
        == '\u{85}' || c == '\u{a0}' || c == '\u{1680}' || ('\u{2000}' as u32 <= c as u32 && c
        as u32 <= '\u{200a}' as u32) || c == '\u{2028}' || c == '\u{2029}' || c == '\u{202f}' || c
        == '\u{205f}' || c == '\u{3000}'
}

/// Characters that are identity-inert: removed when computing the normalized
/// comparison form.
pub open spec fn is_inert_char(c: char) -> bool {
    is_whitespace_char(c) || is_removed_hyphen(c)
}

/// Remove the query string: everything from the first `?` onward.
pub open spec fn spec_strip_query(s: Seq<char>) -> Seq<char> {
    s.take(query_free_len(s))
}

/// Remove all identity-inert characters.
pub open spec fn spec_strip_inert(s: Seq<char>) -> Seq<char>
    decreases s.len(),
{
    if s.len() == 0 {
        Seq::empty()
    } else {
        let rest = spec_strip_inert(s.drop_last());
        if is_inert_char(s.last()) {
            rest
        } else {
            rest.push(s.last())
        }
    }
}

/// ASCII-lowercase every character of a sequence.
pub open spec fn lower_seq(s: Seq<char>) -> Seq<char> {
    Seq::new(s.len(), |i: int| ascii_lower_char(s[i]))
}

/// Lowercase the NAAN segment: the characters between the scheme prefix and
/// the first `/`, provided that `/` lies beyond the prefix.
pub open spec fn spec_lower_naan(s: Seq<char>) -> Seq<char> {
    let slash = find_char_at_or_after(s, 0, '/');
    if slash is Some && slash->0 > 4 {
        s.take(4) + lower_seq(s.subrange(4, slash->0)) + s.skip(slash->0)
    } else {
        s
    }
}

/// Trim trailing `/` and `.` characters.
pub open spec fn spec_trim_trailing(s: Seq<char>) -> Seq<char>
    decreases s.len(),
{
    if s.len() > 0 && (s.last() == '/' || s.last() == '.') {
        spec_trim_trailing(s.drop_last())
    } else {
        s
    }
}

/// The fully normalized comparison form of an ARK string: query string
/// stripped, alternate prefix collapsed, inert characters removed, NAAN
/// lowercased, trailing `/` and `.` trimmed.
pub open spec fn spec_normalize(s: Seq<char>) -> Seq<char> {
    spec_trim_trailing(
        spec_lower_naan(spec_strip_inert(spec_collapse_prefix(spec_strip_query(s)))),
    )
}

/// An ARK identifier parsed into its components.
///
/// The structural fields keep the string as received (only the alternate
/// `ark:/` prefix is collapsed) for use in resolution and forwarding. The
/// `normalized_ark` field holds the fully normalized form and is the sole
/// basis of equality comparison.
#[derive(Debug, Clone)]
pub struct Ark {
    /// The ARK string as received, with only `ark:/` collapsed to `ark:`.
    pub original: String,
    /// The NAAN (Name Assigning Authority Number) as received.
    pub naan: String,
    /// The shoulder (prefix) of the ARK as received.
    pub shoulder: String,
    /// The blade (unique identifier) of the ARK as received.
    pub blade: String,
    /// The qualifier (optional trailing path, including any query string) as
    /// received.
    pub qualifier: String,
    /// Fully normalized form, used for equality comparison only.
    pub normalized_ark: String,
}

impl PartialEq for Ark {
    /// Equality is based solely on the normalized form.
    fn eq(&self, other: &Self) -> (r: bool) {
        self.normalized_ark == other.normalized_ark
    }
}

impl vstd::std_specs::cmp::PartialEqSpecImpl for Ark {
    open spec fn obeys_eq_spec() -> bool {
        true
    }

    open spec fn eq_spec(&self, other: &Ark) -> bool {
        self.normalized_ark@ == other.normalized_ark@
    }
}

impl Eq for Ark {

}

/// Collapse a leading `ark:/` to `ark:`, executable form.
fn collapse_prefix_chars(v: &Vec<char>) -> (out: Vec<char>)
    ensures
        out@ == spec_collapse_prefix(v@),
{
    let pref = vec!['a', 'r', 'k', ':', '/'];
    proof {
        assert(pref@ =~= ark_slash_prefix());
    }
    if matches_at_of(v, 0, &pref) {
        let mut out = subvec(v, 0, 4);
        let tail = subvec(v, 5, v.len());
        push_all(&mut out, &tail);
        proof {
            assert(out@ =~= ark_prefix() + v@.skip(5));
        }
        out
    } else {
        let out = subvec(v, 0, v.len());
        proof {
            assert(out@ =~= v@);
        }
        out
    }
}

/// ASCII lowercasing is idempotent and never produces a query marker, a
/// slash, or an identity-inert character from one that is none of those.
pub proof fn lemma_ascii_lower_props(c: char)
    ensures
        ascii_lower_char(ascii_lower_char(c)) == ascii_lower_char(c),
        c != '?' ==> ascii_lower_char(c) != '?',
        c != '/' ==> ascii_lower_char(c) != '/',
        !is_inert_char(c) ==> !is_inert_char(ascii_lower_char(c)),
{
    reveal(ascii_lower_char);
}

/// White space test, executable form.
pub(crate) fn is_whitespace_of(c: char) -> (r: bool)
    ensures
        r == is_whitespace_char(c),
{
    let u = c as u32;
    c == ' ' || c == '\t' || c == '\n' || c == '\r' || c == '\u{b}' || c == '\u{c}' || c
        == '\u{85}' || c == '\u{a0}' || c == '\u{1680}' || (8192 <= u && u <= 8202) || c
        == '\u{2028}' || c == '\u{2029}' || c == '\u{202f}' || c == '\u{205f}' || c == '\u{3000}'
}

/// Identity-inert character test, executable form.
fn is_inert_of(c: char) -> (r: bool)
    ensures
        r == is_inert_char(c),
{
    let u = c as u32;
    c == ' ' || c == '\t' || c == '\n' || c == '\r' || c == '\u{b}' || c == '\u{c}' || c
        == '\u{85}' || c == '\u{a0}' || c == '\u{1680}' || (8192 <= u && u <= 8202) || c
        == '\u{2028}' || c == '\u{2029}' || c == '\u{202f}' || c == '\u{205f}' || c == '\u{3000}'
        || c == '-' || c == '\u{2010}' || c == '\u{2011}' || c == '\u{2012}' || c == '\u{2013}'
        || c == '\u{2014}' || c == '\u{2015}'
}

/// Remove all identity-inert characters, executable form.
fn strip_inert_chars(v: &Vec<char>) -> (out: Vec<char>)
    ensures
        out@ == spec_strip_inert(v@),
{
    let n = v.len();
    let mut out: Vec<char> = Vec::new();
    let mut i: usize = 0;
    while i < n
        invariant
            i <= n == v@.len(),
            out@ == spec_strip_inert(v@.take(i as int)),
        decreases n - i,
    {
        proof {
            assert(v@.take(i + 1).drop_last() =~= v@.take(i as int));
            assert(v@.take(i + 1).last() == v@[i as int]);
        }
        if !is_inert_of(v[i]) {
            out.push(v[i]);
        }
        i = i + 1;
    }
    proof {
        assert(v@.take(n as int) =~= v@);
    }
    out
}

/// Lowercase the NAAN segment, executable form.
fn lower_naan_chars(v: &Vec<char>) -> (out: Vec<char>)
    ensures
        out@ == spec_lower_naan(v@),
{
    let slash = find_char_from(v, 0, '/');
    match slash {
        Some(p) if p > 4 => {
            proof {
                crate::text::lemma_find_char_at_or_after(v@, 0, '/');
            }
            let mut out = subvec(v, 0, 4);
            let mut i: usize = 4;
            while i < p
                invariant
                    4 <= i <= p <= v@.len(),
                    out@ == v@.take(4) + lower_seq(v@.subrange(4, i as int)),
                decreases p - i,
            {
                out.push(ascii_lower_of(v[i]));
                proof {
                    assert(v@.take(4) + lower_seq(v@.subrange(4, i + 1)) =~= (v@.take(4)
                        + lower_seq(v@.subrange(4, i as int))).push(ascii_lower_char(
                        v@[i as int],
                    )));
                }
                i = i + 1;
            }
            let tail = subvec(v, p, v.len());
            push_all(&mut out, &tail);
            proof {
                assert(out@ =~= v@.take(4) + lower_seq(v@.subrange(4, p as int)) + v@.skip(
                    p as int,
                ));
            }
            out
        },
        _ => {
            let out = subvec(v, 0, v.len());
            proof {
                assert(out@ =~= v@);
            }
            out
        },
    }
}

/// Trim trailing `/` and `.` characters, executable form.
fn trim_trailing_chars(v: Vec<char>) -> (out: Vec<char>)
    ensures
        out@ == spec_trim_trailing(v@),
{
    let mut out = v;
    let ghost orig = out@;
    loop
        invariant
            spec_trim_trailing(out@) == spec_trim_trailing(orig),
        ensures
            spec_trim_trailing(out@) == spec_trim_trailing(orig),
            out@.len() == 0 || !(out@.last() == '/' || out@.last() == '.'),
        decreases out@.len(),
    {
        let n = out.len();
        if n == 0 {
            break;
        }
        let last = out[n - 1];
        if last == '/' || last == '.' {
            proof {
                assert(out@.drop_last() =~= out@.subrange(0, n - 1));
            }
            out.pop();
        } else {
            break;
        }
    }
    out
}

/// The fully normalized comparison form, executable form.
fn normalize_chars(v: &Vec<char>) -> (out: Vec<char>)
    ensures
        out@ == spec_normalize(v@),
{
    let qlen = match find_char_from(v, 0, '?') {
        Some(q) => {
            proof {
                crate::text::lemma_find_char_at_or_after(v@, 0, '?');
            }
            q
        },
        None => v.len(),
    };
    let stripped_query = subvec(v, 0, qlen);
    let collapsed = collapse_prefix_chars(&stripped_query);
    let stripped = strip_inert_chars(&collapsed);
    let lowered = lower_naan_chars(&stripped);
    trim_trailing_chars(lowered)
}

/// Extract the shoulder from an ARK path: the shortest leading run of
/// characters up to and including the first ASCII digit. Returns `None`
/// when the path holds no ASCII digit.
pub fn extract_shoulder(path: &str) -> (r: Option<&str>)
    ensures
        match r {
            Some(sub) => {
                &&& find_digit_at_or_after(path@, 0) is Some
                &&& sub@ == path@.take(find_digit_at_or_after(path@, 0)->0 + 1)
            },
            None => find_digit_at_or_after(path@, 0) is None,
        },
{
    let v = to_char_vec(path);
    match find_digit_from(&v, 0) {
        Some(j) => {
            proof {
                crate::text::lemma_find_digit_at_or_after(path@, 0);
            }
            Some(path.substring_char(0, j + 1))
        },
        None => None,
    }
}

/// Parse an ARK identifier into its components.
///
/// The components are kept in their received form (only `ark:/` is collapsed
/// to `ark:`); the fully normalized form is computed separately and stored
/// for equality comparison. Parsing fails when the scheme prefix is absent,
/// when no `/` follows the NAAN, or when no ASCII digit is found while
/// scanning for the shoulder before any query string.
pub fn parse_ark(ark: &str) -> (r: Option<Ark>)
    ensures
        r is Some <==> spec_parse_ok(ark@),
        r matches Some(a) ==> {
            &&& a.original@ == spec_collapse_prefix(ark@)
            &&& a.naan@ == spec_naan(ark@)
            &&& a.shoulder@ == spec_shoulder(ark@)
            &&& a.blade@ == spec_blade(ark@)
            &&& a.qualifier@ == spec_qualifier(ark@)
            &&& a.normalized_ark@ == spec_normalize(ark@)
        },
{
    let v = to_char_vec(ark);
    let collapsed = collapse_prefix_chars(&v);
    let pref = vec!['a', 'r', 'k', ':'];
    proof {
        assert(pref@ =~= ark_prefix());
    }
    if !matches_at_of(&collapsed, 0, &pref) {
        proof {
            if collapsed@.len() >= 4 {
                assert(collapsed@.subrange(0, 4) != ark_prefix());
            }
        }
        return None;
    }
    let sl = match find_char_from(&collapsed, 4, '/') {
        Some(p) => p,
        None => {
            return None;
        },
    };
    proof {
        crate::text::lemma_find_char_at_or_after(collapsed@, 4, '/');
    }
    let naan_v = subvec(&collapsed, 4, sl);
    let rest = subvec(&collapsed, sl + 1, collapsed.len());
    proof {
        assert(rest@ =~= spec_rest(ark@));
        assert(naan_v@ =~= spec_naan(ark@));
    }
    let scan_end = match find_char_from(&rest, 0, '?') {
        Some(q) => {
            proof {
                crate::text::lemma_find_char_at_or_after(rest@, 0, '?');
            }
            q
        },
        None => rest.len(),
    };
    let scan = subvec(&rest, 0, scan_end);
    proof {
        assert(scan@ =~= spec_rest(ark@).take(query_free_len(spec_rest(ark@))));
    }
    let d = match find_digit_from(&scan, 0) {
        Some(d) => d,
        None => {
            return None;
        },
    };
    proof {
        crate::text::lemma_find_digit_at_or_after(scan@, 0);
    }
    let shoulder_v = subvec(&rest, 0, d + 1);
    let after = subvec(&rest, d + 1, rest.len());
    proof {
        assert(shoulder_v@ =~= spec_shoulder(ark@));
        assert(after@ =~= spec_after_shoulder(ark@));
    }
    let sep = find_separator_from(&after, 0);
    let (blade_v, qual_v) = match sep {
        Some(p) => {
            proof {
                crate::text::lemma_find_separator_at_or_after(after@, 0);
            }
            let blade_v = subvec(&after, 0, p);
            let qual_v = if after[p] == '/' {
                subvec(&after, p + 1, after.len())
            } else {
                subvec(&after, p, after.len())
            };
            (blade_v, qual_v)
        },
        None => {
            let blade_v = subvec(&after, 0, after.len());
            let qual_v: Vec<char> = Vec::new();
            proof {
                assert(blade_v@ =~= after@);
            }
            (blade_v, qual_v)
        },
    };
    proof {
        assert(blade_v@ =~= spec_blade(ark@));
        assert(qual_v@ =~= spec_qualifier(ark@));
    }
    let normalized_v = normalize_chars(&v);
    Some(
        Ark {
            original: chars_to_string(&collapsed),
            naan: chars_to_string(&naan_v),
            shoulder: chars_to_string(&shoulder_v),
            blade: chars_to_string(&blade_v),
            qualifier: chars_to_string(&qual_v),
            normalized_ark: chars_to_string(&normalized_v),
        },
    )
}

} // verus!
