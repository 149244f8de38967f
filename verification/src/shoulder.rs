//! Shoulder configuration: the routing template of a shoulder, its
//! validation against injection, and template-based resolution of parsed
//! identifiers to destination URLs.

use vstd::prelude::*;

use crate::ark::Ark;
use crate::text::{
    contains_seq, contains_seq_of, find_char_at_or_after, find_char_from, find_seq_at_or_after,
    find_seq_from, lemma_find_char_at_or_after, lemma_find_seq_at_or_after, lemma_matches_at_shift,
    matches_at, matches_at_of, push_all, str_eq, subvec, to_char_vec, chars_to_string,
};

verus! {

/// The template variable tokens, `${name}` and `{name}` forms.
pub open spec fn tok_pid_dollar() -> Seq<char> {
    seq!['$', '{', 'p', 'i', 'd', '}']
}

pub open spec fn tok_pid_brace() -> Seq<char> {
    seq!['{', 'p', 'i', 'd', '}']
}

pub open spec fn tok_scheme_dollar() -> Seq<char> {
    seq!['$', '{', 's', 'c', 'h', 'e', 'm', 'e', '}']
}

pub open spec fn tok_scheme_brace() -> Seq<char> {
    seq!['{', 's', 'c', 'h', 'e', 'm', 'e', '}']
}

pub open spec fn tok_content_dollar() -> Seq<char> {
    seq!['$', '{', 'c', 'o', 'n', 't', 'e', 'n', 't', '}']
}

pub open spec fn tok_content_brace() -> Seq<char> {
    seq!['{', 'c', 'o', 'n', 't', 'e', 'n', 't', '}']
}

pub open spec fn tok_prefix_dollar() -> Seq<char> {
    seq!['$', '{', 'p', 'r', 'e', 'f', 'i', 'x', '}']
}

pub open spec fn tok_prefix_brace() -> Seq<char> {
    seq!['{', 'p', 'r', 'e', 'f', 'i', 'x', '}']
}

pub open spec fn tok_naan_brace() -> Seq<char> {
    seq!['{', 'n', 'a', 'a', 'n', '}']
}

pub open spec fn tok_value_dollar() -> Seq<char> {
    seq!['$', '{', 'v', 'a', 'l', 'u', 'e', '}']
}

pub open spec fn tok_value_brace() -> Seq<char> {
    seq!['{', 'v', 'a', 'l', 'u', 'e', '}']
}

/// The constant substituted for the `scheme` variable.
pub open spec fn scheme_token() -> Seq<char> {
    seq!['a', 'r', 'k']
}

/// A pattern counts as templated when it holds `${` anywhere, or any of the
/// six brace-form variable tokens.
pub open spec fn spec_has_template_vars(s: Seq<char>) -> bool {
    ||| contains_seq(s, seq!['$', '{'])
    ||| contains_seq(s, tok_pid_brace())
    ||| contains_seq(s, tok_scheme_brace())
    ||| contains_seq(s, tok_content_brace())
    ||| contains_seq(s, tok_prefix_brace())
    ||| contains_seq(s, tok_value_brace())
    ||| contains_seq(s, tok_naan_brace())
}

/// Single-pass template substitution: at each position the first matching
/// variable token is replaced by its value, and other characters are copied
/// through. Substituted values are never rescanned.
pub open spec fn spec_substitute(
    s: Seq<char>,
    pid: Seq<char>,
    content: Seq<char>,
    prefix: Seq<char>,
    value: Seq<char>,
) -> Seq<char>
    decreases s.len(),
{
    if s.len() == 0 {
        Seq::empty()
    } else if matches_at(s, 0, tok_pid_dollar()) {
        pid + spec_substitute(s.skip(6), pid, content, prefix, value)
    } else if matches_at(s, 0, tok_pid_brace()) {
        pid + spec_substitute(s.skip(5), pid, content, prefix, value)
    } else if matches_at(s, 0, tok_scheme_dollar()) {
        scheme_token() + spec_substitute(s.skip(9), pid, content, prefix, value)
    } else if matches_at(s, 0, tok_scheme_brace()) {
        scheme_token() + spec_substitute(s.skip(8), pid, content, prefix, value)
    } else if matches_at(s, 0, tok_content_dollar()) {
        content + spec_substitute(s.skip(10), pid, content, prefix, value)
    } else if matches_at(s, 0, tok_content_brace()) {
        content + spec_substitute(s.skip(9), pid, content, prefix, value)
    } else if matches_at(s, 0, tok_prefix_dollar()) {
        prefix + spec_substitute(s.skip(9), pid, content, prefix, value)
    } else if matches_at(s, 0, tok_prefix_brace()) {
        prefix + spec_substitute(s.skip(8), pid, content, prefix, value)
    } else if matches_at(s, 0, tok_naan_brace()) {
        prefix + spec_substitute(s.skip(6), pid, content, prefix, value)
    } else if matches_at(s, 0, tok_value_dollar()) {
        value + spec_substitute(s.skip(8), pid, content, prefix, value)
    } else if matches_at(s, 0, tok_value_brace()) {
        value + spec_substitute(s.skip(7), pid, content, prefix, value)
    } else {
        seq![s[0]] + spec_substitute(s.skip(1), pid, content, prefix, value)
    }
}

/// The `content` template value: `naan/shoulder+blade`, with `/qualifier`
/// appended whenever the qualifier is non-empty.
pub open spec fn spec_content(
    naan: Seq<char>,
    shoulder: Seq<char>,
    blade: Seq<char>,
    qualifier: Seq<char>,
) -> Seq<char> {
    if qualifier.len() == 0 {
        naan + seq!['/'] + shoulder + blade
    } else {
        naan + seq!['/'] + shoulder + blade + seq!['/'] + qualifier
    }
}

/// The `value` template value: `shoulder+blade`, with the qualifier appended
/// directly when it begins with `?` and behind a `/` otherwise.
pub open spec fn spec_value(
    shoulder: Seq<char>,
    blade: Seq<char>,
    qualifier: Seq<char>,
) -> Seq<char> {
    if qualifier.len() == 0 {
        shoulder + blade
    } else if qualifier[0] == '?' {
        shoulder + blade + qualifier
    } else {
        shoulder + blade + seq!['/'] + qualifier
    }
}

/// Template application: a pattern without template variables has the full
/// identifier string appended; otherwise every variable occurrence is
/// substituted.
pub open spec fn spec_apply_template(
    pattern: Seq<char>,
    original: Seq<char>,
    naan: Seq<char>,
    shoulder: Seq<char>,
    blade: Seq<char>,
    qualifier: Seq<char>,
) -> Seq<char> {
    if !spec_has_template_vars(pattern) {
        pattern + original
    } else {
        spec_substitute(
            pattern,
            original,
            spec_content(naan, shoulder, blade, qualifier),
            naan,
            spec_value(shoulder, blade, qualifier),
        )
    }
}

/// A shoulder's routing and minting configuration.
///
/// The `route_pattern` carries the instructions for building a redirect URL
/// for an identifier. It is either a base URL, to which the full identifier
/// string is appended, or a template over the variables `pid`, `scheme`,
/// `content`, `prefix` (alias `naan`) and `value`, written `${name}` or
/// `{name}`.
#[derive(Debug, Clone)]
pub struct Shoulder {
    /// The routing pattern or template for this shoulder.
    pub route_pattern: String,
    /// The human-readable project name associated with this shoulder.
    pub project_name: String,
    /// Whether identifiers minted under this shoulder carry a check
    /// character (default: true).
    pub uses_check_character: bool,
    /// Blade length override for this shoulder, excluding the check
    /// character. When absent, the service-wide default applies.
    pub blade_length: Option<usize>,
}

impl Default for Shoulder {
    /// An empty pattern and project name, check characters on, no blade
    /// length override.
    fn default() -> (s: Shoulder)
        ensures
            s.route_pattern@ == Seq::<char>::empty(),
            s.project_name@ == Seq::<char>::empty(),
            s.uses_check_character == true,
            s.blade_length is None,
    {
        Shoulder {
            route_pattern: String::new(),
            project_name: String::new(),
            uses_check_character: true,
            blade_length: None,
        }
    }
}

/// How one step of the single-pass substitution advances: whichever token
/// matches first at position `i` is replaced, and a position matching no
/// token copies its character through.
proof fn lemma_substitute_step(
    s: Seq<char>,
    i: int,
    pid: Seq<char>,
    content: Seq<char>,
    prefix: Seq<char>,
    value: Seq<char>,
)
    requires
        0 <= i < s.len(),
    ensures
        matches_at(s, i, tok_pid_dollar()) ==> spec_substitute(s.skip(i), pid, content, prefix, value)
            == pid + spec_substitute(s.skip(i + 6), pid, content, prefix, value),
        !matches_at(s, i, tok_pid_dollar()) && matches_at(s, i, tok_pid_brace())
            ==> spec_substitute(s.skip(i), pid, content, prefix, value) == pid + spec_substitute(
            s.skip(i + 5),
            pid,
            content,
            prefix,
            value,
        ),
        !matches_at(s, i, tok_pid_dollar()) && !matches_at(s, i, tok_pid_brace()) && matches_at(
            s,
            i,
            tok_scheme_dollar(),
        ) ==> spec_substitute(s.skip(i), pid, content, prefix, value) == scheme_token()
            + spec_substitute(s.skip(i + 9), pid, content, prefix, value),
        !matches_at(s, i, tok_pid_dollar()) && !matches_at(s, i, tok_pid_brace()) && !matches_at(
            s,
            i,
            tok_scheme_dollar(),
        ) && matches_at(s, i, tok_scheme_brace()) ==> spec_substitute(
            s.skip(i),
            pid,
            content,
            prefix,
            value,
        ) == scheme_token() + spec_substitute(s.skip(i + 8), pid, content, prefix, value),
        !matches_at(s, i, tok_pid_dollar()) && !matches_at(s, i, tok_pid_brace()) && !matches_at(
            s,
            i,
            tok_scheme_dollar(),
        ) && !matches_at(s, i, tok_scheme_brace()) && matches_at(s, i, tok_content_dollar())
            ==> spec_substitute(s.skip(i), pid, content, prefix, value) == content
            + spec_substitute(s.skip(i + 10), pid, content, prefix, value),
        !matches_at(s, i, tok_pid_dollar()) && !matches_at(s, i, tok_pid_brace()) && !matches_at(
            s,
            i,
            tok_scheme_dollar(),
        ) && !matches_at(s, i, tok_scheme_brace()) && !matches_at(s, i, tok_content_dollar())
            && matches_at(s, i, tok_content_brace()) ==> spec_substitute(
            s.skip(i),
            pid,
            content,
            prefix,
            value,
        ) == content + spec_substitute(s.skip(i + 9), pid, content, prefix, value),
        !matches_at(s, i, tok_pid_dollar()) && !matches_at(s, i, tok_pid_brace()) && !matches_at(
            s,
            i,
            tok_scheme_dollar(),
        ) && !matches_at(s, i, tok_scheme_brace()) && !matches_at(s, i, tok_content_dollar())
            && !matches_at(s, i, tok_content_brace()) && matches_at(s, i, tok_prefix_dollar())
            ==> spec_substitute(s.skip(i), pid, content, prefix, value) == prefix
            + spec_substitute(s.skip(i + 9), pid, content, prefix, value),
        !matches_at(s, i, tok_pid_dollar()) && !matches_at(s, i, tok_pid_brace()) && !matches_at(
            s,
            i,
            tok_scheme_dollar(),
        ) && !matches_at(s, i, tok_scheme_brace()) && !matches_at(s, i, tok_content_dollar())
            && !matches_at(s, i, tok_content_brace()) && !matches_at(s, i, tok_prefix_dollar())
            && matches_at(s, i, tok_prefix_brace()) ==> spec_substitute(
            s.skip(i),
            pid,
            content,
            prefix,
            value,
        ) == prefix + spec_substitute(s.skip(i + 8), pid, content, prefix, value),
        !matches_at(s, i, tok_pid_dollar()) && !matches_at(s, i, tok_pid_brace()) && !matches_at(
            s,
            i,
            tok_scheme_dollar(),
        ) && !matches_at(s, i, tok_scheme_brace()) && !matches_at(s, i, tok_content_dollar())
            && !matches_at(s, i, tok_content_brace()) && !matches_at(s, i, tok_prefix_dollar())
            && !matches_at(s, i, tok_prefix_brace()) && matches_at(s, i, tok_naan_brace())
            ==> spec_substitute(s.skip(i), pid, content, prefix, value) == prefix
            + spec_substitute(s.skip(i + 6), pid, content, prefix, value),
        !matches_at(s, i, tok_pid_dollar()) && !matches_at(s, i, tok_pid_brace()) && !matches_at(
            s,
            i,
            tok_scheme_dollar(),
        ) && !matches_at(s, i, tok_scheme_brace()) && !matches_at(s, i, tok_content_dollar())
            && !matches_at(s, i, tok_content_brace()) && !matches_at(s, i, tok_prefix_dollar())
            && !matches_at(s, i, tok_prefix_brace()) && !matches_at(s, i, tok_naan_brace())
            && matches_at(s, i, tok_value_dollar()) ==> spec_substitute(
            s.skip(i),
            pid,
            content,
            prefix,
            value,
        ) == value + spec_substitute(s.skip(i + 8), pid, content, prefix, value),
        !matches_at(s, i, tok_pid_dollar()) && !matches_at(s, i, tok_pid_brace()) && !matches_at(
            s,
            i,
            tok_scheme_dollar(),
        ) && !matches_at(s, i, tok_scheme_brace()) && !matches_at(s, i, tok_content_dollar())
            && !matches_at(s, i, tok_content_brace()) && !matches_at(s, i, tok_prefix_dollar())
            && !matches_at(s, i, tok_prefix_brace()) && !matches_at(s, i, tok_naan_brace())
            && !matches_at(s, i, tok_value_dollar()) && matches_at(s, i, tok_value_brace())
            ==> spec_substitute(s.skip(i), pid, content, prefix, value) == value + spec_substitute(
            s.skip(i + 7),
            pid,
            content,
            prefix,
            value,
        ),
        !matches_at(s, i, tok_pid_dollar()) && !matches_at(s, i, tok_pid_brace()) && !matches_at(
            s,
            i,
            tok_scheme_dollar(),
        ) && !matches_at(s, i, tok_scheme_brace()) && !matches_at(s, i, tok_content_dollar())
            && !matches_at(s, i, tok_content_brace()) && !matches_at(s, i, tok_prefix_dollar())
            && !matches_at(s, i, tok_prefix_brace()) && !matches_at(s, i, tok_naan_brace())
            && !matches_at(s, i, tok_value_dollar()) && !matches_at(s, i, tok_value_brace())
            ==> spec_substitute(s.skip(i), pid, content, prefix, value) == seq![s[i]]
            + spec_substitute(s.skip(i + 1), pid, content, prefix, value),
{
    let t = s.skip(i);
    lemma_matches_at_shift(s, i, tok_pid_dollar());
    lemma_matches_at_shift(s, i, tok_pid_brace());
    lemma_matches_at_shift(s, i, tok_scheme_dollar());
    lemma_matches_at_shift(s, i, tok_scheme_brace());
    lemma_matches_at_shift(s, i, tok_content_dollar());
    lemma_matches_at_shift(s, i, tok_content_brace());
    lemma_matches_at_shift(s, i, tok_prefix_dollar());
    lemma_matches_at_shift(s, i, tok_prefix_brace());
    lemma_matches_at_shift(s, i, tok_naan_brace());
    lemma_matches_at_shift(s, i, tok_value_dollar());
    lemma_matches_at_shift(s, i, tok_value_brace());
    assert(t.skip(1) =~= s.skip(i + 1));
    if i + 5 <= s.len() {
        assert(t.skip(5) =~= s.skip(i + 5));
    }
    if i + 6 <= s.len() {
        assert(t.skip(6) =~= s.skip(i + 6));
    }
    if i + 7 <= s.len() {
        assert(t.skip(7) =~= s.skip(i + 7));
    }
    if i + 8 <= s.len() {
        assert(t.skip(8) =~= s.skip(i + 8));
    }
    if i + 9 <= s.len() {
        assert(t.skip(9) =~= s.skip(i + 9));
    }
    if i + 10 <= s.len() {
        assert(t.skip(10) =~= s.skip(i + 10));
    }
    assert(t[0] == s[i]);
}

/// Template variable detection, executable form.
fn has_template_vars_of(v: &Vec<char>) -> (r: bool)
    ensures
        r == spec_has_template_vars(v@),
{
    let dollar_brace = vec!['$', '{'];
    let pid = vec!['{', 'p', 'i', 'd', '}'];
    let scheme = vec!['{', 's', 'c', 'h', 'e', 'm', 'e', '}'];
    let content = vec!['{', 'c', 'o', 'n', 't', 'e', 'n', 't', '}'];
    let prefix = vec!['{', 'p', 'r', 'e', 'f', 'i', 'x', '}'];
    let value = vec!['{', 'v', 'a', 'l', 'u', 'e', '}'];
    let naan = vec!['{', 'n', 'a', 'a', 'n', '}'];
    proof {
        assert(pid@ =~= tok_pid_brace());
        assert(scheme@ =~= tok_scheme_brace());
        assert(content@ =~= tok_content_brace());
        assert(prefix@ =~= tok_prefix_brace());
        assert(value@ =~= tok_value_brace());
        assert(naan@ =~= tok_naan_brace());
        assert(dollar_brace@ =~= seq!['$', '{']);
    }
    contains_seq_of(v, &dollar_brace) || contains_seq_of(v, &pid) || contains_seq_of(v, &scheme)
        || contains_seq_of(v, &content) || contains_seq_of(v, &prefix) || contains_seq_of(
        v,
        &value,
    ) || contains_seq_of(v, &naan)
}

/// Single-pass template substitution, executable form.
fn substitute_chars(
    v: &Vec<char>,
    pid: &Vec<char>,
    content: &Vec<char>,
    prefix: &Vec<char>,
    value: &Vec<char>,
) -> (out: Vec<char>)
    ensures
        out@ == spec_substitute(v@, pid@, content@, prefix@, value@),
{
    let pid_d = vec!['$', '{', 'p', 'i', 'd', '}'];
    let pid_b = vec!['{', 'p', 'i', 'd', '}'];
    let scheme_d = vec!['$', '{', 's', 'c', 'h', 'e', 'm', 'e', '}'];
    let scheme_b = vec!['{', 's', 'c', 'h', 'e', 'm', 'e', '}'];
    let content_d = vec!['$', '{', 'c', 'o', 'n', 't', 'e', 'n', 't', '}'];
    let content_b = vec!['{', 'c', 'o', 'n', 't', 'e', 'n', 't', '}'];
    let prefix_d = vec!['$', '{', 'p', 'r', 'e', 'f', 'i', 'x', '}'];
    let prefix_b = vec!['{', 'p', 'r', 'e', 'f', 'i', 'x', '}'];
    let naan_b = vec!['{', 'n', 'a', 'a', 'n', '}'];
    let value_d = vec!['$', '{', 'v', 'a', 'l', 'u', 'e', '}'];
    let value_b = vec!['{', 'v', 'a', 'l', 'u', 'e', '}'];
    let ark_tok = vec!['a', 'r', 'k'];
    proof {
        assert(pid_d@ =~= tok_pid_dollar());
        assert(pid_b@ =~= tok_pid_brace());
        assert(scheme_d@ =~= tok_scheme_dollar());
        assert(scheme_b@ =~= tok_scheme_brace());
        assert(content_d@ =~= tok_content_dollar());
        assert(content_b@ =~= tok_content_brace());
        assert(prefix_d@ =~= tok_prefix_dollar());
        assert(prefix_b@ =~= tok_prefix_brace());
        assert(naan_b@ =~= tok_naan_brace());
        assert(value_d@ =~= tok_value_dollar());
        assert(value_b@ =~= tok_value_brace());
        assert(ark_tok@ =~= scheme_token());
    }
    let ghost target = spec_substitute(v@, pid@, content@, prefix@, value@);
    let n = v.len();
    let mut out: Vec<char> = Vec::new();
    let mut i: usize = 0;
    proof {
        assert(v@.skip(0) =~= v@);
    }
    while i < n
        invariant
            i <= n == v@.len(),
            pid_d@ == tok_pid_dollar(),
            pid_b@ == tok_pid_brace(),
            scheme_d@ == tok_scheme_dollar(),
            scheme_b@ == tok_scheme_brace(),
            content_d@ == tok_content_dollar(),
            content_b@ == tok_content_brace(),
            prefix_d@ == tok_prefix_dollar(),
            prefix_b@ == tok_prefix_brace(),
            naan_b@ == tok_naan_brace(),
            value_d@ == tok_value_dollar(),
            value_b@ == tok_value_brace(),
            ark_tok@ == scheme_token(),
            target == spec_substitute(v@, pid@, content@, prefix@, value@),
            out@ + spec_substitute(v@.skip(i as int), pid@, content@, prefix@, value@) == target,
        decreases n - i,
    {
        proof {
            lemma_substitute_step(v@, i as int, pid@, content@, prefix@, value@);
        }
        let ghost pre = out@;
        let step: usize;
        if matches_at_of(v, i, &pid_d) {
            push_all(&mut out, pid);
            step = 6;
            proof {
                assert(pre + (pid@ + spec_substitute(
                    v@.skip(i + 6),
                    pid@,
                    content@,
                    prefix@,
                    value@,
                )) =~= out@ + spec_substitute(v@.skip(i + 6), pid@, content@, prefix@, value@));
            }
        } else if matches_at_of(v, i, &pid_b) {
            push_all(&mut out, pid);
            step = 5;
            proof {
                assert(pre + (pid@ + spec_substitute(
                    v@.skip(i + 5),
                    pid@,
                    content@,
                    prefix@,
                    value@,
                )) =~= out@ + spec_substitute(v@.skip(i + 5), pid@, content@, prefix@, value@));
            }
        } else if matches_at_of(v, i, &scheme_d) {
            push_all(&mut out, &ark_tok);
            step = 9;
            proof {
                assert(pre + (scheme_token() + spec_substitute(
                    v@.skip(i + 9),
                    pid@,
                    content@,
                    prefix@,
                    value@,
                )) =~= out@ + spec_substitute(v@.skip(i + 9), pid@, content@, prefix@, value@));
            }
        } else if matches_at_of(v, i, &scheme_b) {
            push_all(&mut out, &ark_tok);
            step = 8;
            proof {
                assert(pre + (scheme_token() + spec_substitute(
                    v@.skip(i + 8),
                    pid@,
                    content@,
                    prefix@,
                    value@,
                )) =~= out@ + spec_substitute(v@.skip(i + 8), pid@, content@, prefix@, value@));
            }
        } else if matches_at_of(v, i, &content_d) {
            push_all(&mut out, content);
            step = 10;
            proof {
                assert(pre + (content@ + spec_substitute(
                    v@.skip(i + 10),
                    pid@,
                    content@,
                    prefix@,
                    value@,
                )) =~= out@ + spec_substitute(v@.skip(i + 10), pid@, content@, prefix@, value@));
            }
        } else if matches_at_of(v, i, &content_b) {
            push_all(&mut out, content);
            step = 9;
            proof {
                assert(pre + (content@ + spec_substitute(
                    v@.skip(i + 9),
                    pid@,
                    content@,
                    prefix@,
                    value@,
                )) =~= out@ + spec_substitute(v@.skip(i + 9), pid@, content@, prefix@, value@));
            }
        } else if matches_at_of(v, i, &prefix_d) {
            push_all(&mut out, prefix);
            step = 9;
            proof {
                assert(pre + (prefix@ + spec_substitute(
                    v@.skip(i + 9),
                    pid@,
                    content@,
                    prefix@,
                    value@,
                )) =~= out@ + spec_substitute(v@.skip(i + 9), pid@, content@, prefix@, value@));
            }
        } else if matches_at_of(v, i, &prefix_b) {
            push_all(&mut out, prefix);
            step = 8;
            proof {
                assert(pre + (prefix@ + spec_substitute(
                    v@.skip(i + 8),
                    pid@,
                    content@,
                    prefix@,
                    value@,
                )) =~= out@ + spec_substitute(v@.skip(i + 8), pid@, content@, prefix@, value@));
            }
        } else if matches_at_of(v, i, &naan_b) {
            push_all(&mut out, prefix);
            step = 6;
            proof {
                assert(pre + (prefix@ + spec_substitute(
                    v@.skip(i + 6),
                    pid@,
                    content@,
                    prefix@,
                    value@,
                )) =~= out@ + spec_substitute(v@.skip(i + 6), pid@, content@, prefix@, value@));
            }
        } else if matches_at_of(v, i, &value_d) {
            push_all(&mut out, value);
            step = 8;
            proof {
                assert(pre + (value@ + spec_substitute(
                    v@.skip(i + 8),
                    pid@,
                    content@,
                    prefix@,
                    value@,
                )) =~= out@ + spec_substitute(v@.skip(i + 8), pid@, content@, prefix@, value@));
            }
        } else if matches_at_of(v, i, &value_b) {
            push_all(&mut out, value);
            step = 7;
            proof {
                assert(pre + (value@ + spec_substitute(
                    v@.skip(i + 7),
                    pid@,
                    content@,
                    prefix@,
                    value@,
                )) =~= out@ + spec_substitute(v@.skip(i + 7), pid@, content@, prefix@, value@));
            }
        } else {
            out.push(v[i]);
            step = 1;
            proof {
                assert(pre + (seq![v@[i as int]] + spec_substitute(
                    v@.skip(i + 1),
                    pid@,
                    content@,
                    prefix@,
                    value@,
                )) =~= out@ + spec_substitute(v@.skip(i + 1), pid@, content@, prefix@, value@));
            }
        }
        i = i + step;
    }
    proof {
        assert(v@.skip(n as int) =~= Seq::<char>::empty());
        assert(out@ + Seq::<char>::empty() =~= out@);
    }
    out
}

/// A position whose character is no template marker copies through the
/// substitution unchanged.
proof fn lemma_substitute_copy_char(
    s: Seq<char>,
    pid: Seq<char>,
    content: Seq<char>,
    prefix: Seq<char>,
    value: Seq<char>,
)
    requires
        s.len() > 0,
        s[0] != '$',
        s[0] != '{',
    ensures
        spec_substitute(s, pid, content, prefix, value) == seq![s[0]] + spec_substitute(
            s.skip(1),
            pid,
            content,
            prefix,
            value,
        ),
{
    if matches_at(s, 0, tok_pid_dollar()) {
        assert(s.subrange(0, 6)[0] == '$');
    }
    if matches_at(s, 0, tok_pid_brace()) {
        assert(s.subrange(0, 5)[0] == '{');
    }
    if matches_at(s, 0, tok_scheme_dollar()) {
        assert(s.subrange(0, 9)[0] == '$');
    }
    if matches_at(s, 0, tok_scheme_brace()) {
        assert(s.subrange(0, 8)[0] == '{');
    }
    if matches_at(s, 0, tok_content_dollar()) {
        assert(s.subrange(0, 10)[0] == '$');
    }
    if matches_at(s, 0, tok_content_brace()) {
        assert(s.subrange(0, 9)[0] == '{');
    }
    if matches_at(s, 0, tok_prefix_dollar()) {
        assert(s.subrange(0, 9)[0] == '$');
    }
    if matches_at(s, 0, tok_prefix_brace()) {
        assert(s.subrange(0, 8)[0] == '{');
    }
    if matches_at(s, 0, tok_naan_brace()) {
        assert(s.subrange(0, 6)[0] == '{');
    }
    if matches_at(s, 0, tok_value_dollar()) {
        assert(s.subrange(0, 8)[0] == '$');
    }
    if matches_at(s, 0, tok_value_brace()) {
        assert(s.subrange(0, 7)[0] == '{');
    }
}

/// Substitution copies any marker-free prefix through unchanged and then
/// continues on the remainder.
proof fn lemma_substitute_clean_prefix(
    s: Seq<char>,
    pid: Seq<char>,
    content: Seq<char>,
    prefix: Seq<char>,
    value: Seq<char>,
    k: int,
)
    requires
        0 <= k <= s.len(),
        forall|i: int| 0 <= i < k ==> s[i] != '$' && s[i] != '{',
    ensures
        spec_substitute(s, pid, content, prefix, value) == s.take(k) + spec_substitute(
            s.skip(k),
            pid,
            content,
            prefix,
            value,
        ),
    decreases k,
{
    if k == 0 {
        assert(s.skip(0) =~= s);
        assert(s.take(0) + spec_substitute(s, pid, content, prefix, value) =~= spec_substitute(
            s,
            pid,
            content,
            prefix,
            value,
        ));
    } else {
        lemma_substitute_copy_char(s, pid, content, prefix, value);
        let t = s.skip(1);
        lemma_substitute_clean_prefix(t, pid, content, prefix, value, k - 1);
        assert(t.skip(k - 1) =~= s.skip(k));
        assert(seq![s[0]] + (t.take(k - 1) + spec_substitute(
            s.skip(k),
            pid,
            content,
            prefix,
            value,
        )) =~= s.take(k) + spec_substitute(s.skip(k), pid, content, prefix, value));
    }
}

/// Substituting into the bare `${value}` token yields the value itself.
proof fn lemma_substitute_value_token(
    pid: Seq<char>,
    content: Seq<char>,
    prefix: Seq<char>,
    value: Seq<char>,
)
    ensures
        spec_substitute(tok_value_dollar(), pid, content, prefix, value) == value,
{
    let t = tok_value_dollar();
    assert(t.len() == 8);
    if matches_at(t, 0, tok_pid_dollar()) {
        assert(t.subrange(0, 6)[2] == 'p');
        assert(false);
    }
    if matches_at(t, 0, tok_pid_brace()) {
        assert(t.subrange(0, 5)[0] == '{');
        assert(false);
    }
    if matches_at(t, 0, tok_scheme_brace()) {
        assert(t.subrange(0, 8)[0] == '{');
        assert(false);
    }
    if matches_at(t, 0, tok_prefix_brace()) {
        assert(t.subrange(0, 8)[0] == '{');
        assert(false);
    }
    if matches_at(t, 0, tok_naan_brace()) {
        assert(t.subrange(0, 6)[0] == '{');
        assert(false);
    }
    assert(matches_at(t, 0, tok_value_dollar())) by {
        assert(t.subrange(0, 8) =~= tok_value_dollar());
    }
    assert(t.skip(8) =~= Seq::<char>::empty());
    assert(spec_substitute(Seq::empty(), pid, content, prefix, value) == Seq::<char>::empty());
    assert(value + Seq::<char>::empty() =~= value);
}

/// Round trip: a route pattern that is a marker-free base followed by the
/// `${value}` token, applied to an identifier without a qualifier, expands
/// to the base with the shoulder and blade appended and no separator
/// inserted between them.
#[verifier::rlimit(100)]
pub proof fn lemma_value_template_round_trip(
    base: Seq<char>,
    original: Seq<char>,
    naan: Seq<char>,
    shoulder: Seq<char>,
    blade: Seq<char>,
)
    requires
        forall|i: int| 0 <= i < base.len() ==> base[i] != '$' && base[i] != '{',
    ensures
        spec_apply_template(
            base + tok_value_dollar(),
            original,
            naan,
            shoulder,
            blade,
            Seq::empty(),
        ) == base + shoulder + blade,
{
    let p = base + tok_value_dollar();
    let bl = base.len() as int;
    let content = spec_content(naan, shoulder, blade, Seq::empty());
    let value = spec_value(shoulder, blade, Seq::empty());
    assert(value == shoulder + blade);
    assert(matches_at(p, bl, seq!['$', '{'])) by {
        assert(p.subrange(bl, bl + 2) =~= seq!['$', '{']);
    }
    assert(contains_seq(p, seq!['$', '{']));
    assert(spec_has_template_vars(p));
    lemma_substitute_clean_prefix(p, original, content, naan, value, bl);
    assert(p.take(bl) =~= base);
    assert(p.skip(bl) =~= tok_value_dollar());
    lemma_substitute_value_token(original, content, naan, value);
    assert(base + value =~= base + shoulder + blade);
}

/// What parsing a string as an absolute URL yields: `None` when the string
/// is not a valid URL, otherwise the URL's scheme, its serialized form, and
/// whether it carries a host. Parsing is a pure function of the input
/// string.
pub uninterp spec fn url_parse_of(s: Seq<char>) -> Option<(Seq<char>, Seq<char>, bool)>;

/// Relies on `url::Url::parse`, reading the parsed value through
/// `Url::scheme`, `Url::as_str` and `Url::host_str`: parsing is
/// deterministic in the input string; on success the scheme, serialized
/// form and host presence are returned, on failure the parse error's
/// message.
#[verifier::external_body]
fn parse_url(s: &str) -> (r: Result<(String, String, bool), String>)
    ensures
        r is Ok <==> url_parse_of(s@) is Some,
        r matches Ok(t) ==> {
            &&& t.0@ == (url_parse_of(s@)->0).0
            &&& t.1@ == (url_parse_of(s@)->0).1
            &&& t.2 == (url_parse_of(s@)->0).2
        },
{
    match url::Url::parse(s) {
        Ok(u) => Ok((u.scheme().to_string(), u.as_str().to_string(), u.host_str().is_some())),
        Err(e) => Err(format!("{}", e)),
    }
}

/// What percent-encoding a string yields; the result depends on the input
/// characters alone.
pub uninterp spec fn url_encoded_of(s: Seq<char>) -> Seq<char>;

/// Relies on `urlencoding::encode`: percent-encoding is deterministic in
/// the input string.
#[verifier::external_body]
fn encode_component(s: &str) -> (r: String)
    ensures
        r@ == url_encoded_of(s@),
{
    urlencoding::encode(s).into_owned()
}

/// A scheme admitted for redirect targets: `http` or `https` only.
pub open spec fn is_allowed_scheme(scheme: Seq<char>) -> bool {
    scheme == "http"@ || scheme == "https"@
}

/// The string parses as a URL whose scheme is in the allow-list.
pub open spec fn url_ok_http(s: Seq<char>) -> bool {
    url_parse_of(s) matches Some(t) && is_allowed_scheme(t.0)
}

/// A control character: the Unicode `Cc` category.
pub open spec fn is_control_char(c: char) -> bool {
    (c as u32) < 32 || (127 <= c as u32 && c as u32 <= 159)
}

/// The string holds a control character.
pub open spec fn has_control_char(s: Seq<char>) -> bool {
    exists|i: int| 0 <= i < s.len() && is_control_char(s[i])
}

/// The string holds a template marker (`$` or `{`) in the index range
/// `[from, to)`.
pub open spec fn has_marker_in(s: Seq<char>, from: int, to: int) -> bool {
    exists|k: int| from <= k < to && (s[k] == '$' || s[k] == '{')
}

/// The inert token substituted for every template variable when checking a
/// pattern's URL structure.
pub open spec fn placeholder_token() -> Seq<char> {
    seq!['p', 'l', 'a', 'c', 'e', 'h', 'o', 'l', 'd', 'e', 'r']
}

/// The pattern with every template variable replaced by the inert token.
pub open spec fn spec_test_url(p: Seq<char>) -> Seq<char> {
    spec_substitute(p, placeholder_token(), placeholder_token(), placeholder_token(), placeholder_token())
}

/// The scheme-position check: when the pattern holds `://` beyond its first
/// character, no template marker may occur before it.
pub open spec fn spec_scheme_clean(p: Seq<char>) -> bool {
    match find_seq_at_or_after(p, 0, seq![':', '/', '/']) {
        Some(j) => j == 0 || !has_marker_in(p, 0, j),
        None => true,
    }
}

/// Where the host section of the pattern ends: at the first `/` after
/// `://`, else at the first `?`, else at the end.
pub open spec fn spec_host_end(after: Seq<char>) -> int {
    match find_char_at_or_after(after, 0, '/') {
        Some(x) => x,
        None => match find_char_at_or_after(after, 0, '?') {
            Some(y) => y,
            None => after.len() as int,
        },
    }
}

/// The host-position check: when the parsed test URL carries a host and the
/// pattern holds `://`, no template marker may occur in the host section.
pub open spec fn spec_host_clean(p: Seq<char>, has_host: bool) -> bool {
    !has_host || match find_seq_at_or_after(p, 0, seq![':', '/', '/']) {
        Some(j) => !has_marker_in(p.skip(j + 3), 0, spec_host_end(p.skip(j + 3))),
        None => true,
    }
}

/// A route pattern is acceptable: free of control characters, and either a
/// plain base URL with an allowed scheme, or a template whose
/// placeholder-substituted form is such a URL with no template marker in
/// scheme or host position.
pub open spec fn spec_route_pattern_ok(p: Seq<char>) -> bool {
    &&& !has_control_char(p)
    &&& if !spec_has_template_vars(p) {
        url_ok_http(p)
    } else {
        &&& url_ok_http(spec_test_url(p))
        &&& spec_scheme_clean(p)
        &&& spec_host_clean(p, (url_parse_of(spec_test_url(p))->0).2)
    }
}

/// Control character test over a vector, executable form.
fn find_control_char(v: &Vec<char>) -> (r: bool)
    ensures
        r == has_control_char(v@),
{
    let n = v.len();
    let mut i: usize = 0;
    while i < n
        invariant
            i <= n == v@.len(),
            forall|k: int| 0 <= k < i ==> !is_control_char(v@[k]),
        decreases n - i,
    {
        let u = v[i] as u32;
        if u < 32 || (127 <= u && u <= 159) {
            return true;
        }
        i = i + 1;
    }
    false
}

/// Template marker scan over an index range, executable form.
fn find_marker_in(v: &Vec<char>, from: usize, to: usize) -> (r: bool)
    requires
        from <= to <= v@.len(),
    ensures
        r == has_marker_in(v@, from as int, to as int),
{
    let mut i: usize = from;
    while i < to
        invariant
            from <= i <= to <= v@.len(),
            forall|k: int| from <= k < i ==> !(v@[k] == '$' || v@[k] == '{'),
        decreases to - i,
    {
        if v[i] == '$' || v[i] == '{' {
            return true;
        }
        i = i + 1;
    }
    false
}

/// Parse a URL and require an allowed scheme; reports whether the URL has a
/// host.
fn check_url_http(s: &str, context: &str) -> (r: Result<bool, String>)
    ensures
        r is Ok <==> url_ok_http(s@),
        r matches Ok(h) ==> h == (url_parse_of(s@)->0).2,
{
    match parse_url(s) {
        Ok((scheme, _serialized, has_host)) => {
            if str_eq(scheme.as_str(), "http") || str_eq(scheme.as_str(), "https") {
                Ok(has_host)
            } else {
                let msg = String::from_str("Only http and https schemes allowed, found: ").concat(
                    scheme.as_str(),
                );
                Err(msg)
            }
        },
        Err(e) => {
            let msg = String::from_str(context).concat(e.as_str());
            Err(msg)
        },
    }
}

impl Shoulder {
    /// Validate the route pattern against injection.
    ///
    /// A pattern passes when it holds no control characters, parses as a
    /// URL once every template variable is replaced by an inert token, uses
    /// only the `http` or `https` scheme, and places no template variable
    /// inside the scheme or host position.
    pub fn validate_route_pattern(&self) -> (r: Result<(), String>)
        ensures
            r is Ok <==> spec_route_pattern_ok(self.route_pattern@),
    {
        let pv = to_char_vec(self.route_pattern.as_str());
        if find_control_char(&pv) {
            return Err(String::from_str("route_pattern contains control characters"));
        }
        if !has_template_vars_of(&pv) {
            return match check_url_http(
                self.route_pattern.as_str(),
                "Invalid URL in route_pattern: ",
            ) {
                Ok(_) => Ok(()),
                Err(e) => Err(e),
            };
        }
        let ph = vec!['p', 'l', 'a', 'c', 'e', 'h', 'o', 'l', 'd', 'e', 'r'];
        proof {
            assert(ph@ =~= placeholder_token());
        }
        let test_v = substitute_chars(&pv, &ph, &ph, &ph, &ph);
        let test_s = chars_to_string(&test_v);
        let has_host = match check_url_http(test_s.as_str(), "Invalid URL in route_pattern: ") {
            Ok(h) => h,
            Err(e) => {
                return Err(e);
            },
        };
        let css = vec![':', '/', '/'];
        proof {
            assert(css@ =~= seq![':', '/', '/']);
        }
        let scheme_end = find_seq_from(&pv, 0, &css);
        proof {
            crate::text::lemma_find_seq_at_or_after(pv@, 0, css@);
        }
        if let Some(j) = scheme_end {
            if j > 0 && find_marker_in(&pv, 0, j) {
                return Err(
                    String::from_str("Template variables not allowed in URL scheme position"),
                );
            }
        }
        if has_host {
            if let Some(j) = scheme_end {
                proof {
                    assert(matches_at(pv@, j as int, css@));
                    assert(j + 3 <= pv@.len());
                }
                let after = subvec(&pv, j + 3, pv.len());
                proof {
                    assert(after@ =~= pv@.skip(j + 3));
                }
                let he = match find_char_from(&after, 0, '/') {
                    Some(x) => {
                        proof {
                            lemma_find_char_at_or_after(after@, 0, '/');
                        }
                        x
                    },
                    None => match find_char_from(&after, 0, '?') {
                        Some(y) => {
                            proof {
                                lemma_find_char_at_or_after(after@, 0, '?');
                            }
                            y
                        },
                        None => after.len(),
                    },
                };
                if find_marker_in(&after, 0, he) {
                    return Err(
                        String::from_str("Template variables not allowed in URL host position"),
                    );
                }
            }
        }
        Ok(())
    }

    /// Apply the template substitution for a parsed identifier.
    fn apply_template(&self, parsed_ark: &Ark) -> (r: String)
        ensures
            r@ == spec_apply_template(
                self.route_pattern@,
                parsed_ark.original@,
                parsed_ark.naan@,
                parsed_ark.shoulder@,
                parsed_ark.blade@,
                parsed_ark.qualifier@,
            ),
    {
        let pv = to_char_vec(self.route_pattern.as_str());
        let pid = to_char_vec(parsed_ark.original.as_str());
        let naan = to_char_vec(parsed_ark.naan.as_str());
        let shoulder = to_char_vec(parsed_ark.shoulder.as_str());
        let blade = to_char_vec(parsed_ark.blade.as_str());
        let qualifier = to_char_vec(parsed_ark.qualifier.as_str());
        if !has_template_vars_of(&pv) {
            let mut out = pv;
            push_all(&mut out, &pid);
            return chars_to_string(&out);
        }
        let mut content: Vec<char> = Vec::new();
        push_all(&mut content, &naan);
        content.push('/');
        push_all(&mut content, &shoulder);
        push_all(&mut content, &blade);
        if qualifier.len() > 0 {
            content.push('/');
            push_all(&mut content, &qualifier);
        }
        proof {
            assert(content@ =~= spec_content(naan@, shoulder@, blade@, qualifier@));
        }
        let mut value: Vec<char> = Vec::new();
        push_all(&mut value, &shoulder);
        push_all(&mut value, &blade);
        if qualifier.len() > 0 {
            if qualifier[0] != '?' {
                value.push('/');
            }
            push_all(&mut value, &qualifier);
        }
        proof {
            assert(value@ =~= spec_value(shoulder@, blade@, qualifier@));
        }
        let out = substitute_chars(&pv, &pid, &content, &naan, &value);
        chars_to_string(&out)
    }

    /// The inert replacement returned when a constructed redirect target is
    /// rejected: `about:blank` carrying the encoded error message in its
    /// fragment.
    pub open spec fn inert_redirect(msg: Seq<char>) -> Seq<char> {
        "about:blank#error="@ + url_encoded_of(msg)
    }

    /// Resolve a parsed identifier to its redirect target.
    ///
    /// The route pattern is applied to the identifier's components, and the
    /// fully substituted URL is then re-validated: it must parse as a URL
    /// whose scheme is `http` or `https`. The serialized form of the
    /// validated URL is returned. When validation fails, the returned value
    /// is a deterministic, safely inert `about:blank` URL carrying the
    /// encoded error message, never an attacker-influenced target.
    pub fn resolve(&self, parsed_ark: &Ark) -> (r: String)
        ensures
            ({
                let target = spec_apply_template(
                    self.route_pattern@,
                    parsed_ark.original@,
                    parsed_ark.naan@,
                    parsed_ark.shoulder@,
                    parsed_ark.blade@,
                    parsed_ark.qualifier@,
                );
                match url_parse_of(target) {
                    Some(t) => if is_allowed_scheme(t.0) {
                        r@ == t.1
                    } else {
                        r@ == Self::inert_redirect(
                            "Redirect URL has invalid scheme (expected http/https): "@ + t.0,
                        )
                    },
                    None => exists|m: Seq<char>| r@ == Self::inert_redirect(m),
                }
            }),
    {
        let target = self.apply_template(parsed_ark);
        match parse_url(target.as_str()) {
            Ok((scheme, serialized, _has_host)) => {
                if str_eq(scheme.as_str(), "http") || str_eq(scheme.as_str(), "https") {
                    serialized
                } else {
                    let msg = String::from_str(
                        "Redirect URL has invalid scheme (expected http/https): ",
                    ).concat(scheme.as_str());
                    let enc = encode_component(msg.as_str());
                    String::from_str("about:blank#error=").concat(enc.as_str())
                }
            },
            Err(e) => {
                let msg = String::from_str("Invalid redirect URL constructed: ").concat(e.as_str());
                let enc = encode_component(msg.as_str());
                let r = String::from_str("about:blank#error=").concat(enc.as_str());
                proof {
                    assert(r@ == Self::inert_redirect(
                        "Invalid redirect URL constructed: "@ + e@,
                    ));
                }
                r
            },
        }
    }
}

} // verus!
