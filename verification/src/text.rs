//! Character-sequence utilities shared by the parser, the template resolver
//! and the validators: searching, slicing, ASCII case mapping, and the
//! conversions between `&str`, `Vec<char>` and `String`.

use vstd::prelude::*;
use vstd::std_specs::iter::IteratorSpec;

verus! {

/// Index of the first occurrence of `target` in `s` at or after `from`.
pub open spec fn find_char_at_or_after(s: Seq<char>, from: int, target: char) -> Option<int>
    decreases s.len() - from when 0 <= from <= s.len()
{
    if from >= s.len() {
        None
    } else if s[from] == target {
        Some(from)
    } else {
        find_char_at_or_after(s, from + 1, target)
    }
}

/// What `find_char_at_or_after` returns: the first index at or after `from`
/// holding `target`, or `None` when there is none.
pub proof fn lemma_find_char_at_or_after(s: Seq<char>, from: int, target: char)
    requires
        0 <= from <= s.len(),
    ensures
        match find_char_at_or_after(s, from, target) {
            Some(j) => from <= j < s.len() && s[j] == target && (forall|k: int|
                from <= k < j ==> s[k] != target),
            None => forall|k: int| from <= k < s.len() ==> s[k] != target,
        },
    decreases s.len() - from,
{
    if from < s.len() && s[from] != target {
        lemma_find_char_at_or_after(s, from + 1, target);
    }
}

/// A position holding `target`, with none before it, pins the find result.
pub proof fn lemma_find_char_unique(s: Seq<char>, from: int, target: char, j: int)
    requires
        0 <= from <= j < s.len(),
        s[j] == target,
        forall|k: int| from <= k < j ==> s[k] != target,
    ensures
        find_char_at_or_after(s, from, target) == Some(j),
    decreases j - from,
{
    if from < j {
        lemma_find_char_unique(s, from + 1, target, j);
    }
}

/// A range free of `target` pins the find result to `None`.
pub proof fn lemma_find_char_absent(s: Seq<char>, from: int, target: char)
    requires
        0 <= from <= s.len(),
        forall|k: int| from <= k < s.len() ==> s[k] != target,
    ensures
        find_char_at_or_after(s, from, target) is None,
{
    lemma_find_char_at_or_after(s, from, target);
    if find_char_at_or_after(s, from, target) is Some {
        assert(false);
    }
}

/// Index of the first ASCII digit in `s` at or after `from`.
pub open spec fn find_digit_at_or_after(s: Seq<char>, from: int) -> Option<int>
    decreases s.len() - from when 0 <= from <= s.len()
{
    if from >= s.len() {
        None
    } else if is_ascii_digit_char(s[from]) {
        Some(from)
    } else {
        find_digit_at_or_after(s, from + 1)
    }
}

/// What `find_digit_at_or_after` returns.
pub proof fn lemma_find_digit_at_or_after(s: Seq<char>, from: int)
    requires
        0 <= from <= s.len(),
    ensures
        match find_digit_at_or_after(s, from) {
            Some(j) => from <= j < s.len() && is_ascii_digit_char(s[j]) && (forall|k: int|
                from <= k < j ==> !is_ascii_digit_char(s[k])),
            None => forall|k: int| from <= k < s.len() ==> !is_ascii_digit_char(s[k]),
        },
    decreases s.len() - from,
{
    if from < s.len() && !is_ascii_digit_char(s[from]) {
        lemma_find_digit_at_or_after(s, from + 1);
    }
}

/// A digit position with none before it pins the digit find result.
pub proof fn lemma_find_digit_unique(s: Seq<char>, from: int, j: int)
    requires
        0 <= from <= j < s.len(),
        is_ascii_digit_char(s[j]),
        forall|k: int| from <= k < j ==> !is_ascii_digit_char(s[k]),
    ensures
        find_digit_at_or_after(s, from) == Some(j),
    decreases j - from,
{
    if from < j {
        lemma_find_digit_unique(s, from + 1, j);
    }
}

/// A range free of digits pins the digit find result to `None`.
pub proof fn lemma_find_digit_absent(s: Seq<char>, from: int)
    requires
        0 <= from <= s.len(),
        forall|k: int| from <= k < s.len() ==> !is_ascii_digit_char(s[k]),
    ensures
        find_digit_at_or_after(s, from) is None,
{
    lemma_find_digit_at_or_after(s, from);
    if find_digit_at_or_after(s, from) is Some {
        assert(false);
    }
}

/// Index of the first `/` or `?` in `s` at or after `from`.
pub open spec fn find_separator_at_or_after(s: Seq<char>, from: int) -> Option<int>
    decreases s.len() - from when 0 <= from <= s.len()
{
    if from >= s.len() {
        None
    } else if s[from] == '/' || s[from] == '?' {
        Some(from)
    } else {
        find_separator_at_or_after(s, from + 1)
    }
}

/// What `find_separator_at_or_after` returns.
pub proof fn lemma_find_separator_at_or_after(s: Seq<char>, from: int)
    requires
        0 <= from <= s.len(),
    ensures
        match find_separator_at_or_after(s, from) {
            Some(j) => from <= j < s.len() && (s[j] == '/' || s[j] == '?') && (forall|k: int|
                from <= k < j ==> !(s[k] == '/' || s[k] == '?')),
            None => forall|k: int| from <= k < s.len() ==> !(s[k] == '/' || s[k] == '?'),
        },
    decreases s.len() - from,
{
    if from < s.len() && !(s[from] == '/' || s[from] == '?') {
        lemma_find_separator_at_or_after(s, from + 1);
    }
}

/// A separator position with none before it pins the separator find result.
pub proof fn lemma_find_separator_unique(s: Seq<char>, from: int, j: int)
    requires
        0 <= from <= j < s.len(),
        s[j] == '/' || s[j] == '?',
        forall|k: int| from <= k < j ==> !(s[k] == '/' || s[k] == '?'),
    ensures
        find_separator_at_or_after(s, from) == Some(j),
    decreases j - from,
{
    if from < j {
        lemma_find_separator_unique(s, from + 1, j);
    }
}

/// A range free of `/` and `?` pins the separator find result to `None`.
pub proof fn lemma_find_separator_absent(s: Seq<char>, from: int)
    requires
        0 <= from <= s.len(),
        forall|k: int| from <= k < s.len() ==> !(s[k] == '/' || s[k] == '?'),
    ensures
        find_separator_at_or_after(s, from) is None,
{
    lemma_find_separator_at_or_after(s, from);
    if find_separator_at_or_after(s, from) is Some {
        assert(false);
    }
}

/// A character is an ASCII decimal digit.
pub open spec fn is_ascii_digit_char(c: char) -> bool {
    '0' as u32 <= c as u32 <= '9' as u32
}

/// ASCII digit test, executable form.
pub fn is_ascii_digit_of(c: char) -> (r: bool)
    ensures
        r == is_ascii_digit_char(c),
{
    let u = c as u32;
    48 <= u && u <= 57
}

/// ASCII lowercase mapping of a character: uppercase ASCII letters map to
/// their lowercase counterparts, every other character is unchanged.
#[verifier::opaque]
pub open spec fn ascii_lower_char(c: char) -> char {
    if c == 'A' { 'a' } else if c == 'B' { 'b' } else if c == 'C' { 'c' }
    else if c == 'D' { 'd' } else if c == 'E' { 'e' } else if c == 'F' { 'f' }
    else if c == 'G' { 'g' } else if c == 'H' { 'h' } else if c == 'I' { 'i' }
    else if c == 'J' { 'j' } else if c == 'K' { 'k' } else if c == 'L' { 'l' }
    else if c == 'M' { 'm' } else if c == 'N' { 'n' } else if c == 'O' { 'o' }
    else if c == 'P' { 'p' } else if c == 'Q' { 'q' } else if c == 'R' { 'r' }
    else if c == 'S' { 's' } else if c == 'T' { 't' } else if c == 'U' { 'u' }
    else if c == 'V' { 'v' } else if c == 'W' { 'w' } else if c == 'X' { 'x' }
    else if c == 'Y' { 'y' } else if c == 'Z' { 'z' }
    else { c }
}

/// ASCII lowercase mapping, executable form.
pub fn ascii_lower_of(c: char) -> (r: char)
    ensures
        r == ascii_lower_char(c),
{
    proof {
        reveal(ascii_lower_char);
    }
    if c == 'A' { 'a' } else if c == 'B' { 'b' } else if c == 'C' { 'c' }
    else if c == 'D' { 'd' } else if c == 'E' { 'e' } else if c == 'F' { 'f' }
    else if c == 'G' { 'g' } else if c == 'H' { 'h' } else if c == 'I' { 'i' }
    else if c == 'J' { 'j' } else if c == 'K' { 'k' } else if c == 'L' { 'l' }
    else if c == 'M' { 'm' } else if c == 'N' { 'n' } else if c == 'O' { 'o' }
    else if c == 'P' { 'p' } else if c == 'Q' { 'q' } else if c == 'R' { 'r' }
    else if c == 'S' { 's' } else if c == 'T' { 't' } else if c == 'U' { 'u' }
    else if c == 'V' { 'v' } else if c == 'W' { 'w' } else if c == 'X' { 'x' }
    else if c == 'Y' { 'y' } else if c == 'Z' { 'z' }
    else { c }
}

/// The characters of a string slice as a vector.
pub fn to_char_vec(s: &str) -> (v: Vec<char>)
    ensures
        v@ == s@,
{
    broadcast use vstd::string::group_string_axioms;

    let mut it = s.chars();
    let mut v: Vec<char> = Vec::new();
    loop
        invariant_except_break
            it.obeys_prophetic_iter_laws(),
            it.decrease() is Some,
            v@ + it.remaining() == s@,
        ensures
            v@ == s@,
        decreases it.decrease()->0,
    {
        let ghost pre = v@;
        let ghost rem = it.remaining();
        match it.next() {
            Some(c) => {
                v.push(c);
                proof {
                    assert(pre + rem =~= v@ + it.remaining());
                }
            },
            None => {
                proof {
                    assert(v@ + it.remaining() =~= v@);
                }
                break;
            },
        }
    }
    v
}

/// Builds a `String` holding exactly the given characters.
///
/// Relies on `String: FromIterator<char>` from the standard library: the
/// collected string holds the iterated characters in order.
#[verifier::external_body]
pub fn chars_to_string(v: &Vec<char>) -> (s: String)
    ensures
        s@ == v@,
{
    v.iter().collect()
}

/// A copy of the characters of `v` from `from` (inclusive) to `to`
/// (exclusive).
pub fn subvec(v: &Vec<char>, from: usize, to: usize) -> (out: Vec<char>)
    requires
        from <= to <= v@.len(),
    ensures
        out@ == v@.subrange(from as int, to as int),
{
    let mut out: Vec<char> = Vec::new();
    let mut i: usize = from;
    while i < to
        invariant
            from <= i <= to <= v@.len(),
            out@ == v@.subrange(from as int, i as int),
        decreases to - i,
    {
        out.push(v[i]);
        proof {
            assert(out@ =~= v@.subrange(from as int, i + 1));
        }
        i = i + 1;
    }
    out
}

/// First occurrence of `target` in `v` at or after `from`, executable form.
pub fn find_char_from(v: &Vec<char>, from: usize, target: char) -> (r: Option<usize>)
    requires
        from <= v@.len(),
    ensures
        match r {
            Some(j) => Some(j as int) == find_char_at_or_after(v@, from as int, target),
            None => find_char_at_or_after(v@, from as int, target) is None,
        },
{
    let n = v.len();
    let mut i: usize = from;
    while i < n
        invariant
            from <= i <= n == v@.len(),
            find_char_at_or_after(v@, from as int, target) == find_char_at_or_after(
                v@,
                i as int,
                target,
            ),
        decreases n - i,
    {
        if v[i] == target {
            return Some(i);
        }
        i = i + 1;
    }
    None
}

/// First ASCII digit in `v` at or after `from`, executable form.
pub fn find_digit_from(v: &Vec<char>, from: usize) -> (r: Option<usize>)
    requires
        from <= v@.len(),
    ensures
        match r {
            Some(j) => Some(j as int) == find_digit_at_or_after(v@, from as int),
            None => find_digit_at_or_after(v@, from as int) is None,
        },
{
    let n = v.len();
    let mut i: usize = from;
    while i < n
        invariant
            from <= i <= n == v@.len(),
            find_digit_at_or_after(v@, from as int) == find_digit_at_or_after(v@, i as int),
        decreases n - i,
    {
        if is_ascii_digit_of(v[i]) {
            return Some(i);
        }
        i = i + 1;
    }
    None
}

/// First `/` or `?` in `v` at or after `from`, executable form.
pub fn find_separator_from(v: &Vec<char>, from: usize) -> (r: Option<usize>)
    requires
        from <= v@.len(),
    ensures
        match r {
            Some(j) => Some(j as int) == find_separator_at_or_after(v@, from as int),
            None => find_separator_at_or_after(v@, from as int) is None,
        },
{
    let n = v.len();
    let mut i: usize = from;
    while i < n
        invariant
            from <= i <= n == v@.len(),
            find_separator_at_or_after(v@, from as int) == find_separator_at_or_after(
                v@,
                i as int,
            ),
        decreases n - i,
    {
        if v[i] == '/' || v[i] == '?' {
            return Some(i);
        }
        i = i + 1;
    }
    None
}

/// The characters of `pat` occur in `s` starting at index `i`.
pub open spec fn matches_at(s: Seq<char>, i: int, pat: Seq<char>) -> bool {
    0 <= i && i + pat.len() <= s.len() && s.subrange(i, i + pat.len()) == pat
}

/// Substring test at a fixed position, executable form.
pub fn matches_at_of(v: &Vec<char>, i: usize, pat: &Vec<char>) -> (r: bool)
    requires
        i <= v@.len(),
    ensures
        r == matches_at(v@, i as int, pat@),
{
    let m = pat.len();
    if v.len() - i < m {
        proof {
            assert(!matches_at(v@, i as int, pat@));
        }
        return false;
    }
    let mut k: usize = 0;
    while k < m
        invariant
            k <= m == pat@.len(),
            i + m <= v@.len(),
            v@.len() <= usize::MAX,
            forall|j: int| 0 <= j < k ==> v@[i + j] == pat@[j],
        decreases m - k,
    {
        if v[i + k] != pat[k] {
            proof {
                assert(v@.subrange(i as int, i + pat@.len())[k as int] == v@[i + k]);
            }
            return false;
        }
        k = k + 1;
    }
    proof {
        assert(v@.subrange(i as int, i + pat@.len()) =~= pat@);
    }
    true
}

/// A pattern matches at position `i` of `s.skip(k)` exactly when it matches
/// at position `k + i` of `s`.
pub proof fn lemma_matches_at_shift(s: Seq<char>, k: int, pat: Seq<char>)
    requires
        0 <= k <= s.len(),
    ensures
        matches_at(s.skip(k), 0, pat) == matches_at(s, k, pat),
{
    if k + pat.len() <= s.len() {
        assert(s.skip(k).subrange(0, pat.len() as int) =~= s.subrange(k, k + pat.len()));
    }
}

/// Index of the first occurrence of the pattern `pat` in `s` at or after
/// `from`.
pub open spec fn find_seq_at_or_after(s: Seq<char>, from: int, pat: Seq<char>) -> Option<int>
    decreases s.len() - from when 0 <= from && pat.len() > 0
{
    if from + pat.len() > s.len() {
        None
    } else if matches_at(s, from, pat) {
        Some(from)
    } else {
        find_seq_at_or_after(s, from + 1, pat)
    }
}

/// What `find_seq_at_or_after` returns.
pub proof fn lemma_find_seq_at_or_after(s: Seq<char>, from: int, pat: Seq<char>)
    requires
        0 <= from,
        pat.len() > 0,
    ensures
        match find_seq_at_or_after(s, from, pat) {
            Some(j) => from <= j && matches_at(s, j, pat) && (forall|k: int|
                from <= k < j ==> !matches_at(s, k, pat)),
            None => forall|k: int| from <= k ==> !matches_at(s, k, pat),
        },
    decreases s.len() - from,
{
    if from + pat.len() > s.len() {
        assert forall|k: int| from <= k implies !matches_at(s, k, pat) by {}
    } else if !matches_at(s, from, pat) {
        lemma_find_seq_at_or_after(s, from + 1, pat);
    }
}

/// First occurrence of a pattern, executable form.
pub fn find_seq_from(v: &Vec<char>, from: usize, pat: &Vec<char>) -> (r: Option<usize>)
    requires
        from <= v@.len(),
        pat@.len() > 0,
    ensures
        match r {
            Some(j) => Some(j as int) == find_seq_at_or_after(v@, from as int, pat@),
            None => find_seq_at_or_after(v@, from as int, pat@) is None,
        },
{
    let n = v.len();
    let m = pat.len();
    let mut i: usize = from;
    while i < n
        invariant
            from <= i <= n == v@.len(),
            m == pat@.len() > 0,
            find_seq_at_or_after(v@, from as int, pat@) == find_seq_at_or_after(
                v@,
                i as int,
                pat@,
            ),
        decreases n - i,
    {
        if matches_at_of(v, i, pat) {
            return Some(i);
        }
        i = i + 1;
    }
    None
}

/// The pattern `pat` occurs somewhere in `s`.
pub open spec fn contains_seq(s: Seq<char>, pat: Seq<char>) -> bool {
    exists|i: int| matches_at(s, i, pat)
}

/// Substring test, executable form.
pub fn contains_seq_of(v: &Vec<char>, pat: &Vec<char>) -> (r: bool)
    requires
        pat@.len() > 0,
    ensures
        r == contains_seq(v@, pat@),
{
    match find_seq_from(v, 0, pat) {
        Some(j) => {
            proof {
                lemma_find_seq_at_or_after(v@, 0, pat@);
            }
            true
        },
        None => {
            proof {
                lemma_find_seq_at_or_after(v@, 0, pat@);
                assert forall|i: int| !matches_at(v@, i, pat@) by {
                    if 0 <= i {
                    } else {
                        assert(!matches_at(v@, i, pat@));
                    }
                }
            }
            false
        },
    }
}

/// The pieces of `s` split on the separator `sep`: splitting the empty
/// sequence yields one empty piece, and every separator ends a piece.
pub open spec fn spec_split(s: Seq<char>, sep: char) -> Seq<Seq<char>>
    decreases s.len(),
{
    if s.len() == 0 {
        seq![Seq::<char>::empty()]
    } else {
        let rest = spec_split(s.skip(1), sep);
        if s[0] == sep {
            seq![Seq::<char>::empty()] + rest
        } else {
            seq![seq![s[0]] + rest[0]] + rest.skip(1)
        }
    }
}

/// A split yields at least one piece.
pub proof fn lemma_split_len(s: Seq<char>, sep: char)
    ensures
        spec_split(s, sep).len() >= 1,
    decreases s.len(),
{
    if s.len() > 0 {
        lemma_split_len(s.skip(1), sep);
    }
}

/// When the first separator sits at position `p`, the split is the piece
/// before it followed by the split of what comes after it.
pub proof fn lemma_split_at_first_sep(s: Seq<char>, sep: char, p: int)
    requires
        0 <= p < s.len(),
        s[p] == sep,
        forall|k: int| 0 <= k < p ==> s[k] != sep,
    ensures
        spec_split(s, sep) == seq![s.take(p)] + spec_split(s.skip(p + 1), sep),
    decreases p,
{
    if p == 0 {
        assert(s.take(0) =~= Seq::<char>::empty());
        assert(spec_split(s, sep) =~= seq![s.take(0)] + spec_split(s.skip(1), sep));
    } else {
        let t = s.skip(1);
        assert(t[p - 1] == sep);
        assert(forall|k: int| 0 <= k < p - 1 ==> t[k] != sep);
        lemma_split_at_first_sep(t, sep, p - 1);
        lemma_split_len(t.skip(p), sep);
        let rest = spec_split(t, sep);
        assert(rest == seq![t.take(p - 1)] + spec_split(t.skip(p), sep));
        assert(rest[0] == t.take(p - 1));
        assert(seq![s[0]] + rest[0] =~= s.take(p));
        assert(rest.skip(1) =~= spec_split(t.skip(p), sep));
        assert(t.skip(p) =~= s.skip(p + 1));
        assert(spec_split(s, sep) =~= seq![s.take(p)] + spec_split(s.skip(p + 1), sep));
    }
}

/// When the separator does not occur, the split is the whole sequence as a
/// single piece.
pub proof fn lemma_split_no_sep(s: Seq<char>, sep: char)
    requires
        forall|k: int| 0 <= k < s.len() ==> s[k] != sep,
    ensures
        spec_split(s, sep) == seq![s],
    decreases s.len(),
{
    if s.len() == 0 {
        assert(s =~= Seq::<char>::empty());
        assert(spec_split(s, sep) =~= seq![s]);
    } else {
        lemma_split_no_sep(s.skip(1), sep);
        let rest = spec_split(s.skip(1), sep);
        assert(rest == seq![s.skip(1)]);
        assert(seq![s[0]] + rest[0] =~= s);
        assert(rest.skip(1) =~= Seq::<Seq<char>>::empty());
        assert(seq![seq![s[0]] + rest[0]] + rest.skip(1) =~= seq![s]);
    }
}

/// The views of a sequence of character vectors.
pub open spec fn views_of(pieces: Seq<Vec<char>>) -> Seq<Seq<char>> {
    Seq::new(pieces.len(), |i: int| pieces[i]@)
}

/// Split a vector of characters on a separator, executable form.
pub fn split_chars(v: &Vec<char>, sep: char) -> (out: Vec<Vec<char>>)
    ensures
        views_of(out@) == spec_split(v@, sep),
{
    let n = v.len();
    let mut out: Vec<Vec<char>> = Vec::new();
    let mut start: usize = 0;
    proof {
        assert(v@.skip(0) =~= v@);
        assert(views_of(out@) =~= Seq::<Seq<char>>::empty());
        assert(Seq::<Seq<char>>::empty() + spec_split(v@, sep) =~= spec_split(v@, sep));
    }
    loop
        invariant_except_break
            start <= n == v@.len(),
            views_of(out@) + spec_split(v@.skip(start as int), sep) == spec_split(v@, sep),
        ensures
            views_of(out@) == spec_split(v@, sep),
        decreases n - start,
    {
        let ghost pre = out@;
        match find_char_from(v, start, sep) {
            Some(p) => {
                proof {
                    lemma_find_char_at_or_after(v@, start as int, sep);
                }
                let piece = subvec(v, start, p);
                out.push(piece);
                proof {
                    let t = v@.skip(start as int);
                    assert(t[p - start] == sep);
                    assert(forall|k: int| 0 <= k < p - start ==> t[k] != sep);
                    lemma_split_at_first_sep(t, sep, p - start);
                    assert(t.take(p - start) =~= v@.subrange(start as int, p as int));
                    assert(t.skip(p - start + 1) =~= v@.skip(p + 1));
                    assert(views_of(out@) =~= views_of(pre).push(v@.subrange(
                        start as int,
                        p as int,
                    )));
                    assert(views_of(pre) + (seq![v@.subrange(start as int, p as int)]
                        + spec_split(v@.skip(p + 1), sep)) =~= views_of(out@) + spec_split(
                        v@.skip(p + 1),
                        sep,
                    ));
                }
                start = p + 1;
            },
            None => {
                proof {
                    lemma_find_char_at_or_after(v@, start as int, sep);
                }
                let piece = subvec(v, start, n);
                out.push(piece);
                proof {
                    let t = v@.skip(start as int);
                    assert(forall|k: int| 0 <= k < t.len() ==> t[k] != sep);
                    lemma_split_no_sep(t, sep);
                    assert(t =~= v@.subrange(start as int, n as int));
                    assert(views_of(out@) =~= views_of(pre).push(t));
                    assert(views_of(pre) + seq![t] =~= views_of(out@));
                }
                break;
            },
        }
    }
    out
}

/// Appends all characters of `src` to `dst`.
pub fn push_all(dst: &mut Vec<char>, src: &Vec<char>)
    ensures
        final(dst)@ == old(dst)@ + src@,
{
    let n = src.len();
    let mut i: usize = 0;
    while i < n
        invariant
            i <= n == src@.len(),
            dst@ == old(dst)@ + src@.take(i as int),
        decreases n - i,
    {
        dst.push(src[i]);
        proof {
            assert(old(dst)@ + src@.take(i + 1) =~= (old(dst)@ + src@.take(i as int)).push(
                src@[i as int],
            ));
        }
        i = i + 1;
    }
    proof {
        assert(src@.take(n as int) =~= src@);
    }
}

/// Two string slices hold the same characters, executable form.
pub fn str_eq(a: &str, b: &str) -> (r: bool)
    ensures
        r == (a@ == b@),
{
    let va = to_char_vec(a);
    let vb = to_char_vec(b);
    let na = va.len();
    if na != vb.len() {
        proof {
            assert(a@ != b@);
        }
        return false;
    }
    let mut i: usize = 0;
    while i < na
        invariant
            va@ == a@,
            vb@ == b@,
            i <= na == a@.len(),
            na == b@.len(),
            forall|j: int| 0 <= j < i ==> a@[j] == b@[j],
        decreases na - i,
    {
        if va[i] != vb[i] {
            return false;
        }
        i = i + 1;
    }
    proof {
        assert(a@ =~= b@);
    }
    true
}

} // verus!
