//! The flat delimited registry format: comma-separated entries of
//! `shoulder<TAB>route<TAB>project`, with `\t` escape sequences accepted in
//! place of literal tabs. Entries with any other number of fields are
//! skipped; parsing fails only when no valid entry remains.

use vstd::prelude::*;

use crate::ark::{is_whitespace_char, is_whitespace_of};
use crate::registry::ShoulderRegistry;
use crate::shoulder::{spec_route_pattern_ok, Shoulder};
use crate::text::{
    chars_to_string, lemma_matches_at_shift, matches_at, matches_at_of, spec_split, split_chars,
    subvec, to_char_vec, views_of,
};

verus! {

/// Replace every `\t` escape sequence (backslash then `t`) by a tab
/// character.
pub open spec fn spec_unescape_tabs(s: Seq<char>) -> Seq<char>
    decreases s.len(),
{
    if s.len() == 0 {
        Seq::empty()
    } else if matches_at(s, 0, seq!['\\', 't']) {
        seq!['\t'] + spec_unescape_tabs(s.skip(2))
    } else {
        seq![s[0]] + spec_unescape_tabs(s.skip(1))
    }
}

/// Strip leading white space.
pub open spec fn spec_trim_start(s: Seq<char>) -> Seq<char>
    decreases s.len(),
{
    if s.len() > 0 && is_whitespace_char(s[0]) {
        spec_trim_start(s.skip(1))
    } else {
        s
    }
}

/// Strip trailing white space.
pub open spec fn spec_trim_end(s: Seq<char>) -> Seq<char>
    decreases s.len(),
{
    if s.len() > 0 && is_whitespace_char(s.last()) {
        spec_trim_end(s.drop_last())
    } else {
        s
    }
}

/// Strip white space from both ends.
pub open spec fn spec_trim(s: Seq<char>) -> Seq<char> {
    spec_trim_end(spec_trim_start(s))
}

/// Strip white space from both ends, executable form.
fn trim_chars(v: &Vec<char>) -> (out: Vec<char>)
    ensures
        out@ == spec_trim(v@),
{
    let n = v.len();
    let mut i: usize = 0;
    proof {
        assert(v@.skip(0) =~= v@);
    }
    loop
        invariant_except_break
            i <= n == v@.len(),
            spec_trim_start(v@) == spec_trim_start(v@.skip(i as int)),
        ensures
            i <= n == v@.len(),
            spec_trim_start(v@) == v@.skip(i as int),
        decreases n - i,
    {
        if i >= n {
            proof {
                assert(v@.skip(i as int) =~= Seq::<char>::empty());
            }
            break;
        }
        if !is_whitespace_of(v[i]) {
            break;
        }
        proof {
            assert(v@.skip(i as int).skip(1) =~= v@.skip(i + 1));
        }
        i = i + 1;
    }
    let mut out = subvec(v, i, n);
    proof {
        assert(out@ =~= v@.skip(i as int));
        assert(spec_trim_start(v@) == out@);
    }
    let ghost started = out@;
    loop
        invariant_except_break
            spec_trim_end(out@) == spec_trim_end(started),
        ensures
            out@ == spec_trim_end(started),
        decreases out@.len(),
    {
        let m = out.len();
        if m == 0 {
            break;
        }
        if is_whitespace_of(out[m - 1]) {
            proof {
                assert(out@.drop_last() =~= out@.subrange(0, m - 1));
            }
            out.pop();
        } else {
            break;
        }
    }
    out
}

/// Replace `\t` escapes by tabs, executable form.
fn unescape_tabs(v: &Vec<char>) -> (out: Vec<char>)
    ensures
        out@ == spec_unescape_tabs(v@),
{
    let pat = vec!['\\', 't'];
    proof {
        assert(pat@ =~= seq!['\\', 't']);
    }
    let n = v.len();
    let mut out: Vec<char> = Vec::new();
    let mut i: usize = 0;
    proof {
        assert(v@.skip(0) =~= v@);
    }
    while i < n
        invariant
            i <= n == v@.len(),
            pat@ == seq!['\\', 't'],
            out@ + spec_unescape_tabs(v@.skip(i as int)) == spec_unescape_tabs(v@),
        decreases n - i,
    {
        let ghost pre = out@;
        let ghost t = v@.skip(i as int);
        proof {
            lemma_matches_at_shift(v@, i as int, pat@);
        }
        if matches_at_of(v, i, &pat) {
            out.push('\t');
            proof {
                assert(t.skip(2) =~= v@.skip(i + 2));
                assert(pre + (seq!['\t'] + spec_unescape_tabs(v@.skip(i + 2))) =~= out@
                    + spec_unescape_tabs(v@.skip(i + 2)));
            }
            i = i + 2;
        } else {
            out.push(v[i]);
            proof {
                assert(t.skip(1) =~= v@.skip(i + 1));
                assert(t[0] == v@[i as int]);
                assert(pre + (seq![v@[i as int]] + spec_unescape_tabs(v@.skip(i + 1))) =~= out@
                    + spec_unescape_tabs(v@.skip(i + 1)));
            }
            i = i + 1;
        }
    }
    proof {
        assert(v@.skip(n as int) =~= Seq::<char>::empty());
        assert(out@ + Seq::<char>::empty() =~= out@);
    }
    out
}

/// The entries of a delimited registry string: unescape tabs, then split on
/// commas.
pub open spec fn spec_simple_entries(s: Seq<char>) -> Seq<Seq<char>> {
    spec_split(spec_unescape_tabs(s), ',')
}

/// The tab-separated fields of one entry.
pub open spec fn entry_fields(e: Seq<char>) -> Seq<Seq<char>> {
    spec_split(e, '\t')
}

/// An entry is valid when it has exactly three fields.
pub open spec fn entry_valid(e: Seq<char>) -> bool {
    entry_fields(e).len() == 3
}

/// Some entry of the list is valid.
pub open spec fn any_valid_entry(entries: Seq<Seq<char>>) -> bool {
    exists|k: int| 0 <= k < entries.len() && entry_valid(#[trigger] entries[k])
}

/// The route and project of the last valid entry whose trimmed shoulder
/// field equals `name`; later entries replace earlier ones.
pub open spec fn last_valid_entry(entries: Seq<Seq<char>>, name: Seq<char>) -> Option<
    (Seq<char>, Seq<char>),
>
    decreases entries.len(),
{
    if entries.len() == 0 {
        None
    } else {
        let e = entries.last();
        if entry_valid(e) && spec_trim(entry_fields(e)[0]) == name {
            Some((spec_trim(entry_fields(e)[1]), spec_trim(entry_fields(e)[2])))
        } else {
            last_valid_entry(entries.drop_last(), name)
        }
    }
}

/// The registry's content agrees with the entry list: each name maps to the
/// route and project of the last valid entry for it, with check characters
/// on and no blade length override.
pub open spec fn registry_matches_entries(reg: ShoulderRegistry, entries: Seq<Seq<char>>) -> bool {
    forall|name: Seq<char>|
        match #[trigger] last_valid_entry(entries, name) {
            Some(rp) => reg.spec_get(name) matches Some(sh) && sh.route_pattern@ == rp.0
                && sh.project_name@ == rp.1 && sh.uses_check_character
                && sh.blade_length is None,
            None => reg.spec_get(name) is None,
        }
}

/// Parse the flat delimited registry format.
///
/// Each comma-separated entry must hold exactly three tab-separated fields,
/// `shoulder`, `route` and `project`, each trimmed of surrounding white
/// space; other entries are skipped. Later entries for the same shoulder
/// replace earlier ones; parsed shoulders use check characters and have no
/// blade length override. Fails only when no valid entry is found.
pub fn parse_shoulders_simple(simple_str: &str) -> (r: Result<ShoulderRegistry, String>)
    ensures
        r is Ok <==> any_valid_entry(spec_simple_entries(simple_str@)),
        r matches Err(m) ==> m@ == "No valid shoulders found in SHOULDERS configuration"@,
        r matches Ok(reg) ==> reg.wf() && registry_matches_entries(
            reg,
            spec_simple_entries(simple_str@),
        ),
{
    let v = to_char_vec(simple_str);
    let unescaped = unescape_tabs(&v);
    let entries = split_chars(&unescaped, ',');
    let ghost evs = spec_simple_entries(simple_str@);
    proof {
        assert(views_of(entries@) == evs);
    }
    let mut reg = ShoulderRegistry::new();
    let n = entries.len();
    let mut k: usize = 0;
    proof {
        assert(evs.take(0) =~= Seq::<Seq<char>>::empty());
    }
    while k < n
        invariant
            k <= n == evs.len(),
            views_of(entries@) == evs,
            entries@.len() == n,
            reg.wf(),
            any_valid_entry(evs.take(k as int)) <==> reg.spec_entries().len() > 0,
            registry_matches_entries(reg, evs.take(k as int)),
        decreases n - k,
    {
        let ghost pre_reg = reg;
        let entry = &entries[k];
        proof {
            assert(entry@ == evs[k as int]);
            assert(evs.take(k + 1).drop_last() =~= evs.take(k as int));
            assert(evs.take(k + 1).last() == evs[k as int]);
        }
        let fields = split_chars(entry, '\t');
        proof {
            assert(views_of(fields@) == entry_fields(evs[k as int]));
        }
        if fields.len() == 3 {
            let name_v = trim_chars(&fields[0]);
            let route_v = trim_chars(&fields[1]);
            let project_v = trim_chars(&fields[2]);
            proof {
                assert(fields@[0]@ == entry_fields(evs[k as int])[0]);
                assert(fields@[1]@ == entry_fields(evs[k as int])[1]);
                assert(fields@[2]@ == entry_fields(evs[k as int])[2]);
            }
            let name = chars_to_string(&name_v);
            let config = Shoulder {
                route_pattern: chars_to_string(&route_v),
                project_name: chars_to_string(&project_v),
                uses_check_character: true,
                blade_length: None,
            };
            let ghost nm = name@;
            let ghost cfg = config;
            reg.insert(name, config);
            proof {
                assert(nm == name_v@);
                assert(entry_valid(evs[k as int]));
                assert(spec_trim(entry_fields(evs[k as int])[0]) == nm);
                assert forall|other: Seq<char>|
                    match #[trigger] last_valid_entry(evs.take(k + 1), other) {
                        Some(rp) => reg.spec_get(other) matches Some(sh) && sh.route_pattern@
                            == rp.0 && sh.project_name@ == rp.1 && sh.uses_check_character
                            && sh.blade_length is None,
                        None => reg.spec_get(other) is None,
                    } by {
                    assert(registry_matches_entries(pre_reg, evs.take(k as int)));
                    if other == nm {
                        assert(reg.spec_get(other) == Some(cfg));
                        assert(last_valid_entry(evs.take(k + 1), other) == Some(
                            (
                                spec_trim(entry_fields(evs[k as int])[1]),
                                spec_trim(entry_fields(evs[k as int])[2]),
                            ),
                        ));
                    } else {
                        assert(last_valid_entry(evs.take(k + 1), other) == last_valid_entry(
                            evs.take(k as int),
                            other,
                        ));
                        assert(reg.spec_get(other) == pre_reg.spec_get(other));
                    }
                }
                assert(registry_matches_entries(reg, evs.take(k + 1)));
                assert(any_valid_entry(evs.take(k + 1)));
            }
        } else {
            proof {
                assert(!entry_valid(evs[k as int]));
                assert forall|other: Seq<char>|
                    match #[trigger] last_valid_entry(evs.take(k + 1), other) {
                        Some(rp) => reg.spec_get(other) matches Some(sh) && sh.route_pattern@
                            == rp.0 && sh.project_name@ == rp.1 && sh.uses_check_character
                            && sh.blade_length is None,
                        None => reg.spec_get(other) is None,
                    } by {
                    assert(registry_matches_entries(reg, evs.take(k as int)));
                    assert(last_valid_entry(evs.take(k + 1), other) == last_valid_entry(
                        evs.take(k as int),
                        other,
                    ));
                }
                assert(registry_matches_entries(reg, evs.take(k + 1)));
                assert(any_valid_entry(evs.take(k + 1)) <==> any_valid_entry(evs.take(k as int)))
                    by {
                    if any_valid_entry(evs.take(k + 1)) {
                        let j = choose|j: int|
                            0 <= j < evs.take(k + 1).len() && entry_valid(
                                #[trigger] evs.take(k + 1)[j],
                            );
                        if j < k {
                            assert(entry_valid(evs.take(k as int)[j]));
                        }
                    }
                }
            }
        }
        k = k + 1;
    }
    proof {
        assert(evs.take(n as int) =~= evs);
    }
    if reg.len() == 0 {
        return Err(String::from_str("No valid shoulders found in SHOULDERS configuration"));
    }
    Ok(reg)
}

/// Validate every registered route pattern, as done once at configuration
/// load: any rejected pattern fails the whole load.
pub fn validate_registry(reg: &ShoulderRegistry) -> (r: Result<(), String>)
    ensures
        r is Ok <==> forall|i: int|
            0 <= i < reg.spec_entries().len() ==> spec_route_pattern_ok(
                #[trigger] reg.spec_entries()[i].1.route_pattern@,
            ),
{
    let n = reg.len();
    let mut i: usize = 0;
    while i < n
        invariant
            i <= n == reg.spec_entries().len(),
            forall|k: int|
                0 <= k < i ==> spec_route_pattern_ok(
                    #[trigger] reg.spec_entries()[k].1.route_pattern@,
                ),
        decreases n - i,
    {
        let entry = reg.entry_at(i);
        match entry.1.validate_route_pattern() {
            Ok(_) => {},
            Err(e) => {
                let msg = String::from_str("Security validation failed for shoulder '").concat(
                    entry.0.as_str(),
                ).concat("': ").concat(e.as_str());
                return Err(msg);
            },
        }
        i = i + 1;
    }
    Ok(())
}

} // verus!
