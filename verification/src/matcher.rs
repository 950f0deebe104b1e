//! Fuzzy target matching: a comma-separated pattern list is evaluated against
//! a list of candidate names.  A candidate matches a sub-pattern by exact
//! equality, by glob matching when the sub-pattern carries a glob wildcard
//! (`*`, `?` or a bracket class), or by case-insensitive substring
//! containment under Unicode lowercase folding.  Matches are collected in
//! order of first match and deduplicated.

use vstd::prelude::*;

use crate::strutil::{
    contains_seq, contains_str, find_char_str, lower_of, lowercase, split_spec, split_str, str_eq,
    trim_spec, trim_str, vec_contains_string,
};

verus! {


/// What `glob::Pattern::new(pat)` followed by `Pattern::matches(name)`
/// returns: whether `pat` parses as a glob pattern and matches `name`.
/// Both steps depend on the two strings alone.
pub uninterp spec fn glob_accepts(pat: Seq<char>, name: Seq<char>) -> bool;

/// Relies on glob::Pattern::new and glob::Pattern::matches.  A pattern
/// that does not parse as a glob matches nothing.
#[verifier::external_body]
fn glob_matches(pat: &str, name: &str) -> (r: bool)
    ensures
        r == glob_accepts(pat@, name@),
{
    match glob::Pattern::new(pat) {
        Ok(p) => p.matches(name),
        Err(_) => false,
    }
}

/// A sub-pattern carries a glob wildcard: `*`, `?` or the opening of a
/// bracket class.
pub open spec fn has_glob_char(p: Seq<char>) -> bool {
    p.contains('*') || p.contains('?') || p.contains('[')
}

fn has_glob_char_exec(p: &str) -> (r: bool)
    ensures
        r == has_glob_char(p@),
{
    match find_char_str(p, '*') {
        Some(i) => {
            proof {
                assert(p@[i as int] == '*');
                assert(p@.contains('*'));
            }
            return true;
        },
        None => {
            proof {
                assert(!p@.contains('*'));
            }
        },
    }
    match find_char_str(p, '?') {
        Some(i) => {
            proof {
                assert(p@[i as int] == '?');
                assert(p@.contains('?'));
            }
            return true;
        },
        None => {
            proof {
                assert(!p@.contains('?'));
            }
        },
    }
    match find_char_str(p, '[') {
        Some(i) => {
            proof {
                assert(p@[i as int] == '[');
                assert(p@.contains('['));
            }
            true
        },
        None => {
            proof {
                assert(!p@.contains('['));
            }
            false
        },
    }
}

/// One sub-pattern matches a candidate name: exact equality, glob matching
/// (only when the sub-pattern carries a glob wildcard), or
/// case-insensitive substring containment.
pub open spec fn sub_matches(p: Seq<char>, name: Seq<char>) -> bool {
    ||| p == name
    ||| (has_glob_char(p) && glob_accepts(p, name))
    ||| contains_seq(lower_of(name), lower_of(p))
}

fn matches_one(p: &str, name: &str) -> (r: bool)
    ensures
        r == sub_matches(p@, name@),
{
    if str_eq(p, name) {
        return true;
    }
    if has_glob_char_exec(p) {
        if glob_matches(p, name) {
            return true;
        }
    }
    let folded_name = lowercase(name);
    let folded_p = lowercase(p);
    contains_str(folded_name.as_str(), folded_p.as_str())
}

/// One matching step: a name is appended to the accumulator when it is not
/// already there and the sub-pattern matches it.
pub open spec fn match_step(acc: Seq<Seq<char>>, name: Seq<char>, p: Seq<char>) -> Seq<Seq<char>> {
    if !acc.contains(name) && sub_matches(p, name) {
        acc.push(name)
    } else {
        acc
    }
}

/// Folds one sub-pattern over the whole candidate list.
pub open spec fn add_name_matches(
    acc: Seq<Seq<char>>,
    names: Seq<Seq<char>>,
    p: Seq<char>,
) -> Seq<Seq<char>>
    decreases names.len(),
{
    if names.len() == 0 {
        acc
    } else {
        add_name_matches(match_step(acc, names[0], p), names.drop_first(), p)
    }
}

/// Folds every sub-pattern, in order, over the candidate list.
pub open spec fn fuzzy_from(
    acc: Seq<Seq<char>>,
    names: Seq<Seq<char>>,
    pats: Seq<Seq<char>>,
) -> Seq<Seq<char>>
    decreases pats.len(),
{
    if pats.len() == 0 {
        acc
    } else {
        fuzzy_from(add_name_matches(acc, names, pats[0]), names, pats.drop_first())
    }
}

/// The candidate names matched by a list of sub-patterns, ordered by first
/// match and deduplicated.
pub open spec fn fuzzy_match_spec(names: Seq<Seq<char>>, pats: Seq<Seq<char>>) -> Seq<Seq<char>> {
    fuzzy_from(Seq::empty(), names, pats)
}

proof fn lemma_add_snoc(acc: Seq<Seq<char>>, ns: Seq<Seq<char>>, p: Seq<char>, x: Seq<char>)
    ensures
        add_name_matches(acc, ns.push(x), p) == match_step(add_name_matches(acc, ns, p), x, p),
    decreases ns.len(),
{
    reveal_with_fuel(add_name_matches, 2);
    if ns.len() == 0 {
        assert(ns.push(x).drop_first() =~~= Seq::<Seq<char>>::empty());
        assert(ns.push(x)[0] == x);
    } else {
        assert(ns.push(x).drop_first() =~~= ns.drop_first().push(x));
        lemma_add_snoc(match_step(acc, ns[0], p), ns.drop_first(), p, x);
    }
}

proof fn lemma_fuzzy_snoc(acc: Seq<Seq<char>>, names: Seq<Seq<char>>, ps: Seq<Seq<char>>, q: Seq<char>)
    ensures
        fuzzy_from(acc, names, ps.push(q)) == add_name_matches(
            fuzzy_from(acc, names, ps),
            names,
            q,
        ),
    decreases ps.len(),
{
    reveal_with_fuel(fuzzy_from, 2);
    if ps.len() == 0 {
        assert(ps.push(q).drop_first() =~~= Seq::<Seq<char>>::empty());
        assert(ps.push(q)[0] == q);
    } else {
        assert(ps.push(q).drop_first() =~~= ps.drop_first().push(q));
        lemma_fuzzy_snoc(add_name_matches(acc, names, ps[0]), names, ps.drop_first(), q);
    }
}

/// Evaluates every sub-pattern against every candidate name, collecting
/// matches in order of first match, without duplicates.
pub fn fuzzy_match(names: &Vec<String>, pats: &Vec<String>) -> (r: Vec<String>)
    ensures
        r.deep_view() == fuzzy_match_spec(names.deep_view(), pats.deep_view()),
{
    let mut matched: Vec<String> = Vec::new();
    let np = pats.len();
    let mut pi: usize = 0;
    proof {
        assert(pats.deep_view().take(0) =~~= Seq::<Seq<char>>::empty());
    }
    while pi < np
        invariant
            np == pats@.len(),
            pi <= np,
            matched.deep_view() == fuzzy_from(
                Seq::<Seq<char>>::empty(),
                names.deep_view(),
                pats.deep_view().take(pi as int),
            ),
        decreases np - pi,
    {
        let ghost start_acc = matched.deep_view();
        let nn = names.len();
        let mut ni: usize = 0;
        proof {
            assert(names.deep_view().take(0) =~~= Seq::<Seq<char>>::empty());
        }
        while ni < nn
            invariant
                nn == names@.len(),
                ni <= nn,
                np == pats@.len(),
                pi < np,
                matched.deep_view() == add_name_matches(
                    start_acc,
                    names.deep_view().take(ni as int),
                    pats.deep_view()[pi as int],
                ),
            decreases nn - ni,
        {
            let already = vec_contains_string(&matched, names[ni].as_str());
            if !already && matches_one(pats[pi].as_str(), names[ni].as_str()) {
                matched.push(names[ni].clone());
                proof {
                    assert(matched.deep_view() =~~= match_step(
                        add_name_matches(
                            start_acc,
                            names.deep_view().take(ni as int),
                            pats.deep_view()[pi as int],
                        ),
                        names.deep_view()[ni as int],
                        pats.deep_view()[pi as int],
                    ));
                }
            }
            proof {
                lemma_add_snoc(
                    start_acc,
                    names.deep_view().take(ni as int),
                    pats.deep_view()[pi as int],
                    names.deep_view()[ni as int],
                );
                assert(names.deep_view().take(ni + 1) =~~= names.deep_view().take(
                    ni as int,
                ).push(names.deep_view()[ni as int]));
            }
            ni += 1;
        }
        proof {
            assert(names.deep_view().take(nn as int) =~~= names.deep_view());
            lemma_fuzzy_snoc(
                Seq::<Seq<char>>::empty(),
                names.deep_view(),
                pats.deep_view().take(pi as int),
                pats.deep_view()[pi as int],
            );
            assert(pats.deep_view().take(pi + 1) =~~= pats.deep_view().take(pi as int).push(
                pats.deep_view()[pi as int],
            ));
        }
        pi += 1;
    }
    proof {
        assert(pats.deep_view().take(np as int) =~~= pats.deep_view());
    }
    matched
}

/// First-occurrence deduplication, folded left with an accumulator.
pub open spec fn dedup_from(acc: Seq<Seq<char>>, pats: Seq<Seq<char>>) -> Seq<Seq<char>>
    decreases pats.len(),
{
    if pats.len() == 0 {
        acc
    } else {
        dedup_from(
            if acc.contains(pats[0]) {
                acc
            } else {
                acc.push(pats[0])
            },
            pats.drop_first(),
        )
    }
}

/// A list with later duplicates dropped, first occurrences kept in order.
pub open spec fn dedup_first_spec(pats: Seq<Seq<char>>) -> Seq<Seq<char>> {
    dedup_from(Seq::empty(), pats)
}

proof fn lemma_add_exact(acc: Seq<Seq<char>>, names: Seq<Seq<char>>, p: Seq<char>)
    requires
        forall|j: int| 0 <= j < names.len() ==> (sub_matches(p, #[trigger] names[j]) ==> names[j]
            == p),
    ensures
        add_name_matches(acc, names, p) == if names.contains(p) && !acc.contains(p) {
            acc.push(p)
        } else {
            acc
        },
    decreases names.len(),
{
    if names.len() == 0 {
        assert(!names.contains(p));
    } else {
        let rest = names.drop_first();
        assert forall|j: int| 0 <= j < rest.len() implies (sub_matches(p, #[trigger] rest[j])
            ==> rest[j] == p) by {
            assert(rest[j] == names[j + 1]);
        }
        if names[0] == p {
            assert(sub_matches(p, names[0]));
            let acc2 = match_step(acc, p, p);
            assert(acc2.contains(p)) by {
                if !acc.contains(p) {
                    assert(acc.push(p)[acc.len() as int] == p);
                }
            }
            lemma_add_exact(acc2, rest, p);
            assert(names.contains(p)) by {
                assert(names[0] == p);
            }
        } else {
            assert(!sub_matches(p, names[0]));
            assert(match_step(acc, names[0], p) == acc);
            lemma_add_exact(acc, rest, p);
            assert(names.contains(p) == rest.contains(p)) by {
                if names.contains(p) {
                    let w = choose|w: int| 0 <= w < names.len() && names[w] == p;
                    assert(rest[w - 1] == p);
                }
                if rest.contains(p) {
                    let w = choose|w: int| 0 <= w < rest.len() && rest[w] == p;
                    assert(names[w + 1] == p);
                }
            }
        }
    }
}

proof fn lemma_fuzzy_exact_from(acc: Seq<Seq<char>>, names: Seq<Seq<char>>, pats: Seq<Seq<char>>)
    requires
        forall|k: int| 0 <= k < pats.len() ==> names.contains(#[trigger] pats[k]),
        forall|k: int| 0 <= k < pats.len() ==> !has_glob_char(#[trigger] pats[k]),
        forall|k: int, j: int|
            0 <= k < pats.len() && 0 <= j < names.len() && contains_seq(
                lower_of(#[trigger] names[j]),
                lower_of(#[trigger] pats[k]),
            ) ==> names[j] == pats[k],
    ensures
        fuzzy_from(acc, names, pats) == dedup_from(acc, pats),
    decreases pats.len(),
{
    if pats.len() > 0 {
        let p = pats[0];
        assert forall|j: int| 0 <= j < names.len() implies (sub_matches(p, #[trigger] names[j])
            ==> names[j] == p) by {
            if sub_matches(p, names[j]) && names[j] != p {
                assert(!has_glob_char(p));
                assert(contains_seq(lower_of(names[j]), lower_of(p)));
            }
        }
        lemma_add_exact(acc, names, p);
        let rest = pats.drop_first();
        assert forall|k: int| 0 <= k < rest.len() implies names.contains(#[trigger] rest[k])
            && !has_glob_char(#[trigger] rest[k]) by {
            assert(rest[k] == pats[k + 1]);
        }
        assert forall|k: int, j: int|
            0 <= k < rest.len() && 0 <= j < names.len() && contains_seq(
                lower_of(#[trigger] names[j]),
                lower_of(#[trigger] rest[k]),
            ) implies names[j] == rest[k] by {
            assert(rest[k] == pats[k + 1]);
        }
        lemma_fuzzy_exact_from(add_name_matches(acc, names, p), names, rest);
        assert(names.contains(p));
    }
}

/// Law: a pattern list made only of exact candidate names, with no
/// wildcard and with case-insensitive containment relating no two distinct
/// strings among them, matches exactly those names, deduplicated, in
/// first-occurrence order.  The hypotheses stand as an implication so that
/// no caller obligation mentions the folding's named result.
pub proof fn lemma_exact_patterns_match(names: Seq<Seq<char>>, pats: Seq<Seq<char>>)
    ensures
        ((forall|k: int| 0 <= k < pats.len() ==> names.contains(#[trigger] pats[k])) && (forall|
            k: int,
        | 0 <= k < pats.len() ==> !has_glob_char(#[trigger] pats[k])) && (forall|k: int, j: int|
            0 <= k < pats.len() && 0 <= j < names.len() && contains_seq(
                lower_of(#[trigger] names[j]),
                lower_of(#[trigger] pats[k]),
            ) ==> names[j] == pats[k])) ==> fuzzy_match_spec(names, pats) == dedup_first_spec(
            pats,
        ),
{
    if (forall|k: int| 0 <= k < pats.len() ==> names.contains(#[trigger] pats[k])) && (forall|
        k: int,
    | 0 <= k < pats.len() ==> !has_glob_char(#[trigger] pats[k])) && (forall|k: int, j: int|
        0 <= k < pats.len() && 0 <= j < names.len() && contains_seq(
            lower_of(#[trigger] names[j]),
            lower_of(#[trigger] pats[k]),
        ) ==> names[j] == pats[k]) {
        lemma_fuzzy_exact_from(Seq::empty(), names, pats);
    }
}

/// The sub-patterns of a comma-separated pattern string, each trimmed.
pub open spec fn pattern_list_spec(pattern: Seq<char>) -> Seq<Seq<char>> {
    split_spec(pattern, ',').map_values(|x: Seq<char>| trim_spec(x))
}

/// Splits a pattern string at commas and trims each piece.
pub fn split_patterns(pattern: &str) -> (r: Vec<String>)
    ensures
        r.deep_view() == pattern_list_spec(pattern@),
{
    let parts = split_str(pattern, ',');
    let mut out: Vec<String> = Vec::new();
    let n = parts.len();
    proof {
        assert(pattern_list_spec(pattern@).len() == n);
    }
    let mut i: usize = 0;
    while i < n
        invariant
            n == parts@.len(),
            i <= n,
            parts.deep_view() == split_spec(pattern@, ','),
            pattern_list_spec(pattern@).len() == n,
            out@.len() == i,
            forall|k: int| 0 <= k < i ==> out@[k]@ == pattern_list_spec(pattern@)[k],
        decreases n - i,
    {
        let ghost prev = out@;
        let t = trim_str(parts[i].as_str());
        out.push(t);
        proof {
            assert(parts.deep_view()[i as int] == parts@[i as int]@);
            assert forall|k: int| 0 <= k < i + 1 implies out@[k]@ == pattern_list_spec(
                pattern@,
            )[k] by {
                if k == i {
                    assert(out@[k] == t);
                } else {
                    assert(out@[k] == prev[k]);
                    assert(prev[k]@ == pattern_list_spec(pattern@)[k]);
                }
            }
        }
        i += 1;
    }
    proof {
        assert forall|k: int| 0 <= k < n implies out.deep_view()[k] == pattern_list_spec(
            pattern@,
        )[k] by {
            assert(out@[k]@ == pattern_list_spec(pattern@)[k]);
        }
        assert(out.deep_view() =~~= pattern_list_spec(pattern@));
    }
    out
}

/// The applications matched by an application pattern.
pub open spec fn match_apps_spec(apps: Seq<Seq<char>>, pattern: Seq<char>) -> Seq<Seq<char>> {
    fuzzy_match_spec(apps, pattern_list_spec(pattern))
}

/// Expands an application pattern against the application name list.
pub fn match_apps_fuzzy(apps: &Vec<String>, pattern: &str) -> (r: Vec<String>)
    ensures
        r.deep_view() == match_apps_spec(apps.deep_view(), pattern@),
{
    let pats = split_patterns(pattern);
    fuzzy_match(apps, &pats)
}

/// The actions matched by an action pattern; the literal pattern `all`
/// selects every action, bypassing the matching rules.
pub open spec fn match_actions_spec(actions: Seq<Seq<char>>, pattern: Seq<char>) -> Seq<Seq<char>> {
    if pattern == "all"@ {
        actions
    } else {
        fuzzy_match_spec(actions, pattern_list_spec(pattern))
    }
}

/// Expands an action pattern against one application's action list.
pub fn match_actions_fuzzy(actions: &Vec<String>, pattern: &str) -> (r: Vec<String>)
    ensures
        r.deep_view() == match_actions_spec(actions.deep_view(), pattern@),
        pattern@ == "all"@ ==> r.deep_view() == actions.deep_view(),
{
    if str_eq(pattern, "all") {
        let mut out: Vec<String> = Vec::new();
        let n = actions.len();
        let mut i: usize = 0;
        while i < n
            invariant
                n == actions@.len(),
                i <= n,
                out@.len() == i,
                forall|k: int| 0 <= k < i ==> out@[k]@ == actions@[k]@,
            decreases n - i,
        {
            let ghost prev = out@;
            out.push(actions[i].clone());
            proof {
                assert forall|k: int| 0 <= k < i + 1 implies out@[k]@ == actions@[k]@ by {
                    if k < i {
                        assert(out@[k] == prev[k]);
                        assert(prev[k]@ == actions@[k]@);
                    }
                }
            }
            i += 1;
        }
        proof {
            assert forall|k: int| 0 <= k < n implies out.deep_view()[k] == actions.deep_view()[k] by {
                assert(out@[k]@ == actions@[k]@);
            }
            assert(out.deep_view() =~~= actions.deep_view());
        }
        out
    } else {
        let pats = split_patterns(pattern);
        fuzzy_match(actions, &pats)
    }
}

} // verus!
