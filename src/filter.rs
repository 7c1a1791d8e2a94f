use vstd::prelude::*;
use vstd::string::*;

use crate::pattern::{
    anchored, loose_pattern, prefix_body, prefix_pattern, semi_fuzzy_body, substring_body,
};
use crate::text::chars_of;

verus! {

/// How names are matched: `case_insensitive` folds case in every tier;
/// `ignore_dot` admits hidden names (those that start with `.`) to the
/// empty-token listing and to every tier.
#[derive(Clone, Copy, Debug)]
pub struct Options {
    pub case_insensitive: bool,
    pub ignore_dot: bool,
}

/// Whether the regex engine, given `pattern` (case-insensitive or not), accepts it.
pub uninterp spec fn regex_compiles(pattern: Seq<char>, case_insensitive: bool) -> bool;

/// Whether the compiled `pattern` matches somewhere in `haystack`.
pub uninterp spec fn regex_is_match(
    pattern: Seq<char>,
    case_insensitive: bool,
    haystack: Seq<char>,
) -> bool;

/// Relies on `regex::RegexBuilder::new(..).case_insensitive(..).build()`, which
/// fails only on a pattern the engine rejects, and on `regex::Regex::is_match`,
/// asked of each name in turn.
#[verifier::external_body]
fn match_names(pattern: &str, case_insensitive: bool, names: &Vec<String>) -> (r: Option<
    Vec<bool>,
>)
    ensures
        r is Some <==> regex_compiles(pattern@, case_insensitive),
        r matches Some(hits) ==> {
            &&& hits@.len() == names@.len()
            &&& forall|i: int|
                0 <= i < names@.len() ==> hits@[i] == regex_is_match(
                    pattern@,
                    case_insensitive,
                    names@[i]@,
                )
        },
{
    match regex::RegexBuilder::new(pattern).case_insensitive(case_insensitive).build() {
        Ok(re) => Some(names.iter().map(|name| re.is_match(name)).collect()),
        Err(_) => None,
    }
}

/// The names as character sequences.
pub open spec fn names_of(v: Seq<String>) -> Seq<Seq<char>> {
    v.map_values(|s: String| s@)
}

pub open spec fn names_opt(r: Option<Vec<String>>) -> Option<Seq<Seq<char>>> {
    match r {
        Some(v) => Some(names_of(v@)),
        None => None,
    }
}

pub open spec fn is_hidden(name: Seq<char>) -> bool {
    name.len() > 0 && name[0] == '.'
}

/// The names that are not hidden, in their order.
pub open spec fn visible(names: Seq<Seq<char>>) -> Seq<Seq<char>> {
    names.filter(|n: Seq<char>| !is_hidden(n))
}

/// The names that `pattern` matches, in their order.
pub open spec fn matching(names: Seq<Seq<char>>, pattern: Seq<char>, case_insensitive: bool) -> Seq<
    Seq<char>,
> {
    names.filter(|n: Seq<char>| regex_is_match(pattern, case_insensitive, n))
}

/// What one tier yields: the matching names, or nothing where the engine
/// rejects the pattern.
pub open spec fn tier(names: Seq<Seq<char>>, pattern: Seq<char>, case_insensitive: bool) -> Option<
    Seq<Seq<char>>,
> {
    if regex_compiles(pattern, case_insensitive) {
        Some(matching(names, pattern, case_insensitive))
    } else {
        None
    }
}

/// The first tier that yields something wins; an empty tier hands over to the
/// next, and after the last the names pass unfiltered.
pub open spec fn cascade(
    names: Seq<Seq<char>>,
    outcome: Option<Seq<Seq<char>>>,
    next: Option<Seq<Seq<char>>>,
) -> Option<Seq<Seq<char>>> {
    match outcome {
        None => None,
        Some(found) => if found.len() > 0 {
            Some(found)
        } else {
            next
        },
    }
}

/// The names that `token` selects under `options`: on an empty token every
/// name (hidden ones only where admitted); else the prefix, substring and
/// semi-fuzzy tiers in turn, the first non-empty one winning, and all names
/// where none matches. Nothing where a tier that was reached has a pattern
/// the engine rejects.
pub open spec fn filtered(token: Seq<char>, options: Options, names: Seq<Seq<char>>) -> Option<
    Seq<Seq<char>>,
> {
    let ci = options.case_insensitive;
    let dot = options.ignore_dot;
    if token.len() == 0 {
        Some(
            if dot {
                names
            } else {
                visible(names)
            },
        )
    } else {
        cascade(
            names,
            tier(names, anchored(prefix_body(token, dot)), ci),
            cascade(
                names,
                tier(names, anchored(substring_body(token, dot)), ci),
                cascade(names, tier(names, anchored(semi_fuzzy_body(token, dot)), ci), Some(names)),
            ),
        )
    }
}

/// Once the prefix tier finds a name, its names are the result: what the
/// substring and semi-fuzzy tiers would find plays no part.
pub proof fn lemma_prefix_tier_wins(token: Seq<char>, options: Options, names: Seq<Seq<char>>)
    requires
        token.len() > 0,
        tier(names, anchored(prefix_body(token, options.ignore_dot)), options.case_insensitive) matches Some(
            found,
        ) && found.len() > 0,
    ensures
        filtered(token, options, names) == tier(
            names,
            anchored(prefix_body(token, options.ignore_dot)),
            options.case_insensitive,
        ),
{
}

/// An empty token lists every name where hidden names are admitted; else it
/// lists, in order, exactly the names that are not hidden.
pub proof fn lemma_empty_token_listing(options: Options, names: Seq<Seq<char>>)
    ensures
        options.ignore_dot ==> filtered(Seq::empty(), options, names) == Some(names),
        !options.ignore_dot ==> filtered(Seq::empty(), options, names) == Some(visible(names)),
        forall|i: int| 0 <= i < visible(names).len() ==> !is_hidden(#[trigger] visible(names)[i]),
        forall|n: Seq<char>| #[trigger]
            visible(names).contains(n) <==> (names.contains(n) && !is_hidden(n)),
{
    broadcast use Seq::lemma_filter_pred, Seq::lemma_filter_contains_rev;

    let pred = |n: Seq<char>| !is_hidden(n);
    let listed = names.filter(pred);
    assert forall|n: Seq<char>| names.contains(n) && !is_hidden(n) implies listed.contains(n) by {
        let i = choose|i: int| 0 <= i < names.len() && names[i] == n;
        names.lemma_filter_contains(pred, i);
    }
}

/// A non-empty token that no tier matches passes every name through; so where
/// there are names, a non-empty token never selects none of them.
pub proof fn lemma_unfiltered_fallback(token: Seq<char>, options: Options, names: Seq<Seq<char>>)
    requires
        token.len() > 0,
    ensures
        ({
            let ci = options.case_insensitive;
            let dot = options.ignore_dot;
            &&& (tier(names, anchored(prefix_body(token, dot)), ci) matches Some(p) && p.len() == 0)
            &&& (tier(names, anchored(substring_body(token, dot)), ci) matches Some(s) && s.len()
                == 0)
            &&& (tier(names, anchored(semi_fuzzy_body(token, dot)), ci) matches Some(f) && f.len()
                == 0)
        }) ==> filtered(token, options, names) == Some(names),
        names.len() > 0 && filtered(token, options, names) is Some ==> filtered(
            token,
            options,
            names,
        )->Some_0.len() > 0,
{
}

proof fn lemma_names_push(v: Seq<String>, s: String)
    ensures
        names_of(v.push(s)) == names_of(v).push(s@),
{
    assert(names_of(v.push(s)) =~= names_of(v).push(s@));
}

proof fn lemma_names_take(v: Seq<String>, k: int)
    requires
        0 <= k < v.len(),
    ensures
        names_of(v).take(k + 1).drop_last() == names_of(v).take(k),
        names_of(v).take(k + 1).last() == v[k]@,
{
    assert(names_of(v).take(k + 1).drop_last() =~= names_of(v).take(k));
}

fn starts_with_dot(s: &str) -> (r: bool)
    ensures
        r == is_hidden(s@),
{
    s.unicode_len() > 0 && s.get_char(0) == '.'
}

/// Copies of the names that are not hidden.
fn visible_names(subdirs: &Vec<String>) -> (r: Vec<String>)
    ensures
        names_of(r@) == visible(names_of(subdirs@)),
{
    let mut r: Vec<String> = Vec::new();
    let mut k: usize = 0;
    while k < subdirs.len()
        invariant
            k <= subdirs@.len(),
            names_of(r@) == visible(names_of(subdirs@).take(k as int)),
        decreases subdirs@.len() - k,
    {
        proof {
            lemma_names_take(subdirs@, k as int);
            reveal(Seq::filter);
        }
        if !starts_with_dot(subdirs[k].as_str()) {
            let name = subdirs[k].clone();
            proof {
                lemma_names_push(r@, name);
            }
            r.push(name);
        }
        k = k + 1;
    }
    assert(names_of(subdirs@).take(k as int) =~= names_of(subdirs@));
    r
}

/// The names whose flag in `hits` is set, in their order; a name without a
/// flag is left out.
pub open spec fn kept(names: Seq<Seq<char>>, hits: Seq<bool>) -> Seq<Seq<char>>
    decreases names.len(),
{
    if names.len() == 0 {
        Seq::empty()
    } else {
        let last = names.len() - 1;
        if last < hits.len() && hits[last] {
            kept(names.drop_last(), hits).push(names.last())
        } else {
            kept(names.drop_last(), hits)
        }
    }
}

proof fn lemma_kept_matching(
    names: Seq<Seq<char>>,
    hits: Seq<bool>,
    pattern: Seq<char>,
    case_insensitive: bool,
)
    requires
        hits.len() == names.len(),
        forall|i: int|
            0 <= i < names.len() ==> hits[i] == regex_is_match(pattern, case_insensitive, names[i]),
    ensures
        kept(names, hits) == matching(names, pattern, case_insensitive),
    decreases names.len(),
{
    reveal(Seq::filter);
    if names.len() > 0 {
        let shorter = names.drop_last();
        lemma_kept_matching_prefix(names, hits);
        lemma_kept_matching(shorter, hits.take(shorter.len() as int), pattern, case_insensitive);
    }
}

proof fn lemma_kept_matching_prefix(names: Seq<Seq<char>>, hits: Seq<bool>)
    requires
        names.len() > 0,
        hits.len() == names.len(),
    ensures
        kept(names.drop_last(), hits) == kept(names.drop_last(), hits.take(names.len() - 1)),
{
    lemma_kept_flags(names.drop_last(), hits, hits.take(names.len() - 1));
}

proof fn lemma_kept_flags(names: Seq<Seq<char>>, hits: Seq<bool>, other: Seq<bool>)
    requires
        hits.len() >= names.len(),
        other.len() >= names.len(),
        forall|i: int| 0 <= i < names.len() ==> hits[i] == other[i],
    ensures
        kept(names, hits) == kept(names, other),
    decreases names.len(),
{
    if names.len() > 0 {
        lemma_kept_flags(names.drop_last(), hits, other);
    }
}

/// Copies of the names whose flag in `hits` is set, in their order.
pub fn keep_hits(subdirs: &Vec<String>, hits: &Vec<bool>) -> (r: Vec<String>)
    ensures
        names_of(r@) == kept(names_of(subdirs@), hits@),
{
    let mut r: Vec<String> = Vec::new();
    let mut k: usize = 0;
    while k < subdirs.len()
        invariant
            k <= subdirs@.len(),
            names_of(r@) == kept(names_of(subdirs@).take(k as int), hits@),
        decreases subdirs@.len() - k,
    {
        proof {
            lemma_names_take(subdirs@, k as int);
        }
        if k < hits.len() && hits[k] {
            let name = subdirs[k].clone();
            proof {
                lemma_names_push(r@, name);
            }
            r.push(name);
        }
        k = k + 1;
    }
    assert(names_of(subdirs@).take(k as int) =~= names_of(subdirs@));
    r
}

/// Copies of the names that `pattern` matches, or `None` where the engine
/// rejects the pattern.
fn tier_names(pattern: &String, case_insensitive: bool, subdirs: &Vec<String>) -> (r: Option<
    Vec<String>,
>)
    ensures
        names_opt(r) == tier(names_of(subdirs@), pattern@, case_insensitive),
{
    match match_names(pattern.as_str(), case_insensitive, subdirs) {
        Some(hits) => {
            proof {
                lemma_kept_matching(names_of(subdirs@), hits@, pattern@, case_insensitive);
            }
            Some(keep_hits(subdirs, &hits))
        },
        None => None,
    }
}

/// The subdirectory names that `search_term` selects under `options` (see
/// `filtered`). `None` only where the regex engine rejects the pattern of a
/// tier that was reached.
pub fn filter_dir_list(search_term: &str, options: &Options, subdirs: &Vec<String>) -> (r: Option<
    Vec<String>,
>)
    ensures
        names_opt(r) == filtered(search_term@, *options, names_of(subdirs@)),
{
    let token = chars_of(search_term);
    let ci = options.case_insensitive;
    let dot = options.ignore_dot;
    if token.len() == 0 {
        if dot {
            return Some(subdirs.clone());
        } else {
            return Some(visible_names(subdirs));
        }
    }
    let prefix = prefix_pattern(&token, dot);
    match tier_names(&prefix, ci, subdirs) {
        None => {
            return None;
        },
        Some(found) => {
            if found.len() > 0 {
                return Some(found);
            }
        },
    }
    let substring = loose_pattern(&token, dot, false);
    match tier_names(&substring, ci, subdirs) {
        None => {
            return None;
        },
        Some(found) => {
            if found.len() > 0 {
                return Some(found);
            }
        },
    }
    let semi = loose_pattern(&token, dot, true);
    match tier_names(&semi, ci, subdirs) {
        None => None,
        Some(found) => {
            if found.len() > 0 {
                Some(found)
            } else {
                Some(subdirs.clone())
            }
        },
    }
}

} // verus!
