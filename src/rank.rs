use vstd::prelude::*;
use vstd::set_lib::{lemma_int_range, lemma_subset_equality, set_int_range};
use vstd::string::*;

use crate::distance::{edit_distance, levenshtein};
use crate::filter::{filter_dir_list, filtered, is_hidden, names_of, Options};

verus! {

/// A name with one leading hidden marker removed, so that hidden and plain
/// names rank alike.
pub open spec fn unhidden(name: Seq<char>) -> Seq<char> {
    if is_hidden(name) {
        name.drop_first()
    } else {
        name
    }
}

/// The ranking key of each name: its edit distance to the token.
pub open spec fn rank_keys(token: Seq<char>, names: Seq<Seq<char>>) -> Seq<nat> {
    Seq::new(names.len(), |k: int| edit_distance(token, unhidden(names[k])))
}

/// Position `a` ranks before position `b`: a smaller key, or an equal key and
/// an earlier place.
pub open spec fn ranks_before(keys: Seq<nat>, a: int, b: int) -> bool {
    keys[a] < keys[b] || (keys[a] == keys[b] && a < b)
}

/// `order` lists positions of `keys`, each ranking before the next: a stable
/// ascending order of all of them.
pub open spec fn is_ranking(keys: Seq<nat>, order: Seq<int>) -> bool {
    &&& order.len() == keys.len()
    &&& forall|i: int| 0 <= i < order.len() ==> 0 <= #[trigger] order[i] < keys.len()
    &&& forall|i: int, j: int|
        0 <= i < j < order.len() ==> ranks_before(keys, #[trigger] order[i], #[trigger] order[j])
}

/// `ranked` is `names` sorted by ascending edit distance to `token`, names at
/// equal distance keeping their relative order.
pub open spec fn is_ranked(token: Seq<char>, names: Seq<Seq<char>>, ranked: Seq<Seq<char>>) -> bool {
    exists|order: Seq<int>|
        is_ranking(rank_keys(token, names), order) && ranked == order.map_values(
            |k: int| names[k],
        )
}

proof fn lemma_ranking_covers(keys: Seq<nat>, order: Seq<int>, p: int)
    requires
        is_ranking(keys, order),
        0 <= p < keys.len(),
    ensures
        order.contains(p),
{
    let all = set_int_range(0, keys.len() as int);
    assert(order.no_duplicates()) by {
        assert forall|i: int, j: int| 0 <= i < order.len() && 0 <= j < order.len() && i != j implies order[i]
            != order[j] by {
            if i < j {
                assert(ranks_before(keys, order[i], order[j]));
            } else {
                assert(ranks_before(keys, order[j], order[i]));
            }
        }
    }
    order.unique_seq_to_set();
    lemma_int_range(0, keys.len() as int);
    assert(order.to_set().subset_of(all));
    lemma_subset_equality(order.to_set(), all);
    assert(all.contains(p));
}

proof fn lemma_rankings_agree_below(keys: Seq<nat>, first: Seq<int>, second: Seq<int>, k: int)
    requires
        is_ranking(keys, first),
        is_ranking(keys, second),
        0 <= k <= keys.len(),
    ensures
        forall|i: int| 0 <= i < k ==> first[i] == second[i],
    decreases k,
{
    if k > 0 {
        let m = k - 1;
        lemma_rankings_agree_below(keys, first, second, m);
        if first[m] != second[m] {
            lemma_ranking_covers(keys, second, first[m]);
            lemma_ranking_covers(keys, first, second[m]);
            let j = choose|j: int| 0 <= j < second.len() && second[j] == first[m];
            let l = choose|l: int| 0 <= l < first.len() && first[l] == second[m];
            if ranks_before(keys, first[m], second[m]) {
                if j > m {
                    assert(ranks_before(keys, second[m], second[j]));
                } else {
                    assert(first[j] == second[j]);
                    assert(ranks_before(keys, first[j], first[m]));
                }
            } else {
                assert(ranks_before(keys, second[m], first[m]));
                if l > m {
                    assert(ranks_before(keys, first[m], first[l]));
                } else {
                    assert(first[l] == second[l]);
                    assert(ranks_before(keys, second[l], second[m]));
                }
            }
        }
    }
}

/// The ranking of a token against a list of names is unique: two results
/// that both meet `is_ranked` are the same list.
pub proof fn lemma_ranking_unique(
    token: Seq<char>,
    names: Seq<Seq<char>>,
    one: Seq<Seq<char>>,
    other: Seq<Seq<char>>,
)
    requires
        is_ranked(token, names, one),
        is_ranked(token, names, other),
    ensures
        one == other,
{
    let keys = rank_keys(token, names);
    let first = choose|order: Seq<int>|
        is_ranking(keys, order) && one == order.map_values(|k: int| names[k]);
    let second = choose|order: Seq<int>|
        is_ranking(keys, order) && other == order.map_values(|k: int| names[k]);
    lemma_rankings_agree_below(keys, first, second, keys.len() as int);
    assert(first =~= second);
}

fn strip_hidden(name: &str) -> (r: &str)
    ensures
        r@ == unhidden(name@),
{
    let n = name.unicode_len();
    if n > 0 && name.get_char(0) == '.' {
        name.substring_char(1, n)
    } else {
        name
    }
}

/// Sorts `names` by ascending edit distance between `search_term` and the
/// name (a leading `.` set aside); names at equal distance keep their order.
pub fn rank(search_term: &str, names: &Vec<String>) -> (r: Vec<String>)
    ensures
        is_ranked(search_term@, names_of(names@), names_of(r@)),
{
    let ghost views = names_of(names@);
    let ghost spec_keys = rank_keys(search_term@, views);
    let mut keys: Vec<usize> = Vec::new();
    let mut k: usize = 0;
    while k < names.len()
        invariant
            k <= names@.len(),
            views == names_of(names@),
            spec_keys == rank_keys(search_term@, views),
            keys@.len() == k,
            forall|i: int| 0 <= i < k ==> keys@[i] == spec_keys[i],
        decreases names@.len() - k,
    {
        let d = levenshtein(search_term, strip_hidden(names[k].as_str()));
        keys.push(d);
        k = k + 1;
    }
    let mut order: Vec<usize> = Vec::new();
    let mut i: usize = 0;
    while i < names.len()
        invariant
            i <= names@.len(),
            keys@.len() == names@.len(),
            spec_keys.len() == names@.len(),
            forall|x: int| 0 <= x < keys@.len() ==> keys@[x] == spec_keys[x],
            order@.len() == i,
            forall|x: int| 0 <= x < i ==> #[trigger] order@[x] < i,
            forall|x: int, y: int|
                0 <= x < y < i ==> ranks_before(
                    spec_keys,
                    #[trigger] order@[x] as int,
                    #[trigger] order@[y] as int,
                ),
        decreases names@.len() - i,
    {
        let key = keys[i];
        let mut pos: usize = i;
        while pos > 0 && keys[order[pos - 1]] > key
            invariant
                pos <= i,
                order@.len() == i,
                keys@.len() == names@.len(),
                i < names@.len(),
                key == keys@[i as int],
                forall|x: int| 0 <= x < i ==> #[trigger] order@[x] < i,
                forall|x: int| pos <= x < i ==> keys@[#[trigger] order@[x] as int] > key,
            decreases pos,
        {
            pos = pos - 1;
        }
        let ghost before = order@;
        proof {
            assert forall|x: int| 0 <= x < pos implies keys@[#[trigger] before[x] as int]
                <= key by {
                if x < pos - 1 {
                    assert(ranks_before(spec_keys, before[x] as int, before[pos - 1] as int));
                }
            }
        }
        order.insert(pos, i);
        proof {
            assert forall|x: int| 0 <= x < i + 1 implies #[trigger] order@[x] < i + 1 by {
                if x < pos {
                    assert(order@[x] == before[x]);
                } else if x > pos {
                    assert(order@[x] == before[x - 1]);
                }
            }
            assert forall|x: int, y: int| 0 <= x < y < i + 1 implies ranks_before(
                spec_keys,
                #[trigger] order@[x] as int,
                #[trigger] order@[y] as int,
            ) by {
                if y < pos {
                    assert(order@[x] == before[x] && order@[y] == before[y]);
                } else if y == pos {
                    assert(order@[x] == before[x]);
                } else if x < pos {
                    assert(order@[x] == before[x] && order@[y] == before[y - 1]);
                } else if x == pos {
                    assert(order@[y] == before[y - 1]);
                } else {
                    assert(order@[x] == before[x - 1] && order@[y] == before[y - 1]);
                }
            }
        }
        i = i + 1;
    }
    let ghost positions = order@.map_values(|x: usize| x as int);
    let mut r: Vec<String> = Vec::new();
    let mut k: usize = 0;
    while k < order.len()
        invariant
            k <= order@.len(),
            order@.len() == names@.len(),
            views == names_of(names@),
            positions == order@.map_values(|x: usize| x as int),
            forall|x: int| 0 <= x < order@.len() ==> #[trigger] order@[x] < names@.len(),
            names_of(r@) == positions.take(k as int).map_values(|p: int| views[p]),
        decreases order@.len() - k,
    {
        let name = names[order[k]].clone();
        let ghost done = r@;
        r.push(name);
        assert(names_of(r@) =~= names_of(done).push(views[order@[k as int] as int]));
        assert(positions.take(k + 1) =~= positions.take(k as int).push(order@[k as int] as int));
        assert(names_of(r@) =~= positions.take(k + 1).map_values(|p: int| views[p]));
        k = k + 1;
    }
    assert(positions.take(k as int) =~= positions);
    assert(is_ranking(spec_keys, positions));
    r
}

/// The outcome of a completion request.
#[derive(Debug, PartialEq, Eq)]
pub enum Resolution {
    /// Nothing to complete to.
    Empty,
    /// Exactly one directory fits.
    Unique(String),
    /// Several fit; they come most likely first, for a chooser.
    Ranked(Vec<String>),
}

/// `res` is the resolution of the names in `found`, ranked against `token`.
pub open spec fn resolves_to(token: Seq<char>, found: Seq<Seq<char>>, res: Resolution) -> bool {
    match res {
        Resolution::Empty => found.len() == 0,
        Resolution::Unique(name) => found.len() == 1 && name@ == found[0],
        Resolution::Ranked(ranked) => found.len() >= 2 && is_ranked(
            token,
            found,
            names_of(ranked@),
        ),
    }
}

/// Filters `subdirs` by `search_term` (see `filter_dir_list`); none left is
/// `Empty`, one is `Unique`, more are `Ranked` by edit distance. `None` only
/// where the filter rejected a pattern.
pub fn resolve(search_term: &str, options: &Options, subdirs: &Vec<String>) -> (r: Option<
    Resolution,
>)
    ensures
        filtered(search_term@, *options, names_of(subdirs@)) is None ==> r is None,
        filtered(search_term@, *options, names_of(subdirs@)) matches Some(found) ==> (r matches Some(
            res,
        ) && resolves_to(search_term@, found, res)),
{
    let found = match filter_dir_list(search_term, options, subdirs) {
        Some(found) => found,
        None => {
            return None;
        },
    };
    if found.len() == 0 {
        Some(Resolution::Empty)
    } else if found.len() == 1 {
        let name = found[0].clone();
        Some(Resolution::Unique(name))
    } else {
        Some(Resolution::Ranked(rank(search_term, &found)))
    }
}

} // verus!
