use vstd::prelude::*;

use crate::text::chars_of;

verus! {

pub open spec fn min_of(x: nat, y: nat) -> nat {
    if x <= y { x } else { y }
}

/// Levenshtein distance: the least number of single-character insertions,
/// deletions and substitutions that turn `a` into `b`.
pub open spec fn edit_distance(a: Seq<char>, b: Seq<char>) -> nat
    decreases a.len() + b.len(),
{
    if a.len() == 0 {
        b.len()
    } else if b.len() == 0 {
        a.len()
    } else {
        let substitute = edit_distance(a.drop_last(), b.drop_last()) + if a.last() == b.last() {
            0nat
        } else {
            1nat
        };
        let delete = edit_distance(a.drop_last(), b) + 1;
        let insert = edit_distance(a, b.drop_last()) + 1;
        min_of(substitute, min_of(delete, insert))
    }
}

proof fn lemma_distance_bounded(a: Seq<char>, b: Seq<char>)
    ensures
        edit_distance(a, b) <= if a.len() >= b.len() { a.len() } else { b.len() },
    decreases a.len() + b.len(),
{
    if a.len() > 0 && b.len() > 0 {
        lemma_distance_bounded(a.drop_last(), b.drop_last());
    }
}

/// A string is at distance zero from itself.
pub proof fn lemma_distance_to_self(a: Seq<char>)
    ensures
        edit_distance(a, a) == 0,
    decreases a.len(),
{
    if a.len() > 0 {
        lemma_distance_to_self(a.drop_last());
    }
}

/// The distance from a string to the empty string is the string's length,
/// in either direction.
pub proof fn lemma_distance_to_empty(a: Seq<char>)
    ensures
        edit_distance(a, Seq::empty()) == a.len(),
        edit_distance(Seq::empty(), a) == a.len(),
{
}

/// Edit distance does not depend on the order of its arguments.
pub proof fn lemma_distance_symmetric(a: Seq<char>, b: Seq<char>)
    ensures
        edit_distance(a, b) == edit_distance(b, a),
    decreases a.len() + b.len(),
{
    if a.len() > 0 && b.len() > 0 {
        lemma_distance_symmetric(a.drop_last(), b.drop_last());
        lemma_distance_symmetric(a.drop_last(), b);
        lemma_distance_symmetric(a, b.drop_last());
    }
}

/// Levenshtein distance between `a` and `b`, counted in characters.
///
/// One row of the table is kept: `cache[j]` holds the distance from the
/// prefix of `a` seen so far to the first `j + 1` characters of `b`; the
/// column for the empty prefix of `b` is implicit.
pub fn levenshtein(a: &str, b: &str) -> (r: usize)
    ensures
        r == edit_distance(a@, b@),
{
    let a = chars_of(a);
    let b = chars_of(b);
    let a_len = a.len();
    let b_len = b.len();
    if a_len == 0 {
        return b_len;
    }
    if b_len == 0 {
        return a_len;
    }
    let mut cache: Vec<usize> = Vec::new();
    let mut k: usize = 0;
    while k < b_len
        invariant
            k <= b_len,
            cache@.len() == k,
            forall|x: int| 0 <= x < k ==> cache@[x] == x + 1,
        decreases b_len - k,
    {
        k = k + 1;
        cache.push(k);
    }
    proof {
        assert forall|x: int| 0 <= x < b_len implies cache@[x] == edit_distance(
            a@.take(0),
            b@.take(x + 1),
        ) by {
            assert(a@.take(0).len() == 0);
        }
    }
    let mut left: usize = 0;
    let mut i: usize = 0;
    while i < a_len
        invariant
            i <= a_len,
            a_len == a@.len(),
            b_len == b@.len(),
            b_len > 0,
            cache@.len() == b_len,
            forall|x: int| 0 <= x < b_len ==> cache@[x] == edit_distance(
                a@.take(i as int),
                b@.take(x + 1),
            ),
            i > 0 ==> left == edit_distance(a@.take(i as int), b@),
        decreases a_len - i,
    {
        let ghost row = a@.take(i as int);
        let ghost next = a@.take(i + 1);
        assert(next.drop_last() =~= row);
        assert(next.last() == a@[i as int]);
        let ca = a[i];
        let mut diagonal: usize = i;
        left = i + 1;
        assert(b@.take(0).len() == 0);
        let mut j: usize = 0;
        while j < b_len
            invariant
                i < a_len,
                j <= b_len,
                a_len == a@.len(),
                b_len == b@.len(),
                cache@.len() == b_len,
                row == a@.take(i as int),
                next == a@.take(i + 1),
                next.drop_last() == row,
                next.last() == ca,
                diagonal == edit_distance(row, b@.take(j as int)),
                left == edit_distance(next, b@.take(j as int)),
                forall|x: int| 0 <= x < j ==> cache@[x] == edit_distance(next, b@.take(x + 1)),
                forall|x: int| j <= x < b_len ==> cache@[x] == edit_distance(row, b@.take(x + 1)),
            decreases b_len - j,
        {
            let ghost col = b@.take(j + 1);
            assert(col.drop_last() =~= b@.take(j as int));
            assert(col.last() == b@[j as int]);
            proof {
                lemma_distance_bounded(row, b@.take(j as int));
            }
            let up = cache[j];
            let cost: usize = if ca == b[j] { 0 } else { 1 };
            let through = diagonal + cost;
            let neighbour = if up < left { up } else { left };
            let best = if neighbour < through { neighbour + 1 } else { through };
            assert(best == edit_distance(next, col));
            cache.set(j, best);
            diagonal = up;
            left = best;
            j = j + 1;
        }
        assert(b@.take(b_len as int) =~= b@);
        i = i + 1;
    }
    assert(a@.take(a_len as int) =~= a@);
    left
}

} // verus!
