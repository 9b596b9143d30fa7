//! Edit distance and lexicographic order over character sequences.
//!
//! The diagnostic model ranks candidate names by full string edit distance
//! (insert / delete / substitute, unit cost) against an attempted name;
//! ties resolve to the lexicographically first candidate. The spec
//! functions here define both orders; the nearest-match selection itself
//! lives in the error module.

use vstd::prelude::*;

verus! {

/// The least of three integers.
pub open spec fn min3(a: int, b: int, c: int) -> int {
    if a <= b && a <= c {
        a
    } else if b <= c {
        b
    } else {
        c
    }
}

/// Classic Levenshtein distance between two character sequences:
/// the least number of single-character insertions, deletions and
/// substitutions turning `a` into `b`.
pub open spec fn edit_distance(a: Seq<char>, b: Seq<char>) -> int
    decreases a.len() + b.len(),
{
    if a.len() == 0 {
        b.len() as int
    } else if b.len() == 0 {
        a.len() as int
    } else if a.last() == b.last() {
        edit_distance(a.drop_last(), b.drop_last())
    } else {
        1 + min3(
            edit_distance(a.drop_last(), b),
            edit_distance(a, b.drop_last()),
            edit_distance(a.drop_last(), b.drop_last()),
        )
    }
}

/// The distance never exceeds the longer input, and is never negative.
pub proof fn lemma_edit_distance_bound(a: Seq<char>, b: Seq<char>)
    ensures
        0 <= edit_distance(a, b),
        edit_distance(a, b) <= if a.len() >= b.len() {
            a.len() as int
        } else {
            b.len() as int
        },
    decreases a.len() + b.len(),
{
    if a.len() == 0 {
    } else if b.len() == 0 {
    } else {
        lemma_edit_distance_bound(a.drop_last(), b.drop_last());
        lemma_edit_distance_bound(a.drop_last(), b);
        lemma_edit_distance_bound(a, b.drop_last());
    }
}

/// The defining recurrence, restated over prefixes `a.take(j)` and
/// `b.take(i)` as the dynamic program walks them.
pub proof fn lemma_edit_distance_step(a: Seq<char>, b: Seq<char>, j: int, i: int)
    requires
        1 <= j <= a.len(),
        1 <= i <= b.len(),
    ensures
        edit_distance(a.take(j), b.take(i)) == if a[j - 1] == b[i - 1] {
            edit_distance(a.take(j - 1), b.take(i - 1))
        } else {
            1 + min3(
                edit_distance(a.take(j - 1), b.take(i)),
                edit_distance(a.take(j), b.take(i - 1)),
                edit_distance(a.take(j - 1), b.take(i - 1)),
            )
        },
{
    assert(a.take(j).drop_last() =~= a.take(j - 1));
    assert(b.take(i).drop_last() =~= b.take(i - 1));
    assert(a.take(j).last() == a[j - 1]);
    assert(b.take(i).last() == b[i - 1]);
}

/// A prefix of length zero is empty, so its distance to any prefix is
/// that prefix's length.
pub proof fn lemma_edit_distance_empty(a: Seq<char>, b: Seq<char>, j: int, i: int)
    requires
        0 <= j <= a.len(),
        0 <= i <= b.len(),
    ensures
        edit_distance(a.take(j), b.take(0)) == j,
        edit_distance(a.take(0), b.take(i)) == i,
{
    assert(a.take(0) =~= Seq::<char>::empty());
    assert(b.take(0) =~= Seq::<char>::empty());
    assert(a.take(j).len() == j);
    assert(b.take(i).len() == i);
}

/// Lexicographic order on character sequences, by code point, with a
/// proper prefix ordered before its extensions.
pub open spec fn lex_le(a: Seq<char>, b: Seq<char>) -> bool
    decreases a.len(),
{
    if a.len() == 0 {
        true
    } else if b.len() == 0 {
        false
    } else if a[0] == b[0] {
        lex_le(a.skip(1), b.skip(1))
    } else {
        a[0] < b[0]
    }
}

/// The order is total.
pub proof fn lemma_lex_le_total(a: Seq<char>, b: Seq<char>)
    ensures
        lex_le(a, b) || lex_le(b, a),
    decreases a.len(),
{
    if a.len() == 0 {
    } else if b.len() == 0 {
    } else if a[0] == b[0] {
        lemma_lex_le_total(a.skip(1), b.skip(1));
    }
}

/// The order is reflexive.
pub proof fn lemma_lex_le_self(a: Seq<char>)
    ensures
        lex_le(a, a),
    decreases a.len(),
{
    if a.len() > 0 {
        lemma_lex_le_self(a.skip(1));
    }
}

/// The order is transitive.
pub proof fn lemma_lex_le_transitive(a: Seq<char>, b: Seq<char>, c: Seq<char>)
    requires
        lex_le(a, b),
        lex_le(b, c),
    ensures
        lex_le(a, c),
    decreases a.len(),
{
    if a.len() == 0 {
    } else {
        assert(b.len() > 0);
        assert(c.len() > 0);
        if a[0] == b[0] && b[0] == c[0] {
            lemma_lex_le_transitive(a.skip(1), b.skip(1), c.skip(1));
        }
    }
}

/// Compares two strings in the order of `lex_le`.
pub fn str_le(a: &str, b: &str) -> (r: bool)
    ensures
        r == lex_le(a@, b@),
{
    let la: usize = a.unicode_len();
    let lb: usize = b.unicode_len();
    let mut i: usize = 0;
    proof {
        assert(a@.skip(0) =~= a@);
        assert(b@.skip(0) =~= b@);
    }
    loop
        invariant
            i <= la,
            i <= lb,
            la == a@.len(),
            lb == b@.len(),
            lex_le(a@, b@) == lex_le(a@.skip(i as int), b@.skip(i as int)),
        decreases la - i,
    {
        if i >= la {
            proof {
                assert(a@.skip(i as int).len() == 0);
            }
            return true;
        }
        if i >= lb {
            proof {
                assert(b@.skip(i as int).len() == 0);
                assert(a@.skip(i as int).len() > 0);
            }
            return false;
        }
        let ca = a.get_char(i);
        let cb = b.get_char(i);
        if ca == cb {
            proof {
                assert(a@.skip(i as int)[0] == a@[i as int]);
                assert(b@.skip(i as int)[0] == b@[i as int]);
                assert(a@.skip(i as int).skip(1) =~= a@.skip(i as int + 1));
                assert(b@.skip(i as int).skip(1) =~= b@.skip(i as int + 1));
            }
            i = i + 1;
        } else {
            proof {
                assert(a@.skip(i as int)[0] == a@[i as int]);
                assert(b@.skip(i as int)[0] == b@[i as int]);
            }
            return ca < cb;
        }
    }
}

} // verus!
