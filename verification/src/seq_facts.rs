//! Facts about sequences without duplicates.

use vstd::prelude::*;

verus! {

/// Appending a value that a duplicate-free sequence does not hold keeps it
/// duplicate-free, and adds exactly that value to its members.
pub proof fn lemma_push_fresh<A>(s: Seq<A>, x: A)
    requires
        s.no_duplicates(),
        !s.contains(x),
    ensures
        s.push(x).no_duplicates(),
        forall|y: A| #[trigger] s.push(x).contains(y) <==> s.contains(y) || y == x,
{
    let t = s.push(x);
    assert forall|i: int, j: int| 0 <= i < t.len() && 0 <= j < t.len() && i != j implies t[i]
        != t[j] by {
        if i < s.len() {
            assert(s[i] == t[i]);
        }
        if j < s.len() {
            assert(s[j] == t[j]);
        }
    }
    lemma_push_members(s, x);
}

/// The members of a sequence after a push are the old ones and the new one.
pub proof fn lemma_push_members<A>(s: Seq<A>, x: A)
    ensures
        forall|y: A| #[trigger] s.push(x).contains(y) <==> s.contains(y) || y == x,
{
    let t = s.push(x);
    assert forall|y: A| #[trigger] t.contains(y) <==> s.contains(y) || y == x by {
        if t.contains(y) {
            let i = t.index_of(y);
            if i < s.len() {
                assert(s[i] == y);
            }
        }
        if s.contains(y) {
            let i = s.index_of(y);
            assert(t[i] == y);
        }
        if y == x {
            assert(t[s.len() as int] == y);
        }
    }
}

/// Taking a value out of a duplicate-free sequence keeps it duplicate-free
/// and removes exactly that value from its members.
pub proof fn lemma_remove_value_distinct<A>(s: Seq<A>, x: A)
    requires
        s.no_duplicates(),
    ensures
        s.remove_value(x).no_duplicates(),
        forall|y: A| #[trigger] s.remove_value(x).contains(y) <==> s.contains(y) && y != x,
{
    s.index_of_first_ensures(x);
    let r = s.remove_value(x);
    match s.index_of_first(x) {
        Some(k) => {
            assert forall|i: int, j: int|
                0 <= i < r.len() && 0 <= j < r.len() && i != j implies r[i] != r[j] by {
                let si = if i < k { i } else { i + 1 };
                let sj = if j < k { j } else { j + 1 };
                assert(r[i] == s[si]);
                assert(r[j] == s[sj]);
            }
            assert forall|y: A| #[trigger] r.contains(y) <==> s.contains(y) && y != x by {
                if r.contains(y) {
                    let i = r.index_of(y);
                    let si = if i < k { i } else { i + 1 };
                    assert(r[i] == s[si]);
                    assert(s[si] == y);
                }
                if s.contains(y) && y != x {
                    let i = s.index_of(y);
                    let ri = if i < k { i } else { i - 1 };
                    assert(r[ri] == y);
                }
            }
        },
        None => {},
    }
}

} // verus!
