use vstd::prelude::*;

verus! {

/// What `push` adds to the members of a sequence.
pub proof fn lemma_push_contains<A>(s: Seq<A>, x: A, q: A)
    ensures
        s.push(x).contains(q) <==> (s.contains(q) || q == x),
{
    if s.contains(q) {
        let j = choose|j: int| 0 <= j < s.len() && s[j] == q;
        assert(s.push(x)[j] == q);
    }
    if q == x {
        assert(s.push(x)[s.len() as int] == q);
    }
    if s.push(x).contains(q) {
        let j = choose|j: int| 0 <= j < s.len() + 1 && s.push(x)[j] == q;
        if j < s.len() {
            assert(s[j] == q);
        }
    }
}

/// Pushing an element that is not yet there keeps a sequence free of duplicates.
pub proof fn lemma_push_no_duplicates<A>(s: Seq<A>, x: A)
    requires
        s.no_duplicates(),
        !s.contains(x),
    ensures
        s.push(x).no_duplicates(),
{
    assert forall|i: int, j: int| 0 <= i < s.len() + 1 && 0 <= j < s.len() + 1 && i != j
        implies s.push(x)[i] != s.push(x)[j] by {
        if i == s.len() {
            assert(s[j] == s.push(x)[j]);
        } else if j == s.len() {
            assert(s[i] == s.push(x)[i]);
        }
    }
}

} // verus!
