//! A fact about sequences that the loops of this crate share.

use vstd::prelude::*;

verus! {

/// A sequence with one more element holds what it held, and that element.
pub proof fn lemma_push_contains<T>(s: Seq<T>, x: T, a: T)
    ensures
        s.push(x).contains(a) <==> s.contains(a) || a == x,
{
    if s.contains(a) {
        let i = choose|i: int| 0 <= i < s.len() && s[i] == a;
        assert(s.push(x)[i] == a);
    }
    if a == x {
        assert(s.push(x)[s.len() as int] == a);
    }
    if s.push(x).contains(a) {
        let i = choose|i: int| 0 <= i < s.push(x).len() && s.push(x)[i] == a;
        if i < s.len() {
            assert(s[i] == a);
        }
    }
}

} // verus!
