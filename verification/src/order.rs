//! Lexicographic ordering of byte strings.
//!
//! Keys in the store are byte strings compared lexicographically; this module
//! defines that order and proves it is a strict total order, which the rest of
//! the crate relies on to reason about sorted sequences of entries.

use vstd::prelude::*;

verus! {

/// Strict lexicographic order: `a` comes strictly before `b`.
pub open spec fn lex_lt(a: Seq<u8>, b: Seq<u8>) -> bool
    decreases a.len(),
{
    if b.len() == 0 {
        false
    } else if a.len() == 0 {
        true
    } else if a[0] < b[0] {
        true
    } else if a[0] > b[0] {
        false
    } else {
        lex_lt(a.skip(1), b.skip(1))
    }
}

/// Non-strict lexicographic order.
pub open spec fn lex_leq(a: Seq<u8>, b: Seq<u8>) -> bool {
    lex_lt(a, b) || a == b
}

/// Of two distinct byte strings, exactly one comes first: the order is total
/// and antisymmetric.
pub proof fn lemma_lex_trichotomy(a: Seq<u8>, b: Seq<u8>)
    ensures
        a == b <==> (!lex_lt(a, b) && !lex_lt(b, a)),
        !(lex_lt(a, b) && lex_lt(b, a)),
    decreases a.len(),
{
    if a.len() == 0 || b.len() == 0 {
        if a.len() == b.len() {
            assert(a =~= b);
        }
    } else if a[0] == b[0] {
        lemma_lex_trichotomy(a.skip(1), b.skip(1));
        if a.skip(1) == b.skip(1) {
            assert(a =~= b) by {
                assert(a.skip(1).len() == b.skip(1).len());
                assert forall|i: int| 0 <= i < a.len() implies a[i] == b[i] by {
                    if i >= 1 {
                        assert(a[i] == a.skip(1)[i - 1]);
                        assert(b[i] == b.skip(1)[i - 1]);
                    }
                }
            }
        }
        if a == b {
            assert(a.skip(1) == b.skip(1));
        }
    } else {
        assert(a != b) by {
            assert(a[0] != b[0]);
        }
    }
}

/// Lexicographic order is transitive.
pub proof fn lemma_lex_transitive(a: Seq<u8>, b: Seq<u8>, c: Seq<u8>)
    requires
        lex_lt(a, b),
        lex_lt(b, c),
    ensures
        lex_lt(a, c),
    decreases a.len(),
{
    if a.len() == 0 {
        assert(c.len() > 0);
    } else {
        assert(b.len() > 0 && c.len() > 0);
        if a[0] == b[0] && b[0] == c[0] {
            lemma_lex_transitive(a.skip(1), b.skip(1), c.skip(1));
        }
    }
}

} // verus!
