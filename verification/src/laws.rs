//! The laws of a successful exchange.
//!
//! Both engines promise the same thing of success: the final contents are
//! [`swap_contents`](crate::fs_model::swap_contents) of the starting
//! contents. These laws pin down what that swap means for a caller.

use vstd::prelude::*;

use crate::fs_model::swap_contents;

verus! {

/// Round-trip: after a successful exchange of two existing paths, the first
/// holds what the second held, the second holds what the first held, and no
/// name appears or disappears.
pub proof fn lemma_round_trip(m: Map<Seq<u8>, Seq<u8>>, a: Seq<u8>, b: Seq<u8>)
    requires
        m.contains_key(a),
        m.contains_key(b),
    ensures
        swap_contents(m, a, b)[a] == m[b],
        swap_contents(m, a, b)[b] == m[a],
        swap_contents(m, a, b).dom() == m.dom(),
        forall|k: Seq<u8>|
            m.contains_key(k) && k != a && k != b ==> #[trigger] swap_contents(m, a, b)[k] == m[k],
{
    assert(swap_contents(m, a, b).dom() =~= m.dom());
}

/// Involution: exchanging the same two existing paths twice restores every
/// content to where it started, whichever engine performs each exchange.
pub proof fn lemma_involution(m: Map<Seq<u8>, Seq<u8>>, a: Seq<u8>, b: Seq<u8>)
    requires
        m.contains_key(a),
        m.contains_key(b),
    ensures
        swap_contents(swap_contents(m, a, b), a, b) == m,
{
    assert(swap_contents(swap_contents(m, a, b), a, b) =~= m);
}

} // verus!
