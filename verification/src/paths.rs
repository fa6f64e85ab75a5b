//! Path names as byte strings, and the little arithmetic of parents.
//!
//! A path is a plain byte string in which `/` separates components. The
//! engine needs only one question answered about hierarchy: which directory
//! can host a temporary entry. The parent of a name is everything before its
//! last separator; a name without a separator lives in the current directory
//! (an empty parent); the root and the empty name have no parent.

use vstd::prelude::*;

verus! {

/// The path separator byte, `/`.
pub const SLASH: u8 = 47;

/// The position of the last separator in `p`, if any.
pub open spec fn spec_last_slash(p: Seq<u8>) -> Option<int>
    decreases p.len(),
{
    if p.len() == 0 {
        None
    } else if p.last() == SLASH {
        Some(p.len() - 1)
    } else {
        spec_last_slash(p.drop_last())
    }
}

/// The parent directory of `p`: everything before the last separator; empty
/// (the current directory) for a bare name; none for the root or the empty
/// name.
pub open spec fn spec_parent_of(p: Seq<u8>) -> Option<Seq<u8>> {
    if p.len() == 0 {
        None
    } else {
        match spec_last_slash(p) {
            None => Some(Seq::empty()),
            Some(i) => if p.len() == 1 {
                None
            } else if i == 0 {
                Some(p.take(1))
            } else {
                Some(p.take(i))
            },
        }
    }
}

/// `name` placed inside the directory `parent`.
pub open spec fn spec_join(parent: Seq<u8>, name: Seq<u8>) -> Seq<u8> {
    if parent.len() == 0 {
        name
    } else if parent.last() == SLASH {
        parent + name
    } else {
        parent + seq![SLASH] + name
    }
}

/// The position of the last separator in `p`, if any.
fn last_slash(p: &Vec<u8>) -> (r: Option<usize>)
    ensures
        match r {
            Some(i) => i < p@.len() && spec_last_slash(p@) == Some(i as int),
            None => spec_last_slash(p@) is None,
        },
{
    let mut i: usize = p.len();
    proof {
        assert(p@.take(i as int) =~= p@);
    }
    while i > 0
        invariant
            i <= p@.len(),
            spec_last_slash(p@) == spec_last_slash(p@.take(i as int)),
        decreases i,
    {
        if p[i - 1] == SLASH {
            proof {
                assert(p@.take(i as int).last() == p@[i - 1]);
            }
            return Some(i - 1);
        }
        proof {
            assert(p@.take(i as int).last() == p@[i - 1]);
            assert(p@.take(i as int).drop_last() =~= p@.take(i - 1));
        }
        i = i - 1;
    }
    proof {
        assert(p@.take(0) =~= Seq::<u8>::empty());
    }
    None
}

/// The parent directory of `p`, as [`spec_parent_of`] describes it.
pub fn parent_of(p: &Vec<u8>) -> (r: Option<Vec<u8>>)
    ensures
        match r {
            Some(d) => spec_parent_of(p@) == Some(d@),
            None => spec_parent_of(p@) is None,
        },
{
    if p.len() == 0 {
        return None;
    }
    match last_slash(p) {
        None => Some(Vec::new()),
        Some(i) => {
            if p.len() == 1 {
                None
            } else {
                let cut = if i == 0 {
                    1
                } else {
                    i
                };
                let mut d = p.clone();
                proof {
                    assert(d@ =~= p@);
                }
                d.truncate(cut);
                proof {
                    assert(d@ =~= p@.take(cut as int));
                }
                Some(d)
            }
        },
    }
}

/// `name` placed inside the directory `parent`, as [`spec_join`] describes it.
pub fn join(parent: &Vec<u8>, name: &Vec<u8>) -> (r: Vec<u8>)
    ensures
        r@ == spec_join(parent@, name@),
{
    let mut r = parent.clone();
    proof {
        assert(r@ =~= parent@);
    }
    if r.len() > 0 && r[r.len() - 1] != SLASH {
        r.push(SLASH);
    }
    r.extend_from_slice(name.as_slice());
    proof {
        assert(r@ =~= spec_join(parent@, name@));
    }
    r
}

} // verus!
