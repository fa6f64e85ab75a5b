//! A model filesystem over which the exchange engine is specified and run.
//!
//! The model keeps a finite map from path names (byte strings) to contents
//! (byte strings). Every entry is an independent leaf object: the hierarchy
//! of names matters only for choosing the directory that hosts a temporary
//! entry. The one mutation primitive the engine needs is `rename`, which
//! moves a single entry to a new name; `exchange` is the model of a
//! platform-native atomic swap, changing both entries in one indivisible
//! step.
//!
//! A set of denied names stands in for the operating-system refusals a real
//! run can meet (an unwritable parent directory, say): a rename whose
//! destination is denied fails and changes nothing. Tests use it to force a
//! failure at a chosen step of a transaction.

use vstd::prelude::*;

verus! {

/// OS error code: no such entry.
pub const ENOENT: i64 = 2;

/// OS error code: the destination name cannot be written.
pub const EACCES: i64 = 13;

/// A failure of the plain rename primitive, carrying the OS error code.
pub use crate::error::OsError;

/// One named object of the model filesystem.
pub struct FsEntry {
    pub path: Vec<u8>,
    pub data: Vec<u8>,
}

/// The model filesystem: a finite map of named entries, plus the set of
/// names at which the system refuses to create an entry.
pub struct FsModel {
    entries: Vec<FsEntry>,
    denied: Vec<Vec<u8>>,
}

/// The map that a sequence of entries denotes.
spec fn map_of(s: Seq<FsEntry>) -> Map<Seq<u8>, Seq<u8>>
    decreases s.len(),
{
    if s.len() == 0 {
        Map::empty()
    } else {
        map_of(s.drop_last()).insert(s.last().path@, s.last().data@)
    }
}

/// The set that a sequence of names denotes.
spec fn set_of(s: Seq<Vec<u8>>) -> Set<Seq<u8>>
    decreases s.len(),
{
    if s.len() == 0 {
        Set::empty()
    } else {
        set_of(s.drop_last()).insert(s.last()@)
    }
}

/// No two entries share a name.
spec fn names_unique(s: Seq<FsEntry>) -> bool {
    forall|i: int, j: int| 0 <= i < j < s.len() ==> s[i].path@ != s[j].path@
}

/// Whether a rename `from -> to` succeeds on contents `m` with denied set `d`.
pub open spec fn rename_enabled(m: Map<Seq<u8>, Seq<u8>>, d: Set<Seq<u8>>, from: Seq<u8>, to: Seq<
    u8,
>) -> bool {
    m.contains_key(from) && !d.contains(to)
}

/// The contents after a successful rename: the entry leaves its old name and
/// appears under the new one, replacing whatever was there.
pub open spec fn rename_effect(m: Map<Seq<u8>, Seq<u8>>, from: Seq<u8>, to: Seq<u8>) -> Map<
    Seq<u8>,
    Seq<u8>,
> {
    m.remove(from).insert(to, m[from])
}

/// The error code of a failed rename: a missing source is reported before a
/// denied destination.
pub open spec fn rename_err_code(m: Map<Seq<u8>, Seq<u8>>, d: Set<Seq<u8>>, from: Seq<u8>, to: Seq<
    u8,
>) -> i64 {
    if !m.contains_key(from) {
        ENOENT
    } else {
        EACCES
    }
}

/// The contents after an atomic exchange of two existing names.
pub open spec fn swap_contents(m: Map<Seq<u8>, Seq<u8>>, a: Seq<u8>, b: Seq<u8>) -> Map<
    Seq<u8>,
    Seq<u8>,
> {
    m.insert(a, m[b]).insert(b, m[a])
}

proof fn lemma_map_of_dom(s: Seq<FsEntry>, k: Seq<u8>)
    ensures
        map_of(s).contains_key(k) <==> exists|i: int| 0 <= i < s.len() && s[i].path@ == k,
    decreases s.len(),
{
    if s.len() == 0 {
    } else {
        lemma_map_of_dom(s.drop_last(), k);
        if s.last().path@ == k {
            assert(s[s.len() - 1].path@ == k);
        } else if map_of(s).contains_key(k) {
            let i = choose|i: int| 0 <= i < s.drop_last().len() && s.drop_last()[i].path@ == k;
            assert(s[i].path@ == k);
        } else if exists|i: int| 0 <= i < s.len() && s[i].path@ == k {
            let i = choose|i: int| 0 <= i < s.len() && s[i].path@ == k;
            assert(i < s.len() - 1);
            assert(s.drop_last()[i].path@ == k);
        }
    }
}

proof fn lemma_map_of_index(s: Seq<FsEntry>, i: int)
    requires
        names_unique(s),
        0 <= i < s.len(),
    ensures
        map_of(s).contains_key(s[i].path@),
        map_of(s)[s[i].path@] == s[i].data@,
    decreases s.len(),
{
    if i == s.len() - 1 {
    } else {
        assert(names_unique(s.drop_last()));
        assert(s.drop_last()[i] == s[i]);
        lemma_map_of_index(s.drop_last(), i);
        assert(s[i].path@ != s.last().path@);
    }
}

proof fn lemma_map_of_remove(s: Seq<FsEntry>, i: int)
    requires
        names_unique(s),
        0 <= i < s.len(),
    ensures
        names_unique(s.remove(i)),
        map_of(s.remove(i)) == map_of(s).remove(s[i].path@),
    decreases s.len(),
{
    assert(names_unique(s.remove(i)));
    if i == s.len() - 1 {
        assert(s.remove(i) =~= s.drop_last());
        lemma_map_of_dom(s.drop_last(), s[i].path@);
        assert(!map_of(s.drop_last()).contains_key(s[i].path@));
        assert(map_of(s.drop_last()) =~= map_of(s).remove(s[i].path@));
    } else {
        assert(names_unique(s.drop_last()));
        lemma_map_of_remove(s.drop_last(), i);
        assert(s.remove(i).drop_last() =~= s.drop_last().remove(i));
        assert(s.remove(i).last() == s.last());
        assert(s[i].path@ != s.last().path@);
        assert(map_of(s.remove(i)) == map_of(s.drop_last().remove(i)).insert(
            s.last().path@,
            s.last().data@,
        ));
        assert(map_of(s.drop_last()).remove(s[i].path@).insert(s.last().path@, s.last().data@)
            =~= map_of(s.drop_last()).insert(s.last().path@, s.last().data@).remove(s[i].path@));
    }
}

proof fn lemma_set_of_dom(s: Seq<Vec<u8>>, k: Seq<u8>)
    ensures
        set_of(s).contains(k) <==> exists|i: int| 0 <= i < s.len() && s[i]@ == k,
    decreases s.len(),
{
    if s.len() == 0 {
    } else {
        lemma_set_of_dom(s.drop_last(), k);
        if s.last()@ == k {
            assert(s[s.len() - 1]@ == k);
        } else if set_of(s).contains(k) {
            let i = choose|i: int| 0 <= i < s.drop_last().len() && s.drop_last()[i]@ == k;
            assert(s[i]@ == k);
        } else if exists|i: int| 0 <= i < s.len() && s[i]@ == k {
            let i = choose|i: int| 0 <= i < s.len() && s[i]@ == k;
            assert(i < s.len() - 1);
            assert(s.drop_last()[i]@ == k);
        }
    }
}

/// Whether two byte vectors hold the same bytes.
pub fn bytes_eq(a: &Vec<u8>, b: &Vec<u8>) -> (r: bool)
    ensures
        r <==> a@ == b@,
{
    let r = a == b;
    proof {
        if r {
            assert(a@ =~= b@);
        }
        if a@ == b@ {
            assert(a.len() == b.len());
        }
    }
    r
}

/// The index of the entry named `path`, if any.
fn find_entry(es: &Vec<FsEntry>, path: &Vec<u8>) -> (r: Option<usize>)
    ensures
        match r {
            Some(i) => i < es@.len() && es@[i as int].path@ == path@,
            None => forall|i: int| 0 <= i < es@.len() ==> es@[i].path@ != path@,
        },
{
    let mut i: usize = 0;
    while i < es.len()
        invariant
            i <= es@.len(),
            forall|j: int| 0 <= j < i ==> es@[j].path@ != path@,
        decreases es@.len() - i,
    {
        if bytes_eq(&es[i].path, path) {
            return Some(i);
        }
        i = i + 1;
    }
    None
}

impl FsModel {
    /// The names the filesystem holds, each with its content.
    pub closed spec fn contents(&self) -> Map<Seq<u8>, Seq<u8>> {
        map_of(self.entries@)
    }

    /// The names at which the system refuses to create an entry.
    pub closed spec fn denied(&self) -> Set<Seq<u8>> {
        set_of(self.denied@)
    }

    #[verifier::type_invariant]
    spec fn wf(&self) -> bool {
        names_unique(self.entries@)
    }

    /// An empty filesystem that refuses nothing.
    pub fn new() -> (r: FsModel)
        ensures
            r.contents() == Map::<Seq<u8>, Seq<u8>>::empty(),
            r.denied() == Set::<Seq<u8>>::empty(),
    {
        FsModel { entries: Vec::new(), denied: Vec::new() }
    }

    /// Create or overwrite the entry at `path` with `data`.
    pub fn create(&mut self, path: &Vec<u8>, data: Vec<u8>)
        ensures
            final(self).contents() == old(self).contents().insert(path@, data@),
            final(self).denied() == old(self).denied(),
    {
        proof {
            use_type_invariant(&*self);
        }
        let ghost m0 = self.contents();
        let mut es: Vec<FsEntry> = Vec::new();
        core::mem::swap(&mut es, &mut self.entries);
        let ghost s0 = es@;
        match find_entry(&es, path) {
            Some(i) => {
                let _gone = es.remove(i);
                proof {
                    lemma_map_of_remove(s0, i as int);
                }
            },
            None => {
                proof {
                    lemma_map_of_dom(s0, path@);
                    assert(map_of(s0).remove(path@) =~= map_of(s0));
                }
            },
        }
        let ghost s1 = es@;
        proof {
            assert(map_of(s1) == m0.remove(path@));
            assert(forall|i: int| 0 <= i < s1.len() ==> s1[i].path@ != path@) by {
                if exists|i: int| 0 <= i < s1.len() && s1[i].path@ == path@ {
                    let i = choose|i: int| 0 <= i < s1.len() && s1[i].path@ == path@;
                    lemma_map_of_index(s1, i);
                }
            }
        }
        es.push(FsEntry { path: path.clone(), data });
        proof {
            assert(es@.drop_last() =~= s1);
            assert(es@.last().path@ == path@);
            assert(map_of(es@) == m0.remove(path@).insert(path@, es@.last().data@));
            assert(m0.remove(path@).insert(path@, es@.last().data@) =~= m0.insert(
                path@,
                es@.last().data@,
            ));
        }
        self.entries = es;
    }

    /// Refuse, from now on, every rename whose destination is `path`.
    pub fn deny(&mut self, path: &Vec<u8>)
        ensures
            final(self).contents() == old(self).contents(),
            final(self).denied() == old(self).denied().insert(path@),
    {
        proof {
            use_type_invariant(&*self);
        }
        let mut ds: Vec<Vec<u8>> = Vec::new();
        core::mem::swap(&mut ds, &mut self.denied);
        let ghost d0 = ds@;
        ds.push(path.clone());
        proof {
            assert(ds@.drop_last() =~= d0);
            assert(ds@.last()@ == path@);
        }
        self.denied = ds;
    }

    /// Whether an entry named `path` exists.
    pub fn contains(&self, path: &Vec<u8>) -> (r: bool)
        ensures
            r == self.contents().contains_key(path@),
    {
        proof {
            lemma_map_of_dom(self.entries@, path@);
        }
        find_entry(&self.entries, path).is_some()
    }

    /// The content of the entry named `path`, if any.
    pub fn read(&self, path: &Vec<u8>) -> (r: Option<&Vec<u8>>)
        ensures
            match r {
                Some(d) => self.contents().contains_key(path@) && d@ == self.contents()[path@],
                None => !self.contents().contains_key(path@),
            },
    {
        proof {
            use_type_invariant(&*self);
            lemma_map_of_dom(self.entries@, path@);
        }
        match find_entry(&self.entries, path) {
            Some(i) => {
                proof {
                    lemma_map_of_index(self.entries@, i as int);
                }
                Some(&self.entries[i].data)
            },
            None => None,
        }
    }

    /// Whether `name` is denied as a rename destination.
    pub fn is_denied(&self, name: &Vec<u8>) -> (r: bool)
        ensures
            r == self.denied().contains(name@),
    {
        proof {
            lemma_set_of_dom(self.denied@, name@);
        }
        let mut i: usize = 0;
        while i < self.denied.len()
            invariant
                i <= self.denied@.len(),
                forall|j: int| 0 <= j < i ==> self.denied@[j]@ != name@,
            decreases self.denied@.len() - i,
        {
            if bytes_eq(&self.denied[i], name) {
                proof {
                    lemma_set_of_dom(self.denied@, name@);
                    assert(self.denied@[i as int]@ == name@);
                }
                return true;
            }
            i = i + 1;
        }
        false
    }

    /// Whether `name` is unused: no entry holds it and it is not denied.
    pub fn is_free(&self, name: &Vec<u8>) -> (r: bool)
        ensures
            r <==> !self.contents().contains_key(name@) && !self.denied().contains(name@),
    {
        !self.contains(name) && !self.is_denied(name)
    }

    /// A bound that the length of every entry name and every denied name
    /// stays within.
    pub fn name_len_bound(&self) -> (r: usize)
        ensures
            forall|k: Seq<u8>| self.contents().contains_key(k) ==> k.len() <= r,
            forall|k: Seq<u8>| self.denied().contains(k) ==> k.len() <= r,
    {
        proof {
            use_type_invariant(&*self);
        }
        let mut bound: usize = 0;
        let mut i: usize = 0;
        while i < self.entries.len()
            invariant
                i <= self.entries@.len(),
                forall|j: int| 0 <= j < i ==> self.entries@[j].path@.len() <= bound,
            decreases self.entries@.len() - i,
        {
            if self.entries[i].path.len() > bound {
                bound = self.entries[i].path.len();
            }
            i = i + 1;
        }
        let mut j: usize = 0;
        while j < self.denied.len()
            invariant
                j <= self.denied@.len(),
                forall|k: int| 0 <= k < j ==> self.denied@[k]@.len() <= bound,
                forall|k: int|
                    0 <= k < self.entries@.len() ==> self.entries@[k].path@.len() <= bound,
            decreases self.denied@.len() - j,
        {
            if self.denied[j].len() > bound {
                bound = self.denied[j].len();
            }
            j = j + 1;
        }
        proof {
            assert forall|k: Seq<u8>| self.contents().contains_key(k) implies k.len()
                <= bound by {
                lemma_map_of_dom(self.entries@, k);
            }
            assert forall|k: Seq<u8>| self.denied().contains(k) implies k.len() <= bound by {
                lemma_set_of_dom(self.denied@, k);
            }
        }
        bound
    }

    /// Move the entry at `from` to the name `to`, replacing any entry there.
    ///
    /// Fails without any change when `from` names no entry (`ENOENT`) or
    /// when `to` is a denied destination (`EACCES`).
    pub fn rename(&mut self, from: &Vec<u8>, to: &Vec<u8>) -> (r: Result<(), OsError>)
        ensures
            final(self).denied() == old(self).denied(),
            if rename_enabled(old(self).contents(), old(self).denied(), from@, to@) {
                r is Ok && final(self).contents() == rename_effect(
                    old(self).contents(),
                    from@,
                    to@,
                )
            } else {
                final(self).contents() == old(self).contents() && (r matches Err(e) && e.code
                    == rename_err_code(old(self).contents(), old(self).denied(), from@, to@))
            },
    {
        proof {
            use_type_invariant(&*self);
            lemma_map_of_dom(self.entries@, from@);
        }
        let ghost m0 = self.contents();
        let i_from = match find_entry(&self.entries, from) {
            Some(i) => i,
            None => {
                return Err(OsError { code: ENOENT });
            },
        };
        if self.is_denied(to) {
            return Err(OsError { code: EACCES });
        }
        let mut es: Vec<FsEntry> = Vec::new();
        core::mem::swap(&mut es, &mut self.entries);
        let ghost s0 = es@;
        let moved = es.remove(i_from);
        proof {
            lemma_map_of_remove(s0, i_from as int);
            lemma_map_of_index(s0, i_from as int);
        }
        let ghost s1 = es@;
        match find_entry(&es, to) {
            Some(j) => {
                let _gone = es.remove(j);
                proof {
                    lemma_map_of_remove(s1, j as int);
                }
            },
            None => {
                proof {
                    lemma_map_of_dom(s1, to@);
                    assert(map_of(s1).remove(to@) =~= map_of(s1));
                }
            },
        }
        let ghost s2 = es@;
        proof {
            assert(map_of(s2) == m0.remove(from@).remove(to@));
            assert(forall|i: int| 0 <= i < s2.len() ==> s2[i].path@ != to@) by {
                if exists|i: int| 0 <= i < s2.len() && s2[i].path@ == to@ {
                    let i = choose|i: int| 0 <= i < s2.len() && s2[i].path@ == to@;
                    lemma_map_of_index(s2, i);
                }
            }
        }
        es.push(FsEntry { path: to.clone(), data: moved.data });
        proof {
            assert(es@.drop_last() =~= s2);
            assert(es@.last().path@ == to@);
            assert(es@.last().data@ == m0[from@]);
            assert(map_of(es@) == m0.remove(from@).remove(to@).insert(to@, m0[from@]));
            assert(m0.remove(from@).remove(to@).insert(to@, m0[from@]) =~= rename_effect(
                m0,
                from@,
                to@,
            ));
        }
        self.entries = es;
        Ok(())
    }

    /// Swap the contents of `path1` and `path2` in one indivisible step.
    ///
    /// This models a platform-native atomic exchange: no observer of the
    /// model ever sees one name changed and the other not. Fails without
    /// any change (`ENOENT`) unless both names hold entries.
    pub fn exchange(&mut self, path1: &Vec<u8>, path2: &Vec<u8>) -> (r: Result<(), OsError>)
        ensures
            final(self).denied() == old(self).denied(),
            if old(self).contents().contains_key(path1@) && old(self).contents().contains_key(
                path2@,
            ) {
                r is Ok && final(self).contents() == swap_contents(
                    old(self).contents(),
                    path1@,
                    path2@,
                )
            } else {
                final(self).contents() == old(self).contents() && (r matches Err(e) && e.code
                    == ENOENT)
            },
    {
        proof {
            use_type_invariant(&*self);
            lemma_map_of_dom(self.entries@, path1@);
            lemma_map_of_dom(self.entries@, path2@);
        }
        let ghost m0 = self.contents();
        let i1 = match find_entry(&self.entries, path1) {
            Some(i) => i,
            None => {
                return Err(OsError { code: ENOENT });
            },
        };
        let i2 = match find_entry(&self.entries, path2) {
            Some(i) => i,
            None => {
                return Err(OsError { code: ENOENT });
            },
        };
        if i1 == i2 {
            proof {
                assert(path1@ == path2@);
                lemma_map_of_index(self.entries@, i1 as int);
                assert(swap_contents(m0, path1@, path2@) =~= m0);
            }
            return Ok(());
        }
        let mut es: Vec<FsEntry> = Vec::new();
        core::mem::swap(&mut es, &mut self.entries);
        let ghost s0 = es@;
        proof {
            lemma_map_of_index(s0, i1 as int);
            lemma_map_of_index(s0, i2 as int);
            assert(s0[i1 as int].path@ != s0[i2 as int].path@);
        }
        let (hi, lo) = if i1 > i2 {
            (i1, i2)
        } else {
            (i2, i1)
        };
        let ghost k_hi = s0[hi as int].path@;
        let ghost k_lo = s0[lo as int].path@;
        let ghost d_hi = s0[hi as int].data@;
        let ghost d_lo = s0[lo as int].data@;
        proof {
            lemma_map_of_index(s0, hi as int);
            lemma_map_of_index(s0, lo as int);
        }
        let e_hi = es.remove(hi);
        proof {
            lemma_map_of_remove(s0, hi as int);
        }
        let ghost s1 = es@;
        let e_lo = es.remove(lo);
        proof {
            lemma_map_of_remove(s1, lo as int);
            assert(s1[lo as int] == s0[lo as int]);
            assert(map_of(es@) == m0.remove(k_hi).remove(k_lo));
        }
        let ghost s2 = es@;
        proof {
            assert(forall|i: int| 0 <= i < s2.len() ==> s2[i].path@ != e_lo.path@) by {
                if exists|i: int| 0 <= i < s2.len() && s2[i].path@ == e_lo.path@ {
                    let i = choose|i: int| 0 <= i < s2.len() && s2[i].path@ == e_lo.path@;
                    lemma_map_of_index(s2, i);
                }
            }
            assert(forall|i: int| 0 <= i < s2.len() ==> s2[i].path@ != e_hi.path@) by {
                if exists|i: int| 0 <= i < s2.len() && s2[i].path@ == e_hi.path@ {
                    let i = choose|i: int| 0 <= i < s2.len() && s2[i].path@ == e_hi.path@;
                    lemma_map_of_index(s2, i);
                }
            }
        }
        let lo_path = e_lo.path;
        let hi_path = e_hi.path;
        es.push(FsEntry { path: lo_path, data: e_hi.data });
        proof {
            assert(es@.drop_last() =~= s2);
            assert(es@.last().path@ == k_lo && es@.last().data@ == d_hi);
            assert(map_of(es@) == m0.remove(k_hi).remove(k_lo).insert(k_lo, d_hi));
            assert(names_unique(es@));
        }
        let ghost s3 = es@;
        es.push(FsEntry { path: hi_path, data: e_lo.data });
        proof {
            assert(es@.drop_last() =~= s3);
            assert(es@.last().path@ == k_hi && es@.last().data@ == d_lo);
            assert(map_of(es@) == m0.remove(k_hi).remove(k_lo).insert(k_lo, d_hi).insert(
                k_hi,
                d_lo,
            ));
            assert(forall|i: int| 0 <= i < s3.len() ==> s3[i].path@ != k_hi);
            assert(names_unique(es@));
            assert(m0[k_hi] == d_hi && m0[k_lo] == d_lo);
            assert(map_of(es@) =~= swap_contents(m0, path1@, path2@));
        }
        self.entries = es;
        Ok(())
    }
}

} // verus!
