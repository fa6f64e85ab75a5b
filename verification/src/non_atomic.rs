//! Exchange of two paths by a non-atomic, rollback-protected transaction.
//!
//! Where no native atomic primitive exists, the swap is emulated with the
//! one universally available operation, a single-entry rename: the first
//! path moves to a temporary name, the second moves to the first, and the
//! temporary moves to the second. The three renames are planned up front in
//! a [`Transaction`]; each one that succeeds is recorded, and on the first
//! failure the recorded steps are undone in reverse order by the inverse
//! renames.
//!
//! This emulation is not atomic, and is never claimed to be: between the
//! steps an observer of the filesystem may see the first path missing, or
//! holding the second's former content while the second is still missing.
//! What the transaction does guarantee is disciplined failure: execution
//! stops at the first failed step, a successful rollback restores the
//! arrangement the call started from, and a rollback that itself fails is
//! reported together with the failure that triggered it.

use vstd::prelude::*;

use crate::error::Error;
use crate::error::OsError;
use crate::fs_model::bytes_eq;
use crate::fs_model::rename_effect;
use crate::fs_model::rename_enabled;
use crate::fs_model::rename_err_code;
use crate::fs_model::swap_contents;
use crate::fs_model::FsModel;
use crate::fs_model::EACCES;
use crate::fs_model::ENOENT;
use crate::paths::join;
use crate::paths::parent_of;
use crate::paths::spec_parent_of;

verus! {

/// One planned rename, reversible by swapping its two names.
pub struct RenameCmd {
    pub from: Vec<u8>,
    pub to: Vec<u8>,
}

/// The pairs of names a sequence of commands denotes.
pub open spec fn steps_of(s: Seq<RenameCmd>) -> Seq<(Seq<u8>, Seq<u8>)> {
    s.map_values(|c: RenameCmd| (c.from@, c.to@))
}

/// The rollback plan for a sequence of executed steps: each step inverted,
/// in reverse order of execution.
pub open spec fn unwind_of(s: Seq<(Seq<u8>, Seq<u8>)>) -> Seq<(Seq<u8>, Seq<u8>)> {
    s.reverse().map_values(|st: (Seq<u8>, Seq<u8>)| (st.1, st.0))
}

/// The index of the first step of `steps` that fails when they run in order
/// on contents `m` with denied set `d`, stopping at that failure.
pub open spec fn sim_fail_at(
    m: Map<Seq<u8>, Seq<u8>>,
    d: Set<Seq<u8>>,
    steps: Seq<(Seq<u8>, Seq<u8>)>,
) -> Option<int>
    decreases steps.len(),
{
    if steps.len() == 0 {
        None
    } else if !rename_enabled(m, d, steps[0].0, steps[0].1) {
        Some(0)
    } else {
        match sim_fail_at(rename_effect(m, steps[0].0, steps[0].1), d, steps.drop_first()) {
            None => None,
            Some(i) => Some(i + 1),
        }
    }
}

/// The contents after the steps of `steps` run in order on `m`, stopping at
/// the first failure.
pub open spec fn sim_run(
    m: Map<Seq<u8>, Seq<u8>>,
    d: Set<Seq<u8>>,
    steps: Seq<(Seq<u8>, Seq<u8>)>,
) -> Map<Seq<u8>, Seq<u8>>
    decreases steps.len(),
{
    if steps.len() == 0 {
        m
    } else if !rename_enabled(m, d, steps[0].0, steps[0].1) {
        m
    } else {
        sim_run(rename_effect(m, steps[0].0, steps[0].1), d, steps.drop_first())
    }
}

/// Running one more step after a sequence that runs clean either extends the
/// clean run or fails exactly at the new step.
proof fn lemma_sim_snoc(
    m: Map<Seq<u8>, Seq<u8>>,
    d: Set<Seq<u8>>,
    s: Seq<(Seq<u8>, Seq<u8>)>,
    st: (Seq<u8>, Seq<u8>),
)
    requires
        sim_fail_at(m, d, s) is None,
    ensures
        rename_enabled(sim_run(m, d, s), d, st.0, st.1) ==> sim_fail_at(m, d, s.push(st)) is None
            && sim_run(m, d, s.push(st)) == rename_effect(sim_run(m, d, s), st.0, st.1),
        !rename_enabled(sim_run(m, d, s), d, st.0, st.1) ==> sim_fail_at(m, d, s.push(st)) == Some(
            s.len() as int,
        ) && sim_run(m, d, s.push(st)) == sim_run(m, d, s),
    decreases s.len(),
{
    if s.len() == 0 {
        assert(s.push(st)[0] == st);
        assert(s.push(st).drop_first() =~= Seq::<(Seq<u8>, Seq<u8>)>::empty());
        assert(sim_run(m, d, s) == m);
        assert(sim_fail_at(m, d, s.push(st).drop_first()) is None);
        if rename_enabled(m, d, st.0, st.1) {
            let m1 = rename_effect(m, st.0, st.1);
            assert(sim_fail_at(m1, d, s.push(st).drop_first()) is None);
            assert(sim_run(m1, d, s.push(st).drop_first()) == m1);
        }
    } else {
        assert(s.push(st)[0] == s[0]);
        assert(s.push(st).drop_first() =~= s.drop_first().push(st));
        lemma_sim_snoc(rename_effect(m, s[0].0, s[0].1), d, s.drop_first(), st);
    }
}

/// A run splits at any point of a clean prefix: what the whole sequence does
/// equals what the suffix does starting from the prefix's outcome.
proof fn lemma_sim_split(
    m: Map<Seq<u8>, Seq<u8>>,
    d: Set<Seq<u8>>,
    s: Seq<(Seq<u8>, Seq<u8>)>,
    k: int,
)
    requires
        0 <= k <= s.len(),
        sim_fail_at(m, d, s.take(k)) is None,
    ensures
        sim_run(m, d, s) == sim_run(sim_run(m, d, s.take(k)), d, s.skip(k)),
        sim_fail_at(m, d, s) == match sim_fail_at(sim_run(m, d, s.take(k)), d, s.skip(k)) {
            None => None::<int>,
            Some(j) => Some(j + k),
        },
    decreases k,
{
    if k == 0 {
        assert(s.take(0) =~= Seq::<(Seq<u8>, Seq<u8>)>::empty());
        assert(s.skip(0) =~= s);
    } else {
        let st = s[0];
        assert(s.take(k)[0] == st);
        assert(rename_enabled(m, d, st.0, st.1));
        let m1 = rename_effect(m, st.0, st.1);
        assert(s.take(k).drop_first() =~= s.drop_first().take(k - 1));
        assert(s.skip(k) =~= s.drop_first().skip(k - 1));
        lemma_sim_split(m1, d, s.drop_first(), k - 1);
    }
}

/// A planned sequence of renames with a record of those already executed.
///
/// The executed record is always a prefix, in execution order, of the plan;
/// rollback consumes it in reverse.
pub struct Transaction {
    to_exec: Vec<RenameCmd>,
    successful_exec: Vec<RenameCmd>,
}

impl Transaction {
    /// The planned steps, in execution order.
    pub closed spec fn pending(&self) -> Seq<(Seq<u8>, Seq<u8>)> {
        steps_of(self.to_exec@)
    }

    /// The steps executed so far, in execution order.
    pub closed spec fn done(&self) -> Seq<(Seq<u8>, Seq<u8>)> {
        steps_of(self.successful_exec@)
    }

    /// A transaction with nothing planned and nothing executed.
    pub fn new() -> (t: Transaction)
        ensures
            t.pending() == Seq::<(Seq<u8>, Seq<u8>)>::empty(),
            t.done() == Seq::<(Seq<u8>, Seq<u8>)>::empty(),
    {
        let t = Transaction { to_exec: Vec::new(), successful_exec: Vec::new() };
        proof {
            assert(t.pending() =~= Seq::<(Seq<u8>, Seq<u8>)>::empty());
            assert(t.done() =~= Seq::<(Seq<u8>, Seq<u8>)>::empty());
        }
        t
    }

    /// Plan one more rename, to run on commit after those already planned.
    pub fn record_rename(&mut self, from: &Vec<u8>, to: &Vec<u8>)
        ensures
            final(self).pending() == old(self).pending().push((from@, to@)),
            final(self).done() == old(self).done(),
    {
        let ghost p0 = self.to_exec@;
        self.to_exec.push(RenameCmd { from: from.clone(), to: to.clone() });
        proof {
            assert(self.to_exec@.last().from@ =~= from@);
            assert(self.to_exec@.last().to@ =~= to@);
            assert(self.to_exec@.drop_last() =~= p0);
            assert(steps_of(self.to_exec@) =~= steps_of(p0).push((from@, to@)));
        }
    }

    /// Undo the executed steps, most recent first, by the inverse renames.
    ///
    /// Stops at the first inverse rename that fails and returns its error;
    /// what the rollback leaves behind is exactly the run of the rollback
    /// plan, so a clean rollback undoes every recorded step.
    #[verifier::loop_isolation(false)]
    pub fn rollback(self, fs: &mut FsModel) -> (r: Result<(), Error>)
        ensures
            final(fs).denied() == old(fs).denied(),
            rollback_post(
                old(fs).contents(),
                old(fs).denied(),
                self.done(),
                r,
                final(fs).contents(),
            ),
    {
        let mut tx = self;
        let ghost mf = fs.contents();
        let ghost d = fs.denied();
        let ghost done0 = steps_of(tx.successful_exec@);
        let ghost u = unwind_of(done0);
        let mut t: usize = 0;
        let n = tx.successful_exec.len();
        proof {
            assert(u.len() == done0.len());
            assert(done0.len() == n);
            assert(u.take(0) =~= Seq::<(Seq<u8>, Seq<u8>)>::empty());
        }
        loop
            invariant
                t <= done0.len(),
                t + tx.successful_exec@.len() == done0.len(),
                steps_of(tx.successful_exec@) == done0.take((done0.len() - t) as int),
                u == unwind_of(done0),
                u.len() == done0.len(),
                sim_fail_at(mf, d, u.take(t as int)) is None,
                fs.contents() == sim_run(mf, d, u.take(t as int)),
                fs.denied() == d,
            decreases tx.successful_exec@.len(),
        {
            let cmd = match tx.successful_exec.pop() {
                Some(c) => c,
                None => {
                    proof {
                        assert(u.take(t as int) =~= u);
                    }
                    return Ok(());
                },
            };
            proof {
                let rem = (done0.len() - t) as int;
                assert(done0.take(rem)[rem - 1] == (cmd.from@, cmd.to@));
                assert(done0[rem - 1] == (cmd.from@, cmd.to@));
                assert(u[t as int] == (cmd.to@, cmd.from@)) by {
                    assert(done0.reverse()[t as int] == done0[rem - 1]);
                }
                assert(steps_of(tx.successful_exec@) =~= done0.take(rem - 1));
            }
            let res = fs.rename(&cmd.to, &cmd.from);
            match res {
                Ok(()) => {
                    proof {
                        lemma_sim_snoc(mf, d, u.take(t as int), u[t as int]);
                        assert(u.take(t as int + 1) =~= u.take(t as int).push(u[t as int]));
                    }
                    t = t + 1;
                },
                Err(e) => {
                    proof {
                        lemma_sim_split(mf, d, u, t as int);
                        assert(u.skip(t as int)[0] == u[t as int]);
                        assert(u.skip(t as int).len() > 0);
                        assert(sim_fail_at(mf, d, u) == Some(t as int));
                        assert(sim_run(mf, d, u) == sim_run(mf, d, u.take(t as int)));
                    }
                    return Err(Error::Fs(e));
                },
            }
        }
    }

    /// Execute the planned renames in order, recording each success.
    ///
    /// On the first failure no further planned step is attempted; the
    /// recorded steps are rolled back, and the triggering error is returned
    /// alone when the rollback runs clean, or chained with the rollback's
    /// own error when it does not.
    #[verifier::loop_isolation(false)]
    pub fn commit(self, fs: &mut FsModel) -> (r: Result<(), Error>)
        requires
            self.done() == Seq::<(Seq<u8>, Seq<u8>)>::empty(),
        ensures
            final(fs).denied() == old(fs).denied(),
            commit_post(
                old(fs).contents(),
                old(fs).denied(),
                self.pending(),
                r,
                final(fs).contents(),
            ),
    {
        let mut tx = self;
        let ghost m0 = fs.contents();
        let ghost d = fs.denied();
        let ghost s = steps_of(tx.to_exec@);
        let mut idx: usize = 0;
        proof {
            assert(s.take(0) =~= Seq::<(Seq<u8>, Seq<u8>)>::empty());
        }
        while idx < tx.to_exec.len()
            invariant
                idx <= tx.to_exec@.len(),
                steps_of(tx.to_exec@) == s,
                s.len() == tx.to_exec@.len(),
                sim_fail_at(m0, d, s.take(idx as int)) is None,
                fs.contents() == sim_run(m0, d, s.take(idx as int)),
                fs.denied() == d,
                steps_of(tx.successful_exec@) == s.take(idx as int),
            decreases tx.to_exec@.len() - idx,
        {
            proof {
                assert(s[idx as int] == (tx.to_exec@[idx as int].from@, tx.to_exec@[
                    idx as int].to@));
            }
            let res = fs.rename(&tx.to_exec[idx].from, &tx.to_exec[idx].to);
            match res {
                Ok(()) => {
                    proof {
                        lemma_sim_snoc(m0, d, s.take(idx as int), s[idx as int]);
                        assert(s.take(idx as int + 1) =~= s.take(idx as int).push(s[idx as int]));
                    }
                    let ghost e0 = tx.successful_exec@;
                    let cmd = RenameCmd {
                        from: tx.to_exec[idx].from.clone(),
                        to: tx.to_exec[idx].to.clone(),
                    };
                    tx.successful_exec.push(cmd);
                    proof {
                        assert(tx.successful_exec@.last().from@ =~= tx.to_exec@[
                            idx as int].from@);
                        assert(tx.successful_exec@.last().to@ =~= tx.to_exec@[idx as int].to@);
                        assert(tx.successful_exec@.drop_last() =~= e0);
                        assert(steps_of(tx.successful_exec@) =~= s.take(idx as int + 1));
                    }
                    idx = idx + 1;
                },
                Err(e) => {
                    proof {
                        lemma_sim_snoc(m0, d, s.take(idx as int), s[idx as int]);
                        lemma_sim_split(m0, d, s, idx as int);
                        assert(s.skip(idx as int)[0] == s[idx as int]);
                        assert(s.skip(idx as int).len() > 0);
                        assert(sim_fail_at(m0, d, s) == Some(idx as int));
                        assert(sim_run(m0, d, s) == sim_run(m0, d, s.take(idx as int)));
                    }
                    let prim = Error::Fs(e);
                    let rb = tx.rollback(fs);
                    match rb {
                        Ok(()) => {
                            return Err(prim);
                        },
                        Err(e2) => {
                            return Err(Error::ChainError(Box::new(prim), Box::new(e2)));
                        },
                    }
                },
            }
        }
        proof {
            assert(s.take(idx as int) =~= s);
        }
        Ok(())
    }
}

/// What a rollback of the executed steps `done` leaves: the run of the
/// rollback plan, with the first failing inverse rename's error, if any.
pub open spec fn rollback_post(
    mf: Map<Seq<u8>, Seq<u8>>,
    d: Set<Seq<u8>>,
    done: Seq<(Seq<u8>, Seq<u8>)>,
    r: Result<(), Error>,
    m1: Map<Seq<u8>, Seq<u8>>,
) -> bool {
    let u = unwind_of(done);
    match sim_fail_at(mf, d, u) {
        None => r is Ok && m1 == sim_run(mf, d, u),
        Some(j) => m1 == sim_run(mf, d, u) && (r matches Err(Error::Fs(e)) && e.code
            == rename_err_code(sim_run(mf, d, u), d, u[j].0, u[j].1)),
    }
}

/// What a commit of the planned steps `s` does: a clean run applies every
/// step, a failed run stops at the first failing step and rolls back, and
/// the result carries the triggering error, chained with the rollback's
/// error when the rollback fails too.
pub open spec fn commit_post(
    m0: Map<Seq<u8>, Seq<u8>>,
    d: Set<Seq<u8>>,
    s: Seq<(Seq<u8>, Seq<u8>)>,
    r: Result<(), Error>,
    m1: Map<Seq<u8>, Seq<u8>>,
) -> bool {
    match sim_fail_at(m0, d, s) {
        None => r is Ok && m1 == sim_run(m0, d, s),
        Some(k) => {
            let mf = sim_run(m0, d, s);
            let code1 = rename_err_code(mf, d, s[k].0, s[k].1);
            let u = unwind_of(s.take(k));
            match sim_fail_at(mf, d, u) {
                None => m1 == sim_run(mf, d, u) && (r matches Err(Error::Fs(e)) && e.code
                    == code1),
                Some(j) => {
                    let code2 = rename_err_code(sim_run(mf, d, u), d, u[j].0, u[j].1);
                    &&& m1 == sim_run(mf, d, u)
                    &&& r matches Err(Error::ChainError(p, q))
                    &&& (*p matches Error::Fs(e1) && e1.code == code1)
                    &&& (*q matches Error::Fs(e2) && e2.code == code2)
                },
            }
        },
    }
}

/// Relies on `uuid::Uuid::new_v4` and `uuid::fmt::Hyphenated`: a freshly
/// drawn random identity, rendered as its 36-byte ASCII form (32 hexadecimal
/// digits and 4 hyphens). Nothing is assumed of which identity comes out.
#[verifier::external_body]
fn random_token() -> (r: Vec<u8>)
    ensures
        r@.len() == 36,
{
    uuid::Uuid::new_v4().hyphenated().to_string().into_bytes()
}

/// A usable temporary name: held by no entry, not a denied destination, and
/// distinct from both paths being exchanged.
pub open spec fn fresh_name_for(
    t: Seq<u8>,
    m0: Map<Seq<u8>, Seq<u8>>,
    d: Set<Seq<u8>>,
    p1: Seq<u8>,
    p2: Seq<u8>,
) -> bool {
    &&& !m0.contains_key(t)
    &&& !d.contains(t)
    &&& t != p1
    &&& t != p2
}

/// A name inside `parent` that collides with nothing: not an existing entry,
/// not a denied destination, and neither of the two paths being exchanged.
///
/// A randomly drawn name is tried first; if by chance it collides, the name
/// is extended until it is longer than every name in play.
fn fresh_temp_name(fs: &FsModel, parent: &Vec<u8>, path1: &Vec<u8>, path2: &Vec<u8>) -> (r: Vec<
    u8,
>)
    ensures
        fresh_name_for(r@, fs.contents(), fs.denied(), path1@, path2@),
{
    let token = random_token();
    let mut cand = join(parent, &token);
    if fs.is_free(&cand) && !bytes_eq(&cand, path1) && !bytes_eq(&cand, path2) {
        return cand;
    }
    let mut bound = fs.name_len_bound();
    if path1.len() > bound {
        bound = path1.len();
    }
    if path2.len() > bound {
        bound = path2.len();
    }
    while cand.len() <= bound
        decreases bound + 1 - cand.len(),
    {
        cand.push(120u8);
    }
    proof {
        assert(!fs.contents().contains_key(cand@)) by {
            if fs.contents().contains_key(cand@) {
                assert(cand@.len() <= bound);
            }
        }
        assert(!fs.denied().contains(cand@)) by {
            if fs.denied().contains(cand@) {
                assert(cand@.len() <= bound);
            }
        }
    }
    cand
}

/// The plan of the fallback exchange of `p1` and `p2` through the temporary
/// name `t`: the first path steps aside, the second takes its place, and the
/// temporary becomes the second.
pub open spec fn three_steps(p1: Seq<u8>, p2: Seq<u8>, t: Seq<u8>) -> Seq<(Seq<u8>, Seq<u8>)> {
    seq![(p1, t), (p2, p1), (t, p2)]
}

/// What the fallback exchange of `p1` and `p2` does, for every starting
/// arrangement: when it succeeds, on exactly which arrangements it fails
/// with which error, and what it leaves behind in each case.
///
/// Success is owed exactly when a parent directory is resolvable, both paths
/// exist and differ, and neither is a denied destination. A failing step
/// whose rollback runs clean leaves the contents exactly as they started and
/// reports the triggering error alone; only when the rollback itself also
/// fails does a `ChainError` carry both errors, over the partial arrangement
/// the rollback could not undo (in which the displaced content still lives
/// under some fresh temporary name).
pub open spec fn fallback_xch_post(
    m0: Map<Seq<u8>, Seq<u8>>,
    d: Set<Seq<u8>>,
    p1: Seq<u8>,
    p2: Seq<u8>,
    r: Result<(), Error>,
    m1: Map<Seq<u8>, Seq<u8>>,
) -> bool {
    if spec_parent_of(p1) is None && spec_parent_of(p2) is None {
        &&& r matches Err(Error::LogicError(_))
        &&& m1 == m0
    } else if !m0.contains_key(p1) {
        &&& r matches Err(Error::Fs(e)) && e.code == ENOENT
        &&& m1 == m0
    } else if d.contains(p1) {
        // the second step cannot land on p1, and neither can the rollback
        &&& r matches Err(Error::ChainError(p, q)) && (*p matches Error::Fs(e1) && e1.code == (
        if !m0.contains_key(p2) || p2 == p1 {
            ENOENT
        } else {
            EACCES
        })) && (*q matches Error::Fs(e2) && e2.code == EACCES)
        &&& exists|t: Seq<u8>|
            fresh_name_for(t, m0, d, p1, p2) && m1 == m0.remove(p1).insert(t, m0[p1])
    } else if !m0.contains_key(p2) || p2 == p1 {
        // the second step fails for want of a source; the rollback restores
        // the starting arrangement exactly
        &&& r matches Err(Error::Fs(e)) && e.code == ENOENT
        &&& m1 == m0
    } else if d.contains(p2) {
        // the last step cannot land back on p2, and neither can the rollback
        &&& r matches Err(Error::ChainError(p, q)) && (*p matches Error::Fs(e1) && e1.code
            == EACCES) && (*q matches Error::Fs(e2) && e2.code == EACCES)
        &&& exists|t: Seq<u8>|
            fresh_name_for(t, m0, d, p1, p2) && m1 == m0.remove(p2).insert(t, m0[p1]).insert(
                p1,
                m0[p2],
            )
    } else {
        &&& r is Ok
        &&& m1 == swap_contents(m0, p1, p2)
    }
}

/// A commit of the three-step plan through a fresh temporary name meets the
/// fallback contract.
proof fn lemma_fallback_cases(
    m0: Map<Seq<u8>, Seq<u8>>,
    d: Set<Seq<u8>>,
    p1: Seq<u8>,
    p2: Seq<u8>,
    t: Seq<u8>,
    r: Result<(), Error>,
    m1: Map<Seq<u8>, Seq<u8>>,
)
    requires
        fresh_name_for(t, m0, d, p1, p2),
        spec_parent_of(p1) is Some || spec_parent_of(p2) is Some,
        commit_post(m0, d, three_steps(p1, p2, t), r, m1),
    ensures
        fallback_xch_post(m0, d, p1, p2, r, m1),
{
    let s = three_steps(p1, p2, t);
    let rest1 = seq![(p2, p1), (t, p2)];
    let rest2 = seq![(t, p2)];
    assert(s[0] == (p1, t) && s[1] == (p2, p1) && s[2] == (t, p2));
    assert(s.drop_first() =~= rest1);
    assert(rest1.drop_first() =~= rest2);
    assert(rest2.drop_first() =~= Seq::<(Seq<u8>, Seq<u8>)>::empty());
    if !m0.contains_key(p1) {
        assert(!rename_enabled(m0, d, p1, t));
        assert(sim_fail_at(m0, d, s) == Some(0int));
        assert(sim_run(m0, d, s) == m0);
        assert(rename_err_code(m0, d, p1, t) == ENOENT);
        assert(s.take(0) =~= Seq::<(Seq<u8>, Seq<u8>)>::empty());
        assert(unwind_of(s.take(0)) =~= Seq::<(Seq<u8>, Seq<u8>)>::empty());
        assert(sim_fail_at(m0, d, unwind_of(s.take(0))) is None);
        assert(sim_run(m0, d, unwind_of(s.take(0))) == m0);
    } else {
        assert(rename_enabled(m0, d, p1, t));
        let ma = rename_effect(m0, p1, t);
        assert(ma.contains_key(t) && ma[t] == m0[p1]);
        assert(ma.contains_key(p2) <==> (m0.contains_key(p2) && p2 != p1));
        if d.contains(p1) || !m0.contains_key(p2) || p2 == p1 {
            assert(!rename_enabled(ma, d, p2, p1));
            assert(sim_fail_at(ma, d, rest1) == Some(0int));
            assert(sim_run(ma, d, rest1) == ma);
            assert(sim_fail_at(m0, d, s) == Some(1int));
            assert(sim_run(m0, d, s) == ma);
            let code1 = rename_err_code(ma, d, p2, p1);
            assert(code1 == if !m0.contains_key(p2) || p2 == p1 {
                ENOENT
            } else {
                EACCES
            });
            let u = unwind_of(s.take(1));
            assert(s.take(1) =~= seq![(p1, t)]);
            assert(u =~= seq![(t, p1)]) by {
                assert(s.take(1).reverse().len() == 1);
                assert(s.take(1).reverse()[0] == (p1, t));
            }
            assert(u.drop_first() =~= Seq::<(Seq<u8>, Seq<u8>)>::empty());
            if d.contains(p1) {
                assert(!rename_enabled(ma, d, t, p1));
                assert(sim_fail_at(ma, d, u) == Some(0int));
                assert(sim_run(ma, d, u) == ma);
                assert(rename_err_code(ma, d, t, p1) == EACCES);
                assert(fresh_name_for(t, m0, d, p1, p2) && m1 == m0.remove(p1).insert(t, m0[p1]));
            } else {
                assert(rename_enabled(ma, d, t, p1));
                let md = rename_effect(ma, t, p1);
                assert(sim_fail_at(md, d, u.drop_first()) is None);
                assert(sim_run(md, d, u.drop_first()) == md);
                assert(sim_fail_at(ma, d, u) is None);
                assert(sim_run(ma, d, u) == md);
                assert(md =~= m0);
            }
        } else {
            assert(rename_enabled(ma, d, p2, p1));
            let mb = rename_effect(ma, p2, p1);
            assert(mb.contains_key(t) && mb[t] == m0[p1]);
            assert(mb.contains_key(p1) && mb[p1] == m0[p2]);
            if d.contains(p2) {
                assert(!rename_enabled(mb, d, t, p2));
                assert(sim_fail_at(mb, d, rest2) == Some(0int));
                assert(sim_run(mb, d, rest2) == mb);
                assert(sim_fail_at(ma, d, rest1) == Some(1int));
                assert(sim_run(ma, d, rest1) == mb);
                assert(sim_fail_at(m0, d, s) == Some(2int));
                assert(sim_run(m0, d, s) == mb);
                assert(rename_err_code(mb, d, t, p2) == EACCES);
                let u = unwind_of(s.take(2));
                assert(s.take(2) =~= seq![(p1, t), (p2, p1)]);
                assert(u =~= seq![(p1, p2), (t, p1)]) by {
                    assert(s.take(2).reverse().len() == 2);
                    assert(s.take(2).reverse()[0] == (p2, p1));
                    assert(s.take(2).reverse()[1] == (p1, t));
                }
                assert(!rename_enabled(mb, d, p1, p2));
                assert(sim_fail_at(mb, d, u) == Some(0int));
                assert(sim_run(mb, d, u) == mb);
                assert(rename_err_code(mb, d, p1, p2) == EACCES);
                assert(fresh_name_for(t, m0, d, p1, p2) && m1 == m0.remove(p2).insert(
                    t,
                    m0[p1],
                ).insert(p1, m0[p2])) by {
                    assert(mb =~= m0.remove(p2).insert(t, m0[p1]).insert(p1, m0[p2]));
                }
            } else {
                assert(rename_enabled(mb, d, t, p2));
                let mc = rename_effect(mb, t, p2);
                assert(sim_fail_at(mc, d, rest2.drop_first()) is None);
                assert(sim_run(mc, d, rest2.drop_first()) == mc);
                assert(sim_fail_at(mb, d, rest2) is None);
                assert(sim_run(mb, d, rest2) == mc);
                assert(sim_fail_at(ma, d, rest1) is None);
                assert(sim_run(ma, d, rest1) == mc);
                assert(sim_fail_at(m0, d, s) is None);
                assert(sim_run(m0, d, s) == mc);
                assert(mc =~= swap_contents(m0, p1, p2));
            }
        }
    }
}

/// The three-step plan for exchanging `path1` and `path2` through the
/// temporary name `temp`, as executable commands in execution order.
pub fn plan_steps(path1: &Vec<u8>, path2: &Vec<u8>, temp: &Vec<u8>) -> (r: Vec<RenameCmd>)
    ensures
        steps_of(r@) == three_steps(path1@, path2@, temp@),
{
    let mut r: Vec<RenameCmd> = Vec::new();
    r.push(RenameCmd { from: path1.clone(), to: temp.clone() });
    r.push(RenameCmd { from: path2.clone(), to: path1.clone() });
    r.push(RenameCmd { from: temp.clone(), to: path2.clone() });
    proof {
        assert(r@[0].from@ =~= path1@);
        assert(r@[0].to@ =~= temp@);
        assert(r@[1].from@ =~= path2@);
        assert(r@[1].to@ =~= path1@);
        assert(r@[2].from@ =~= temp@);
        assert(r@[2].to@ =~= path2@);
        assert(steps_of(r@) =~= three_steps(path1@, path2@, temp@));
    }
    r
}

/// The rollback plan for the first `executed` steps of `steps`: each one
/// inverted, most recently executed first.
#[verifier::loop_isolation(false)]
pub fn rollback_steps(steps: &Vec<RenameCmd>, executed: usize) -> (r: Vec<RenameCmd>)
    requires
        executed <= steps@.len(),
    ensures
        steps_of(r@) == unwind_of(steps_of(steps@).take(executed as int)),
{
    let ghost u = unwind_of(steps_of(steps@).take(executed as int));
    proof {
        assert(u.len() == executed);
    }
    let mut r: Vec<RenameCmd> = Vec::new();
    let mut j: usize = executed;
    while j > 0
        invariant
            j <= executed,
            r@.len() == executed - j,
            forall|t: int|
                0 <= t < r@.len() ==> (#[trigger] r@[t].from@, r@[t].to@) == u[t],
        decreases j,
    {
        j = j - 1;
        let cmd = RenameCmd { from: steps[j].to.clone(), to: steps[j].from.clone() };
        let ghost r0 = r@;
        r.push(cmd);
        proof {
            assert(r@.last().from@ =~= steps@[j as int].to@);
            assert(r@.last().to@ =~= steps@[j as int].from@);
            assert(r@.drop_last() =~= r0);
            assert(steps_of(steps@).take(executed as int).reverse()[executed - 1 - j] == steps_of(
                steps@,
            ).take(executed as int)[j as int]);
            assert(u[executed - 1 - j] == (steps@[j as int].to@, steps@[j as int].from@));
        }
    }
    proof {
        assert(steps_of(r@) =~= u);
    }
    r
}

/// Exchange the contents of `path1` and `path2` by three renames through a
/// temporary name, rolling back on failure.
///
/// This does not happen atomically: mid-sequence, an observer of `fs` may
/// find `path1` missing, or holding `path2`'s former content while `path2`
/// is still missing. The exact outcome for every starting arrangement —
/// when success is owed, which error each failing arrangement earns, and
/// that a clean rollback leaves the contents exactly as they started — is
/// [`fallback_xch_post`].
pub fn xch(fs: &mut FsModel, path1: &Vec<u8>, path2: &Vec<u8>) -> (r: Result<(), Error>)
    ensures
        final(fs).denied() == old(fs).denied(),
        fallback_xch_post(
            old(fs).contents(),
            old(fs).denied(),
            path1@,
            path2@,
            r,
            final(fs).contents(),
        ),
{
    let parent = match parent_of(path1) {
        Some(dir) => dir,
        None => {
            match parent_of(path2) {
                Some(dir) => dir,
                None => {
                    return Err(Error::LogicError("Could not find parent directory".to_owned()));
                },
            }
        },
    };
    let temp = fresh_temp_name(fs, &parent, path1, path2);
    let mut transaction = Transaction::new();
    transaction.record_rename(path1, &temp);
    transaction.record_rename(path2, path1);
    transaction.record_rename(&temp, path2);
    proof {
        assert(transaction.pending() =~= three_steps(path1@, path2@, temp@));
    }
    let r = transaction.commit(fs);
    proof {
        lemma_fallback_cases(
            old(fs).contents(),
            old(fs).denied(),
            path1@,
            path2@,
            temp@,
            r,
            fs.contents(),
        );
    }
    r
}

} // verus!
