//! The Scope Environment: identifier-to-slot bindings with nested-scope
//! shadowing. At most one live binding per identifier per scope; a nested
//! scope may shadow an outer binding and exiting it restores the outer one.

use crate::diagnostic::bytes_eq;
use vstd::prelude::*;

verus! {

/// The ghost value of a scope environment: frames outermost first, each
/// frame the bindings made in it, oldest first.
pub type EnvView = Seq<Seq<(Seq<u8>, usize)>>;

/// What `name` is bound to within one frame: its latest binding there.
pub open spec fn frame_lookup(fr: Seq<(Seq<u8>, usize)>, name: Seq<u8>) -> Option<usize>
    decreases fr.len(),
{
    if fr.len() == 0 {
        None
    } else if fr.last().0 == name {
        Some(fr.last().1)
    } else {
        frame_lookup(fr.drop_last(), name)
    }
}

/// What `name` resolves to: the innermost frame that binds it wins.
pub open spec fn env_resolve(env: EnvView, name: Seq<u8>) -> Option<usize>
    decreases env.len(),
{
    if env.len() == 0 {
        None
    } else {
        match frame_lookup(env.last(), name) {
            Some(slot) => Some(slot),
            None => env_resolve(env.drop_last(), name),
        }
    }
}

/// The environment after binding `name` in the innermost frame.
pub open spec fn env_bind(env: EnvView, name: Seq<u8>, slot: usize) -> EnvView
    recommends
        env.len() >= 1,
{
    env.update(env.len() - 1, env.last().push((name, slot)))
}

/// The binding table active during one lowering pass.
pub struct ScopeEnv {
    frames: Vec<Vec<(Vec<u8>, usize)>>,
}

impl View for ScopeEnv {
    type V = EnvView;

    closed spec fn view(&self) -> EnvView {
        self.frames@.map_values(
            |fr: Vec<(Vec<u8>, usize)>| fr@.map_values(|b: (Vec<u8>, usize)| (b.0@, b.1)),
        )
    }
}

impl ScopeEnv {
    /// There is always a root scope to bind into.
    pub open spec fn wf(&self) -> bool {
        self@.len() >= 1
    }

    /// An environment with one root scope and no bindings.
    pub fn new() -> (r: Self)
        ensures
            r@ == seq![Seq::<(Seq<u8>, usize)>::empty()],
            r.wf(),
    {
        let mut frames: Vec<Vec<(Vec<u8>, usize)>> = Vec::new();
        frames.push(Vec::new());
        let r = ScopeEnv { frames };
        proof {
            assert(r@ =~~= seq![Seq::<(Seq<u8>, usize)>::empty()]);
        }
        r
    }

    /// Opens a nested scope; bindings made from here on shadow outer ones.
    pub fn enter_scope(&mut self)
        requires
            old(self).wf(),
        ensures
            final(self)@ == old(self)@.push(Seq::<(Seq<u8>, usize)>::empty()),
            final(self).wf(),
    {
        self.frames.push(Vec::new());
        proof {
            assert(self@ =~~= old(self)@.push(Seq::<(Seq<u8>, usize)>::empty()));
        }
    }

    /// Closes the innermost nested scope, discarding every binding made in
    /// it and restoring what was visible before it opened. The root scope
    /// cannot be closed.
    pub fn exit_scope(&mut self)
        requires
            old(self)@.len() >= 2,
        ensures
            final(self)@ == old(self)@.drop_last(),
            final(self).wf(),
    {
        let _ = self.frames.pop();
        proof {
            assert(self@ =~~= old(self)@.drop_last());
        }
    }

    /// Binds `name` to `slot` in the innermost scope. If `name` is already
    /// bound in that scope (outer scopes do not count), nothing changes and
    /// the prior slot comes back as the error.
    pub fn bind(&mut self, name: Vec<u8>, slot: usize) -> (r: Result<(), usize>)
        requires
            old(self).wf(),
        ensures
            match frame_lookup(old(self)@.last(), name@) {
                None => r is Ok && final(self)@ == env_bind(old(self)@, name@, slot),
                Some(prior) => r == Err::<(), usize>(prior) && *final(self) == *old(self),
            },
            final(self).wf(),
            final(self)@.len() == old(self)@.len(),
    {
        let ghost fv: Seq<(Seq<u8>, usize)> = old(self)@.last();
        let fi = self.frames.len() - 1;
        let n = self.frames[fi].len();
        proof {
            assert(fv.take(fv.len() as int) =~= fv);
        }
        let mut j: usize = n;
        while j > 0
            invariant
                *self == *old(self),
                old(self).wf(),
                fv == old(self)@.last(),
                self.frames@.len() >= 1,
                fi == self.frames@.len() - 1,
                n == self.frames@[fi as int]@.len(),
                n == fv.len(),
                j <= n,
                frame_lookup(fv, name@) == frame_lookup(fv.take(j as int), name@),
            decreases j,
        {
            proof {
                assert(self@[fi as int] == fv);
                assert(fv[j - 1].0 == self.frames@[fi as int]@[j - 1].0@);
            }
            if bytes_eq(&self.frames[fi][j - 1].0, &name) {
                let prior = self.frames[fi][j - 1].1;
                proof {
                    assert(fv.take(j as int).last() == fv[j - 1]);
                    assert(frame_lookup(fv.take(j as int), name@) == Some(prior));
                }
                return Err(prior);
            }
            proof {
                assert(fv.take(j as int).drop_last() =~= fv.take(j - 1));
            }
            j = j - 1;
        }
        proof {
            assert(fv.take(0) =~= Seq::<(Seq<u8>, usize)>::empty());
            assert(frame_lookup(fv, name@) is None);
        }
        let mut fr = self.frames.pop().unwrap();
        fr.push((name, slot));
        self.frames.push(fr);
        proof {
            assert(self@ =~~= env_bind(old(self)@, name@, slot));
        }
        Ok(())
    }

    /// Resolves `name` by searching the innermost scope, then each enclosing
    /// scope outward; nothing if no enclosing scope binds it.
    pub fn resolve(&self, name: &Vec<u8>) -> (r: Option<usize>)
        ensures
            r == env_resolve(self@, name@),
    {
        proof {
            assert(self@.take(self@.len() as int) =~= self@);
        }
        let mut k: usize = self.frames.len();
        while k > 0
            invariant
                k <= self.frames@.len(),
                env_resolve(self@, name@) == env_resolve(self@.take(k as int), name@),
            decreases k,
        {
            let fi = k - 1;
            let ghost fv: Seq<(Seq<u8>, usize)> = self@[fi as int];
            let n = self.frames[fi].len();
            proof {
                assert(fv.take(fv.len() as int) =~= fv);
                assert(self@.take(k as int).last() == fv);
            }
            let mut j: usize = n;
            while j > 0
                invariant
                    k <= self.frames@.len(),
                    env_resolve(self@, name@) == env_resolve(self@.take(k as int), name@),
                    fi == k - 1,
                    fv == self@[fi as int],
                    n == self.frames@[fi as int]@.len(),
                    n == fv.len(),
                    j <= n,
                    frame_lookup(fv, name@) == frame_lookup(fv.take(j as int), name@),
                decreases j,
            {
                proof {
                    assert(fv[j - 1].0 == self.frames@[fi as int]@[j - 1].0@);
                }
                if bytes_eq(&self.frames[fi][j - 1].0, name) {
                    let slot = self.frames[fi][j - 1].1;
                    proof {
                        assert(fv.take(j as int).last() == fv[j - 1]);
                        assert(frame_lookup(fv.take(j as int), name@) == Some(slot));
                        assert(self@.take(k as int).last() == fv);
                        assert(env_resolve(self@.take(k as int), name@) == Some(slot));
                    }
                    return Some(slot);
                }
                proof {
                    assert(fv.take(j as int).drop_last() =~= fv.take(j - 1));
                }
                j = j - 1;
            }
            proof {
                assert(fv.take(0) =~= Seq::<(Seq<u8>, usize)>::empty());
                assert(frame_lookup(fv, name@) is None);
                assert(self@.take(k as int).last() == fv);
                assert(self@.take(k as int).drop_last() =~= self@.take(k - 1));
            }
            k = k - 1;
        }
        proof {
            assert(self@.take(0) =~= Seq::<Seq<(Seq<u8>, usize)>>::empty());
        }
        None
    }
}

/// Law (scope shadowing): binding `name` in a freshly entered scope makes
/// `name` resolve to that binding while the scope is open, and exiting the
/// scope restores exactly the resolution that held before it was entered —
/// for every identifier, not only `name`.
pub proof fn lemma_scope_shadowing(
    env: EnvView,
    fr: Seq<(Seq<u8>, usize)>,
    name: Seq<u8>,
    slot: usize,
    other: Seq<u8>,
)
    ensures
        env_resolve(env.push(fr.push((name, slot))), name) == Some(slot),
        env.push(fr.push((name, slot))).drop_last() == env,
        env_resolve(env.push(fr.push((name, slot))).drop_last(), other) == env_resolve(env, other),
{
    let inner = fr.push((name, slot));
    assert(env.push(inner).last() == inner);
    assert(frame_lookup(inner, name) == Some(slot));
    assert(env.push(inner).drop_last() =~= env);
}

/// Law (unbound identifiers): `name` resolves to nothing exactly when no
/// frame of the environment binds it.
pub proof fn lemma_resolve_unbound(env: EnvView, name: Seq<u8>)
    ensures
        (env_resolve(env, name) is None) <==> (forall|k: int|
            0 <= k < env.len() ==> frame_lookup(#[trigger] env[k], name) is None),
    decreases env.len(),
{
    if env.len() > 0 {
        lemma_resolve_unbound(env.drop_last(), name);
        assert(forall|k: int|
            0 <= k < env.len() - 1 ==> env.drop_last()[k] == #[trigger] env[k]);
        assert(env.last() == env[env.len() - 1]);
    }
}

/// Law (duplicate-binding policy): when the innermost scope already binds
/// `name`, that binding is what resolution returns, so a refused rebinding
/// leaves the original resolvable.
pub proof fn lemma_duplicate_binding_keeps_original(env: EnvView, name: Seq<u8>)
    requires
        env.len() >= 1,
        frame_lookup(env.last(), name) is Some,
    ensures
        env_resolve(env, name) == frame_lookup(env.last(), name),
{
}

} // verus!
