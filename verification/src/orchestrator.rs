//! The keyed-registry variant: plugins are registered under an explicit
//! plugin id and functions are resolved by the pair of plugin id and
//! function id, rather than by global name. Registration fails on a
//! duplicate plugin id; resolution fails with `PluginNotFound` or
//! `FunctionNotFound`, naming the missing id.

use vstd::prelude::*;

use crate::consumer_provider::{advertises, YapsData};
use crate::error::Error;
use crate::func_handle::FuncHandle;

verus! {

/// A registry resolving `(plugin id, function id)` pairs to handles.
pub trait Orchestrator<D: YapsData>: Sized {
    /// The handle type resolution yields.
    type Handle: FuncHandle<D>;

    /// Well-formedness of the registry.
    spec fn inv(&self) -> bool;

    /// Whether a plugin is registered under `pid`.
    spec fn has_plugin(&self, pid: Seq<char>) -> bool;

    /// Whether the plugin under `pid` advertises `fid`.
    spec fn advertises_func(&self, pid: Seq<char>, fid: Seq<char>) -> bool;

    /// The handle resolution yields for `(pid, fid)`, meaningful when the
    /// plugin is registered and advertises the function.
    spec fn handle_of(&self, pid: Seq<char>, fid: Seq<char>) -> Self::Handle;

    /// Arguments on which every handle for `(pid, fid)` may be called.
    spec fn func_req(&self, pid: Seq<char>, fid: Seq<char>, args: D) -> bool;

    /// What holds of every outcome of a call through a handle for
    /// `(pid, fid)`.
    spec fn func_ens(&self, pid: Seq<char>, fid: Seq<char>, args: D, r: Result<D, Error>) -> bool;

    /// Resolve a key to a handle; fails with `PluginNotFound` exactly
    /// when the plugin id is unknown, and with `FunctionNotFound` exactly
    /// when the plugin does not advertise the function id.
    fn get_func(&self, key: &(String, String)) -> (r: Result<Self::Handle, Error>)
        requires
            self.inv(),
        ensures
            match r {
                Ok(h) => self.has_plugin(key.0@) && self.advertises_func(key.0@, key.1@) && h
                    == self.handle_of(key.0@, key.1@) && (
                forall|args: D| self.func_req(key.0@, key.1@, args) ==> #[trigger] h.call_req(args))
                    && (forall|args: D, res: Result<D, Error>|
                    #[trigger] h.call_ens(args, res) ==> self.func_ens(key.0@, key.1@, args, res)),
                Err(e) => (e matches Error::PluginNotFound(s) && s@ == key.0@ && !self.has_plugin(
                    key.0@,
                )) || (e matches Error::FunctionNotFound(s) && s@ == key.1@ && self.has_plugin(
                    key.0@,
                ) && !self.advertises_func(key.0@, key.1@)),
            },
    ;
}

/// A plugin in the keyed world: a catalog of function ids, resolution of
/// an id to a handle, and a late initialization step that binds its
/// externs against a registry.
pub trait PluginConnector<D: YapsData>: Sized {
    /// The handle type this plugin resolves ids to.
    type Handle: FuncHandle<D>;

    /// The ids this plugin advertises.
    spec fn catalog(&self) -> Seq<Seq<char>>;

    /// The handle resolution yields for `id`, meaningful when `id` is
    /// advertised.
    spec fn handle_of(&self, id: Seq<char>) -> Self::Handle;

    /// Arguments on which every handle for `id` may be called.
    spec fn func_req(&self, id: Seq<char>, args: D) -> bool;

    /// What holds of every outcome of a call through a handle for `id`.
    spec fn func_ens(&self, id: Seq<char>, args: D, r: Result<D, Error>) -> bool;

    /// How initialization changes this plugin's state, given the registry
    /// it ran against: `plugins` are the registered plugin ids and
    /// `resolutions` maps each resolvable key to the handle the registry
    /// yields for it.
    spec fn init_ens(
        pre: Self,
        post: Self,
        plugins: Set<Seq<char>>,
        resolutions: Map<(Seq<char>, Seq<char>), Self::Handle>,
        r: Result<(), Error>,
    ) -> bool;

    /// The advertised function ids.
    fn provided_funcs(&self) -> (r: Vec<String>)
        ensures
            r@.map_values(|s: String| s@) == self.catalog(),
    ;

    /// Resolve `id` to a handle, or fail with `FunctionNotFound` exactly
    /// when `id` is not advertised.
    fn get_func(&self, id: &String) -> (r: Result<Self::Handle, Error>)
        ensures
            match r {
                Ok(h) => advertises(self.catalog(), id@) && h == self.handle_of(id@) && (forall|
                    args: D,
                |
                    self.func_req(id@, args) ==> #[trigger] h.call_req(args)) && (forall|
                    args: D,
                    res: Result<D, Error>,
                |
                    #[trigger] h.call_ens(args, res) ==> self.func_ens(id@, args, res)),
                Err(e) => !advertises(self.catalog(), id@) && (e matches Error::FunctionNotFound(s)
                    && s@ == id@),
            },
    ;

    /// Bind this plugin's externs against the registry; errors from
    /// resolving a required extern propagate to the caller.
    fn init<O: Orchestrator<D, Handle = Self::Handle>>(&mut self, orch: &O) -> (r: Result<
        (),
        Error,
    >)
        requires
            orch.inv(),
        ensures
            Self::init_ens(
                *old(self),
                *final(self),
                orch_plugin_set::<D, O>(*orch),
                orch_resolution_map::<D, O>(*orch),
                r,
            ),
    ;
}

/// The plugin ids a registry knows, as one set.
pub open spec fn orch_plugin_set<D: YapsData, O: Orchestrator<D>>(o: O) -> Set<Seq<char>> {
    Set::new(|pid: Seq<char>| o.has_plugin(pid))
}

/// What a registry resolves: its domain holds exactly the keys whose
/// plugin is registered and advertises the function, each mapped to the
/// handle resolution yields.
pub open spec fn orch_resolution_map<D: YapsData, O: Orchestrator<D>>(o: O) -> Map<
    (Seq<char>, Seq<char>),
    O::Handle,
> {
    Map::new(
        |k: (Seq<char>, Seq<char>)| o.has_plugin(k.0) && o.advertises_func(k.0, k.1),
        |k: (Seq<char>, Seq<char>)| o.handle_of(k.0, k.1),
    )
}

/// The registered plugin ids, in registration order.
pub open spec fn orch_keys<P>(s: Seq<(String, P)>) -> Seq<Seq<char>> {
    s.map_values(|e: (String, P)| e.0@)
}

/// The position of the plugin registered under `pid`, if any.
pub open spec fn seq_index_of<P>(s: Seq<(String, P)>, pid: Seq<char>) -> Option<int> {
    if exists|i: int| 0 <= i < s.len() && orch_keys(s)[i] == pid {
        Some(choose|i: int| 0 <= i < s.len() && orch_keys(s)[i] == pid)
    } else {
        None
    }
}

/// The plugin ids of a registration list, as one set.
pub open spec fn seq_plugin_set<D: YapsData, P: PluginConnector<D>>(s: Seq<(String, P)>) -> Set<
    Seq<char>,
> {
    Set::new(|pid: Seq<char>| advertises(orch_keys(s), pid))
}

/// What a registration list resolves each key to.
pub open spec fn seq_resolution_map<D: YapsData, P: PluginConnector<D>>(s: Seq<(String, P)>) -> Map<
    (Seq<char>, Seq<char>),
    P::Handle,
> {
    Map::new(
        |k: (Seq<char>, Seq<char>)|
            match seq_index_of(s, k.0) {
                Some(i) => advertises(s[i].1.catalog(), k.1),
                None => false,
            },
        |k: (Seq<char>, Seq<char>)|
            match seq_index_of(s, k.0) {
                Some(i) => s[i].1.handle_of(k.1),
                None => vstd::pervasive::arbitrary(),
            },
    )
}

/// The registration list a plugin being initialized sees at position
/// `i`: the entries before it already initialized, itself taken out, the
/// entries after it untouched.
pub open spec fn init_view<P>(pre: Seq<(String, P)>, post: Seq<(String, P)>, i: int) -> Seq<
    (String, P),
> {
    post.take(i) + pre.skip(i + 1)
}

/// One initialization pass, one result per plugin already stepped: the
/// plugin at each position was stepped by its own `init_ens` against the
/// registry it saw at its turn.
pub open spec fn init_pass_steps<D: YapsData, P: PluginConnector<D>>(
    pre: Seq<(String, P)>,
    post: Seq<(String, P)>,
    results: Seq<Result<(), Error>>,
) -> bool {
    forall|j: int|
        0 <= j < results.len() ==> j < pre.len() && j < post.len() && P::init_ens(
            pre[j].1,
            post[j].1,
            seq_plugin_set::<D, P>(init_view(pre, post, j)),
            seq_resolution_map::<D, P>(init_view(pre, post, j)),
            #[trigger] results[j],
        )
}

/// On this registry the generic views agree with the list views.
proof fn lemma_orch_views<D: YapsData, P: PluginConnector<D>>(o: LocalOrchestrator<D, P>)
    ensures
        orch_plugin_set::<D, LocalOrchestrator<D, P>>(o) == seq_plugin_set::<D, P>(
            o.plugins_spec(),
        ),
        orch_resolution_map::<D, LocalOrchestrator<D, P>>(o) == seq_resolution_map::<D, P>(
            o.plugins_spec(),
        ),
{
    let s = o.plugins_spec();
    assert(orch_plugin_set::<D, LocalOrchestrator<D, P>>(o) =~= seq_plugin_set::<D, P>(s));
    let m1 = orch_resolution_map::<D, LocalOrchestrator<D, P>>(o);
    let m2 = seq_resolution_map::<D, P>(s);
    assert forall|k: (Seq<char>, Seq<char>)|
        m1.dom().contains(k) == m2.dom().contains(k) by {
        if o.has_plugin(k.0) {
            assert(seq_index_of(s, k.0) is Some);
        }
    }
    assert(m1.dom() =~= m2.dom());
    assert forall|k: (Seq<char>, Seq<char>)| m1.dom().contains(k) implies m1[k] == m2[k] by {
        assert(m1[k] == o.handle_of(k.0, k.1));
        assert(m2[k] == (match seq_index_of(s, k.0) {
            Some(i) => s[i].1.handle_of(k.1),
            None => vstd::pervasive::arbitrary(),
        }));
    }
    assert(m1 =~= m2);
}

/// The keyed registry: an ordered list of `(plugin id, plugin)` pairs
/// with pairwise-distinct ids.
pub struct LocalOrchestrator<D, P> {
    plugins: Vec<(String, P)>,
    _marker: core::marker::PhantomData<D>,
}

impl<D: YapsData, P: PluginConnector<D>> LocalOrchestrator<D, P> {
    /// The registrations, in insertion order.
    pub closed spec fn plugins_spec(&self) -> Seq<(String, P)> {
        self.plugins@
    }

    /// Registered plugin ids are pairwise distinct.
    pub open spec fn keys_unique(&self) -> bool {
        forall|i: int, j: int|
            0 <= i < j < self.plugins_spec().len() ==> orch_keys(self.plugins_spec())[i]
                != orch_keys(self.plugins_spec())[j]
    }

    /// The index of the plugin registered under `pid`, if any.
    pub open spec fn index_of(&self, pid: Seq<char>) -> Option<int> {
        seq_index_of(self.plugins_spec(), pid)
    }

    /// An empty registry.
    pub fn new() -> (r: LocalOrchestrator<D, P>)
        ensures
            r.plugins_spec().len() == 0,
            r.keys_unique(),
    {
        LocalOrchestrator { plugins: Vec::new(), _marker: core::marker::PhantomData }
    }

    /// Register `plugin` under `id`: fails with `PluginRegistered`
    /// exactly when `id` is already taken, and registers nothing then.
    pub fn register_plugin(&mut self, id: String, plugin: P) -> (r: Result<(), Error>)
        requires
            old(self).keys_unique(),
        ensures
            final(self).keys_unique(),
            match r {
                Ok(_) => !old(self).has_plugin(id@) && final(self).plugins_spec() == old(
                    self,
                ).plugins_spec().push((id, plugin)),
                Err(e) => old(self).has_plugin(id@) && (e matches Error::PluginRegistered(s) && s@
                    == id@) && final(self).plugins_spec() == old(self).plugins_spec(),
            },
    {
        let n = self.plugins.len();
        let mut i: usize = 0;
        while i < n
            invariant
                0 <= i <= n == self.plugins_spec().len(),
                self.plugins_spec() == old(self).plugins_spec(),
                self.keys_unique(),
                forall|j: int| 0 <= j < i ==> orch_keys(self.plugins_spec())[j] != id@,
            decreases n - i,
        {
            if self.plugins[i].0 == id {
                proof {
                    assert(orch_keys(self.plugins_spec())[i as int] == id@);
                }
                return Err(Error::PluginRegistered(id));
            }
            i += 1;
        }
        proof {
            assert(forall|j: int|
                0 <= j < self.plugins_spec().len() ==> orch_keys(self.plugins_spec())[j] != id@);
        }
        self.plugins.push((id, plugin));
        proof {
            assert(forall|j: int|
                0 <= j < old(self).plugins_spec().len()
                    ==> #[trigger] orch_keys(final(self).plugins_spec())[j] == orch_keys(
                    old(self).plugins_spec(),
                )[j]);
        }
        Ok(())
    }
}

impl<D: YapsData, P: PluginConnector<D>> LocalOrchestrator<D, P> {
    /// Initialize every registered plugin, in registration order: each is
    /// taken out, offered the rest of the registry to bind its externs,
    /// and put back in place, so at its turn a plugin sees the earlier
    /// plugins already initialized and the later ones untouched. The
    /// first failing initialization aborts the pass with that error,
    /// leaving the later plugins untouched. Plugin ids never change.
    #[verifier::loop_isolation(false)]
    pub fn init(&mut self) -> (r: Result<(), Error>)
        requires
            old(self).keys_unique(),
        ensures
            final(self).keys_unique(),
            final(self).plugins_spec().len() == old(self).plugins_spec().len(),
            orch_keys(final(self).plugins_spec()) == orch_keys(old(self).plugins_spec()),
            match r {
                Ok(_) => exists|results: Seq<Result<(), Error>>|
                    results.len() == old(self).plugins_spec().len() && #[trigger] init_pass_steps::<
                        D,
                        P,
                    >(old(self).plugins_spec(), final(self).plugins_spec(), results) && (forall|
                        j: int,
                    |
                        0 <= j < results.len() ==> (#[trigger] results[j]) is Ok),
                Err(e) => exists|results: Seq<Result<(), Error>>|
                    1 <= results.len() <= old(self).plugins_spec().len() && #[trigger] init_pass_steps::<
                        D,
                        P,
                    >(old(self).plugins_spec(), final(self).plugins_spec(), results)
                        && results.last() == Err::<(), Error>(e) && (forall|j: int|
                        0 <= j < results.len() - 1 ==> (#[trigger] results[j]) is Ok) && (forall|
                        j: int,
                    |
                        results.len() <= j < old(self).plugins_spec().len()
                            ==> #[trigger] final(self).plugins_spec()[j] == old(
                            self,
                        ).plugins_spec()[j]),
            },
    {
        let n = self.plugins.len();
        let mut i: usize = 0;
        let ghost mut results: Seq<Result<(), Error>> = Seq::empty();
        while i < n
            invariant
                0 <= i <= n == self.plugins_spec().len(),
                n == old(self).plugins_spec().len(),
                self.keys_unique(),
                orch_keys(self.plugins_spec()) == orch_keys(old(self).plugins_spec()),
                self.plugins_spec().skip(i as int) == old(self).plugins_spec().skip(i as int),
                results.len() == i,
                init_pass_steps::<D, P>(old(self).plugins_spec(), self.plugins_spec(), results),
                forall|j: int| 0 <= j < i ==> (#[trigger] results[j]) is Ok,
            decreases n - i,
        {
            let ghost before = self.plugins_spec();
            proof {
                assert(before[i as int] == old(self).plugins_spec()[i as int]) by {
                    assert(before.skip(i as int)[0] == before[i as int]);
                }
            }
            let (id, mut p) = self.plugins.remove(i);
            proof {
                assert forall|a: int, b: int|
                    0 <= a < b < self.plugins_spec().len() implies orch_keys(self.plugins_spec())[a]
                    != orch_keys(self.plugins_spec())[b] by {
                    let fa: int = if a < i { a } else { a + 1 };
                    let fb: int = if b < i { b } else { b + 1 };
                    assert(self.plugins_spec()[a] == before[fa]);
                    assert(self.plugins_spec()[b] == before[fb]);
                    assert(orch_keys(before)[fa] != orch_keys(before)[fb]);
                }
            }
            let ghost mid = *self;
            let res = p.init(&*self);
            let ghost gres = res;
            self.plugins.insert(i, (id, p));
            proof {
                let pre_all = old(self).plugins_spec();
                let cur = self.plugins_spec();
                assert(cur =~= before.update(i as int, (before[i as int].0, p)));
                assert(orch_keys(cur) =~= orch_keys(before));
                assert(cur.skip(i + 1) =~= old(self).plugins_spec().skip(i + 1)) by {
                    assert forall|j: int|
                        0 <= j < cur.len() - i - 1 implies #[trigger] cur.skip(i + 1)[j]
                        == pre_all.skip(i + 1)[j] by {
                        assert(cur.skip(i + 1)[j] == before.skip(i + 1)[j]);
                        assert(before.skip(i as int)[j + 1] == before.skip(i + 1)[j]);
                        assert(pre_all.skip(i as int)[j + 1] == pre_all.skip(i + 1)[j]);
                    }
                }
                lemma_orch_views::<D, P>(mid);
                assert(mid.plugins_spec() =~= init_view(pre_all, cur, i as int)) by {
                    assert(cur.take(i as int) =~= before.take(i as int));
                    assert(before.skip(i + 1) =~= pre_all.skip(i + 1)) by {
                        assert forall|j: int|
                            0 <= j < before.len() - i - 1 implies #[trigger] before.skip(i + 1)[j]
                            == pre_all.skip(i + 1)[j] by {
                            assert(before.skip(i as int)[j + 1] == before.skip(i + 1)[j]);
                            assert(pre_all.skip(i as int)[j + 1] == pre_all.skip(i + 1)[j]);
                        }
                    }
                }
                assert(P::init_ens(
                    pre_all[i as int].1,
                    cur[i as int].1,
                    seq_plugin_set::<D, P>(init_view(pre_all, cur, i as int)),
                    seq_resolution_map::<D, P>(init_view(pre_all, cur, i as int)),
                    gres,
                ));
                let old_results = results;
                results = results.push(gres);
                assert forall|j: int|
                    0 <= j < results.len() implies j < pre_all.len() && j < cur.len()
                    && P::init_ens(
                    pre_all[j].1,
                    cur[j].1,
                    seq_plugin_set::<D, P>(init_view(pre_all, cur, j)),
                    seq_resolution_map::<D, P>(init_view(pre_all, cur, j)),
                    #[trigger] results[j],
                ) by {
                    if j < i {
                        assert(results[j] == old_results[j]);
                        assert(cur[j] == before[j]);
                        assert(init_view(pre_all, cur, j) =~= init_view(pre_all, before, j)) by {
                            assert(cur.take(j) =~= before.take(j));
                        }
                        assert(P::init_ens(
                            pre_all[j].1,
                            before[j].1,
                            seq_plugin_set::<D, P>(init_view(pre_all, before, j)),
                            seq_resolution_map::<D, P>(init_view(pre_all, before, j)),
                            old_results[j],
                        ));
                    } else {
                        assert(results[j] == gres);
                    }
                }
            }
            match res {
                Err(e) => {
                    proof {
                        assert(results.last() == Err::<(), Error>(e));
                        assert forall|j: int|
                            results.len() <= j < old(self).plugins_spec().len()
                                implies #[trigger] self.plugins_spec()[j] == old(
                            self,
                        ).plugins_spec()[j] by {
                            assert(self.plugins_spec().skip(i + 1)[j - i - 1]
                                == self.plugins_spec()[j]);
                            assert(old(self).plugins_spec().skip(i + 1)[j - i - 1] == old(
                                self,
                            ).plugins_spec()[j]);
                        }
                        assert(1 <= results.len() <= old(self).plugins_spec().len()
                            && init_pass_steps::<D, P>(
                            old(self).plugins_spec(),
                            self.plugins_spec(),
                            results,
                        ) && results.last() == Err::<(), Error>(e) && (forall|j: int|
                            0 <= j < results.len() - 1 ==> (#[trigger] results[j]) is Ok) && (
                        forall|j: int|
                            results.len() <= j < old(self).plugins_spec().len()
                                ==> #[trigger] self.plugins_spec()[j] == old(
                                self,
                            ).plugins_spec()[j]));
                    }
                    return Err(e);
                },
                Ok(()) => {
                },
            }
            i += 1;
        }
        proof {
            assert(results.len() == old(self).plugins_spec().len() && init_pass_steps::<D, P>(
                old(self).plugins_spec(),
                self.plugins_spec(),
                results,
            ) && (forall|j: int| 0 <= j < results.len() ==> (#[trigger] results[j]) is Ok));
        }
        Ok(())
    }
}

impl<D: YapsData, P: PluginConnector<D>> Orchestrator<D> for LocalOrchestrator<D, P> {
    type Handle = P::Handle;

    open spec fn inv(&self) -> bool {
        self.keys_unique()
    }

    open spec fn has_plugin(&self, pid: Seq<char>) -> bool {
        advertises(orch_keys(self.plugins_spec()), pid)
    }

    open spec fn advertises_func(&self, pid: Seq<char>, fid: Seq<char>) -> bool {
        match self.index_of(pid) {
            Some(i) => advertises(self.plugins_spec()[i].1.catalog(), fid),
            None => false,
        }
    }

    open spec fn handle_of(&self, pid: Seq<char>, fid: Seq<char>) -> P::Handle {
        match self.index_of(pid) {
            Some(i) => self.plugins_spec()[i].1.handle_of(fid),
            None => vstd::pervasive::arbitrary(),
        }
    }

    open spec fn func_req(&self, pid: Seq<char>, fid: Seq<char>, args: D) -> bool {
        match self.index_of(pid) {
            Some(i) => self.plugins_spec()[i].1.func_req(fid, args),
            None => false,
        }
    }

    open spec fn func_ens(&self, pid: Seq<char>, fid: Seq<char>, args: D, r: Result<
        D,
        Error,
    >) -> bool {
        match self.index_of(pid) {
            Some(i) => self.plugins_spec()[i].1.func_ens(fid, args, r),
            None => true,
        }
    }

    /// Look the plugin up by id, then resolve the function inside it.
    fn get_func(&self, key: &(String, String)) -> (r: Result<P::Handle, Error>) {
        let n = self.plugins.len();
        let mut i: usize = 0;
        while i < n
            invariant
                0 <= i <= n == self.plugins_spec().len(),
                self.keys_unique(),
                forall|j: int| 0 <= j < i ==> orch_keys(self.plugins_spec())[j] != key.0@,
            decreases n - i,
        {
            if self.plugins[i].0 == key.0 {
                proof {
                    assert(orch_keys(self.plugins_spec())[i as int] == key.0@);
                    assert(self.index_of(key.0@) == Some(i as int)) by {
                        let w = choose|w: int|
                            0 <= w < self.plugins_spec().len() && orch_keys(self.plugins_spec())[w]
                                == key.0@;
                        assert(!(w < i) && !(i < w));
                    }
                }
                return self.plugins[i].1.get_func(&key.1);
            }
            i += 1;
        }
        proof {
            assert(!self.has_plugin(key.0@)) by {
                assert(forall|j: int|
                    0 <= j < orch_keys(self.plugins_spec()).len() ==> orch_keys(
                        self.plugins_spec(),
                    )[j] != key.0@);
            }
        }
        Err(Error::PluginNotFound(key.0.clone()))
    }
}

} // verus!
