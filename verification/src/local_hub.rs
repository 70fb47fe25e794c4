//! The hub: aggregates providers into one logical provider, aggregates
//! consumers into one logical consumer, and cross-wires them as they are
//! registered.
//!
//! Registration order is insertion order and nothing is ever removed. The
//! catalog of the hub is the concatenation of the registered providers'
//! catalogs, in registration order, without deduplication: an id advertised
//! by several providers resolves to the provider registered first.

use vstd::prelude::*;

use crate::consumer_provider::{
    advertises, catalog_ids, FuncConsumer, FuncMetadata, FuncProvider, YapsData,
};
use crate::error::Error;

verus! {

/// One registration held by the hub: the registered item, the catalog
/// captured at registration time if the item was registered as a provider,
/// and whether it was registered as a consumer.
pub struct HubEntry<E> {
    /// The registered plugin.
    pub item: E,
    /// The advertised catalog, captured when the item was added as a
    /// provider; `None` for a pure consumer.
    pub funcs: Option<Vec<FuncMetadata>>,
    /// Whether the item takes part in consumer wiring.
    pub is_consumer: bool,
}

/// The ids cached for an entry; empty for a pure consumer.
pub open spec fn entry_ids<E>(e: HubEntry<E>) -> Seq<Seq<char>> {
    match e.funcs {
        Some(v) => catalog_ids(v@),
        None => Seq::empty(),
    }
}

/// Whether an entry was registered as a provider.
pub open spec fn entry_is_provider<E>(e: HubEntry<E>) -> bool {
    e.funcs is Some
}

/// The concatenation of the entries' cached catalogs, in order.
pub open spec fn entries_catalog<E>(s: Seq<HubEntry<E>>) -> Seq<Seq<char>>
    decreases s.len(),
{
    if s.len() == 0 {
        Seq::empty()
    } else {
        entry_ids(s[0]) + entries_catalog(s.drop_first())
    }
}

/// The index of the first entry whose cached catalog advertises `id`.
pub open spec fn find_provider<E>(s: Seq<HubEntry<E>>, id: Seq<char>) -> Option<int>
    decreases s.len(),
{
    if s.len() == 0 {
        None
    } else if advertises(entry_ids(s[0]), id) {
        Some(0)
    } else {
        match find_provider(s.drop_first(), id) {
            Some(i) => Some(i + 1),
            None => None,
        }
    }
}

/// The hub's catalog advertises `id` exactly when some entry does, and
/// `find_provider` is the first such entry.
pub proof fn lemma_find_provider<E>(s: Seq<HubEntry<E>>, id: Seq<char>)
    ensures
        match find_provider(s, id) {
            Some(i) => 0 <= i < s.len() && entry_is_provider(s[i]) && advertises(
                entry_ids(s[i]),
                id,
            ) && (forall|j: int| 0 <= j < i ==> !advertises(entry_ids(#[trigger] s[j]), id))
                && advertises(entries_catalog(s), id),
            None => (forall|j: int| 0 <= j < s.len() ==> !advertises(entry_ids(#[trigger] s[j]), id))
                && !advertises(entries_catalog(s), id),
        },
    decreases s.len(),
{
    if s.len() == 0 {
    } else {
        let head_ids = entry_ids(s[0]);
        let rest = s.drop_first();
        lemma_find_provider(rest, id);
        assert(forall|j: int| 0 <= j < rest.len() ==> #[trigger] rest[j] == s[j + 1]);
        assert(entries_catalog(s) == head_ids + entries_catalog(rest));
        lemma_advertises_concat(head_ids, entries_catalog(rest), id);
        if advertises(head_ids, id) {
            assert(s[0].funcs is Some) by {
                if s[0].funcs is None {
                    assert(head_ids.len() == 0);
                }
            }
            assert(find_provider(s, id) == Some(0int));
        } else {
            match find_provider(rest, id) {
                Some(i) => {
                    assert(find_provider(s, id) == Some(i + 1));
                    assert(rest[i] == s[i + 1]);
                    assert forall|j: int| 0 <= j < i + 1 implies !advertises(
                        entry_ids(#[trigger] s[j]),
                        id,
                    ) by {
                        if j > 0 {
                            assert(rest[j - 1] == s[j]);
                            assert(!advertises(entry_ids(rest[j - 1]), id));
                        }
                    }
                },
                None => {
                    assert forall|j: int| 0 <= j < s.len() implies !advertises(
                        entry_ids(#[trigger] s[j]),
                        id,
                    ) by {
                        if j > 0 {
                            assert(rest[j - 1] == s[j]);
                            assert(!advertises(entry_ids(rest[j - 1]), id));
                        }
                    }
                },
            }
        }
    }
}

/// `advertises` distributes over catalog concatenation.
pub proof fn lemma_advertises_concat(a: Seq<Seq<char>>, b: Seq<Seq<char>>, id: Seq<char>)
    ensures
        advertises(a + b, id) <==> (advertises(a, id) || advertises(b, id)),
{
    let c = a + b;
    if advertises(a, id) {
        let i = choose|i: int| 0 <= i < a.len() && a[i] == id;
        assert(c[i] == id);
    }
    if advertises(b, id) {
        let i = choose|i: int| 0 <= i < b.len() && b[i] == id;
        assert(c[a.len() + i] == id);
    }
    if advertises(c, id) {
        let i = choose|i: int| 0 <= i < c.len() && c[i] == id;
        if i < a.len() {
            assert(a[i] == id);
        } else {
            assert(b[i - a.len()] == id);
        }
    }
}

/// Appending an entry appends its ids to the catalog.
pub proof fn lemma_entries_catalog_push<E>(s: Seq<HubEntry<E>>, e: HubEntry<E>)
    ensures
        entries_catalog(s.push(e)) == entries_catalog(s) + entry_ids(e),
    decreases s.len(),
{
    let t = s.push(e);
    if s.len() == 0 {
        assert(t.drop_first() =~= Seq::<HubEntry<E>>::empty());
        assert(t[0] == e);
        assert(entries_catalog(t.drop_first()) == Seq::<Seq<char>>::empty());
        assert(entries_catalog(t) == entry_ids(e) + entries_catalog(t.drop_first()));
        assert(entries_catalog(s) == Seq::<Seq<char>>::empty());
        assert(entry_ids(e) + Seq::<Seq<char>>::empty() =~= Seq::<Seq<char>>::empty() + entry_ids(
            e,
        ));
    } else {
        assert(t.drop_first() =~= s.drop_first().push(e));
        lemma_entries_catalog_push(s.drop_first(), e);
        assert(t[0] == s[0]);
        assert(entries_catalog(t) == entry_ids(s[0]) + entries_catalog(t.drop_first()));
        assert(entries_catalog(s) == entry_ids(s[0]) + entries_catalog(s.drop_first()));
        assert(entry_ids(s[0]) + (entries_catalog(s.drop_first()) + entry_ids(e)) =~= (entry_ids(
            s[0],
        ) + entries_catalog(s.drop_first())) + entry_ids(e));
    }
}

/// Appending one metadata record appends its id to the catalog ids.
pub proof fn lemma_catalog_ids_push(s: Seq<FuncMetadata>, f: FuncMetadata)
    ensures
        catalog_ids(s.push(f)) == catalog_ids(s).push(f.id@),
{
    assert(catalog_ids(s.push(f)) =~= catalog_ids(s).push(f.id@));
}

/// Two entry sequences with pointwise-equal cached ids have the same
/// catalog.
pub proof fn lemma_entries_catalog_pointwise<E>(a: Seq<HubEntry<E>>, b: Seq<HubEntry<E>>)
    requires
        a.len() == b.len(),
        forall|i: int| 0 <= i < a.len() ==> entry_ids(#[trigger] a[i]) == entry_ids(b[i]),
    ensures
        entries_catalog(a) == entries_catalog(b),
    decreases a.len(),
{
    if a.len() > 0 {
        assert(forall|i: int|
            0 <= i < a.len() - 1 ==> #[trigger] a.drop_first()[i] == a[i + 1] && b.drop_first()[i]
                == b[i + 1]);
        lemma_entries_catalog_pointwise(a.drop_first(), b.drop_first());
        assert(entries_catalog(a) == entry_ids(a[0]) + entries_catalog(a.drop_first()));
        assert(entries_catalog(b) == entry_ids(b[0]) + entries_catalog(b.drop_first()));
    }
}

/// An entry's well-formedness inside the hub: a provider entry is valid
/// and its cached ids match its current catalog.
pub open spec fn entry_ok<D: YapsData, E: FuncProvider<D> + FuncConsumer<D, E>>(
    e: HubEntry<E>,
) -> bool {
    entry_is_provider(e) ==> e.item.inv() && entry_ids(e) == e.item.catalog()
}

/// The law the hub relies on about its plugin type: connecting a plugin
/// of type `E` to a provider of type `P` never changes the plugin's
/// advertised catalog and keeps it valid as a provider.
pub open spec fn connect_keeps_provider_facet<
    D: YapsData,
    E: FuncProvider<D> + FuncConsumer<D, P>,
    P: FuncProvider<D>,
>() -> bool {
    forall|pre: E, post: E, p: P, r: Result<(), Error>|
        #[trigger] <E as FuncConsumer<D, P>>::connect_ens(pre, post, p, r) ==> (post.catalog()
            == pre.catalog() && (pre.inv() ==> post.inv()))
}

/// How one already-registered entry changes when a new provider `p` is
/// offered around: its roles and cached catalog never change, a
/// non-consumer entry does not change at all, and a consumer entry
/// changes exactly by one successful `connect` call.
pub open spec fn entry_stepped_ok<
    D: YapsData,
    E: FuncProvider<D> + FuncConsumer<D, P>,
    P: FuncProvider<D>,
>(pre: HubEntry<E>, post: HubEntry<E>, p: P) -> bool {
    &&& post.funcs == pre.funcs
    &&& post.is_consumer == pre.is_consumer
    &&& if pre.is_consumer {
        exists|r: Result<(), Error>|
            r is Ok && #[trigger] <E as FuncConsumer<D, P>>::connect_ens(pre.item, post.item, p, r)
    } else {
        post.item == pre.item
    }
}

/// No `connect` between these types can fail: every outcome the
/// consumer's own contract admits is `Ok`.
pub open spec fn connect_always_ok<
    D: YapsData,
    E: FuncConsumer<D, P>,
    P: FuncProvider<D>,
>() -> bool {
    forall|a: E, b: E, q: P, rr: Result<(), Error>|
        #[trigger] <E as FuncConsumer<D, P>>::connect_ens(a, b, q, rr) ==> rr is Ok
}

/// No entry takes part in consumer wiring.
pub open spec fn no_consumer_entries<E>(s: Seq<HubEntry<E>>) -> bool {
    forall|i: int| 0 <= i < s.len() ==> !(#[trigger] s[i]).is_consumer
}

/// No entry takes part in provider wiring.
pub open spec fn no_provider_entries<E>(s: Seq<HubEntry<E>>) -> bool {
    forall|i: int| 0 <= i < s.len() ==> !entry_is_provider(#[trigger] s[i])
}

/// The per-entry condition of one pass of offering providers to a new
/// consumer: `states` are the consumer's successive states, one step per
/// already-registered entry; provider entries are offered by one `connect`
/// call each, other entries change nothing.
pub open spec fn offer_steps<D: YapsData, E: FuncProvider<D> + FuncConsumer<D, E>>(
    states: Seq<E>,
    s: Seq<HubEntry<E>>,
) -> bool {
    &&& states.len() == s.len() + 1
    &&& forall|i: int|
        0 <= i < s.len() ==> (if entry_is_provider(#[trigger] s[i]) {
            exists|r: Result<(), Error>|
                r is Ok && #[trigger] <E as FuncConsumer<D, E>>::connect_ens(
                    states[i],
                    states[i + 1],
                    s[i].item,
                    r,
                )
        } else {
            states[i + 1] == states[i]
        })
}

/// How a newly added consumer's state results from being offered the
/// already-registered providers, one at a time in registration order.
pub open spec fn offer_chain<D: YapsData, E: FuncProvider<D> + FuncConsumer<D, E>>(
    pre: E,
    post: E,
    s: Seq<HubEntry<E>>,
) -> bool {
    exists|states: Seq<E>|
        states[0] == pre && states[s.len() as int] == post && offer_steps::<D, E>(states, s)
}

/// A pass of offering the registered providers to a new consumer fails
/// at some provider entry: the offers before it succeeded, and that
/// entry's `connect` returned exactly this error.
pub open spec fn offer_fails<D: YapsData, E: FuncProvider<D> + FuncConsumer<D, E>>(
    pre: E,
    s: Seq<HubEntry<E>>,
    err: Error,
) -> bool {
    exists|k: int, states: Seq<E>, cfail: E|
        #![trigger offer_steps::<D, E>(states, s.take(k)), <E as FuncConsumer<D, E>>::connect_ens(states[k], cfail, s[k].item, Err(err))]
        0 <= k < s.len() && entry_is_provider(s[k]) && states.len() == k + 1 && states[0] == pre
            && offer_steps::<D, E>(states, s.take(k)) && <E as FuncConsumer<D, E>>::connect_ens(
            states[k],
            cfail,
            s[k].item,
            Err(err),
        )
}

/// The hub itself.
pub struct LocalHub<D, E> {
    entries: Vec<HubEntry<E>>,
    _marker: core::marker::PhantomData<D>,
}

impl<D: YapsData, E: FuncProvider<D> + FuncConsumer<D, E>> LocalHub<D, E> {
    /// The registrations, in insertion order.
    pub closed spec fn entries_spec(&self) -> Seq<HubEntry<E>> {
        self.entries@
    }

    /// Every entry is well formed and its cached catalog is current.
    pub open spec fn entries_ok(&self) -> bool {
        forall|i: int|
            0 <= i < self.entries_spec().len() ==> entry_ok::<D, E>(
                #[trigger] self.entries_spec()[i],
            )
    }

    /// An empty hub.
    pub fn new() -> (r: LocalHub<D, E>)
        ensures
            r.entries_spec().len() == 0,
            r.entries_ok(),
    {
        LocalHub { entries: Vec::new(), _marker: core::marker::PhantomData }
    }
}

/// Whether `funcs` contains `id`.
fn contains_id(funcs: &Vec<FuncMetadata>, id: &String) -> (b: bool)
    ensures
        b == advertises(catalog_ids(funcs@), id@),
{
    let ghost ids = catalog_ids(funcs@);
    let n = funcs.len();
    let mut i: usize = 0;
    while i < n
        invariant
            0 <= i <= n == funcs@.len(),
            ids == catalog_ids(funcs@),
            forall|j: int| 0 <= j < i ==> ids[j] != id@,
        decreases n - i,
    {
        if funcs[i].id == *id {
            assert(ids[i as int] == id@);
            return true;
        }
        i += 1;
    }
    assert(forall|j: int| 0 <= j < ids.len() ==> ids[j] != id@);
    false
}

impl<D: YapsData, E: FuncProvider<D> + FuncConsumer<D, E>> FuncProvider<D> for LocalHub<D, E> {
    type Handle = E::Handle;

    open spec fn inv(&self) -> bool {
        self.entries_ok()
    }

    /// The concatenation of all registered providers' catalogs.
    open spec fn catalog(&self) -> Seq<Seq<char>> {
        entries_catalog(self.entries_spec())
    }

    /// Resolution goes to the first registering provider advertising the
    /// id, and yields that provider's handle for it.
    open spec fn handle_of(&self, id: Seq<char>) -> E::Handle {
        match find_provider(self.entries_spec(), id) {
            Some(i) => self.entries_spec()[i].item.handle_of(id),
            None => vstd::pervasive::arbitrary(),
        }
    }

    open spec fn func_req(&self, id: Seq<char>, args: D) -> bool {
        match find_provider(self.entries_spec(), id) {
            Some(i) => self.entries_spec()[i].item.func_req(id, args),
            None => false,
        }
    }

    open spec fn func_ens(&self, id: Seq<char>, args: D, r: Result<D, Error>) -> bool {
        match find_provider(self.entries_spec(), id) {
            Some(i) => self.entries_spec()[i].item.func_ens(id, args, r),
            None => true,
        }
    }

    fn provided_funcs(&self) -> (r: Result<Vec<FuncMetadata>, Error>) {
        let mut out: Vec<FuncMetadata> = Vec::new();
        let n = self.entries.len();
        let mut i: usize = 0;
        while i < n
            invariant
                0 <= i <= n == self.entries_spec().len(),
                self.entries_ok(),
                catalog_ids(out@) == entries_catalog(self.entries_spec().take(i as int)),
            decreases n - i,
        {
            let ghost prefix = self.entries_spec().take(i as int);
            if let Some(funcs) = &self.entries[i].funcs {
                let m = funcs.len();
                let mut j: usize = 0;
                while j < m
                    invariant
                        0 <= j <= m == funcs@.len(),
                        catalog_ids(out@) == entries_catalog(prefix) + catalog_ids(funcs@).take(
                            j as int,
                        ),
                    decreases m - j,
                {
                    let ghost before = out@;
                    out.push(FuncMetadata { id: funcs[j].id.clone() });
                    proof {
                        lemma_catalog_ids_push(before, out@.last());
                        assert(out@ == before.push(out@.last()));
                        assert(out@.last().id@ == catalog_ids(funcs@)[j as int]);
                        assert(catalog_ids(funcs@).take(j + 1) =~= catalog_ids(funcs@).take(
                            j as int,
                        ).push(catalog_ids(funcs@)[j as int]));
                        assert(entries_catalog(prefix) + catalog_ids(funcs@).take(j as int).push(
                            catalog_ids(funcs@)[j as int],
                        ) =~= (entries_catalog(prefix) + catalog_ids(funcs@).take(j as int)).push(
                            catalog_ids(funcs@)[j as int],
                        ));
                    }
                    j += 1;
                }
                proof {
                    assert(catalog_ids(funcs@).take(m as int) =~= catalog_ids(funcs@));
                }
            }
            proof {
                lemma_entries_catalog_push(prefix, self.entries_spec()[i as int]);
                assert(prefix.push(self.entries_spec()[i as int]) =~= self.entries_spec().take(
                    i + 1,
                ));
                if self.entries_spec()[i as int].funcs is None {
                    assert(catalog_ids(out@) =~= entries_catalog(prefix) + entry_ids(
                        self.entries_spec()[i as int],
                    ));
                }
            }
            i += 1;
        }
        proof {
            assert(self.entries_spec().take(n as int) =~= self.entries_spec());
        }
        Ok(out)
    }

    /// Resolve against the first registering provider whose captured
    /// catalog advertises `id`; fail with `FunctionNotFound` exactly when
    /// no registered provider advertises it.
    fn get_func(&self, id: &String) -> (r: Result<E::Handle, Error>) {
        let n = self.entries.len();
        let mut i: usize = 0;
        while i < n
            invariant
                0 <= i <= n == self.entries_spec().len(),
                self.entries_ok(),
                forall|j: int|
                    0 <= j < i ==> !advertises(entry_ids(#[trigger] self.entries_spec()[j]), id@),
            decreases n - i,
        {
            let found = match &self.entries[i].funcs {
                Some(funcs) => contains_id(funcs, id),
                None => false,
            };
            if found {
                proof {
                    lemma_find_provider(self.entries_spec(), id@);
                    assert(find_provider(self.entries_spec(), id@) == Some(i as int)) by {
                        match find_provider(self.entries_spec(), id@) {
                            Some(k) => {
                                assert(!(k < i) && !(i < k));
                            },
                            None => {
                                assert(false);
                            },
                        }
                    }
                }
                let r = self.entries[i].item.get_func(id);
                proof {
                    assert(entry_ids(self.entries_spec()[i as int])
                        == self.entries_spec()[i as int].item.catalog());
                }
                return r;
            }
            i += 1;
        }
        proof {
            lemma_find_provider(self.entries_spec(), id@);
            assert(find_provider(self.entries_spec(), id@) is None) by {
                match find_provider(self.entries_spec(), id@) {
                    Some(k) => {
                        assert(!advertises(entry_ids(self.entries_spec()[k]), id@));
                    },
                    None => {},
                }
            }
        }
        Err(Error::FunctionNotFound(id.clone()))
    }
}

impl<D: YapsData, E, P> FuncConsumer<D, P> for LocalHub<D, E> where
    E: FuncProvider<D> + FuncConsumer<D, E> + FuncConsumer<D, P>,
    P: FuncProvider<D>,
 {
    open spec fn connect_ens(pre: Self, post: Self, p: P, r: Result<(), Error>) -> bool {
        &&& post.entries_spec().len() == pre.entries_spec().len()
        &&& (no_consumer_entries(pre.entries_spec()) ==> r is Ok)
        &&& (connect_always_ok::<D, E, P>() ==> r is Ok)
        &&& match r {
            Ok(_) => forall|i: int|
                0 <= i < pre.entries_spec().len() ==> entry_stepped_ok::<D, E, P>(
                    #[trigger] pre.entries_spec()[i],
                    post.entries_spec()[i],
                    p,
                ),
            Err(e) => exists|k: int|
                {
                    &&& 0 <= k < pre.entries_spec().len()
                    &&& (#[trigger] pre.entries_spec()[k]).is_consumer
                    &&& (forall|j: int|
                        0 <= j < k ==> entry_stepped_ok::<D, E, P>(
                            #[trigger] pre.entries_spec()[j],
                            post.entries_spec()[j],
                            p,
                        ))
                    &&& post.entries_spec()[k].funcs == pre.entries_spec()[k].funcs
                    &&& post.entries_spec()[k].is_consumer
                    &&& <E as FuncConsumer<D, P>>::connect_ens(
                        pre.entries_spec()[k].item,
                        post.entries_spec()[k].item,
                        p,
                        Err(e),
                    )
                    &&& (forall|j: int|
                        k < j < pre.entries_spec().len() ==> #[trigger] post.entries_spec()[j]
                            == pre.entries_spec()[j])
                },
        }
    }

    /// Forward the new provider to every registered consumer, in
    /// registration order, stopping at the first failure.
    fn connect(&mut self, provider: &P) -> (r: Result<(), Error>) {
        let n = self.entries.len();
        let mut i: usize = 0;
        while i < n
            invariant
                0 <= i <= n == self.entries_spec().len(),
                n == old(self).entries_spec().len(),
                provider.inv(),
                forall|j: int|
                    0 <= j < i ==> entry_stepped_ok::<D, E, P>(
                        #[trigger] old(self).entries_spec()[j],
                        self.entries_spec()[j],
                        *provider,
                    ),
                forall|j: int|
                    i <= j < n ==> #[trigger] self.entries_spec()[j] == old(self).entries_spec()[j],
            decreases n - i,
        {
            if self.entries[i].is_consumer {
                let ghost pre_item = self.entries_spec()[i as int].item;
                let res = self.entries[i].item.connect(provider);
                let ghost gres = res;
                proof {
                    assert(pre_item == old(self).entries_spec()[i as int].item);
                    assert(<E as FuncConsumer<D, P>>::connect_ens(
                        pre_item,
                        self.entries_spec()[i as int].item,
                        *provider,
                        gres,
                    ));
                }
                match res {
                    Err(e) => {
                        proof {
                            let k = i as int;
                            assert(gres == Err::<(), Error>(e));
                            assert({
                                &&& 0 <= k < old(self).entries_spec().len()
                                &&& old(self).entries_spec()[k].is_consumer
                                &&& (forall|j: int|
                                    0 <= j < k ==> entry_stepped_ok::<D, E, P>(
                                        #[trigger] old(self).entries_spec()[j],
                                        self.entries_spec()[j],
                                        *provider,
                                    ))
                                &&& self.entries_spec()[k].funcs == old(self).entries_spec()[k].funcs
                                &&& self.entries_spec()[k].is_consumer
                                &&& <E as FuncConsumer<D, P>>::connect_ens(
                                    old(self).entries_spec()[k].item,
                                    self.entries_spec()[k].item,
                                    *provider,
                                    Err(e),
                                )
                                &&& (forall|j: int|
                                    k < j < old(self).entries_spec().len()
                                        ==> #[trigger] self.entries_spec()[j] == old(
                                        self,
                                    ).entries_spec()[j])
                            });
                        }
                        return Err(e);
                    },
                    Ok(()) => {
                        proof {
                            assert(gres is Ok && <E as FuncConsumer<D, P>>::connect_ens(
                                pre_item,
                                self.entries_spec()[i as int].item,
                                *provider,
                                gres,
                            ));
                            assert(entry_stepped_ok::<D, E, P>(
                                old(self).entries_spec()[i as int],
                                self.entries_spec()[i as int],
                                *provider,
                            ));
                        }
                    },
                }
            }
            i += 1;
        }
        Ok(())
    }
}

/// A pass that changes each entry's item at most by one `connect` call,
/// under the facet law, preserves every entry's well-formedness.
proof fn lemma_entries_ok_evolved<
    D: YapsData,
    E: FuncProvider<D> + FuncConsumer<D, E> + FuncConsumer<D, P>,
    P: FuncProvider<D>,
>(pre: Seq<HubEntry<E>>, post: Seq<HubEntry<E>>, p: P)
    requires
        connect_keeps_provider_facet::<D, E, P>(),
        pre.len() == post.len(),
        forall|i: int| 0 <= i < pre.len() ==> entry_ok::<D, E>(#[trigger] pre[i]),
        forall|i: int|
            0 <= i < pre.len() ==> (#[trigger] post[i].funcs == pre[i].funcs && (post[i].item
                == pre[i].item || exists|rr: Result<(), Error>|
                #[trigger] <E as FuncConsumer<D, P>>::connect_ens(pre[i].item, post[i].item, p, rr))),
    ensures
        forall|i: int| 0 <= i < post.len() ==> entry_ok::<D, E>(#[trigger] post[i]),
{
    assert forall|i: int| 0 <= i < post.len() implies entry_ok::<D, E>(#[trigger] post[i]) by {
        assert(entry_ok::<D, E>(pre[i]));
        assert(post[i].funcs == pre[i].funcs);
        if entry_is_provider(post[i]) && post[i].item != pre[i].item {
            let rr = choose|rr: Result<(), Error>|
                #[trigger] <E as FuncConsumer<D, P>>::connect_ens(pre[i].item, post[i].item, p, rr);
            assert(<E as FuncConsumer<D, P>>::connect_ens(pre[i].item, post[i].item, p, rr));
        }
    }
}

/// Every outcome of the hub's own connect changes each entry's item at
/// most by one `connect` call and keeps its roles and cached catalog.
proof fn lemma_connect_pointwise<
    D: YapsData,
    E: FuncProvider<D> + FuncConsumer<D, E> + FuncConsumer<D, P>,
    P: FuncProvider<D>,
>(pre: LocalHub<D, E>, post: LocalHub<D, E>, p: P, r: Result<(), Error>)
    requires
        <LocalHub<D, E> as FuncConsumer<D, P>>::connect_ens(pre, post, p, r),
    ensures
        post.entries_spec().len() == pre.entries_spec().len(),
        forall|i: int|
            0 <= i < pre.entries_spec().len() ==> (#[trigger] post.entries_spec()[i].funcs
                == pre.entries_spec()[i].funcs && (post.entries_spec()[i].item
                == pre.entries_spec()[i].item || exists|rr: Result<(), Error>|
                #[trigger] <E as FuncConsumer<D, P>>::connect_ens(
                    pre.entries_spec()[i].item,
                    post.entries_spec()[i].item,
                    p,
                    rr,
                ))),
{
    let a = pre.entries_spec();
    let b = post.entries_spec();
    assert forall|i: int|
        0 <= i < a.len() implies (#[trigger] b[i].funcs == a[i].funcs && (b[i].item == a[i].item
        || exists|rr: Result<(), Error>|
        #[trigger] <E as FuncConsumer<D, P>>::connect_ens(a[i].item, b[i].item, p, rr))) by {
        match r {
            Ok(_) => {
                assert(entry_stepped_ok::<D, E, P>(a[i], b[i], p));
                if a[i].is_consumer {
                    let rr = choose|rr: Result<(), Error>|
                        rr is Ok && #[trigger] <E as FuncConsumer<D, P>>::connect_ens(
                            a[i].item,
                            b[i].item,
                            p,
                            rr,
                        );
                    assert(<E as FuncConsumer<D, P>>::connect_ens(a[i].item, b[i].item, p, rr));
                }
            },
            Err(e) => {
                let k = choose|k: int|
                    {
                        &&& 0 <= k < a.len()
                        &&& (#[trigger] a[k]).is_consumer
                        &&& (forall|j: int|
                            0 <= j < k ==> entry_stepped_ok::<D, E, P>(#[trigger] a[j], b[j], p))
                        &&& b[k].funcs == a[k].funcs
                        &&& b[k].is_consumer
                        &&& <E as FuncConsumer<D, P>>::connect_ens(a[k].item, b[k].item, p, Err(e))
                        &&& (forall|j: int| k < j < a.len() ==> #[trigger] b[j] == a[j])
                    };
                if i < k {
                    assert(entry_stepped_ok::<D, E, P>(a[i], b[i], p));
                    if a[i].is_consumer {
                        let rr = choose|rr: Result<(), Error>|
                            rr is Ok && #[trigger] <E as FuncConsumer<D, P>>::connect_ens(
                                a[i].item,
                                b[i].item,
                                p,
                                rr,
                            );
                        assert(<E as FuncConsumer<D, P>>::connect_ens(a[i].item, b[i].item, p, rr));
                    }
                } else if i == k {
                    assert(<E as FuncConsumer<D, P>>::connect_ens(a[i].item, b[i].item, p, Err(e)));
                } else {
                    assert(b[i] == a[i]);
                }
            },
        }
    }
}

impl<D: YapsData, E: FuncProvider<D> + FuncConsumer<D, E>> LocalHub<D, E> {
    /// Register `p` as a provider: offer it to every registered consumer,
    /// capture its catalog, and append it; on failure nothing is appended.
    pub fn add_provider(&mut self, p: E) -> (r: Result<(), Error>)
        requires
            old(self).entries_ok(),
            connect_keeps_provider_facet::<D, E, E>(),
            p.inv(),
        ensures
            final (self).entries_ok(),
            (no_consumer_entries(old(self).entries_spec()) || connect_always_ok::<D, E, E>())
                ==> r is Ok,
            match r {
                Ok(_) => {
                    &&& final (self).entries_spec().len() == old(self).entries_spec().len() + 1
                    &&& (forall|i: int|
                        0 <= i < old(self).entries_spec().len() ==> entry_stepped_ok::<D, E, E>(
                            #[trigger] old(self).entries_spec()[i],
                            final (self).entries_spec()[i],
                            p,
                        ))
                    &&& final (self).entries_spec().last().item == p
                    &&& entry_ids(final (self).entries_spec().last()) == p.catalog()
                    &&& !final (self).entries_spec().last().is_consumer
                    &&& final (self).catalog() == old(self).catalog() + p.catalog()
                },
                Err(e) => {
                    &&& final (self).entries_spec().len() == old(self).entries_spec().len()
                    &&& <Self as FuncConsumer<D, E>>::connect_ens(
                        *old(self),
                        *final (self),
                        p,
                        Err(e),
                    )
                },
            },
    {
        let r = self.connect(&p);
        let ghost gr = r;
        proof {
            lemma_connect_pointwise::<D, E, E>(*old(self), *self, p, gr);
            lemma_entries_ok_evolved::<D, E, E>(old(self).entries_spec(), self.entries_spec(), p);
        }
        if let Err(e) = r {
            proof {
                assert(gr == Err::<(), Error>(e));
            }
            return Err(e);
        }
        let funcs = match p.provided_funcs() {
            Ok(v) => v,
            Err(e) => {
                return Err(e);
            },
        };
        let ghost connected = self.entries_spec();
        self.entries.push(HubEntry { item: p, funcs: Some(funcs), is_consumer: false });
        proof {
            lemma_entries_catalog_push(connected, final(self).entries_spec().last());
            lemma_entries_catalog_pointwise(old(self).entries_spec(), connected);
        }
        Ok(())
    }

    /// Register `c` as a consumer: offer it every already-registered
    /// provider in registration order so it may bind needed externs, then
    /// append it; on failure nothing is appended and the hub is unchanged.
    #[verifier::loop_isolation(false)]
    pub fn add_consumer(&mut self, c: E) -> (r: Result<(), Error>)
        requires
            old(self).entries_ok(),
        ensures
            final (self).entries_ok(),
            (no_provider_entries(old(self).entries_spec()) || connect_always_ok::<D, E, E>())
                ==> r is Ok,
            match r {
                Ok(_) => {
                    &&& final (self).entries_spec().len() == old(self).entries_spec().len() + 1
                    &&& (forall|i: int|
                        0 <= i < old(self).entries_spec().len() ==> #[trigger] final(self).entries_spec()[i] == old(self).entries_spec()[i])
                    &&& final (self).entries_spec().last().funcs is None
                    &&& final (self).entries_spec().last().is_consumer
                    &&& final (self).catalog() == old(self).catalog()
                    &&& offer_chain::<D, E>(
                        c,
                        final (self).entries_spec().last().item,
                        old(self).entries_spec(),
                    )
                },
                Err(e) => final (self).entries_spec() == old(self).entries_spec()
                    && offer_fails::<D, E>(c, old(self).entries_spec(), e),
            },
    {
        let mut c = c;
        let ghost c0 = c;
        let ghost mut states: Seq<E> = seq![c0];
        let n = self.entries.len();
        let mut i: usize = 0;
        while i < n
            invariant
                0 <= i <= n == self.entries_spec().len(),
                self.entries_spec() == old(self).entries_spec(),
                self.entries_ok(),
                states.len() == i + 1,
                states[0] == c0,
                states[i as int] == c,
                offer_steps::<D, E>(states, self.entries_spec().take(i as int)),
            decreases n - i,
        {
            let ghost prefix = self.entries_spec().take(i as int);
            let ghost entry = self.entries_spec()[i as int];
            let is_provider = self.entries[i].funcs.is_some();
            let ghost pre = c;
            let ghost mut gres: Result<(), Error> = Ok(());
            if is_provider {
                let res = c.connect(&self.entries[i].item);
                proof {
                    gres = res;
                }
                if let Err(e) = res {
                    proof {
                        assert(gres == Err::<(), Error>(e));
                        assert({
                            &&& 0 <= i < old(self).entries_spec().len()
                            &&& entry_is_provider(old(self).entries_spec()[i as int])
                            &&& states.len() == i + 1
                            &&& states[0] == c0
                            &&& offer_steps::<D, E>(
                                states,
                                old(self).entries_spec().take(i as int),
                            )
                            &&& <E as FuncConsumer<D, E>>::connect_ens(
                                states[i as int],
                                c,
                                old(self).entries_spec()[i as int].item,
                                Err(e),
                            )
                        });
                        assert(offer_fails::<D, E>(c0, old(self).entries_spec(), e));
                    }
                    return Err(e);
                }
            }
            proof {
                let old_states = states;
                states = states.push(c);
                assert(prefix.push(entry) =~= self.entries_spec().take(i + 1));
                if entry_is_provider(entry) {
                    assert(gres is Ok && <E as FuncConsumer<D, E>>::connect_ens(
                        pre,
                        c,
                        entry.item,
                        gres,
                    ));
                }
                assert forall|j: int|
                    0 <= j < i + 1 implies (if entry_is_provider(
                    #[trigger] self.entries_spec().take(i + 1)[j],
                ) {
                    exists|r2: Result<(), Error>|
                        r2 is Ok && #[trigger] <E as FuncConsumer<D, E>>::connect_ens(
                            states[j],
                            states[j + 1],
                            self.entries_spec().take(i + 1)[j].item,
                            r2,
                        )
                } else {
                    states[j + 1] == states[j]
                }) by {
                    assert(states[j] == old_states[j]);
                    if j < i {
                        assert(self.entries_spec().take(i + 1)[j] == prefix[j]);
                        assert(states[j + 1] == old_states[j + 1]);
                        if entry_is_provider(prefix[j]) {
                            let r2 = choose|r2: Result<(), Error>|
                                r2 is Ok && #[trigger] <E as FuncConsumer<D, E>>::connect_ens(
                                    old_states[j],
                                    old_states[j + 1],
                                    prefix[j].item,
                                    r2,
                                );
                            assert(r2 is Ok && <E as FuncConsumer<D, E>>::connect_ens(
                                states[j],
                                states[j + 1],
                                self.entries_spec().take(i + 1)[j].item,
                                r2,
                            ));
                        }
                    } else {
                        assert(self.entries_spec().take(i + 1)[j] == entry);
                        assert(states[j] == pre);
                        if entry_is_provider(entry) {
                            assert(gres is Ok && <E as FuncConsumer<D, E>>::connect_ens(
                                states[j],
                                states[j + 1],
                                self.entries_spec().take(i + 1)[j].item,
                                gres,
                            ));
                        }
                    }
                }
            }
            i += 1;
        }
        proof {
            assert(self.entries_spec().take(n as int) =~= self.entries_spec());
        }
        let ghost before_push = self.entries_spec();
        self.entries.push(HubEntry { item: c, funcs: None, is_consumer: true });
        proof {
            assert(states[0] == c0 && states[old(self).entries_spec().len() as int] == final(self).entries_spec().last().item && offer_steps::<D, E>(states, old(self).entries_spec()));
            lemma_entries_catalog_push(before_push, final(self).entries_spec().last());
            assert(entry_ids(final(self).entries_spec().last()) =~= Seq::<Seq<char>>::empty());
            assert(entries_catalog(before_push) + Seq::<Seq<char>>::empty() =~= entries_catalog(
                before_push,
            ));
        }
        Ok(())
    }

    /// Register `cp` in both roles: offer it to every registered consumer,
    /// offer it every registered provider, capture its catalog, and append
    /// it to both the provider and the consumer side.
    #[verifier::loop_isolation(false)]
    pub fn add_plugin(&mut self, cp: E) -> (r: Result<(), Error>)
        requires
            old(self).entries_ok(),
            connect_keeps_provider_facet::<D, E, E>(),
            cp.inv(),
        ensures
            final (self).entries_ok(),
            (old(self).entries_spec().len() == 0 || connect_always_ok::<D, E, E>()) ==> r is Ok,
            match r {
                Ok(_) => {
                    &&& final (self).entries_spec().len() == old(self).entries_spec().len() + 1
                    &&& (forall|i: int|
                        0 <= i < old(self).entries_spec().len() ==> entry_stepped_ok::<D, E, E>(
                            #[trigger] old(self).entries_spec()[i],
                            final (self).entries_spec()[i],
                            cp,
                        ))
                    &&& final (self).entries_spec().last().is_consumer
                    &&& entry_is_provider(final (self).entries_spec().last())
                    &&& entry_ids(final (self).entries_spec().last()) == final(self).entries_spec().last().item.catalog()
                    &&& offer_chain::<D, E>(
                        cp,
                        final (self).entries_spec().last().item,
                        final (self).entries_spec().take(
                            old(self).entries_spec().len() as int,
                        ),
                    )
                },
                Err(e) => {
                    &&& final (self).entries_spec().len() == old(self).entries_spec().len()
                    &&& (<Self as FuncConsumer<D, E>>::connect_ens(
                        *old(self),
                        *final (self),
                        cp,
                        Err(e),
                    ) || ((exists|rr: Result<(), Error>|
                        rr is Ok && #[trigger] <Self as FuncConsumer<D, E>>::connect_ens(
                            *old(self),
                            *final (self),
                            cp,
                            rr,
                        )) && offer_fails::<D, E>(cp, final (self).entries_spec(), e)))
                },
            },
    {
        let r = self.connect(&cp);
        let ghost gr = r;
        proof {
            lemma_connect_pointwise::<D, E, E>(*old(self), *self, cp, gr);
            lemma_entries_ok_evolved::<D, E, E>(old(self).entries_spec(), self.entries_spec(), cp);
        }
        if let Err(e) = r {
            proof {
                assert(gr == Err::<(), Error>(e));
            }
            return Err(e);
        }
        let ghost connected = self.entries_spec();
        proof {
            assert(connected.len() == old(self).entries_spec().len());
        }
        let mut cp = cp;
        let ghost cp0 = cp;
        let ghost mut states: Seq<E> = seq![cp0];
        let n = self.entries.len();
        let mut i: usize = 0;
        while i < n
            invariant
                0 <= i <= n == self.entries_spec().len(),
                self.entries_spec() == connected,
                connected.len() == old(self).entries_spec().len(),
                self.entries_ok(),
                connect_keeps_provider_facet::<D, E, E>(),
                states.len() == i + 1,
                states[0] == cp0,
                states[i as int] == cp,
                cp.inv(),
                cp.catalog() == cp0.catalog(),
                offer_steps::<D, E>(states, self.entries_spec().take(i as int)),
            decreases n - i,
        {
            let ghost prefix = self.entries_spec().take(i as int);
            let ghost entry = self.entries_spec()[i as int];
            let is_provider = self.entries[i].funcs.is_some();
            let ghost pre = cp;
            let ghost mut gres: Result<(), Error> = Ok(());
            if is_provider {
                let res = cp.connect(&self.entries[i].item);
                proof {
                    gres = res;
                }
                if let Err(e) = res {
                    proof {
                        assert(gres == Err::<(), Error>(e));
                        assert({
                            &&& 0 <= i < connected.len()
                            &&& entry_is_provider(connected[i as int])
                            &&& states.len() == i + 1
                            &&& states[0] == cp0
                            &&& offer_steps::<D, E>(states, connected.take(i as int))
                            &&& <E as FuncConsumer<D, E>>::connect_ens(
                                states[i as int],
                                cp,
                                connected[i as int].item,
                                Err(e),
                            )
                        });
                        assert(offer_fails::<D, E>(cp0, connected, e));
                    }
                    return Err(e);
                }
            }
            proof {
                let old_states = states;
                states = states.push(cp);
                assert(prefix.push(entry) =~= self.entries_spec().take(i + 1));
                if entry_is_provider(entry) {
                    assert(gres is Ok && <E as FuncConsumer<D, E>>::connect_ens(
                        pre,
                        cp,
                        entry.item,
                        gres,
                    ));
                }
                assert forall|j: int|
                    0 <= j < i + 1 implies (if entry_is_provider(
                    #[trigger] self.entries_spec().take(i + 1)[j],
                ) {
                    exists|r2: Result<(), Error>|
                        r2 is Ok && #[trigger] <E as FuncConsumer<D, E>>::connect_ens(
                            states[j],
                            states[j + 1],
                            self.entries_spec().take(i + 1)[j].item,
                            r2,
                        )
                } else {
                    states[j + 1] == states[j]
                }) by {
                    assert(states[j] == old_states[j]);
                    if j < i {
                        assert(self.entries_spec().take(i + 1)[j] == prefix[j]);
                        assert(states[j + 1] == old_states[j + 1]);
                        if entry_is_provider(prefix[j]) {
                            let r2 = choose|r2: Result<(), Error>|
                                r2 is Ok && #[trigger] <E as FuncConsumer<D, E>>::connect_ens(
                                    old_states[j],
                                    old_states[j + 1],
                                    prefix[j].item,
                                    r2,
                                );
                            assert(r2 is Ok && <E as FuncConsumer<D, E>>::connect_ens(
                                states[j],
                                states[j + 1],
                                self.entries_spec().take(i + 1)[j].item,
                                r2,
                            ));
                        }
                    } else {
                        assert(self.entries_spec().take(i + 1)[j] == entry);
                        assert(states[j] == pre);
                        if entry_is_provider(entry) {
                            assert(gres is Ok && <E as FuncConsumer<D, E>>::connect_ens(
                                states[j],
                                states[j + 1],
                                self.entries_spec().take(i + 1)[j].item,
                                gres,
                            ));
                        }
                    }
                }
            }
            i += 1;
        }
        proof {
            assert(self.entries_spec().take(n as int) =~= self.entries_spec());
        }
        let funcs = match cp.provided_funcs() {
            Ok(v) => v,
            Err(e) => {
                return Err(e);
            },
        };
        self.entries.push(HubEntry { item: cp, funcs: Some(funcs), is_consumer: true });
        proof {
            assert(states[0] == cp0 && states[connected.len() as int] == final(self).entries_spec().last().item && offer_steps::<D, E>(states, connected));
            assert(final (self).entries_spec().take(connected.len() as int) =~= connected);
        }
        Ok(())
    }
}

impl<D: YapsData, E: FuncProvider<D> + FuncConsumer<D, E>> LocalHub<D, E> {
    /// First-writer-wins on collision: when entry `i` is the first whose
    /// captured catalog advertises `id`, resolution of `id` goes to that
    /// entry, whatever later entries advertise. Its handle behaves as that
    /// entry's provider promises.
    pub proof fn lemma_first_writer_wins(&self, id: Seq<char>, i: int)
        requires
            0 <= i < self.entries_spec().len(),
            entry_is_provider(self.entries_spec()[i]),
            advertises(entry_ids(self.entries_spec()[i]), id),
            forall|j: int|
                0 <= j < i ==> !advertises(entry_ids(#[trigger] self.entries_spec()[j]), id),
        ensures
            find_provider(self.entries_spec(), id) == Some(i),
            advertises(self.catalog(), id),
            forall|args: D|
                self.func_req(id, args) == self.entries_spec()[i].item.func_req(id, args),
            forall|args: D, res: Result<D, Error>|
                self.func_ens(id, args, res) == self.entries_spec()[i].item.func_ens(
                    id,
                    args,
                    res,
                ),
    {
        lemma_find_provider(self.entries_spec(), id);
        match find_provider(self.entries_spec(), id) {
            Some(k) => {
                assert(!(k < i) && !(i < k));
            },
            None => {
                assert(false);
            },
        }
    }
}

} // verus!
