//! The registration protocol: providers advertise catalogs of function ids
//! and resolve ids to handles; consumers bind whichever of their required
//! extern ids a given provider satisfies.

use vstd::prelude::*;

use crate::error::Error;
use crate::func_handle::FuncHandle;

verus! {

/// Marker for payload types that may cross a plugin boundary. The view of
/// the payload is what codec contracts are stated over.
pub trait YapsData: View {

}

impl YapsData for Vec<u8> {

}

impl YapsData for String {

}

/// The unit a provider advertises. The runtime relies only on the id.
#[derive(Debug, Clone)]
pub struct FuncMetadata {
    /// The stable, caller-supplied name of one exported function.
    pub id: String,
}

/// The ids of a catalog, as character sequences.
pub open spec fn catalog_ids(funcs: Seq<FuncMetadata>) -> Seq<Seq<char>> {
    funcs.map_values(|f: FuncMetadata| f.id@)
}

/// Whether a catalog of ids advertises `id`.
pub open spec fn advertises(ids: Seq<Seq<char>>, id: Seq<char>) -> bool {
    exists|i: int| 0 <= i < ids.len() && ids[i] == id
}

/// An entity exposing a catalog of function ids and resolving them to
/// callable handles.
///
/// The specification surface is: `inv` is the provider's well-formedness,
/// `catalog` the ids it advertises, `handle_of` the handle resolution
/// yields for an advertised id, and `func_req` / `func_ens` bound that
/// handle's behavior: a caller may call it on any arguments satisfying
/// `func_req`, and everything its own contract allows satisfies
/// `func_ens`.
pub trait FuncProvider<D: YapsData>: Sized {
    /// The handle type this provider resolves ids to.
    type Handle: FuncHandle<D>;

    /// Well-formedness of the provider, established at construction.
    spec fn inv(&self) -> bool;

    /// The ids this provider currently advertises, in catalog order.
    spec fn catalog(&self) -> Seq<Seq<char>>;

    /// The handle resolution yields for `id`, meaningful when `id` is
    /// advertised.
    spec fn handle_of(&self, id: Seq<char>) -> Self::Handle;

    /// Arguments on which every handle for `id` may be called.
    spec fn func_req(&self, id: Seq<char>, args: D) -> bool;

    /// What holds of every outcome of a call through a handle for `id`.
    spec fn func_ens(&self, id: Seq<char>, args: D, r: Result<D, Error>) -> bool;

    /// The advertised catalog; stable while the provider is unchanged.
    fn provided_funcs(&self) -> (r: Result<Vec<FuncMetadata>, Error>)
        requires
            self.inv(),
        ensures
            r matches Ok(v) && catalog_ids(v@) == self.catalog(),
    ;

    /// Resolve `id` to a handle, or fail with `FunctionNotFound` exactly
    /// when `id` is not advertised.
    fn get_func(&self, id: &String) -> (r: Result<Self::Handle, Error>)
        requires
            self.inv(),
        ensures
            match r {
                Ok(h) => advertises(self.catalog(), id@) && h == self.handle_of(id@) && (forall|
                    args: D,
                |
                    self.func_req(id@, args) ==> #[trigger] h.call_req(args)) && (forall|
                    args: D,
                    res: Result<D, Error>,
                |
                    #[trigger] h.call_ens(args, res) ==> self.func_ens(id@, args, res)),
                Err(e) => !advertises(self.catalog(), id@) && (e matches Error::FunctionNotFound(s)
                    && s@ == id@),
            },
    ;
}

/// An entity that declares required external functions and binds them from
/// providers as those appear.
///
/// `connect` inspects the provider's catalog and binds each required id
/// present there into the matching extern slot; ids not present are left
/// unbound, which is not an error. A slot already bound is never rebound,
/// so offering providers one at a time binds each slot to the first
/// provider advertising its id. `connect_ens` is the impl's description of
/// the state change for every outcome.
pub trait FuncConsumer<D: YapsData, P: FuncProvider<D>>: Sized {
    /// How the consumer's state after `connect` relates to the state
    /// before, for the given provider and result.
    spec fn connect_ens(pre: Self, post: Self, provider: P, r: Result<(), Error>) -> bool;

    /// Offer `provider` to this consumer so it may bind needed externs.
    fn connect(&mut self, provider: &P) -> (r: Result<(), Error>)
        requires
            provider.inv(),
        ensures
            Self::connect_ens(*old(self), *final(self), *provider, r),
    ;
}

} // verus!
