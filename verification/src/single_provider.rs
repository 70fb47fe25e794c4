//! The minimal provider: exactly one `(id, implementation)` pair.

use vstd::prelude::*;

use crate::consumer_provider::{advertises, catalog_ids, FuncConsumer, FuncMetadata, FuncProvider, YapsData};
use crate::error::Error;
use crate::func_handle::SimpleHandle;

verus! {

/// A provider wrapping a single function value under a single id.
///
/// The function value must be `Copy` so that every handle handed out is
/// the same value as the stored one and behaves identically.
pub struct SingleProvider<D, F> {
    id: String,
    func: F,
    _marker: core::marker::PhantomData<D>,
}

impl<D: YapsData, F: Fn(D) -> Result<D, Error> + Copy> SingleProvider<D, F> {
    /// The one advertised id.
    pub closed spec fn id_spec(&self) -> Seq<char> {
        self.id@
    }

    /// The wrapped function value.
    pub closed spec fn func_spec(&self) -> F {
        self.func
    }

    /// Wrap `func` as a provider advertising exactly `id`.
    pub fn new(id: String, func: F) -> (r: SingleProvider<D, F>)
        ensures
            r.id_spec() == id@,
            r.func_spec() == func,
    {
        SingleProvider { id, func, _marker: core::marker::PhantomData }
    }
}

impl<D: YapsData, F: Fn(D) -> Result<D, Error> + Copy> FuncProvider<D> for SingleProvider<D, F> {
    type Handle = SimpleHandle<D, F>;

    open spec fn inv(&self) -> bool {
        true
    }

    open spec fn catalog(&self) -> Seq<Seq<char>> {
        seq![self.id_spec()]
    }

    open spec fn handle_of(&self, id: Seq<char>) -> SimpleHandle<D, F> {
        SimpleHandle::spec_new(self.func_spec())
    }

    open spec fn func_req(&self, id: Seq<char>, args: D) -> bool {
        call_requires(self.func_spec(), (args,))
    }

    open spec fn func_ens(&self, id: Seq<char>, args: D, r: Result<D, Error>) -> bool {
        call_ensures(self.func_spec(), (args,), r)
    }

    fn provided_funcs(&self) -> (r: Result<Vec<FuncMetadata>, Error>) {
        let mut v: Vec<FuncMetadata> = Vec::new();
        v.push(FuncMetadata { id: self.id.clone() });
        proof {
            assert(catalog_ids(v@) =~= self.catalog());
        }
        Ok(v)
    }

    fn get_func(&self, id: &String) -> (r: Result<SimpleHandle<D, F>, Error>) {
        if *id == self.id {
            proof {
                assert(advertises(self.catalog(), id@)) by {
                    assert(self.catalog()[0] == id@);
                }
            }
            Ok(SimpleHandle::new(self.func))
        } else {
            proof {
                assert(!advertises(self.catalog(), id@)) by {
                    assert(forall|i: int|
                        0 <= i < self.catalog().len() ==> #[trigger] self.catalog()[i]
                            == self.id_spec());
                }
            }
            Err(Error::FunctionNotFound(id.clone()))
        }
    }
}

/// A single function has no externs: offering it a provider changes
/// nothing and always succeeds.
impl<D: YapsData, F: Fn(D) -> Result<D, Error> + Copy, P: FuncProvider<D>> FuncConsumer<
    D,
    P,
> for SingleProvider<D, F> {
    open spec fn connect_ens(pre: Self, post: Self, p: P, r: Result<(), Error>) -> bool {
        post == pre && r is Ok
    }

    fn connect(&mut self, provider: &P) -> (r: Result<(), Error>) {
        Ok(())
    }
}

} // verus!
