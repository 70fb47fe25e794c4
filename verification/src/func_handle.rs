//! Callable handles: the caller-facing capability to invoke one exported
//! function with an encoded payload.

use vstd::prelude::*;

use crate::codec::Codec;
use crate::consumer_provider::YapsData;
use crate::error::Error;
use crate::value::Value;

verus! {

/// A single callable unit bound to one exported function: it accepts a
/// payload and returns a payload or an error.
///
/// `call_req` says on which payloads the handle may be called; `call_ens`
/// is the impl's description of every possible outcome.
pub trait FuncHandle<D: YapsData>: Sized {
    /// Payloads this handle accepts.
    spec fn call_req(&self, args: D) -> bool;

    /// What holds of every outcome of a call.
    spec fn call_ens(&self, args: D, r: Result<D, Error>) -> bool;

    /// Invoke the bound function on one payload.
    fn call(&self, args: D) -> (r: Result<D, Error>)
        requires
            self.call_req(args),
        ensures
            self.call_ens(args, r),
    ;

    /// Encode `args`, call, and decode the result: the composition a
    /// caller uses when it holds typed values rather than payloads. It
    /// fails with whichever of the encode, call, or decode errors occurs
    /// first: an unencodable value gives `Encode`, a call failure gives
    /// the handle's own error, and an undecodable reply gives `Decode`.
    fn call_with_codec<C: Codec<Data = D>>(&self, codec: &C, args: &Value) -> (r: Result<
        Value,
        Error,
    >)
        requires
            forall|d: D| #[trigger] self.call_req(d),
        ensures
            !codec.enc_ok(*args) ==> (r matches Err(e) && e is Encode),
            codec.enc_ok(*args) ==> exists|din: D|
                #[trigger] self.call_req(din) && din@ == codec.enc_spec(*args) && (match r {
                    Ok(out) => exists|dout: D|
                        #[trigger] self.call_ens(din, Ok(dout)) && codec.dec_spec(dout@) == Some(
                            out,
                        ),
                    Err(e) => self.call_ens(din, Err(e)) || (e is Decode && exists|dout: D|
                        #[trigger] self.call_ens(din, Ok(dout)) && codec.dec_spec(dout@)
                            is None),
                }),
    {
        let data_in = match codec.encode(args) {
            Ok(d) => d,
            Err(e) => {
                return Err(e);
            },
        };
        let ghost gdin = data_in;
        let data_out = match self.call(data_in) {
            Ok(d) => d,
            Err(e) => {
                proof {
                    assert(self.call_req(gdin));
                    assert(self.call_ens(gdin, Err(e)));
                }
                return Err(e);
            },
        };
        let ghost gdout = data_out;
        match codec.decode(data_out) {
            Ok(v) => {
                proof {
                    assert(self.call_req(gdin));
                    assert(self.call_ens(gdin, Ok(gdout)));
                }
                Ok(v)
            },
            Err(e) => {
                proof {
                    assert(self.call_req(gdin));
                    assert(self.call_ens(gdin, Ok(gdout)));
                }
                Err(e)
            },
        }
    }
}

/// The minimal handle: a wrapper around one function value, calling it
/// directly in the caller's context.
pub struct SimpleHandle<D, F> {
    func: F,
    _marker: core::marker::PhantomData<D>,
}

impl<D: YapsData, F: Fn(D) -> Result<D, Error>> SimpleHandle<D, F> {
    /// The function value this handle calls.
    pub closed spec fn func_spec(&self) -> F {
        self.func
    }

    /// The handle wrapping a given function value.
    pub closed spec fn spec_new(func: F) -> SimpleHandle<D, F> {
        SimpleHandle { func, _marker: core::marker::PhantomData }
    }

    /// Wrap a function value as a handle.
    pub fn new(func: F) -> (r: SimpleHandle<D, F>)
        ensures
            r == Self::spec_new(func),
            r.func_spec() == func,
    {
        SimpleHandle { func, _marker: core::marker::PhantomData }
    }
}

impl<D: YapsData, F: Fn(D) -> Result<D, Error>> FuncHandle<D> for SimpleHandle<D, F> {
    open spec fn call_req(&self, args: D) -> bool {
        call_requires(self.func_spec(), (args,))
    }

    open spec fn call_ens(&self, args: D, r: Result<D, Error>) -> bool {
        call_ensures(self.func_spec(), (args,), r)
    }

    fn call(&self, args: D) -> (r: Result<D, Error>) {
        (self.func)(args)
    }
}

} // verus!
