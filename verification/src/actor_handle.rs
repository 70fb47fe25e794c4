//! The actor execution primitive: one function implementation, one FIFO
//! request queue, one serial processing loop.
//!
//! Concurrent callers enqueue requests; the actor processes them strictly
//! one at a time, threading its private state from request to request, and
//! delivers one reply per request. This models the
//! one-serial-executor-per-function guarantee: the run that processes the
//! queue is a fold of the implementation over the requests in order, so no
//! request is lost and no two requests interleave. A host drives the
//! actor's steps; the decisions all live here.

use vstd::prelude::*;

use crate::codec::Codec;
use crate::consumer_provider::YapsData;
use crate::error::Error;
use crate::value::Value;

verus! {

/// An actor: one implementation `func` from state and request to next
/// state and reply, a FIFO queue of pending requests, and whether the
/// request endpoint is still open.
pub struct Actor<S, D, F> {
    state: S,
    func: F,
    queue: Vec<D>,
    open: bool,
}

/// One possible serial execution: `states` are the successive private
/// states, one transition per request, and `replies` the delivered
/// replies, in request order.
pub open spec fn run_steps<S, D, F: Fn(S, D) -> (S, Result<D, Error>)>(
    f: F,
    states: Seq<S>,
    reqs: Seq<D>,
    replies: Seq<Result<D, Error>>,
) -> bool {
    &&& states.len() == reqs.len() + 1
    &&& replies.len() == reqs.len()
    &&& forall|i: int| #![trigger reqs[i]]
        0 <= i < reqs.len() ==> call_ensures(
            f,
            (states[i], reqs[i]),
            (states[i + 1], replies[i]),
        )
}

/// The requests `reqs` drive `f` serially from `s0` to `s1`, delivering
/// `replies`: exactly one reply per request, in order, with the state
/// threaded through every transition.
pub open spec fn runs_to<S, D, F: Fn(S, D) -> (S, Result<D, Error>)>(
    f: F,
    s0: S,
    s1: S,
    reqs: Seq<D>,
    replies: Seq<Result<D, Error>>,
) -> bool {
    exists|states: Seq<S>|
        states[0] == s0 && states[reqs.len() as int] == s1 && #[trigger] run_steps(
            f,
            states,
            reqs,
            replies,
        )
}

impl<S, D: YapsData, F: Fn(S, D) -> (S, Result<D, Error>)> Actor<S, D, F> {
    /// The actor's private state.
    pub closed spec fn state_spec(&self) -> S {
        self.state
    }

    /// The actor's implementation.
    pub closed spec fn func_spec(&self) -> F {
        self.func
    }

    /// The pending requests, oldest first.
    pub closed spec fn queue_spec(&self) -> Seq<D> {
        self.queue@
    }

    /// Whether the request endpoint is still open.
    pub closed spec fn is_open(&self) -> bool {
        self.open
    }

    /// Create an actor around one implementation and its initial state,
    /// with an empty queue and an open request endpoint.
    pub fn spawn(func: F, init: S) -> (r: Actor<S, D, F>)
        ensures
            r.func_spec() == func,
            r.state_spec() == init,
            r.queue_spec() == Seq::<D>::empty(),
            r.is_open(),
    {
        Actor { state: init, func, queue: Vec::new(), open: true }
    }

    /// The actor's private state, read from outside.
    pub fn state(&self) -> (r: &S)
        ensures
            *r == self.state_spec(),
    {
        &self.state
    }

    /// How many requests are pending.
    pub fn pending(&self) -> (r: usize)
        ensures
            r == self.queue_spec().len(),
    {
        self.queue.len()
    }

    /// Enqueue one request; fails with `ChannelSend` exactly when the
    /// request endpoint is gone.
    pub fn send(&mut self, args: D) -> (r: Result<(), Error>)
        ensures
            final(self).state_spec() == old(self).state_spec(),
            final(self).func_spec() == old(self).func_spec(),
            final(self).is_open() == old(self).is_open(),
            old(self).is_open() ==> r is Ok && final(self).queue_spec() == old(self).queue_spec().push(args),
            !old(self).is_open() ==> (r matches Err(e) && e is ChannelSend) && final(self).queue_spec() == old(self).queue_spec(),
    {
        if self.open {
            self.queue.push(args);
            Ok(())
        } else {
            Err(Error::ChannelSend(String::from_str("request endpoint is closed")))
        }
    }

    /// Process every pending request, strictly one at a time and in
    /// arrival order, delivering one reply per request.
    pub fn run(self) -> (r: (Actor<S, D, F>, Vec<Result<D, Error>>))
        requires
            forall|s: S, d: D| #[trigger] call_requires(self.func_spec(), (s, d)),
        ensures
            r.0.func_spec() == self.func_spec(),
            r.0.queue_spec() == Seq::<D>::empty(),
            r.0.is_open() == self.is_open(),
            r.1@.len() == self.queue_spec().len(),
            runs_to(self.func_spec(), self.state_spec(), r.0.state_spec(), self.queue_spec(), r.1@),
    {
        let Actor { mut state, func, mut queue, open } = self;
        proof {
            assert(func == self.func_spec());
        }
        let ghost reqs = queue@;
        let ghost mut states: Seq<S> = seq![state];
        let mut replies: Vec<Result<D, Error>> = Vec::new();
        let n = queue.len();
        let mut i: usize = 0;
        while i < n
            invariant
                0 <= i <= n == reqs.len(),
                queue@ =~= reqs.skip(i as int),
                forall|s: S, d: D| #[trigger] call_requires(func, (s, d)),
                states.len() == i + 1,
                states[0] == self.state_spec(),
                states[i as int] == state,
                func == self.func_spec(),
                reqs == self.queue_spec(),
                replies@.len() == i,
                forall|j: int| #![trigger reqs[j]]
                    0 <= j < i ==> call_ensures(
                        func,
                        (states[j], reqs[j]),
                        (states[j + 1], replies@[j]),
                    ),
            decreases n - i,
        {
            let req = queue.remove(0);
            proof {
                assert(req == reqs[i as int]);
                assert(queue@ =~= reqs.skip(i + 1));
            }
            let (s2, reply) = (func)(state, req);
            state = s2;
            replies.push(reply);
            proof {
                states = states.push(state);
            }
            i += 1;
        }
        proof {
            assert(states[0] == self.state_spec() && states[reqs.len() as int] == state
                && run_steps(func, states, reqs, replies@));
        }
        (Actor { state, func, queue, open }, replies)
    }

    /// Close the request endpoint: later sends fail with `ChannelSend`.
    pub fn close(&mut self)
        ensures
            final(self).state_spec() == old(self).state_spec(),
            final(self).func_spec() == old(self).func_spec(),
            final(self).queue_spec() == old(self).queue_spec(),
            !final(self).is_open(),
    {
        self.open = false;
    }

    /// Tear the actor down without draining its queue: every request
    /// still pending gets `HandlerInvalidated`, never a silent hang.
    pub fn shutdown(self) -> (r: Vec<Result<D, Error>>)
        ensures
            r@.len() == self.queue_spec().len(),
            forall|i: int|
                0 <= i < r@.len() ==> (#[trigger] r@[i] matches Err(e) && e is HandlerInvalidated),
    {
        let Actor { state: _, func: _, queue, open: _ } = self;
        let n = queue.len();
        let mut replies: Vec<Result<D, Error>> = Vec::new();
        let mut i: usize = 0;
        while i < n
            invariant
                0 <= i <= n,
                replies@.len() == i,
                forall|j: int|
                    0 <= j < i ==> (#[trigger] replies@[j] matches Err(e) && e is HandlerInvalidated),
            decreases n - i,
        {
            replies.push(Err(Error::HandlerInvalidated));
            i += 1;
        }
        replies
    }
}


/// How the encoded reply of one coded step relates to the typed result
/// `rv` the implementation returned: an error passes through; a value is
/// encoded, or `Encode` if the codec cannot represent it.
pub open spec fn coded_outcome<C: Codec>(codec: C, rv: Result<Value, Error>, out: Result<
    C::Data,
    Error,
>) -> bool {
    match rv {
        Err(e) => out == Err::<C::Data, Error>(e),
        Ok(v2) => if codec.enc_ok(v2) {
            out matches Ok(d) && d@ == codec.enc_spec(v2)
        } else {
            out matches Err(e2) && e2 is Encode
        },
    }
}

/// One coded step of an actor whose implementation works on typed values:
/// decode the request, apply the implementation to the state and the
/// value, encode the reply. This is the composition an actor host wraps
/// around a typed implementation, the counterpart of a caller's
/// [`crate::func_handle::FuncHandle::call_with_codec`]. A payload that is
/// not the encoding of a value leaves the state unchanged and replies
/// `Decode`.
pub fn codec_step<S, C: Codec, F: Fn(S, Value) -> (S, Result<Value, Error>)>(
    codec: &C,
    func: &F,
    state: S,
    args: C::Data,
) -> (r: (S, Result<C::Data, Error>))
    requires
        forall|s: S, v: Value| #[trigger] call_requires(*func, (s, v)),
    ensures
        match codec.dec_spec(args@) {
            None => r.1 matches Err(e) && e is Decode && r.0 == state,
            Some(v) => exists|rv: Result<Value, Error>|
                #[trigger] call_ensures(*func, (state, v), (r.0, rv)) && coded_outcome(
                    *codec,
                    rv,
                    r.1,
                ),
        },
{
    let v = match codec.decode(args) {
        Ok(v) => v,
        Err(e) => {
            return (state, Err(e));
        },
    };
    let (s2, rv) = (func)(state, v);
    match rv {
        Err(e) => {
            let res: (S, Result<C::Data, Error>) = (s2, Err(e));
            proof {
                let grv = res.1;
                assert(grv matches Err(e2) && call_ensures(*func, (state, v), (res.0, Err::<
                    Value,
                    Error,
                >(e2))) && coded_outcome(*codec, Err::<Value, Error>(e2), res.1));
            }
            res
        },
        Ok(out) => {
            match codec.encode(&out) {
                Ok(d) => {
                    let res: (S, Result<C::Data, Error>) = (s2, Ok(d));
                    proof {
                        assert(call_ensures(*func, (state, v), (res.0, Ok::<Value, Error>(out)))
                            && coded_outcome(*codec, Ok::<Value, Error>(out), res.1));
                    }
                    res
                },
                Err(e2) => {
                    let res: (S, Result<C::Data, Error>) = (s2, Err(e2));
                    proof {
                        assert(call_ensures(*func, (state, v), (res.0, Ok::<Value, Error>(out)))
                            && coded_outcome(*codec, Ok::<Value, Error>(out), res.1));
                    }
                    res
                },
            }
        },
    }
}

/// If every transition of `f` adds exactly one to the state, a serial run
/// of `n` requests adds exactly `n`: no concurrent enqueuer's increment is
/// lost.
pub proof fn lemma_counter_run<D, F: Fn(u64, D) -> (u64, Result<D, Error>)>(
    f: F,
    s0: u64,
    s1: u64,
    reqs: Seq<D>,
    replies: Seq<Result<D, Error>>,
)
    requires
        forall|s: u64, d: D, s2: u64, r: Result<D, Error>|
            #[trigger] call_ensures(f, (s, d), (s2, r)) ==> s2 == s + 1,
        runs_to(f, s0, s1, reqs, replies),
    ensures
        s1 == s0 + reqs.len(),
{
    let states = choose|states: Seq<u64>|
        states[0] == s0 && states[reqs.len() as int] == s1 && #[trigger] run_steps(
            f,
            states,
            reqs,
            replies,
        );
    lemma_counter_states(f, states, reqs, replies, reqs.len() as int);
}

proof fn lemma_counter_states<D, F: Fn(u64, D) -> (u64, Result<D, Error>)>(
    f: F,
    states: Seq<u64>,
    reqs: Seq<D>,
    replies: Seq<Result<D, Error>>,
    k: int,
)
    requires
        forall|s: u64, d: D, s2: u64, r: Result<D, Error>|
            #[trigger] call_ensures(f, (s, d), (s2, r)) ==> s2 == s + 1,
        run_steps(f, states, reqs, replies),
        0 <= k <= reqs.len(),
    ensures
        states[k] == states[0] + k,
    decreases k,
{
    if k > 0 {
        lemma_counter_states(f, states, reqs, replies, k - 1);
        assert(call_ensures(f, (states[k - 1], reqs[k - 1]), (states[k], replies[k - 1])));
    }
}

} // verus!
