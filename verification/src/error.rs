//! The error taxonomy shared by every registration and call path.
//!
//! Every failure is returned to the immediate caller as a typed value; the
//! runtime never aborts and never retries on its own.

use vstd::prelude::*;

verus! {

/// A failure on a registration or call path.
///
/// Variants that carry a `String` name the entity (function, plugin) that the
/// failure is about, or hold a diagnostic message for codec and channel
/// failures.
#[derive(Debug, Clone, PartialEq, Eq)]
pub enum Error {
    /// Resolution of an unknown function id against a provider or hub.
    FunctionNotFound(String),
    /// A plugin was used before its initialization ran.
    PluginNotInitialized(String),
    /// A bound extern's owning plugin wrapper was torn down.
    PluginWrapperDropped(String),
    /// A call went through an extern slot that was never successfully bound.
    FunctionNotInitialized(String),
    /// Keyed-registry lookup of an unknown plugin id.
    PluginNotFound(String),
    /// Keyed-registry registration of a duplicate plugin id.
    PluginRegistered(String),
    /// A codec failed to encode a value; the string is a diagnostic.
    Encode(String),
    /// A codec failed to decode a payload; the string is a diagnostic.
    Decode(String),
    /// An enqueue onto a terminated actor's request queue.
    ChannelSend(String),
    /// The actor terminated while a call was in flight, before its reply.
    HandlerInvalidated,
}

} // verus!
