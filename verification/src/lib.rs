//! An in-process plugin bus: plugins expose named functions and depend on
//! functions exposed by other plugins, while a central hub resolves names to
//! callable handles and dispatches calls across a codec-encoded payload
//! boundary.

pub mod actor_handle;
pub mod codec;
pub mod consumer_provider;
pub mod error;
pub mod func_handle;
pub mod json;
pub mod local_hub;
pub mod orchestrator;
pub mod plugins;
pub mod serializer_deserializer;
pub mod single_provider;
pub mod value;

pub use actor_handle::Actor;
pub use consumer_provider::{FuncConsumer, FuncMetadata, FuncProvider, YapsData};
pub use error::Error;
pub use func_handle::FuncHandle;
pub use json::{JsonCodec, JsonData};
pub use local_hub::LocalHub;
pub use orchestrator::{Orchestrator, PluginConnector};
pub use single_provider::SingleProvider;
pub use value::Value;
