//! A driver-agnostic document-database access layer: a backend-neutral query
//! model with an exact translation to and from the wire format, the options
//! and errors of the backend contract, and the decisions of the typed
//! collection engine.

pub mod driver;
pub mod engine;
pub mod error;
pub mod index;
pub mod query;
pub mod query_laws;
pub mod wire;

pub use driver::{Find, OperationCount, Sorting};
pub use engine::{GlobalSlot, WriteRequest};
pub use error::{OResult, OrmoxError};
pub use index::Index;
pub use query::{Query, QueryKey, QueryValue, SimpleQuery};
pub use wire::{Number, WireDocument, WireValue};
