//! Secondary-index maintenance for a document store: value expansion into
//! indexable tuples, storage key shaping, and the conditional write protocol
//! that keeps unique, non-unique and full-text indexes in step with records.

pub mod location;
pub mod value;
pub mod combinator;
pub mod key;
pub mod store;
pub mod err;
pub mod kvs;
pub mod render;
pub mod index;
pub mod doc;
pub mod laws;
