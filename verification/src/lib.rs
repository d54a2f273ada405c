//! A typed key-space layer over the `sled` embedded ordered key-value store.
//!
//! Many logically distinct key-value schemas share one physical `sled` tree.
//! Each schema is a [`keyspace::SledKeySpace`]: a key type, a value type, and
//! order-preserving serializers that keep the schemas' byte namespaces apart.
//! [`tree::SledTree`] wraps one physical tree and offers point, range, prefix,
//! batch and transactional operations parameterized by a key space.

pub mod codec;
pub mod engine;
pub mod errors;
pub mod keyspace;
pub mod laws;
pub mod order;
pub mod spaces;
pub mod tree;
pub mod txn;
pub mod view;
