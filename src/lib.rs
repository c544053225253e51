//! Per-deployment indexing engine for subgraphs: the decisions of the
//! indexing loop, the block processor, the entity caches, proof of indexing
//! and the registry of running deployments.

pub mod block;
pub mod entity;
pub mod lfu;
pub mod data_source;
pub mod entity_cache;
pub mod poi;
pub mod error;
pub mod processor;
pub mod indexing_loop;
pub mod manager;
pub mod config;
