//! A typed document-store layer: stored-document layout with an optimistic
//! version lock, typed filter / update / sort builders, index declarations and
//! the diff between declared and existing indexes, bulk-failure accounting,
//! and the naming and attribute rules of the entity declarations.

pub mod bson;
pub mod case;
pub mod doc;
pub mod entity;
pub mod entity_decl;
pub mod error;
pub mod field;
pub mod filter;
pub mod index;
pub mod index_attr;
pub mod json;
pub mod lifecycle;
pub mod lifecycle_laws;
pub mod ops;
pub mod partial;
pub mod sort;
pub mod text;
pub mod transaction;
pub mod type_shape;
pub mod update;
pub mod version;
