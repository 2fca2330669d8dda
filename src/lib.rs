//! Images tagged with labels: the relational schema, record shapes with a
//! client-side identity assignment, a store that enforces the schema's
//! integrity rules, and the reset / seed / lookup routine over it.

pub mod ident;
pub mod schema;
pub mod models;
pub mod store;
pub mod routine;
