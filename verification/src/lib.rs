//! A verifiable SQL query engine core: typed columnar data, proof expressions
//! and plans over a commitment-backed accessor, and the prime-field scalar
//! domain that binds query results into a checkable transcript.

pub mod boundary;
pub mod column;
pub mod eval;
pub mod expr;
pub mod i256;
pub mod ident;
pub mod plan;
pub mod query_proof;
pub mod scalar;
pub mod serial;
pub mod table;
