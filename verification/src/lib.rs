//! Incremental grouped-aggregation engine for a streaming SQL
//! materialization pipeline.
//!
//! The heart of the crate is a dataflow operator that keeps a materialized
//! aggregate view (COUNT / SUM / AVG / GROUP_CONCAT) continuously up to date
//! as signed rows (insertions and retractions) arrive in batches, without
//! ever recomputing an aggregate from scratch.  Around it stand the small
//! pieces the surrounding system needs: the SQL column-definition model and
//! its parser, the query-execution metric events, and the rewrite that turns
//! `COUNT(*)` into a concrete column-counting expression.

pub mod aggregate;
pub mod column;
pub mod count_star;
pub mod error;
pub mod grouped;
pub mod keymap;
pub mod laws;
pub mod query_metrics;
pub mod strfmt;
pub mod value;
