//! Incremental semantic-analysis core: a memoizing query store with revision
//! tracking, backdating and cycle recovery, together with the type-lowering,
//! impl-index, solver-bridge and inference queries built on top of it.
pub mod intern;
pub mod ty;
pub mod impls;
pub mod db;
pub mod patch;
pub mod text;
pub mod builtin_attr;
pub mod reorder;
pub mod keyword;
pub mod json;
pub mod inherent;
