//! A row cache for n-gram embedding tables that live on NVMe.
//!
//! The tables are far too large for memory, and a token touches only a few rows
//! of them. A row id is a pure function of token ids, so a batch's rows are
//! known on the host: they are resolved to the slots of a flat memory that a
//! device gathers from by slot number, and rows that are not resident are read
//! into their slots first.
//!
//! * [`cache`] is the cache: lookups, eviction, and the bytes in the slots.
//! * [`residency`] and [`clock`] say what lookups decide, and [`view`] adds the
//!   bytes.
//! * [`source`] says where a table's rows lie, and [`fetch`] what has to be read
//!   for one of them. [`share`] gives a batch's reads to several workers.
//! * [`opening`], [`steps`], [`fetching`], [`sharing`], [`layer_steps`] and
//!   [`numerals`] state call by call what comes of a call.
//! * [`laws`], [`lookups`] and [`reading`] state what holds across calls.
//! * [`ssm_layer`] holds the choices of a layer that hosts such a table.
//!
//! Nothing here reads a file: the library says which blocks are wanted and takes
//! them in.

pub mod arena;
pub mod block;
pub mod cache;
pub mod clock;
pub mod error;
pub mod fetch;
pub mod fetching;
pub mod host;
pub mod laws;
pub mod layer_steps;
pub mod lookups;
pub mod numerals;
pub mod opening;
pub mod reading;
pub mod residency;
pub mod settings;
pub mod share;
pub mod sharing;
pub mod source;
pub mod ssm_layer;
pub mod steps;
pub mod text;
pub mod view;
