//! The decision core of a PostgreSQL cache writer.
//!
//! The writer keeps a cache database in step with its origin: it consumes
//! change-data-capture commands, maintains the shared cache tables, decides
//! which cached queries must be invalidated, and merges populated snapshots.
//! Everything here is computation on plain values. Connections, channels and
//! clocks live with the caller, which performs the statements this library
//! renders and hands the replies back.
//!
//! Work that waits for replies is a machine: it is asked what it needs, and
//! stepped or answered until it needs nothing. [`writer::Writer`] is the whole
//! of it, [`cdc`] and [`task`] carry a command of the CDC stream, [`flush`] a
//! batch, [`replay`] its row events, [`segment_eval`] the questions about them,
//! [`merge_queue`] and [`drain`] the populations, [`mv_build`] a materialized
//! result, and [`eviction`] and [`reclaim`] what makes room.
//!
//! What holds of all of it stands in the modules named `*_laws`, and beside the
//! functions it is about.

// Values and texts.
pub mod error;
pub mod maps;
pub mod order;
pub mod text;
pub mod text_laws;
pub mod value_laws;
pub mod values;

// Relations, rows and queries.
pub mod catalog;
pub mod query;
pub mod query_expr;
pub mod query_expr_laws;

// Statements.
pub mod eval_laws;
pub mod eval_sql;
pub mod merge_sql;
pub mod sql;
pub mod statement_laws;

// State.
pub mod cache;
pub mod cache_laws;
pub mod deleted_keys;
pub mod frame;
pub mod keymap;
pub mod memo;
pub mod mv;
pub mod prepared;
pub mod publication;
pub mod publication_laws;
pub mod serving;
pub mod writer_core;

// Row events.
pub mod command;
pub mod command_laws;
pub mod dispatch;
pub mod event;
pub mod event_laws;
pub mod handlers;
pub mod handling_laws;
pub mod invalidation;
pub mod invalidation_laws;
pub mod membership_laws;
pub mod replay;
pub mod replay_laws;
pub mod row_ops;
pub mod segment;
pub mod segment_eval;
pub mod segment_laws;
pub mod toast;
pub mod toast_laws;

// Batches and commands.
pub mod cdc;
pub mod cdc_laws;
pub mod deadlock;
pub mod fault;
pub mod flush;
pub mod flush_laws;
pub mod write_laws;
pub mod task;

// Populations and their merges.
pub mod batch;
pub mod drain;
pub mod drain_laws;
pub mod merge_laws;
pub mod merge_queue;
pub mod population;
pub mod population_laws;
pub mod staging_laws;

// Materialized results, and making room.
pub mod eviction;
pub mod eviction_laws;
pub mod mv_build;
pub mod purge_laws;
pub mod reclaim;
pub mod upkeep_laws;

// The loop.
pub mod writer;
