//! Evolutionary training engine for a small feed-forward network that steers a
//! three-joint robot arm, together with the text command language of the arm's
//! teleoperation link.
//!
//! Network weights and fitness scores are IEEE-754 double values.  The prover
//! cannot reason about floating-point arithmetic, so throughout this library a
//! weight is carried as its 64-bit pattern (`u64`) and a fitness score as a
//! 64-bit order key (higher key = better score; the caller chooses the order
//! embedding).  Everything structural - topology, weight counts, the weight
//! file format, mutation bookkeeping, selection and generation turnover - is
//! verified here.  The scalar arithmetic itself sits behind the [`arith::WeightOps`]
//! trait: callers supply a backend that interprets the bit patterns.

pub mod arith;
pub mod commands;
pub mod config;
pub mod network;
pub mod results;
pub mod rng;
pub mod serial;
pub mod state;
pub mod text;
