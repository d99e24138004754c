//! An operational simulator of weak shared-memory concurrency models.
//!
//! A small assembly-like program with several threads is executed one legal
//! step at a time under one of three hardware memory models: sequential
//! consistency (SC), total store order (TSO) or partial store order (PSO).
//! The heart of the simulator is a dependency graph over events whose
//! sources are the legal next steps, per-model store buffers, and a rewind
//! mechanism for backward branches.

pub mod graph;
pub mod laws;
pub mod instruction;
pub mod memory_model;
pub mod parser;
pub mod storage;
pub mod threads;
