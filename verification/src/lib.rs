//! Recovery of virtual-dispatch layouts behind indirect calls.
//!
//! The library finds call sites of the form `call [base_reg + offset]` in a
//! lifted instruction stream, estimates how many method pointers a vtable
//! holds by scanning memory for a run of code pointers, reconciles static
//! addresses with runtime addresses of a rebased image, accumulates
//! deduplicated per-site observations over a trace session, and turns them
//! into deterministic structural type layouts.
//!
//! All decisions are made over plain values: the surrounding tooling reads
//! sections, registers and memory from a binary image or a live debuggee and
//! hands them in as [`memory::SectionTable`] and [`memory::MemorySnapshot`]
//! values.

pub mod controller;
pub mod debug_types;
pub mod estimator;
pub mod memory;
pub mod rebase;
pub mod scanner;
pub mod synth;
pub mod vtable_scan;
