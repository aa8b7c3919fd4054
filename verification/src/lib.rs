//! Step-by-step execution tracing for a program visualiser.
//!
//! The tracing engine watches a program run in an abstract machine, one step
//! at a time, and makes a trace of frame snapshots of it:
//! - `layout`, `memory`: the machine's types and memory as plain values;
//! - `scalar`, `decode`, `value`: the decoder from typed memory to values;
//! - `spans`, `resolver`: from program locations to source ranges;
//! - `frame`, `eval`, `trace`: snapshots, the evaluator and the trace;
//! - `document`: the trace as a document to be written out.
//!
//! Around it stand the bookkeeping of the server that hosts the traced
//! program (`container`, `shell`, `server`), the tracer's `plugin`, and the
//! book's preprocessor (`processor`).

pub mod container;
pub mod decode;
pub mod document;
pub mod eval;
pub mod fault;
pub mod frame;
pub mod layout;
pub mod memory;
pub mod plugin;
pub mod processor;
pub mod resolver;
pub mod scalar;
pub mod server;
pub mod shell;
pub mod spans;
pub mod trace;
pub mod type_ids;
pub mod value;
