//! A script engine core: compiles scripts against a fixed capability
//! surface, keeps one active script, runs its tick entry point, and lets the
//! script ask the host to move items between entities addressed by index.
pub mod bridge;
pub mod codec;
pub mod context;
pub mod engine;
pub mod input;
pub mod records;
pub mod registry;
pub mod render_context;
pub mod render_data;
pub mod text_input;
