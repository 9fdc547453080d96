//! Build-time generation of a lock-free metrics registry: counter names are
//! found in source text, deduplicated and ordered, and rendered as the source
//! of a struct with one atomic field per name.

pub mod name_order;
pub mod collector;
pub mod scanner;
pub mod emitter;
pub mod pipeline;
