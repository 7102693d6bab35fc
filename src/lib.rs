//! Scene-parallel, resumable transcoding engine: the decisions that drive
//! scene segmentation, per-scene quality search, checkpointing, dispatch,
//! progress aggregation and final assembly.
//!
//! Times are whole milliseconds; CRF and VMAF values are thousandths
//! (`23000` is CRF 23.0, `97153` is VMAF 97.153).
pub mod assemble;
pub mod catalog;
pub mod checkpoint;
pub mod config;
pub mod paths;
pub mod progress;
pub mod protocol;
pub mod schedule;
pub mod search;
pub mod segment;
pub mod text;
