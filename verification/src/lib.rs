//! Forge widget kit: the data model and the decisions behind each widget,
//! with their contracts.

pub mod blocks;
pub mod chat;
pub mod code;
pub mod data;
pub mod flowchart;
pub mod markdown;
pub mod node_graph;
pub mod overlays;
pub mod primitives;
pub mod strs;
pub mod term;
pub mod tone;
pub mod structure;
