//! Diagnostic reports: error-set algebra, source-error arenas, trace metadata
//! and a JSON writer, with their behaviour stated as Verus contracts.

pub mod bitset;
pub mod types;
pub mod source_chain;
pub mod chain_depth;
pub mod chain_export;
pub mod traversal;
pub mod json;
pub mod values;
pub mod attachment_text;
pub mod fast_map;
pub mod hex_id;
pub mod levels;
pub mod options;
pub mod text;
pub mod stack_filter;
pub mod set_resolver;
pub mod naming;
pub mod template;
pub mod metadata;
pub mod trace_model;
pub mod global_context;
pub mod value_view;
pub mod ir_values;
pub mod variant_model;
pub mod macro_plan;
pub mod otel_bridge;
pub mod ordering;
pub mod display_text;
pub mod report_model;
pub mod report_json;
pub mod otel_model;
