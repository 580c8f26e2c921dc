//! Verified core of the ebishrimp indoor-sensing platform: the ingester's
//! topic and payload routing, its batching and retry policy, the metrics
//! exporter's text format, and the dashboard's query, selection, chart and
//! formatting logic.

pub mod text;
pub mod range;
pub mod ingest;
pub mod util;
pub mod series;
pub mod chart;
pub mod web;
pub mod config;
pub mod metrics;
pub mod pipeline;
