//! Decisions and arithmetic of a performance agent for mobile devices: reading
//! kernel text files, summarising benchmark samples, detecting regressions and
//! steering stress runs.

pub mod agent;
pub mod agent_laws;
pub mod android;
pub mod arith;
pub mod benchmark;
pub mod benchmark_laws;
pub mod catalog;
pub mod checks;
pub mod decimal;
pub mod detector;
pub mod detector_laws;
pub mod device;
pub mod files;
pub mod ios;
pub mod media;
pub mod monitor;
pub mod natural;
pub mod network;
pub mod order;
pub mod order_laws;
pub mod power;
pub mod pressure;
pub mod probe_laws;
pub mod procfs;
pub mod procfs_laws;
pub mod profiler;
pub mod profiler_laws;
mod random;
pub mod report;
pub mod report_laws;
pub mod samples;
pub mod scheduler;
pub mod scheduler_laws;
pub mod sensors;
pub mod series;
pub mod stress;
pub mod stress_laws;
pub mod text;
pub mod text_laws;
pub mod workload;
