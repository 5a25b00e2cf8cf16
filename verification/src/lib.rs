//! Static code metrics: cyclomatic complexity and lines-of-code variants
//! for parsed source units, with ranked statistics across many units.
pub mod ast;
pub mod cyclomatic_complexity;
pub mod loc;
pub mod stats;
pub mod cc_stats;
pub mod loc_func_stats;
pub mod loc_file_stats;
pub mod large_dir;
pub mod file_duplicate;
