//! A load generator: test plans, random request data, rate schedules, work distribution over a
//! cluster, connection pools, job bookkeeping and response checks.
//!
//! Everything in this crate is plain computation with a machine-checked contract. Sockets, clocks,
//! databases and the HTTP server live in the program around it.

pub mod check_laws;
pub mod config;
pub mod config_laws;
pub mod cycle;
pub mod cycle_laws;
pub mod distribution;
pub mod distribution_laws;
pub mod draw_laws;
pub mod exchange;
pub mod exchange_laws;
pub mod executor;
pub mod executor_laws;
pub mod external_data;
pub mod file_path;
pub mod fill_laws;
pub mod generate;
pub mod generate_laws;
pub mod generator;
pub mod http_api;
pub mod http_laws;
pub mod http_req;
pub mod job_ids;
pub mod jobs;
pub mod jobs_laws;
pub mod json;
pub mod json_laws;
pub mod keywords;
pub mod lua;
pub mod metrics;
pub mod metrics_laws;
pub mod path_laws;
pub mod path_safety;
pub mod pattern;
pub mod plan_laws;
pub mod pointer;
pub mod pool;
pub mod pool_laws;
pub mod pool_metrics;
pub mod random;
pub mod rate_laws;
pub mod rate_spec;
pub mod read_laws;
pub mod reference_laws;
pub mod request;
pub mod request_laws;
pub mod request_specs;
pub mod response_assert;
pub mod response_laws;
pub mod routing;
pub mod routing_laws;
pub mod schema;
pub mod schema_laws;
pub mod serde_bridge;
pub mod session;
pub mod session_laws;
pub mod split_request;
pub mod submit_laws;
pub mod template;
pub mod template_functions;
pub mod template_laws;
pub mod text;
pub mod text_laws;
pub mod text_map;
pub mod upload;
pub mod upload_laws;
pub mod url_params;

use vstd::prelude::*;

verus! {

} // verus!
