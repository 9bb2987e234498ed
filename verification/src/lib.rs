//! Core of an HTTP front-end for a long-lived Go analysis engine.
//!
//! The engine is a child process speaking line-delimited JSON over its
//! standard streams.  This crate holds the verified heart of the server:
//! the pending-request table that multiplexes many concurrent callers onto
//! one output stream, the supervisor state machine that keeps the child
//! alive, the request normalization and wire encoding, and the error
//! taxonomy.  Process spawning, sockets and schedulers live in the host
//! application, which drives these state machines with plain events.

mod api;
mod config;
mod engine;
mod error;
mod gtp;
mod ids;
mod jsonio;
mod pending;
mod text;
mod wire;

pub use api::ApiError;
pub use api::CacheClearResponse;
pub use api::HealthResponse;
pub use api::KatagoVersion;
pub use api::ModelInfo;
pub use api::MoveFilter;
pub use api::ProblemDetail;
pub use api::ServerVersion;
pub use api::VersionResponse;
pub use api::build_version_response;
pub use api::cache_clear_response;
pub use api::health_response;
pub use api::model_file_name;
pub use config::Config;
pub use config::KatagoConfig;
pub use config::RequestConfig;
pub use config::ServerConfig;
pub use engine::AnalysisEngine;
pub use engine::AnalysisRequest;
pub use engine::RouteOutcome;
pub use engine::TickAction;
pub use engine::WaitOutcome;
pub use engine::KEEPALIVE_INTERVAL_SECS;
pub use engine::MAX_RESTART_ATTEMPTS;
pub use engine::RESTART_DELAY_SECS;
pub use engine::RESTART_INIT_WAIT_SECS;
pub use engine::analysis_engine_args;
pub use engine::build_query;
pub use engine::gtp_engine_args;
pub use engine::column_letter_for_size;
pub use engine::default_board_size;
pub use engine::is_valid_move;
pub use engine::rules_from_komi;
pub use engine::to_lower;
pub use error::KatagoError;
pub use gtp::AnalysisLineClass;
pub use gtp::Diagnostics;
pub use gtp::MoveCandidate;
pub use gtp::classify_analysis_line;
pub use gtp::decimal_field;
pub use gtp::find_after;
pub use gtp::handle_response;
pub use gtp::is_final_response;
pub use gtp::join_lines;
pub use gtp::ownership_values;
pub use gtp::parse_i32_field;
pub use gtp::parse_move_response;
pub use gtp::score_commands;
pub use gtp::select_move_commands;
pub use gtp::split_tokens;
pub use gtp::trim_str;
pub use pending::PendingTable;
pub use wire::AnalysisQuery;
pub use wire::encode_action;
pub use wire::encode_query;
