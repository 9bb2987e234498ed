//! Configuration records consumed by the engine core.
//!
//! Paths are opaque strings; the core never opens them itself.  Komi
//! values are carried in half points (twice the komi), so that `7.5`
//! becomes `15`: the wire encoder renders them back as decimal text.

use vstd::prelude::*;

verus! {

/// Configuration of the supervised engine child: where the binary and its
/// artifacts live, and the per-request wall-clock deadline in seconds.
#[derive(Debug, Clone)]
pub struct KatagoConfig {
    pub katago_path: String,
    pub model_path: String,
    /// Optional secondary "human-style" model artifact.
    pub human_model_path: Option<String>,
    pub config_path: String,
    pub move_timeout_secs: u64,
}

impl Default for KatagoConfig {
    fn default() -> (c: Self)
        ensures
            c.katago_path@ == "./katago"@,
            c.model_path@ == "./model.bin.gz"@,
            c.human_model_path is None,
            c.config_path@ == "./gtp_config.cfg"@,
            c.move_timeout_secs == 20,
    {
        KatagoConfig {
            katago_path: "./katago".to_owned(),
            model_path: "./model.bin.gz".to_owned(),
            human_model_path: None,
            config_path: "./gtp_config.cfg".to_owned(),
            move_timeout_secs: 20,
        }
    }
}

/// Listen address of the host HTTP server.
#[derive(Debug, Clone)]
pub struct ServerConfig {
    pub host: String,
    pub port: u16,
}

impl Default for ServerConfig {
    fn default() -> (c: Self)
        ensures
            c.host@ == "0.0.0.0"@,
            c.port == 2718,
    {
        ServerConfig { host: "0.0.0.0".to_owned(), port: 2718 }
    }
}

/// The whole configuration record handed to the core once at startup.
#[derive(Debug, Clone)]
pub struct Config {
    pub server: ServerConfig,
    pub katago: KatagoConfig,
}

impl Default for Config {
    fn default() -> (c: Self)
        ensures
            c.server.host@ == "0.0.0.0"@,
            c.server.port == 2718,
            c.katago.katago_path@ == "./katago"@,
            c.katago.model_path@ == "./model.bin.gz"@,
            c.katago.human_model_path is None,
            c.katago.config_path@ == "./gtp_config.cfg"@,
            c.katago.move_timeout_secs == 20,
    {
        Config { server: ServerConfig::default(), katago: KatagoConfig::default() }
    }
}

/// Per-request options of the line-oriented board protocol; the komi
/// is carried in half points (twice the komi value).
#[derive(Debug, Clone)]
pub struct RequestConfig {
    pub komi: Option<i32>,
    pub client: Option<String>,
    pub request_id: Option<String>,
    pub ownership: Option<bool>,
}

impl Default for RequestConfig {
    fn default() -> (c: Self)
        ensures
            c.komi is None,
            c.client is None,
            c.request_id is None,
            c.ownership is None,
    {
        RequestConfig { komi: None, client: None, request_id: None, ownership: None }
    }
}

} // verus!
