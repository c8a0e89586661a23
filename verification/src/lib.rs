//! OpenCode front-proxy exit-IP pool and free-tier transport logic.
pub mod text;
pub mod ip;
pub mod ip_laws;
pub mod candidates;
pub mod rotation;
pub mod session;
pub mod json;
pub mod free_tier;
pub mod url;
pub mod transport;
pub mod front_proxy;
pub mod upstream;
pub mod config_json;
pub mod ip_pool;
pub mod pool_status;
pub mod pool_keys;
pub mod clock;
pub mod autoscan;
pub mod routes;
pub mod admin;
pub mod maintenance;
