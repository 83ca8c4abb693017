//! Verified decision logic of a federating media proxy.
pub mod admin_sso;
pub mod backend_health;
pub mod client;
pub mod device_sessions;
pub mod federated;
pub mod federated_users;
pub mod items;
pub mod json;
pub mod match_key;
pub mod merging;
pub mod oidc;
pub mod oidc_storage;
pub mod rate_limiter;
pub mod server_nav;
pub mod sorting;
pub mod sso;
pub mod sso_pages;
pub mod sync_queue;
pub mod sync_runs;
pub mod text;
pub mod urls;
pub mod validation;
pub mod versions;
pub mod view_merge;
pub mod watched_sync;
