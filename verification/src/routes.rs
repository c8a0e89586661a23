//! Routes of the exit-IP pool's admin API:
//!
//! - `GET  /api/admin/opencode-ip-pool/providers/{id}`: status, settings, pool IPs
//! - `PUT  /api/admin/opencode-ip-pool/providers/{id}/config`: save settings
//! - `POST /api/admin/opencode-ip-pool/providers/{id}/scan`: scan the blocks
//! - `POST /api/admin/opencode-ip-pool/providers/{id}/clean`: drop dead pool keys
//! - `POST /api/admin/opencode-ip-pool/providers/{id}/restore-original`: back to the official domain
use vstd::prelude::*;

use crate::text::{chars_of, ends_with, ends_with_chars, owned, starts_with, starts_with_chars};

verus! {

/// The common prefix of the routes.
pub const OPENCODE_IP_POOL_PATH_PREFIX: &'static str = "/api/admin/opencode-ip-pool/providers/";

/// The route family of the routes.
pub const OPENCODE_IP_POOL_ROUTE_FAMILY: &'static str = "opencode_ip_pool_manage";

/// An HTTP request method.
#[derive(Debug, Clone, Copy, PartialEq, Eq, Structural)]
pub enum HttpMethod {
    Get,
    Head,
    Post,
    Put,
    Delete,
    Patch,
    Options,
    Connect,
    Trace,
    /// A method outside the standard ones.
    Other,
}

/// How the gateway handles a request that a route classifier recognised.
#[derive(Debug)]
pub struct ClassifiedRoute {
    /// Which handler class serves the route (`admin_proxy`).
    pub route_class: String,
    pub route_family: String,
    pub route_kind: String,
    /// The admin permission the route needs.
    pub permission: String,
    /// Whether the route is reachable without authentication.
    pub is_public: bool,
}

/// The route kind of a request to the exit-IP pool API, if it is one.
pub open spec fn spec_route_kind(method: HttpMethod, path: Seq<char>) -> Option<Seq<char>> {
    if !starts_with(path, OPENCODE_IP_POOL_PATH_PREFIX@) {
        None
    } else if method == HttpMethod::Get {
        Some("get_opencode_ip_pool_status"@)
    } else if method == HttpMethod::Put && ends_with(path, "/config"@) {
        Some("save_opencode_ip_pool_config"@)
    } else if method == HttpMethod::Post && ends_with(path, "/scan"@) {
        Some("run_opencode_ip_pool_scan"@)
    } else if method == HttpMethod::Post && ends_with(path, "/clean"@) {
        Some("run_opencode_ip_pool_clean"@)
    } else if method == HttpMethod::Post && ends_with(path, "/restore-original"@) {
        Some("restore_opencode_original_base_url"@)
    } else {
        None
    }
}

fn route_kind_of(method: HttpMethod, path: &str) -> (r: Option<&'static str>)
    ensures
        match r {
            Some(k) => spec_route_kind(method, path@) == Some(k@),
            None => spec_route_kind(method, path@) is None,
        },
{
    let p = chars_of(path);
    let prefix = chars_of(OPENCODE_IP_POOL_PATH_PREFIX);
    if !starts_with_chars(&p, &prefix) {
        return None;
    }
    let config = chars_of("/config");
    let scan = chars_of("/scan");
    let clean = chars_of("/clean");
    let restore = chars_of("/restore-original");
    if method == HttpMethod::Get {
        Some("get_opencode_ip_pool_status")
    } else if method == HttpMethod::Put && ends_with_chars(&p, &config) {
        Some("save_opencode_ip_pool_config")
    } else if method == HttpMethod::Post && ends_with_chars(&p, &scan) {
        Some("run_opencode_ip_pool_scan")
    } else if method == HttpMethod::Post && ends_with_chars(&p, &clean) {
        Some("run_opencode_ip_pool_clean")
    } else if method == HttpMethod::Post && ends_with_chars(&p, &restore) {
        Some("restore_opencode_original_base_url")
    } else {
        None
    }
}

/// Classifies the exit-IP pool admin routes.
pub fn classify_admin_opencode_ip_pool_routes(method: HttpMethod, normalized_path: &str) -> (r: Option<
    ClassifiedRoute,
>)
    ensures
        match r {
            Some(route) => spec_route_kind(method, normalized_path@) == Some(route.route_kind@)
                && route.route_class@ == "admin_proxy"@ && route.route_family@
                == OPENCODE_IP_POOL_ROUTE_FAMILY@ && route.permission@ == "admin:opencode_ip_pool"@
                && !route.is_public,
            None => spec_route_kind(method, normalized_path@) is None,
        },
{
    match route_kind_of(method, normalized_path) {
        Some(kind) => Some(
            ClassifiedRoute {
                route_class: owned("admin_proxy"),
                route_family: owned(OPENCODE_IP_POOL_ROUTE_FAMILY),
                route_kind: owned(kind),
                permission: owned("admin:opencode_ip_pool"),
                is_public: false,
            },
        ),
        None => None,
    }
}

} // verus!
