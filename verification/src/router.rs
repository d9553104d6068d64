//! The router: a pure map from method and path to a route, by exact-prefix
//! and exact-equality matching, first match winning.

use vstd::prelude::*;
use crate::bytes::{bytes_eq, starts_with};
use crate::text::{
    echo_prefix, files_prefix, user_agent_path, root_path, get_method, post_method,
    echo_prefix_vec, files_prefix_vec, user_agent_path_vec, root_path_vec, get_method_vec,
    post_method_vec,
};

verus! {

/// The closed set of behaviours a request can be dispatched to.
#[derive(Clone, Copy, PartialEq, Eq, Structural, Debug)]
pub enum Route {
    /// The path after `/echo/` is echoed back as the body.
    Echo,
    /// The `User-Agent` header value, or `Unknown`, is the body.
    UserAgent,
    /// The named file under the configured directory is read.
    FileGet,
    /// The request body is written to the named file.
    FilePost,
    /// The bare success answer for the root path.
    Success,
    /// Everything else.
    NotFound,
}

/// Whether `s` begins with `pre`.
pub open spec fn spec_is_prefix(s: Seq<u8>, pre: Seq<u8>) -> bool {
    s.len() >= pre.len() && s.subrange(0, pre.len() as int) == pre
}

/// Which route a method and path select, in precedence order: the `/echo/`
/// prefix for any method, then the exact `/user-agent` path, then the
/// `/files/` prefix split by method, then the exact root path, then nothing.
pub open spec fn spec_route(method: Seq<u8>, path: Seq<u8>) -> Route {
    if spec_is_prefix(path, echo_prefix()) {
        Route::Echo
    } else if path == user_agent_path() {
        Route::UserAgent
    } else if spec_is_prefix(path, files_prefix()) {
        if method == get_method() {
            Route::FileGet
        } else if method == post_method() {
            Route::FilePost
        } else {
            Route::NotFound
        }
    } else if path == root_path() {
        Route::Success
    } else {
        Route::NotFound
    }
}

/// Decides the route for a method and path.
pub fn route(method: &[u8], path: &[u8]) -> (r: Route)
    ensures
        r == spec_route(method@, path@),
{
    if starts_with(path, echo_prefix_vec().as_slice()) {
        Route::Echo
    } else if bytes_eq(path, user_agent_path_vec().as_slice()) {
        Route::UserAgent
    } else if starts_with(path, files_prefix_vec().as_slice()) {
        if bytes_eq(method, get_method_vec().as_slice()) {
            Route::FileGet
        } else if bytes_eq(method, post_method_vec().as_slice()) {
            Route::FilePost
        } else {
            Route::NotFound
        }
    } else if bytes_eq(path, root_path_vec().as_slice()) {
        Route::Success
    } else {
        Route::NotFound
    }
}

} // verus!
