use http_server::handlers::{
    dispatch, echo_response, file_get_response, file_post_response, not_found_response,
    success_response, user_agent_response, Action,
};
use http_server::headers::Headers;
use http_server::request::HttpRequest;
use http_server::router::{route, Route};

fn request(method: &[u8], path: &[u8]) -> HttpRequest {
    HttpRequest {
        method: method.to_vec(),
        path: path.to_vec(),
        version: b"HTTP/1.1".to_vec(),
        headers: Headers::new(),
        body: Vec::new(),
    }
}

#[test]
fn echo_route_and_body() {
    assert_eq!(route(b"GET", b"/echo/abc"), Route::Echo);
    let req = request(b"GET", b"/echo/abc");
    let resp = echo_response(&req);
    assert_eq!(resp.status_code, 200);
    assert_eq!(resp.body, b"abc".to_vec());
    assert_eq!(resp.headers.get(b"Content-Type"), Some(&b"text/plain".to_vec()));
    assert_eq!(resp.headers.get(b"Content-Length"), Some(&b"3".to_vec()));
}

#[test]
fn echo_routes_under_any_method() {
    assert_eq!(route(b"POST", b"/echo/x"), Route::Echo);
    assert_eq!(route(b"DELETE", b"/echo/x"), Route::Echo);
}

#[test]
fn user_agent_default_unknown() {
    let req = request(b"GET", b"/user-agent");
    let resp = user_agent_response(&req);
    assert_eq!(resp.status_code, 200);
    assert_eq!(resp.body, b"Unknown".to_vec());
}

#[test]
fn user_agent_reflected() {
    let mut req = request(b"GET", b"/user-agent");
    req.headers.insert(b"User-Agent".to_vec(), b"curl/7.64.1".to_vec());
    let resp = user_agent_response(&req);
    assert_eq!(resp.status_code, 200);
    assert_eq!(resp.body, b"curl/7.64.1".to_vec());
    assert_eq!(resp.headers.get(b"Content-Length"), Some(&b"11".to_vec()));
}

#[test]
fn file_round_trip_through_dispatch() {
    let mut post = request(b"POST", b"/files/f");
    post.body = b"contents".to_vec();
    match dispatch(&post) {
        Action::WriteFile(name, data) => {
            assert_eq!(name, b"f".to_vec());
            assert_eq!(data, b"contents".to_vec());
        }
        _ => panic!("a POST under /files/ must ask for a file write"),
    }
    let written = file_post_response(true);
    assert_eq!(written.status_code, 201);
    assert_eq!(written.body, Vec::<u8>::new());

    let get = request(b"GET", b"/files/f");
    match dispatch(&get) {
        Action::ReadFile(name) => assert_eq!(name, b"f".to_vec()),
        _ => panic!("a GET under /files/ must ask for a file read"),
    }
    let served = file_get_response(Some(b"contents".to_vec()));
    assert_eq!(served.status_code, 200);
    assert_eq!(served.body, b"contents".to_vec());
    assert_eq!(served.headers.get(b"Content-Type"), Some(&b"application/octet-stream".to_vec()));
    assert_eq!(served.headers.get(b"Content-Length"), Some(&b"8".to_vec()));
}

#[test]
fn unknown_route_is_404_with_empty_body() {
    assert_eq!(route(b"GET", b"/nope"), Route::NotFound);
    let resp = not_found_response();
    assert_eq!(resp.status_code, 404);
    assert_eq!(resp.body, Vec::<u8>::new());
}

#[test]
fn root_path_succeeds() {
    assert_eq!(route(b"GET", b"/"), Route::Success);
    let resp = success_response();
    assert_eq!(resp.status_code, 200);
    assert_eq!(resp.body, Vec::<u8>::new());
}

#[test]
fn files_with_other_method_not_found() {
    assert_eq!(route(b"DELETE", b"/files/x"), Route::NotFound);
}

#[test]
fn files_without_trailing_slash_not_found() {
    assert_eq!(route(b"GET", b"/files"), Route::NotFound);
}

#[test]
fn missing_file_is_404() {
    let resp = file_get_response(None);
    assert_eq!(resp.status_code, 404);
    assert_eq!(resp.body, Vec::<u8>::new());
}

#[test]
fn failed_write_is_500() {
    let resp = file_post_response(false);
    assert_eq!(resp.status_code, 500);
    assert_eq!(resp.body, Vec::<u8>::new());
}

#[test]
fn dispatch_echo_responds_directly() {
    let req = request(b"GET", b"/echo/hey");
    match dispatch(&req) {
        Action::Respond(resp) => {
            assert_eq!(resp.status_code, 200);
            assert_eq!(resp.body, b"hey".to_vec());
        }
        _ => panic!("the echo route needs no filesystem action"),
    }
}
