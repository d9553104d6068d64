//! The handlers: pure functions from a parsed request (and, for the file
//! routes, the outcome of the one filesystem operation) to a response, and
//! the dispatcher that ties the router to them.
//!
//! The filesystem itself stays with the caller: for a file route the
//! dispatcher answers with the action to perform, the caller performs it,
//! and hands the outcome to `file_get_response` or `file_post_response`.

use vstd::prelude::*;
use crate::bytes::{dec_of, copy_range, push_dec};
use crate::headers::{Headers, HeaderPair, assoc_get, lemma_assoc_get_absent,
    lemma_assoc_insert_absent};
use crate::request::HttpRequest;
use crate::response::{HttpResponse, ResponseModel};
use crate::router::{Route, spec_route, spec_is_prefix, route};
use crate::text::{
    content_type_name, content_length_name, text_plain, octet_stream, user_agent_name,
    unknown_body, echo_prefix, content_type_name_vec, content_length_name_vec,
    text_plain_vec, octet_stream_vec, user_agent_name_vec, unknown_body_vec,
};

verus! {

/// The echo answer: the path after `/echo/`, as plain text.
pub open spec fn echo_model(path: Seq<u8>) -> ResponseModel {
    ResponseModel {
        status_code: 200,
        headers: seq![
            (content_type_name(), text_plain()),
            (content_length_name(), dec_of((path.len() - 6) as nat)),
        ],
        body: path.subrange(6, path.len() as int),
    }
}

/// The header-reflection answer: the `User-Agent` value, or `Unknown`.
pub open spec fn user_agent_model(headers: Seq<HeaderPair>) -> ResponseModel {
    let ua = match assoc_get(headers, user_agent_name()) {
        Some(v) => v,
        None => unknown_body(),
    };
    ResponseModel {
        status_code: 200,
        headers: seq![
            (content_type_name(), text_plain()),
            (content_length_name(), dec_of(ua.len())),
        ],
        body: ua,
    }
}

/// The bare success answer for the root path.
pub open spec fn success_model() -> ResponseModel {
    ResponseModel {
        status_code: 200,
        headers: seq![(content_type_name(), text_plain())],
        body: Seq::empty(),
    }
}

/// The answer for anything unrouted.
pub open spec fn not_found_model() -> ResponseModel {
    ResponseModel {
        status_code: 404,
        headers: seq![(content_type_name(), text_plain())],
        body: Seq::empty(),
    }
}

/// The file-read answer: the contents as an octet stream when the read
/// succeeded, and an empty 404 when it failed in any way.
pub open spec fn file_get_model(data: Option<Seq<u8>>) -> ResponseModel {
    match data {
        Some(d) => ResponseModel {
            status_code: 200,
            headers: seq![
                (content_type_name(), octet_stream()),
                (content_length_name(), dec_of(d.len())),
            ],
            body: d,
        },
        None => not_found_model(),
    }
}

/// The file-write answer: an empty 201 on success, an empty 500 on failure.
pub open spec fn file_post_model(ok: bool) -> ResponseModel {
    ResponseModel {
        status_code: if ok {
            201
        } else {
            500
        },
        headers: seq![(content_type_name(), text_plain())],
        body: Seq::empty(),
    }
}

/// A header map holding `Content-Type: <ct>` and `Content-Length: <n>`.
fn content_headers(ct: Vec<u8>, n: usize) -> (h: Headers)
    ensures
        h@ == seq![(content_type_name(), ct@), (content_length_name(), dec_of(n as nat))],
        h.wf(),
{
    let ghost ctv = ct@;
    let mut h = Headers::new();
    h.insert(content_type_name_vec(), ct);
    let ghost e1 = h@;
    let mut num: Vec<u8> = Vec::new();
    push_dec(&mut num, n);
    h.insert(content_length_name_vec(), num);
    proof {
        assert(e1 =~= seq![(content_type_name(), ctv)]);
        assert(e1[0].0 != content_length_name());
        lemma_assoc_get_absent(e1, content_length_name());
        lemma_assoc_insert_absent(e1, content_length_name(), dec_of(n as nat));
        assert(h@ =~= seq![(content_type_name(), ctv), (content_length_name(), dec_of(n as nat))]);
    }
    h
}

/// A header map holding only `Content-Type: text/plain`.
fn plain_headers() -> (h: Headers)
    ensures
        h@ == seq![(content_type_name(), text_plain())],
        h.wf(),
{
    let mut h = Headers::new();
    h.insert(content_type_name_vec(), text_plain_vec());
    assert(h@ =~= seq![(content_type_name(), text_plain())]);
    h
}

/// Echoes the path after `/echo/` back as the body.
pub fn echo_response(req: &HttpRequest) -> (r: HttpResponse)
    requires
        spec_is_prefix(req@.path, echo_prefix()),
    ensures
        r@ == echo_model(req@.path),
{
    let body = copy_range(req.path.as_slice(), 6, req.path.len());
    let h = content_headers(text_plain_vec(), body.len());
    let r = HttpResponse::new(200, h, body);
    assert(r@ =~= echo_model(req@.path));
    r
}

/// Reflects the `User-Agent` header, or answers `Unknown` without one.
pub fn user_agent_response(req: &HttpRequest) -> (r: HttpResponse)
    ensures
        r@ == user_agent_model(req@.headers),
{
    let ua: Vec<u8> = match req.headers.get(user_agent_name_vec().as_slice()) {
        Some(v) => {
            let c = copy_range(v.as_slice(), 0, v.len());
            assert(c@ =~= v@);
            c
        },
        None => unknown_body_vec(),
    };
    let h = content_headers(text_plain_vec(), ua.len());
    let r = HttpResponse::new(200, h, ua);
    assert(r@ =~= user_agent_model(req@.headers));
    r
}

/// The empty 200 for the root path.
pub fn success_response() -> (r: HttpResponse)
    ensures
        r@ == success_model(),
{
    let r = HttpResponse::new(200, plain_headers(), Vec::new());
    assert(r@ =~= success_model());
    r
}

/// The empty 404 for anything unrouted.
pub fn not_found_response() -> (r: HttpResponse)
    ensures
        r@ == not_found_model(),
{
    let r = HttpResponse::new(404, plain_headers(), Vec::new());
    assert(r@ =~= not_found_model());
    r
}

/// Builds the answer for a file read the caller performed: `data` is the
/// file's contents, or nothing when the read failed.
pub fn file_get_response(data: Option<Vec<u8>>) -> (r: HttpResponse)
    ensures
        r@ == match data {
            Some(d) => file_get_model(Some(d@)),
            None => file_get_model(None),
        },
{
    match data {
        Some(d) => {
            let h = content_headers(octet_stream_vec(), d.len());
            let r = HttpResponse::new(200, h, d);
            assert(r@ =~= file_get_model(Some(r.body@)));
            r
        },
        None => {
            let r = HttpResponse::new(404, plain_headers(), Vec::new());
            assert(r@ =~= file_get_model(None));
            r
        },
    }
}

/// Builds the answer for a file write the caller performed: `ok` says
/// whether the write succeeded.
pub fn file_post_response(ok: bool) -> (r: HttpResponse)
    ensures
        r@ == file_post_model(ok),
{
    let code: u16 = if ok {
        201
    } else {
        500
    };
    let r = HttpResponse::new(code, plain_headers(), Vec::new());
    assert(r@ =~= file_post_model(ok));
    r
}

/// What a request asks of its connection: a response that is ready, or the
/// one filesystem operation whose outcome the response still needs.
pub enum Action {
    /// The response can be written back as it stands.
    Respond(HttpResponse),
    /// Read the named file, then build the response with `file_get_response`.
    ReadFile(Vec<u8>),
    /// Write the bytes to the named file, then build the response with
    /// `file_post_response`.
    WriteFile(Vec<u8>, Vec<u8>),
}

/// Routes a request and runs its handler as far as pure computation goes:
/// every route answers a finished response, except the file routes, which
/// answer the filesystem action they need, named by the path after
/// `/files/`.
pub fn dispatch(req: &HttpRequest) -> (a: Action)
    ensures
        match spec_route(req@.method, req@.path) {
            Route::Echo => a matches Action::Respond(r) && r@ == echo_model(req@.path),
            Route::UserAgent => a matches Action::Respond(r) && r@ == user_agent_model(
                req@.headers,
            ),
            Route::FileGet => a matches Action::ReadFile(n) && n@ == req@.path.subrange(
                7,
                req@.path.len() as int,
            ),
            Route::FilePost => a matches Action::WriteFile(n, b) && n@ == req@.path.subrange(
                7,
                req@.path.len() as int,
            ) && b@ == req@.body,
            Route::Success => a matches Action::Respond(r) && r@ == success_model(),
            Route::NotFound => a matches Action::Respond(r) && r@ == not_found_model(),
        },
{
    match route(req.method.as_slice(), req.path.as_slice()) {
        Route::Echo => Action::Respond(echo_response(req)),
        Route::UserAgent => Action::Respond(user_agent_response(req)),
        Route::FileGet => Action::ReadFile(copy_range(req.path.as_slice(), 7, req.path.len())),
        Route::FilePost => Action::WriteFile(
            copy_range(req.path.as_slice(), 7, req.path.len()),
            copy_range(req.body.as_slice(), 0, req.body.len()),
        ),
        Route::Success => Action::Respond(success_response()),
        Route::NotFound => Action::Respond(not_found_response()),
    }
}

} // verus!
