//! The fixed pieces of wire text the protocol engine speaks of: status
//! messages, header names, route patterns and separators, each as a
//! specification-level byte sequence with a run-time builder beside it.

use vstd::prelude::*;

verus! {

/// The bytes of `"HTTP/1.1"`.
pub open spec fn http_version() -> Seq<u8> {
    seq![72, 84, 84, 80, 47, 49, 46, 49]
}

/// The bytes of `"HTTP/1.1"`, built at run time.
pub fn http_version_vec() -> (r: Vec<u8>)
    ensures
        r@ == http_version(),
{
    let mut r: Vec<u8> = Vec::new();
    r.push(72);
    r.push(84);
    r.push(84);
    r.push(80);
    r.push(47);
    r.push(49);
    r.push(46);
    r.push(49);
    assert(r@ =~= http_version());
    r
}

/// The bytes of `"OK"`.
pub open spec fn msg_ok() -> Seq<u8> {
    seq![79, 75]
}

/// The bytes of `"OK"`, built at run time.
pub fn msg_ok_vec() -> (r: Vec<u8>)
    ensures
        r@ == msg_ok(),
{
    let mut r: Vec<u8> = Vec::new();
    r.push(79);
    r.push(75);
    assert(r@ =~= msg_ok());
    r
}

/// The bytes of `"Created"`.
pub open spec fn msg_created() -> Seq<u8> {
    seq![67, 114, 101, 97, 116, 101, 100]
}

/// The bytes of `"Created"`, built at run time.
pub fn msg_created_vec() -> (r: Vec<u8>)
    ensures
        r@ == msg_created(),
{
    let mut r: Vec<u8> = Vec::new();
    r.push(67);
    r.push(114);
    r.push(101);
    r.push(97);
    r.push(116);
    r.push(101);
    r.push(100);
    assert(r@ =~= msg_created());
    r
}

/// The bytes of `"Not Found"`.
pub open spec fn msg_not_found() -> Seq<u8> {
    seq![78, 111, 116, 32, 70, 111, 117, 110, 100]
}

/// The bytes of `"Not Found"`, built at run time.
pub fn msg_not_found_vec() -> (r: Vec<u8>)
    ensures
        r@ == msg_not_found(),
{
    let mut r: Vec<u8> = Vec::new();
    r.push(78);
    r.push(111);
    r.push(116);
    r.push(32);
    r.push(70);
    r.push(111);
    r.push(117);
    r.push(110);
    r.push(100);
    assert(r@ =~= msg_not_found());
    r
}

/// The bytes of `"Internal error"`.
pub open spec fn msg_internal() -> Seq<u8> {
    seq![73, 110, 116, 101, 114, 110, 97, 108, 32, 101, 114, 114, 111, 114]
}

/// The bytes of `"Internal error"`, built at run time.
pub fn msg_internal_vec() -> (r: Vec<u8>)
    ensures
        r@ == msg_internal(),
{
    let mut r: Vec<u8> = Vec::new();
    r.push(73);
    r.push(110);
    r.push(116);
    r.push(101);
    r.push(114);
    r.push(110);
    r.push(97);
    r.push(108);
    r.push(32);
    r.push(101);
    r.push(114);
    r.push(114);
    r.push(111);
    r.push(114);
    assert(r@ =~= msg_internal());
    r
}

/// The bytes of `"Content-Type"`.
pub open spec fn content_type_name() -> Seq<u8> {
    seq![67, 111, 110, 116, 101, 110, 116, 45, 84, 121, 112, 101]
}

/// The bytes of `"Content-Type"`, built at run time.
pub fn content_type_name_vec() -> (r: Vec<u8>)
    ensures
        r@ == content_type_name(),
{
    let mut r: Vec<u8> = Vec::new();
    r.push(67);
    r.push(111);
    r.push(110);
    r.push(116);
    r.push(101);
    r.push(110);
    r.push(116);
    r.push(45);
    r.push(84);
    r.push(121);
    r.push(112);
    r.push(101);
    assert(r@ =~= content_type_name());
    r
}

/// The bytes of `"Content-Length"`.
pub open spec fn content_length_name() -> Seq<u8> {
    seq![67, 111, 110, 116, 101, 110, 116, 45, 76, 101, 110, 103, 116, 104]
}

/// The bytes of `"Content-Length"`, built at run time.
pub fn content_length_name_vec() -> (r: Vec<u8>)
    ensures
        r@ == content_length_name(),
{
    let mut r: Vec<u8> = Vec::new();
    r.push(67);
    r.push(111);
    r.push(110);
    r.push(116);
    r.push(101);
    r.push(110);
    r.push(116);
    r.push(45);
    r.push(76);
    r.push(101);
    r.push(110);
    r.push(103);
    r.push(116);
    r.push(104);
    assert(r@ =~= content_length_name());
    r
}

/// The bytes of `"text/plain"`.
pub open spec fn text_plain() -> Seq<u8> {
    seq![116, 101, 120, 116, 47, 112, 108, 97, 105, 110]
}

/// The bytes of `"text/plain"`, built at run time.
pub fn text_plain_vec() -> (r: Vec<u8>)
    ensures
        r@ == text_plain(),
{
    let mut r: Vec<u8> = Vec::new();
    r.push(116);
    r.push(101);
    r.push(120);
    r.push(116);
    r.push(47);
    r.push(112);
    r.push(108);
    r.push(97);
    r.push(105);
    r.push(110);
    assert(r@ =~= text_plain());
    r
}

/// The bytes of `"application/octet-stream"`.
pub open spec fn octet_stream() -> Seq<u8> {
    seq![97, 112, 112, 108, 105, 99, 97, 116, 105, 111, 110, 47, 111, 99, 116, 101, 116, 45, 115, 116, 114, 101, 97, 109]
}

/// The bytes of `"application/octet-stream"`, built at run time.
pub fn octet_stream_vec() -> (r: Vec<u8>)
    ensures
        r@ == octet_stream(),
{
    let mut r: Vec<u8> = Vec::new();
    r.push(97);
    r.push(112);
    r.push(112);
    r.push(108);
    r.push(105);
    r.push(99);
    r.push(97);
    r.push(116);
    r.push(105);
    r.push(111);
    r.push(110);
    r.push(47);
    r.push(111);
    r.push(99);
    r.push(116);
    r.push(101);
    r.push(116);
    r.push(45);
    r.push(115);
    r.push(116);
    r.push(114);
    r.push(101);
    r.push(97);
    r.push(109);
    assert(r@ =~= octet_stream());
    r
}

/// The bytes of `"User-Agent"`.
pub open spec fn user_agent_name() -> Seq<u8> {
    seq![85, 115, 101, 114, 45, 65, 103, 101, 110, 116]
}

/// The bytes of `"User-Agent"`, built at run time.
pub fn user_agent_name_vec() -> (r: Vec<u8>)
    ensures
        r@ == user_agent_name(),
{
    let mut r: Vec<u8> = Vec::new();
    r.push(85);
    r.push(115);
    r.push(101);
    r.push(114);
    r.push(45);
    r.push(65);
    r.push(103);
    r.push(101);
    r.push(110);
    r.push(116);
    assert(r@ =~= user_agent_name());
    r
}

/// The bytes of `"Unknown"`.
pub open spec fn unknown_body() -> Seq<u8> {
    seq![85, 110, 107, 110, 111, 119, 110]
}

/// The bytes of `"Unknown"`, built at run time.
pub fn unknown_body_vec() -> (r: Vec<u8>)
    ensures
        r@ == unknown_body(),
{
    let mut r: Vec<u8> = Vec::new();
    r.push(85);
    r.push(110);
    r.push(107);
    r.push(110);
    r.push(111);
    r.push(119);
    r.push(110);
    assert(r@ =~= unknown_body());
    r
}

/// The bytes of `"/echo/"`.
pub open spec fn echo_prefix() -> Seq<u8> {
    seq![47, 101, 99, 104, 111, 47]
}

/// The bytes of `"/echo/"`, built at run time.
pub fn echo_prefix_vec() -> (r: Vec<u8>)
    ensures
        r@ == echo_prefix(),
{
    let mut r: Vec<u8> = Vec::new();
    r.push(47);
    r.push(101);
    r.push(99);
    r.push(104);
    r.push(111);
    r.push(47);
    assert(r@ =~= echo_prefix());
    r
}

/// The bytes of `"/files/"`.
pub open spec fn files_prefix() -> Seq<u8> {
    seq![47, 102, 105, 108, 101, 115, 47]
}

/// The bytes of `"/files/"`, built at run time.
pub fn files_prefix_vec() -> (r: Vec<u8>)
    ensures
        r@ == files_prefix(),
{
    let mut r: Vec<u8> = Vec::new();
    r.push(47);
    r.push(102);
    r.push(105);
    r.push(108);
    r.push(101);
    r.push(115);
    r.push(47);
    assert(r@ =~= files_prefix());
    r
}

/// The bytes of `"/user-agent"`.
pub open spec fn user_agent_path() -> Seq<u8> {
    seq![47, 117, 115, 101, 114, 45, 97, 103, 101, 110, 116]
}

/// The bytes of `"/user-agent"`, built at run time.
pub fn user_agent_path_vec() -> (r: Vec<u8>)
    ensures
        r@ == user_agent_path(),
{
    let mut r: Vec<u8> = Vec::new();
    r.push(47);
    r.push(117);
    r.push(115);
    r.push(101);
    r.push(114);
    r.push(45);
    r.push(97);
    r.push(103);
    r.push(101);
    r.push(110);
    r.push(116);
    assert(r@ =~= user_agent_path());
    r
}

/// The bytes of `"/"`.
pub open spec fn root_path() -> Seq<u8> {
    seq![47]
}

/// The bytes of `"/"`, built at run time.
pub fn root_path_vec() -> (r: Vec<u8>)
    ensures
        r@ == root_path(),
{
    let mut r: Vec<u8> = Vec::new();
    r.push(47);
    assert(r@ =~= root_path());
    r
}

/// The bytes of `"GET"`.
pub open spec fn get_method() -> Seq<u8> {
    seq![71, 69, 84]
}

/// The bytes of `"GET"`, built at run time.
pub fn get_method_vec() -> (r: Vec<u8>)
    ensures
        r@ == get_method(),
{
    let mut r: Vec<u8> = Vec::new();
    r.push(71);
    r.push(69);
    r.push(84);
    assert(r@ =~= get_method());
    r
}

/// The bytes of `"POST"`.
pub open spec fn post_method() -> Seq<u8> {
    seq![80, 79, 83, 84]
}

/// The bytes of `"POST"`, built at run time.
pub fn post_method_vec() -> (r: Vec<u8>)
    ensures
        r@ == post_method(),
{
    let mut r: Vec<u8> = Vec::new();
    r.push(80);
    r.push(79);
    r.push(83);
    r.push(84);
    assert(r@ =~= post_method());
    r
}

/// The bytes of `": "`.
pub open spec fn header_sep() -> Seq<u8> {
    seq![58, 32]
}

/// The bytes of `": "`, built at run time.
pub fn header_sep_vec() -> (r: Vec<u8>)
    ensures
        r@ == header_sep(),
{
    let mut r: Vec<u8> = Vec::new();
    r.push(58);
    r.push(32);
    assert(r@ =~= header_sep());
    r
}

/// The bytes of `"\r\n"`.
pub open spec fn crlf() -> Seq<u8> {
    seq![13, 10]
}

/// The bytes of `"\r\n"`, built at run time.
pub fn crlf_vec() -> (r: Vec<u8>)
    ensures
        r@ == crlf(),
{
    let mut r: Vec<u8> = Vec::new();
    r.push(13);
    r.push(10);
    assert(r@ =~= crlf());
    r
}

} // verus!
