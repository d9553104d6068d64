//! The response serializer: turns a structured response into the exact wire
//! bytes: status line, header lines in the map's stored order, a
//! `Content-Length` computed from the body when the handler set none, a
//! blank line, then the raw body.

use vstd::prelude::*;
use crate::headers::{Headers, HeaderPair, assoc_get};
use crate::bytes::{dec_of, push_all, push_dec};
use crate::text::{
    http_version, msg_ok, msg_created, msg_not_found, msg_internal, content_length_name,
    header_sep, crlf, http_version_vec, msg_ok_vec, msg_created_vec, msg_not_found_vec,
    msg_internal_vec, content_length_name_vec, header_sep_vec, crlf_vec,
};

verus! {

/// A response, as the contracts speak of it.
#[verifier::ext_equal]
pub struct ResponseModel {
    pub status_code: u16,
    pub headers: Seq<HeaderPair>,
    pub body: Seq<u8>,
}

/// A response a handler builds: status code, header map and body bytes.
/// The status message is derived from the code when serialized.
pub struct HttpResponse {
    pub status_code: u16,
    pub headers: Headers,
    pub body: Vec<u8>,
}

impl View for HttpResponse {
    type V = ResponseModel;

    open spec fn view(&self) -> ResponseModel {
        ResponseModel { status_code: self.status_code, headers: self.headers@, body: self.body@ }
    }
}

/// The fixed message for a status code; any code outside the table reads
/// `"Internal error"`.
pub open spec fn status_message(code: u16) -> Seq<u8> {
    if code == 200 {
        msg_ok()
    } else if code == 201 {
        msg_created()
    } else if code == 404 {
        msg_not_found()
    } else {
        msg_internal()
    }
}

/// One header on the wire: `name: value` and a line ending.
pub open spec fn ser_header_line(p: HeaderPair) -> Seq<u8> {
    p.0 + header_sep() + p.1 + crlf()
}

/// The header section: each entry's line, in the map's stored order.
pub open spec fn ser_headers(entries: Seq<HeaderPair>) -> Seq<u8>
    decreases entries.len(),
{
    if entries.len() == 0 {
        Seq::empty()
    } else {
        ser_header_line(entries[0]) + ser_headers(entries.drop_first())
    }
}

/// The headers as written: when the handler set no `Content-Length`, one
/// computed from the body's byte length is appended last.
pub open spec fn effective_headers(entries: Seq<HeaderPair>, body_len: nat) -> Seq<HeaderPair> {
    if assoc_get(entries, content_length_name()) is Some {
        entries
    } else {
        entries.push((content_length_name(), dec_of(body_len)))
    }
}

/// The exact wire bytes of a response.
pub open spec fn spec_serialize_response(m: ResponseModel) -> Seq<u8> {
    http_version() + seq![32u8] + dec_of(m.status_code as nat) + seq![32u8] + status_message(
        m.status_code,
    ) + crlf() + ser_headers(effective_headers(m.headers, m.body.len())) + crlf() + m.body
}

/// Serializing one more entry appends its line.
pub proof fn lemma_ser_headers_push(entries: Seq<HeaderPair>, p: HeaderPair)
    ensures
        ser_headers(entries.push(p)) == ser_headers(entries) + ser_header_line(p),
    decreases entries.len(),
{
    if entries.len() == 0 {
        assert(entries.push(p).drop_first() =~= Seq::<HeaderPair>::empty());
        assert(ser_headers(Seq::<HeaderPair>::empty()) == Seq::<u8>::empty());
        assert(ser_headers(entries.push(p)) == ser_header_line(p) + Seq::<u8>::empty());
        assert(ser_headers(entries.push(p)) =~= ser_headers(entries) + ser_header_line(p));
    } else {
        lemma_ser_headers_push(entries.drop_first(), p);
        assert(entries.push(p).drop_first() =~= entries.drop_first().push(p));
        assert(ser_headers(entries.push(p)) =~= ser_headers(entries) + ser_header_line(p));
    }
}

/// The fixed message for a status code, built at run time.
pub fn status_message_vec(code: u16) -> (r: Vec<u8>)
    ensures
        r@ == status_message(code),
{
    if code == 200 {
        msg_ok_vec()
    } else if code == 201 {
        msg_created_vec()
    } else if code == 404 {
        msg_not_found_vec()
    } else {
        msg_internal_vec()
    }
}

impl HttpResponse {
    /// A response from its parts.
    pub fn new(status_code: u16, headers: Headers, body: Vec<u8>) -> (r: HttpResponse)
        ensures
            r@.status_code == status_code,
            r@.headers == headers@,
            r@.body == body@,
    {
        HttpResponse { status_code, headers, body }
    }

    /// The exact byte sequence this response puts on the wire.
    #[verifier::loop_isolation(false)]
    pub fn to_string(&self) -> (r: Vec<u8>)
        ensures
            r@ == spec_serialize_response(self@),
    {
        let mut out = http_version_vec();
        out.push(32);
        push_dec(&mut out, self.status_code as usize);
        out.push(32);
        let msg = status_message_vec(self.status_code);
        push_all(&mut out, msg.as_slice());
        let sep = header_sep_vec();
        let eol = crlf_vec();
        push_all(&mut out, eol.as_slice());
        assert(out@ =~= http_version() + seq![32u8] + dec_of(self.status_code as nat) + seq![32u8]
            + status_message(self.status_code) + crlf());
        let ghost head = out@;

        let ghost entries = self.headers@;
        let m = self.headers.len();
        let mut i: usize = 0;
        assert(entries.skip(0) =~= entries);
        while i < m
            invariant
                0 <= i <= m,
                out@ + ser_headers(entries.skip(i as int)) == head + ser_headers(entries),
            decreases m - i,
        {
            let p = self.headers.pair_at(i);
            proof {
                assert(entries.skip(i as int)[0] == entries[i as int]);
                assert(entries.skip(i as int).drop_first() =~= entries.skip(i as int + 1));
            }
            let ghost before = out@;
            push_all(&mut out, p.0.as_slice());
            push_all(&mut out, sep.as_slice());
            push_all(&mut out, p.1.as_slice());
            push_all(&mut out, eol.as_slice());
            proof {
                assert(out@ =~= before + ser_header_line(entries[i as int]));
                assert(before + ser_header_line(entries[i as int]) + ser_headers(
                    entries.skip(i as int + 1),
                ) =~= before + ser_headers(entries.skip(i as int)));
            }
            i = i + 1;
        }
        assert(entries.skip(m as int).len() == 0);
        assert(out@ =~= head + ser_headers(entries));

        let has_cl = match self.headers.get(content_length_name_vec().as_slice()) {
            Some(_) => true,
            None => false,
        };
        if !has_cl {
            let ghost before = out@;
            push_all(&mut out, content_length_name_vec().as_slice());
            push_all(&mut out, sep.as_slice());
            push_dec(&mut out, self.body.len());
            push_all(&mut out, eol.as_slice());
            proof {
                let p = (content_length_name(), dec_of(self.body@.len()));
                assert(out@ =~= before + ser_header_line(p));
                lemma_ser_headers_push(entries, p);
                assert(out@ =~= head + ser_headers(effective_headers(entries, self.body@.len())));
            }
        }
        push_all(&mut out, eol.as_slice());
        push_all(&mut out, self.body.as_slice());
        assert(out@ =~= spec_serialize_response(self@));
        out
    }
}

} // verus!
